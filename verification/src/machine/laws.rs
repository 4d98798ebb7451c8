//! What holds of every machine and of every program: the laws that the
//! functions of this library obey together.

use super::assembly::{
    application_fits, assembled, compiled, compiled_all, compiled_operation, compiled_oprands,
    compiled_primitive, instructions, label_map, law_labels_name_positions, place_of,
    procedure_fits, program_fits, Namespace,
};
use super::execution::{applied, ran, ticked};
use super::parser::{ExprView, InstructionView, OpreationExprView, PrimitiveExprView};
use super::procedure::{
    source_fits, sources_fit, Executor, Operation, ProcedureContent, Source,
    ValueProcedureContent,
};
use super::state::{Fault, MachineStateView};
use super::{built, initial_state, lemma_initial_state, MachineView};
use vstd::prelude::*;

verus! {

/// Assembly is deterministic: two machines that were built from the same
/// register names, operations and control text have the same label table
/// and the same instruction sequence, and whatever one of them can do in a
/// tick, or in a run of any number of ticks, from some state of registers
/// and stack, the other can do from that state.
pub proof fn law_assembly_is_deterministic<E: Executor>(
    first: MachineView<E>,
    second: MachineView<E>,
    register_names: Seq<Seq<char>>,
    ops: Seq<(String, Operation<E>)>,
    controller_text: Seq<char>,
)
    requires
        built(register_names, ops, controller_text) == Ok::<MachineView<E>, Fault>(first),
        built(register_names, ops, controller_text) == Ok::<MachineView<E>, Fault>(second),
    ensures
        first.labels == second.labels,
        first.program == second.program,
        first == second,
        forall|state: MachineStateView, after: MachineView<E>, fault: Option<Fault>|
            ticked(first.with_state(state), after, fault) == ticked(
                second.with_state(state),
                after,
                fault,
            ),
        forall|state: MachineStateView, after: MachineView<E>, n: nat|
            ran(first.with_state(state), after, n) == ran(second.with_state(state), after, n),
{
}

/// In a machine that was just built, every register but `pc` holds nothing:
/// reading it reports that it is uninitialized, and gives no value.
pub proof fn law_registers_start_uninitialized<E: Executor>(
    machine: MachineView<E>,
    register_names: Seq<Seq<char>>,
    ops: Seq<(String, Operation<E>)>,
    controller_text: Seq<char>,
    name: Seq<char>,
)
    requires
        built(register_names, ops, controller_text) == Ok::<MachineView<E>, Fault>(machine),
        machine.state.names.contains(name),
        name != super::state::pc_name(),
    ensures
        machine.state.read(name) == Err::<u32, Fault>(Fault::UninitializedRegister(name)),
        machine.state.read(super::state::pc_name()) == Ok::<u32, Fault>(0),
        machine.state.stack.len() == 0,
{
    lemma_initial_state(register_names);
    let state = initial_state(register_names);
    let i = state.names.index_of(name);
    assert(state.names[0] == super::state::pc_name());
    assert(state.names.contains(super::state::pc_name()));
    let k = state.names.index_of(super::state::pc_name());
    assert(k == 0);
}

/// Where resolving a primitive expression succeeds, its source can be read.
proof fn lemma_compiled_primitive_fits(p: PrimitiveExprView, names: Namespace)
    requires
        compiled_primitive(p, names) is Ok,
    ensures
        source_fits(compiled_primitive(p, names)->Ok_0, names.registers.len()),
{
}

/// Where resolving a list of operands succeeds, there is a source for each
/// operand, and each can be read.
proof fn lemma_compiled_oprands_fit(oprands: Seq<PrimitiveExprView>, names: Namespace)
    requires
        compiled_oprands(oprands, names) is Ok,
    ensures
        compiled_oprands(oprands, names)->Ok_0.len() == oprands.len(),
        sources_fit(compiled_oprands(oprands, names)->Ok_0, names.registers.len()),
    decreases oprands.len(),
{
    if oprands.len() > 0 {
        lemma_compiled_oprands_fit(oprands.drop_last(), names);
        lemma_compiled_primitive_fits(oprands.last(), names);
    }
}

/// Where resolving an operation expression succeeds, the application can
/// run: its operation is installed for as many operands as it has.
proof fn lemma_compiled_operation_fits(op: OpreationExprView, names: Namespace)
    requires
        names.operations.len() == names.arities.len(),
        compiled_operation(op, names) is Ok,
    ensures
        application_fits(
            compiled_operation(op, names)->Ok_0,
            names.registers.len(),
            names.arities,
        ),
{
    lemma_compiled_oprands_fit(op.oprands, names);
}

/// Where resolving an instruction succeeds, the procedure can run.
proof fn lemma_compiled_fits(instruction: InstructionView, names: Namespace, length: nat)
    requires
        names.wf(length),
        length <= u32::MAX,
        compiled(instruction, names) is Ok,
    ensures
        procedure_fits(
            compiled(instruction, names)->Ok_0,
            names.registers.len(),
            names.arities,
            length,
        ),
{
    match instruction {
        InstructionView::Assign { target_reg, val_expr } => {
            match val_expr {
                super::parser::ValueExprView::OpreationExpr(op) => {
                    lemma_compiled_operation_fits(op, names);
                },
                super::parser::ValueExprView::PrimitiveExpr(p) => {
                    lemma_compiled_primitive_fits(p, names);
                },
            }
        },
        InstructionView::Test(condition) => {
            lemma_compiled_operation_fits(condition, names);
        },
        InstructionView::Branch(label) => {},
    }
}

/// Where resolving a list of instructions succeeds, there is a procedure
/// for each instruction, and each can run.
proof fn lemma_compiled_all_fit(list: Seq<InstructionView>, names: Namespace, length: nat)
    requires
        names.wf(length),
        length <= u32::MAX,
        compiled_all(list, names) is Ok,
    ensures
        compiled_all(list, names)->Ok_0.len() == list.len(),
        program_fits(
            compiled_all(list, names)->Ok_0,
            names.registers.len(),
            names.arities,
            length,
        ),
    decreases list.len(),
{
    if list.len() > 0 {
        lemma_compiled_all_fit(list.drop_last(), names, length);
        lemma_compiled_fits(list.last(), names, length);
    }
}

/// No unresolved name reaches execution: in a program that was assembled
/// there is one procedure for each instruction of the text, every register
/// and every operation that a procedure refers to is one of the machine's,
/// every operation is applied to as many operands as it expects, and every
/// branch goes to a position of the program or to the position behind its
/// last instruction.
pub proof fn law_assembled_program_can_run(
    text: Seq<ExprView>,
    registers: Seq<Seq<char>>,
    operations: Seq<Seq<char>>,
    arities: Seq<nat>,
)
    requires
        registers.no_duplicates(),
        operations.no_duplicates(),
        operations.len() == arities.len(),
        assembled(text, registers, operations, arities) is Ok,
    ensures
        ({
            let program = assembled(text, registers, operations, arities)->Ok_0;
            &&& program.len() == instructions(text).len()
            &&& program.len() <= u32::MAX
            &&& program_fits(program, registers.len(), arities, program.len())
        }),
{
    law_labels_name_positions(text);
    let names = Namespace { registers, operations, arities, labels: label_map(text) };
    lemma_compiled_all_fit(instructions(text), names, instructions(text).len());
}

/// An operation that is applied to another number of operands than it was
/// installed for stops the assembly of the instruction that applies it:
/// the fault names the operation, the number that it expects and the number
/// that was written.
pub proof fn law_arity_mismatch_stops_assembly(op: OpreationExprView, names: Namespace)
    requires
        place_of(names.operations, op.name) matches Some(i) && names.arities[i]
            != op.oprands.len(),
    ensures
        compiled_operation(op, names) == Err::<super::procedure::ApplicationContent, Fault>(
            Fault::ArityMismatch {
                operation: op.name,
                expected: names.arities[place_of(names.operations, op.name)->0],
                actual: op.oprands.len(),
            },
        ),
        compiled(InstructionView::Test(op), names) is Err,
        forall|target_reg: Seq<char>|
            compiled(
                InstructionView::Assign {
                    target_reg,
                    val_expr: super::parser::ValueExprView::OpreationExpr(op),
                },
                names,
            ) is Err,
{
}

/// Assembly is all or nothing: one instruction that cannot be resolved
/// leaves no instruction sequence.
pub proof fn law_a_fault_stops_assembly(list: Seq<InstructionView>, names: Namespace, k: int)
    requires
        0 <= k < list.len(),
        compiled(list[k], names) is Err,
    ensures
        compiled_all(list, names) is Err,
    decreases list.len(),
{
    if k < list.len() - 1 {
        assert(list.drop_last()[k] == list[k]);
        law_a_fault_stops_assembly(list.drop_last(), names, k);
    }
}

/// A tick that applies no operation has one outcome: the state after a
/// branch, or after an assignment of a constant, a label or a register, is
/// determined by the state before it.
pub proof fn law_tick_without_operation_is_deterministic<E: Executor>(
    before: MachineView<E>,
    one: MachineView<E>,
    other: MachineView<E>,
    fault_one: Option<Fault>,
    fault_other: Option<Fault>,
)
    requires
        ticked(before, one, fault_one),
        ticked(before, other, fault_other),
        before.halted() || before.program[before.pc()] is Branch || (before.program[before.pc()]
            matches ProcedureContent::Assign { value, .. } && value is Fetch),
    ensures
        one == other,
        fault_one == fault_other,
{
}

/// A tick keeps a machine well formed: afterwards `pc` is again a position
/// of the program or the position behind its last instruction, and every
/// instruction can still run.
pub proof fn law_tick_keeps_well_formed<E: Executor>(
    before: MachineView<E>,
    after: MachineView<E>,
    fault: Option<Fault>,
)
    requires
        before.wf(),
        ticked(before, after, fault),
    ensures
        after.wf(),
        after.state.names == before.state.names,
{
    if !before.halted() {
        let pc = before.state.contents[0]->0;
        assert(procedure_fits(
            before.program[before.pc()],
            before.state.names.len(),
            super::arities_of(before.operations.values),
            before.program.len(),
        ));
        match before.program[before.pc()] {
            ProcedureContent::Branch(target) => {},
            ProcedureContent::Assign { target, value: ValueProcedureContent::Fetch(source) } => {},
            ProcedureContent::Assign { target, value: ValueProcedureContent::Apply(app) } => {
                lemma_applied_keeps_state_well_formed(
                    before.state,
                    before.operations,
                    app,
                    target,
                    pc,
                    after.state,
                    fault,
                    before.program.len(),
                );
            },
            ProcedureContent::Test(app) => {
                lemma_applied_keeps_state_well_formed(
                    before.state,
                    before.operations,
                    app,
                    1,
                    pc,
                    after.state,
                    fault,
                    before.program.len(),
                );
            },
        }
    }
}

/// After an application the registers are those that were there before,
/// and `pc` is the position of the instruction that applied it or the one
/// behind.
proof fn lemma_applied_keeps_state_well_formed<E: Executor>(
    before: MachineStateView,
    operations: super::table::TableView<Operation<E>>,
    app: super::procedure::ApplicationContent,
    destination: int,
    pc: u32,
    after: MachineStateView,
    fault: Option<Fault>,
    length: nat,
)
    requires
        before.wf(),
        0 <= destination < before.names.len(),
        before.contents[0] == Some(pc),
        pc < length <= u32::MAX,
        applied(before, operations, app, destination, pc, after, fault),
    ensures
        after.wf(),
        after.names == before.names,
        after.contents[0] matches Some(next) && next <= length,
{
}

/// A run keeps a machine well formed, and changes neither its operations,
/// nor its labels, nor its program.
pub proof fn law_run_keeps_well_formed<E: Executor>(
    before: MachineView<E>,
    after: MachineView<E>,
    n: nat,
)
    requires
        before.wf(),
        ran(before, after, n),
    ensures
        after.wf(),
        after.operations == before.operations,
        after.labels == before.labels,
        after.program == before.program,
    decreases n,
{
    if n > 0 {
        let mid = choose|mid: MachineView<E>| #[trigger]
            ticked(before, mid, None) && ran(mid, after, (n - 1) as nat);
        law_tick_keeps_well_formed(before, mid, None);
        law_run_keeps_well_formed(mid, after, (n - 1) as nat);
    }
}

/// `flag` holds the result of the last test until the next test runs: a
/// branch, and an assignment of a constant, a label or a register to
/// another register than `flag`, leave it as it is; a test that does not
/// fail stores in it the first result of its operation.
pub proof fn law_flag_holds_the_last_test<E: Executor>(
    before: MachineView<E>,
    after: MachineView<E>,
)
    requires
        before.wf(),
        ticked(before, after, None),
    ensures
        before.halted() || before.program[before.pc()] is Branch || (before.program[before.pc()]
            matches ProcedureContent::Assign { target, value } && value is Fetch && target != 1)
            ==> after.state.contents[1] == before.state.contents[1],
        !before.halted() && before.program[before.pc()] is Test ==> after.state.contents[1]
            is Some,
{
    if !before.halted() {
        assert(procedure_fits(
            before.program[before.pc()],
            before.state.names.len(),
            super::arities_of(before.operations.values),
            before.program.len(),
        ));
    }
}

/// The whole way from a text to a tick, for the smallest program: a
/// machine that is built for one register and the text of an assignment of
/// a constant to that register is built without a fault; its program is
/// that one instruction; and one tick stores the constant in the register
/// and leaves the machine halted, with `pc` at 1.
pub proof fn law_sole_assignment_runs<E: Executor>(
    register: Seq<char>,
    value: u32,
    ops: Seq<(String, Operation<E>)>,
)
    requires
        super::written::usual_classes(),
        super::written::writable_name(register),
        register != super::state::pc_name(),
    ensures
        ({
            let assignment = ExprView::Instruction(
                InstructionView::Assign {
                    target_reg: register,
                    val_expr: super::parser::ValueExprView::PrimitiveExpr(
                        PrimitiveExprView::Constant(value),
                    ),
                },
            );
            let text = super::written::written(seq![assignment]);
            &&& built(seq![register], ops, text) matches Ok(machine) && {
                &&& machine.wf()
                &&& machine.program.len() == 1
                &&& machine.pc() == 0
                &&& forall|after: MachineView<E>, fault: Option<Fault>| #[trigger]
                    ticked(machine, after, fault) ==> {
                        &&& fault is None
                        &&& after.state.read(register) == Ok::<u32, Fault>(value)
                        &&& after.pc() == 1
                        &&& after.halted()
                    }
            }
        }),
{
    let constant = super::parser::ValueExprView::PrimitiveExpr(PrimitiveExprView::Constant(value));
    let instruction = InstructionView::Assign { target_reg: register, val_expr: constant };
    let assignment = ExprView::Instruction(instruction);
    let program = seq![assignment];
    let text = super::written::written(program);
    assert(super::written::writable(program)) by {
        assert(super::written::writable_expr(program[0]));
    }
    super::written::law_written_program_is_read_back(program);

    let names = seq![register];
    lemma_initial_state(names);
    let state = initial_state(names);
    assert(names.drop_last() == Seq::<Seq<char>>::empty());
    assert(initial_state(names.drop_last()).names =~= seq![
        super::state::pc_name(),
        super::state::flag_name(),
    ]);
    assert(state.names.contains(register)) by {
        if register == super::state::flag_name() {
            assert(state.names[1] == register);
        } else {
            assert(state.names =~= seq![
                super::state::pc_name(),
                super::state::flag_name(),
                register,
            ]);
            assert(state.names[2] == register);
        }
    }
    let target = state.names.index_of(register);
    assert(state.names[0] == super::state::pc_name());
    assert(target != 0);

    let operations = super::installed(super::table::TableView::<Operation<E>>::empty(), ops);
    assert(program.drop_last() == Seq::<ExprView>::empty());
    assert(instructions(program.drop_last()) == Seq::<InstructionView>::empty());
    assert(instructions(program) == seq![instruction]);
    assert(label_map(program.drop_last()) == Map::<Seq<char>, nat>::empty());
    assert(program.last() == assignment);
    assert(label_map(program) == Map::<Seq<char>, nat>::empty());
    let namespace = Namespace {
        registers: state.names,
        operations: operations.names,
        arities: super::arities_of(operations.values),
        labels: label_map(program),
    };
    let list = seq![instruction];
    assert(list.drop_last() == Seq::<InstructionView>::empty());
    assert(compiled_all(list.drop_last(), namespace) == Ok::<
        Seq<ProcedureContent>,
        Fault,
    >(Seq::empty()));
    let procedure = ProcedureContent::Assign {
        target,
        value: ValueProcedureContent::Fetch(Source::Immediate(value)),
    };
    assert(compiled(instruction, namespace) == Ok::<ProcedureContent, Fault>(procedure));
    assert(compiled_all(list, namespace) == Ok::<Seq<ProcedureContent>, Fault>(
        Seq::<ProcedureContent>::empty().push(procedure),
    ));
    let machine = built(names, ops, text)->Ok_0;
    assert(machine.program =~= seq![procedure]);
    lemma_installed_well_formed(super::table::TableView::<Operation<E>>::empty(), ops);
    assert(machine.wf());
    assert forall|after: MachineView<E>, fault: Option<Fault>| #[trigger]
        ticked(machine, after, fault) implies {
        &&& fault is None
        &&& after.state.read(register) == Ok::<u32, Fault>(value)
        &&& after.pc() == 1
        &&& after.halted()
    } by {
        assert(machine.program[0] == procedure);
        assert(after.state == state.store(target, value).store(0, 1));
        assert(after.state.names.index_of(register) == target);
    }
}

/// Installing operations in a well-formed table leaves a well-formed
/// table.
pub proof fn lemma_installed_well_formed<E: Executor>(
    table: super::table::TableView<Operation<E>>,
    ops: Seq<(String, Operation<E>)>,
)
    requires
        table.wf(),
    ensures
        super::installed(table, ops).wf(),
    decreases ops.len(),
{
    if ops.len() > 0 {
        lemma_installed_well_formed(table, ops.drop_last());
        super::installed(table, ops.drop_last()).lemma_put_wf(ops.last().0@, ops.last().1);
    }
}

} // verus!
