//! The register machine: its registers and stack, its table of operations,
//! the assembler that turns a parsed program into an instruction sequence,
//! and the engine that runs that sequence.
//!
//! A machine is built once, by [`Machine::make_machine`], and is ready to
//! run from its first instruction or is not built at all. Every name that
//! the program mentions is resolved while the machine is built: a register
//! and an operation become their places in the machine's tables, a label
//! becomes the position that it names. Running the program looks no name
//! up.
//!
//! What this machine settles where a register machine could go either way:
//!
//! - `branch` is unconditional. It makes its target the next instruction
//!   whatever `flag` holds; a program that is to go one way or the other
//!   leaves the choice to the program that embeds it, which reads `flag`
//!   after a `test`.
//! - Of two labels with one name the later one counts.
//! - `assign` and `test` go on with the instruction behind them, also where
//!   the register that is assigned is `pc`.
//! - A run takes a number of ticks that it may not exceed, so that it ends
//!   also where the program does not.

pub mod assembly;
pub mod execution;
pub mod grammar;
pub mod laws;
pub mod parser;
pub mod procedure;
pub mod scan;
pub mod state;
pub mod table;
pub mod written;

use assembly::{
    application_fits, assembled, compiled, compiled_all, compiled_operation, compiled_oprands,
    compiled_primitive, compiled_value, instructions, label_map, procedure_fits, program_fits,
    Namespace,
};
use execution::{apply, fault_of, lemma_ran_one_more, ran, ticked};
use parser::{
    parse, primitive_views, program_view, ControllerText, Expr, Instruction, InstructionView,
    OpreationExpr, PrimitiveExpr, PrimitiveExprView, ValueExpr,
};
use procedure::{
    combine_procedures, fetch, fetched, gathered, procedure_views, source_fits, sources_fit,
    Application, ApplicationContent, Executor, Operation, Procedure, ProcedureContent, Source,
    ValueProcedure, ValueProcedureContent,
};
use state::{Fault, MachineError, MachineState, MachineStateView, Register, Stack};
use table::{Table, TableView};
use vstd::prelude::*;

verus! {

/// The contents of a list of instructions, one by one.
pub open spec fn instruction_views(list: Seq<Instruction>) -> Seq<InstructionView> {
    list.map_values(|i: Instruction| i@)
}

/// The number of operands that each operation of a list expects.
pub open spec fn arities_of<E: Executor>(operations: Seq<Operation<E>>) -> Seq<nat> {
    operations.map_values(|o: Operation<E>| o.spec_arity())
}

/// The label table that a table of positions stands for.
pub open spec fn label_entries(table: TableView<usize>) -> Map<Seq<char>, nat> {
    Map::new(
        |name: Seq<char>| table.names.contains(name),
        |name: Seq<char>| table.values[table.names.index_of(name)] as nat,
    )
}

/// The mathematical content of a [`Machine`].
pub struct MachineView<E> {
    /// The registers and the stack.
    pub state: MachineStateView,
    /// The installed operations, by name.
    pub operations: TableView<Operation<E>>,
    /// The position that each label names.
    pub labels: Map<Seq<char>, nat>,
    /// The instruction sequence.
    pub program: Seq<ProcedureContent>,
}

impl<E: Executor> MachineView<E> {
    /// The names that instructions are resolved against, with the label
    /// table `labels`.
    pub open spec fn namespace(self, labels: Map<Seq<char>, nat>) -> Namespace {
        Namespace {
            registers: self.state.names,
            operations: self.operations.names,
            arities: arities_of(self.operations.values),
            labels,
        }
    }

    /// The registers and the table of operations are well formed, every
    /// instruction can run, the program is short enough for `pc` to count
    /// its instructions, and `pc` holds a position of the program or the
    /// position behind its last instruction.
    pub open spec fn wf(self) -> bool {
        &&& self.state.wf()
        &&& self.operations.wf()
        &&& self.program.len() <= u32::MAX
        &&& program_fits(
            self.program,
            self.state.names.len(),
            arities_of(self.operations.values),
            self.program.len(),
        )
        &&& self.state.contents[0] matches Some(pc) && pc <= self.program.len()
    }

    /// The position of the instruction that runs next.
    pub open spec fn pc(self) -> int {
        self.state.contents[0]->0 as int
    }

    /// Whether the machine has halted: `pc` is the length of the program.
    pub open spec fn halted(self) -> bool {
        self.pc() == self.program.len()
    }

    /// The machine with other registers and stack.
    pub open spec fn with_state(self, state: MachineStateView) -> MachineView<E> {
        MachineView { state, ..self }
    }
}

/// A register machine: registers, a stack, operations, and the instruction
/// sequence that it runs.
pub struct Machine<E> {
    state: MachineState,
    the_operations: Table<Operation<E>>,
    label_table: Table<usize>,
    the_instruction_sequence: Vec<Procedure>,
}

impl<E: Executor> View for Machine<E> {
    type V = MachineView<E>;

    closed spec fn view(&self) -> MachineView<E> {
        MachineView {
            state: self.state@,
            operations: self.the_operations@,
            labels: label_entries(self.label_table@),
            program: procedure_views(self.the_instruction_sequence@),
        }
    }
}

/// Every position of a label table is at most `bound`.
pub open spec fn labels_within(table: TableView<usize>, bound: nat) -> bool {
    forall|k: int| 0 <= k < table.values.len() ==> #[trigger] table.values[k] <= bound
}

impl<E: Executor> Machine<E> {
    /// Whether the table that holds the labels is well formed.
    pub closed spec fn labels_wf(&self) -> bool {
        self.label_table@.wf()
    }

    /// Whether the machine is well formed: its content is, and so is the
    /// table that holds its labels. Every machine that `make_machine` builds
    /// is well formed, and every function of this library keeps it so.
    pub open spec fn wf(&self) -> bool {
        &&& self@.wf()
        &&& self.labels_wf()
    }

    /// The source that a primitive expression becomes.
    fn make_primitive_exec(&self, expr: &PrimitiveExpr, labels: &Table<usize>) -> (r: Result<
        Source,
        MachineError,
    >)
        requires
            self.wf(),
            labels@.wf(),
            labels_within(labels@, u32::MAX as nat),
        ensures
            match compiled_primitive(expr@, self@.namespace(label_entries(labels@))) {
                Ok(source) => r == Ok::<Source, MachineError>(source) && source_fits(
                    source,
                    self@.state.names.len(),
                ),
                Err(fault) => r matches Err(e) && e@ == fault,
            },
    {
        match expr {
            PrimitiveExpr::Constant(value) => Ok(Source::Immediate(*value)),
            PrimitiveExpr::Label(label) => {
                let name = label.get_name();
                proof {
                    labels@.lemma_position(name@);
                }
                match labels.find(name.as_str()) {
                    Some(i) => Ok(Source::Immediate(*labels.get(i) as u32)),
                    None => Err(MachineError::UnknownLabel(name)),
                }
            },
            PrimitiveExpr::Register(name) => match self.state.find_register(name.as_str()) {
                Some(i) => Ok(Source::Register(i)),
                None => Err(MachineError::UnknownRegister(name.clone())),
            },
        }
    }

    /// The application that an operation expression becomes: the operation
    /// must be installed for as many operands as are written.
    fn make_operation_exec(&self, op: &OpreationExpr, labels: &Table<usize>) -> (r: Result<
        Application,
        MachineError,
    >)
        requires
            self.wf(),
            labels@.wf(),
            labels_within(labels@, u32::MAX as nat),
        ensures
            match compiled_operation(op@, self@.namespace(label_entries(labels@))) {
                Ok(application) => r matches Ok(a) && a@ == application && application_fits(
                    application,
                    self@.state.names.len(),
                    arities_of(self@.operations.values),
                ),
                Err(fault) => r matches Err(e) && e@ == fault,
            },
    {
        let ghost names = self@.namespace(label_entries(labels@));
        proof {
            self.the_operations@.lemma_position(op@.name);
        }
        let operation: usize = match self.the_operations.find(op.name()) {
            Some(i) => i,
            None => {
                return Err(MachineError::UnknownOperation(op.name().to_owned()));
            },
        };
        let expected: usize = self.the_operations.get(operation).arity();
        let written = op.oprands();
        if written.len() != expected {
            return Err(
                MachineError::ArityMismatch {
                    operation: op.name().to_owned(),
                    expected,
                    actual: written.len(),
                },
            );
        }
        let mut oprands: Vec<Source> = Vec::new();
        let mut k: usize = 0;
        assert(primitive_views(written@).take(0) == Seq::<PrimitiveExprView>::empty());
        while k < written.len()
            invariant
                self.wf(),
                labels@.wf(),
                labels_within(labels@, u32::MAX as nat),
                names == self@.namespace(label_entries(labels@)),
                primitive_views(written@) == op@.oprands,
                assembly::place_of(names.operations, op@.name) == Some(operation as int),
                operation < names.arities.len(),
                names.arities[operation as int] == written.len(),
                k <= written.len(),
                oprands.len() == k,
                compiled_oprands(primitive_views(written@).take(k as int), names) == Ok::<
                    Seq<Source>,
                    Fault,
                >(oprands@),
                sources_fit(oprands@, self@.state.names.len()),
            decreases written.len() - k,
        {
            proof {
                let views = primitive_views(written@);
                let longer = views.take(k + 1);
                assert(longer.drop_last() == views.take(k as int));
                assert(longer.last() == written@[k as int]@);
                lemma_compiled_oprands_fault_stays(views, names, k + 1);
            }
            let source = self.make_primitive_exec(&written[k], labels)?;
            oprands.push(source);
            k += 1;
        }
        assert(primitive_views(written@).take(k as int) == primitive_views(written@));
        Ok(Application { operation, oprands })
    }

    /// The producer that a value expression becomes.
    fn make_val_expr_exec(&self, expr: &ValueExpr, labels: &Table<usize>) -> (r: Result<
        ValueProcedure,
        MachineError,
    >)
        requires
            self.wf(),
            labels@.wf(),
            labels_within(labels@, u32::MAX as nat),
        ensures
            match compiled_value(expr@, self@.namespace(label_entries(labels@))) {
                Ok(value) => r matches Ok(v) && v@ == value && procedure_fits(
                    ProcedureContent::Assign { target: 0, value },
                    self@.state.names.len(),
                    arities_of(self@.operations.values),
                    0,
                ),
                Err(fault) => r matches Err(e) && e@ == fault,
            },
    {
        match expr {
            ValueExpr::OpreationExpr(op) => {
                let application = self.make_operation_exec(op, labels)?;
                Ok(ValueProcedure::Apply(application))
            },
            ValueExpr::PrimitiveExpr(primitive) => {
                let source = self.make_primitive_exec(primitive, labels)?;
                Ok(ValueProcedure::Fetch(source))
            },
        }
    }

    /// The procedure that an instruction becomes, with every name that it
    /// mentions resolved.
    fn make_exec_proc(&self, instruction: &Instruction, labels: &Table<usize>, length: usize) -> (r:
        Result<Procedure, MachineError>)
        requires
            self.wf(),
            labels@.wf(),
            length <= u32::MAX,
            labels_within(labels@, length as nat),
        ensures
            match compiled(instruction@, self@.namespace(label_entries(labels@))) {
                Ok(procedure) => r matches Ok(p) && p@ == procedure && procedure_fits(
                    procedure,
                    self@.state.names.len(),
                    arities_of(self@.operations.values),
                    length as nat,
                ),
                Err(fault) => r matches Err(e) && e@ == fault,
            },
    {
        match instruction {
            Instruction::Assign { target_reg, val_expr } => {
                let target: usize = match self.state.find_register(target_reg.as_str()) {
                    Some(i) => i,
                    None => {
                        return Err(MachineError::UnknownRegister(target_reg.clone()));
                    },
                };
                let value = self.make_val_expr_exec(val_expr, labels)?;
                Ok(Procedure::Assign { target, value })
            },
            Instruction::Branch(label) => {
                let name = label.get_name();
                proof {
                    labels@.lemma_position(name@);
                }
                match labels.find(name.as_str()) {
                    Some(i) => Ok(Procedure::Branch(*labels.get(i) as u32)),
                    None => Err(MachineError::UnknownLabel(name)),
                }
            },
            Instruction::Test(condition) => {
                let application = self.make_operation_exec(condition, labels)?;
                Ok(Procedure::Test(application))
            },
        }
    }
}

/// The table of operations after the operations of `ops` were installed in
/// `table`, one after the other: an operation takes the place of an earlier
/// one of its name.
pub open spec fn installed<E: Executor>(
    table: TableView<Operation<E>>,
    ops: Seq<(String, Operation<E>)>,
) -> TableView<Operation<E>>
    decreases ops.len(),
{
    if ops.len() == 0 {
        table
    } else {
        installed(table, ops.drop_last()).put(ops.last().0@, ops.last().1)
    }
}

/// The texts of a list of names.
pub open spec fn name_texts(names: Seq<&str>) -> Seq<Seq<char>> {
    names.map_values(|n: &str| n@)
}

/// The registers and the stack of a machine that was just built for the
/// register names `names`: `pc`, `flag` and a register for each name, of
/// which `pc` alone holds a value, 0, and an empty stack.
pub open spec fn initial_state(names: Seq<Seq<char>>) -> MachineStateView {
    MachineStateView {
        names: seq![state::pc_name(), state::flag_name()],
        contents: seq![Some(0u32), None::<u32>],
        stack: Seq::empty(),
    }.allocate_all(names)
}

/// What building a machine gives: the machine with the registers, the
/// operations and the assembled program, or the first fault of parsing or
/// assembling.
pub open spec fn built<E: Executor>(
    register_names: Seq<Seq<char>>,
    ops: Seq<(String, Operation<E>)>,
    controller_text: Seq<char>,
) -> Result<MachineView<E>, Fault> {
    let state = initial_state(register_names);
    let operations = installed(TableView::<Operation<E>>::empty(), ops);
    match grammar::program_of(controller_text) {
        Err(failure) => Err(Fault::Parse(parser::reported(controller_text, failure))),
        Ok(text) => match assembled(
            text,
            state.names,
            operations.names,
            arities_of(operations.values),
        ) {
            Err(fault) => Err(fault),
            Ok(program) => Ok(MachineView { state, operations, labels: label_map(text), program }),
        },
    }
}

/// In a machine that was just built every register but `pc` holds nothing,
/// and `pc` holds 0.
pub proof fn lemma_initial_state(names: Seq<Seq<char>>)
    ensures
        initial_state(names).wf(),
        initial_state(names).contents[0] == Some(0u32),
        forall|k: int|
            1 <= k < initial_state(names).contents.len() ==> initial_state(names).contents[k]
                is None,
        initial_state(names).stack == Seq::<u32>::empty(),
    decreases names.len(),
{
    reveal_strlit("pc");
    reveal_strlit("flag");
    assert("pc"@ != "flag"@) by {
        assert("pc"@.len() != "flag"@.len());
    }
    if names.len() > 0 {
        lemma_initial_state(names.drop_last());
    }
}

/// Putting a position under a name in a table of positions puts it under
/// that name in the label table that the table stands for.
pub proof fn lemma_label_entries_put(table: TableView<usize>, name: Seq<char>, value: usize)
    requires
        table.wf(),
    ensures
        label_entries(table.put(name, value)) == label_entries(table).insert(name, value as nat),
{
    let after = table.put(name, value);
    assert forall|other: Seq<char>|
        after.names.contains(other) == (other == name || table.names.contains(other)) && (
        after.names.contains(other) ==> after.values[after.names.index_of(other)] == if other
            == name {
            value
        } else {
            table.values[table.names.index_of(other)]
        }) by {
        table.lemma_put_lookup(name, value, other);
        table.lemma_position(other);
        after.lemma_position(other);
    }
    assert(label_entries(after) =~= label_entries(table).insert(name, value as nat));
}

impl<E: Executor> Machine<E> {
    /// The position of the instruction that runs next.
    pub fn pc(&self) -> (pc: u32)
        requires
            self.wf(),
        ensures
            pc == self@.pc(),
            pc <= self@.program.len(),
    {
        match self.state.register_at(0).get_content() {
            Some(pc) => pc,
            None => 0,
        }
    }

    /// The number of instructions of the program.
    pub fn program_length(&self) -> (length: usize)
        ensures
            length == self@.program.len(),
    {
        self.the_instruction_sequence.len()
    }

    /// The position that the label `name` names, if the program holds it.
    pub fn label_position(&self, name: &str) -> (position: Option<usize>)
        requires
            self.wf(),
        ensures
            match position {
                Some(p) => self@.labels.contains_key(name@) && self@.labels[name@] == p,
                None => !self@.labels.contains_key(name@),
            },
    {
        proof {
            self.label_table@.lemma_position(name@);
        }
        match self.label_table.find(name) {
            Some(i) => Some(*self.label_table.get(i)),
            None => None,
        }
    }

    /// Whether the machine has halted.
    pub fn halted(&self) -> (halted: bool)
        requires
            self.wf(),
        ensures
            halted == self@.halted(),
    {
        self.pc() as usize == self.the_instruction_sequence.len()
    }

    /// Runs the instruction at `pc`, unless the machine has halted.
    pub fn tick(&mut self) -> (r: Result<(), MachineError>)
        requires
            old(self).wf(),
        ensures
            final(self).wf(),
            final(self)@.state.names == old(self)@.state.names,
            ticked(old(self)@, final(self)@, fault_of(r)),
    {
        let pc: u32 = self.pc();
        if pc as usize == self.the_instruction_sequence.len() {
            return Ok(());
        }
        assert(procedure_views(self.the_instruction_sequence@)[pc as int]
            == self.the_instruction_sequence@[pc as int]@);
        match &self.the_instruction_sequence[pc as usize] {
            Procedure::Branch(target) => {
                self.state.set_pc(*target);
                Ok(())
            },
            Procedure::Assign { target, value } => match value {
                ValueProcedure::Fetch(source) => {
                    let fetched = fetch(source, &self.state)?;
                    self.state.store(*target, fetched);
                    self.state.set_pc(pc + 1);
                    Ok(())
                },
                ValueProcedure::Apply(app) => apply(
                    &mut self.state,
                    &self.the_operations,
                    app,
                    *target,
                    pc,
                ),
            },
            Procedure::Test(app) => apply(&mut self.state, &self.the_operations, app, 1, pc),
        }
    }

    /// Runs the machine from the instruction at `pc` until it halts, for at
    /// most `max_ticks` ticks. The result is whether the machine has
    /// halted, or the fault of the tick that failed.
    pub fn start(&mut self, max_ticks: usize) -> (r: Result<bool, MachineError>)
        requires
            old(self).wf(),
        ensures
            final(self).wf(),
            final(self)@.state.names == old(self)@.state.names,
            final(self)@.operations == old(self)@.operations,
            final(self)@.labels == old(self)@.labels,
            final(self)@.program == old(self)@.program,
            exists|n: nat, last: MachineView<E>|
                #![trigger ran(old(self)@, last, n)]
                {
                    &&& n <= max_ticks
                    &&& ran(old(self)@, last, n)
                    &&& match r {
                        Ok(halted) => final(self)@ == last && halted == last.halted() && (halted
                            || n == max_ticks),
                        Err(e) => !last.halted() && ticked(last, final(self)@, Some(e@)),
                    }
                },
    {
        let mut done: usize = 0;
        assert(ran(self@, self@, 0));
        loop
            invariant
                self.wf(),
                done <= max_ticks,
                self@.state.names == old(self)@.state.names,
                self@.operations == old(self)@.operations,
                self@.labels == old(self)@.labels,
                self@.program == old(self)@.program,
                ran(old(self)@, self@, done as nat),
            decreases max_ticks - done,
        {
            if self.halted() {
                return Ok(true);
            }
            if done == max_ticks {
                return Ok(false);
            }
            let ghost before = self@;
            match self.tick() {
                Ok(()) => {},
                Err(e) => {
                    return Err(e);
                },
            }
            proof {
                lemma_ran_one_more(old(self)@, before, self@, done as nat);
            }
            done += 1;
        }
    }

    /// The register `name`, if the machine has one.
    pub fn get_register(&self, name: &str) -> (r: Result<&Register, MachineError>)
        requires
            self.wf(),
        ensures
            match self@.state.place(name@) {
                Some(i) => r matches Ok(register) && register@ == self@.state.contents[i],
                None => r matches Err(e) && e@ == Fault::UnknownRegister(name@),
            },
    {
        match self.state.find_register(name) {
            Some(i) => Ok(self.state.register_at(i)),
            None => Err(MachineError::UnknownRegister(name.to_owned())),
        }
    }

    /// Reads the register `name`: what it holds, or why nothing can be
    /// read.
    pub fn get_register_content(&self, name: &str) -> (r: Result<u32, MachineError>)
        requires
            self.wf(),
        ensures
            match self@.state.read(name@) {
                Ok(value) => r == Ok::<u32, MachineError>(value),
                Err(fault) => r matches Err(e) && e@ == fault,
            },
    {
        self.state.get_register_content(name)
    }

    /// Stores `value` in the register `name`, if the machine has one. In
    /// `pc` only a position of the program can be stored, or the position
    /// behind its last instruction.
    pub fn set_register_content(&mut self, name: &str, value: u32) -> (r: Result<
        (),
        MachineError,
    >)
        requires
            old(self).wf(),
        ensures
            final(self).wf(),
            match old(self)@.state.place(name@) {
                None => fault_of(r) == Some(Fault::UnknownRegister(name@)) && final(self)@ == old(
                    self,
                )@,
                Some(i) => if i == 0 && value > old(self)@.program.len() {
                    fault_of(r) == Some(Fault::ProgramCounterOutOfRange(value)) && final(self)@
                        == old(self)@
                } else {
                    r is Ok && final(self)@ == old(self)@.with_state(
                        old(self)@.state.store(i, value),
                    )
                },
            },
    {
        match self.state.find_register(name) {
            None => Err(MachineError::UnknownRegister(name.to_owned())),
            Some(i) => {
                if i == 0 && value as usize > self.the_instruction_sequence.len() {
                    Err(MachineError::ProgramCounterOutOfRange(value))
                } else {
                    self.state.store(i, value);
                    Ok(())
                }
            },
        }
    }

    /// The operation `name`, if one was installed.
    pub fn get_operation(&self, name: &str) -> (r: Result<&Operation<E>, MachineError>)
        requires
            self.wf(),
        ensures
            match self@.operations.lookup(name@) {
                Some(operation) => r matches Ok(found) && *found == operation,
                None => r matches Err(e) && e@ == Fault::UnknownOperation(name@),
            },
    {
        match self.the_operations.find(name) {
            Some(i) => Ok(self.the_operations.get(i)),
            None => Err(MachineError::UnknownOperation(name.to_owned())),
        }
    }

    /// The table of the installed operations.
    pub fn operations(&self) -> (operations: &Table<Operation<E>>)
        ensures
            operations@ == self@.operations,
    {
        &self.the_operations
    }

    /// The stack of the machine.
    pub fn stack(&mut self) -> (stack: &mut Stack)
        ensures
            stack@ == old(self)@.state.stack,
            final(self)@ == old(self)@.with_state(old(self)@.state.with_stack(final(stack)@)),
            old(self).wf() ==> final(self).wf(),
    {
        self.state.stack()
    }

    /// A machine with the registers `pc` and `flag`, no operation and the
    /// empty program.
    fn new() -> (machine: Machine<E>)
        ensures
            machine.wf(),
            machine@.state == initial_state(Seq::empty()),
            machine@.operations == TableView::<Operation<E>>::empty(),
            machine@.program.len() == 0,
    {
        let mut state = MachineState::new();
        state.store(0, 0);
        let machine = Machine {
            state,
            the_operations: Table::new(),
            label_table: Table::new(),
            the_instruction_sequence: Vec::new(),
        };
        assert(machine@.state.contents =~= seq![Some(0u32), None::<u32>]);
        machine
    }

    /// Allocates a register `name` that holds nothing yet, unless there is
    /// one of that name.
    fn allocate_register(&mut self, name: &str)
        requires
            old(self).wf(),
            old(self)@.program.len() == 0,
        ensures
            final(self).wf(),
            final(self)@ == old(self)@.with_state(old(self)@.state.allocate(name@)),
    {
        self.state.allocate_register(name);
    }

    /// Installs the operations of `ops`, one after the other, each under
    /// its name.
    fn install_operations(&mut self, ops: Vec<(String, Operation<E>)>)
        requires
            old(self).wf(),
            old(self)@.program.len() == 0,
        ensures
            final(self).wf(),
            final(self)@ == (MachineView {
                operations: installed(old(self)@.operations, ops@),
                ..old(self)@
            }),
    {
        assert(ops@.take(0) == Seq::<(String, Operation<E>)>::empty());
        for entry in it: ops
            invariant
                self.wf(),
                self@.program.len() == 0,
                it.seq() == ops@,
                self@ == (MachineView {
                    operations: installed(old(self)@.operations, ops@.take(it.index() as int)),
                    ..old(self)@
                }),
        {
            proof {
                let longer = ops@.take(it.index() + 1);
                assert(longer.drop_last() == ops@.take(it.index() as int));
                assert(longer.last() == entry);
            }
            let (name, operation) = entry;
            self.the_operations.insert(name.as_str(), operation);
        }
        assert(ops@.take(ops@.len() as int) == ops@);
    }

    /// Walks the program once: the instructions go to `insts`, in order, and
    /// every label is entered in `labels` with the position of the
    /// instruction that follows it. A label that occurs again takes the
    /// place of the earlier one.
    fn extract_labels(
        &self,
        text: ControllerText,
        insts: &mut Vec<Instruction>,
        labels: &mut Table<usize>,
    )
        requires
            old(insts)@.len() == 0,
            old(labels)@ == TableView::<usize>::empty(),
        ensures
            instruction_views(final(insts)@) == instructions(program_view(text@)),
            final(labels)@.wf(),
            label_entries(final(labels)@) == label_map(program_view(text@)),
            labels_within(final(labels)@, final(insts)@.len() as nat),
    {
        assert(text@.take(0) == Seq::<Expr>::empty());
        assert(instruction_views(insts@) == Seq::<InstructionView>::empty());
        assert(label_entries(labels@) =~= Map::<Seq<char>, nat>::empty());
        for expr in it: text
            invariant
                it.seq() == text@,
                instruction_views(insts@) == instructions(
                    program_view(text@.take(it.index() as int)),
                ),
                labels@.wf(),
                label_entries(labels@) == label_map(program_view(text@.take(it.index() as int))),
                labels_within(labels@, insts@.len() as nat),
                insts@.len() <= it.index(),
        {
            proof {
                let longer = text@.take(it.index() + 1);
                assert(longer.drop_last() == text@.take(it.index() as int));
                assert(longer.last() == expr);
                assert(program_view(longer).drop_last() == program_view(longer.drop_last()));
                assert(program_view(longer).last() == expr@);
            }
            match expr {
                Expr::Instruction(instruction) => {
                    assert(instruction_views(insts@.push(instruction)) == instruction_views(
                        insts@,
                    ).push(instruction@));
                    insts.push(instruction);
                },
                Expr::Label(label) => {
                    let name = label.get_name();
                    proof {
                        lemma_label_entries_put(labels@, name@, insts@.len() as usize);
                        labels@.lemma_put_wf(name@, insts@.len() as usize);
                        labels@.lemma_position(name@);
                    }
                    labels.insert(name.as_str(), insts.len());
                },
            }
        }
        assert(text@.take(text@.len() as int) == text@);
    }

    /// Assembles a parsed program against the registers and operations of
    /// the machine: first the labels are extracted, after that every
    /// instruction is turned into a procedure. Either every instruction is, and the
    /// machine remembers the label table, or the first fault is returned and
    /// the machine stays as it was.
    fn assemble(&mut self, controller_text: ControllerText) -> (r: Result<
        Vec<Procedure>,
        MachineError,
    >)
        requires
            old(self).wf(),
        ensures
            final(self).wf(),
            match assembled(
                program_view(controller_text@),
                old(self)@.state.names,
                old(self)@.operations.names,
                arities_of(old(self)@.operations.values),
            ) {
                Ok(program) => r matches Ok(p) && procedure_views(p@) == program && p@.len()
                    <= u32::MAX && program_fits(
                    program,
                    old(self)@.state.names.len(),
                    arities_of(old(self)@.operations.values),
                    program.len(),
                ) && final(self)@ == (MachineView {
                    labels: label_map(program_view(controller_text@)),
                    ..old(self)@
                }),
                Err(fault) => r matches Err(e) && e@ == fault && final(self)@ == old(self)@,
            },
    {
        let mut insts: Vec<Instruction> = Vec::new();
        let mut label_table: Table<usize> = Table::new();
        self.extract_labels(controller_text, &mut insts, &mut label_table);
        if insts.len() > 0xffff_ffff {
            return Err(MachineError::ProgramTooLong);
        }
        let ghost names = self@.namespace(label_entries(label_table@));
        let mut procedures: Vec<Procedure> = Vec::new();
        let mut k: usize = 0;
        assert(instruction_views(insts@).take(0) == Seq::<InstructionView>::empty());
        assert(procedure_views(procedures@) == Seq::<ProcedureContent>::empty());
        while k < insts.len()
            invariant
                self.wf(),
                self@ == old(self)@,
                label_table@.wf(),
                insts.len() <= u32::MAX,
                instruction_views(insts@) == instructions(program_view(controller_text@)),
                label_entries(label_table@) == label_map(program_view(controller_text@)),
                labels_within(label_table@, insts@.len() as nat),
                names == self@.namespace(label_entries(label_table@)),
                k <= insts.len(),
                procedures.len() == k,
                compiled_all(instruction_views(insts@).take(k as int), names) == Ok::<
                    Seq<ProcedureContent>,
                    Fault,
                >(procedure_views(procedures@)),
                program_fits(
                    procedure_views(procedures@),
                    self@.state.names.len(),
                    arities_of(self@.operations.values),
                    insts@.len() as nat,
                ),
            decreases insts.len() - k,
        {
            proof {
                let views = instruction_views(insts@);
                let longer = views.take(k + 1);
                assert(longer.drop_last() == views.take(k as int));
                assert(longer.last() == insts@[k as int]@);
                lemma_compiled_all_fault_stays(views, names, k + 1);
            }
            let procedure = self.make_exec_proc(&insts[k], &label_table, insts.len())?;
            assert(procedure_views(procedures@.push(procedure)) == procedure_views(
                procedures@,
            ).push(procedure@));
            procedures.push(procedure);
            k += 1;
        }
        assert(instruction_views(insts@).take(k as int) == instruction_views(insts@));
        self.label_table = label_table;
        Ok(procedures)
    }

    /// Makes `seq` the program of the machine, and its first instruction
    /// the next to run.
    fn install_instruction_sequence(&mut self, seq: Vec<Procedure>)
        requires
            old(self).wf(),
            seq@.len() <= u32::MAX,
            program_fits(
                procedure_views(seq@),
                old(self)@.state.names.len(),
                arities_of(old(self)@.operations.values),
                seq@.len() as nat,
            ),
        ensures
            final(self).wf(),
            final(self)@ == (MachineView {
                program: procedure_views(seq@),
                state: old(self)@.state.store(0, 0),
                ..old(self)@
            }),
    {
        self.the_instruction_sequence = seq;
        self.state.store(0, 0);
    }

    /// Builds a machine: allocates `pc` and `flag` and a register for each
    /// of `register_names`, installs the operations of `ops`, and at last
    /// parses and assembles `controller_text`. The result is either the machine,
    /// ready to run from its first instruction, or the first fault of
    /// parsing or assembling.
    pub fn make_machine(
        register_names: &[&str],
        ops: Vec<(String, Operation<E>)>,
        controller_text: &str,
    ) -> (r: Result<Machine<E>, MachineError>)
        ensures
            match built(name_texts(register_names@), ops@, controller_text@) {
                Ok(machine) => r matches Ok(m) && m.wf() && m@ == machine,
                Err(fault) => r matches Err(e) && e@ == fault,
            },
            r matches Ok(m) ==> m@.pc() == 0 && m@.state.stack.len() == 0,
    {
        let mut machine: Machine<E> = Machine::new();
        let mut k: usize = 0;
        assert(name_texts(register_names@).take(0) == Seq::<Seq<char>>::empty());
        while k < register_names.len()
            invariant
                machine.wf(),
                k <= register_names.len(),
                machine@.state == initial_state(name_texts(register_names@).take(k as int)),
                machine@.operations == TableView::<Operation<E>>::empty(),
                machine@.program.len() == 0,
            decreases register_names.len() - k,
        {
            proof {
                let longer = name_texts(register_names@).take(k + 1);
                assert(longer.drop_last() == name_texts(register_names@).take(k as int));
                assert(longer.last() == register_names@[k as int]@);
            }
            machine.allocate_register(register_names[k]);
            k += 1;
        }
        assert(name_texts(register_names@).take(k as int) == name_texts(register_names@));
        machine.install_operations(ops);
        let text = match parse(controller_text) {
            Ok(parsed) => parsed.1,
            Err(e) => {
                return Err(MachineError::Parse(e));
            },
        };
        let instructions = machine.assemble(text)?;
        machine.install_instruction_sequence(instructions);
        proof {
            lemma_initial_state(name_texts(register_names@));
            let state = initial_state(name_texts(register_names@));
            assert(state.store(0, 0).contents =~= state.contents);
        }
        Ok(machine)
    }
}

/// Once resolving a list of operands has met a fault, resolving more of
/// them meets the same.
pub proof fn lemma_compiled_oprands_fault_stays(
    oprands: Seq<PrimitiveExprView>,
    names: Namespace,
    k: int,
)
    requires
        0 <= k <= oprands.len(),
    ensures
        compiled_oprands(oprands.take(k), names) matches Err(fault) ==> compiled_oprands(
            oprands,
            names,
        ) == Err::<Seq<Source>, Fault>(fault),
    decreases oprands.len() - k,
{
    if k < oprands.len() {
        lemma_compiled_oprands_fault_stays(oprands.drop_last(), names, k);
        assert(oprands.drop_last().take(k) == oprands.take(k));
    } else {
        assert(oprands.take(k) == oprands);
    }
}

/// Once resolving a list of instructions has met a fault, resolving more
/// of them meets the same.
pub proof fn lemma_compiled_all_fault_stays(list: Seq<InstructionView>, names: Namespace, k: int)
    requires
        0 <= k <= list.len(),
    ensures
        compiled_all(list.take(k), names) matches Err(fault) ==> compiled_all(list, names) == Err::<
            Seq<ProcedureContent>,
            Fault,
        >(fault),
    decreases list.len() - k,
{
    if k < list.len() {
        lemma_compiled_all_fault_stays(list.drop_last(), names, k);
        assert(list.drop_last().take(k) == list.take(k));
    } else {
        assert(list.take(k) == list);
    }
}

} // verus!
