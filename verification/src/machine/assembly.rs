//! What assembling a program means: which place every label names, and
//! which procedure every instruction becomes once its names are resolved.

use super::parser::{
    ExprView, InstructionView, OpreationExprView, PrimitiveExprView, ValueExprView,
};
use super::procedure::{
    sources_fit, ApplicationContent, ProcedureContent, Source, ValueProcedureContent,
};
use super::state::Fault;
use vstd::prelude::*;

verus! {

/// The instructions of a program, in order, without its labels.
pub open spec fn instructions(text: Seq<ExprView>) -> Seq<InstructionView>
    decreases text.len(),
{
    if text.len() == 0 {
        Seq::empty()
    } else {
        match text.last() {
            ExprView::Instruction(instruction) => instructions(text.drop_last()).push(instruction),
            ExprView::Label(_) => instructions(text.drop_last()),
        }
    }
}

/// The label table of a program: every label names the position of the
/// instruction that follows it, and of two labels with one name the later
/// one counts.
pub open spec fn label_map(text: Seq<ExprView>) -> Map<Seq<char>, nat>
    decreases text.len(),
{
    if text.len() == 0 {
        Map::empty()
    } else {
        match text.last() {
            ExprView::Instruction(_) => label_map(text.drop_last()),
            ExprView::Label(name) => label_map(text.drop_last()).insert(
                name,
                instructions(text.drop_last()).len(),
            ),
        }
    }
}

/// The names that an instruction can be resolved against: the registers
/// and the operations of the machine, by place, the number of operands that
/// each operation expects, and the label table.
pub struct Namespace {
    pub registers: Seq<Seq<char>>,
    pub operations: Seq<Seq<char>>,
    pub arities: Seq<nat>,
    pub labels: Map<Seq<char>, nat>,
}

/// The place of `name` in `names`, if it stands there.
pub open spec fn place_of(names: Seq<Seq<char>>, name: Seq<char>) -> Option<int> {
    if names.contains(name) {
        Some(names.index_of(name))
    } else {
        None
    }
}

impl Namespace {
    /// No register and no operation has two places, every operation has an
    /// arity, and every label names a position up to `length`.
    pub open spec fn wf(self, length: nat) -> bool {
        &&& self.registers.no_duplicates()
        &&& self.operations.no_duplicates()
        &&& self.operations.len() == self.arities.len()
        &&& forall|name: Seq<char>| #[trigger]
            self.labels.contains_key(name) ==> self.labels[name] <= length
    }
}

/// The source that a primitive expression becomes: a constant and a label
/// become immediate values, a register becomes its place.
pub open spec fn compiled_primitive(p: PrimitiveExprView, names: Namespace) -> Result<
    Source,
    Fault,
> {
    match p {
        PrimitiveExprView::Constant(value) => Ok(Source::Immediate(value)),
        PrimitiveExprView::Label(label) => if names.labels.contains_key(label) {
            Ok(Source::Immediate(names.labels[label] as u32))
        } else {
            Err(Fault::UnknownLabel(label))
        },
        PrimitiveExprView::Register(register) => match place_of(names.registers, register) {
            Some(i) => Ok(Source::Register(i as usize)),
            None => Err(Fault::UnknownRegister(register)),
        },
    }
}

/// The sources that a list of operands becomes, or the fault of the first
/// operand that cannot be resolved.
pub open spec fn compiled_oprands(oprands: Seq<PrimitiveExprView>, names: Namespace) -> Result<
    Seq<Source>,
    Fault,
>
    decreases oprands.len(),
{
    if oprands.len() == 0 {
        Ok(Seq::empty())
    } else {
        match compiled_oprands(oprands.drop_last(), names) {
            Err(fault) => Err(fault),
            Ok(sources) => match compiled_primitive(oprands.last(), names) {
                Err(fault) => Err(fault),
                Ok(source) => Ok(sources.push(source)),
            },
        }
    }
}

/// The application that an operation expression becomes. The operation
/// must be installed and must expect as many operands as are written; the
/// operands are resolved after that.
pub open spec fn compiled_operation(op: OpreationExprView, names: Namespace) -> Result<
    ApplicationContent,
    Fault,
> {
    match place_of(names.operations, op.name) {
        None => Err(Fault::UnknownOperation(op.name)),
        Some(i) => if names.arities[i] != op.oprands.len() {
            Err(
                Fault::ArityMismatch {
                    operation: op.name,
                    expected: names.arities[i],
                    actual: op.oprands.len(),
                },
            )
        } else {
            match compiled_oprands(op.oprands, names) {
                Err(fault) => Err(fault),
                Ok(oprands) => Ok(ApplicationContent { operation: i, oprands }),
            }
        },
    }
}

/// The producer that a value expression becomes.
pub open spec fn compiled_value(value: ValueExprView, names: Namespace) -> Result<
    ValueProcedureContent,
    Fault,
> {
    match value {
        ValueExprView::OpreationExpr(op) => match compiled_operation(op, names) {
            Err(fault) => Err(fault),
            Ok(application) => Ok(ValueProcedureContent::Apply(application)),
        },
        ValueExprView::PrimitiveExpr(p) => match compiled_primitive(p, names) {
            Err(fault) => Err(fault),
            Ok(source) => Ok(ValueProcedureContent::Fetch(source)),
        },
    }
}

/// The procedure that an instruction becomes.
pub open spec fn compiled(instruction: InstructionView, names: Namespace) -> Result<
    ProcedureContent,
    Fault,
> {
    match instruction {
        InstructionView::Assign { target_reg, val_expr } => match place_of(
            names.registers,
            target_reg,
        ) {
            None => Err(Fault::UnknownRegister(target_reg)),
            Some(target) => match compiled_value(val_expr, names) {
                Err(fault) => Err(fault),
                Ok(value) => Ok(ProcedureContent::Assign { target, value }),
            },
        },
        InstructionView::Test(condition) => match compiled_operation(condition, names) {
            Err(fault) => Err(fault),
            Ok(application) => Ok(ProcedureContent::Test(application)),
        },
        InstructionView::Branch(label) => if names.labels.contains_key(label) {
            Ok(ProcedureContent::Branch(names.labels[label] as u32))
        } else {
            Err(Fault::UnknownLabel(label))
        },
    }
}

/// The procedures that a list of instructions becomes, or the fault of the
/// first instruction that cannot be resolved.
pub open spec fn compiled_all(list: Seq<InstructionView>, names: Namespace) -> Result<
    Seq<ProcedureContent>,
    Fault,
>
    decreases list.len(),
{
    if list.len() == 0 {
        Ok(Seq::empty())
    } else {
        match compiled_all(list.drop_last(), names) {
            Err(fault) => Err(fault),
            Ok(procedures) => match compiled(list.last(), names) {
                Err(fault) => Err(fault),
                Ok(procedure) => Ok(procedures.push(procedure)),
            },
        }
    }
}

/// What assembling a program against the registers and operations of a
/// machine gives: the instruction sequence, or the first fault. A program
/// of more than 2^32 - 1 instructions is refused.
pub open spec fn assembled(
    text: Seq<ExprView>,
    registers: Seq<Seq<char>>,
    operations: Seq<Seq<char>>,
    arities: Seq<nat>,
) -> Result<Seq<ProcedureContent>, Fault> {
    if instructions(text).len() > u32::MAX {
        Err(Fault::ProgramTooLong)
    } else {
        compiled_all(
            instructions(text),
            Namespace { registers, operations, arities, labels: label_map(text) },
        )
    }
}

/// Whether an application can run in a machine with `registers` registers
/// and operations of the arities `arities`.
pub open spec fn application_fits(
    app: ApplicationContent,
    registers: nat,
    arities: Seq<nat>,
) -> bool {
    &&& 0 <= app.operation < arities.len()
    &&& app.oprands.len() == arities[app.operation]
    &&& sources_fit(app.oprands, registers)
}

/// Whether a procedure can run in a machine with `registers` registers,
/// operations of the arities `arities` and a program of `length`
/// instructions.
pub open spec fn procedure_fits(
    procedure: ProcedureContent,
    registers: nat,
    arities: Seq<nat>,
    length: nat,
) -> bool {
    match procedure {
        ProcedureContent::Assign { target, value } => {
            &&& 0 <= target < registers
            &&& match value {
                ValueProcedureContent::Fetch(source) => super::procedure::source_fits(
                    source,
                    registers,
                ),
                ValueProcedureContent::Apply(app) => application_fits(app, registers, arities),
            }
        },
        ProcedureContent::Test(app) => application_fits(app, registers, arities),
        ProcedureContent::Branch(target) => target <= length,
    }
}

/// Whether every procedure of a program can run in the machine.
pub open spec fn program_fits(
    program: Seq<ProcedureContent>,
    registers: nat,
    arities: Seq<nat>,
    length: nat,
) -> bool {
    forall|k: int|
        0 <= k < program.len() ==> procedure_fits(#[trigger] program[k], registers, arities, length)
}

/// Every label of a program names a position of its instruction sequence,
/// or the position behind the last instruction.
pub proof fn law_labels_name_positions(text: Seq<ExprView>)
    ensures
        forall|name: Seq<char>| #[trigger]
            label_map(text).contains_key(name) ==> label_map(text)[name] <= instructions(
                text,
            ).len(),
        instructions(text).len() <= text.len(),
    decreases text.len(),
{
    if text.len() > 0 {
        law_labels_name_positions(text.drop_last());
        let before = text.drop_last();
        assert forall|name: Seq<char>| #[trigger]
            label_map(text).contains_key(name) implies label_map(text)[name] <= instructions(
            text,
        ).len() by {
            if label_map(before).contains_key(name) {
                assert(label_map(before)[name] <= instructions(before).len());
            }
        }
    }
}

/// Every label of a program is in its label table, and nothing else is.
pub proof fn law_labels_are_entered(text: Seq<ExprView>, name: Seq<char>)
    ensures
        label_map(text).contains_key(name) <==> exists|k: int|
            0 <= k < text.len() && #[trigger] text[k] == ExprView::Label(name),
    decreases text.len(),
{
    if text.len() > 0 {
        let before = text.drop_last();
        law_labels_are_entered(before, name);
        if label_map(text).contains_key(name) {
            if text.last() == ExprView::Label(name) {
                assert(text[text.len() - 1] == ExprView::Label(name));
            } else {
                let k = choose|k: int|
                    0 <= k < before.len() && #[trigger] before[k] == ExprView::Label(name);
                assert(text[k] == ExprView::Label(name));
            }
        }
        if exists|k: int| 0 <= k < text.len() && #[trigger] text[k] == ExprView::Label(name) {
            let k = choose|k: int|
                0 <= k < text.len() && #[trigger] text[k] == ExprView::Label(name);
            if k < before.len() {
                assert(before[k] == ExprView::Label(name));
            }
        }
    }
}

/// A label names the position of the instruction that follows it: where
/// the label `name` stands at `k` and not again behind `k`, the label table
/// gives for it the number of instructions before `k`.
pub proof fn law_label_names_the_next_instruction(text: Seq<ExprView>, name: Seq<char>, k: int)
    requires
        0 <= k < text.len(),
        text[k] == ExprView::Label(name),
        forall|j: int| k < j < text.len() ==> text[j] != ExprView::Label(name),
    ensures
        label_map(text).contains_key(name),
        label_map(text)[name] == instructions(text.take(k)).len(),
    decreases text.len(),
{
    if k == text.len() - 1 {
        assert(text.drop_last() == text.take(k));
    } else {
        let before = text.drop_last();
        assert(before[k] == ExprView::Label(name));
        assert forall|j: int| k < j < before.len() implies before[j] != ExprView::Label(name) by {
            assert(text[j] != ExprView::Label(name));
        }
        law_label_names_the_next_instruction(before, name, k);
        assert(before.take(k) == text.take(k));
    }
}

} // verus!
