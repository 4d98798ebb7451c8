//! Operations, and what instructions are assembled to: procedures in which
//! every name has been replaced by the place that it stands for.

use super::state::{Fault, MachineError, MachineState, MachineStateView};
use vstd::prelude::*;

verus! {

/// A primitive operation of a machine, supplied by the program that embeds
/// it.
///
/// The contract of `execute` is what the machine relies on when it applies
/// an operation. It is proved of an implementation that is verified, and
/// taken on trust of one that is not. An implementation that reaches the
/// registers and the stack through the functions of [`MachineState`] keeps
/// its first two clauses, since none of those functions adds, removes or
/// renames a register.
pub trait Executor {
    /// What one application may do: `before` and `after` are the registers
    /// and the stack before and after it, `oprands` the values that it is
    /// applied to, `results` the values that it returns. An operation that
    /// says nothing of itself may do anything.
    open spec fn effect(
        &self,
        before: MachineStateView,
        oprands: Seq<u32>,
        after: MachineStateView,
        results: Seq<u32>,
    ) -> bool {
        true
    }

    /// Applies the operation to `oprands`. It may read and change what the
    /// registers hold, and the stack; the registers themselves stay.
    fn execute(&self, machine: &mut MachineState, oprands: Vec<u32>) -> (results: Vec<u32>)
        requires
            old(machine).wf(),
        ensures
            final(machine).wf(),
            final(machine)@.names == old(machine)@.names,
            self.effect(old(machine)@, oprands@, final(machine)@, results@),
    ;
}

/// An operation behind a pointer is an operation: so a machine can hold
/// operations of several kinds in one table.
impl Executor for Box<dyn Executor> {
    fn execute(&self, machine: &mut MachineState, oprands: Vec<u32>) -> (results: Vec<u32>) {
        (**self).execute(machine, oprands)
    }

    /// What the operation behind the pointer may do.
    open spec fn effect(
        &self,
        before: MachineStateView,
        oprands: Seq<u32>,
        after: MachineStateView,
        results: Seq<u32>,
    ) -> bool {
        (**self).effect(before, oprands, after, results)
    }
}

/// An operation as it is installed in a machine: the number of operands
/// that it expects, and what applies it.
pub struct Operation<E> {
    arity: usize,
    executor: E,
}

impl<E: Executor> Operation<E> {
    /// The number of operands that the operation expects.
    pub closed spec fn spec_arity(&self) -> nat {
        self.arity as nat
    }

    /// What applies the operation.
    pub closed spec fn spec_executor(&self) -> E {
        self.executor
    }

    /// What one application of the operation may do.
    pub open spec fn effect(
        &self,
        before: MachineStateView,
        oprands: Seq<u32>,
        after: MachineStateView,
        results: Seq<u32>,
    ) -> bool {
        self.spec_executor().effect(before, oprands, after, results)
    }

    /// An operation that expects `arity` operands and is applied by
    /// `executor`.
    pub fn new(arity: usize, executor: E) -> (operation: Operation<E>)
        ensures
            operation.spec_arity() == arity,
            operation.spec_executor() == executor,
    {
        Operation { arity, executor }
    }

    /// The number of operands that the operation expects.
    pub fn arity(&self) -> (arity: usize)
        ensures
            arity == self.spec_arity(),
    {
        self.arity
    }

    /// What applies the operation.
    pub fn executor(&self) -> (executor: &E)
        ensures
            *executor == self.spec_executor(),
    {
        &self.executor
    }

    /// Applies the operation to `oprands`.
    pub fn execute(&self, machine: &mut MachineState, oprands: Vec<u32>) -> (results: Vec<u32>)
        requires
            old(machine).wf(),
        ensures
            final(machine).wf(),
            final(machine)@.names == old(machine)@.names,
            self.effect(old(machine)@, oprands@, final(machine)@, results@),
    {
        self.executor.execute(machine, oprands)
    }
}

/// Where a single value comes from when an instruction runs.
#[derive(Debug, Clone, Copy, PartialEq, Eq)]
pub enum Source {
    /// A value that was fixed when the program was assembled: a constant,
    /// or the position that a label names.
    Immediate(u32),
    /// What the register in this place holds at the moment of reading.
    Register(usize),
}

/// The application of an operation to operands, assembled.
#[derive(Debug)]
pub struct Application {
    /// The place of the operation in the machine's table.
    pub operation: usize,
    /// Where the operands come from, in order.
    pub oprands: Vec<Source>,
}

/// What produces the value of an `assign`, assembled.
#[derive(Debug)]
pub enum ValueProcedure {
    Fetch(Source),
    Apply(Application),
}

/// An instruction, assembled.
#[derive(Debug)]
pub enum Procedure {
    /// Stores the value that is produced in the register in place `target`,
    /// and goes on with the next instruction.
    Assign { target: usize, value: ValueProcedure },
    /// Stores the first result of the application in `flag`, and goes on
    /// with the next instruction.
    Test(Application),
    /// Goes on with the instruction at this position, whatever `flag`
    /// holds: a branch is unconditional.
    Branch(u32),
}

/// The mathematical content of an [`Application`].
pub struct ApplicationContent {
    pub operation: int,
    pub oprands: Seq<Source>,
}

/// The mathematical content of a [`ValueProcedure`].
pub enum ValueProcedureContent {
    Fetch(Source),
    Apply(ApplicationContent),
}

/// The mathematical content of a [`Procedure`].
pub enum ProcedureContent {
    Assign { target: int, value: ValueProcedureContent },
    Test(ApplicationContent),
    Branch(u32),
}

impl View for Application {
    type V = ApplicationContent;

    open spec fn view(&self) -> ApplicationContent {
        ApplicationContent { operation: self.operation as int, oprands: self.oprands@ }
    }
}

impl View for ValueProcedure {
    type V = ValueProcedureContent;

    open spec fn view(&self) -> ValueProcedureContent {
        match self {
            ValueProcedure::Fetch(source) => ValueProcedureContent::Fetch(*source),
            ValueProcedure::Apply(application) => ValueProcedureContent::Apply(application@),
        }
    }
}

impl View for Procedure {
    type V = ProcedureContent;

    open spec fn view(&self) -> ProcedureContent {
        match self {
            Procedure::Assign { target, value } => ProcedureContent::Assign {
                target: *target as int,
                value: value@,
            },
            Procedure::Test(application) => ProcedureContent::Test(application@),
            Procedure::Branch(target) => ProcedureContent::Branch(*target),
        }
    }
}

/// The contents of a list of procedures, one by one.
pub open spec fn procedure_views(procedures: Seq<Procedure>) -> Seq<ProcedureContent> {
    procedures.map_values(|p: Procedure| p@)
}

/// Whether a source can be read in a machine with `registers` registers.
pub open spec fn source_fits(source: Source, registers: nat) -> bool {
    source matches Source::Register(i) ==> i < registers
}

/// Whether every source of a list can be read in a machine with `registers`
/// registers.
pub open spec fn sources_fit(sources: Seq<Source>, registers: nat) -> bool {
    forall|k: int| 0 <= k < sources.len() ==> source_fits(#[trigger] sources[k], registers)
}

/// What reading `source` in `state` gives: the value, or the fault that no
/// value was stored in the register yet.
pub open spec fn fetched(state: MachineStateView, source: Source) -> Result<u32, Fault> {
    match source {
        Source::Immediate(value) => Ok(value),
        Source::Register(i) => match state.contents[i as int] {
            Some(value) => Ok(value),
            None => Err(Fault::UninitializedRegister(state.names[i as int])),
        },
    }
}

/// What reading `sources` in `state` gives, one after the other: the list of
/// the values, or the fault of the first source that cannot be read.
pub open spec fn gathered(state: MachineStateView, sources: Seq<Source>) -> Result<Seq<u32>, Fault>
    decreases sources.len(),
{
    if sources.len() == 0 {
        Ok(Seq::empty())
    } else {
        match gathered(state, sources.drop_last()) {
            Err(fault) => Err(fault),
            Ok(values) => match fetched(state, sources.last()) {
                Err(fault) => Err(fault),
                Ok(value) => Ok(values.push(value)),
            },
        }
    }
}

/// Reads `source` in `machine`.
pub(crate) fn fetch(source: &Source, machine: &MachineState) -> (r: Result<u32, MachineError>)
    requires
        machine.wf(),
        source_fits(*source, machine@.names.len()),
    ensures
        match fetched(machine@, *source) {
            Ok(value) => r == Ok::<u32, MachineError>(value),
            Err(fault) => r matches Err(e) && e@ == fault,
        },
{
    match source {
        Source::Immediate(value) => Ok(*value),
        Source::Register(i) => match machine.register_at(*i).get_content() {
            Some(value) => Ok(value),
            None => Err(MachineError::UninitializedRegister(machine.register_name(*i))),
        },
    }
}

/// Runs the producers of the operands of an application, in order, and
/// joins the values that they yield into one list.
pub fn combine_procedures(procedures: &Vec<Source>, machine: &MachineState) -> (r: Result<
    Vec<u32>,
    MachineError,
>)
    requires
        machine.wf(),
        sources_fit(procedures@, machine@.names.len()),
    ensures
        match gathered(machine@, procedures@) {
            Ok(values) => r matches Ok(v) && v@ == values,
            Err(fault) => r matches Err(e) && e@ == fault,
        },
{
    let mut values: Vec<u32> = Vec::new();
    let mut k: usize = 0;
    assert(procedures@.take(0) == Seq::<Source>::empty());
    while k < procedures.len()
        invariant
            machine.wf(),
            sources_fit(procedures@, machine@.names.len()),
            k <= procedures.len(),
            gathered(machine@, procedures@.take(k as int)) == Ok::<Seq<u32>, Fault>(values@),
        decreases procedures.len() - k,
    {
        proof {
            let longer = procedures@.take(k + 1);
            assert(longer.drop_last() == procedures@.take(k as int));
            assert(longer.last() == procedures@[k as int]);
            lemma_gathered_fault_stays(machine@, procedures@, k + 1);
        }
        let value = fetch(&procedures[k], machine)?;
        values.push(value);
        k += 1;
    }
    assert(procedures@.take(k as int) == procedures@);
    Ok(values)
}

/// Once reading a list of sources has met a fault, reading more of them
/// meets the same.
pub proof fn lemma_gathered_fault_stays(state: MachineStateView, sources: Seq<Source>, k: int)
    requires
        0 <= k <= sources.len(),
    ensures
        gathered(state, sources.take(k)) matches Err(fault) ==> gathered(state, sources) == Err::<
            Seq<u32>,
            Fault,
        >(fault),
    decreases sources.len() - k,
{
    if k < sources.len() {
        lemma_gathered_fault_stays(state, sources.drop_last(), k);
        assert(sources.drop_last().take(k) == sources.take(k));
    } else {
        assert(sources.take(k) == sources);
    }
}

} // verus!
