//! What running a program means: what one tick of a machine can do, what a
//! run of several ticks can do, and the steps that a tick is made of.

use super::assembly::application_fits;
use super::procedure::{
    combine_procedures, fetched, gathered, Application, ApplicationContent, Executor, Operation,
    ProcedureContent, ValueProcedureContent,
};
use super::state::{Fault, MachineError, MachineState, MachineStateView};
use super::table::{Table, TableView};
use super::{arities_of, MachineView};
use vstd::prelude::*;

verus! {

/// The fault that a result reports, if it reports one.
pub open spec fn fault_of<T>(r: Result<T, MachineError>) -> Option<Fault> {
    match r {
        Ok(_) => None,
        Err(e) => Some(e@),
    }
}

/// What becomes of the results of an operation that was applied by the
/// instruction at position `pc`, in the state `mid` that the operation
/// left: the first result is stored in the register in place `destination`
/// and the next instruction is `pc + 1`; without a result nothing is stored,
/// the instruction at `pc` stays the next, and the fault names the
/// operation.
pub open spec fn settled(
    mid: MachineStateView,
    destination: int,
    pc: u32,
    results: Seq<u32>,
    operation: Seq<char>,
) -> (MachineStateView, Option<Fault>) {
    if results.len() == 0 {
        (mid.store(0, pc), Some(Fault::NoResult(operation)))
    } else {
        (mid.store(destination, results[0]).store(0, (pc + 1) as u32), None)
    }
}

/// Whether running the application `app` at position `pc` in the state
/// `before` can end in the state `after` with the fault `fault`. The
/// operands are read first; if one cannot be read, nothing changes. Else
/// the operation is applied to their values, and its results are settled.
pub open spec fn applied<E: Executor>(
    before: MachineStateView,
    operations: TableView<Operation<E>>,
    app: ApplicationContent,
    destination: int,
    pc: u32,
    after: MachineStateView,
    fault: Option<Fault>,
) -> bool {
    match gathered(before, app.oprands) {
        Err(f) => after == before && fault == Some(f),
        Ok(values) => exists|mid: MachineStateView, results: Seq<u32>|
            #![trigger operations.values[app.operation].effect(before, values, mid, results)]
            {
                &&& operations.values[app.operation].effect(before, values, mid, results)
                &&& mid.wf()
                &&& mid.names == before.names
                &&& settled(mid, destination, pc, results, operations.names[app.operation]) == (
                    after,
                    fault,
                )
            },
    }
}

/// Whether one tick of the machine `before` can end in the machine `after`
/// with the fault `fault`.
///
/// A halted machine stays as it is. Else the instruction at `pc` runs: a
/// branch makes its target the next instruction; an assignment stores the
/// value that is produced in its target and makes `pc + 1` the next
/// instruction; a test does the same with `flag` as its target. Where a
/// register is read that holds nothing, the tick changes nothing and
/// reports the fault. A tick changes neither the operations, nor the
/// labels, nor the program.
pub open spec fn ticked<E: Executor>(
    before: MachineView<E>,
    after: MachineView<E>,
    fault: Option<Fault>,
) -> bool {
    &&& after.operations == before.operations
    &&& after.labels == before.labels
    &&& after.program == before.program
    &&& if before.halted() {
        after.state == before.state && fault is None
    } else {
        let pc = before.state.contents[0]->0;
        match before.program[before.pc()] {
            ProcedureContent::Branch(target) => after.state == before.state.store(0, target)
                && fault is None,
            ProcedureContent::Assign { target, value: ValueProcedureContent::Fetch(source) } => {
                match fetched(before.state, source) {
                    Err(f) => after.state == before.state && fault == Some(f),
                    Ok(value) => after.state == before.state.store(target, value).store(
                        0,
                        (pc + 1) as u32,
                    ) && fault is None,
                }
            },
            ProcedureContent::Assign { target, value: ValueProcedureContent::Apply(app) } => {
                applied(before.state, before.operations, app, target, pc, after.state, fault)
            },
            ProcedureContent::Test(app) => applied(
                before.state,
                before.operations,
                app,
                1,
                pc,
                after.state,
                fault,
            ),
        }
    }
}

/// Whether `n` ticks without a fault lead from the machine `before`, which
/// halts at none of them, to the machine `after`.
pub open spec fn ran<E: Executor>(before: MachineView<E>, after: MachineView<E>, n: nat) -> bool
    decreases n,
{
    if n == 0 {
        after == before
    } else {
        !before.halted() && exists|mid: MachineView<E>| #[trigger]
            ticked(before, mid, None) && ran(mid, after, (n - 1) as nat)
    }
}

/// A run of `n` ticks followed by one more tick is a run of `n + 1` ticks.
pub proof fn lemma_ran_one_more<E: Executor>(
    a: MachineView<E>,
    b: MachineView<E>,
    c: MachineView<E>,
    n: nat,
)
    requires
        ran(a, b, n),
        !b.halted(),
        ticked(b, c, None),
    ensures
        ran(a, c, n + 1),
    decreases n,
{
    if n == 0 {
        assert(ran(c, c, 0));
        assert(ticked(a, c, None) && ran(c, c, 0));
    } else {
        let mid = choose|mid: MachineView<E>| #[trigger]
            ticked(a, mid, None) && ran(mid, b, (n - 1) as nat);
        lemma_ran_one_more(mid, b, c, (n - 1) as nat);
        assert(ticked(a, mid, None) && ran(mid, c, n));
    }
}

/// Settles the results of an operation that the instruction at position
/// `pc` applied: stores the first in the register in place `destination`
/// and goes on with the next instruction, or reports that there is none.
pub fn settle(
    machine: &mut MachineState,
    destination: usize,
    pc: u32,
    results: &Vec<u32>,
    operation: &str,
) -> (r: Result<(), MachineError>)
    requires
        old(machine).wf(),
        destination < old(machine)@.names.len(),
        pc < u32::MAX,
    ensures
        final(machine).wf(),
        (final(machine)@, fault_of(r)) == settled(
            old(machine)@,
            destination as int,
            pc,
            results@,
            operation@,
        ),
{
    if results.len() == 0 {
        machine.set_pc(pc);
        Err(MachineError::NoResult(operation.to_owned()))
    } else {
        machine.store(destination, results[0]);
        machine.set_pc(pc + 1);
        Ok(())
    }
}

/// Runs the application `app` for the instruction at position `pc`: reads
/// the operands, applies the operation to them, and settles its results
/// with the register in place `destination`.
pub fn apply<E: Executor>(
    machine: &mut MachineState,
    operations: &Table<Operation<E>>,
    app: &Application,
    destination: usize,
    pc: u32,
) -> (r: Result<(), MachineError>)
    requires
        old(machine).wf(),
        operations@.wf(),
        application_fits(app@, old(machine)@.names.len(), arities_of(operations@.values)),
        destination < old(machine)@.names.len(),
        pc < u32::MAX,
    ensures
        final(machine).wf(),
        final(machine)@.names == old(machine)@.names,
        applied(
            old(machine)@,
            operations@,
            app@,
            destination as int,
            pc,
            final(machine)@,
            fault_of(r),
        ),
{
    let values = combine_procedures(&app.oprands, machine)?;
    let operation = operations.get(app.operation);
    let results = operation.execute(machine, values);
    let ghost mid = machine@;
    let r = settle(machine, destination, pc, &results, operations.name(app.operation).as_str());
    assert(operations@.values[app@.operation].effect(old(machine)@, values@, mid, results@));
    r
}

} // verus!
