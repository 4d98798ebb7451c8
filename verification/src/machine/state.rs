//! What a running program changes: the registers and the stack.

use super::scan::{decimal_digits, push_decimal};
use super::table::Table;
use vstd::prelude::*;
use vstd::string::StringExecFns;

verus! {

/// What can go wrong when a machine is built or run.
#[derive(Debug)]
pub enum MachineError {
    /// The control text is no program.
    Parse(super::parser::ParseError),
    /// An instruction names a register that the machine does not have.
    UnknownRegister(String),
    /// An instruction names an operation that was not installed.
    UnknownOperation(String),
    /// An instruction names a label that the program does not hold.
    UnknownLabel(String),
    /// An operation is applied to another number of operands than it was
    /// installed for.
    ArityMismatch { operation: String, expected: usize, actual: usize },
    /// The program has more instructions than a register can count.
    ProgramTooLong,
    /// A register was read before anything was stored in it.
    UninitializedRegister(String),
    /// An operation returned no value where one was to be stored.
    NoResult(String),
    /// A value that is no position of the program was to be stored in `pc`.
    ProgramCounterOutOfRange(u32),
}

/// The mathematical content of a [`MachineError`].
pub enum Fault {
    Parse(super::parser::ParseErrorView),
    UnknownRegister(Seq<char>),
    UnknownOperation(Seq<char>),
    UnknownLabel(Seq<char>),
    ArityMismatch { operation: Seq<char>, expected: nat, actual: nat },
    ProgramTooLong,
    UninitializedRegister(Seq<char>),
    NoResult(Seq<char>),
    ProgramCounterOutOfRange(u32),
}

impl Fault {
    /// The description of the fault, in words.
    pub open spec fn message(self) -> Seq<char> {
        match self {
            Fault::Parse(e) => "parsing controller text: "@ + e.message(),
            Fault::UnknownRegister(name) => "unknown register: "@ + name,
            Fault::UnknownOperation(name) => "unknown operation: "@ + name,
            Fault::UnknownLabel(name) => "label '"@ + name + "' not found"@,
            Fault::ArityMismatch { operation, expected, actual } => "operation '"@ + operation
                + "' expects "@ + decimal_digits(expected) + " operands, but got "@
                + decimal_digits(actual),
            Fault::ProgramTooLong => "the program has more than 4294967295 instructions"@,
            Fault::UninitializedRegister(name) => "uninitialized register: "@ + name,
            Fault::NoResult(name) => "operation '"@ + name + "' returned no value"@,
            Fault::ProgramCounterOutOfRange(value) => "no position of the program: "@
                + decimal_digits(value as nat),
        }
    }
}

impl MachineError {
    /// The description of the error, in words.
    pub fn message(&self) -> (message: String)
        ensures
            message@ == self@.message(),
    {
        match self {
            MachineError::Parse(e) => {
                let mut message: String = "parsing controller text: ".to_owned();
                let inner = e.message();
                message.append(inner.as_str());
                message
            },
            MachineError::UnknownRegister(name) => {
                let mut message: String = "unknown register: ".to_owned();
                message.append(name.as_str());
                message
            },
            MachineError::UnknownOperation(name) => {
                let mut message: String = "unknown operation: ".to_owned();
                message.append(name.as_str());
                message
            },
            MachineError::UnknownLabel(name) => {
                let mut message: String = "label '".to_owned();
                message.append(name.as_str());
                message.append("' not found");
                message
            },
            MachineError::ArityMismatch { operation, expected, actual } => {
                let mut message: String = "operation '".to_owned();
                message.append(operation.as_str());
                message.append("' expects ");
                push_decimal(&mut message, *expected);
                message.append(" operands, but got ");
                push_decimal(&mut message, *actual);
                message
            },
            MachineError::ProgramTooLong => {
                "the program has more than 4294967295 instructions".to_owned()
            },
            MachineError::UninitializedRegister(name) => {
                let mut message: String = "uninitialized register: ".to_owned();
                message.append(name.as_str());
                message
            },
            MachineError::NoResult(name) => {
                let mut message: String = "operation '".to_owned();
                message.append(name.as_str());
                message.append("' returned no value");
                message
            },
            MachineError::ProgramCounterOutOfRange(value) => {
                let mut message: String = "no position of the program: ".to_owned();
                push_decimal(&mut message, *value as usize);
                message
            },
        }
    }
}

impl View for MachineError {
    type V = Fault;

    open spec fn view(&self) -> Fault {
        match self {
            MachineError::Parse(e) => Fault::Parse(e@),
            MachineError::UnknownRegister(name) => Fault::UnknownRegister(name@),
            MachineError::UnknownOperation(name) => Fault::UnknownOperation(name@),
            MachineError::UnknownLabel(name) => Fault::UnknownLabel(name@),
            MachineError::ArityMismatch { operation, expected, actual } => Fault::ArityMismatch {
                operation: operation@,
                expected: *expected as nat,
                actual: *actual as nat,
            },
            MachineError::ProgramTooLong => Fault::ProgramTooLong,
            MachineError::UninitializedRegister(name) => Fault::UninitializedRegister(name@),
            MachineError::NoResult(name) => Fault::NoResult(name@),
            MachineError::ProgramCounterOutOfRange(value) => Fault::ProgramCounterOutOfRange(
                *value,
            ),
        }
    }
}

/// A register: one cell that holds a 32-bit value, or nothing yet.
#[derive(Debug, Clone, Copy)]
pub struct Register {
    contents: Option<u32>,
}

impl View for Register {
    type V = Option<u32>;

    closed spec fn view(&self) -> Option<u32> {
        self.contents
    }
}

impl Register {
    /// A register that holds nothing yet.
    pub fn make_register() -> (register: Register)
        ensures
            register@ is None,
    {
        Register { contents: None }
    }

    /// What the register holds, if anything was stored in it.
    pub fn get_content(&self) -> (contents: Option<u32>)
        ensures
            contents == self@,
    {
        self.contents
    }

    /// Stores `value` in the register.
    pub fn set_content(&mut self, value: u32)
        ensures
            final(self)@ == Some(value),
    {
        self.contents = Some(value);
    }
}

/// The stack of a machine: the value pushed last is popped first.
#[derive(Debug)]
pub struct Stack {
    items: Vec<u32>,
}

impl View for Stack {
    type V = Seq<u32>;

    closed spec fn view(&self) -> Seq<u32> {
        self.items@
    }
}

impl Stack {
    /// The empty stack.
    pub fn make_stack() -> (stack: Stack)
        ensures
            stack@ == Seq::<u32>::empty(),
    {
        Stack { items: Vec::new() }
    }

    /// Puts `value` on top.
    pub fn push(&mut self, value: u32)
        ensures
            final(self)@ == old(self)@.push(value),
    {
        self.items.push(value);
    }

    /// Takes the top value off, if there is one.
    pub fn pop(&mut self) -> (top: Option<u32>)
        ensures
            old(self)@.len() == 0 ==> top is None && final(self)@ == old(self)@,
            old(self)@.len() > 0 ==> top == Some(old(self)@.last()) && final(self)@ == old(
                self,
            )@.drop_last(),
    {
        self.items.pop()
    }

    /// Empties the stack.
    pub fn initialize(&mut self)
        ensures
            final(self)@ == Seq::<u32>::empty(),
    {
        self.items.clear();
    }
}

/// The texts of the names of the two registers that every machine has.
pub open spec fn pc_name() -> Seq<char> {
    "pc"@
}

pub open spec fn flag_name() -> Seq<char> {
    "flag"@
}

/// The mathematical content of a [`MachineState`]: the registers by name, in
/// the order of their places, what each holds, and the stack from bottom to
/// top.
pub struct MachineStateView {
    pub names: Seq<Seq<char>>,
    pub contents: Seq<Option<u32>>,
    pub stack: Seq<u32>,
}

impl MachineStateView {
    /// Every register has a name of its own; `pc` stands in place 0 and
    /// `flag` in place 1.
    pub open spec fn wf(self) -> bool {
        &&& self.names.len() == self.contents.len()
        &&& self.names.no_duplicates()
        &&& self.names.len() >= 2
        &&& self.names[0] == pc_name()
        &&& self.names[1] == flag_name()
    }

    /// The place of the register `name`, if there is one.
    pub open spec fn place(self, name: Seq<char>) -> Option<int> {
        if self.names.contains(name) {
            Some(self.names.index_of(name))
        } else {
            None
        }
    }

    /// The state after `value` was stored in the register in place `i`.
    pub open spec fn store(self, i: int, value: u32) -> MachineStateView {
        MachineStateView { contents: self.contents.update(i, Some(value)), ..self }
    }

    /// The state after a register `name` was allocated: a new register that
    /// holds nothing, behind all others, unless there is one of that name.
    pub open spec fn allocate(self, name: Seq<char>) -> MachineStateView {
        if self.names.contains(name) {
            self
        } else {
            MachineStateView {
                names: self.names.push(name),
                contents: self.contents.push(None),
                ..self
            }
        }
    }

    /// The state after registers were allocated for `names`, one after the
    /// other.
    pub open spec fn allocate_all(self, names: Seq<Seq<char>>) -> MachineStateView
        decreases names.len(),
    {
        if names.len() == 0 {
            self
        } else {
            self.allocate_all(names.drop_last()).allocate(names.last())
        }
    }

    /// What reading the register `name` gives.
    pub open spec fn read(self, name: Seq<char>) -> Result<u32, Fault> {
        match self.place(name) {
            None => Err(Fault::UnknownRegister(name)),
            Some(i) => match self.contents[i] {
                None => Err(Fault::UninitializedRegister(name)),
                Some(value) => Ok(value),
            },
        }
    }

    /// The state with another stack.
    pub open spec fn with_stack(self, stack: Seq<u32>) -> MachineStateView {
        MachineStateView { stack, ..self }
    }
}

/// The registers and the stack of a machine: the part of it that the
/// program, and the operations that it applies, change.
pub struct MachineState {
    register_table: Table<Register>,
    stack: Stack,
}

/// What each register of a list holds.
pub open spec fn contents_of(registers: Seq<Register>) -> Seq<Option<u32>> {
    registers.map_values(|r: Register| r@)
}

impl View for MachineState {
    type V = MachineStateView;

    closed spec fn view(&self) -> MachineStateView {
        MachineStateView {
            names: self.register_table@.names,
            contents: contents_of(self.register_table@.values),
            stack: self.stack@,
        }
    }
}

impl MachineState {
    /// Whether the state is well formed.
    pub open spec fn wf(&self) -> bool {
        self@.wf()
    }

    /// The state of a new machine: the registers `pc` and `flag`, which hold
    /// nothing yet, and an empty stack.
    pub(crate) fn new() -> (state: MachineState)
        ensures
            state.wf(),
            state@.names == seq![pc_name(), flag_name()],
            state@.contents == seq![None::<u32>, None::<u32>],
            state@.stack == Seq::<u32>::empty(),
    {
        let mut register_table: Table<Register> = Table::new();
        register_table.insert("pc", Register::make_register());
        register_table.insert("flag", Register::make_register());
        let state = MachineState { register_table, stack: Stack::make_stack() };
        proof {
            reveal_strlit("pc");
            reveal_strlit("flag");
            assert("pc"@ != "flag"@) by {
                assert("pc"@.len() != "flag"@.len());
            }
            assert(state@.names =~= seq![pc_name(), flag_name()]);
            assert(state@.contents =~= seq![None::<u32>, None::<u32>]);
        }
        state
    }

    /// Allocates a register `name` that holds nothing yet, unless there is
    /// one of that name.
    pub(crate) fn allocate_register(&mut self, name: &str)
        requires
            old(self).wf(),
        ensures
            final(self).wf(),
            final(self)@ == old(self)@.allocate(name@),
    {
        proof {
            self.register_table@.lemma_position(name@);
        }
        if self.register_table.find(name).is_none() {
            self.register_table.insert(name, Register::make_register());
            assert(self@.contents =~= old(self)@.contents.push(None));
        }
    }

    /// The place of the register `name`, if there is one.
    pub(crate) fn find_register(&self, name: &str) -> (place: Option<usize>)
        requires
            self.wf(),
        ensures
            match self@.place(name@) {
                Some(i) => place matches Some(p) && p == i && 0 <= i < self@.names.len()
                    && self@.names[i] == name@,
                None => place is None,
            },
    {
        proof {
            self.register_table@.lemma_position(name@);
        }
        self.register_table.find(name)
    }

    /// The register in place `i`.
    pub(crate) fn register_at(&self, i: usize) -> (register: &Register)
        requires
            self.wf(),
            i < self@.names.len(),
        ensures
            register@ == self@.contents[i as int],
    {
        self.register_table.get(i)
    }

    /// The name of the register in place `i`.
    pub(crate) fn register_name(&self, i: usize) -> (name: String)
        requires
            self.wf(),
            i < self@.names.len(),
        ensures
            name@ == self@.names[i as int],
    {
        self.register_table.name(i).clone()
    }

    /// Stores `value` in the register in place `i`.
    pub(crate) fn store(&mut self, i: usize, value: u32)
        requires
            old(self).wf(),
            i < old(self)@.names.len(),
        ensures
            final(self).wf(),
            final(self)@ == old(self)@.store(i as int, value),
    {
        let mut register = Register::make_register();
        register.set_content(value);
        self.register_table.set(i, register);
        assert(self@.contents =~= old(self)@.contents.update(i as int, Some(value)));
    }

    /// Reads the register `name`: what it holds, or why nothing can be
    /// read.
    pub fn get_register_content(&self, name: &str) -> (r: Result<u32, MachineError>)
        requires
            self.wf(),
        ensures
            match self@.read(name@) {
                Ok(value) => r == Ok::<u32, MachineError>(value),
                Err(fault) => r matches Err(e) && e@ == fault,
            },
    {
        match self.find_register(name) {
            None => Err(MachineError::UnknownRegister(name.to_owned())),
            Some(i) => match self.register_at(i).get_content() {
                None => Err(MachineError::UninitializedRegister(name.to_owned())),
                Some(value) => Ok(value),
            },
        }
    }

    /// Stores `value` in the register `name`, if there is one.
    pub fn set_register_content(&mut self, name: &str, value: u32) -> (r: Result<
        (),
        MachineError,
    >)
        requires
            old(self).wf(),
        ensures
            final(self).wf(),
            match old(self)@.place(name@) {
                Some(i) => r is Ok && final(self)@ == old(self)@.store(i, value),
                None => r matches Err(e) && e@ == Fault::UnknownRegister(name@) && final(self)@
                    == old(self)@,
            },
    {
        match self.find_register(name) {
            None => Err(MachineError::UnknownRegister(name.to_owned())),
            Some(i) => {
                self.store(i, value);
                Ok(())
            },
        }
    }

    /// Makes `new_pc` the position of the instruction that runs next.
    pub(crate) fn set_pc(&mut self, new_pc: u32)
        requires
            old(self).wf(),
        ensures
            final(self).wf(),
            final(self)@ == old(self)@.store(0, new_pc),
    {
        self.store(0, new_pc);
    }

    /// The stack, to push on and pop from.
    pub fn stack(&mut self) -> (stack: &mut Stack)
        ensures
            stack@ == old(self)@.stack,
            final(self)@ == old(self)@.with_stack(final(stack)@),
    {
        &mut self.stack
    }
}

} // verus!
