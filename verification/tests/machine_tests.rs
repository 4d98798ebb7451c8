use register_machine::machine::grammar::Production;
use register_machine::machine::procedure::{Executor, Operation};
use register_machine::machine::state::{MachineError, MachineState};
use register_machine::machine::Machine;

#[derive(Clone, Copy, Debug, PartialEq, Eq)]
enum Primitive {
    Rem,
    Equal,
    Add,
    Nothing,
    Save,
    Restore,
    Pair,
    Poke,
}

impl Executor for Primitive {
    fn execute(&self, machine: &mut MachineState, oprands: Vec<u32>) -> Vec<u32> {
        match self {
            Primitive::Rem => vec![oprands[0] % oprands[1]],
            Primitive::Equal => vec![(oprands[0] == oprands[1]) as u32],
            Primitive::Add => vec![oprands[0].wrapping_add(oprands[1])],
            Primitive::Nothing => Vec::new(),
            Primitive::Save => {
                machine.stack().push(oprands[0]);
                vec![oprands[0]]
            }
            Primitive::Restore => match machine.stack().pop() {
                Some(value) => vec![value],
                None => Vec::new(),
            },
            Primitive::Pair => vec![oprands[0], oprands[0] + 1],
            Primitive::Poke => {
                let seen = machine.get_register_content("a").unwrap();
                machine.set_register_content("a", seen + oprands[0]).unwrap();
                machine.set_register_content("pc", 0).unwrap();
                assert!(machine.set_register_content("nowhere", 1).is_err());
                Vec::new()
            }
        }
    }
}

fn op(name: &str, arity: usize, primitive: Primitive) -> (String, Operation<Primitive>) {
    (name.to_string(), Operation::new(arity, primitive))
}

fn arithmetic() -> Vec<(String, Operation<Primitive>)> {
    vec![op("rem", 2, Primitive::Rem), op("=", 2, Primitive::Equal), op("+", 2, Primitive::Add)]
}

fn no_ops() -> Vec<(String, Operation<Primitive>)> {
    Vec::new()
}

#[test]
fn sole_assign_of_a_constant() {
    let mut machine = Machine::make_machine(&["r"], no_ops(), "(assign r (const 5))").unwrap();
    assert_eq!(machine.pc(), 0);
    assert!(!machine.halted());
    machine.tick().unwrap();
    assert_eq!(machine.get_register_content("r").unwrap(), 5);
    assert_eq!(machine.get_register("r").unwrap().get_content(), Some(5));
    assert_eq!(machine.pc(), 1);
    assert_eq!(machine.get_register_content("pc").unwrap(), 1);
    assert_eq!(machine.program_length(), 1);
    assert!(machine.halted());
}

#[test]
fn forward_reference_to_a_label() {
    let mut machine =
        Machine::make_machine(&["x"], no_ops(), "(branch (label done)) done (assign x (const 1))")
            .unwrap();
    assert_eq!(machine.label_position("done"), Some(1));
    machine.tick().unwrap();
    assert_eq!(machine.pc(), 1);
    assert!(!machine.halted());
    assert!(matches!(
        machine.get_register_content("x"),
        Err(MachineError::UninitializedRegister(name)) if name == "x"
    ));
    machine.tick().unwrap();
    assert_eq!(machine.get_register_content("x").unwrap(), 1);
    assert!(machine.halted());
}

#[test]
fn arity_mismatch_fails_at_assembly() {
    let r = Machine::make_machine(
        &["a", "b"],
        vec![op("foo", 1, Primitive::Rem)],
        "(test (op foo) (reg a) (reg b))",
    );
    match r {
        Err(MachineError::ArityMismatch { operation, expected, actual }) => {
            assert_eq!(operation, "foo");
            assert_eq!(expected, 1);
            assert_eq!(actual, 2);
        }
        Err(other) => panic!("another error: {:?}", other),
        Ok(_) => panic!("a machine was built"),
    }
}

fn gcd_text() -> &'static str {
    "loop
       (test (op =) (reg b) (const 0))
       (branch (label done))
       (assign t (op rem) (reg a) (reg b))
       (assign a (reg b))
       (assign b (reg t))
       (branch (label loop))
     done"
}

#[test]
fn gcd_program_with_its_unconditional_branch() {
    let mut machine = Machine::make_machine(&["a", "b", "t"], arithmetic(), gcd_text()).unwrap();
    machine.set_register_content("a", 40).unwrap();
    machine.set_register_content("b", 6).unwrap();
    assert_eq!(machine.label_position("loop"), Some(0));
    assert_eq!(machine.label_position("done"), Some(6));
    assert_eq!(machine.program_length(), 6);
    assert_eq!(machine.start(1000).unwrap(), true);
    assert!(machine.halted());
    assert_eq!(machine.get_register_content("flag").unwrap(), 0);
    assert_eq!(machine.get_register_content("a").unwrap(), 40);
    assert_eq!(machine.get_register_content("b").unwrap(), 6);
}

#[test]
fn gcd_with_the_caller_branching_on_flag() {
    let text = "(test (op =) (reg b) (const 0))
                (assign t (op rem) (reg a) (reg b))
                (assign a (reg b))
                (assign b (reg t))";
    let mut machine = Machine::make_machine(&["a", "b", "t"], arithmetic(), text).unwrap();
    machine.set_register_content("a", 40).unwrap();
    machine.set_register_content("b", 6).unwrap();
    loop {
        machine.set_register_content("pc", 0).unwrap();
        machine.tick().unwrap();
        if machine.get_register_content("flag").unwrap() == 1 {
            break;
        }
        assert_eq!(machine.start(10).unwrap(), true);
    }
    assert_eq!(machine.get_register_content("a").unwrap(), 2);
    assert_eq!(machine.get_register_content("b").unwrap(), 0);
}

#[test]
fn a_register_holds_nothing_before_it_is_assigned() {
    let machine = Machine::make_machine(&["a"], arithmetic(), gcd_text_without_t()).unwrap();
    assert_eq!(machine.get_register("a").unwrap().get_content(), None);
    assert!(matches!(
        machine.get_register_content("a"),
        Err(MachineError::UninitializedRegister(name)) if name == "a"
    ));
    assert!(matches!(
        machine.get_register_content("flag"),
        Err(MachineError::UninitializedRegister(name)) if name == "flag"
    ));
    assert_eq!(machine.get_register_content("pc").unwrap(), 0);
}

fn gcd_text_without_t() -> &'static str {
    "(assign a (const 1))"
}

#[test]
fn reading_an_uninitialized_register_stops_the_tick() {
    let mut machine =
        Machine::make_machine(&["a", "b"], arithmetic(), "(assign a (reg b)) (assign b (op +) (reg a) (reg b))")
            .unwrap();
    match machine.tick() {
        Err(MachineError::UninitializedRegister(name)) => assert_eq!(name, "b"),
        other => panic!("{:?}", other),
    }
    assert_eq!(machine.pc(), 0);
    assert_eq!(machine.get_register("a").unwrap().get_content(), None);
    match machine.start(5) {
        Err(MachineError::UninitializedRegister(name)) => assert_eq!(name, "b"),
        other => panic!("{:?}", other),
    }
    machine.set_register_content("b", 3).unwrap();
    assert_eq!(machine.start(5).unwrap(), true);
    assert_eq!(machine.get_register_content("a").unwrap(), 3);
    assert_eq!(machine.get_register_content("b").unwrap(), 6);
}

#[test]
fn assembling_twice_gives_machines_that_run_alike() {
    let text = "(assign a (const 7)) again (assign b (op +) (reg a) (reg a)) (test (op =) (reg a) (reg b)) (assign c (label again))";
    let mut first = Machine::make_machine(&["a", "b", "c"], arithmetic(), text).unwrap();
    let mut second = Machine::make_machine(&["a", "b", "c"], arithmetic(), text).unwrap();
    assert_eq!(first.program_length(), second.program_length());
    assert_eq!(first.label_position("again"), second.label_position("again"));
    loop {
        assert_eq!(first.pc(), second.pc());
        for name in ["a", "b", "c", "flag"] {
            assert_eq!(
                first.get_register(name).unwrap().get_content(),
                second.get_register(name).unwrap().get_content()
            );
        }
        if first.halted() {
            break;
        }
        first.tick().unwrap();
        second.tick().unwrap();
    }
    assert!(second.halted());
    assert_eq!(first.get_register_content("a").unwrap(), 7);
    assert_eq!(first.get_register_content("b").unwrap(), 14);
    assert_eq!(first.get_register_content("c").unwrap(), 1);
    assert_eq!(first.get_register_content("flag").unwrap(), 0);
}

#[test]
fn unknown_names_fail_at_assembly() {
    let r = Machine::make_machine(&["a"], arithmetic(), "(assign b (const 1))");
    assert!(matches!(r, Err(MachineError::UnknownRegister(name)) if name == "b"));
    let r = Machine::make_machine(&["a"], arithmetic(), "(assign a (reg b))");
    assert!(matches!(r, Err(MachineError::UnknownRegister(name)) if name == "b"));
    let r = Machine::make_machine(&["a"], arithmetic(), "(assign a (op -) (reg a) (reg a))");
    assert!(matches!(r, Err(MachineError::UnknownOperation(name)) if name == "-"));
    let r = Machine::make_machine(&["a"], arithmetic(), "(branch (label nowhere))");
    assert!(matches!(r, Err(MachineError::UnknownLabel(name)) if name == "nowhere"));
    let r = Machine::make_machine(&["a"], arithmetic(), "(assign a (label nowhere))");
    assert!(matches!(r, Err(MachineError::UnknownLabel(name)) if name == "nowhere"));
    let r = Machine::make_machine(&["a"], arithmetic(), "(test (op =) (reg a) (label nowhere))");
    assert!(matches!(r, Err(MachineError::UnknownLabel(name)) if name == "nowhere"));
}

#[test]
fn a_parse_error_fails_the_construction() {
    let r = Machine::make_machine(&["a"], arithmetic(), "(assign a (const 1)");
    match r {
        Err(MachineError::Parse(e)) => {
            assert_eq!(e.expected, Production::CloseParen);
            assert_eq!(e.offset, 19);
        }
        Err(other) => panic!("{:?}", other),
        Ok(_) => panic!("a machine was built"),
    }
}

#[test]
fn the_later_of_two_labels_with_one_name_counts() {
    let mut machine = Machine::make_machine(
        &["a"],
        no_ops(),
        "here (assign a (const 1)) here (branch (label here)) (assign a (const 2))",
    )
    .unwrap();
    assert_eq!(machine.label_position("here"), Some(1));
    assert_eq!(machine.start(3).unwrap(), false);
    assert_eq!(machine.pc(), 1);
    assert_eq!(machine.get_register_content("a").unwrap(), 1);
}

#[test]
fn the_later_of_two_operations_with_one_name_counts() {
    let r = Machine::make_machine(
        &["a"],
        vec![op("f", 1, Primitive::Rem), op("f", 2, Primitive::Add)],
        "(assign a (op f) (const 1) (const 2))",
    );
    let mut machine = r.unwrap();
    assert_eq!(machine.get_operation("f").unwrap().arity(), 2);
    assert_eq!(*machine.get_operation("f").unwrap().executor(), Primitive::Add);
    assert_eq!(machine.operations().len(), 1);
    machine.tick().unwrap();
    assert_eq!(machine.get_register_content("a").unwrap(), 3);
    assert!(matches!(
        machine.get_operation("g"),
        Err(MachineError::UnknownOperation(name)) if name == "g"
    ));
}

#[test]
fn a_label_is_an_immediate_value() {
    let mut machine = Machine::make_machine(
        &["continue"],
        no_ops(),
        "(assign continue (label after)) (branch (label after)) (assign continue (const 9)) after",
    )
    .unwrap();
    assert_eq!(machine.start(10).unwrap(), true);
    assert_eq!(machine.get_register_content("continue").unwrap(), 3);
}

#[test]
fn a_register_is_read_when_the_instruction_runs() {
    let mut machine = Machine::make_machine(
        &["a", "b"],
        no_ops(),
        "(assign a (const 1)) (assign b (reg a)) (assign a (const 2)) (assign b (reg a))",
    )
    .unwrap();
    machine.tick().unwrap();
    machine.tick().unwrap();
    assert_eq!(machine.get_register_content("b").unwrap(), 1);
    machine.tick().unwrap();
    machine.tick().unwrap();
    assert_eq!(machine.get_register_content("b").unwrap(), 2);
    assert!(machine.halted());
    machine.tick().unwrap();
    assert_eq!(machine.pc(), 4);
}

#[test]
fn an_operation_without_result_is_a_fault() {
    let mut machine = Machine::make_machine(
        &["a"],
        vec![op("nothing", 0, Primitive::Nothing)],
        "(assign a (const 1)) (assign a (op nothing))",
    )
    .unwrap();
    machine.tick().unwrap();
    match machine.tick() {
        Err(MachineError::NoResult(name)) => assert_eq!(name, "nothing"),
        other => panic!("{:?}", other),
    }
    assert_eq!(machine.pc(), 1);
    assert_eq!(machine.get_register_content("a").unwrap(), 1);
}

#[test]
fn the_first_of_several_results_is_stored() {
    let mut machine = Machine::make_machine(
        &["a"],
        vec![op("pair", 1, Primitive::Pair)],
        "(assign a (op pair) (const 10))",
    )
    .unwrap();
    machine.tick().unwrap();
    assert_eq!(machine.get_register_content("a").unwrap(), 10);
}

#[test]
fn operations_reach_the_stack() {
    let mut machine = Machine::make_machine(
        &["a", "b"],
        vec![op("save", 1, Primitive::Save), op("restore", 0, Primitive::Restore)],
        "(assign a (op save) (const 3)) (assign a (op save) (const 4)) (assign b (op restore)) (assign a (op restore))",
    )
    .unwrap();
    machine.tick().unwrap();
    machine.tick().unwrap();
    assert_eq!(machine.stack().pop(), Some(4));
    machine.stack().push(5);
    assert_eq!(machine.start(10).unwrap(), true);
    assert_eq!(machine.get_register_content("b").unwrap(), 5);
    assert_eq!(machine.get_register_content("a").unwrap(), 3);
    assert_eq!(machine.stack().pop(), None);
    machine.stack().push(1);
    machine.stack().initialize();
    assert_eq!(machine.stack().pop(), None);
}

#[test]
fn a_run_stops_when_its_budget_is_spent() {
    let mut machine =
        Machine::make_machine(&["a"], no_ops(), "again (assign a (const 1)) (branch (label again))")
            .unwrap();
    assert_eq!(machine.start(0).unwrap(), false);
    assert_eq!(machine.pc(), 0);
    assert_eq!(machine.start(5).unwrap(), false);
    assert_eq!(machine.pc(), 1);
    assert_eq!(machine.start(1).unwrap(), false);
    assert_eq!(machine.pc(), 0);
}

#[test]
fn the_empty_program_has_halted() {
    let mut machine = Machine::make_machine(&[], no_ops(), "").unwrap();
    assert!(machine.halted());
    assert_eq!(machine.start(3).unwrap(), true);
    assert_eq!(machine.pc(), 0);
}

#[test]
fn a_register_named_twice_is_one_register() {
    let mut machine =
        Machine::make_machine(&["a", "pc", "a", "flag"], no_ops(), "(assign a (const 1))").unwrap();
    assert_eq!(machine.get_register_content("pc").unwrap(), 0);
    machine.tick().unwrap();
    assert_eq!(machine.get_register_content("pc").unwrap(), 1);
    assert_eq!(machine.get_register_content("a").unwrap(), 1);
}

#[test]
fn only_a_position_of_the_program_is_stored_in_pc() {
    let mut machine =
        Machine::make_machine(&["a"], no_ops(), "(assign a (const 1)) (assign a (const 2))").unwrap();
    assert!(matches!(
        machine.set_register_content("pc", 3),
        Err(MachineError::ProgramCounterOutOfRange(3))
    ));
    assert_eq!(machine.pc(), 0);
    machine.set_register_content("pc", 2).unwrap();
    assert!(machine.halted());
    machine.set_register_content("pc", 1).unwrap();
    machine.tick().unwrap();
    assert_eq!(machine.get_register_content("a").unwrap(), 2);
    assert!(matches!(
        machine.set_register_content("z", 3),
        Err(MachineError::UnknownRegister(name)) if name == "z"
    ));
    assert!(matches!(
        machine.get_register("z"),
        Err(MachineError::UnknownRegister(name)) if name == "z"
    ));
}

#[test]
fn an_assignment_to_pc_does_not_change_where_the_program_goes_on() {
    let mut machine =
        Machine::make_machine(&["a"], no_ops(), "(assign pc (const 7)) (assign a (reg pc))").unwrap();
    machine.tick().unwrap();
    assert_eq!(machine.pc(), 1);
    machine.tick().unwrap();
    assert_eq!(machine.get_register_content("a").unwrap(), 1);
    assert!(machine.halted());
}

#[test]
fn a_test_stores_its_result_in_flag() {
    let mut machine = Machine::make_machine(
        &["a"],
        arithmetic(),
        "(assign a (const 3)) (test (op =) (reg a) (const 3)) (test (op =) (reg a) (const 4))",
    )
    .unwrap();
    machine.tick().unwrap();
    machine.tick().unwrap();
    assert_eq!(machine.get_register_content("flag").unwrap(), 1);
    assert_eq!(machine.pc(), 2);
    machine.tick().unwrap();
    assert_eq!(machine.get_register_content("flag").unwrap(), 0);
    assert!(machine.halted());
}

#[test]
fn errors_describe_themselves() {
    let r = Machine::make_machine(
        &["a", "b"],
        vec![op("foo", 1, Primitive::Rem)],
        "(test (op foo) (reg a) (reg b))",
    );
    assert_eq!(r.err().unwrap().message(), "operation 'foo' expects 1 operands, but got 2");
    let r = Machine::make_machine(
        &["a"],
        vec![op("many", 120, Primitive::Rem)],
        "(assign a (op many))",
    );
    assert_eq!(r.err().unwrap().message(), "operation 'many' expects 120 operands, but got 0");
    let r = Machine::make_machine(&["a"], no_ops(), "(assign a (const 1)");
    assert_eq!(
        r.err().unwrap().message(),
        "parsing controller text: expected a closing parenthesis; found ''"
    );
    let r = Machine::make_machine(&["a"], no_ops(), "(assign b (const 1))");
    assert_eq!(r.err().unwrap().message(), "unknown register: b");
    let r = Machine::make_machine(&["a"], no_ops(), "(test (op nope))");
    assert_eq!(r.err().unwrap().message(), "unknown operation: nope");
    let r = Machine::make_machine(&["a"], no_ops(), "(branch (label nope))");
    assert_eq!(r.err().unwrap().message(), "label 'nope' not found");
    let mut machine = Machine::make_machine(
        &["a"],
        vec![op("nothing", 0, Primitive::Nothing)],
        "(assign a (reg a)) (assign a (op nothing))",
    )
    .unwrap();
    assert_eq!(machine.tick().err().unwrap().message(), "uninitialized register: a");
    assert_eq!(
        machine.set_register_content("pc", 4294967295).err().unwrap().message(),
        "no position of the program: 4294967295"
    );
    machine.set_register_content("pc", 1).unwrap();
    assert_eq!(machine.tick().err().unwrap().message(), "operation 'nothing' returned no value");
}

#[test]
fn an_operation_reads_and_writes_registers_by_name() {
    let mut machine = Machine::make_machine(
        &["a", "b"],
        vec![op("poke", 1, Primitive::Poke), op("+", 2, Primitive::Add)],
        "(assign a (const 1)) (assign b (const 2)) (assign b (op poke) (const 41))",
    )
    .unwrap();
    machine.tick().unwrap();
    machine.tick().unwrap();
    match machine.tick() {
        Err(MachineError::NoResult(name)) => assert_eq!(name, "poke"),
        other => panic!("{:?}", other),
    }
    assert_eq!(machine.get_register_content("a").unwrap(), 42);
    assert_eq!(machine.get_register_content("b").unwrap(), 2);
    assert_eq!(machine.pc(), 2);
}

#[test]
fn the_table_of_operations_can_be_looked_at() {
    let machine = Machine::make_machine(&["a"], arithmetic(), "").unwrap();
    let table = machine.operations();
    assert_eq!(table.len(), 3);
    assert_eq!(table.find("="), Some(1));
    assert_eq!(table.find("-"), None);
    assert_eq!(table.name(2), "+");
    assert_eq!(table.get(0).arity(), 2);
    assert_eq!(*table.get(0).executor(), Primitive::Rem);
}

struct Double;

impl Executor for Double {
    fn execute(&self, _machine: &mut MachineState, oprands: Vec<u32>) -> Vec<u32> {
        vec![oprands[0] * 2]
    }
}

struct Count {
    step: u32,
}

impl Executor for Count {
    fn execute(&self, machine: &mut MachineState, _oprands: Vec<u32>) -> Vec<u32> {
        let seen = machine.stack().pop().unwrap_or(0);
        machine.stack().push(seen + self.step);
        vec![seen + self.step]
    }
}

#[test]
fn operations_of_several_kinds_share_a_table() {
    let double: Box<dyn Executor> = Box::new(Double);
    let count: Box<dyn Executor> = Box::new(Count { step: 3 });
    let ops = vec![
        ("double".to_string(), Operation::new(1, double)),
        ("count".to_string(), Operation::new(0, count)),
    ];
    let mut machine = Machine::make_machine(
        &["a", "b"],
        ops,
        "(assign a (op count)) (assign a (op count)) (assign b (op double) (reg a))",
    )
    .unwrap();
    assert_eq!(machine.start(10).unwrap(), true);
    assert_eq!(machine.get_register_content("a").unwrap(), 6);
    assert_eq!(machine.get_register_content("b").unwrap(), 12);
    assert_eq!(machine.stack().pop(), Some(6));
}
