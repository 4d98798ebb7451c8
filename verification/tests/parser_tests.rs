use register_machine::machine::grammar::Production;
use register_machine::machine::parser::{
    parse, Expr, Instruction, PrimitiveExpr, ValueExpr,
};

#[test]
fn test_parse_expr1() {
    let input = 
        "gcd
            (test (op =) (reg b) (const 0))
            (branch (label gcd-done))
            (assign t (op rem) (reg a) (reg b))
        gcd-done";

    match parse(input) {
        Ok((remaining, exprs)) => {
            println!("Parsed expressions: {:#?}", exprs);
            println!("Remaining input: '{}'", remaining);
        }
        Err(e) => println!("Error: {}", e.message()),
    }
}

#[test]
fn parses_the_gcd_fragment_into_five_elements() {
    let input = "gcd
            (test (op =) (reg b) (const 0))
            (branch (label gcd-done))
            (assign t (op rem) (reg a) (reg b))
        gcd-done";
    let (remaining, exprs) = parse(input).unwrap();
    assert_eq!(remaining, "");
    assert_eq!(exprs.len(), 5);
    match &exprs[0] {
        Expr::Label(label) => assert_eq!(label.get_name(), "gcd"),
        other => panic!("not a label: {:?}", other),
    }
    match &exprs[1] {
        Expr::Instruction(Instruction::Test(op)) => {
            assert_eq!(op.name(), "=");
            assert_eq!(op.arity(), 2);
            assert_eq!(op.oprands().len(), 2);
            assert!(matches!(&op.oprands()[0], PrimitiveExpr::Register(r) if r == "b"));
            assert!(matches!(&op.oprands()[1], PrimitiveExpr::Constant(0)));
        }
        other => panic!("not a test: {:?}", other),
    }
    match &exprs[2] {
        Expr::Instruction(Instruction::Branch(label)) => assert_eq!(label.get_name(), "gcd-done"),
        other => panic!("not a branch: {:?}", other),
    }
    match &exprs[3] {
        Expr::Instruction(Instruction::Assign { target_reg, val_expr }) => {
            assert_eq!(target_reg, "t");
            match val_expr {
                ValueExpr::OpreationExpr(op) => {
                    assert_eq!(op.name(), "rem");
                    assert_eq!(op.arity(), 2);
                    assert!(matches!(&op.oprands()[0], PrimitiveExpr::Register(r) if r == "a"));
                    assert!(matches!(&op.oprands()[1], PrimitiveExpr::Register(r) if r == "b"));
                }
                other => panic!("not an operation: {:?}", other),
            }
        }
        other => panic!("not an assign: {:?}", other),
    }
    match &exprs[4] {
        Expr::Label(label) => assert_eq!(label.get_name(), "gcd-done"),
        other => panic!("not a label: {:?}", other),
    }
}

#[test]
fn empty_and_blank_texts_are_empty_programs() {
    assert_eq!(parse("").unwrap().1.len(), 0);
    assert_eq!(parse(" \t\r\n ").unwrap().1.len(), 0);
}

#[test]
fn assign_of_each_primitive_form() {
    let (_, exprs) = parse("(assign x (const 4294967295)) (assign y (reg x)) (assign z (label here)) here").unwrap();
    assert_eq!(exprs.len(), 4);
    match &exprs[0] {
        Expr::Instruction(Instruction::Assign { target_reg, val_expr }) => {
            assert_eq!(target_reg, "x");
            assert!(matches!(val_expr, ValueExpr::PrimitiveExpr(PrimitiveExpr::Constant(4294967295))));
        }
        other => panic!("{:?}", other),
    }
    match &exprs[1] {
        Expr::Instruction(Instruction::Assign { target_reg, val_expr }) => {
            assert_eq!(target_reg, "y");
            assert!(matches!(val_expr, ValueExpr::PrimitiveExpr(PrimitiveExpr::Register(r)) if r == "x"));
        }
        other => panic!("{:?}", other),
    }
    match &exprs[2] {
        Expr::Instruction(Instruction::Assign { target_reg, val_expr }) => {
            assert_eq!(target_reg, "z");
            match val_expr {
                ValueExpr::PrimitiveExpr(PrimitiveExpr::Label(label)) => {
                    assert_eq!(label.get_name(), "here")
                }
                other => panic!("{:?}", other),
            }
        }
        other => panic!("{:?}", other),
    }
}

#[test]
fn whitespace_between_tokens_is_optional_or_plentiful() {
    let (_, tight) = parse("(assign x(const 5))").unwrap();
    assert_eq!(tight.len(), 1);
    let (_, loose) = parse("  (  assign \n x \t ( const   5 ) )  ").unwrap();
    assert_eq!(loose.len(), 1);
    match &loose[0] {
        Expr::Instruction(Instruction::Assign { target_reg, val_expr }) => {
            assert_eq!(target_reg, "x");
            assert!(matches!(val_expr, ValueExpr::PrimitiveExpr(PrimitiveExpr::Constant(5))));
        }
        other => panic!("{:?}", other),
    }
}

#[test]
fn identifiers_hold_letters_and_the_symbol_set() {
    let (_, exprs) = parse("_-=><?+*/&^%! \u{e9}t\u{e9}").unwrap();
    assert_eq!(exprs.len(), 2);
    match &exprs[0] {
        Expr::Label(label) => assert_eq!(label.get_name(), "_-=><?+*/&^%!"),
        other => panic!("{:?}", other),
    }
    match &exprs[1] {
        Expr::Label(label) => assert_eq!(label.get_name(), "\u{e9}t\u{e9}"),
        other => panic!("{:?}", other),
    }
}

#[test]
fn operation_without_operands() {
    let (_, exprs) = parse("(test (op halt?))").unwrap();
    match &exprs[0] {
        Expr::Instruction(Instruction::Test(op)) => {
            assert_eq!(op.name(), "halt?");
            assert_eq!(op.arity(), 0);
            assert_eq!(op.oprands().len(), 0);
        }
        other => panic!("{:?}", other),
    }
}

#[test]
fn leading_zeros_do_not_change_a_number() {
    let (_, exprs) = parse("(assign x (const 007))").unwrap();
    match &exprs[0] {
        Expr::Instruction(Instruction::Assign { val_expr, .. }) => {
            assert!(matches!(val_expr, ValueExpr::PrimitiveExpr(PrimitiveExpr::Constant(7))));
        }
        other => panic!("{:?}", other),
    }
}

#[test]
fn unmatched_parenthesis_is_reported() {
    let e = parse("(assign x (const 5)").unwrap_err();
    assert_eq!(e.expected, Production::CloseParen);
    assert_eq!(e.offset, 19);
    assert_eq!(e.fragment, "");
    let e = parse("(branch (label done)").unwrap_err();
    assert_eq!(e.expected, Production::CloseParen);
    assert_eq!(e.offset, 20);
}

#[test]
fn unknown_instruction_keyword_is_reported_with_its_word() {
    let e = parse("start\n(goto (label start))").unwrap_err();
    assert_eq!(e.expected, Production::InstructionKeyword);
    assert_eq!(e.offset, 7);
    assert_eq!(e.fragment, "goto");
    assert_eq!(e.message(), "expected one of the keywords assign, test, branch; found 'goto'");
}

#[test]
fn empty_identifier_is_reported() {
    let e = parse("(assign (const 5))").unwrap_err();
    assert_eq!(e.expected, Production::Identifier);
    assert_eq!(e.offset, 8);
    assert_eq!(e.fragment, "(const");
    let e = parse("(assign x (reg ))").unwrap_err();
    assert_eq!(e.expected, Production::Identifier);
    assert_eq!(e.offset, 15);
    let e = parse("42").unwrap_err();
    assert_eq!(e.expected, Production::Identifier);
    assert_eq!(e.offset, 0);
    assert_eq!(e.fragment, "42");
}

#[test]
fn malformed_number_is_reported() {
    let e = parse("(assign x (const five))").unwrap_err();
    assert_eq!(e.expected, Production::Number);
    assert_eq!(e.offset, 17);
    assert_eq!(e.fragment, "five))");
    let e = parse("(assign x (const 4294967296))").unwrap_err();
    assert_eq!(e.expected, Production::Number);
    assert_eq!(e.offset, 17);
    let e = parse("(assign x (const 99999999999999999999999999))").unwrap_err();
    assert_eq!(e.expected, Production::Number);
}

#[test]
fn missing_operand_is_reported() {
    let e = parse("(assign x)").unwrap_err();
    assert_eq!(e.expected, Production::OpenParen);
    assert_eq!(e.offset, 9);
    let e = parse("(test)").unwrap_err();
    assert_eq!(e.expected, Production::OpenParen);
    let e = parse("(branch)").unwrap_err();
    assert_eq!(e.expected, Production::OpenParen);
    let e = parse("(test (reg a))").unwrap_err();
    assert_eq!(e.expected, Production::OperationKeyword);
    assert_eq!(e.offset, 7);
    let e = parse("(branch (reg a))").unwrap_err();
    assert_eq!(e.expected, Production::LabelKeyword);
    let e = parse("(assign x (foo a))").unwrap_err();
    assert_eq!(e.expected, Production::ValueKeyword);
    assert_eq!(e.fragment, "foo");
}

#[test]
fn an_operation_is_no_operand() {
    let e = parse("(test (op =) (op +) (const 1))").unwrap_err();
    assert_eq!(e.expected, Production::PrimitiveKeyword);
    assert_eq!(e.offset, 14);
    assert_eq!(e.fragment, "op");
}

#[test]
fn parsing_stops_at_the_first_error() {
    let e = parse("(assign x (const 1)) (bogus) (alsobogus)").unwrap_err();
    assert_eq!(e.offset, 22);
    assert_eq!(e.fragment, "bogus)");
}

#[test]
fn every_production_has_its_words() {
    let cases = [
        ("(assign x (const 5)", "expected a closing parenthesis; found ''"),
        ("(assign x", "expected an opening parenthesis; found ''"),
        ("(assign 5", "expected an identifier; found '5'"),
        ("(assign x (const x))", "expected an unsigned number below 4294967296; found 'x))'"),
        ("(jump)", "expected one of the keywords assign, test, branch; found 'jump)'"),
        ("(test (reg a))", "expected the keyword op; found 'reg'"),
        ("(branch (reg a))", "expected the keyword label; found 'reg'"),
        ("(test (op f) (x))", "expected one of the keywords reg, const, label; found 'x))'"),
        ("(assign x (y))", "expected one of the keywords op, reg, const, label; found 'y))'"),
    ];
    for (text, message) in cases {
        assert_eq!(parse(text).unwrap_err().message(), message);
    }
}

#[test]
fn a_program_written_one_element_a_line_is_read_back() {
    let text = "start\n(assign n (const 10))\n(test (op <) (reg n) (const 3) (label start))\n(assign n (op dec) (reg n))\n(assign k (label start))\n(test (op done?))\n(branch (label start))\n";
    let (remaining, exprs) = parse(text).unwrap();
    assert_eq!(remaining, "");
    assert_eq!(exprs.len(), 7);
    match &exprs[2] {
        Expr::Instruction(Instruction::Test(op)) => {
            assert_eq!(op.name(), "<");
            assert_eq!(op.arity(), 3);
            assert!(matches!(&op.oprands()[0], PrimitiveExpr::Register(r) if r == "n"));
            assert!(matches!(&op.oprands()[1], PrimitiveExpr::Constant(3)));
            match &op.oprands()[2] {
                PrimitiveExpr::Label(label) => assert_eq!(label.get_name(), "start"),
                other => panic!("{:?}", other),
            }
        }
        other => panic!("{:?}", other),
    }
    match &exprs[3] {
        Expr::Instruction(Instruction::Assign { target_reg, val_expr }) => {
            assert_eq!(target_reg, "n");
            match val_expr {
                ValueExpr::OpreationExpr(op) => {
                    assert_eq!(op.name(), "dec");
                    assert_eq!(op.arity(), 1);
                }
                other => panic!("{:?}", other),
            }
        }
        other => panic!("{:?}", other),
    }
    match &exprs[5] {
        Expr::Instruction(Instruction::Test(op)) => {
            assert_eq!(op.name(), "done?");
            assert_eq!(op.arity(), 0);
        }
        other => panic!("{:?}", other),
    }
    match &exprs[6] {
        Expr::Instruction(Instruction::Branch(label)) => assert_eq!(label.get_name(), "start"),
        other => panic!("{:?}", other),
    }
}
