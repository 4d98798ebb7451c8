//! The parser of the control language: from text to labels and instructions.
//!
//! ```text
//! program        := expr*
//! expr           := instruction | label
//! instruction    := '(' 'assign' ident value-expr ')'
//!                 | '(' 'test' operation-expr ')'
//!                 | '(' 'branch' '(' 'label' ident ')' ')'
//! value-expr     := operation-expr | primitive-expr
//! operation-expr := '(' 'op' ident ')' primitive-expr*
//! primitive-expr := '(' 'reg' ident ')' | '(' 'const' uint ')' | '(' 'label' ident ')'
//! label          := ident
//! ```
//!
//! Whitespace may follow every token. An identifier is a non-empty run of
//! letters and of the symbols `_ - = > < ? + * / & ^ % !`; a number is a run
//! of decimal digits whose value fits 32 bits. A keyword is recognised by its
//! letters alone, whatever follows them.

use super::grammar::{
    assign_form, branch_form, constant_form, expression, fragment, identifier, instruction,
    keyword, label_form, named_form, number, operands, operation, primitive, primitive_body,
    program, program_of, register_form, symbol, test_form, value, Failure, Production, Reading,
};
use super::scan::{
    characters, decimal, digit, digit_value, digits_end, scan_ident, scan_word, skip_whitespace,
    starts_with, text_between,
};
use vstd::prelude::*;
use vstd::string::StringExecFns;

verus! {

/// A label: the name of a place in the instruction sequence.
#[derive(Debug, Clone, PartialEq, Eq)]
pub struct Label(String);

/// A value that needs no operation to be produced.
#[derive(Debug)]
pub enum PrimitiveExpr {
    Constant(u32),
    Label(Label),
    Register(String),
}

/// The application of a named operation to operands.
#[derive(Debug)]
pub struct OpreationExpr {
    name: String,
    oprands: Vec<PrimitiveExpr>,
    arity: usize,
}

/// What an `assign` may store.
#[derive(Debug)]
pub enum ValueExpr {
    OpreationExpr(OpreationExpr),
    PrimitiveExpr(PrimitiveExpr),
}

/// One instruction of the control language.
#[derive(Debug)]
pub enum Instruction {
    Assign { target_reg: String, val_expr: ValueExpr },
    Test(OpreationExpr),
    Branch(Label),
}

/// One element of a program: an instruction, or a label that names the
/// instruction after it.
#[derive(Debug)]
pub enum Expr {
    Instruction(Instruction),
    Label(Label),
}

/// A parsed program.
pub type ControllerText = Vec<Expr>;

/// The mathematical content of a [`PrimitiveExpr`].
pub enum PrimitiveExprView {
    Constant(u32),
    Label(Seq<char>),
    Register(Seq<char>),
}

/// The mathematical content of an [`OpreationExpr`].
pub struct OpreationExprView {
    pub name: Seq<char>,
    pub oprands: Seq<PrimitiveExprView>,
    pub arity: nat,
}

/// The mathematical content of a [`ValueExpr`].
pub enum ValueExprView {
    OpreationExpr(OpreationExprView),
    PrimitiveExpr(PrimitiveExprView),
}

/// The mathematical content of an [`Instruction`].
pub enum InstructionView {
    Assign { target_reg: Seq<char>, val_expr: ValueExprView },
    Test(OpreationExprView),
    Branch(Seq<char>),
}

/// The mathematical content of an [`Expr`].
pub enum ExprView {
    Instruction(InstructionView),
    Label(Seq<char>),
}

impl View for Label {
    type V = Seq<char>;

    closed spec fn view(&self) -> Seq<char> {
        self.0@
    }
}

impl View for PrimitiveExpr {
    type V = PrimitiveExprView;

    open spec fn view(&self) -> PrimitiveExprView {
        match self {
            PrimitiveExpr::Constant(value) => PrimitiveExprView::Constant(*value),
            PrimitiveExpr::Label(label) => PrimitiveExprView::Label(label@),
            PrimitiveExpr::Register(name) => PrimitiveExprView::Register(name@),
        }
    }
}

/// The contents of a list of primitive expressions, one by one.
pub open spec fn primitive_views(exprs: Seq<PrimitiveExpr>) -> Seq<PrimitiveExprView> {
    exprs.map_values(|e: PrimitiveExpr| e@)
}

impl View for OpreationExpr {
    type V = OpreationExprView;

    closed spec fn view(&self) -> OpreationExprView {
        OpreationExprView {
            name: self.name@,
            oprands: primitive_views(self.oprands@),
            arity: self.arity as nat,
        }
    }
}

impl View for ValueExpr {
    type V = ValueExprView;

    open spec fn view(&self) -> ValueExprView {
        match self {
            ValueExpr::OpreationExpr(op) => ValueExprView::OpreationExpr(op@),
            ValueExpr::PrimitiveExpr(primitive) => ValueExprView::PrimitiveExpr(primitive@),
        }
    }
}

impl View for Instruction {
    type V = InstructionView;

    open spec fn view(&self) -> InstructionView {
        match self {
            Instruction::Assign { target_reg, val_expr } => InstructionView::Assign {
                target_reg: target_reg@,
                val_expr: val_expr@,
            },
            Instruction::Test(condition) => InstructionView::Test(condition@),
            Instruction::Branch(label) => InstructionView::Branch(label@),
        }
    }
}

impl View for Expr {
    type V = ExprView;

    open spec fn view(&self) -> ExprView {
        match self {
            Expr::Instruction(instruction) => ExprView::Instruction(instruction@),
            Expr::Label(label) => ExprView::Label(label@),
        }
    }
}

/// The contents of a parsed program, element by element.
pub open spec fn program_view(text: Seq<Expr>) -> Seq<ExprView> {
    text.map_values(|e: Expr| e@)
}

impl Label {
    /// The label's name.
    pub fn get_name(&self) -> (name: String)
        ensures
            name@ == self@,
    {
        self.0.clone()
    }
}

impl OpreationExpr {
    /// The name of the operation that is applied.
    pub fn name(&self) -> (name: &str)
        ensures
            name@ == self@.name,
    {
        self.name.as_str()
    }

    /// The operands, in the order in which they were written.
    pub fn oprands(&self) -> (oprands: &[PrimitiveExpr])
        ensures
            primitive_views(oprands@) == self@.oprands,
    {
        self.oprands.as_slice()
    }

    /// The number of operands that were written.
    pub fn arity(&self) -> (arity: usize)
        ensures
            arity == self@.arity,
    {
        self.arity
    }
}

/// A failed parse inside the text: what was expected, and the position (in
/// characters) at which it was not found.
#[derive(Debug, Clone, Copy, PartialEq, Eq)]
pub struct SyntaxError {
    pub expected: Production,
    pub offset: usize,
}

/// A failed parse: what was expected, the position (in characters) at which
/// it was not found, and the word of the text that stands there.
#[derive(Debug)]
pub struct ParseError {
    pub expected: Production,
    pub offset: usize,
    pub fragment: String,
}

/// The mathematical content of a [`ParseError`].
pub struct ParseErrorView {
    pub expected: Production,
    pub offset: int,
    pub fragment: Seq<char>,
}

impl View for ParseError {
    type V = ParseErrorView;

    open spec fn view(&self) -> ParseErrorView {
        ParseErrorView {
            expected: self.expected,
            offset: self.offset as int,
            fragment: self.fragment@,
        }
    }
}

/// The words that name a production in a message.
pub open spec fn phrase(expected: Production) -> Seq<char> {
    match expected {
        Production::Identifier => "an identifier"@,
        Production::Number => "an unsigned number below 4294967296"@,
        Production::OpenParen => "an opening parenthesis"@,
        Production::CloseParen => "a closing parenthesis"@,
        Production::InstructionKeyword => "one of the keywords assign, test, branch"@,
        Production::OperationKeyword => "the keyword op"@,
        Production::LabelKeyword => "the keyword label"@,
        Production::PrimitiveKeyword => "one of the keywords reg, const, label"@,
        Production::ValueKeyword => "one of the keywords op, reg, const, label"@,
    }
}

impl ParseErrorView {
    /// The description of the failure: what was expected, and the fragment
    /// of the text that was found instead.
    pub open spec fn message(self) -> Seq<char> {
        "expected "@ + phrase(self.expected) + "; found '"@ + self.fragment + "'"@
    }
}

impl ParseError {
    /// The description of the failure: what was expected, and the fragment
    /// of the text that was found instead.
    pub fn message(&self) -> (message: String)
        ensures
            message@ == self@.message(),
    {
        let expected: &str = match self.expected {
            Production::Identifier => "an identifier",
            Production::Number => "an unsigned number below 4294967296",
            Production::OpenParen => "an opening parenthesis",
            Production::CloseParen => "a closing parenthesis",
            Production::InstructionKeyword => "one of the keywords assign, test, branch",
            Production::OperationKeyword => "the keyword op",
            Production::LabelKeyword => "the keyword label",
            Production::PrimitiveKeyword => "one of the keywords reg, const, label",
            Production::ValueKeyword => "one of the keywords op, reg, const, label",
        };
        let mut message: String = "expected ".to_owned();
        message.append(expected);
        message.append("; found '");
        message.append(self.fragment.as_str());
        message.append("'");
        message
    }
}

/// What the failure `f` of reading `s` is reported as.
pub open spec fn reported(s: Seq<char>, f: Failure) -> ParseErrorView {
    ParseErrorView { expected: f.expected, offset: f.at, fragment: fragment(s, f.at) }
}

/// The executable failure `e` is the failure `f`.
pub open spec fn failed_like(e: SyntaxError, f: Failure) -> bool {
    e.expected == f.expected && e.offset == f.at
}

/// The executable result `r` is the reading `reading`: the same value and
/// position, or the same failure.
pub open spec fn agrees<X: View>(
    r: Result<(usize, X), SyntaxError>,
    reading: Reading<X::V>,
) -> bool {
    match reading {
        Ok((value, rest)) => r matches Ok(p) && p.0 == rest && p.1@ == value,
        Err(f) => r matches Err(e) && failed_like(e, f),
    }
}

/// A successful result went forward from `start` and stayed within `len`; a
/// failure lies between `start` and `len`.
pub open spec fn advances<X>(r: Result<(usize, X), SyntaxError>, start: usize, len: usize) -> bool {
    match r {
        Ok(p) => start < p.0 <= len,
        Err(e) => start <= e.offset <= len,
    }
}

/// Reads the character `c` at `start` and skips the whitespace behind it.
fn expect_symbol(input: &Vec<char>, start: usize, c: char, expected: Production) -> (r: Result<
    usize,
    SyntaxError,
>)
    requires
        start <= input.len(),
    ensures
        match symbol(input@, start as int, c, expected) {
            Ok(rest) => r matches Ok(p) && p == rest && start < rest <= input.len(),
            Err(f) => r matches Err(e) && failed_like(e, f) && e.offset == start,
        },
{
    if start < input.len() && input[start] == c {
        Ok(skip_whitespace(input, start + 1))
    } else {
        Err(SyntaxError { expected, offset: start })
    }
}

/// Reads `word` at `start`, if it stands there, and skips the whitespace
/// behind it.
fn expect_keyword(input: &Vec<char>, start: usize, word: &str) -> (r: Option<usize>)
    requires
        start <= input.len(),
    ensures
        match keyword(input@, start as int, word@) {
            Some(rest) => r matches Some(p) && p == rest && start + word@.len() <= rest
                <= input.len(),
            None => r is None,
        },
{
    if starts_with(input, start, word) {
        let n: usize = word.unicode_len();
        Some(skip_whitespace(input, start + n))
    } else {
        None
    }
}

/// Reads an identifier at `start`.
fn ident_parser(input: &Vec<char>, start: usize) -> (r: Result<(usize, String), SyntaxError>)
    requires
        start <= input.len(),
    ensures
        agrees(r, identifier(input@, start as int)),
        advances(r, start, input.len()),
{
    let end: usize = scan_ident(input, start);
    if end == start {
        Err(SyntaxError { expected: Production::Identifier, offset: start })
    } else {
        let ident = text_between(input, start, end);
        Ok((skip_whitespace(input, end), ident))
    }
}

/// The value of a run of decimal digits does not shrink when the run grows.
proof fn lemma_decimal_grows(digits: Seq<char>, k: int)
    requires
        0 <= k <= digits.len(),
    ensures
        decimal(digits.take(k)) <= decimal(digits),
    decreases digits.len() - k,
{
    if k < digits.len() {
        lemma_decimal_grows(digits.drop_last(), k);
        assert(digits.drop_last().take(k) == digits.take(k));
    } else {
        assert(digits.take(k) == digits);
    }
}

/// Reads an unsigned decimal literal at `start`.
fn number_parser(input: &Vec<char>, start: usize) -> (r: Result<(usize, u32), SyntaxError>)
    requires
        start <= input.len(),
    ensures
        agrees(r, number(input@, start as int)),
        advances(r, start, input.len()),
{
    let mut i: usize = start;
    let mut value: u64 = 0;
    while i < input.len() && '0' <= input[i] && input[i] <= '9'
        invariant
            start <= i <= input.len(),
            digits_end(input@, i as int) == digits_end(input@, start as int),
            value == decimal(input@.subrange(start as int, i as int)),
            value <= u32::MAX,
        decreases input.len() - i,
    {
        let d: u64 = (input[i] as u32 - '0' as u32) as u64;
        proof {
            let run = input@.subrange(start as int, i + 1);
            assert(run.drop_last() == input@.subrange(start as int, i as int));
            assert(run.last() == input@[i as int]);
            assert(d == digit_value(input@[i as int]));
        }
        value = value * 10 + d;
        i += 1;
        if value > 0xffff_ffff {
            proof {
                let end = digits_end(input@, start as int);
                super::scan::lemma_run_end(input@, i as int, |c: char| digit(c));
                let whole = input@.subrange(start as int, end);
                lemma_decimal_grows(whole, i - start);
                assert(whole.take(i - start) == input@.subrange(start as int, i as int));
            }
            return Err(SyntaxError { expected: Production::Number, offset: start });
        }
    }
    if i == start {
        Err(SyntaxError { expected: Production::Number, offset: start })
    } else {
        Ok((skip_whitespace(input, i), value as u32))
    }
}

/// Reads `word`, an identifier and a closing parenthesis at `start`.
fn parse_named(input: &Vec<char>, start: usize, word: &str, expected: Production) -> (r: Result<
    (usize, String),
    SyntaxError,
>)
    requires
        start <= input.len(),
    ensures
        agrees(r, named_form(input@, start as int, word@, expected)),
        advances(r, start, input.len()),
{
    match expect_keyword(input, start, word) {
        None => Err(SyntaxError { expected, offset: start }),
        Some(after_word) => {
            let (after_name, name) = ident_parser(input, after_word)?;
            let rest = expect_symbol(input, after_name, ')', Production::CloseParen)?;
            Ok((rest, name))
        },
    }
}

/// Reads `reg name)` at `start`.
fn parse_reg(input: &Vec<char>, start: usize) -> (r: Result<(usize, String), SyntaxError>)
    requires
        start <= input.len(),
    ensures
        agrees(r, register_form(input@, start as int)),
        advances(r, start, input.len()),
{
    parse_named(input, start, "reg", Production::PrimitiveKeyword)
}

/// Reads `const value)` at `start`.
fn parse_const(input: &Vec<char>, start: usize) -> (r: Result<(usize, u32), SyntaxError>)
    requires
        start <= input.len(),
    ensures
        agrees(r, constant_form(input@, start as int)),
        advances(r, start, input.len()),
{
    match expect_keyword(input, start, "const") {
        None => Err(SyntaxError { expected: Production::PrimitiveKeyword, offset: start }),
        Some(after_word) => {
            let (after_value, value) = number_parser(input, after_word)?;
            let rest = expect_symbol(input, after_value, ')', Production::CloseParen)?;
            Ok((rest, value))
        },
    }
}

/// Reads `label name)` at `start`.
fn parse_label_expr(input: &Vec<char>, start: usize) -> (r: Result<(usize, Label), SyntaxError>)
    requires
        start <= input.len(),
    ensures
        agrees(r, label_form(input@, start as int)),
        advances(r, start, input.len()),
{
    let (rest, name) = parse_named(input, start, "label", Production::LabelKeyword)?;
    Ok((rest, Label(name)))
}

/// Reads a primitive expression whose opening parenthesis has been read.
fn parse_primitive_body(input: &Vec<char>, start: usize, otherwise: Production) -> (r: Result<
    (usize, PrimitiveExpr),
    SyntaxError,
>)
    requires
        start <= input.len(),
    ensures
        agrees(r, primitive_body(input@, start as int, otherwise)),
        advances(r, start, input.len()),
{
    if starts_with(input, start, "label") {
        let (rest, label) = parse_label_expr(input, start)?;
        Ok((rest, PrimitiveExpr::Label(label)))
    } else if starts_with(input, start, "reg") {
        let (rest, name) = parse_reg(input, start)?;
        Ok((rest, PrimitiveExpr::Register(name)))
    } else if starts_with(input, start, "const") {
        let (rest, value) = parse_const(input, start)?;
        Ok((rest, PrimitiveExpr::Constant(value)))
    } else {
        Err(SyntaxError { expected: otherwise, offset: start })
    }
}

/// Reads a primitive expression at `start`.
fn parse_primitive_expr(input: &Vec<char>, start: usize) -> (r: Result<
    (usize, PrimitiveExpr),
    SyntaxError,
>)
    requires
        start <= input.len(),
    ensures
        agrees(r, primitive(input@, start as int)),
        advances(r, start, input.len()),
{
    let body = expect_symbol(input, start, '(', Production::OpenParen)?;
    parse_primitive_body(input, body, Production::PrimitiveKeyword)
}

/// Reads the operands of an operation: primitive expressions for as long as
/// a parenthesis opens.
fn parse_oprands(input: &Vec<char>, start: usize) -> (r: Result<
    (usize, Vec<PrimitiveExpr>),
    SyntaxError,
>)
    requires
        start <= input.len(),
    ensures
        match operands(input@, start as int, Seq::empty()) {
            Ok((oprands, rest)) => r matches Ok(p) && p.0 == rest && primitive_views(p.1@)
                == oprands,
            Err(f) => r matches Err(e) && failed_like(e, f),
        },
        match r {
            Ok(p) => start <= p.0 <= input.len(),
            Err(e) => start <= e.offset <= input.len(),
        },
{
    let mut oprands: Vec<PrimitiveExpr> = Vec::new();
    let mut i: usize = start;
    assert(primitive_views(oprands@) == Seq::<PrimitiveExprView>::empty());
    while i < input.len() && input[i] == '('
        invariant
            start <= i <= input.len(),
            operands(input@, i as int, primitive_views(oprands@)) == operands(
                input@,
                start as int,
                Seq::empty(),
            ),
        decreases input.len() - i,
    {
        let (next, operand) = parse_primitive_expr(input, i)?;
        assert(primitive_views(oprands@.push(operand)) == primitive_views(oprands@).push(
            operand@,
        ));
        oprands.push(operand);
        i = next;
    }
    Ok((i, oprands))
}

/// Reads `op name)` and the operands behind it at `start`.
fn parse_operation(input: &Vec<char>, start: usize, otherwise: Production) -> (r: Result<
    (usize, OpreationExpr),
    SyntaxError,
>)
    requires
        start <= input.len(),
    ensures
        agrees(r, operation(input@, start as int, otherwise)),
        advances(r, start, input.len()),
{
    let (after_name, name) = parse_named(input, start, "op", otherwise)?;
    let (rest, oprands) = parse_oprands(input, after_name)?;
    let arity: usize = oprands.len();
    Ok((rest, OpreationExpr { name, oprands, arity }))
}

/// Reads a value expression at `start`.
fn parse_value_expr(input: &Vec<char>, start: usize) -> (r: Result<(usize, ValueExpr), SyntaxError>)
    requires
        start <= input.len(),
    ensures
        agrees(r, value(input@, start as int)),
        advances(r, start, input.len()),
{
    let body = expect_symbol(input, start, '(', Production::OpenParen)?;
    if starts_with(input, body, "op") {
        let (rest, op) = parse_operation(input, body, Production::ValueKeyword)?;
        Ok((rest, ValueExpr::OpreationExpr(op)))
    } else {
        let (rest, primitive) = parse_primitive_body(input, body, Production::ValueKeyword)?;
        Ok((rest, ValueExpr::PrimitiveExpr(primitive)))
    }
}

/// Reads `assign target value)` at `start`.
fn parse_assign(input: &Vec<char>, start: usize) -> (r: Result<(usize, Instruction), SyntaxError>)
    requires
        start <= input.len(),
    ensures
        agrees(r, assign_form(input@, start as int)),
        advances(r, start, input.len()),
{
    match expect_keyword(input, start, "assign") {
        None => Err(SyntaxError { expected: Production::InstructionKeyword, offset: start }),
        Some(after_word) => {
            let (after_target, target_reg) = ident_parser(input, after_word)?;
            let (after_value, val_expr) = parse_value_expr(input, after_target)?;
            let rest = expect_symbol(input, after_value, ')', Production::CloseParen)?;
            Ok((rest, Instruction::Assign { target_reg, val_expr }))
        },
    }
}

/// Reads `test (op name) operands)` at `start`.
fn parse_test(input: &Vec<char>, start: usize) -> (r: Result<(usize, Instruction), SyntaxError>)
    requires
        start <= input.len(),
    ensures
        agrees(r, test_form(input@, start as int)),
        advances(r, start, input.len()),
{
    match expect_keyword(input, start, "test") {
        None => Err(SyntaxError { expected: Production::InstructionKeyword, offset: start }),
        Some(after_word) => {
            let body = expect_symbol(input, after_word, '(', Production::OpenParen)?;
            let (after_condition, condition) = parse_operation(
                input,
                body,
                Production::OperationKeyword,
            )?;
            let rest = expect_symbol(input, after_condition, ')', Production::CloseParen)?;
            Ok((rest, Instruction::Test(condition)))
        },
    }
}

/// Reads `branch (label name))` at `start`.
fn parse_branch(input: &Vec<char>, start: usize) -> (r: Result<(usize, Instruction), SyntaxError>)
    requires
        start <= input.len(),
    ensures
        agrees(r, branch_form(input@, start as int)),
        advances(r, start, input.len()),
{
    match expect_keyword(input, start, "branch") {
        None => Err(SyntaxError { expected: Production::InstructionKeyword, offset: start }),
        Some(after_word) => {
            let body = expect_symbol(input, after_word, '(', Production::OpenParen)?;
            let (after_label, label) = parse_label_expr(input, body)?;
            let rest = expect_symbol(input, after_label, ')', Production::CloseParen)?;
            Ok((rest, Instruction::Branch(label)))
        },
    }
}

/// Reads an instruction at `start`.
fn parse_instruction(input: &Vec<char>, start: usize) -> (r: Result<
    (usize, Instruction),
    SyntaxError,
>)
    requires
        start <= input.len(),
    ensures
        agrees(r, instruction(input@, start as int)),
        advances(r, start, input.len()),
{
    let body = expect_symbol(input, start, '(', Production::OpenParen)?;
    if starts_with(input, body, "assign") {
        parse_assign(input, body)
    } else if starts_with(input, body, "test") {
        parse_test(input, body)
    } else if starts_with(input, body, "branch") {
        parse_branch(input, body)
    } else {
        Err(SyntaxError { expected: Production::InstructionKeyword, offset: body })
    }
}

/// Reads a label at `start`.
fn parse_label(input: &Vec<char>, start: usize) -> (r: Result<(usize, Label), SyntaxError>)
    requires
        start <= input.len(),
    ensures
        agrees(r, identifier(input@, start as int)),
        advances(r, start, input.len()),
{
    let (rest, name) = ident_parser(input, start)?;
    Ok((rest, Label(name)))
}

/// Reads one element of a program at `start`.
fn parse_expr(input: &Vec<char>, start: usize) -> (r: Result<(usize, Expr), SyntaxError>)
    requires
        start <= input.len(),
    ensures
        agrees(r, expression(input@, start as int)),
        advances(r, start, input.len()),
{
    if start < input.len() && input[start] == '(' {
        let (rest, instruction) = parse_instruction(input, start)?;
        Ok((rest, Expr::Instruction(instruction)))
    } else {
        let (rest, label) = parse_label(input, start)?;
        Ok((rest, Expr::Label(label)))
    }
}

/// Reads a whole program from the characters of a text.
fn parse_program(input: &Vec<char>) -> (r: Result<ControllerText, SyntaxError>)
    ensures
        match program_of(input@) {
            Ok(elements) => r matches Ok(text) && program_view(text@) == elements,
            Err(f) => r matches Err(e) && failed_like(e, f) && e.offset <= input.len(),
        },
{
    let mut exprs: Vec<Expr> = Vec::new();
    let mut i: usize = skip_whitespace(input, 0);
    assert(program_view(exprs@) == Seq::<ExprView>::empty());
    while i < input.len()
        invariant
            i <= input.len(),
            program(input@, i as int, program_view(exprs@)) == program_of(input@),
        decreases input.len() - i,
    {
        let (next, expr) = match parse_expr(input, i) {
            Ok(read) => read,
            Err(e) => {
                return Err(e);
            },
        };
        assert(program_view(exprs@.push(expr)) == program_view(exprs@).push(expr@));
        exprs.push(expr);
        i = next;
    }
    Ok(exprs)
}

/// Parses a control text into the program that it holds.
///
/// The text is read as a sequence of labels and instructions up to its end;
/// on success nothing of it is left, and the first component of the result
/// is the empty rest. On failure the error names the production that was
/// expected, the position at which it was not found, and the word of the
/// text that stands there instead.
pub fn parse<'a>(controller_text: &'a str) -> (r: Result<(&'a str, ControllerText), ParseError>)
    ensures
        match program_of(controller_text@) {
            Ok(elements) => r matches Ok(p) && p.0@ == Seq::<char>::empty() && program_view(p.1@)
                == elements,
            Err(f) => r matches Err(e) && e@ == reported(controller_text@, f),
        },
{
    let input = characters(controller_text);
    match parse_program(&input) {
        Ok(exprs) => {
            let end: usize = input.len();
            let remaining = controller_text.substring_char(end, end);
            Ok((remaining, exprs))
        },
        Err(e) => {
            let word_end: usize = scan_word(&input, e.offset);
            let fragment = text_between(&input, e.offset, word_end);
            Err(ParseError { expected: e.expected, offset: e.offset, fragment })
        },
    }
}

} // verus!
