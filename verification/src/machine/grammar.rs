//! The control language as a function on sequences of characters: what each
//! production yields when it is read at a position of a text, and where
//! reading goes on after it.

use super::parser::{
    ExprView, InstructionView, OpreationExprView, PrimitiveExprView, ValueExprView,
};
use super::scan::{
    decimal, digit, digits_end, has_word, ident_char, ident_end, lemma_run_end, spaces_end,
    whitespace, word_end,
};
use vstd::prelude::*;

verus! {

/// What the parser was looking for when it gave up.
#[derive(Debug, Clone, Copy, PartialEq, Eq)]
pub enum Production {
    /// A non-empty run of identifier characters.
    Identifier,
    /// An unsigned decimal literal that fits 32 bits.
    Number,
    /// An opening parenthesis.
    OpenParen,
    /// A closing parenthesis.
    CloseParen,
    /// One of `assign`, `test`, `branch`.
    InstructionKeyword,
    /// The word `op`.
    OperationKeyword,
    /// The word `label`.
    LabelKeyword,
    /// One of `reg`, `const`, `label`.
    PrimitiveKeyword,
    /// One of `op`, `reg`, `const`, `label`.
    ValueKeyword,
}

/// A failed reading: the production that was expected, and the position at
/// which it was not found.
pub struct Failure {
    pub expected: Production,
    pub at: int,
}

/// The result of reading a `T`: its value and the position after it (and
/// after the whitespace that follows), or the failure.
pub type Reading<T> = Result<(T, int), Failure>;

pub open spec fn failure<T>(expected: Production, at: int) -> Reading<T> {
    Err(Failure { expected, at })
}

pub open spec fn word_assign() -> Seq<char> {
    "assign"@
}

pub open spec fn word_test() -> Seq<char> {
    "test"@
}

pub open spec fn word_branch() -> Seq<char> {
    "branch"@
}

pub open spec fn word_op() -> Seq<char> {
    "op"@
}

pub open spec fn word_reg() -> Seq<char> {
    "reg"@
}

pub open spec fn word_const() -> Seq<char> {
    "const"@
}

pub open spec fn word_label() -> Seq<char> {
    "label"@
}

/// The position after the character `c` at `i` and the whitespace behind it.
pub open spec fn symbol(s: Seq<char>, i: int, c: char, expected: Production) -> Result<
    int,
    Failure,
> {
    if 0 <= i < s.len() && s[i] == c {
        Ok(spaces_end(s, i + 1))
    } else {
        Err(Failure { expected, at: i })
    }
}

/// The position after `word` at `i` and the whitespace behind it, if `word`
/// stands there.
pub open spec fn keyword(s: Seq<char>, i: int, word: Seq<char>) -> Option<int> {
    if has_word(s, i, word) {
        Some(spaces_end(s, i + word.len()))
    } else {
        None
    }
}

/// `ident`: the longest run of identifier characters at `i`, which must not
/// be empty.
pub open spec fn identifier(s: Seq<char>, i: int) -> Reading<Seq<char>> {
    let end = ident_end(s, i);
    if end == i {
        failure(Production::Identifier, i)
    } else {
        Ok((s.subrange(i, end), spaces_end(s, end)))
    }
}

/// `uint`: the longest run of decimal digits at `i`, which must not be
/// empty and must stand for a number below 2^32.
pub open spec fn number(s: Seq<char>, i: int) -> Reading<u32> {
    let end = digits_end(s, i);
    if end == i || decimal(s.subrange(i, end)) > u32::MAX {
        failure(Production::Number, i)
    } else {
        Ok((decimal(s.subrange(i, end)) as u32, spaces_end(s, end)))
    }
}

/// `ident ')'` behind the word at `i`, which must be `word`.
pub open spec fn named_form(s: Seq<char>, i: int, word: Seq<char>, expected: Production) -> Reading<
    Seq<char>,
> {
    match keyword(s, i, word) {
        None => failure(expected, i),
        Some(j) => match identifier(s, j) {
            Err(f) => Err(f),
            Ok((name, k)) => match symbol(s, k, ')', Production::CloseParen) {
                Err(f) => Err(f),
                Ok(rest) => Ok((name, rest)),
            },
        },
    }
}

/// `'reg' ident ')'` at `i`.
pub open spec fn register_form(s: Seq<char>, i: int) -> Reading<Seq<char>> {
    named_form(s, i, word_reg(), Production::PrimitiveKeyword)
}

/// `'label' ident ')'` at `i`.
pub open spec fn label_form(s: Seq<char>, i: int) -> Reading<Seq<char>> {
    named_form(s, i, word_label(), Production::LabelKeyword)
}

/// `'const' uint ')'` at `i`.
pub open spec fn constant_form(s: Seq<char>, i: int) -> Reading<u32> {
    match keyword(s, i, word_const()) {
        None => failure(Production::PrimitiveKeyword, i),
        Some(j) => match number(s, j) {
            Err(f) => Err(f),
            Ok((value, k)) => match symbol(s, k, ')', Production::CloseParen) {
                Err(f) => Err(f),
                Ok(rest) => Ok((value, rest)),
            },
        },
    }
}

/// A primitive expression without its opening parenthesis; `otherwise` is
/// reported where none of the three keywords stands at `i`.
pub open spec fn primitive_body(s: Seq<char>, i: int, otherwise: Production) -> Reading<
    PrimitiveExprView,
> {
    if keyword(s, i, word_label()) is Some {
        match label_form(s, i) {
            Err(f) => Err(f),
            Ok((name, rest)) => Ok((PrimitiveExprView::Label(name), rest)),
        }
    } else if keyword(s, i, word_reg()) is Some {
        match register_form(s, i) {
            Err(f) => Err(f),
            Ok((name, rest)) => Ok((PrimitiveExprView::Register(name), rest)),
        }
    } else if keyword(s, i, word_const()) is Some {
        match constant_form(s, i) {
            Err(f) => Err(f),
            Ok((value, rest)) => Ok((PrimitiveExprView::Constant(value), rest)),
        }
    } else {
        failure(otherwise, i)
    }
}

/// `primitive-expr` at `i`.
pub open spec fn primitive(s: Seq<char>, i: int) -> Reading<PrimitiveExprView> {
    match symbol(s, i, '(', Production::OpenParen) {
        Err(f) => Err(f),
        Ok(j) => primitive_body(s, j, Production::PrimitiveKeyword),
    }
}

/// `primitive-expr*` at `i`, behind the operands `before`: operands are read
/// for as long as an opening parenthesis stands at the position. That each
/// operand takes the reading forward is asked for so that the definition is
/// well founded; `lemma_operands_bounded` shows that it always does.
pub open spec fn operands(s: Seq<char>, i: int, before: Seq<PrimitiveExprView>) -> Reading<
    Seq<PrimitiveExprView>,
>
    decreases s.len() - i,
{
    if 0 <= i < s.len() && s[i] == '(' {
        match primitive(s, i) {
            Err(f) => Err(f),
            Ok((operand, j)) => {
                if i < j <= s.len() {
                    operands(s, j, before.push(operand))
                } else {
                    Ok((before, i))
                }
            },
        }
    } else {
        Ok((before, i))
    }
}

/// `operation-expr` without its opening parenthesis, at `i`; `otherwise` is
/// reported where the word `op` does not stand there.
pub open spec fn operation(s: Seq<char>, i: int, otherwise: Production) -> Reading<
    OpreationExprView,
> {
    match named_form(s, i, word_op(), otherwise) {
        Err(f) => Err(f),
        Ok((name, j)) => match operands(s, j, Seq::empty()) {
            Err(f) => Err(f),
            Ok((oprands, rest)) => Ok(
                (OpreationExprView { name, oprands, arity: oprands.len() }, rest),
            ),
        },
    }
}

/// `value-expr` at `i`.
pub open spec fn value(s: Seq<char>, i: int) -> Reading<ValueExprView> {
    match symbol(s, i, '(', Production::OpenParen) {
        Err(f) => Err(f),
        Ok(j) => if keyword(s, j, word_op()) is Some {
            match operation(s, j, Production::ValueKeyword) {
                Err(f) => Err(f),
                Ok((op, rest)) => Ok((ValueExprView::OpreationExpr(op), rest)),
            }
        } else {
            match primitive_body(s, j, Production::ValueKeyword) {
                Err(f) => Err(f),
                Ok((p, rest)) => Ok((ValueExprView::PrimitiveExpr(p), rest)),
            }
        },
    }
}

/// `'assign' ident value-expr ')'` at `i`.
pub open spec fn assign_form(s: Seq<char>, i: int) -> Reading<InstructionView> {
    match keyword(s, i, word_assign()) {
        None => failure(Production::InstructionKeyword, i),
        Some(j) => match identifier(s, j) {
            Err(f) => Err(f),
            Ok((target_reg, k)) => match value(s, k) {
                Err(f) => Err(f),
                Ok((val_expr, m)) => match symbol(s, m, ')', Production::CloseParen) {
                    Err(f) => Err(f),
                    Ok(rest) => Ok((InstructionView::Assign { target_reg, val_expr }, rest)),
                },
            },
        },
    }
}

/// `'test' operation-expr ')'` at `i`.
pub open spec fn test_form(s: Seq<char>, i: int) -> Reading<InstructionView> {
    match keyword(s, i, word_test()) {
        None => failure(Production::InstructionKeyword, i),
        Some(j) => match symbol(s, j, '(', Production::OpenParen) {
            Err(f) => Err(f),
            Ok(k) => match operation(s, k, Production::OperationKeyword) {
                Err(f) => Err(f),
                Ok((condition, m)) => match symbol(s, m, ')', Production::CloseParen) {
                    Err(f) => Err(f),
                    Ok(rest) => Ok((InstructionView::Test(condition), rest)),
                },
            },
        },
    }
}

/// `'branch' '(' 'label' ident ')' ')'` at `i`.
pub open spec fn branch_form(s: Seq<char>, i: int) -> Reading<InstructionView> {
    match keyword(s, i, word_branch()) {
        None => failure(Production::InstructionKeyword, i),
        Some(j) => match symbol(s, j, '(', Production::OpenParen) {
            Err(f) => Err(f),
            Ok(k) => match label_form(s, k) {
                Err(f) => Err(f),
                Ok((name, m)) => match symbol(s, m, ')', Production::CloseParen) {
                    Err(f) => Err(f),
                    Ok(rest) => Ok((InstructionView::Branch(name), rest)),
                },
            },
        },
    }
}

/// `instruction` at `i`.
pub open spec fn instruction(s: Seq<char>, i: int) -> Reading<InstructionView> {
    match symbol(s, i, '(', Production::OpenParen) {
        Err(f) => Err(f),
        Ok(j) => if keyword(s, j, word_assign()) is Some {
            assign_form(s, j)
        } else if keyword(s, j, word_test()) is Some {
            test_form(s, j)
        } else if keyword(s, j, word_branch()) is Some {
            branch_form(s, j)
        } else {
            failure(Production::InstructionKeyword, j)
        },
    }
}

/// `expr` at `i`: an instruction where a parenthesis opens, else a label.
pub open spec fn expression(s: Seq<char>, i: int) -> Reading<ExprView> {
    if 0 <= i < s.len() && s[i] == '(' {
        match instruction(s, i) {
            Err(f) => Err(f),
            Ok((inst, rest)) => Ok((ExprView::Instruction(inst), rest)),
        }
    } else {
        match identifier(s, i) {
            Err(f) => Err(f),
            Ok((name, rest)) => Ok((ExprView::Label(name), rest)),
        }
    }
}

/// `expr*` from `i` to the end of the text, behind the elements `before`.
/// That each element takes the reading forward is asked for so that the
/// definition is well founded; `law_program_is_read_to_the_end` shows that it
/// always does.
pub open spec fn program(s: Seq<char>, i: int, before: Seq<ExprView>) -> Result<
    Seq<ExprView>,
    Failure,
>
    decreases s.len() - i,
{
    if 0 <= i < s.len() {
        match expression(s, i) {
            Err(f) => Err(f),
            Ok((element, j)) => {
                if i < j <= s.len() {
                    program(s, j, before.push(element))
                } else {
                    Ok(before)
                }
            },
        }
    } else {
        Ok(before)
    }
}

/// What a whole text parses to: the program that it holds, or the first
/// failure.
pub open spec fn program_of(s: Seq<char>) -> Result<Seq<ExprView>, Failure> {
    program(s, spaces_end(s, 0), Seq::empty())
}

/// The input fragment that a failure at `at` points to: the word that
/// starts there.
pub open spec fn fragment(s: Seq<char>, at: int) -> Seq<char> {
    s.subrange(at, word_end(s, at))
}

/// A reading that began at `i` went forward and stayed within the text, or
/// failed at a position between `i` and the end of the text.
pub open spec fn bounded<T>(reading: Reading<T>, s: Seq<char>, i: int) -> bool {
    match reading {
        Ok((_, rest)) => i < rest <= s.len(),
        Err(f) => i <= f.at <= s.len(),
    }
}

/// Skipping whitespace goes forward and stays within the text.
pub proof fn lemma_spaces_end_bounded(s: Seq<char>, i: int)
    requires
        0 <= i <= s.len(),
    ensures
        i <= spaces_end(s, i) <= s.len(),
{
    lemma_run_end(s, i, |c: char| whitespace(c));
}

/// Reading a symbol goes forward and stays within the text.
pub proof fn lemma_symbol_bounded(s: Seq<char>, i: int, c: char, expected: Production)
    requires
        0 <= i <= s.len(),
    ensures
        match symbol(s, i, c, expected) {
            Ok(rest) => i < rest <= s.len(),
            Err(f) => f.at == i,
        },
{
    if i < s.len() {
        lemma_spaces_end_bounded(s, i + 1);
    }
}

/// Reading a keyword does not go back, and stays within the text.
pub proof fn lemma_keyword_bounded(s: Seq<char>, i: int, word: Seq<char>)
    requires
        0 <= i <= s.len(),
    ensures
        keyword(s, i, word) matches Some(rest) ==> i <= rest <= s.len(),
{
    if has_word(s, i, word) {
        lemma_spaces_end_bounded(s, i + word.len());
    }
}

/// Reading an identifier is bounded.
pub proof fn lemma_identifier_bounded(s: Seq<char>, i: int)
    requires
        0 <= i <= s.len(),
    ensures
        bounded(identifier(s, i), s, i),
{
    lemma_run_end(s, i, |c: char| ident_char(c));
    lemma_spaces_end_bounded(s, ident_end(s, i));
}

/// Reading a number is bounded.
pub proof fn lemma_number_bounded(s: Seq<char>, i: int)
    requires
        0 <= i <= s.len(),
    ensures
        bounded(number(s, i), s, i),
{
    lemma_run_end(s, i, |c: char| digit(c));
    lemma_spaces_end_bounded(s, digits_end(s, i));
}

/// Reading a keyword, a name and a closing parenthesis is bounded.
pub proof fn lemma_named_form_bounded(s: Seq<char>, i: int, word: Seq<char>, expected: Production)
    requires
        0 <= i <= s.len(),
    ensures
        bounded(named_form(s, i, word, expected), s, i),
{
    lemma_keyword_bounded(s, i, word);
    if let Some(j) = keyword(s, i, word) {
        lemma_identifier_bounded(s, j);
        if let Ok((_, k)) = identifier(s, j) {
            lemma_symbol_bounded(s, k, ')', Production::CloseParen);
        }
    }
}

/// Reading a constant form is bounded.
pub proof fn lemma_constant_form_bounded(s: Seq<char>, i: int)
    requires
        0 <= i <= s.len(),
    ensures
        bounded(constant_form(s, i), s, i),
{
    lemma_keyword_bounded(s, i, word_const());
    if let Some(j) = keyword(s, i, word_const()) {
        lemma_number_bounded(s, j);
        if let Ok((_, k)) = number(s, j) {
            lemma_symbol_bounded(s, k, ')', Production::CloseParen);
        }
    }
}

/// Reading the body of a primitive expression is bounded.
pub proof fn lemma_primitive_body_bounded(s: Seq<char>, i: int, otherwise: Production)
    requires
        0 <= i <= s.len(),
    ensures
        bounded(primitive_body(s, i, otherwise), s, i),
{
    lemma_named_form_bounded(s, i, word_label(), Production::LabelKeyword);
    lemma_named_form_bounded(s, i, word_reg(), Production::PrimitiveKeyword);
    lemma_constant_form_bounded(s, i);
}

/// Reading a primitive expression is bounded.
pub proof fn lemma_primitive_bounded(s: Seq<char>, i: int)
    requires
        0 <= i <= s.len(),
    ensures
        bounded(primitive(s, i), s, i),
{
    lemma_symbol_bounded(s, i, '(', Production::OpenParen);
    if let Ok(j) = symbol(s, i, '(', Production::OpenParen) {
        lemma_primitive_body_bounded(s, j, Production::PrimitiveKeyword);
    }
}

/// Reading operands does not go back and stays within the text, and it
/// stops only where no parenthesis opens or at a failure, never for want
/// of progress.
pub proof fn lemma_operands_bounded(s: Seq<char>, i: int, before: Seq<PrimitiveExprView>)
    requires
        0 <= i <= s.len(),
    ensures
        match operands(s, i, before) {
            Ok((oprands, rest)) => i <= rest <= s.len() && !(rest < s.len() && s[rest] == '(')
                && oprands.len() >= before.len(),
            Err(f) => i <= f.at <= s.len(),
        },
        operands(s, i, before) == if i < s.len() && s[i] == '(' {
            match primitive(s, i) {
                Err(f) => Err(f),
                Ok((operand, j)) => operands(s, j, before.push(operand)),
            }
        } else {
            Ok((before, i))
        },
    decreases s.len() - i,
{
    if i < s.len() && s[i] == '(' {
        lemma_primitive_bounded(s, i);
        if let Ok((operand, j)) = primitive(s, i) {
            lemma_operands_bounded(s, j, before.push(operand));
        }
    }
}

/// Reading an operation expression is bounded.
pub proof fn lemma_operation_bounded(s: Seq<char>, i: int, otherwise: Production)
    requires
        0 <= i <= s.len(),
    ensures
        bounded(operation(s, i, otherwise), s, i),
{
    lemma_named_form_bounded(s, i, word_op(), otherwise);
    if let Ok((_, j)) = named_form(s, i, word_op(), otherwise) {
        lemma_operands_bounded(s, j, Seq::empty());
    }
}

/// Reading a value expression is bounded.
pub proof fn lemma_value_bounded(s: Seq<char>, i: int)
    requires
        0 <= i <= s.len(),
    ensures
        bounded(value(s, i), s, i),
{
    lemma_symbol_bounded(s, i, '(', Production::OpenParen);
    if let Ok(j) = symbol(s, i, '(', Production::OpenParen) {
        lemma_operation_bounded(s, j, Production::ValueKeyword);
        lemma_primitive_body_bounded(s, j, Production::ValueKeyword);
    }
}

/// Reading an instruction is bounded.
pub proof fn lemma_instruction_bounded(s: Seq<char>, i: int)
    requires
        0 <= i <= s.len(),
    ensures
        bounded(instruction(s, i), s, i),
{
    lemma_symbol_bounded(s, i, '(', Production::OpenParen);
    if let Ok(j) = symbol(s, i, '(', Production::OpenParen) {
        lemma_keyword_bounded(s, j, word_assign());
        lemma_keyword_bounded(s, j, word_test());
        lemma_keyword_bounded(s, j, word_branch());
        if let Some(k) = keyword(s, j, word_assign()) {
            lemma_identifier_bounded(s, k);
            if let Ok((_, m)) = identifier(s, k) {
                lemma_value_bounded(s, m);
                if let Ok((_, n)) = value(s, m) {
                    lemma_symbol_bounded(s, n, ')', Production::CloseParen);
                }
            }
        } else if let Some(k) = keyword(s, j, word_test()) {
            lemma_symbol_bounded(s, k, '(', Production::OpenParen);
            if let Ok(m) = symbol(s, k, '(', Production::OpenParen) {
                lemma_operation_bounded(s, m, Production::OperationKeyword);
                if let Ok((_, n)) = operation(s, m, Production::OperationKeyword) {
                    lemma_symbol_bounded(s, n, ')', Production::CloseParen);
                }
            }
        } else if let Some(k) = keyword(s, j, word_branch()) {
            lemma_symbol_bounded(s, k, '(', Production::OpenParen);
            if let Ok(m) = symbol(s, k, '(', Production::OpenParen) {
                lemma_named_form_bounded(s, m, word_label(), Production::LabelKeyword);
                if let Ok((_, n)) = label_form(s, m) {
                    lemma_symbol_bounded(s, n, ')', Production::CloseParen);
                }
            }
        }
    }
}

/// Every element of a program that is read takes at least one character:
/// reading an element is bounded.
pub proof fn lemma_expression_bounded(s: Seq<char>, i: int)
    requires
        0 <= i <= s.len(),
    ensures
        bounded(expression(s, i), s, i),
{
    lemma_instruction_bounded(s, i);
    lemma_identifier_bounded(s, i);
}

/// A program is read to the end of its text or not at all: reading stops
/// only at the end of the text or at a failure, never for want of progress.
/// So a text that parses holds at least as many characters as elements, and
/// a failure lies within the text.
pub proof fn law_program_is_read_to_the_end(s: Seq<char>, i: int, before: Seq<ExprView>)
    requires
        0 <= i <= s.len(),
    ensures
        match program(s, i, before) {
            Ok(elements) => before.len() <= elements.len() <= before.len() + (s.len() - i)
                && elements.take(before.len() as int) == before,
            Err(f) => i <= f.at <= s.len(),
        },
        program(s, i, before) == if i < s.len() {
            match expression(s, i) {
                Err(f) => Err(f),
                Ok((element, j)) => program(s, j, before.push(element)),
            }
        } else {
            Ok(before)
        },
    decreases s.len() - i,
{
    if i < s.len() {
        lemma_expression_bounded(s, i);
        if let Ok((element, j)) = expression(s, i) {
            law_program_is_read_to_the_end(s, j, before.push(element));
            if let Ok(elements) = program(s, j, before.push(element)) {
                assert(elements.take(before.len() as int) == elements.take(
                    before.len() as int + 1,
                ).take(before.len() as int));
                assert(before.push(element).take(before.len() as int) == before);
            }
        }
    } else {
        assert(before.take(before.len() as int) == before);
    }
}

} // verus!
