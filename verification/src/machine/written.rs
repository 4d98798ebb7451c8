//! How a program is written out as a text, and the proof that the parser
//! reads such a text back as the program that was written.

use super::grammar::{
    identifier, keyword, named_form, number, symbol, word_assign, word_branch, word_const,
    word_label, word_op, word_reg, word_test, Production, Reading,
};
use super::parser::{
    ExprView, InstructionView, OpreationExprView, PrimitiveExprView, ValueExprView,
};
use super::scan::{
    decimal, decimal_digits, digit, digits_end, has_word, ident_char, ident_end,
    law_digits_stand_for_their_number, run_end, spaces_end, whitespace,
};
use vstd::prelude::*;

verus! {

/// What the parser relies on in the classes of a few characters: a blank
/// and a line feed are whitespace; parentheses, digits, lower-case letters
/// and identifier characters are not; and neither parentheses, nor a
/// blank, nor a line feed are identifier characters.
pub open spec fn usual_classes() -> bool {
    &&& whitespace(' ')
    &&& whitespace('\n')
    &&& !whitespace('(')
    &&& !whitespace(')')
    &&& !ident_char('(')
    &&& !ident_char(')')
    &&& !ident_char(' ')
    &&& !ident_char('\n')
    &&& forall|c: char| ident_char(c) ==> !whitespace(c)
    &&& forall|c: char| digit(c) ==> !whitespace(c)
    &&& forall|c: char| 'a' <= c && c <= 'z' ==> !whitespace(c)
}

/// A name that can be written as an identifier: it is not empty, and holds
/// identifier characters only.
pub open spec fn writable_name(name: Seq<char>) -> bool {
    name.len() > 0 && forall|k: int| 0 <= k < name.len() ==> ident_char(#[trigger] name[k])
}

pub open spec fn blank() -> Seq<char> {
    seq![' ']
}

pub open spec fn opening() -> Seq<char> {
    seq!['(']
}

pub open spec fn closing() -> Seq<char> {
    seq![')']
}

pub open spec fn line_end() -> Seq<char> {
    seq!['\n']
}

/// A word, a blank, a name and a closing parenthesis.
pub open spec fn written_named(word: Seq<char>, name: Seq<char>) -> Seq<char> {
    word + blank() + name + closing()
}

/// The whitespace that starts at `i` ends at `j`: whitespace only lies
/// between them, and none stands at `j`.
pub proof fn lemma_spaces_exact(s: Seq<char>, i: int, j: int)
    requires
        0 <= i <= j <= s.len(),
        forall|k: int| i <= k < j ==> whitespace(#[trigger] s[k]),
        j < s.len() ==> !whitespace(s[j]),
    ensures
        spaces_end(s, i) == j,
    decreases j - i,
{
    if i < j {
        lemma_spaces_exact(s, i + 1, j);
    }
}

/// The identifier characters that start at `i` end at `j`.
pub proof fn lemma_ident_exact(s: Seq<char>, i: int, j: int)
    requires
        0 <= i <= j <= s.len(),
        forall|k: int| i <= k < j ==> ident_char(#[trigger] s[k]),
        j < s.len() ==> !ident_char(s[j]),
    ensures
        ident_end(s, i) == j,
    decreases j - i,
{
    if i < j {
        lemma_ident_exact(s, i + 1, j);
    }
}

/// The digits that start at `i` end at `j`.
pub proof fn lemma_digits_exact(s: Seq<char>, i: int, j: int)
    requires
        0 <= i <= j <= s.len(),
        forall|k: int| i <= k < j ==> digit(#[trigger] s[k]),
        j < s.len() ==> !digit(s[j]),
    ensures
        digits_end(s, i) == j,
    decreases j - i,
{
    if i < j {
        lemma_digits_exact(s, i + 1, j);
    }
}

/// Where a text made of two parts stands, its parts stand one behind the
/// other.
pub proof fn lemma_parts(s: Seq<char>, i: int, first: Seq<char>, second: Seq<char>)
    requires
        has_word(s, i, first + second),
    ensures
        has_word(s, i, first),
        has_word(s, i + first.len(), second),
{
    let whole = first + second;
    assert(s.subrange(i, i + first.len()) =~= first) by {
        assert forall|k: int| 0 <= k < first.len() implies s.subrange(i, i + first.len())[k]
            == first[k] by {
            assert(s.subrange(i, i + whole.len())[k] == whole[k]);
        }
    }
    assert(s.subrange(i + first.len(), i + first.len() + second.len()) =~= second) by {
        assert forall|k: int| 0 <= k < second.len() implies s.subrange(
            i + first.len(),
            i + first.len() + second.len(),
        )[k] == second[k] by {
            assert(s.subrange(i, i + whole.len())[first.len() + k] == whole[first.len() + k]);
        }
    }
}

/// Where a text stands, its characters stand.
pub proof fn lemma_chars(s: Seq<char>, i: int, text: Seq<char>)
    requires
        has_word(s, i, text),
    ensures
        forall|k: int| 0 <= k < text.len() ==> #[trigger] s[i + k] == text[k],
{
    assert forall|k: int| 0 <= k < text.len() implies #[trigger] s[i + k] == text[k] by {
        assert(s.subrange(i, i + text.len())[k] == text[k]);
    }
}

/// A written name is read back, up to the whitespace behind it, where a
/// character that is neither whitespace nor of an identifier follows.
pub proof fn lemma_identifier_reads(s: Seq<char>, i: int, name: Seq<char>)
    requires
        usual_classes(),
        writable_name(name),
        has_word(s, i, name),
        i + name.len() < s.len(),
        !ident_char(s[i + name.len()]),
    ensures
        identifier(s, i) == Ok::<(Seq<char>, int), super::grammar::Failure>(
            (name, spaces_end(s, i + name.len())),
        ),
{
    lemma_chars(s, i, name);
    assert forall|k: int| i <= k < i + name.len() implies ident_char(#[trigger] s[k]) by {
        assert(s[i + (k - i)] == name[k - i]);
    }
    lemma_ident_exact(s, i, i + name.len());
}

/// A written word, name and closing parenthesis are read back.
pub proof fn lemma_named_form_reads(
    s: Seq<char>,
    i: int,
    word: Seq<char>,
    expected: Production,
    name: Seq<char>,
)
    requires
        usual_classes(),
        writable_name(name),
        has_word(s, i, written_named(word, name)),
    ensures
        named_form(s, i, word, expected) == Ok::<(Seq<char>, int), super::grammar::Failure>(
            (name, spaces_end(s, i + written_named(word, name).len())),
        ),
{
    let text = written_named(word, name);
    lemma_parts(s, i, word + blank() + name, closing());
    lemma_parts(s, i, word + blank(), name);
    lemma_parts(s, i, word, blank());
    let after_word = i + word.len();
    let at_name = after_word + 1;
    let after_name = at_name + name.len();
    lemma_chars(s, after_word, blank());
    lemma_chars(s, at_name, name);
    lemma_chars(s, after_name, closing());
    assert(s[after_word + 0] == ' ');
    assert(s[at_name + 0] == name[0]);
    assert(s[after_name + 0] == ')');
    lemma_spaces_exact(s, after_word, at_name);
    lemma_identifier_reads(s, at_name, name);
    lemma_spaces_exact(s, after_name, after_name);
}

/// The letters of the keywords.
pub proof fn lemma_keywords()
    ensures
        word_assign() == seq!['a', 's', 's', 'i', 'g', 'n'],
        word_test() == seq!['t', 'e', 's', 't'],
        word_branch() == seq!['b', 'r', 'a', 'n', 'c', 'h'],
        word_op() == seq!['o', 'p'],
        word_reg() == seq!['r', 'e', 'g'],
        word_const() == seq!['c', 'o', 'n', 's', 't'],
        word_label() == seq!['l', 'a', 'b', 'e', 'l'],
{
    reveal_strlit("assign");
    reveal_strlit("test");
    reveal_strlit("branch");
    reveal_strlit("op");
    reveal_strlit("reg");
    reveal_strlit("const");
    reveal_strlit("label");
    assert(word_assign() =~= seq!['a', 's', 's', 'i', 'g', 'n']);
    assert(word_test() =~= seq!['t', 'e', 's', 't']);
    assert(word_branch() =~= seq!['b', 'r', 'a', 'n', 'c', 'h']);
    assert(word_op() =~= seq!['o', 'p']);
    assert(word_reg() =~= seq!['r', 'e', 'g']);
    assert(word_const() =~= seq!['c', 'o', 'n', 's', 't']);
    assert(word_label() =~= seq!['l', 'a', 'b', 'e', 'l']);
}

/// A word does not stand where another character than its first stands.
pub proof fn lemma_other_word(s: Seq<char>, i: int, word: Seq<char>)
    requires
        0 <= i < s.len(),
        word.len() > 0,
        s[i] != word[0],
    ensures
        keyword(s, i, word) is None,
{
    if has_word(s, i, word) {
        lemma_chars(s, i, word);
        assert(s[i + 0] == word[0]);
    }
}

/// The body of a primitive expression, written out: what follows its
/// opening parenthesis.
pub open spec fn written_primitive_body(p: PrimitiveExprView) -> Seq<char> {
    match p {
        PrimitiveExprView::Constant(value) => word_const() + blank() + decimal_digits(
            value as nat,
        ) + closing(),
        PrimitiveExprView::Label(name) => written_named(word_label(), name),
        PrimitiveExprView::Register(name) => written_named(word_reg(), name),
    }
}

/// A primitive expression, written out.
pub open spec fn written_primitive(p: PrimitiveExprView) -> Seq<char> {
    opening() + written_primitive_body(p)
}

/// Whether a primitive expression can be written: the name that it holds,
/// if any, can.
pub open spec fn writable_primitive(p: PrimitiveExprView) -> bool {
    match p {
        PrimitiveExprView::Constant(_) => true,
        PrimitiveExprView::Label(name) => writable_name(name),
        PrimitiveExprView::Register(name) => writable_name(name),
    }
}

/// A written number is read back where a closing parenthesis follows.
pub proof fn lemma_number_reads(s: Seq<char>, i: int, value: u32)
    requires
        usual_classes(),
        has_word(s, i, decimal_digits(value as nat) + closing()),
    ensures
        number(s, i) == Ok::<(u32, int), super::grammar::Failure>(
            (value, i + decimal_digits(value as nat).len()),
        ),
{
    let digits = decimal_digits(value as nat);
    law_digits_stand_for_their_number(value as nat);
    lemma_parts(s, i, digits, closing());
    lemma_chars(s, i, digits);
    lemma_chars(s, i + digits.len(), closing());
    assert(s[i + digits.len() + 0] == ')');
    assert forall|k: int| i <= k < i + digits.len() implies digit(#[trigger] s[k]) by {
        assert(s[i + (k - i)] == digits[k - i]);
    }
    lemma_digits_exact(s, i, i + digits.len());
    lemma_spaces_exact(s, i + digits.len(), i + digits.len());
}

/// The written body of a primitive expression is read back.
pub proof fn lemma_primitive_body_reads(
    s: Seq<char>,
    i: int,
    p: PrimitiveExprView,
    otherwise: Production,
)
    requires
        usual_classes(),
        writable_primitive(p),
        has_word(s, i, written_primitive_body(p)),
    ensures
        super::grammar::primitive_body(s, i, otherwise) == Ok::<
            (PrimitiveExprView, int),
            super::grammar::Failure,
        >((p, spaces_end(s, i + written_primitive_body(p).len()))),
{
    lemma_keywords();
    let text = written_primitive_body(p);
    lemma_chars(s, i, text);
    assert(s[i + 0] == text[0]);
    match p {
        PrimitiveExprView::Constant(value) => {
            let digits = decimal_digits(value as nat);
            lemma_other_word(s, i, word_label());
            lemma_other_word(s, i, word_reg());
            lemma_parts(s, i, word_const() + blank() + digits, closing());
            lemma_parts(s, i, word_const() + blank(), digits);
            lemma_parts(s, i, word_const(), blank());
            let after_word = i + word_const().len();
            let at_number = after_word + 1;
            let after_number = at_number + digits.len();
            law_digits_stand_for_their_number(value as nat);
            lemma_chars(s, after_word, blank());
            lemma_chars(s, at_number, digits);
            lemma_chars(s, after_number, closing());
            assert(s[after_word + 0] == ' ');
            assert(s[at_number + 0] == digits[0]);
            assert(digit(digits[0]));
            assert(s[after_number + 0] == ')');
            lemma_spaces_exact(s, after_word, at_number);
            assert(has_word(s, at_number, digits + closing())) by {
                assert(s.subrange(at_number, at_number + (digits + closing()).len()) =~= digits
                    + closing()) by {
                    assert forall|k: int| 0 <= k < digits.len() + 1 implies s.subrange(
                        at_number,
                        at_number + digits.len() + 1,
                    )[k] == (digits + closing())[k] by {
                        if k < digits.len() {
                            assert(s[at_number + k] == digits[k]);
                        }
                    }
                }
            }
            lemma_number_reads(s, at_number, value);
        },
        PrimitiveExprView::Label(name) => {
            lemma_named_form_reads(s, i, word_label(), Production::LabelKeyword, name);
        },
        PrimitiveExprView::Register(name) => {
            lemma_other_word(s, i, word_label());
            lemma_named_form_reads(s, i, word_reg(), Production::PrimitiveKeyword, name);
        },
    }
}

/// A written primitive expression is read back.
pub proof fn lemma_primitive_reads(s: Seq<char>, i: int, p: PrimitiveExprView)
    requires
        usual_classes(),
        writable_primitive(p),
        has_word(s, i, written_primitive(p)),
    ensures
        super::grammar::primitive(s, i) == Ok::<(PrimitiveExprView, int), super::grammar::Failure>(
            (p, spaces_end(s, i + written_primitive(p).len())),
        ),
{
    lemma_keywords();
    let body = written_primitive_body(p);
    lemma_parts(s, i, opening(), body);
    lemma_chars(s, i, opening());
    lemma_chars(s, i + 1, body);
    assert(s[i + 0] == '(');
    assert(s[i + 1 + 0] == body[0]);
    lemma_spaces_exact(s, i + 1, i + 1);
    lemma_primitive_body_reads(s, i + 1, p, Production::PrimitiveKeyword);
}

/// The operands of an operation, written out: a blank before each.
pub open spec fn written_oprands(oprands: Seq<PrimitiveExprView>) -> Seq<char>
    decreases oprands.len(),
{
    if oprands.len() == 0 {
        Seq::empty()
    } else {
        blank() + written_primitive(oprands.first()) + written_oprands(oprands.drop_first())
    }
}

/// An operation expression, written out, without its opening parenthesis.
pub open spec fn written_operation(op: OpreationExprView) -> Seq<char> {
    written_named(word_op(), op.name) + written_oprands(op.oprands)
}

/// Whether an operation expression can be written: its name and its
/// operands can, and its arity is the number of its operands.
pub open spec fn writable_operation(op: OpreationExprView) -> bool {
    &&& writable_name(op.name)
    &&& op.arity == op.oprands.len()
    &&& forall|k: int| 0 <= k < op.oprands.len() ==> writable_primitive(#[trigger] op.oprands[k])
}

/// Where a text of three parts stands, its last part stands behind the
/// first two.
pub proof fn lemma_last_part(
    s: Seq<char>,
    i: int,
    first: Seq<char>,
    second: Seq<char>,
    third: Seq<char>,
)
    requires
        has_word(s, i, first + second + third),
    ensures
        has_word(s, i, first),
        has_word(s, i + first.len(), second),
        has_word(s, i + first.len() + second.len(), third),
        has_word(s, i + first.len(), second + third),
{
    lemma_parts(s, i, first + second, third);
    lemma_parts(s, i, first, second);
    assert(first + second + third =~= first + (second + third));
    lemma_parts(s, i, first, second + third);
}

/// Written operands are read back where a closing parenthesis follows
/// them.
pub proof fn lemma_oprands_read(
    s: Seq<char>,
    k: int,
    oprands: Seq<PrimitiveExprView>,
    before: Seq<PrimitiveExprView>,
)
    requires
        usual_classes(),
        forall|n: int| 0 <= n < oprands.len() ==> writable_primitive(#[trigger] oprands[n]),
        has_word(s, k, written_oprands(oprands) + closing()),
    ensures
        super::grammar::operands(s, spaces_end(s, k), before) == Ok::<
            (Seq<PrimitiveExprView>, int),
            super::grammar::Failure,
        >((before + oprands, k + written_oprands(oprands).len())),
    decreases oprands.len(),
{
    if oprands.len() == 0 {
        lemma_chars(s, k, closing());
        assert(s[k + 0] == ')');
        lemma_spaces_exact(s, k, k);
        assert(before + oprands =~= before);
    } else {
        let first = written_primitive(oprands.first());
        let rest = written_oprands(oprands.drop_first());
        assert(written_oprands(oprands) + closing() =~= blank() + first + (rest + closing()));
        lemma_last_part(s, k, blank(), first, rest + closing());
        lemma_chars(s, k, blank());
        lemma_chars(s, k + 1, first);
        assert(s[k + 0] == ' ');
        assert(s[k + 1 + 0] == first[0]);
        lemma_spaces_exact(s, k, k + 1);
        assert(writable_primitive(oprands[0]));
        lemma_primitive_reads(s, k + 1, oprands.first());
        let after = k + 1 + first.len();
        super::grammar::lemma_spaces_end_bounded(s, after);
        assert forall|n: int| 0 <= n < oprands.drop_first().len() implies writable_primitive(
            #[trigger] oprands.drop_first()[n],
        ) by {
            assert(writable_primitive(oprands[n + 1]));
        }
        lemma_oprands_read(s, after, oprands.drop_first(), before.push(oprands.first()));
        assert(before.push(oprands.first()) + oprands.drop_first() =~= before + oprands);
    }
}

/// A written operation expression is read back where a closing
/// parenthesis follows it.
pub proof fn lemma_operation_reads(
    s: Seq<char>,
    i: int,
    op: OpreationExprView,
    otherwise: Production,
)
    requires
        usual_classes(),
        writable_operation(op),
        has_word(s, i, written_operation(op) + closing()),
    ensures
        super::grammar::operation(s, i, otherwise) == Ok::<
            (OpreationExprView, int),
            super::grammar::Failure,
        >((op, i + written_operation(op).len())),
{
    let head = written_named(word_op(), op.name);
    let tail = written_oprands(op.oprands);
    lemma_last_part(s, i, head, tail, closing());
    lemma_named_form_reads(s, i, word_op(), otherwise, op.name);
    lemma_oprands_read(s, i + head.len(), op.oprands, Seq::empty());
    assert(Seq::<PrimitiveExprView>::empty() + op.oprands =~= op.oprands);
}

/// A value expression, written out.
pub open spec fn written_value(value: ValueExprView) -> Seq<char> {
    match value {
        ValueExprView::OpreationExpr(op) => opening() + written_operation(op),
        ValueExprView::PrimitiveExpr(p) => written_primitive(p),
    }
}

/// Whether a value expression can be written.
pub open spec fn writable_value(value: ValueExprView) -> bool {
    match value {
        ValueExprView::OpreationExpr(op) => writable_operation(op),
        ValueExprView::PrimitiveExpr(p) => writable_primitive(p),
    }
}

/// A written value expression is read back where a closing parenthesis
/// follows it.
pub proof fn lemma_value_reads(s: Seq<char>, i: int, value: ValueExprView)
    requires
        usual_classes(),
        writable_value(value),
        has_word(s, i, written_value(value) + closing()),
    ensures
        super::grammar::value(s, i) == Ok::<(ValueExprView, int), super::grammar::Failure>(
            (value, i + written_value(value).len()),
        ),
{
    lemma_keywords();
    match value {
        ValueExprView::OpreationExpr(op) => {
            let body = written_operation(op);
            lemma_last_part(s, i, opening(), body, closing());
            lemma_chars(s, i, opening());
            lemma_chars(s, i + 1, body);
            assert(s[i + 0] == '(');
            assert(body[0] == 'o');
            assert(s[i + 1 + 0] == body[0]);
            lemma_spaces_exact(s, i + 1, i + 1);
            assert(written_named(word_op(), op.name) + written_oprands(op.oprands)
                =~= word_op() + (blank() + op.name + closing() + written_oprands(op.oprands)));
            lemma_parts(
                s,
                i + 1,
                word_op(),
                blank() + op.name + closing() + written_oprands(op.oprands),
            );
            lemma_operation_reads(s, i + 1, op, Production::ValueKeyword);
        },
        ValueExprView::PrimitiveExpr(p) => {
            let body = written_primitive_body(p);
            lemma_last_part(s, i, opening(), body, closing());
            lemma_chars(s, i, opening());
            lemma_chars(s, i + 1, body);
            lemma_chars(s, i + 1 + body.len(), closing());
            assert(s[i + 0] == '(');
            assert(s[i + 1 + 0] == body[0]);
            assert(s[i + 1 + body.len() + 0] == ')');
            lemma_spaces_exact(s, i + 1, i + 1);
            lemma_other_word(s, i + 1, word_op());
            lemma_primitive_body_reads(s, i + 1, p, Production::ValueKeyword);
            lemma_spaces_exact(s, i + 1 + body.len(), i + 1 + body.len());
        },
    }
}

/// An `assign`, written out, without its opening parenthesis.
pub open spec fn written_assign(target_reg: Seq<char>, val_expr: ValueExprView) -> Seq<char> {
    word_assign() + blank() + target_reg + blank() + written_value(val_expr) + closing()
}

/// A `test`, written out, without its opening parenthesis.
pub open spec fn written_test(condition: OpreationExprView) -> Seq<char> {
    word_test() + blank() + opening() + written_operation(condition) + closing()
}

/// A `branch`, written out, without its opening parenthesis.
pub open spec fn written_branch(label: Seq<char>) -> Seq<char> {
    word_branch() + blank() + opening() + written_named(word_label(), label) + closing()
}

/// An instruction, written out.
pub open spec fn written_instruction(instruction: InstructionView) -> Seq<char> {
    opening() + match instruction {
        InstructionView::Assign { target_reg, val_expr } => written_assign(target_reg, val_expr),
        InstructionView::Test(condition) => written_test(condition),
        InstructionView::Branch(label) => written_branch(label),
    }
}

/// Whether an instruction can be written.
pub open spec fn writable_instruction(instruction: InstructionView) -> bool {
    match instruction {
        InstructionView::Assign { target_reg, val_expr } => writable_name(target_reg)
            && writable_value(val_expr),
        InstructionView::Test(condition) => writable_operation(condition),
        InstructionView::Branch(label) => writable_name(label),
    }
}

/// Where a text stands that is made of a part, a middle and a rest, the
/// middle stands behind the part and the rest behind the middle.
pub proof fn lemma_middle(
    s: Seq<char>,
    i: int,
    whole: Seq<char>,
    first: Seq<char>,
    middle: Seq<char>,
    rest: Seq<char>,
)
    requires
        has_word(s, i, whole),
        whole =~= first + middle + rest,
    ensures
        has_word(s, i + first.len(), middle),
        has_word(s, i + first.len(), middle + rest),
        has_word(s, i + first.len() + middle.len(), rest),
        whole.len() == first.len() + middle.len() + rest.len(),
{
    lemma_last_part(s, i, first, middle, rest);
}

/// A written `assign` is read back.
pub proof fn lemma_assign_reads(
    s: Seq<char>,
    i: int,
    target_reg: Seq<char>,
    val_expr: ValueExprView,
)
    requires
        usual_classes(),
        writable_name(target_reg),
        writable_value(val_expr),
        has_word(s, i, written_assign(target_reg, val_expr)),
    ensures
        super::grammar::assign_form(s, i) == Ok::<(InstructionView, int), super::grammar::Failure>(
            (
                InstructionView::Assign { target_reg, val_expr },
                spaces_end(s, i + written_assign(target_reg, val_expr).len()),
            ),
        ),
{
    lemma_keywords();
    let text = written_assign(target_reg, val_expr);
    let value = written_value(val_expr);
    lemma_chars(s, i, text);
    lemma_middle(s, i, text, Seq::empty(), word_assign(), blank() + target_reg + blank() + value
        + closing());
    let at_target = i + 7;
    let after_target = at_target + target_reg.len();
    lemma_middle(s, i, text, word_assign() + blank(), target_reg, blank() + value + closing());
    lemma_middle(
        s,
        i,
        text,
        word_assign() + blank() + target_reg + blank(),
        value,
        closing(),
    );
    assert(s[i + 6] == text[6]);
    assert(s[i + 7] == text[7]);
    assert(text[7] == target_reg[0]);
    lemma_spaces_exact(s, i + 6, at_target);
    assert(s[i + (7 + target_reg.len())] == text[7 + target_reg.len() as int]);
    assert(s[i + (8 + target_reg.len())] == text[8 + target_reg.len() as int]);
    assert(text[8 + target_reg.len() as int] == value[0]);
    assert(value[0] == '(');
    lemma_identifier_reads(s, at_target, target_reg);
    lemma_spaces_exact(s, after_target, after_target + 1);
    lemma_value_reads(s, after_target + 1, val_expr);
    let at_close = after_target + 1 + value.len();
    assert(s[i + (8 + target_reg.len() + value.len())] == text[8 + target_reg.len() as int
        + value.len() as int]);
    assert(s[at_close] == ')');
}

/// A written `test` is read back.
pub proof fn lemma_test_reads(s: Seq<char>, i: int, condition: OpreationExprView)
    requires
        usual_classes(),
        writable_operation(condition),
        has_word(s, i, written_test(condition)),
    ensures
        super::grammar::test_form(s, i) == Ok::<(InstructionView, int), super::grammar::Failure>(
            (InstructionView::Test(condition), spaces_end(s, i + written_test(condition).len())),
        ),
{
    lemma_keywords();
    let text = written_test(condition);
    let body = written_operation(condition);
    lemma_chars(s, i, text);
    lemma_middle(s, i, text, Seq::empty(), word_test(), blank() + opening() + body + closing());
    lemma_middle(s, i, text, word_test() + blank() + opening(), body, closing());
    assert(s[i + 4] == text[4]);
    assert(s[i + 5] == text[5]);
    assert(s[i + 6] == text[6]);
    assert(text[6] == body[0]);
    assert(body[0] == 'o');
    lemma_spaces_exact(s, i + 4, i + 5);
    lemma_spaces_exact(s, i + 6, i + 6);
    lemma_operation_reads(s, i + 6, condition, Production::OperationKeyword);
    assert(s[i + (6 + body.len())] == text[6 + body.len() as int]);
    assert(s[i + 6 + body.len()] == ')');
}

/// A written `branch` is read back.
pub proof fn lemma_branch_reads(s: Seq<char>, i: int, label: Seq<char>)
    requires
        usual_classes(),
        writable_name(label),
        has_word(s, i, written_branch(label)),
    ensures
        super::grammar::branch_form(s, i) == Ok::<(InstructionView, int), super::grammar::Failure>(
            (InstructionView::Branch(label), spaces_end(s, i + written_branch(label).len())),
        ),
{
    lemma_keywords();
    let text = written_branch(label);
    let body = written_named(word_label(), label);
    lemma_chars(s, i, text);
    lemma_middle(s, i, text, Seq::empty(), word_branch(), blank() + opening() + body + closing());
    lemma_middle(s, i, text, word_branch() + blank() + opening(), body, closing());
    assert(s[i + 6] == text[6]);
    assert(s[i + 7] == text[7]);
    assert(s[i + 8] == text[8]);
    assert(text[8] == body[0]);
    assert(body[0] == 'l');
    lemma_spaces_exact(s, i + 6, i + 7);
    lemma_spaces_exact(s, i + 8, i + 8);
    lemma_named_form_reads(s, i + 8, word_label(), Production::LabelKeyword, label);
    assert(s[i + (8 + body.len())] == text[8 + body.len() as int]);
    assert(s[i + 8 + body.len()] == ')');
    lemma_spaces_exact(s, i + 8 + body.len(), i + 8 + body.len());
}

/// A written instruction is read back.
pub proof fn lemma_instruction_reads(s: Seq<char>, i: int, instruction: InstructionView)
    requires
        usual_classes(),
        writable_instruction(instruction),
        has_word(s, i, written_instruction(instruction)),
    ensures
        super::grammar::instruction(s, i) == Ok::<(InstructionView, int), super::grammar::Failure>(
            (instruction, spaces_end(s, i + written_instruction(instruction).len())),
        ),
{
    lemma_keywords();
    let text = written_instruction(instruction);
    lemma_chars(s, i, text);
    assert(s[i + 0] == '(');
    assert(s[i + 1] == text[1]);
    match instruction {
        InstructionView::Assign { target_reg, val_expr } => {
            let body = written_assign(target_reg, val_expr);
            assert(text[1] == body[0]);
            assert(body[0] == 'a');
            lemma_spaces_exact(s, i + 1, i + 1);
            lemma_parts(s, i, opening(), body);
            assert(body =~= word_assign() + (blank() + target_reg + blank() + written_value(
                val_expr,
            ) + closing()));
            lemma_parts(
                s,
                i + 1,
                word_assign(),
                blank() + target_reg + blank() + written_value(val_expr) + closing(),
            );
            lemma_assign_reads(s, i + 1, target_reg, val_expr);
        },
        InstructionView::Test(condition) => {
            let body = written_test(condition);
            assert(text[1] == body[0]);
            assert(body[0] == 't');
            lemma_spaces_exact(s, i + 1, i + 1);
            lemma_parts(s, i, opening(), body);
            lemma_other_word(s, i + 1, word_assign());
            assert(body =~= word_test() + (blank() + opening() + written_operation(condition)
                + closing()));
            lemma_parts(
                s,
                i + 1,
                word_test(),
                blank() + opening() + written_operation(condition) + closing(),
            );
            lemma_test_reads(s, i + 1, condition);
        },
        InstructionView::Branch(label) => {
            let body = written_branch(label);
            assert(text[1] == body[0]);
            assert(body[0] == 'b');
            lemma_spaces_exact(s, i + 1, i + 1);
            lemma_parts(s, i, opening(), body);
            lemma_other_word(s, i + 1, word_assign());
            lemma_other_word(s, i + 1, word_test());
            assert(body =~= word_branch() + (blank() + opening() + written_named(
                word_label(),
                label,
            ) + closing()));
            lemma_parts(
                s,
                i + 1,
                word_branch(),
                blank() + opening() + written_named(word_label(), label) + closing(),
            );
            lemma_branch_reads(s, i + 1, label);
        },
    }
}

/// An element of a program, written out.
pub open spec fn written_expr(element: ExprView) -> Seq<char> {
    match element {
        ExprView::Instruction(instruction) => written_instruction(instruction),
        ExprView::Label(name) => name,
    }
}

/// Whether an element of a program can be written.
pub open spec fn writable_expr(element: ExprView) -> bool {
    match element {
        ExprView::Instruction(instruction) => writable_instruction(instruction),
        ExprView::Label(name) => writable_name(name),
    }
}

/// A program, written out: its elements, each on a line of its own.
pub open spec fn written(text: Seq<ExprView>) -> Seq<char>
    decreases text.len(),
{
    if text.len() == 0 {
        Seq::empty()
    } else {
        written_expr(text.first()) + line_end() + written(text.drop_first())
    }
}

/// Whether a program can be written: each of its elements can.
pub open spec fn writable(text: Seq<ExprView>) -> bool {
    forall|k: int| 0 <= k < text.len() ==> writable_expr(#[trigger] text[k])
}

/// A written element begins with a character that is no whitespace.
pub proof fn lemma_written_expr_begins(element: ExprView)
    requires
        usual_classes(),
        writable_expr(element),
    ensures
        written_expr(element).len() > 0,
        !whitespace(written_expr(element)[0]),
{
    match element {
        ExprView::Instruction(instruction) => {
            assert(written_instruction(instruction)[0] == '(');
        },
        ExprView::Label(name) => {
            assert(ident_char(name[0]));
        },
    }
}

/// A written element is read back where a line end follows it.
pub proof fn lemma_expression_reads(s: Seq<char>, i: int, element: ExprView)
    requires
        usual_classes(),
        writable_expr(element),
        has_word(s, i, written_expr(element) + line_end()),
    ensures
        super::grammar::expression(s, i) == Ok::<(ExprView, int), super::grammar::Failure>(
            (element, spaces_end(s, i + written_expr(element).len())),
        ),
{
    let text = written_expr(element);
    lemma_parts(s, i, text, line_end());
    lemma_chars(s, i, text);
    lemma_chars(s, i + text.len(), line_end());
    assert(s[i + text.len() + 0] == '\n');
    match element {
        ExprView::Instruction(instruction) => {
            assert(text[0] == '(');
            assert(s[i + 0] == text[0]);
            lemma_instruction_reads(s, i, instruction);
        },
        ExprView::Label(name) => {
            assert(ident_char(name[0]));
            assert(s[i + 0] == name[0]);
            lemma_identifier_reads(s, i, name);
        },
    }
}

/// The rest of a written program is read back from the place where it
/// stands to the end of the text.
pub proof fn lemma_program_reads(s: Seq<char>, i: int, text: Seq<ExprView>, before: Seq<ExprView>)
    requires
        usual_classes(),
        writable(text),
        has_word(s, i, written(text)),
        i + written(text).len() == s.len(),
    ensures
        super::grammar::program(s, i, before) == Ok::<Seq<ExprView>, super::grammar::Failure>(
            before + text,
        ),
    decreases text.len(),
{
    if text.len() == 0 {
        assert(before + text =~= before);
    } else {
        let first = written_expr(text.first());
        let rest = written(text.drop_first());
        assert(writable_expr(text[0]));
        lemma_written_expr_begins(text.first());
        lemma_last_part(s, i, first, line_end(), rest);
        lemma_parts(s, i, first + line_end(), rest);
        lemma_expression_reads(s, i, text.first());
        let after = i + first.len();
        lemma_chars(s, after, line_end());
        assert(s[after + 0] == '\n');
        assert forall|k: int| 0 <= k < text.drop_first().len() implies writable_expr(
            #[trigger] text.drop_first()[k],
        ) by {
            assert(writable_expr(text[k + 1]));
        }
        if text.drop_first().len() > 0 {
            assert(writable_expr(text.drop_first()[0]));
            lemma_written_expr_begins(text.drop_first().first());
            lemma_chars(s, after + 1, rest);
            assert(s[after + 1 + 0] == rest[0]);
            assert(rest[0] == written_expr(text.drop_first().first())[0]);
        } else {
            assert(rest.len() == 0);
        }
        lemma_spaces_exact(s, after, after + 1);
        lemma_program_reads(s, after + 1, text.drop_first(), before.push(text.first()));
        assert(before.push(text.first()) + text.drop_first() =~= before + text);
    }
}

/// Every program has a text: where the classes of a few characters are the
/// usual ones, a program whose names are identifiers, written out, is
/// parsed as that program.
pub proof fn law_written_program_is_read_back(text: Seq<ExprView>)
    requires
        usual_classes(),
        writable(text),
    ensures
        super::grammar::program_of(written(text)) == Ok::<Seq<ExprView>, super::grammar::Failure>(
            text,
        ),
{
    let s = written(text);
    if text.len() > 0 {
        assert(writable_expr(text[0]));
        lemma_written_expr_begins(text.first());
        assert(s[0] == written_expr(text.first())[0]);
    }
    lemma_spaces_exact(s, 0, 0);
    assert(s.subrange(0, s.len() as int) =~= s);
    lemma_program_reads(s, 0, text, Seq::empty());
    assert(Seq::<ExprView>::empty() + text =~= text);
}

} // verus!
