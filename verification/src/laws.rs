use crate::grammar::{
    ahead, array_at, bool_at, field_at, forms_from, identifier_at, items_from, num_at,
    object_at, str_at, table_at, toplevel_at, Trail,
};
use crate::lexer::{
    has_char, has_text, lemma_run_end, lemma_run_end_is, run_end, skip, CharClass,
};
use crate::progress::lemma_more_items_end_within;
use crate::model::{Gathered, Text, Value};
use vstd::prelude::*;

verus! {

/// Where a text holds a character that is no digit, `.` or `-`, no number starts.
pub proof fn lemma_no_number(s: Text, p: int)
    requires
        0 <= p < s.len(),
        !CharClass::Numeric.holds(s[p]),
    ensures
        num_at(s, p) is Err,
{
    assert(run_end(s, p, CharClass::Numeric) == p);
}

/// Where a text holds `true`, the value there is the boolean true, and it ends where the
/// insignificant text after the word ends.
pub proof fn lemma_true_is_a_value(s: Text, p: int)
    requires
        has_text(s, p, "true"@),
    ensures
        object_at(s, p) == Ok::<(Value, int), Trail>((Value::Bool(true), skip(s, p + 4))),
{
    reveal_strlit("true");
    assert(s[p] == s.subrange(p, p + 4)[0]);
    lemma_no_number(s, p);
}

/// Where a text holds `false`, the value there is the boolean false, and it ends where
/// the insignificant text after the word ends.
pub proof fn lemma_false_is_a_value(s: Text, p: int)
    requires
        has_text(s, p, "false"@),
    ensures
        object_at(s, p) == Ok::<(Value, int), Trail>((Value::Bool(false), skip(s, p + 5))),
{
    reveal_strlit("true");
    reveal_strlit("false");
    assert(s[p] == s.subrange(p, p + 5)[0]);
    lemma_no_number(s, p);
    if has_text(s, p, "true"@) {
        assert(s[p] == s.subrange(p, p + 4)[0]);
    }
}

/// Where a text holds `"`, a body without `"` and `\`, and `"`, the value there is the
/// string of that body, and it ends where the insignificant text after the second `"`
/// ends.
pub proof fn lemma_quoted_is_a_value(s: Text, p: int, body: Text)
    requires
        has_char(s, p, '"'),
        has_text(s, p + 1, body),
        has_char(s, p + 1 + body.len(), '"'),
        forall|i: int| 0 <= i < body.len() ==> body[i] != '"' && body[i] != '\\',
    ensures
        object_at(s, p) == Ok::<(Value, int), Trail>(
            (Value::Str(body), skip(s, p + body.len() + 2)),
        ),
{
    reveal_strlit("true");
    reveal_strlit("false");
    lemma_no_number(s, p);
    if has_text(s, p, "true"@) {
        assert(s[p] == s.subrange(p, p + 4)[0]);
    }
    if has_text(s, p, "false"@) {
        assert(s[p] == s.subrange(p, p + 5)[0]);
    }
    let e = p + 1 + body.len();
    assert forall|i: int| p + 1 <= i < e implies CharClass::Quoted.holds(#[trigger] s[i]) by {
        assert(s[i] == s.subrange(p + 1, e)[i - p - 1]);
    }
    lemma_run_end_is(s, p + 1, CharClass::Quoted, e);
    assert(s.subrange(p + 1, e) == body);
    assert(str_at(s, p) == Ok::<(Value, int), Trail>((Value::Str(body), skip(s, e + 1))));
    assert(bool_at(s, p) is Err);
}

/// No text is both a table and an array: of the two rules, whichever is tried first, the
/// same one matches.
pub proof fn lemma_table_or_array(s: Text, p: int)
    requires
        0 <= p <= s.len(),
    ensures
        !(table_at(s, p) is Ok && array_at(s, p) is Ok),
{
    let p1 = skip(s, p + 1);
    if table_at(s, p) is Ok && array_at(s, p) is Ok {
        reveal_strlit("true");
        reveal_strlit("false");
        assert(has_char(s, p, '{') && ahead(s, p, p1));
        let v = object_at(s, p1)->Ok_0.0;
        let e = object_at(s, p1)->Ok_0.1;
        lemma_more_items_end_within(s, e, seq![v]);
        let after = items_from(s, e, seq![v]).1;
        // An array goes on, after its first value, with `,` or `}`.
        assert(has_char(s, e, ',') || has_char(s, e, '}')) by {
            if !has_char(s, e, ',') {
                assert(after == e);
            }
        }
        match field_at(s, p1) {
            Ok(_) => {
                // A table with a field goes on, after its first identifier, with `=`.
                let e0 = identifier_at(s, p1)->Ok_0.1;
                let q = skip(s, e0);
                assert(has_char(s, q, '='));
                lemma_run_end(s, p1 + 1, CharClass::Word);
                lemma_no_number(s, p1);
                if has_text(s, p1, "true"@) {
                    lemma_word_goes_on(s, p1, "true"@, e0);
                } else if has_text(s, p1, "false"@) {
                    lemma_word_goes_on(s, p1, "false"@, e0);
                } else {
                    assert(str_at(s, p1) is Err);
                    assert(table_at(s, p1) is Err);
                    assert(array_at(s, p1) is Err);
                    lemma_skip_over(s, e0);
                    if has_char(s, e0, '.') {
                        assert(q == e0);
                    } else {
                        assert(e == q);
                    }
                }
            },
            Err(_) => {
                // A table without a field goes on with `,` or `}`, where no value starts.
                assert(has_char(s, p1, ',') || has_char(s, p1, '}'));
                lemma_no_number(s, p1);
                if has_text(s, p1, "true"@) {
                    assert(s[p1] == s.subrange(p1, p1 + 4)[0]);
                }
                if has_text(s, p1, "false"@) {
                    assert(s[p1] == s.subrange(p1, p1 + 5)[0]);
                }
            },
        }
    }
}

/// The insignificant text that starts at a character that is neither blank nor `-` is
/// empty.
pub proof fn lemma_skip_over(s: Text, p: int)
    requires
        0 <= p <= s.len(),
    ensures
        p < s.len() && !CharClass::Space.holds(s[p]) && s[p] != '-' ==> skip(s, p) == p,
{
}

/// Where a text holds a word at the start of a longer identifier, the character after the
/// word belongs to the identifier, and the insignificant text after the word is empty.
proof fn lemma_word_goes_on(s: Text, p: int, word: Text, e0: int)
    requires
        0 <= p,
        has_text(s, p, word),
        word == "true"@ || word == "false"@,
        identifier_at(s, p) is Ok,
        e0 == run_end(s, p + 1, CharClass::Word),
        p < e0 <= s.len(),
        forall|i: int| p + 1 <= i < e0 ==> CharClass::Word.holds(#[trigger] s[i]),
    ensures
        p + word.len() < e0,
        skip(s, p + word.len()) == p + word.len(),
        CharClass::Word.holds(s[p + word.len()]),
{
    reveal_strlit("true");
    reveal_strlit("false");
    let n = word.len() as int;
    assert forall|i: int| 0 <= i < n implies CharClass::Word.holds(#[trigger] word[i]) by {}
    assert forall|i: int| p <= i < p + n implies CharClass::Word.holds(#[trigger] s[i]) by {
        assert(s[i] == s.subrange(p, p + n)[i - p]);
    }
    // The identifier is longer than the word, or it would be the word, which is reserved.
    if e0 <= p + n {
        lemma_run_end(s, p + 1, CharClass::Word);
        if e0 < p + n {
            assert(CharClass::Word.holds(s[e0]));
        }
        assert(e0 == p + n);
        assert(s.subrange(p, e0) == word);
    }
    lemma_skip_over(s, p + n);
}

/// The order in which two fields of different keys are written plays no part in the
/// value of their table.
pub proof fn lemma_field_order_is_immaterial(
    m: Map<Text, Value>,
    k1: Text,
    v1: Value,
    k2: Text,
    v2: Value,
)
    requires
        k1 != k2,
    ensures
        Value::Table(m.insert(k1, v1).insert(k2, v2)) == Value::Table(
            m.insert(k2, v2).insert(k1, v1),
        ),
{
    assert(m.insert(k1, v1).insert(k2, v2) =~= m.insert(k2, v2).insert(k1, v1));
}

/// A pass never forgets a registration: what was gathered before is the start of what is
/// gathered after.
pub proof fn lemma_pass_keeps_registrations(s: Text, p: int, g: Gathered)
    ensures
        g.data_extends.is_prefix_of(forms_from(s, p, g).0.data_extends),
    decreases s.len() - p,
{
    match toplevel_at(s, p) {
        Ok((form, e)) => {
            if ahead(s, p, e) {
                let next = g.with_form(form);
                assert(g.data_extends.is_prefix_of(next.data_extends));
                if e != s.len() {
                    lemma_pass_keeps_registrations(s, e, next);
                }
            }
        },
        Err(_) => {},
    }
}

/// A pass that fails at its first form gathers nothing: what was in hand stays as it
/// was.
pub proof fn lemma_failed_form_changes_nothing(s: Text, p: int, g: Gathered)
    requires
        toplevel_at(s, p) is Err,
    ensures
        forms_from(s, p, g).0 == g,
        forms_from(s, p, g).1 == Some(toplevel_at(s, p)->Err_0),
{
}

} // verus!
