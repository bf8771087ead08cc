//! The textual component format: a RON-like grammar.
//!
//! A component's data is stored as human-editable text: a struct as a
//! parenthesized field list `(field:value,...)`, a tuple struct or sequence
//! as a parenthesized value list `(v0,v1,...)`, a unit value as its bare
//! identifier token (`()` for a zero-field unit struct), strings quoted with
//! backslash escapes, and numeric and boolean literals as bare tokens.
//!
//! This module defines the grammar's token predicates, the canonical
//! rendering of a structured value, and the executable serializer that
//! produces it.

use vstd::prelude::*;
use vstd::string::{StringExecFns, StrSliceExecFns};
use crate::value::{StructuredValue, ValueModel, view_of, view_of_list, view_of_fields,
    lemma_view_of_list, lemma_view_of_fields};

verus! {

/// A decimal digit.
pub open spec fn is_digit(c: char) -> bool {
    48 <= c as u32 <= 57
}

/// A character that may start an identifier: a letter or an underscore.
pub open spec fn is_ident_start(c: char) -> bool {
    (65 <= c as u32 <= 90) || (97 <= c as u32 <= 122) || c == '_'
}

/// A character that may continue an identifier.
pub open spec fn is_ident_char(c: char) -> bool {
    is_ident_start(c) || is_digit(c)
}

/// A well-formed identifier token: a field name, or a unit value's name.
pub open spec fn valid_ident(s: Seq<char>) -> bool {
    &&& s.len() > 0
    &&& is_ident_start(s[0])
    &&& forall|i: int| 0 <= i < s.len() ==> is_ident_char(#[trigger] s[i])
}

/// Every character is a decimal digit, and there is at least one.
pub open spec fn all_digits(s: Seq<char>) -> bool {
    s.len() > 0 && forall|i: int| 0 <= i < s.len() ==> is_digit(#[trigger] s[i])
}

/// The unsigned part of a numeric literal: digits, optionally followed by a
/// decimal point and more digits.
pub open spec fn valid_number_body(b: Seq<char>) -> bool {
    ||| all_digits(b)
    ||| exists|k: int|
        1 <= k <= b.len() - 2 && #[trigger] b[k] == '.' && all_digits(b.take(k)) && all_digits(
            b.skip(k + 1),
        )
}

/// A numeric literal token: an optional minus sign, then digits with an
/// optional fractional part.
pub open spec fn valid_number_token(t: Seq<char>) -> bool {
    if t.len() > 0 && t[0] == '-' {
        valid_number_body(t.skip(1))
    } else {
        valid_number_body(t)
    }
}

/// A unit value's token: its identifier, or exactly `()` for a zero-field
/// unit struct. The boolean literals are not unit identifiers.
pub open spec fn valid_unit_token(s: Seq<char>) -> bool {
    ||| (valid_ident(s) && s != "true"@ && s != "false"@)
    ||| s == "()"@
}

/// How one character of a string value is written: quotes and backslashes
/// gain a backslash escape, all else stands as it is.
pub open spec fn escape_char(c: char) -> Seq<char> {
    if c == '"' || c == '\\' {
        seq!['\\', c]
    } else {
        seq![c]
    }
}

/// A string value's characters, escaped for quoting.
pub open spec fn escape_text(s: Seq<char>) -> Seq<char>
    decreases s.len(),
{
    if s.len() == 0 {
        Seq::empty()
    } else {
        escape_char(s[0]) + escape_text(s.skip(1))
    }
}

/// The canonical text of a structured value under the component grammar.
/// This is what the serializer writes and what a faithful parse reads back.
pub open spec fn render_model(v: ValueModel) -> Seq<char>
    decreases v,
{
    match v {
        ValueModel::TextV(s) => seq!['"'] + escape_text(s) + seq!['"'],
        ValueModel::NumberV(t) => t,
        ValueModel::BoolV(b) => if b {
            "true"@
        } else {
            "false"@
        },
        ValueModel::UnitV(t) => t,
        ValueModel::ListV(items) => seq!['('] + render_elems(items) + seq![')'],
        ValueModel::RecordV(fields) => seq!['('] + render_fields(fields) + seq![')'],
    }
}

/// The comma-separated canonical texts of a sequence of values.
pub open spec fn render_elems(items: Seq<ValueModel>) -> Seq<char>
    decreases items,
{
    if items.len() == 0 {
        Seq::empty()
    } else if items.len() == 1 {
        render_model(items[0])
    } else {
        render_elems(items.drop_last()) + seq![','] + render_model(items.last())
    }
}

/// The comma-separated canonical texts of a record's fields, each written
/// `name:value`.
pub open spec fn render_fields(fields: Seq<(Seq<char>, ValueModel)>) -> Seq<char>
    decreases fields,
{
    if fields.len() == 0 {
        Seq::empty()
    } else if fields.len() == 1 {
        fields[0].0 + seq![':'] + render_model(fields[0].1)
    } else {
        render_fields(fields.drop_last()) + seq![','] + fields.last().0 + seq![':'] + render_model(
            fields.last().1,
        )
    }
}

/// A value the serializer can write and the parser can read back unchanged:
/// tokens are well formed, and sequences and records are not empty (an empty
/// pair of parentheses is the zero-field unit token instead).
pub open spec fn canonical(v: ValueModel) -> bool
    decreases v,
{
    match v {
        ValueModel::TextV(_) => true,
        ValueModel::NumberV(t) => valid_number_token(t),
        ValueModel::BoolV(_) => true,
        ValueModel::UnitV(t) => valid_unit_token(t),
        ValueModel::ListV(items) => items.len() > 0 && canonical_elems(items),
        ValueModel::RecordV(fields) => fields.len() > 0 && canonical_fields(fields),
    }
}

/// Every element is canonical.
pub open spec fn canonical_elems(items: Seq<ValueModel>) -> bool
    decreases items,
{
    if items.len() == 0 {
        true
    } else {
        canonical_elems(items.drop_last()) && canonical(items.last())
    }
}

/// Every field name is a well-formed identifier and every field value is
/// canonical.
pub open spec fn canonical_fields(fields: Seq<(Seq<char>, ValueModel)>) -> bool
    decreases fields,
{
    if fields.len() == 0 {
        true
    } else {
        canonical_fields(fields.drop_last()) && valid_ident(fields.last().0) && canonical(
            fields.last().1,
        )
    }
}

/// A value with no unit constituent anywhere. Such a value parses the same
/// under the faithful and the generic parse, since only unit identifiers
/// are erased.
pub open spec fn unit_free(v: ValueModel) -> bool
    decreases v,
{
    match v {
        ValueModel::UnitV(_) => false,
        ValueModel::ListV(items) => unit_free_elems(items),
        ValueModel::RecordV(fields) => unit_free_fields(fields),
        _ => true,
    }
}

/// Every element is free of unit constituents.
pub open spec fn unit_free_elems(items: Seq<ValueModel>) -> bool
    decreases items,
{
    if items.len() == 0 {
        true
    } else {
        unit_free_elems(items.drop_last()) && unit_free(items.last())
    }
}

/// Every field's value is free of unit constituents.
pub open spec fn unit_free_fields(fields: Seq<(Seq<char>, ValueModel)>) -> bool
    decreases fields,
{
    if fields.len() == 0 {
        true
    } else {
        unit_free_fields(fields.drop_last()) && unit_free(fields.last().1)
    }
}

/// Unit-freedom of a sequence of elements, element by element.
pub proof fn lemma_unit_free_elems(items: Seq<ValueModel>)
    ensures
        unit_free_elems(items) <==> (forall|i: int|
            0 <= i < items.len() ==> unit_free(#[trigger] items[i])),
    decreases items,
{
    if items.len() > 0 {
        lemma_unit_free_elems(items.drop_last());
        assert forall|i: int| 0 <= i < items.len() - 1 implies items.drop_last()[i] == items[i]
            by {}
        if forall|i: int| 0 <= i < items.len() ==> unit_free(#[trigger] items[i]) {
            assert(unit_free(items.last()));
        }
    }
}

/// Unit-freedom of a record's fields, field by field.
pub proof fn lemma_unit_free_fields(fields: Seq<(Seq<char>, ValueModel)>)
    ensures
        unit_free_fields(fields) <==> (forall|i: int|
            0 <= i < fields.len() ==> unit_free(#[trigger] fields[i].1)),
    decreases fields,
{
    if fields.len() > 0 {
        lemma_unit_free_fields(fields.drop_last());
        assert forall|i: int|
            0 <= i < fields.len() - 1 implies fields.drop_last()[i] == fields[i] by {}
        if forall|i: int| 0 <= i < fields.len() ==> unit_free(#[trigger] fields[i].1) {
            let j = fields.len() - 1;
            assert(unit_free(fields[j].1));
            assert(fields[j] == fields.last());
        }
    }
}

/// Relies on std's `String::push`: appends the given character to the end of
/// the string.
#[verifier::external_body]
pub(crate) fn push_char(s: &mut String, c: char)
    ensures
        final(s)@ == old(s)@.push(c),
{
    s.push(c);
}

/// The characters of a string, as a vector.
pub fn str_to_chars(s: &str) -> (r: Vec<char>)
    ensures
        r@ == s@,
{
    let n = s.unicode_len();
    let mut out: Vec<char> = Vec::new();
    let mut i: usize = 0;
    while i < n
        invariant
            n == s@.len(),
            0 <= i <= n,
            out@ == s@.take(i as int),
        decreases n - i,
    {
        out.push(s.get_char(i));
        proof {
            assert(s@.take(i + 1 as int) =~= s@.take(i as int).push(s@[i as int]));
        }
        i = i + 1;
    }
    proof {
        assert(s@.take(n as int) =~= s@);
    }
    out
}

/// One text segment of a character vector, as a string.
pub fn chars_to_string(s: &Vec<char>, from: usize, to: usize) -> (r: String)
    requires
        from <= to <= s.len(),
    ensures
        r@ == s@.subrange(from as int, to as int),
{
    let mut out = String::new();
    let mut i: usize = from;
    while i < to
        invariant
            from <= i <= to <= s.len(),
            out@ == s@.subrange(from as int, i as int),
        decreases to - i,
    {
        push_char(&mut out, s[i]);
        proof {
            assert(s@.subrange(from as int, i + 1 as int) =~= s@.subrange(
                from as int,
                i as int,
            ).push(s@[i as int]));
        }
        i = i + 1;
    }
    out
}

/// Escaping distributes over concatenation.
pub proof fn lemma_escape_text_concat(a: Seq<char>, b: Seq<char>)
    ensures
        escape_text(a + b) == escape_text(a) + escape_text(b),
    decreases a.len(),
{
    if a.len() == 0 {
        assert(a + b =~= b);
        assert(escape_text(a) + escape_text(b) =~= escape_text(b));
    } else {
        lemma_escape_text_concat(a.skip(1), b);
        assert((a + b).skip(1) =~= a.skip(1) + b);
        assert(escape_char(a[0]) + (escape_text(a.skip(1)) + escape_text(b)) =~= (escape_char(a[0])
            + escape_text(a.skip(1))) + escape_text(b));
    }
}

/// Escape a string value's characters for quoting.
fn escape_string(s: &String) -> (r: String)
    ensures
        r@ == escape_text(s@),
{
    let n = s.as_str().unicode_len();
    let mut out = String::new();
    let mut i: usize = 0;
    while i < n
        invariant
            n == s@.len(),
            0 <= i <= n,
            out@ == escape_text(s@.take(i as int)),
        decreases n - i,
    {
        let c = s.as_str().get_char(i);
        if c == '"' || c == '\\' {
            push_char(&mut out, '\\');
        }
        push_char(&mut out, c);
        proof {
            lemma_escape_text_concat(s@.take(i as int), seq![s@[i as int]]);
            assert(s@.take(i + 1 as int) =~= s@.take(i as int) + seq![s@[i as int]]);
            assert(seq![c].skip(1) =~= Seq::<char>::empty());
            assert(escape_text(seq![c]) =~= escape_char(c) + escape_text(Seq::empty()));
            assert(escape_char(c) + escape_text(Seq::empty()) =~= escape_char(c));
            if c == '"' || c == '\\' {
                assert(out@ =~= escape_text(s@.take(i as int)) + escape_char(c));
            } else {
                assert(out@ =~= escape_text(s@.take(i as int)) + escape_char(c));
            }
        }
        i = i + 1;
    }
    proof {
        assert(s@.take(n as int) =~= s@);
    }
    out
}

/// One more element extends the comma-separated rendering.
pub proof fn lemma_render_elems_take(items: Seq<ValueModel>, i: int)
    requires
        0 <= i < items.len(),
    ensures
        i == 0 ==> render_elems(items.take(1)) == render_model(items[0]),
        i > 0 ==> render_elems(items.take(i + 1)) == render_elems(items.take(i)) + seq![',']
            + render_model(items[i]),
{
    let t = items.take(i + 1);
    assert(t.drop_last() =~= items.take(i));
    assert(t.last() == items[i]);
    if i == 0 {
        assert(t[0] == items[0]);
    }
}

/// One more field extends the comma-separated rendering.
pub proof fn lemma_render_fields_take(fields: Seq<(Seq<char>, ValueModel)>, i: int)
    requires
        0 <= i < fields.len(),
    ensures
        i == 0 ==> render_fields(fields.take(1)) == fields[0].0 + seq![':'] + render_model(
            fields[0].1,
        ),
        i > 0 ==> render_fields(fields.take(i + 1)) == render_fields(fields.take(i)) + seq![',']
            + fields[i].0 + seq![':'] + render_model(fields[i].1),
{
    let t = fields.take(i + 1);
    assert(t.drop_last() =~= fields.take(i));
    assert(t.last() == fields[i]);
    if i == 0 {
        assert(t[0] == fields[0]);
    }
}

/// Serialize a structured value to its canonical component text.
#[verifier::loop_isolation(false)]
pub fn render_component_text(v: &StructuredValue) -> (r: String)
    ensures
        r@ == render_model(v.deep_view()),
    decreases v,
{
    match v {
        StructuredValue::Text(s) => {
            let mut out = String::from_str("\"");
            let escaped = escape_string(s);
            out.append(escaped.as_str());
            out.append("\"");
            proof {
                reveal_strlit("\"");
                assert(out@ =~= seq!['"'] + escape_text(s@) + seq!['"']);
            }
            out
        },
        StructuredValue::Number(t) => t.clone(),
        StructuredValue::Boolean(b) => {
            if *b {
                String::from_str("true")
            } else {
                String::from_str("false")
            }
        },
        StructuredValue::UnitIdent(t) => t.clone(),
        StructuredValue::List(items) => {
            let ghost l = view_of_list(items@);
            proof {
                lemma_view_of_list(items@);
            }
            let mut out = String::from_str("(");
            proof {
                reveal_strlit("(");
                assert(out@ =~= seq!['('] + render_elems(l.take(0)));
            }
            let n = items.len();
            let mut i: usize = 0;
            while i < n
                invariant
                    n == items.len(),
                    0 <= i <= n,
                    l == view_of_list(items@),
                    l.len() == n,
                    forall|j: int| 0 <= j < n ==> l[j] == #[trigger] view_of(items@[j]),
                    out@ == seq!['('] + render_elems(l.take(i as int)),
                decreases n - i,
            {
                if i > 0 {
                    out.append(",");
                    proof {
                        reveal_strlit(",");
                    }
                }
                proof {
                    assert(*v == StructuredValue::List(*items));
                    assert(decreases_to!(StructuredValue::List(*items) => *items));
                    assert(decreases_to!(*items => items@[i as int]));
                }
                let piece = render_component_text(&items[i]);
                out.append(piece.as_str());
                proof {
                    lemma_render_elems_take(l, i as int);
                    if i == 0 {
                        assert(out@ =~= seq!['('] + render_elems(l.take(1)));
                    } else {
                        assert(out@ =~= seq!['('] + render_elems(l.take(i + 1 as int)));
                    }
                }
                i = i + 1;
            }
            out.append(")");
            proof {
                reveal_strlit(")");
                assert(l.take(n as int) =~= l);
                assert(out@ =~= seq!['('] + render_elems(l) + seq![')']);
            }
            out
        },
        StructuredValue::Record(fields) => {
            let ghost l = view_of_fields(fields@);
            proof {
                lemma_view_of_fields(fields@);
            }
            let mut out = String::from_str("(");
            proof {
                reveal_strlit("(");
                assert(out@ =~= seq!['('] + render_fields(l.take(0)));
            }
            let n = fields.len();
            let mut i: usize = 0;
            while i < n
                invariant
                    n == fields.len(),
                    0 <= i <= n,
                    l == view_of_fields(fields@),
                    l.len() == n,
                    forall|j: int|
                        0 <= j < n ==> l[j] == (#[trigger] fields@[j].0@, view_of(fields@[j].1)),
                    out@ == seq!['('] + render_fields(l.take(i as int)),
                decreases n - i,
            {
                if i > 0 {
                    out.append(",");
                    proof {
                        reveal_strlit(",");
                    }
                }
                let pair = &fields[i];
                out.append(pair.0.as_str());
                out.append(":");
                proof {
                    reveal_strlit(":");
                }
                proof {
                    assert(*v == StructuredValue::Record(*fields));
                    assert(decreases_to!(StructuredValue::Record(*fields) => *fields));
                    assert(decreases_to!(*fields => fields@[i as int]));
                    assert(decreases_to!(fields@[i as int] => fields@[i as int].1));
                }
                let piece = render_component_text(&pair.1);
                out.append(piece.as_str());
                proof {
                    lemma_render_fields_take(l, i as int);
                    if i == 0 {
                        assert(out@ =~= seq!['('] + render_fields(l.take(1)));
                    } else {
                        assert(out@ =~= seq!['('] + render_fields(l.take(i + 1 as int)));
                    }
                }
                i = i + 1;
            }
            out.append(")");
            proof {
                reveal_strlit(")");
                assert(l.take(n as int) =~= l);
                assert(out@ =~= seq!['('] + render_fields(l) + seq![')']);
            }
            out
        },
    }
}

/// Canonicality of a sequence of elements, element by element.
pub proof fn lemma_canonical_elems(items: Seq<ValueModel>)
    ensures
        canonical_elems(items) <==> (forall|i: int|
            0 <= i < items.len() ==> canonical(#[trigger] items[i])),
    decreases items,
{
    if items.len() > 0 {
        lemma_canonical_elems(items.drop_last());
        assert forall|i: int| 0 <= i < items.len() - 1 implies items.drop_last()[i] == items[i] by {}
        if forall|i: int| 0 <= i < items.len() ==> canonical(#[trigger] items[i]) {
            assert(canonical(items.last()));
        }
    }
}

/// Canonicality of a record's fields, field by field.
pub proof fn lemma_canonical_fields(fields: Seq<(Seq<char>, ValueModel)>)
    ensures
        canonical_fields(fields) <==> (forall|i: int|
            0 <= i < fields.len() ==> valid_ident(#[trigger] fields[i].0) && canonical(
                fields[i].1,
            )),
    decreases fields,
{
    if fields.len() > 0 {
        lemma_canonical_fields(fields.drop_last());
        assert forall|i: int|
            0 <= i < fields.len() - 1 implies fields.drop_last()[i] == fields[i] by {}
        if forall|i: int|
            0 <= i < fields.len() ==> valid_ident(#[trigger] fields[i].0) && canonical(
                fields[i].1,
            ) {
            let j = fields.len() - 1;
            assert(valid_ident(fields[j].0) && canonical(fields[j].1));
            assert(fields[j] == fields.last());
        }
    }
}

} // verus!
