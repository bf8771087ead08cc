//! Pulling one component's text out of a persisted entity blob.
//!
//! The persisted format historically wrapped all of an entity's components
//! in one braced record keyed by type name, so a component's own text must
//! be recovered from that wrapper. Two strategies run in order: a direct
//! textual extraction of a quoted string value (which preserves structured
//! text written by an earlier serializer), and a generic structured-value
//! parse of the whole blob followed by a per-shape rewrite of the value
//! found under the type's name. A blob that does not open a braced record
//! is already the component's own text and passes through unchanged.

use vstd::prelude::*;
use vstd::string::StringExecFns;
use crate::value::{StructuredValue, ValueModel, view_of, view_of_list, view_of_fields,
    lemma_view_of_list, lemma_view_of_fields};
use crate::format::{push_char, str_to_chars, chars_to_string, render_model};
use crate::parse::{spec_parse_text, parse_structured_text, spec_parse_value, spec_parse_fields,
    scan_string_body};
use crate::roundtrip::{lemma_scan_string_exact, lemma_scan_ident_exact};

verus! {

/// A blank character, as the persisted format's token trimming sees it.
pub open spec fn is_ws(c: char) -> bool {
    c == ' ' || c == '\t' || c == '\n' || c == '\r'
}

/// Whether `c` is a blank character.
fn is_ws_exec(c: char) -> (b: bool)
    ensures
        b == is_ws(c),
{
    c == ' ' || c == '\t' || c == '\n' || c == '\r'
}

/// The least index at or after `i` where `pat` occurs in `s`, if any.
pub open spec fn find_pattern_from(s: Seq<char>, pat: Seq<char>, i: int) -> Option<int>
    decreases s.len() - i,
{
    if i < 0 || pat.len() == 0 || i + pat.len() > s.len() {
        None
    } else if s.subrange(i, i + pat.len()) == pat {
        Some(i)
    } else {
        find_pattern_from(s, pat, i + 1)
    }
}

/// The least index where `pat` occurs in `s`, if any.
pub open spec fn find_pattern(s: Seq<char>, pat: Seq<char>) -> Option<int> {
    find_pattern_from(s, pat, 0)
}

/// The key pattern the persisted wrapper uses for a component: the type
/// name, quoted, followed by a colon.
pub open spec fn key_pattern(name: Seq<char>) -> Seq<char> {
    seq!['"'] + name + seq!['"', ':']
}

/// The index of the first non-blank character at or after `i`.
pub open spec fn skip_ws(s: Seq<char>, i: int) -> int
    decreases s.len() - i,
{
    if i < 0 || i >= s.len() || !is_ws(s[i]) {
        i
    } else {
        skip_ws(s, i + 1)
    }
}

/// The greatest index at or after `from` holding a double quote, if any.
pub open spec fn last_quote_from(s: Seq<char>, from: int) -> Option<int>
    decreases s.len() - from,
{
    if from < 0 || from >= s.len() {
        None
    } else {
        match last_quote_from(s, from + 1) {
            Some(j) => Some(j),
            None => if s[from] == '"' {
                Some(from)
            } else {
                None
            },
        }
    }
}

/// The least index at or after `i` holding `c`, if any.
pub open spec fn find_char_from(s: Seq<char>, c: char, i: int) -> Option<int>
    decreases s.len() - i,
{
    if i < 0 || i >= s.len() {
        None
    } else if s[i] == c {
        Some(i)
    } else {
        find_char_from(s, c, i + 1)
    }
}

/// The text with every backslash-quote pair collapsed to a bare quote.
pub open spec fn unescape_quotes(s: Seq<char>) -> Seq<char>
    decreases s.len(),
{
    if s.len() == 0 {
        Seq::empty()
    } else if s.len() >= 2 && s[0] == '\\' && s[1] == '"' {
        seq!['"'] + unescape_quotes(s.skip(2))
    } else {
        seq![s[0]] + unescape_quotes(s.skip(1))
    }
}

/// The text with blank characters removed from both ends.
pub open spec fn trim_blanks(s: Seq<char>) -> Seq<char> {
    let a = skip_ws(s, 0);
    let b = last_non_ws(s);
    if a <= b {
        s.subrange(a, b + 1)
    } else {
        Seq::empty()
    }
}

/// The greatest index holding a non-blank character, or -1 when all are
/// blank.
pub open spec fn last_non_ws(s: Seq<char>) -> int {
    last_non_ws_from(s, s.len() - 1)
}

/// The greatest index at or below `i` holding a non-blank character, or -1.
pub open spec fn last_non_ws_from(s: Seq<char>, i: int) -> int
    decreases i + 1,
{
    if i < 0 || i >= s.len() {
        -1
    } else if !is_ws(s[i]) {
        i
    } else {
        last_non_ws_from(s, i - 1)
    }
}

/// When every character below `m` is blank, the backward search from
/// `m - 1` finds nothing.
proof fn lemma_last_non_ws_all_ws(s: Seq<char>, m: int)
    requires
        0 <= m <= s.len(),
        forall|k: int| 0 <= k < m ==> is_ws(#[trigger] s[k]),
    ensures
        last_non_ws_from(s, m - 1) == -1,
    decreases m,
{
    if m > 0 {
        lemma_last_non_ws_all_ws(s, m - 1);
    }
}

/// A text with a backslash escape placed before every double quote — the
/// form in which an earlier serializer stored a component's text as a
/// quoted string inside the wrapper record.
pub open spec fn escape_only_quotes(s: Seq<char>) -> Seq<char>
    decreases s.len(),
{
    if s.len() == 0 {
        Seq::empty()
    } else if s[0] == '"' {
        seq!['\\', '"'] + escape_only_quotes(s.skip(1))
    } else {
        seq![s[0]] + escape_only_quotes(s.skip(1))
    }
}

/// Unescaping undoes quote escaping exactly.
pub proof fn lemma_unescape_escape_only_quotes(s: Seq<char>)
    ensures
        unescape_quotes(escape_only_quotes(s)) == s,
    decreases s.len(),
{
    let e = escape_only_quotes(s);
    if s.len() == 0 {
    } else {
        lemma_unescape_escape_only_quotes(s.skip(1));
        let rest = escape_only_quotes(s.skip(1));
        if s[0] == '"' {
            assert(e == seq!['\\', '"'] + rest);
            assert(e[0] == '\\' && e[1] == '"');
            assert(e.skip(2) =~= rest);
            assert(seq!['"'] + s.skip(1) =~= s);
        } else {
            assert(e == seq![s[0]] + rest);
            assert(e[0] == s[0]);
            if s[0] == '\\' && e.len() >= 2 && e[1] == '"' {
                // the next stored character would be an escaped quote, so the
                // original text had a quote there and its escape starts with
                // a backslash, never a bare quote
                assert(rest[0] == '"');
                assert(s.skip(1).len() > 0);
                if s.skip(1)[0] == '"' {
                    assert(rest[0] == '\\');
                } else {
                    assert(rest[0] == s.skip(1)[0]);
                }
            }
            assert(!(e.len() >= 2 && e[0] == '\\' && e[1] == '"'));
            assert(e.skip(1) =~= rest);
            assert(seq![s[0]] + s.skip(1) =~= s);
        }
    }
}

/// The wrapper blob an earlier serializer wrote for one component: the
/// quoted type name, a colon, and the component's text as a quoted string
/// with escaped quotes, inside one braced record.
pub open spec fn quoted_wrapper_blob(name: Seq<char>, content: Seq<char>) -> Seq<char> {
    seq!['{'] + key_pattern(name) + seq!['"'] + escape_only_quotes(content) + seq!['"', '}']
}

/// Direct extraction recovers exactly the stored component text from a
/// quoted wrapper blob.
pub proof fn lemma_direct_extract_quoted(name: Seq<char>, content: Seq<char>)
    ensures
        spec_direct_extract(name, quoted_wrapper_blob(name, content)) == Some(content),
        spec_extract(name, quoted_wrapper_blob(name, content)) == Some(content),
{
    let pat = key_pattern(name);
    let esc = escape_only_quotes(content);
    let blob = quoted_wrapper_blob(name, content);
    let q = 1 + pat.len() as int;
    assert(blob.len() == pat.len() + esc.len() + 4);
    assert(blob[0] == '{');
    // the key pattern stands at index 1 and nowhere earlier
    assert(blob.subrange(1, 1 + pat.len() as int) =~= pat) by {
        assert forall|k: int|
            0 <= k < pat.len() implies blob.subrange(1, 1 + pat.len() as int)[k] == pat[k] by {
            assert(blob.subrange(1, 1 + pat.len() as int)[k] == blob[1 + k]);
            assert(blob[1 + k] == pat[k]);
        }
    }
    assert(pat[0] == '"');
    assert(blob.subrange(0, pat.len() as int)[0] == blob[0]);
    assert(blob.subrange(0, pat.len() as int) != pat) by {
        assert('{' as u32 == 123 && '"' as u32 == 34);
    }
    assert(pat.len() >= 3);
    assert(find_pattern_from(blob, pat, 1) == Some(1int));
    assert(find_pattern_from(blob, pat, 0) == find_pattern_from(blob, pat, 1));
    assert(find_pattern(blob, pat) == Some(1int));
    // no blank stands between the colon and the opening quote
    assert(blob[q] == '"');
    assert(!is_ws('"')) by {
        assert('"' as u32 == 34);
    }
    assert(skip_ws(blob, q) == q);
    // the last quote in the blob closes the stored string
    let r = blob.len() - 2;
    assert(blob[r] == '"');
    assert(blob[blob.len() - 1] == '}');
    assert(last_quote_from(blob, blob.len() as int) is None);
    assert(last_quote_from(blob, blob.len() - 1) is None) by {
        assert(last_quote_from(blob, blob.len() as int) is None);
        assert('}' as u32 == 125 && '"' as u32 == 34);
    }
    lemma_last_quote_split_public(blob, q + 1, r);
    // the stored string between the quotes is the escaped content
    assert(blob.subrange(q + 1, r) =~= esc) by {
        assert forall|k: int| 0 <= k < esc.len() implies blob.subrange(q + 1, r)[k] == esc[k] by {
            assert(blob.subrange(q + 1, r)[k] == blob[q + 1 + k]);
            assert(blob[q + 1 + k] == esc[k]);
        }
    }
    lemma_unescape_escape_only_quotes(content);
}

/// Text free of quotes and backslashes needs no escaping.
pub proof fn lemma_escape_text_plain(s: Seq<char>)
    requires
        forall|k: int| 0 <= k < s.len() ==> (#[trigger] s[k]) != '"' && s[k] != '\\',
    ensures
        crate::format::escape_text(s) == s,
    decreases s.len(),
{
    if s.len() > 0 {
        assert forall|k: int|
            0 <= k < s.skip(1).len() implies (#[trigger] s.skip(1)[k]) != '"' && s.skip(1)[k]
                != '\\' by {
            assert(s.skip(1)[k] == s[k + 1]);
        }
        lemma_escape_text_plain(s.skip(1));
        assert(crate::format::escape_char(s[0]) =~= seq![s[0]]);
        assert(seq![s[0]] + s.skip(1) =~= s);
    }
}

/// The forward character search finds the first occurrence.
pub proof fn lemma_find_char_first(s: Seq<char>, c: char, i: int, j: int)
    requires
        0 <= i <= j < s.len(),
        s[j] == c,
        forall|m: int| i <= m < j ==> (#[trigger] s[m]) != c,
    ensures
        find_char_from(s, c, i) == Some(j),
    decreases j - i,
{
    if i < j {
        lemma_find_char_first(s, c, i + 1, j);
    }
}

/// An identifier token carries no blanks, so trimming leaves it unchanged.
pub proof fn lemma_trim_ident(t: Seq<char>)
    requires
        crate::format::valid_ident(t),
    ensures
        trim_blanks(t) == t,
{
    assert(!is_ws(t[0])) by {
        assert(crate::format::is_ident_start(t[0]) || crate::format::is_ident_char(t[0]));
        assert(' ' as u32 == 32 && '\t' as u32 == 9 && '\n' as u32 == 10 && '\r' as u32 == 13);
    }
    assert(skip_ws(t, 0) == 0);
    let last = t.len() - 1;
    assert(!is_ws(t[last])) by {
        assert(crate::format::is_ident_char(t[last]));
        assert(' ' as u32 == 32 && '\t' as u32 == 9 && '\n' as u32 == 10 && '\r' as u32 == 13);
    }
    assert(last_non_ws_from(t, last) == last);
    assert(t.subrange(0, t.len() as int) =~= t);
}

/// The wrapper blob an earlier serializer wrote for a component whose text
/// stands bare after the key (not as a quoted string): the quoted type
/// name, a colon, the component's text, and the closing brace.
pub open spec fn unit_wrapper_blob(name: Seq<char>, content: Seq<char>) -> Seq<char> {
    seq!['{'] + key_pattern(name) + content + seq!['}']
}

/// Unit normalization leaves a unit-free value untouched.
pub proof fn lemma_normalize_unit_free(v: ValueModel)
    requires
        crate::format::unit_free(v),
    ensures
        normalize_units(v) == v,
    decreases v,
{
    match v {
        ValueModel::ListV(items) => {
            lemma_normalize_unit_free_list(items);
        },
        ValueModel::RecordV(fields) => {
            lemma_normalize_unit_free_fields(fields);
        },
        _ => {},
    }
}

/// Unit normalization leaves unit-free elements untouched.
proof fn lemma_normalize_unit_free_list(items: Seq<ValueModel>)
    requires
        crate::format::unit_free_elems(items),
    ensures
        normalize_units_list(items) == items,
    decreases items,
{
    if items.len() > 0 {
        lemma_normalize_unit_free_list(items.drop_last());
        lemma_normalize_unit_free(items.last());
        assert(normalize_units_list(items) =~= items);
    }
}

/// Unit normalization leaves unit-free field values untouched.
proof fn lemma_normalize_unit_free_fields(fields: Seq<(Seq<char>, ValueModel)>)
    requires
        crate::format::unit_free_fields(fields),
    ensures
        normalize_units_fields(fields) == fields,
    decreases fields,
{
    if fields.len() > 0 {
        lemma_normalize_unit_free_fields(fields.drop_last());
        lemma_normalize_unit_free(fields.last().1);
        assert(normalize_units_fields(fields) =~= fields);
    }
}

/// Structured-value fallback extraction: for a wrapper blob holding a
/// canonical, unit-free, non-string component value in the bare structured
/// form, the generic parse and the per-shape re-rendering recover exactly
/// the component's canonical text. The type name may not itself contain
/// quotes or backslashes.
pub proof fn lemma_extract_structured_wrapper(name: Seq<char>, vm: ValueModel)
    requires
        forall|k: int| 0 <= k < name.len() ==> (#[trigger] name[k]) != '"' && name[k] != '\\',
        crate::format::canonical(vm),
        crate::format::unit_free(vm),
        !(vm is TextV),
    ensures
        spec_extract(name, unit_wrapper_blob(name, render_model(vm))) == Some(render_model(vm)),
{
    let pat = key_pattern(name);
    let content = render_model(vm);
    let blob = unit_wrapper_blob(name, content);
    let tok_start = 1 + pat.len() as int;
    let tok_end = tok_start + content.len() as int;
    assert(blob.len() == tok_end + 1);
    assert(blob[0] == '{');
    assert forall|k: int| 0 <= k < pat.len() implies blob[1 + k] == pat[k] by {}
    assert forall|k: int| 0 <= k < content.len() implies blob[tok_start + k] == content[k] by {}
    assert(blob[tok_end] == '}');
    // the rendering of a canonical non-string, unit-free value opens with a
    // sign, a digit, a parenthesis, or a boolean letter — never a quote and
    // never a blank
    crate::roundtrip::lemma_render_first(vm);
    let c0 = content[0];
    assert(blob[tok_start + 0] == c0);
    assert(c0 != '"' && !is_ws(c0)) by {
        assert('"' as u32 == 34 && '-' as u32 == 45 && '(' as u32 == 40 && ' ' as u32 == 32 && '\t'
            as u32 == 9 && '\n' as u32 == 10 && '\r' as u32 == 13);
        match vm {
            ValueModel::TextV(_) => {
                assert(false);
            },
            ValueModel::UnitV(_) => {
                assert(false);
            },
            ValueModel::NumberV(t) => {
                if t.len() > 0 && t[0] == '-' {
                    assert(c0 == '-');
                } else {
                    if crate::format::all_digits(t) {
                    } else {
                        let k = choose|k: int|
                            1 <= k <= t.len() - 2 && #[trigger] t[k] == '.'
                                && crate::format::all_digits(t.take(k))
                                && crate::format::all_digits(t.skip(k + 1));
                        assert(t.take(k)[0] == t[0]);
                    }
                    assert(crate::format::is_digit(t[0]));
                    assert(c0 == t[0]);
                }
            },
            ValueModel::BoolV(b) => {
                reveal_strlit("true");
                reveal_strlit("false");
                assert('t' as u32 == 116 && 'f' as u32 == 102);
            },
            ValueModel::ListV(items) => {
                assert(c0 == '(');
            },
            ValueModel::RecordV(fields) => {
                assert(c0 == '(');
            },
        }
    }
    // the key pattern stands at index 1 and nowhere earlier
    assert(pat[0] == '"');
    assert(blob.subrange(1, 1 + pat.len() as int) =~= pat);
    assert(blob.subrange(0, pat.len() as int)[0] == blob[0]);
    assert(blob.subrange(0, pat.len() as int) != pat) by {
        assert('{' as u32 == 123 && '"' as u32 == 34);
    }
    assert(pat.len() >= 3);
    assert(find_pattern_from(blob, pat, 1) == Some(1int));
    assert(find_pattern_from(blob, pat, 0) == find_pattern_from(blob, pat, 1));
    assert(find_pattern(blob, pat) == Some(1int));
    // the direct textual extraction finds no quoted string after the key
    assert(skip_ws(blob, tok_start) == tok_start);
    assert(spec_direct_extract(name, blob) is None);
    // the generic parse reads one quoted key and the value itself
    lemma_escape_text_plain(name);
    assert(blob.subrange(2, 2 + name.len() as int) =~= name) by {
        assert forall|k: int|
            0 <= k < name.len() implies blob.subrange(2, 2 + name.len() as int)[k] == name[k] by {
            assert(blob.subrange(2, 2 + name.len() as int)[k] == blob[2 + k]);
            assert(pat[1 + k] == name[k]);
            assert(blob[1 + (1 + k)] == pat[1 + k]);
        }
    }
    assert(blob[2 + name.len() as int] == '"') by {
        assert(pat[1 + name.len() as int] == '"');
        assert(blob[1 + (1 + name.len() as int)] == pat[1 + name.len() as int]);
    }
    lemma_scan_string_exact(blob, 2, name);
    let j = 2 + name.len() as int + 1;
    assert(scan_string_body(blob, 2) == Some((name, j)));
    assert(blob[j] == ':') by {
        assert(pat[2 + name.len() as int] == ':');
        assert(blob[1 + (2 + name.len() as int)] == pat[2 + name.len() as int]);
    }
    // the value parses back to the component's structural value
    assert(blob.subrange(tok_start, tok_end) =~= content);
    assert(crate::parse::is_stop_char(blob[tok_end])) by {
        assert('}' as u32 == 125);
    }
    crate::roundtrip::lemma_parse_render(blob, tok_start, vm, false);
    assert(spec_parse_value(blob, tok_start, false) == Some((vm, tok_end)));
    assert(spec_parse_fields(blob, 1, false, true) == Some((seq![(name, vm)], tok_end + 1)));
    assert(blob[0] != '"' && blob[0] != '-' && !crate::format::is_digit(blob[0]) && blob[0] != '('
        && blob[0] != '[') by {
        assert('{' as u32 == 123 && '"' as u32 == 34 && '-' as u32 == 45 && '(' as u32 == 40 && '['
            as u32 == 91);
    }
    assert(spec_parse_value(blob, 0, false) == Some(
        (ValueModel::RecordV(seq![(name, vm)]), blob.len() as int),
    ));
    assert(spec_parse_text(blob, false) == Some(ValueModel::RecordV(seq![(name, vm)])));
    // the per-shape fallback re-renders the value to its canonical text
    lemma_normalize_unit_free(vm);
    assert(fallback_text(vm) == content);
}

/// Unit-value recovery: extracting a unit component from its wrapper blob
/// yields the original identifier token, even though the generic
/// structured-value parse of the blob reports only an untyped unit with no
/// identifier. The type name may not itself contain quotes or backslashes,
/// and the token must be a well-formed identifier other than a boolean
/// literal.
pub proof fn lemma_extract_unit_wrapper(name: Seq<char>, token: Seq<char>)
    requires
        forall|k: int| 0 <= k < name.len() ==> (#[trigger] name[k]) != '"' && name[k] != '\\',
        crate::format::valid_ident(token),
        token != "true"@,
        token != "false"@,
    ensures
        spec_extract(name, unit_wrapper_blob(name, token)) == Some(token),
{
    let pat = key_pattern(name);
    let blob = unit_wrapper_blob(name, token);
    let tok_start = 1 + pat.len() as int;
    let tok_end = tok_start + token.len() as int;
    assert(blob.len() == tok_end + 1);
    assert(blob[0] == '{');
    assert forall|k: int| 0 <= k < pat.len() implies blob[1 + k] == pat[k] by {}
    assert forall|k: int| 0 <= k < token.len() implies blob[tok_start + k] == token[k] by {}
    assert(blob[tok_end] == '}');
    // character classifications used throughout
    assert(crate::format::is_ident_start(token[0]));
    assert(blob[tok_start + 0] == token[0]);
    assert(token[0] != '"' && token[0] != '\\' && token[0] != '-' && !crate::format::is_digit(
        token[0],
    ) && token[0] != '(' && token[0] != '[' && token[0] != '{' && !is_ws(token[0])) by {
        assert('"' as u32 == 34 && '\\' as u32 == 92 && '-' as u32 == 45 && '(' as u32 == 40 && '['
            as u32 == 91 && '{' as u32 == 123 && ' ' as u32 == 32 && '\t' as u32 == 9 && '\n'
            as u32 == 10 && '\r' as u32 == 13);
    }
    // the key pattern stands at index 1 and nowhere earlier
    assert(pat[0] == '"');
    assert(blob.subrange(1, 1 + pat.len() as int) =~= pat);
    assert(blob.subrange(0, pat.len() as int)[0] == blob[0]);
    assert(blob.subrange(0, pat.len() as int) != pat) by {
        assert('{' as u32 == 123 && '"' as u32 == 34);
    }
    assert(pat.len() >= 3);
    assert(find_pattern_from(blob, pat, 1) == Some(1int));
    assert(find_pattern_from(blob, pat, 0) == find_pattern_from(blob, pat, 1));
    assert(find_pattern(blob, pat) == Some(1int));
    // the direct textual extraction finds no quoted string after the key
    assert(skip_ws(blob, tok_start) == tok_start);
    assert(blob[tok_start] != '"');
    assert(spec_direct_extract(name, blob) is None);
    // the generic parse reads one quoted key and one erased unit value
    lemma_escape_text_plain(name);
    assert(blob.subrange(2, 2 + name.len() as int) =~= name) by {
        assert forall|k: int|
            0 <= k < name.len() implies blob.subrange(2, 2 + name.len() as int)[k] == name[k] by {
            assert(blob.subrange(2, 2 + name.len() as int)[k] == blob[2 + k]);
            assert(pat[1 + k] == name[k]);
            assert(blob[1 + (1 + k)] == pat[1 + k]);
        }
    }
    assert(blob[2 + name.len() as int] == '"') by {
        assert(pat[1 + name.len() as int] == '"');
        assert(blob[1 + (1 + name.len() as int)] == pat[1 + name.len() as int]);
    }
    lemma_scan_string_exact(blob, 2, name);
    let j = 2 + name.len() as int + 1;
    assert(scan_string_body(blob, 2) == Some((name, j)));
    assert(blob[j] == ':') by {
        assert(pat[2 + name.len() as int] == ':');
        assert(blob[1 + (2 + name.len() as int)] == pat[2 + name.len() as int]);
    }
    // the token parses as an erased unit identifier
    assert forall|m: int|
        tok_start <= m < tok_end implies crate::format::is_ident_char(#[trigger] blob[m]) by {
        assert(blob[tok_start + (m - tok_start)] == token[m - tok_start]);
    }
    assert(!crate::format::is_ident_char('}')) by {
        assert('}' as u32 == 125);
    }
    lemma_scan_ident_exact(blob, tok_start, tok_end);
    assert(blob.subrange(tok_start, tok_end) =~= token);
    assert(spec_parse_value(blob, tok_start, false) == Some(
        (ValueModel::UnitV(Seq::<char>::empty()), tok_end),
    ));
    assert(spec_parse_fields(blob, 1, false, true) == Some(
        (seq![(name, ValueModel::UnitV(Seq::<char>::empty()))], tok_end + 1),
    ));
    assert(blob[0] != '"' && blob[0] != '-' && !crate::format::is_digit(blob[0]) && blob[0] != '('
        && blob[0] != '[') by {
        assert('{' as u32 == 123 && '"' as u32 == 34 && '-' as u32 == 45 && '(' as u32 == 40 && '['
            as u32 == 91);
    }
    assert(spec_parse_value(blob, 0, false) == Some(
        (ValueModel::RecordV(seq![(name, ValueModel::UnitV(Seq::<char>::empty()))]), blob.len()
            as int),
    ));
    assert(spec_parse_text(blob, false) == Some(
        ValueModel::RecordV(seq![(name, ValueModel::UnitV(Seq::<char>::empty()))]),
    ));
    // the identifier is recovered from the raw text
    lemma_find_char_first(blob, '}', tok_start, tok_end);
    assert(trim_blanks(blob.subrange(tok_start, tok_end)) == token) by {
        lemma_trim_ident(token);
    }
    assert(spec_recover_unit(name, blob) == Some(token));
}

/// Finding a quote with none beyond it resolves the backward search for
/// every starting point at or before it.
pub proof fn lemma_last_quote_split_public(s: Seq<char>, from: int, k: int)
    requires
        0 <= from <= k < s.len(),
        s[k] == '"',
        last_quote_from(s, k + 1) is None,
    ensures
        last_quote_from(s, from) == Some(k),
    decreases k - from,
{
    if from < k {
        lemma_last_quote_split_public(s, from + 1, k);
    }
}

/// Whether `pat` occurs in `s` starting exactly at `i`.
#[verifier::loop_isolation(false)]
fn matches_at(s: &Vec<char>, pat: &Vec<char>, i: usize) -> (b: bool)
    requires
        i + pat.len() <= s.len(),
    ensures
        b == (s@.subrange(i as int, i + pat@.len()) == pat@),
{
    let m = pat.len();
    let mut k: usize = 0;
    while k < m
        invariant
            0 <= k <= m,
            m == pat@.len(),
            i + m <= s@.len(),
            forall|j: int| 0 <= j < k ==> s@[i + j] == pat@[j],
        decreases m - k,
    {
        if s[i + k] != pat[k] {
            proof {
                assert(s@.subrange(i as int, i + pat@.len())[k as int] == s@[i + k as int]);
            }
            return false;
        }
        k = k + 1;
    }
    proof {
        assert forall|j: int|
            0 <= j < m implies s@.subrange(i as int, i + pat@.len())[j] == pat@[j] by {
            assert(s@.subrange(i as int, i + pat@.len())[j] == s@[i + j]);
        }
        assert(s@.subrange(i as int, i + pat@.len()) =~= pat@);
    }
    true
}

/// The least index where `pat` occurs in `s`, if any.
#[verifier::loop_isolation(false)]
fn find_pattern_exec(s: &Vec<char>, pat: &Vec<char>) -> (r: Option<usize>)
    ensures
        match r {
            Some(p) => find_pattern(s@, pat@) == Some(p as int) && p + pat@.len() <= s@.len(),
            None => find_pattern(s@, pat@) is None,
        },
{
    if pat.len() > s.len() || pat.len() == 0 {
        return None;
    }
    let limit = s.len() - pat.len();
    let mut i: usize = 0;
    while i <= limit
        invariant
            0 <= i <= limit + 1,
            limit == s@.len() - pat@.len(),
            pat@.len() <= s@.len(),
            find_pattern(s@, pat@) == find_pattern_from(s@, pat@, i as int),
        decreases limit + 1 - i,
    {
        if matches_at(s, pat, i) {
            return Some(i);
        }
        i = i + 1;
    }
    None
}

/// The index of the first non-blank character at or after `i`.
#[verifier::loop_isolation(false)]
fn skip_ws_exec(s: &Vec<char>, i: usize) -> (r: usize)
    requires
        i <= s.len(),
    ensures
        r == skip_ws(s@, i as int),
        i <= r <= s.len(),
{
    let mut j = i;
    while j < s.len() && is_ws_exec(s[j])
        invariant
            i <= j <= s@.len(),
            skip_ws(s@, i as int) == skip_ws(s@, j as int),
        decreases s@.len() - j,
    {
        j = j + 1;
    }
    j
}

/// The greatest index at or after `from` holding a double quote, if any.
#[verifier::loop_isolation(false)]
fn last_quote_exec(s: &Vec<char>, from: usize) -> (r: Option<usize>)
    requires
        from <= s.len(),
    ensures
        match r {
            Some(j) => last_quote_from(s@, from as int) == Some(j as int) && from <= j < s.len(),
            None => last_quote_from(s@, from as int) is None,
        },
{
    let mut j = s.len();
    while j > from
        invariant
            from <= j <= s@.len(),
            last_quote_from(s@, j as int) is None,
        decreases j,
    {
        let k = j - 1;
        if s[k] == '"' {
            proof {
                lemma_last_quote_split_public(s@, from as int, k as int);
            }
            return Some(k);
        }
        proof {
            lemma_last_quote_step(s@, k as int);
        }
        j = k;
    }
    None
}

/// Stepping the backward quote search past a non-quote character.
proof fn lemma_last_quote_step(s: Seq<char>, k: int)
    requires
        0 <= k < s.len(),
        s[k] != '"',
        last_quote_from(s, k + 1) is None,
    ensures
        last_quote_from(s, k) is None,
{
}

/// The least index at or after `i` holding `c`, if any.
#[verifier::loop_isolation(false)]
fn find_char_exec(s: &Vec<char>, c: char, i: usize) -> (r: Option<usize>)
    requires
        i <= s.len(),
    ensures
        match r {
            Some(j) => find_char_from(s@, c, i as int) == Some(j as int) && i <= j < s.len(),
            None => find_char_from(s@, c, i as int) is None,
        },
{
    let mut j = i;
    while j < s.len()
        invariant
            i <= j <= s@.len(),
            find_char_from(s@, c, i as int) == find_char_from(s@, c, j as int),
        decreases s@.len() - j,
    {
        if s[j] == c {
            return Some(j);
        }
        j = j + 1;
    }
    None
}

/// Collapse every backslash-quote pair in `s[from..to]` to a bare quote.
#[verifier::loop_isolation(false)]
fn unescape_quotes_exec(s: &Vec<char>, from: usize, to: usize) -> (r: String)
    requires
        from <= to <= s.len(),
    ensures
        r@ == unescape_quotes(s@.subrange(from as int, to as int)),
{
    let mut acc = String::new();
    let mut j = from;
    while j < to
        invariant
            from <= j <= to <= s@.len(),
            unescape_quotes(s@.subrange(from as int, to as int)) == acc@ + unescape_quotes(
                s@.subrange(j as int, to as int),
            ),
        decreases to - j,
    {
        let ghost pre = s@.subrange(j as int, to as int);
        let ghost acc0 = acc@;
        if j + 1 < to && s[j] == '\\' && s[j + 1] == '"' {
            push_char(&mut acc, '"');
            proof {
                assert(pre.len() >= 2 && pre[0] == '\\' && pre[1] == '"');
                assert(pre.skip(2) =~= s@.subrange(j + 2 as int, to as int));
                assert(acc@ + unescape_quotes(s@.subrange(j + 2 as int, to as int)) =~= acc0 + (
                seq!['"'] + unescape_quotes(pre.skip(2))));
            }
            j = j + 2;
        } else {
            let c = s[j];
            push_char(&mut acc, c);
            proof {
                assert(pre.len() > 0 && pre[0] == c);
                assert(!(pre.len() >= 2 && pre[0] == '\\' && pre[1] == '"'));
                assert(pre.skip(1) =~= s@.subrange(j + 1 as int, to as int));
                assert(acc@ + unescape_quotes(s@.subrange(j + 1 as int, to as int)) =~= acc0 + (
                seq![c] + unescape_quotes(pre.skip(1))));
            }
            j = j + 1;
        }
    }
    proof {
        assert(s@.subrange(to as int, to as int).len() == 0);
        assert(acc@ + unescape_quotes(s@.subrange(to as int, to as int)) =~= acc@);
    }
    acc
}

/// The text of `s[from..to]` with blank characters removed from both ends.
#[verifier::loop_isolation(false)]
fn trim_blanks_exec(s: &Vec<char>, from: usize, to: usize) -> (r: String)
    requires
        from <= to <= s.len(),
    ensures
        r@ == trim_blanks(s@.subrange(from as int, to as int)),
{
    let ghost seg = s@.subrange(from as int, to as int);
    let mut a = from;
    while a < to && is_ws_exec(s[a])
        invariant
            from <= a <= to,
            skip_ws(seg, 0) == skip_ws(seg, a - from),
            forall|k: int| 0 <= k < a - from ==> is_ws(#[trigger] seg[k]),
        decreases to - a,
    {
        proof {
            assert(seg[a - from] == s@[a as int]);
        }
        a = a + 1;
    }
    let mut b = to;
    while b > a && is_ws_exec(s[b - 1])
        invariant
            a <= b <= to,
            last_non_ws_from(seg, (to - from) - 1) == last_non_ws_from(seg, (b - from) - 1),
        decreases b,
    {
        proof {
            assert(seg[(b - from) - 1] == s@[b - 1 as int]);
        }
        b = b - 1;
    }
    proof {
        if a < to {
            assert(seg[a - from] == s@[a as int]);
            assert(skip_ws(seg, a - from) == a - from);
        } else {
            assert(skip_ws(seg, a - from) == a - from);
        }
        if b > a {
            assert(seg[(b - from) - 1] == s@[b - 1 as int]);
            assert(last_non_ws_from(seg, (b - from) - 1) == (b - from) - 1);
            assert(trim_blanks(seg) == seg.subrange(a - from, b - from));
            assert(seg.subrange(a - from, b - from) =~= s@.subrange(a as int, b as int));
        } else {
            assert(b == a);
            lemma_last_non_ws_all_ws(seg, a - from);
            assert(trim_blanks(seg).len() == 0);
        }
    }
    chars_to_string(s, a, b)
}

/// A value with every erased unit identifier replaced by the zero-field
/// unit token `()` — the generic parse cannot know which identifier a unit
/// value had, so its re-rendering defaults to the anonymous unit.
pub open spec fn normalize_units(v: ValueModel) -> ValueModel
    decreases v,
{
    match v {
        ValueModel::UnitV(_) => ValueModel::UnitV("()"@),
        ValueModel::ListV(items) => ValueModel::ListV(normalize_units_list(items)),
        ValueModel::RecordV(fields) => ValueModel::RecordV(normalize_units_fields(fields)),
        _ => v,
    }
}

/// Unit normalization of each element.
pub open spec fn normalize_units_list(items: Seq<ValueModel>) -> Seq<ValueModel>
    decreases items,
{
    if items.len() == 0 {
        Seq::empty()
    } else {
        normalize_units_list(items.drop_last()).push(normalize_units(items.last()))
    }
}

/// Unit normalization of each field's value.
pub open spec fn normalize_units_fields(fields: Seq<(Seq<char>, ValueModel)>) -> Seq<
    (Seq<char>, ValueModel),
>
    decreases fields,
{
    if fields.len() == 0 {
        Seq::empty()
    } else {
        normalize_units_fields(fields.drop_last()).push(
            (fields.last().0, normalize_units(fields.last().1)),
        )
    }
}

/// The text the structured-value fallback writes for a generically parsed
/// value: the canonical component rendering of the value with erased unit
/// identifiers defaulted. In one pass this performs the documented repair
/// rewrites — numeric values come out as bare literal tokens with no
/// generic-serializer wrapper, and bracketed sequences come out as
/// parenthesized tuples — recursively, for nested values too.
pub open spec fn fallback_text(v: ValueModel) -> Seq<char> {
    render_model(normalize_units(v))
}

/// Normalization by element, element by element.
pub proof fn lemma_normalize_units_list(items: Seq<ValueModel>)
    ensures
        normalize_units_list(items).len() == items.len(),
        forall|i: int|
            0 <= i < items.len() ==> normalize_units_list(items)[i] == normalize_units(
                #[trigger] items[i],
            ),
    decreases items,
{
    if items.len() > 0 {
        lemma_normalize_units_list(items.drop_last());
        assert forall|i: int|
            0 <= i < items.len() implies normalize_units_list(items)[i] == normalize_units(
            #[trigger] items[i],
        ) by {
            if i < items.len() - 1 {
                assert(items.drop_last()[i] == items[i]);
            } else {
                assert(items[i] == items.last());
            }
        }
    }
}

/// Normalization by field, field by field.
pub proof fn lemma_normalize_units_fields(fields: Seq<(Seq<char>, ValueModel)>)
    ensures
        normalize_units_fields(fields).len() == fields.len(),
        forall|i: int|
            0 <= i < fields.len() ==> normalize_units_fields(fields)[i] == (
            #[trigger] fields[i].0,
            normalize_units(fields[i].1),
            ),
    decreases fields,
{
    if fields.len() > 0 {
        lemma_normalize_units_fields(fields.drop_last());
        assert forall|i: int|
            0 <= i < fields.len() implies normalize_units_fields(fields)[i] == (
        #[trigger] fields[i].0,
        normalize_units(fields[i].1),
        ) by {
            if i < fields.len() - 1 {
                assert(fields.drop_last()[i] == fields[i]);
            } else {
                assert(fields[i] == fields.last());
            }
        }
    }
}

/// Replace every erased unit identifier in the value by the zero-field unit
/// token.
#[verifier::loop_isolation(false)]
pub fn normalize_value(v: &StructuredValue) -> (r: StructuredValue)
    ensures
        view_of(r) == normalize_units(view_of(*v)),
    decreases v,
{
    match v {
        StructuredValue::Text(s) => StructuredValue::Text(s.clone()),
        StructuredValue::Number(t) => StructuredValue::Number(t.clone()),
        StructuredValue::Boolean(b) => StructuredValue::Boolean(*b),
        StructuredValue::UnitIdent(_) => {
            let r = StructuredValue::UnitIdent(String::from_str("()"));
            proof {
                reveal_strlit("()");
            }
            r
        },
        StructuredValue::List(items) => {
            let ghost l = view_of_list(items@);
            proof {
                lemma_view_of_list(items@);
                lemma_normalize_units_list(l);
            }
            let n = items.len();
            let mut out: Vec<StructuredValue> = Vec::new();
            let mut i: usize = 0;
            while i < n
                invariant
                    0 <= i <= n,
                    out@.len() == i,
                    forall|j: int|
                        0 <= j < i ==> view_of(#[trigger] out@[j]) == normalize_units(
                            view_of(items@[j]),
                        ),
                decreases n - i,
            {
                proof {
                    assert(*v == StructuredValue::List(*items));
                    assert(decreases_to!(StructuredValue::List(*items) => *items));
                    assert(decreases_to!(*items => items@[i as int]));
                }
                let c = normalize_value(&items[i]);
                out.push(c);
                i = i + 1;
            }
            proof {
                lemma_view_of_list(out@);
                assert forall|j: int|
                    0 <= j < n implies view_of_list(out@)[j] == normalize_units_list(l)[j] by {
                    assert(view_of_list(out@)[j] == view_of(out@[j]));
                    assert(l[j] == view_of(items@[j]));
                }
                assert(view_of_list(out@) =~= normalize_units_list(l));
            }
            StructuredValue::List(out)
        },
        StructuredValue::Record(fields) => {
            let ghost l = view_of_fields(fields@);
            proof {
                lemma_view_of_fields(fields@);
                lemma_normalize_units_fields(l);
            }
            let n = fields.len();
            let mut out: Vec<(String, StructuredValue)> = Vec::new();
            let mut i: usize = 0;
            while i < n
                invariant
                    0 <= i <= n,
                    out@.len() == i,
                    forall|j: int|
                        0 <= j < i ==> (#[trigger] out@[j].0@) == fields@[j].0@ && view_of(
                            out@[j].1,
                        ) == normalize_units(view_of(fields@[j].1)),
                decreases n - i,
            {
                proof {
                    assert(*v == StructuredValue::Record(*fields));
                    assert(decreases_to!(StructuredValue::Record(*fields) => *fields));
                    assert(decreases_to!(*fields => fields@[i as int]));
                    assert(decreases_to!(fields@[i as int] => fields@[i as int].1));
                }
                let pair = &fields[i];
                let name = pair.0.clone();
                let c = normalize_value(&pair.1);
                out.push((name, c));
                i = i + 1;
            }
            proof {
                lemma_view_of_fields(out@);
                assert forall|j: int|
                    0 <= j < n implies view_of_fields(out@)[j] == normalize_units_fields(l)[j] by {
                    assert(view_of_fields(out@)[j] == (out@[j].0@, view_of(out@[j].1)));
                    assert(l[j] == (fields@[j].0@, view_of(fields@[j].1)));
                    assert(normalize_units_fields(l)[j] == (l[j].0, normalize_units(l[j].1)));
                }
                assert(view_of_fields(out@) =~= normalize_units_fields(l));
            }
            StructuredValue::Record(out)
        },
    }
}

/// Re-render a generically parsed map as component struct syntax
/// `(name:value,...)`, recursively re-rendering nested values and applying
/// the repair rewrites to each field's text.
pub fn convert_map_to_ron_struct(fields: &Vec<(String, StructuredValue)>) -> (r: String)
    ensures
        r@ == fallback_text(ValueModel::RecordV(view_of_fields(fields@))),
{
    let tmp = StructuredValue::Record(clone_fields(fields));
    let normalized = normalize_value(&tmp);
    crate::format::render_component_text(&normalized)
}

/// Re-render a generically parsed sequence as a parenthesized tuple
/// `(v0,v1,...)`, applying the repair rewrites to each element's text.
pub fn convert_seq_to_tuple(items: &Vec<StructuredValue>) -> (r: String)
    ensures
        r@ == fallback_text(ValueModel::ListV(view_of_list(items@))),
{
    let tmp = StructuredValue::List(clone_items(items));
    let normalized = normalize_value(&tmp);
    crate::format::render_component_text(&normalized)
}

/// The direct textual extraction: the component's text, when the wrapper
/// holds it as a quoted string after the `"name":` key. The content runs
/// from just past the opening quote to the last quote in the blob, with
/// escaped quotes unescaped.
pub open spec fn spec_direct_extract(name: Seq<char>, blob: Seq<char>) -> Option<Seq<char>> {
    match find_pattern(blob, key_pattern(name)) {
        None => None,
        Some(p) => {
            let q = skip_ws(blob, p + key_pattern(name).len());
            if q < blob.len() && blob[q] == '"' {
                match last_quote_from(blob, q + 1) {
                    Some(r) => Some(unescape_quotes(blob.subrange(q + 1, r))),
                    None => None,
                }
            } else {
                None
            }
        },
    }
}

/// The unit-identifier recovery: a generic parse erases which identifier a
/// unit value had, so the token is re-read from the raw blob — everything
/// from just past the `"name":` key up to the next closing brace, trimmed;
/// an empty result defaults to the zero-field unit token. This is a
/// heuristic text scan, not a parse: a string field whose value holds an
/// unescaped closing brace before the component's true end can cut the
/// token short. That is a known limit of the persisted format's repair
/// path.
pub open spec fn spec_recover_unit(name: Seq<char>, blob: Seq<char>) -> Option<Seq<char>> {
    match find_pattern(blob, key_pattern(name)) {
        None => None,
        Some(p) => {
            let a = p + key_pattern(name).len();
            let b = match find_char_from(blob, '}', a) {
                Some(j) => j,
                None => blob.len() as int,
            };
            let token = trim_blanks(blob.subrange(a, b));
            if token.len() == 0 {
                Some("()"@)
            } else {
                Some(token)
            }
        },
    }
}

/// The value under `name` in a generically parsed wrapper record, if any.
pub open spec fn spec_field_lookup(fs: Seq<(Seq<char>, ValueModel)>, name: Seq<char>) -> Option<
    ValueModel,
>
    decreases fs,
{
    if fs.len() == 0 {
        None
    } else if fs[0].0 == name {
        Some(fs[0].1)
    } else {
        spec_field_lookup(fs.skip(1), name)
    }
}

/// What extraction yields for the component `name` from a persisted blob.
///
/// A blob that does not open a braced wrapper record is already the
/// component's own text. Otherwise the direct textual extraction is tried
/// first; failing that, the whole blob is parsed as a generic
/// structured-value record and the value under `name` is re-rendered by its
/// shape: a string verbatim, a unit value through the identifier recovery,
/// and any other shape through the structural fallback rewrite.
pub open spec fn spec_extract(name: Seq<char>, blob: Seq<char>) -> Option<Seq<char>> {
    if blob.len() == 0 || blob[0] != '{' {
        Some(blob)
    } else {
        match spec_direct_extract(name, blob) {
            Some(t) => Some(t),
            None => match spec_parse_text(blob, false) {
                Some(ValueModel::RecordV(fs)) => match spec_field_lookup(fs, name) {
                    Some(v) => match v {
                        ValueModel::TextV(t) => Some(t),
                        ValueModel::UnitV(_) => spec_recover_unit(name, blob),
                        _ => Some(fallback_text(v)),
                    },
                    None => None,
                },
                _ => None,
            },
        }
    }
}

/// Build the `"name":` key pattern for a component.
fn key_pattern_exec(name: &str) -> (r: Vec<char>)
    ensures
        r@ == key_pattern(name@),
{
    let mut out: Vec<char> = Vec::new();
    out.push('"');
    let mut chars = str_to_chars(name);
    out.append(&mut chars);
    out.push('"');
    out.push(':');
    proof {
        assert(out@ =~= key_pattern(name@));
    }
    out
}

/// Try to extract the component's text directly from the wrapper: locate
/// the `"name":` key and pull the quoted string value that follows,
/// unescaping embedded quotes. This preserves well-formed structured text
/// written by an earlier serializer version.
pub fn try_extract_ron_component(component_name: &str, serialized_data: &str) -> (r: Option<
    String,
>)
    ensures
        match r {
            Some(t) => spec_direct_extract(component_name@, serialized_data@) == Some(t@),
            None => spec_direct_extract(component_name@, serialized_data@) is None,
        },
{
    let blob = str_to_chars(serialized_data);
    let pat = key_pattern_exec(component_name);
    match find_pattern_exec(&blob, &pat) {
        None => None,
        Some(p) => {
            proof {
                assert(p + pat@.len() <= blob@.len());
                assert(blob@.len() == blob.len());
            }
            let q = skip_ws_exec(&blob, p + pat.len());
            if q < blob.len() && blob[q] == '"' {
                match last_quote_exec(&blob, q + 1) {
                    Some(r) => Some(unescape_quotes_exec(&blob, q + 1, r)),
                    None => None,
                }
            } else {
                None
            }
        },
    }
}

/// Recover a unit value's identifier token from the raw blob: the text
/// after the `"name":` key up to the next closing brace, trimmed, with the
/// zero-field unit token standing in for an empty result.
pub fn recover_unit_identifier(component_name: &str, serialized_data: &str) -> (r: Option<String>)
    ensures
        match r {
            Some(t) => spec_recover_unit(component_name@, serialized_data@) == Some(t@),
            None => spec_recover_unit(component_name@, serialized_data@) is None,
        },
{
    let blob = str_to_chars(serialized_data);
    let pat = key_pattern_exec(component_name);
    match find_pattern_exec(&blob, &pat) {
        None => None,
        Some(p) => {
            proof {
                assert(p + pat@.len() <= blob@.len());
                assert(blob@.len() == blob.len());
            }
            let a = p + pat.len();
            let b = match find_char_exec(&blob, '}', a) {
                Some(j) => j,
                None => blob.len(),
            };
            let token = trim_blanks_exec(&blob, a, b);
            if token.as_str().unicode_len() == 0 {
                let unit = String::from_str("()");
                proof {
                    reveal_strlit("()");
                }
                Some(unit)
            } else {
                Some(token)
            }
        },
    }
}

/// The value under `name` in a parsed wrapper record, deeply copied.
fn field_lookup_exec(fs: &Vec<(String, StructuredValue)>, name: &str) -> (r: Option<
    StructuredValue,
>)
    ensures
        match r {
            Some(v) => spec_field_lookup(view_of_fields(fs@), name@) == Some(view_of(v)),
            None => spec_field_lookup(view_of_fields(fs@), name@) is None,
        },
{
    let ghost l = view_of_fields(fs@);
    proof {
        lemma_view_of_fields(fs@);
        assert(l.skip(0) =~= l);
    }
    let name_string = String::from_str(name);
    let n = fs.len();
    let mut i: usize = 0;
    while i < n
        invariant
            0 <= i <= n,
            n == fs@.len(),
            name_string@ == name@,
            l == view_of_fields(fs@),
            l.len() == n,
            forall|j: int| 0 <= j < n ==> l[j] == (#[trigger] fs@[j].0@, view_of(fs@[j].1)),
            spec_field_lookup(l, name@) == spec_field_lookup(l.skip(i as int), name@),
        decreases n - i,
    {
        proof {
            assert(l.skip(i as int)[0] == l[i as int]);
            assert(l.skip(i as int).skip(1) =~= l.skip(i + 1));
        }
        let pair = &fs[i];
        if pair.0.eq(&name_string) {
            return Some(crate::value::clone_value(&pair.1));
        }
        i = i + 1;
    }
    proof {
        assert(l.skip(n as int).len() == 0);
    }
    None
}

/// Extract the component `name`'s own text from a persisted blob, trying
/// the direct textual extraction first and the generic structured-value
/// fallback second. Returns nothing when the blob opens a wrapper record
/// from which neither strategy can pull the component's text.
pub fn extract_component_data(component_name: &str, serialized_data: &str) -> (r: Option<String>)
    ensures
        match r {
            Some(t) => spec_extract(component_name@, serialized_data@) == Some(t@),
            None => spec_extract(component_name@, serialized_data@) is None,
        },
{
    let blob = str_to_chars(serialized_data);
    if blob.len() == 0 || blob[0] != '{' {
        return Some(String::from_str(serialized_data));
    }
    if let Some(t) = try_extract_ron_component(component_name, serialized_data) {
        return Some(t);
    }
    match parse_structured_text(serialized_data, false) {
        Some(StructuredValue::Record(fs)) => {
            match field_lookup_exec(&fs, component_name) {
                Some(v) => match &v {
                    StructuredValue::Text(t) => Some(t.clone()),
                    StructuredValue::UnitIdent(_) => recover_unit_identifier(
                        component_name,
                        serialized_data,
                    ),
                    _ => {
                        let normalized = normalize_value(&v);
                        Some(crate::format::render_component_text(&normalized))
                    },
                },
                None => None,
            }
        },
        _ => None,
    }
}

/// A deep copy of a field list.
fn clone_fields(fields: &Vec<(String, StructuredValue)>) -> (r: Vec<(String, StructuredValue)>)
    ensures
        view_of_fields(r@) == view_of_fields(fields@),
{
    let n = fields.len();
    let mut out: Vec<(String, StructuredValue)> = Vec::new();
    let mut i: usize = 0;
    while i < n
        invariant
            0 <= i <= n,
            n == fields@.len(),
            out@.len() == i,
            forall|j: int|
                0 <= j < i ==> (#[trigger] out@[j].0@) == fields@[j].0@ && view_of(out@[j].1)
                    == view_of(fields@[j].1),
        decreases n - i,
    {
        let pair = &fields[i];
        let name = pair.0.clone();
        let c = crate::value::clone_value(&pair.1);
        out.push((name, c));
        i = i + 1;
    }
    proof {
        lemma_view_of_fields(out@);
        lemma_view_of_fields(fields@);
        assert forall|j: int|
            0 <= j < n implies view_of_fields(out@)[j] == view_of_fields(fields@)[j] by {
            assert(view_of_fields(out@)[j] == (out@[j].0@, view_of(out@[j].1)));
            assert(view_of_fields(fields@)[j] == (fields@[j].0@, view_of(fields@[j].1)));
        }
        assert(view_of_fields(out@) =~= view_of_fields(fields@));
    }
    out
}

/// A deep copy of an element list.
fn clone_items(items: &Vec<StructuredValue>) -> (r: Vec<StructuredValue>)
    ensures
        view_of_list(r@) == view_of_list(items@),
{
    let n = items.len();
    let mut out: Vec<StructuredValue> = Vec::new();
    let mut i: usize = 0;
    while i < n
        invariant
            0 <= i <= n,
            n == items@.len(),
            out@.len() == i,
            forall|j: int| 0 <= j < i ==> view_of(#[trigger] out@[j]) == view_of(items@[j]),
        decreases n - i,
    {
        let c = crate::value::clone_value(&items[i]);
        out.push(c);
        i = i + 1;
    }
    proof {
        lemma_view_of_list(out@);
        lemma_view_of_list(items@);
        assert forall|j: int|
            0 <= j < n implies view_of_list(out@)[j] == view_of_list(items@)[j] by {
            assert(view_of_list(out@)[j] == view_of(out@[j]));
            assert(view_of_list(items@)[j] == view_of(items@[j]));
        }
        assert(view_of_list(out@) =~= view_of_list(items@));
    }
    out
}

} // verus!
