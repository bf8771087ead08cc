//! Round-trip: the parser reads back exactly what the serializer wrote.
//!
//! The central law of the persistence format: for every canonical structured
//! value, parsing the canonical rendering (with identifier tokens kept)
//! yields the value itself, consuming the whole text.

use vstd::prelude::*;
use crate::value::ValueModel;
use crate::format::{is_digit, is_ident_start, is_ident_char, valid_ident, all_digits,
    valid_number_body, valid_number_token, escape_char, escape_text,
    render_model, render_elems, render_fields, canonical, canonical_elems, canonical_fields,
    lemma_canonical_elems, lemma_canonical_fields, unit_free, unit_free_elems, unit_free_fields,
    lemma_unit_free_elems, lemma_unit_free_fields};
use crate::parse::{is_stop_char, scan_digits, scan_ident_chars, scan_number, scan_string_body,
    spec_parse_value, spec_parse_elems, spec_parse_fields, spec_parse_text,
    lemma_parse_value_progress};

verus! {

/// A run of digits ending at a non-digit is scanned exactly.
proof fn lemma_scan_digits_exact(s: Seq<char>, i: int, j: int)
    requires
        0 <= i <= j <= s.len(),
        forall|k: int| i <= k < j ==> is_digit(#[trigger] s[k]),
        j == s.len() || !is_digit(s[j]),
    ensures
        scan_digits(s, i) == j,
    decreases j - i,
{
    if i < j {
        lemma_scan_digits_exact(s, i + 1, j);
    }
}

/// A run of identifier characters ending at a non-identifier character is
/// scanned exactly.
pub proof fn lemma_scan_ident_exact(s: Seq<char>, i: int, j: int)
    requires
        0 <= i <= j <= s.len(),
        forall|k: int| i <= k < j ==> is_ident_char(#[trigger] s[k]),
        j == s.len() || !is_ident_char(s[j]),
    ensures
        scan_ident_chars(s, i) == j,
    decreases j - i,
{
    if i < j {
        lemma_scan_ident_exact(s, i + 1, j);
    }
}

/// A well-formed numeric token, followed by nothing that could extend it,
/// is scanned exactly.
proof fn lemma_scan_number_exact(s: Seq<char>, i: int, t: Seq<char>)
    requires
        valid_number_token(t),
        0 <= i,
        i + t.len() <= s.len(),
        s.subrange(i, i + t.len()) == t,
        i + t.len() == s.len() || (!is_digit(s[i + t.len()]) && s[i + t.len()] != '.'),
    ensures
        scan_number(s, i) == Some(i + t.len()),
{
    let end = i + t.len();
    let neg = t.len() > 0 && t[0] == '-';
    let b = if neg {
        t.skip(1)
    } else {
        t
    };
    let bi = if neg {
        i + 1
    } else {
        i
    };
    assert(valid_number_body(b));
    assert(b.len() > 0);
    assert forall|k: int| 0 <= k < t.len() implies s[i + k] == t[k] by {
        assert(s.subrange(i, i + t.len())[k] == s[i + k]);
    }
    if neg {
        assert(s[i] == '-');
    } else {
        assert(b.len() > 0);
        if all_digits(b) {
            assert(is_digit(t[0]));
        } else {
            let k = choose|k: int|
                1 <= k <= b.len() - 2 && #[trigger] b[k] == '.' && all_digits(b.take(k))
                    && all_digits(b.skip(k + 1));
            assert(b.take(k)[0] == b[0]);
            assert(is_digit(b[0]));
        }
        assert(s[i] != '-');
    }
    if all_digits(b) {
        assert forall|m: int| bi <= m < end implies is_digit(#[trigger] s[m]) by {
            assert(b[m - bi] == t[m - i]);
        }
        lemma_scan_digits_exact(s, bi, end);
        assert(scan_digits(s, bi) == end);
    } else {
        let k = choose|k: int|
            1 <= k <= b.len() - 2 && #[trigger] b[k] == '.' && all_digits(b.take(k)) && all_digits(
                b.skip(k + 1),
            );
        let dot = bi + k;
        assert forall|m: int| bi <= m < dot implies is_digit(#[trigger] s[m]) by {
            assert(b.take(k)[m - bi] == b[m - bi]);
        }
        assert(s[dot] == b[k]);
        assert(!is_digit('.')) by {
            assert('.' as u32 == 46);
        }
        lemma_scan_digits_exact(s, bi, dot);
        assert forall|m: int| dot + 1 <= m < end implies is_digit(#[trigger] s[m]) by {
            assert(b.skip(k + 1)[m - (dot + 1)] == b[m - bi]);
        }
        lemma_scan_digits_exact(s, dot + 1, end);
        assert(scan_digits(s, bi) == dot);
        assert(scan_digits(s, dot + 1) == end);
        assert(dot + 1 < end);
    }
}

/// An escaped string body followed by its closing quote is scanned exactly,
/// and unescapes to the original text.
pub proof fn lemma_scan_string_exact(s: Seq<char>, i: int, t: Seq<char>)
    requires
        0 <= i,
        i + escape_text(t).len() < s.len(),
        s.subrange(i, i + escape_text(t).len()) == escape_text(t),
        s[i + escape_text(t).len()] == '"',
    ensures
        scan_string_body(s, i) == Some((t, i + escape_text(t).len() + 1)),
    decreases t.len(),
{
    let e = escape_text(t);
    assert forall|k: int| 0 <= k < e.len() implies s[i + k] == e[k] by {
        assert(s.subrange(i, i + e.len())[k] == s[i + k]);
    }
    if t.len() == 0 {
        assert(s[i] == '"');
    } else {
        let c = t[0];
        let rest = t.skip(1);
        assert(e == escape_char(c) + escape_text(rest));
        assert(e.len() == escape_char(c).len() + escape_text(rest).len());
        if c == '"' || c == '\\' {
            assert(e[0] == escape_char(c)[0]);
            assert(e[1] == escape_char(c)[1]);
            assert(s[i + 0] == e[0]);
            assert(s[i + 1] == e[1]);
            assert(s[i] == '\\');
            assert(s[i + 1] == c);
            assert(s.subrange(i + 2, i + 2 + escape_text(rest).len()) =~= escape_text(rest)) by {
                assert forall|k: int|
                    0 <= k < escape_text(rest).len() implies s.subrange(
                    i + 2,
                    i + 2 + escape_text(rest).len(),
                )[k] == escape_text(rest)[k] by {
                    assert(s[i + 2 + k] == e[2 + k]);
                    assert(e[2 + k] == escape_text(rest)[k]);
                }
            }
            lemma_scan_string_exact(s, i + 2, rest);
            assert(seq![c] + rest =~= t);
        } else {
            assert(e[0] == escape_char(c)[0]);
            assert(s[i + 0] == e[0]);
            assert(s[i] == c);
            assert(c != '"' && c != '\\');
            assert(s.subrange(i + 1, i + 1 + escape_text(rest).len()) =~= escape_text(rest)) by {
                assert forall|k: int|
                    0 <= k < escape_text(rest).len() implies s.subrange(
                    i + 1,
                    i + 1 + escape_text(rest).len(),
                )[k] == escape_text(rest)[k] by {
                    assert(s[i + 1 + k] == e[1 + k]);
                    assert(e[1 + k] == escape_text(rest)[k]);
                }
            }
            lemma_scan_string_exact(s, i + 1, rest);
            assert(seq![c] + rest =~= t);
        }
    }
}

/// A canonical value's rendering is non-empty, and its first character
/// announces the value's shape.
pub proof fn lemma_render_first(v: ValueModel)
    requires
        canonical(v),
    ensures
        render_model(v).len() > 0,
        render_model(v)[0] == '"' || render_model(v)[0] == '-' || is_digit(render_model(v)[0])
            || render_model(v)[0] == '(' || is_ident_start(render_model(v)[0]),
{
    match v {
        ValueModel::TextV(t) => {
            assert(render_model(v)[0] == '"');
        },
        ValueModel::NumberV(t) => {
            if t.len() > 0 && t[0] == '-' {
            } else {
                if all_digits(t) {
                } else {
                    let k = choose|k: int|
                        1 <= k <= t.len() - 2 && #[trigger] t[k] == '.' && all_digits(t.take(k))
                            && all_digits(t.skip(k + 1));
                    assert(t.take(k)[0] == t[0]);
                }
            }
        },
        ValueModel::BoolV(b) => {
            reveal_strlit("true");
            reveal_strlit("false");
            if b {
                assert(render_model(v)[0] == 't');
                assert(is_ident_start('t')) by {
                    assert('t' as u32 == 116);
                }
            } else {
                assert(render_model(v)[0] == 'f');
                assert(is_ident_start('f')) by {
                    assert('f' as u32 == 102);
                }
            }
        },
        ValueModel::UnitV(t) => {
            if valid_ident(t) && t != "true"@ && t != "false"@ {
            } else {
                reveal_strlit("()");
                assert(t == "()"@);
                assert(render_model(v)[0] == '(');
            }
        },
        ValueModel::ListV(items) => {
            assert(render_model(v)[0] == '(');
        },
        ValueModel::RecordV(fields) => {
            assert(render_model(v)[0] == '(');
        },
    }
}

/// Characters of the rendering of `v`, looked up through a containing text.
/// After the opening parenthesis of a list, the identifier lookahead never
/// lands on a colon, so a rendered list is always parsed as a tuple, not as
/// a record.
proof fn lemma_list_lookahead(s: Seq<char>, i1: int, v0: ValueModel, sep: char)
    requires
        canonical(v0),
        0 <= i1,
        i1 + render_model(v0).len() < s.len(),
        s.subrange(i1, i1 + render_model(v0).len()) == render_model(v0),
        s[i1 + render_model(v0).len()] == sep,
        sep == ',' || sep == ')',
    ensures
        !(scan_ident_chars(s, i1) > i1 && scan_ident_chars(s, i1) < s.len() && s[scan_ident_chars(
            s,
            i1,
        )] == ':'),
{
    let r0 = render_model(v0);
    let p = i1 + r0.len();
    lemma_render_first(v0);
    assert forall|k: int| 0 <= k < r0.len() implies s[i1 + k] == r0[k] by {
        assert(s.subrange(i1, i1 + r0.len())[k] == s[i1 + k]);
    }
    assert(!is_ident_char(sep)) by {
        assert(',' as u32 == 44 && ')' as u32 == 41);
    }
    match v0 {
        ValueModel::TextV(t) => {
            assert(!is_ident_char('"')) by {
                assert('"' as u32 == 34);
            }
            assert(scan_ident_chars(s, i1) == i1);
        },
        ValueModel::NumberV(t) => {
            if t[0] == '-' {
                assert(!is_ident_char('-')) by {
                    assert('-' as u32 == 45);
                }
                assert(s[i1] == '-');
                assert(scan_ident_chars(s, i1) == i1);
            } else {
                if all_digits(t) {
                    assert forall|m: int| i1 <= m < p implies is_ident_char(#[trigger] s[m]) by {
                        assert(s[m] == t[m - i1]);
                        assert(is_digit(t[m - i1]));
                    }
                    lemma_scan_ident_exact(s, i1, p);
                    assert(s[p] == sep);
                } else {
                    let k = choose|k: int|
                        1 <= k <= t.len() - 2 && #[trigger] t[k] == '.' && all_digits(t.take(k))
                            && all_digits(t.skip(k + 1));
                    let dot = i1 + k;
                    assert forall|m: int| i1 <= m < dot implies is_ident_char(#[trigger] s[m]) by {
                        assert(s[m] == t[m - i1]);
                        assert(t.take(k)[m - i1] == t[m - i1]);
                    }
                    assert(s[dot] == t[k]);
                    assert(!is_ident_char('.')) by {
                        assert('.' as u32 == 46);
                    }
                    lemma_scan_ident_exact(s, i1, dot);
                    assert(s[scan_ident_chars(s, i1)] == '.');
                }
            }
        },
        ValueModel::BoolV(b) => {
            reveal_strlit("true");
            reveal_strlit("false");
            assert forall|m: int| i1 <= m < p implies is_ident_char(#[trigger] s[m]) by {
                assert(s[m] == r0[m - i1]);
                if b {
                    assert('t' as u32 == 116 && 'r' as u32 == 114 && 'u' as u32 == 117 && 'e'
                        as u32 == 101);
                } else {
                    assert('f' as u32 == 102 && 'a' as u32 == 97 && 'l' as u32 == 108 && 's'
                        as u32 == 115 && 'e' as u32 == 101);
                }
            }
            lemma_scan_ident_exact(s, i1, p);
            assert(s[p] == sep);
        },
        ValueModel::UnitV(t) => {
            if valid_ident(t) && t != "true"@ && t != "false"@ {
                assert forall|m: int| i1 <= m < p implies is_ident_char(#[trigger] s[m]) by {
                    assert(s[m] == t[m - i1]);
                }
                lemma_scan_ident_exact(s, i1, p);
                assert(s[p] == sep);
            } else {
                reveal_strlit("()");
                assert(t == "()"@);
                assert(s[i1] == '(');
                assert(!is_ident_char('(')) by {
                    assert('(' as u32 == 40);
                }
                assert(scan_ident_chars(s, i1) == i1);
            }
        },
        ValueModel::ListV(items) => {
            assert(s[i1] == '(');
            assert(!is_ident_char('(')) by {
                assert('(' as u32 == 40);
            }
            assert(scan_ident_chars(s, i1) == i1);
        },
        ValueModel::RecordV(fields) => {
            assert(s[i1] == '(');
            assert(!is_ident_char('(')) by {
                assert('(' as u32 == 40);
            }
            assert(scan_ident_chars(s, i1) == i1);
        },
    }
}

/// The comma-separated rendering, decomposed from the front.
proof fn lemma_render_elems_first(items: Seq<ValueModel>)
    requires
        items.len() > 0,
    ensures
        items.len() == 1 ==> render_elems(items) == render_model(items[0]),
        items.len() > 1 ==> render_elems(items) == render_model(items[0]) + seq![',']
            + render_elems(items.skip(1)),
    decreases items.len(),
{
    if items.len() > 1 {
        lemma_render_elems_first(items.drop_last());
        let rest = items.skip(1);
        assert(items.drop_last()[0] == items[0]);
        if items.len() == 2 {
            assert(items.drop_last() =~= seq![items[0]]);
            assert(rest =~= seq![items[1]]);
            assert(rest[0] == items[1]);
            assert(items.last() == items[1]);
            assert(render_elems(rest) == render_model(items[1]));
            assert(render_elems(items) == render_model(items[0]) + seq![','] + render_model(
                items.last(),
            ));
        } else {
            assert(items.drop_last().len() > 1);
            assert(items.drop_last().skip(1) =~= rest.drop_last());
            lemma_render_elems_first(rest);
            assert(rest.len() > 1);
            assert(rest[0] == items[1]);
            assert(rest.last() == items.last());
            assert(items.drop_last()[0] == items[0]);
            // render(items) = render(drop_last) + ',' + render(last)
            //              = (r0 + ',' + render(drop_last.skip 1)) + ',' + render(last)
            // render(r0) + ',' + render(rest) = r0 + ',' + (render(rest.drop_last) + ',' + render(last))
            assert(render_elems(items) == render_elems(items.drop_last()) + seq![',']
                + render_model(items.last()));
            assert(render_elems(items.drop_last()) == render_model(items[0]) + seq![',']
                + render_elems(rest.drop_last()));
            assert(render_elems(rest) == render_elems(rest.drop_last()) + seq![','] + render_model(
                rest.last(),
            ));
            assert(render_elems(items) =~= render_model(items[0]) + seq![','] + render_elems(
                rest,
            ));
        }
    }
}

/// The comma-separated field rendering, decomposed from the front.
proof fn lemma_render_fields_first(fields: Seq<(Seq<char>, ValueModel)>)
    requires
        fields.len() > 0,
    ensures
        fields.len() == 1 ==> render_fields(fields) == fields[0].0 + seq![':'] + render_model(
            fields[0].1,
        ),
        fields.len() > 1 ==> render_fields(fields) == fields[0].0 + seq![':'] + render_model(
            fields[0].1,
        ) + seq![','] + render_fields(fields.skip(1)),
    decreases fields.len(),
{
    if fields.len() > 1 {
        lemma_render_fields_first(fields.drop_last());
        let rest = fields.skip(1);
        assert(fields.drop_last()[0] == fields[0]);
        if fields.len() == 2 {
            assert(fields.drop_last() =~= seq![fields[0]]);
            assert(rest =~= seq![fields[1]]);
            assert(rest[0] == fields[1]);
            assert(fields.last() == fields[1]);
            assert(render_fields(rest) == rest[0].0 + seq![':'] + render_model(rest[0].1));
            assert(render_fields(fields) =~= fields[0].0 + seq![':'] + render_model(fields[0].1)
                + seq![','] + render_fields(rest));
        } else {
            assert(fields.drop_last().len() > 1);
            assert(fields.drop_last().skip(1) =~= rest.drop_last());
            lemma_render_fields_first(rest);
            assert(rest[0] == fields[1]);
            assert(rest.last() == fields.last());
            assert(render_fields(fields) == render_fields(fields.drop_last()) + seq![',']
                + fields.last().0 + seq![':'] + render_model(fields.last().1));
            assert(render_fields(fields.drop_last()) == fields[0].0 + seq![':'] + render_model(
                fields[0].1,
            ) + seq![','] + render_fields(rest.drop_last()));
            assert(render_fields(rest) == render_fields(rest.drop_last()) + seq![',']
                + rest.last().0 + seq![':'] + render_model(rest.last().1));
            assert(render_fields(fields) =~= fields[0].0 + seq![':'] + render_model(fields[0].1)
                + seq![','] + render_fields(rest));
        }
    }
}

/// Characters and slices of an embedded segment: if the segment of `s`
/// starting at `i` spells `e`, then every character and every sub-slice of
/// that segment is the corresponding character or slice of `e`.
proof fn lemma_chars_within(s: Seq<char>, i: int, e: Seq<char>)
    requires
        0 <= i,
        i + e.len() <= s.len(),
        s.subrange(i, i + e.len()) == e,
    ensures
        forall|m: int| 0 <= m < e.len() ==> #[trigger] s[i + m] == e[m],
{
    assert forall|m: int| 0 <= m < e.len() implies #[trigger] s[i + m] == e[m] by {
        assert(s.subrange(i, i + e.len())[m] == s[i + m]);
    }
}

/// A sub-slice of an embedded segment.
proof fn lemma_slice_within(s: Seq<char>, i: int, e: Seq<char>, a: int, b: int)
    requires
        0 <= i,
        i + e.len() <= s.len(),
        s.subrange(i, i + e.len()) == e,
        0 <= a <= b <= e.len(),
    ensures
        s.subrange(i + a, i + b) == e.subrange(a, b),
{
    lemma_chars_within(s, i, e);
    assert forall|m: int| 0 <= m < b - a implies s.subrange(i + a, i + b)[m] == e.subrange(a, b)[m]
        by {
        assert(s.subrange(i + a, i + b)[m] == s[i + a + m]);
        assert(s[i + (a + m)] == e[a + m]);
    }
    assert(s.subrange(i + a, i + b) =~= e.subrange(a, b));
}

/// Completeness of the parser against the serializer: a canonical value's
/// rendering, embedded in a larger text and followed by a separator or
/// closing delimiter (or the end of the text), parses back to exactly that
/// value.
#[verifier::rlimit(80)]
pub proof fn lemma_parse_render(s: Seq<char>, i: int, v: ValueModel, keep_idents: bool)
    requires
        canonical(v),
        keep_idents || unit_free(v),
        0 <= i,
        i + render_model(v).len() <= s.len(),
        s.subrange(i, i + render_model(v).len()) == render_model(v),
        i + render_model(v).len() == s.len() || is_stop_char(s[i + render_model(v).len()]),
    ensures
        spec_parse_value(s, i, keep_idents) == Some((v, i + render_model(v).len())),
    decreases v,
{
    let r = render_model(v);
    let end = i + r.len();
    lemma_render_first(v);
    lemma_chars_within(s, i, r);
    assert(s[i + 0] == r[0]);
    let c = s[i];
    if end < s.len() {
        assert(!is_digit(s[end]) && s[end] != '.' && !is_ident_char(s[end])) by {
            assert(',' as u32 == 44 && ')' as u32 == 41 && ']' as u32 == 93 && '}' as u32 == 125);
        }
    }
    match v {
        ValueModel::TextV(t) => {
            assert(c == '"');
            let esc = escape_text(t);
            assert(r == seq!['"'] + esc + seq!['"']);
            lemma_slice_within(s, i, r, 1, 1 + esc.len() as int);
            assert((seq!['"'] + esc + seq!['"']).subrange(1, 1 + esc.len() as int) =~= esc);
            assert(s[i + (1 + esc.len() as int)] == r[1 + esc.len() as int]);
            assert(r[1 + esc.len() as int] == '"');
            lemma_scan_string_exact(s, i + 1, t);
        },
        ValueModel::NumberV(t) => {
            assert(r == t);
            if t[0] == '-' {
                assert(c == '-');
            } else {
                assert(is_digit(t[0])) by {
                    if all_digits(t) {
                    } else {
                        let k = choose|k: int|
                            1 <= k <= t.len() - 2 && #[trigger] t[k] == '.' && all_digits(
                                t.take(k),
                            ) && all_digits(t.skip(k + 1));
                        assert(t.take(k)[0] == t[0]);
                    }
                }
                assert(is_digit(c));
                assert(c != '"' && c != '-') by {
                    assert('"' as u32 == 34 && '-' as u32 == 45);
                }
            }
            lemma_scan_number_exact(s, i, t);
            assert(s.subrange(i, end) == t);
        },
        ValueModel::BoolV(b) => {
            reveal_strlit("true");
            reveal_strlit("false");
            assert(is_ident_start(c));
            assert(c != '"' && c != '-' && !is_digit(c) && c != '(' && c != '[' && c != '{') by {
                assert('"' as u32 == 34 && '-' as u32 == 45 && '(' as u32 == 40 && '[' as u32 == 91
                    && '{' as u32 == 123);
            }
            assert forall|m: int| i <= m < end implies is_ident_char(#[trigger] s[m]) by {
                assert(s[i + (m - i)] == r[m - i]);
                if b {
                    assert('t' as u32 == 116 && 'r' as u32 == 114 && 'u' as u32 == 117 && 'e'
                        as u32 == 101);
                } else {
                    assert('f' as u32 == 102 && 'a' as u32 == 97 && 'l' as u32 == 108 && 's'
                        as u32 == 115 && 'e' as u32 == 101);
                }
            }
            lemma_scan_ident_exact(s, i, end);
            assert(s.subrange(i, end) == r);
            if b {
            } else {
                assert(("false"@) != ("true"@));
            }
        },
        ValueModel::UnitV(t) => {
            assert(keep_idents);
            assert(r == t);
            if valid_ident(t) && t != "true"@ && t != "false"@ {
                assert(is_ident_start(c));
                assert(c != '"' && c != '-' && !is_digit(c) && c != '(' && c != '[' && c != '{')
                    by {
                    assert('"' as u32 == 34 && '-' as u32 == 45 && '(' as u32 == 40 && '[' as u32
                        == 91 && '{' as u32 == 123);
                }
                assert forall|m: int| i <= m < end implies is_ident_char(#[trigger] s[m]) by {
                    assert(s[i + (m - i)] == r[m - i]);
                }
                lemma_scan_ident_exact(s, i, end);
                assert(s.subrange(i, end) == t);
            } else {
                reveal_strlit("()");
                assert(t == "()"@);
                assert(c == '(');
                assert(s[i + 1] == r[1]);
                assert(r[1] == ')');
                assert(end == i + 2);
            }
        },
        ValueModel::ListV(items) => {
            assert(c == '(');
            let e = render_elems(items);
            assert(r == seq!['('] + e + seq![')']);
            lemma_canonical_elems(items);
            lemma_render_elems_first(items);
            let v0 = items[0];
            assert(canonical(v0));
            lemma_render_first(v0);
            let r0 = render_model(v0);
            assert(e.len() >= r0.len());
            lemma_slice_within(s, i, r, 1, 1 + e.len() as int);
            assert((seq!['('] + e + seq![')']).subrange(1, 1 + e.len() as int) =~= e);
            assert(s.subrange(i + 1, i + 1 + e.len()) == e);
            lemma_chars_within(s, i + 1, e);
            assert(s[i + (1 + e.len() as int)] == r[1 + e.len() as int]);
            assert(r[1 + e.len() as int] == ')');
            assert(s[i + 1 + e.len()] == ')');
            // the opening parenthesis is not followed by `)`
            assert(s[i + 1 + 0] == e[0]);
            if items.len() == 1 {
                assert(e == r0);
            } else {
                assert(e == r0 + seq![','] + render_elems(items.skip(1)));
                assert(e[0] == r0[0]);
            }
            assert(e[0] == r0[0]);
            assert(r0[0] != ')') by {
                assert('"' as u32 == 34 && '-' as u32 == 45 && '(' as u32 == 40 && ')' as u32
                    == 41);
            }
            assert(s[i + 1] != ')');
            // the identifier lookahead does not see a record
            let sep = if items.len() == 1 {
                ')'
            } else {
                ','
            };
            lemma_slice_within(s, i + 1, e, 0, r0.len() as int);
            assert(e.subrange(0, r0.len() as int) =~= r0);
            assert(s.subrange(i + 1, i + 1 + r0.len()) == r0);
            assert(s[i + 1 + r0.len()] == sep) by {
                if items.len() == 1 {
                } else {
                    assert(e[r0.len() as int] == ',');
                    assert(s[i + 1 + r0.len()] == e[r0.len() as int]);
                }
            }
            lemma_list_lookahead(s, i + 1, v0, sep);
            // the element list parses back
            if !keep_idents {
                lemma_unit_free_elems(items);
            }
            lemma_parse_elems_render(s, i + 1, items, ')', keep_idents);
            assert(i + 1 + e.len() + 1 == end);
        },
        ValueModel::RecordV(fields) => {
            assert(c == '(');
            let e = render_fields(fields);
            assert(r == seq!['('] + e + seq![')']);
            lemma_canonical_fields(fields);
            lemma_render_fields_first(fields);
            let name0 = fields[0].0;
            assert(valid_ident(name0) && canonical(fields[0].1));
            lemma_slice_within(s, i, r, 1, 1 + e.len() as int);
            assert((seq!['('] + e + seq![')']).subrange(1, 1 + e.len() as int) =~= e);
            assert(s.subrange(i + 1, i + 1 + e.len()) == e);
            lemma_chars_within(s, i + 1, e);
            assert(s[i + (1 + e.len() as int)] == r[1 + e.len() as int]);
            assert(r[1 + e.len() as int] == ')');
            // the name's identifier run ends exactly at the colon
            assert forall|m: int| i + 1 <= m < i + 1 + name0.len() implies is_ident_char(
                #[trigger] s[m],
            ) by {
                assert(s[(i + 1) + (m - i - 1)] == e[m - i - 1]);
                assert(e[m - i - 1] == name0[m - i - 1]);
            }
            assert(s[(i + 1) + name0.len()] == e[name0.len() as int]);
            assert(e[name0.len() as int] == ':');
            assert(!is_ident_char(':')) by {
                assert(':' as u32 == 58);
            }
            lemma_scan_ident_exact(s, i + 1, i + 1 + name0.len());
            assert(s[i + 1] != ')') by {
                assert(s[i + 1 + 0] == e[0]);
                assert(e[0] == name0[0]);
                assert(')' as u32 == 41);
            }
            if !keep_idents {
                lemma_unit_free_fields(fields);
            }
            lemma_parse_fields_render(s, i + 1, fields, keep_idents);
            assert(i + 1 + e.len() + 1 == end);
        },
    }
}

/// Completeness for element lists: the rendering of a canonical, non-empty
/// element list followed by its closing delimiter parses back to exactly
/// those elements.
pub proof fn lemma_parse_elems_render(
    s: Seq<char>,
    i: int,
    items: Seq<ValueModel>,
    close: char,
    keep_idents: bool,
)
    requires
        items.len() > 0,
        canonical_elems(items),
        keep_idents || unit_free_elems(items),
        0 <= i,
        i + render_elems(items).len() < s.len(),
        s.subrange(i, i + render_elems(items).len()) == render_elems(items),
        s[i + render_elems(items).len()] == close,
        close == ')' || close == ']',
    ensures
        spec_parse_elems(s, i, keep_idents, close) == Some(
            (items, i + render_elems(items).len() + 1),
        ),
    decreases items,
{
    let e = render_elems(items);
    let end = i + e.len();
    lemma_canonical_elems(items);
    lemma_unit_free_elems(items);
    lemma_render_elems_first(items);
    let v0 = items[0];
    let r0 = render_model(v0);
    assert(canonical(v0));
    assert(keep_idents || unit_free(v0));
    lemma_chars_within(s, i, e);
    if items.len() == 1 {
        assert(e == r0);
        assert(is_stop_char(close));
        lemma_parse_render(s, i, v0, keep_idents);
        lemma_parse_value_progress(s, i, keep_idents);
        assert(s[i + r0.len()] == close);
        assert(seq![v0] =~= items);
    } else {
        let rest = items.skip(1);
        let erest = render_elems(rest);
        assert(e == r0 + seq![','] + erest);
        lemma_slice_within(s, i, e, 0, r0.len() as int);
        assert(e.subrange(0, r0.len() as int) =~= r0);
        assert(s[i + r0.len()] == e[r0.len() as int]);
        assert(e[r0.len() as int] == ',');
        assert(is_stop_char(','));
        lemma_parse_render(s, i, v0, keep_idents);
        lemma_parse_value_progress(s, i, keep_idents);
        let j = i + r0.len();
        assert(s[j] != close) by {
            assert(',' as u32 == 44 && ')' as u32 == 41 && ']' as u32 == 93);
        }
        // the remaining elements parse back
        lemma_slice_within(s, i, e, r0.len() as int + 1, e.len() as int);
        assert(e.subrange(r0.len() as int + 1, e.len() as int) =~= erest);
        assert(s.subrange(j + 1, j + 1 + erest.len()) == erest);
        assert(forall|m: int| 0 <= m < rest.len() ==> rest[m] == items[m + 1]);
        assert(canonical_elems(rest)) by {
            lemma_canonical_elems(rest);
        }
        assert(keep_idents || unit_free_elems(rest)) by {
            lemma_unit_free_elems(rest);
        }
        assert(j + 1 + erest.len() == end);
        lemma_parse_elems_render(s, j + 1, rest, close, keep_idents);
        assert(seq![v0] + rest =~= items);
    }
}

/// Completeness for field lists: the rendering of a canonical, non-empty
/// field list followed by `)` parses back to exactly those fields.
pub proof fn lemma_parse_fields_render(
    s: Seq<char>,
    i: int,
    fields: Seq<(Seq<char>, ValueModel)>,
    keep_idents: bool,
)
    requires
        fields.len() > 0,
        canonical_fields(fields),
        keep_idents || unit_free_fields(fields),
        0 <= i,
        i + render_fields(fields).len() < s.len(),
        s.subrange(i, i + render_fields(fields).len()) == render_fields(fields),
        s[i + render_fields(fields).len()] == ')',
    ensures
        spec_parse_fields(s, i, keep_idents, false) == Some(
            (fields, i + render_fields(fields).len() + 1),
        ),
    decreases fields,
{
    let e = render_fields(fields);
    let end = i + e.len();
    lemma_canonical_fields(fields);
    lemma_unit_free_fields(fields);
    lemma_render_fields_first(fields);
    let name0 = fields[0].0;
    let v0 = fields[0].1;
    let r0 = render_model(v0);
    assert(valid_ident(name0) && canonical(v0));
    assert(keep_idents || unit_free(v0));
    lemma_chars_within(s, i, e);
    // the name scans exactly
    assert forall|m: int| i <= m < i + name0.len() implies is_ident_char(#[trigger] s[m]) by {
        assert(s[i + (m - i)] == e[m - i]);
        assert(e[m - i] == name0[m - i]);
    }
    assert(s[i + name0.len()] == e[name0.len() as int]);
    assert(e[name0.len() as int] == ':');
    assert(!is_ident_char(':')) by {
        assert(':' as u32 == 58);
    }
    lemma_scan_ident_exact(s, i, i + name0.len());
    assert(is_ident_start(s[i])) by {
        assert(s[i + 0] == e[0]);
        assert(e[0] == name0[0]);
    }
    let j = i + name0.len();
    assert(s.subrange(i, j) =~= name0) by {
        lemma_slice_within(s, i, e, 0, name0.len() as int);
        assert(e.subrange(0, name0.len() as int) =~= name0);
    }
    // the field's value parses back
    let vstart = j + 1;
    lemma_slice_within(s, i, e, name0.len() as int + 1, name0.len() as int + 1 + r0.len());
    assert(e.subrange(name0.len() as int + 1, name0.len() as int + 1 + r0.len()) =~= r0);
    assert(s.subrange(vstart, vstart + r0.len()) == r0);
    let vend = vstart + r0.len();
    if fields.len() == 1 {
        assert(e.len() == name0.len() + 1 + r0.len());
        assert(s[vend] == ')');
        assert(is_stop_char(')'));
        lemma_parse_render(s, vstart, v0, keep_idents);
        lemma_parse_value_progress(s, vstart, keep_idents);
        assert(seq![(name0, v0)] =~= fields);
        assert((name0, v0) == fields[0]);
    } else {
        let rest = fields.skip(1);
        let erest = render_fields(rest);
        assert(e == name0 + seq![':'] + r0 + seq![','] + erest);
        assert(s[vend] == e[vend - i]);
        assert(e[vend - i] == ',');
        assert(is_stop_char(','));
        lemma_parse_render(s, vstart, v0, keep_idents);
        lemma_parse_value_progress(s, vstart, keep_idents);
        assert(s[vend] != ')') by {
            assert(',' as u32 == 44 && ')' as u32 == 41);
        }
        lemma_slice_within(s, i, e, vend - i + 1, e.len() as int);
        assert(e.subrange(vend - i + 1, e.len() as int) =~= erest);
        assert(s.subrange(vend + 1, vend + 1 + erest.len()) == erest);
        assert(canonical_fields(rest)) by {
            lemma_canonical_fields(rest);
            assert(forall|m: int| 0 <= m < rest.len() ==> rest[m] == fields[m + 1]);
        }
        assert(keep_idents || unit_free_fields(rest)) by {
            lemma_unit_free_fields(rest);
        }
        assert(vend + 1 + erest.len() == end);
        lemma_parse_fields_render(s, vend + 1, rest, keep_idents);
        assert(seq![(name0, v0)] + rest =~= fields);
        assert((name0, v0) == fields[0]);
    }
}

/// Sequence-to-tuple equivalence: a bracketed sequence and the
/// parenthesized tuple written from the same elements parse to exactly the
/// same structural value. This is what makes the fallback path's
/// bracket-to-parenthesis rewrite sound.
pub proof fn lemma_sequence_to_tuple(items: Seq<ValueModel>)
    requires
        items.len() > 0,
        canonical_elems(items),
    ensures
        spec_parse_text(seq!['['] + render_elems(items) + seq![']'], true) == Some(
            ValueModel::ListV(items),
        ),
        spec_parse_text(seq!['('] + render_elems(items) + seq![')'], true) == Some(
            ValueModel::ListV(items),
        ),
{
    lemma_component_text_round_trip(ValueModel::ListV(items));
    let e = render_elems(items);
    let s = seq!['['] + e + seq![']'];
    assert(s.len() == e.len() + 2);
    assert(s[0] == '[');
    assert(s[0] != '"' && s[0] != '-' && !is_digit(s[0]) && s[0] != '(') by {
        assert('[' as u32 == 91 && '"' as u32 == 34 && '-' as u32 == 45 && '(' as u32 == 40);
    }
    assert(s.subrange(1, 1 + e.len() as int) =~= e) by {
        assert forall|k: int| 0 <= k < e.len() implies s.subrange(1, 1 + e.len() as int)[k] == e[k]
            by {
            assert(s.subrange(1, 1 + e.len() as int)[k] == s[1 + k]);
            assert(s[1 + k] == e[k]);
        }
    }
    assert(s[1 + e.len() as int] == ']');
    lemma_parse_elems_render(s, 1, items, ']', true);
    assert(spec_parse_value(s, 0, true) == Some((ValueModel::ListV(items), s.len() as int)));
}

/// Round-trip idempotence of the component text format: parsing the
/// canonical rendering of any canonical structured value (with identifier
/// tokens kept) yields exactly that value, consuming the whole text.
pub proof fn lemma_component_text_round_trip(v: ValueModel)
    requires
        canonical(v),
    ensures
        spec_parse_text(render_model(v), true) == Some(v),
{
    let s = render_model(v);
    assert(s.subrange(0, s.len() as int) =~= s);
    lemma_parse_render(s, 0, v, true);
}

/// The generic parse reads a canonical, unit-free rendering back just as
/// faithfully: with no unit constituent there is no identifier to erase.
pub proof fn lemma_component_text_round_trip_generic(v: ValueModel)
    requires
        canonical(v),
        unit_free(v),
    ensures
        spec_parse_text(render_model(v), false) == Some(v),
{
    let s = render_model(v);
    assert(s.subrange(0, s.len() as int) =~= s);
    lemma_parse_render(s, 0, v, false);
}

} // verus!
