//! Parsing persisted component text back into structured values.
//!
//! One grammar covers both text forms the editor meets: the component
//! grammar itself (parenthesized field lists, tuples, unit identifiers,
//! quoted strings, literal tokens) and the persisted entity record around it
//! (a braced map from quoted type names to values, bracketed sequences).
//!
//! The parse comes in two modes. A faithful parse keeps a unit value's
//! identifier token, as the typed deserializer needs it. A generic parse of
//! a persisted blob erases the identifier — it reports only that a unit
//! value stood there — which is why the extraction fallback must recover the
//! token from the raw text.
//!
//! The specification-level parser here is the meaning of the grammar; the
//! executable parser is proved equal to it.

use vstd::prelude::*;
use crate::value::{StructuredValue, ValueModel, view_of, view_of_list, view_of_fields,
    lemma_view_of_list, lemma_view_of_fields, lemma_view_of_list_insert_front,
    lemma_view_of_fields_insert_front};
use crate::format::{is_digit, is_ident_start, is_ident_char, push_char, str_to_chars,
    chars_to_string};

verus! {

/// A character that may legitimately follow a complete value: a separator or
/// a closing delimiter.
pub open spec fn is_stop_char(c: char) -> bool {
    c == ',' || c == ')' || c == ']' || c == '}'
}

/// The index just past the run of decimal digits starting at `i`.
pub open spec fn scan_digits(s: Seq<char>, i: int) -> int
    decreases s.len() - i,
{
    if i < 0 || i >= s.len() || !is_digit(s[i]) {
        i
    } else {
        scan_digits(s, i + 1)
    }
}

/// The index just past the run of identifier characters starting at `i`.
pub open spec fn scan_ident_chars(s: Seq<char>, i: int) -> int
    decreases s.len() - i,
{
    if i < 0 || i >= s.len() || !is_ident_char(s[i]) {
        i
    } else {
        scan_ident_chars(s, i + 1)
    }
}

/// Scan a numeric literal starting at `i`: an optional minus sign, digits,
/// and an optional fractional part. Returns the index just past the token.
pub open spec fn scan_number(s: Seq<char>, i: int) -> Option<int> {
    let start = if i < s.len() && s[i] == '-' {
        i + 1
    } else {
        i
    };
    let j = scan_digits(s, start);
    if j == start {
        None
    } else if j < s.len() && s[j] == '.' {
        let k = scan_digits(s, j + 1);
        if k == j + 1 {
            None
        } else {
            Some(k)
        }
    } else {
        Some(j)
    }
}

/// Scan a quoted string's body starting at `i` (just past the opening
/// quote): characters up to the closing quote, with `\"` and `\\` escapes.
/// Returns the unescaped content and the index just past the closing quote.
pub open spec fn scan_string_body(s: Seq<char>, i: int) -> Option<(Seq<char>, int)>
    decreases s.len() - i,
{
    if i < 0 || i >= s.len() {
        None
    } else if s[i] == '"' {
        Some((Seq::empty(), i + 1))
    } else if s[i] == '\\' {
        if i + 1 < s.len() && (s[i + 1] == '"' || s[i + 1] == '\\') {
            match scan_string_body(s, i + 2) {
                Some((t, j)) => Some((seq![s[i + 1]] + t, j)),
                None => None,
            }
        } else {
            None
        }
    } else {
        match scan_string_body(s, i + 1) {
            Some((t, j)) => Some((seq![s[i]] + t, j)),
            None => None,
        }
    }
}

/// Parse one value starting at `i`. When `keep_idents` is false the parse is
/// generic and erases a unit value's identifier token.
pub open spec fn spec_parse_value(s: Seq<char>, i: int, keep_idents: bool) -> Option<
    (ValueModel, int),
>
    decreases s.len() - i, 3int,
{
    if i < 0 || i >= s.len() {
        None
    } else if s[i] == '"' {
        match scan_string_body(s, i + 1) {
            Some((t, j)) => Some((ValueModel::TextV(t), j)),
            None => None,
        }
    } else if s[i] == '-' || is_digit(s[i]) {
        match scan_number(s, i) {
            Some(j) => Some((ValueModel::NumberV(s.subrange(i, j)), j)),
            None => None,
        }
    } else if s[i] == '(' {
        if i + 1 < s.len() && s[i + 1] == ')' {
            Some((ValueModel::UnitV("()"@), i + 2))
        } else {
            let j = scan_ident_chars(s, i + 1);
            if j > i + 1 && j < s.len() && s[j] == ':' {
                match spec_parse_fields(s, i + 1, keep_idents, false) {
                    Some((fields, k)) => Some((ValueModel::RecordV(fields), k)),
                    None => None,
                }
            } else {
                match spec_parse_elems(s, i + 1, keep_idents, ')') {
                    Some((items, k)) => Some((ValueModel::ListV(items), k)),
                    None => None,
                }
            }
        }
    } else if s[i] == '[' {
        match spec_parse_elems(s, i + 1, keep_idents, ']') {
            Some((items, k)) => Some((ValueModel::ListV(items), k)),
            None => None,
        }
    } else if s[i] == '{' {
        match spec_parse_fields(s, i + 1, keep_idents, true) {
            Some((fields, k)) => Some((ValueModel::RecordV(fields), k)),
            None => None,
        }
    } else if is_ident_start(s[i]) {
        let j = scan_ident_chars(s, i);
        let tok = s.subrange(i, j);
        if tok == "true"@ {
            Some((ValueModel::BoolV(true), j))
        } else if tok == "false"@ {
            Some((ValueModel::BoolV(false), j))
        } else if keep_idents {
            Some((ValueModel::UnitV(tok), j))
        } else {
            Some((ValueModel::UnitV(Seq::empty()), j))
        }
    } else {
        None
    }
}

/// Parse a comma-separated, non-empty list of values starting at `i`, up to
/// and including the closing delimiter `close`.
pub open spec fn spec_parse_elems(s: Seq<char>, i: int, keep_idents: bool, close: char) -> Option<
    (Seq<ValueModel>, int),
>
    decreases s.len() - i, 4int,
{
    match spec_parse_value(s, i, keep_idents) {
        None => None,
        Some((v, j)) => {
            if j <= i {
                None
            } else if j < s.len() && s[j] == close {
                Some((seq![v], j + 1))
            } else if j < s.len() && s[j] == ',' {
                match spec_parse_elems(s, j + 1, keep_idents, close) {
                    Some((rest, k)) => Some((seq![v] + rest, k)),
                    None => None,
                }
            } else {
                None
            }
        },
    }
}

/// Parse a comma-separated, non-empty field list starting at `i`. A field is
/// `name:value`; with `quoted_keys` the name is a quoted string and the list
/// closes with `}` (the persisted record form), otherwise the name is a bare
/// identifier and the list closes with `)` (the component struct form).
pub open spec fn spec_parse_fields(s: Seq<char>, i: int, keep_idents: bool, quoted_keys: bool)
    -> Option<(Seq<(Seq<char>, ValueModel)>, int)>
    decreases s.len() - i, 4int,
{
    let key = if quoted_keys {
        if i < s.len() && s[i] == '"' {
            scan_string_body(s, i + 1)
        } else {
            None
        }
    } else {
        let j = scan_ident_chars(s, i);
        if 0 <= i < j && is_ident_start(s[i]) {
            Some((s.subrange(i, j), j))
        } else {
            None
        }
    };
    match key {
        None => None,
        Some((name, j)) => {
            if j <= i || j >= s.len() || s[j] != ':' {
                None
            } else {
                match spec_parse_value(s, j + 1, keep_idents) {
                    None => None,
                    Some((v, k)) => {
                        if k <= j {
                            None
                        } else if k < s.len() && s[k] == (if quoted_keys {
                            '}'
                        } else {
                            ')'
                        }) {
                            Some((seq![(name, v)], k + 1))
                        } else if k < s.len() && s[k] == ',' {
                            match spec_parse_fields(s, k + 1, keep_idents, quoted_keys) {
                                Some((rest, m)) => Some((seq![(name, v)] + rest, m)),
                                None => None,
                            }
                        } else {
                            None
                        }
                    },
                }
            }
        },
    }
}

/// The digit scanner stays within the text and never moves backwards.
pub proof fn lemma_scan_digits_bounds(s: Seq<char>, i: int)
    requires
        0 <= i <= s.len(),
    ensures
        i <= scan_digits(s, i) <= s.len(),
    decreases s.len() - i,
{
    if i < s.len() && is_digit(s[i]) {
        lemma_scan_digits_bounds(s, i + 1);
    }
}

/// The identifier scanner stays within the text and never moves backwards.
pub proof fn lemma_scan_ident_chars_bounds(s: Seq<char>, i: int)
    requires
        0 <= i <= s.len(),
    ensures
        i <= scan_ident_chars(s, i) <= s.len(),
    decreases s.len() - i,
{
    if i < s.len() && is_ident_char(s[i]) {
        lemma_scan_ident_chars_bounds(s, i + 1);
    }
}

/// A scanned numeric literal consumes at least one character and stays
/// within the text.
pub proof fn lemma_scan_number_bounds(s: Seq<char>, i: int)
    requires
        0 <= i <= s.len(),
    ensures
        match scan_number(s, i) {
            Some(j) => i < j <= s.len(),
            None => true,
        },
{
    let start = if i < s.len() && s[i] == '-' {
        i + 1
    } else {
        i
    };
    lemma_scan_digits_bounds(s, start);
    let j = scan_digits(s, start);
    if j > start && j < s.len() && s[j] == '.' {
        lemma_scan_digits_bounds(s, j + 1);
    }
}

/// A scanned string body consumes at least its closing quote and stays
/// within the text.
pub proof fn lemma_scan_string_body_bounds(s: Seq<char>, i: int)
    requires
        0 <= i <= s.len(),
    ensures
        match scan_string_body(s, i) {
            Some((t, j)) => i < j <= s.len(),
            None => true,
        },
    decreases s.len() - i,
{
    if i < s.len() {
        if s[i] == '"' {
        } else if s[i] == '\\' {
            if i + 1 < s.len() && (s[i + 1] == '"' || s[i + 1] == '\\') {
                lemma_scan_string_body_bounds(s, i + 2);
            }
        } else {
            lemma_scan_string_body_bounds(s, i + 1);
        }
    }
}

/// A successful parse consumes at least one character and stays within the
/// text.
pub proof fn lemma_parse_value_progress(s: Seq<char>, i: int, keep_idents: bool)
    requires
        0 <= i,
    ensures
        match spec_parse_value(s, i, keep_idents) {
            Some((v, j)) => i < j <= s.len(),
            None => true,
        },
    decreases s.len() - i, 3int,
{
    if i < s.len() {
        if s[i] == '"' {
            lemma_scan_string_body_bounds(s, i + 1);
        } else if s[i] == '-' || is_digit(s[i]) {
            lemma_scan_number_bounds(s, i);
        } else if s[i] == '(' {
            if !(i + 1 < s.len() && s[i + 1] == ')') {
                lemma_scan_ident_chars_bounds(s, i + 1);
                let j = scan_ident_chars(s, i + 1);
                if j > i + 1 && j < s.len() && s[j] == ':' {
                    lemma_parse_fields_progress(s, i + 1, keep_idents, false);
                } else {
                    lemma_parse_elems_progress(s, i + 1, keep_idents, ')');
                }
            }
        } else if s[i] == '[' {
            lemma_parse_elems_progress(s, i + 1, keep_idents, ']');
        } else if s[i] == '{' {
            lemma_parse_fields_progress(s, i + 1, keep_idents, true);
        } else if is_ident_start(s[i]) {
            assert(is_ident_char(s[i]));
            assert(scan_ident_chars(s, i) == scan_ident_chars(s, i + 1));
            lemma_scan_ident_chars_bounds(s, i + 1);
        }
    }
}

/// A successful element-list parse consumes at least its closing delimiter
/// and stays within the text.
pub proof fn lemma_parse_elems_progress(s: Seq<char>, i: int, keep_idents: bool, close: char)
    requires
        0 <= i,
    ensures
        match spec_parse_elems(s, i, keep_idents, close) {
            Some((items, j)) => i < j <= s.len(),
            None => true,
        },
    decreases s.len() - i, 4int,
{
    lemma_parse_value_progress(s, i, keep_idents);
    match spec_parse_value(s, i, keep_idents) {
        None => {},
        Some((v, j)) => {
            if i < j && j < s.len() && s[j] == ',' {
                lemma_parse_elems_progress(s, j + 1, keep_idents, close);
            }
        },
    }
}

/// A successful field-list parse consumes at least its closing delimiter and
/// stays within the text.
pub proof fn lemma_parse_fields_progress(s: Seq<char>, i: int, keep_idents: bool, quoted_keys: bool)
    requires
        0 <= i,
    ensures
        match spec_parse_fields(s, i, keep_idents, quoted_keys) {
            Some((fields, j)) => i < j <= s.len(),
            None => true,
        },
    decreases s.len() - i, 4int,
{
    if quoted_keys {
        if i < s.len() && s[i] == '"' {
            lemma_scan_string_body_bounds(s, i + 1);
        }
    } else {
        if i <= s.len() {
            lemma_scan_ident_chars_bounds(s, i);
        }
    }
    let key = if quoted_keys {
        if i < s.len() && s[i] == '"' {
            scan_string_body(s, i + 1)
        } else {
            None
        }
    } else {
        let j = scan_ident_chars(s, i);
        if 0 <= i < j && is_ident_start(s[i]) {
            Some((s.subrange(i, j), j))
        } else {
            None
        }
    };
    match key {
        None => {},
        Some((name, j)) => {
            if i < j && j < s.len() && s[j] == ':' {
                lemma_parse_value_progress(s, j + 1, keep_idents);
                match spec_parse_value(s, j + 1, keep_idents) {
                    None => {},
                    Some((v, k)) => {
                        if j < k && k < s.len() && s[k] == ',' {
                            lemma_parse_fields_progress(s, k + 1, keep_idents, quoted_keys);
                        }
                    },
                }
            }
        },
    }
}

/// Whether `c` is a decimal digit.
fn is_digit_exec(c: char) -> (b: bool)
    ensures
        b == is_digit(c),
{
    let u = c as u32;
    48 <= u && u <= 57
}

/// Whether `c` may start an identifier.
fn is_ident_start_exec(c: char) -> (b: bool)
    ensures
        b == is_ident_start(c),
{
    let u = c as u32;
    (65 <= u && u <= 90) || (97 <= u && u <= 122) || c == '_'
}

/// Whether `c` may continue an identifier.
fn is_ident_char_exec(c: char) -> (b: bool)
    ensures
        b == is_ident_char(c),
{
    is_ident_start_exec(c) || is_digit_exec(c)
}

/// Skip past the run of decimal digits starting at `i`.
fn scan_digits_at(s: &Vec<char>, i: usize) -> (j: usize)
    requires
        i <= s.len(),
    ensures
        j == scan_digits(s@, i as int),
        i <= j <= s.len(),
{
    let mut j = i;
    while j < s.len() && is_digit_exec(s[j])
        invariant
            i <= j <= s.len(),
            scan_digits(s@, i as int) == scan_digits(s@, j as int),
        decreases s.len() - j,
    {
        j = j + 1;
    }
    j
}

/// Skip past the run of identifier characters starting at `i`.
fn scan_ident_chars_at(s: &Vec<char>, i: usize) -> (j: usize)
    requires
        i <= s.len(),
    ensures
        j == scan_ident_chars(s@, i as int),
        i <= j <= s.len(),
{
    let mut j = i;
    while j < s.len() && is_ident_char_exec(s[j])
        invariant
            i <= j <= s.len(),
            scan_ident_chars(s@, i as int) == scan_ident_chars(s@, j as int),
        decreases s.len() - j,
    {
        j = j + 1;
    }
    j
}

/// Scan a numeric literal starting at `i`.
fn scan_number_at(s: &Vec<char>, i: usize) -> (r: Option<usize>)
    requires
        i <= s.len(),
    ensures
        match r {
            Some(j) => scan_number(s@, i as int) == Some(j as int) && i < j <= s.len(),
            None => scan_number(s@, i as int) is None,
        },
{
    let start = if i < s.len() && s[i] == '-' {
        i + 1
    } else {
        i
    };
    let j = scan_digits_at(s, start);
    if j == start {
        None
    } else if j < s.len() && s[j] == '.' {
        let k = scan_digits_at(s, j + 1);
        if k == j + 1 {
            None
        } else {
            Some(k)
        }
    } else {
        Some(j)
    }
}

/// Scan a quoted string's body starting at `i` (just past the opening
/// quote), unescaping as it goes.
fn scan_string_body_at(s: &Vec<char>, i: usize) -> (r: Option<(String, usize)>)
    requires
        i <= s.len(),
    ensures
        match r {
            Some((t, j)) => scan_string_body(s@, i as int) == Some((t@, j as int)) && i < j
                <= s.len(),
            None => scan_string_body(s@, i as int) is None,
        },
{
    let mut acc = String::new();
    let mut j = i;
    loop
        invariant
            i <= j <= s.len(),
            scan_string_body(s@, i as int) == (match scan_string_body(s@, j as int) {
                Some((t, k)) => Some((acc@ + t, k)),
                None => None::<(Seq<char>, int)>,
            }),
        decreases s.len() - j,
    {
        if j >= s.len() {
            return None;
        }
        let c = s[j];
        if c == '"' {
            proof {
                assert(acc@ + Seq::<char>::empty() =~= acc@);
            }
            return Some((acc, j + 1));
        } else if c == '\\' {
            if j + 1 < s.len() && (s[j + 1] == '"' || s[j + 1] == '\\') {
                let e = s[j + 1];
                let ghost acc0 = acc@;
                push_char(&mut acc, e);
                proof {
                    if scan_string_body(s@, j + 2 as int) is Some {
                        let (t, k) = scan_string_body(s@, j + 2 as int)->Some_0;
                        assert(acc@ + t =~= acc0 + (seq![e] + t));
                    }
                }
                j = j + 2;
            } else {
                return None;
            }
        } else {
            let ghost acc0 = acc@;
            push_char(&mut acc, c);
            proof {
                if scan_string_body(s@, j + 1 as int) is Some {
                    let (t, k) = scan_string_body(s@, j + 1 as int)->Some_0;
                    assert(acc@ + t =~= acc0 + (seq![c] + t));
                }
            }
            j = j + 1;
        }
    }
}

/// Parse one value starting at `i`, returning the value and the index just
/// past it.
pub fn parse_value_at(s: &Vec<char>, i: usize, keep_idents: bool) -> (r: Option<
    (StructuredValue, usize),
>)
    requires
        i <= s.len(),
    ensures
        match r {
            Some(p) => spec_parse_value(s@, i as int, keep_idents) == Some(
                (view_of(p.0), p.1 as int),
            ) && i < p.1 <= s.len(),
            None => spec_parse_value(s@, i as int, keep_idents) is None,
        },
    decreases s@.len() - i, 3int,
{
    proof {
        lemma_parse_value_progress(s@, i as int, keep_idents);
    }
    if i >= s.len() {
        return None;
    }
    let c = s[i];
    if c == '"' {
        match scan_string_body_at(s, i + 1) {
            Some((t, j)) => Some((StructuredValue::Text(t), j)),
            None => None,
        }
    } else if c == '-' || is_digit_exec(c) {
        match scan_number_at(s, i) {
            Some(j) => {
                let tok = chars_to_string(s, i, j);
                Some((StructuredValue::Number(tok), j))
            },
            None => None,
        }
    } else if c == '(' {
        if i + 1 < s.len() && s[i + 1] == ')' {
            let tok = String::from_str("()");
            Some((StructuredValue::UnitIdent(tok), i + 2))
        } else {
            let j = scan_ident_chars_at(s, i + 1);
            if j > i + 1 && j < s.len() && s[j] == ':' {
                match parse_fields_at(s, i + 1, keep_idents, false) {
                    Some((fields, k)) => Some((StructuredValue::Record(fields), k)),
                    None => None,
                }
            } else {
                match parse_elems_at(s, i + 1, keep_idents, ')') {
                    Some((items, k)) => Some((StructuredValue::List(items), k)),
                    None => None,
                }
            }
        }
    } else if c == '[' {
        match parse_elems_at(s, i + 1, keep_idents, ']') {
            Some((items, k)) => Some((StructuredValue::List(items), k)),
            None => None,
        }
    } else if c == '{' {
        match parse_fields_at(s, i + 1, keep_idents, true) {
            Some((fields, k)) => Some((StructuredValue::Record(fields), k)),
            None => None,
        }
    } else if is_ident_start_exec(c) {
        let j = scan_ident_chars_at(s, i);
        let tok = chars_to_string(s, i, j);
        let true_lit = String::from_str("true");
        let false_lit = String::from_str("false");
        if tok.eq(&true_lit) {
            Some((StructuredValue::Boolean(true), j))
        } else if tok.eq(&false_lit) {
            Some((StructuredValue::Boolean(false), j))
        } else if keep_idents {
            Some((StructuredValue::UnitIdent(tok), j))
        } else {
            Some((StructuredValue::UnitIdent(String::new()), j))
        }
    } else {
        None
    }
}

/// Parse a comma-separated, non-empty list of values starting at `i`, up to
/// and including the closing delimiter `close`.
fn parse_elems_at(s: &Vec<char>, i: usize, keep_idents: bool, close: char) -> (r: Option<
    (Vec<StructuredValue>, usize),
>)
    requires
        i <= s.len(),
    ensures
        match r {
            Some(p) => spec_parse_elems(s@, i as int, keep_idents, close) == Some(
                (view_of_list(p.0@), p.1 as int),
            ) && i < p.1 <= s.len(),
            None => spec_parse_elems(s@, i as int, keep_idents, close) is None,
        },
    decreases s@.len() - i, 4int,
{
    match parse_value_at(s, i, keep_idents) {
        None => None,
        Some((v, j)) => {
            if j < s.len() && s[j] == close {
                let mut items: Vec<StructuredValue> = Vec::new();
                items.push(v);
                proof {
                    lemma_view_of_list(items@);
                    assert(view_of_list(items@) =~= seq![view_of(v)]);
                }
                Some((items, j + 1))
            } else if j < s.len() && s[j] == ',' {
                match parse_elems_at(s, j + 1, keep_idents, close) {
                    Some((mut rest, k)) => {
                        let ghost old_rest = rest@;
                        rest.insert(0, v);
                        proof {
                            lemma_view_of_list_insert_front(v, old_rest);
                        }
                        Some((rest, k))
                    },
                    None => None,
                }
            } else {
                None
            }
        },
    }
}

/// Parse a comma-separated, non-empty field list starting at `i`: bare
/// identifier keys closed by `)`, or quoted keys closed by `}`.
fn parse_fields_at(s: &Vec<char>, i: usize, keep_idents: bool, quoted_keys: bool) -> (r: Option<
    (Vec<(String, StructuredValue)>, usize),
>)
    requires
        i <= s.len(),
    ensures
        match r {
            Some(p) => spec_parse_fields(s@, i as int, keep_idents, quoted_keys) == Some(
                (view_of_fields(p.0@), p.1 as int),
            ) && i < p.1 <= s.len(),
            None => spec_parse_fields(s@, i as int, keep_idents, quoted_keys) is None,
        },
    decreases s@.len() - i, 4int,
{
    let key: Option<(String, usize)> = if quoted_keys {
        if i < s.len() && s[i] == '"' {
            scan_string_body_at(s, i + 1)
        } else {
            None
        }
    } else {
        let j = scan_ident_chars_at(s, i);
        if i < j && is_ident_start_exec(s[i]) {
            Some((chars_to_string(s, i, j), j))
        } else {
            None
        }
    };
    match key {
        None => None,
        Some((name, j)) => {
            if j >= s.len() {
                return None;
            }
            if s[j] != ':' {
                return None;
            }
            proof {
                lemma_parse_value_progress(s@, j + 1 as int, keep_idents);
            }
            match parse_value_at(s, j + 1, keep_idents) {
                None => None,
                Some((v, k)) => {
                    let closer = if quoted_keys {
                        '}'
                    } else {
                        ')'
                    };
                    if k < s.len() && s[k] == closer {
                        let mut fields: Vec<(String, StructuredValue)> = Vec::new();
                        fields.push((name, v));
                        proof {
                            lemma_view_of_fields(fields@);
                            assert(view_of_fields(fields@) =~= seq![(fields@[0].0@, view_of(
                                fields@[0].1,
                            ))]);
                        }
                        Some((fields, k + 1))
                    } else if k < s.len() && s[k] == ',' {
                        match parse_fields_at(s, k + 1, keep_idents, quoted_keys) {
                            Some((mut rest, m)) => {
                                let ghost old_rest = rest@;
                                let ghost f = (name, v);
                                rest.insert(0, (name, v));
                                proof {
                                    lemma_view_of_fields_insert_front(f, old_rest);
                                }
                                Some((rest, m))
                            },
                            None => None,
                        }
                    } else {
                        None
                    }
                },
            }
        },
    }
}

/// Parse a complete text as one structured value. The whole text must be
/// consumed; when `keep_idents` is false the parse is generic and erases a
/// unit value's identifier token.
pub open spec fn spec_parse_text(s: Seq<char>, keep_idents: bool) -> Option<ValueModel> {
    match spec_parse_value(s, 0, keep_idents) {
        Some((v, j)) => if j == s.len() {
            Some(v)
        } else {
            None
        },
        None => None,
    }
}

/// Parse a complete text as one structured value; the whole text must be
/// consumed.
pub fn parse_structured_text(text: &str, keep_idents: bool) -> (r: Option<StructuredValue>)
    ensures
        match r {
            Some(v) => spec_parse_text(text@, keep_idents) == Some(view_of(v)),
            None => spec_parse_text(text@, keep_idents) is None,
        },
{
    let chars = str_to_chars(text);
    match parse_value_at(&chars, 0, keep_idents) {
        Some((v, j)) => {
            if j == chars.len() {
                Some(v)
            } else {
                None
            }
        },
        None => None,
    }
}

} // verus!
