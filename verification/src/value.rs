//! The structured-value tree: a generic, dynamically typed representation of
//! one component's data, independent of any concrete component type.
//!
//! A reflected component's content, and the generic parse of a persisted
//! blob, are both values of this shape: text, numeric and boolean literal
//! tokens, unit values, sequences, and field records. Numeric literals are
//! kept as their source tokens, so a value round-trips through text without
//! re-formatting.

use vstd::prelude::*;

verus! {

/// Mathematical model of a structured value, used by every contract in the
/// crate. Executable values abstract to this shape through [`DeepView`].
pub enum ValueModel {
    /// A string value.
    TextV(Seq<char>),
    /// A numeric literal, kept as its source token (for example `50.0`).
    NumberV(Seq<char>),
    /// A boolean value.
    BoolV(bool),
    /// A unit value together with its identifier token (for example
    /// `MyMarker`, or `()` for a zero-field unit struct). A generic parse of
    /// persisted text erases the identifier and leaves the token empty.
    UnitV(Seq<char>),
    /// A sequence of values (a tuple struct or a list-typed field).
    ListV(Seq<ValueModel>),
    /// A record of named fields, in order.
    RecordV(Seq<(Seq<char>, ValueModel)>),
}

/// A structured value as held at run time: the opaque content of a reflected
/// component, or the result of generically parsing a persisted blob.
pub enum StructuredValue {
    /// A string value.
    Text(String),
    /// A numeric literal, kept as its source token.
    Number(String),
    /// A boolean value.
    Boolean(bool),
    /// A unit value with its identifier token; empty when the identifier was
    /// erased by a generic parse.
    UnitIdent(String),
    /// A sequence of values.
    List(Vec<StructuredValue>),
    /// A record of named fields, in order.
    Record(Vec<(String, StructuredValue)>),
}

/// The model a [`StructuredValue`] stands for.
pub open spec fn view_of(v: StructuredValue) -> ValueModel
    decreases v,
{
    match v {
        StructuredValue::Text(s) => ValueModel::TextV(s@),
        StructuredValue::Number(t) => ValueModel::NumberV(t@),
        StructuredValue::Boolean(b) => ValueModel::BoolV(b),
        StructuredValue::UnitIdent(t) => ValueModel::UnitV(t@),
        StructuredValue::List(items) => ValueModel::ListV(view_of_list(items@)),
        StructuredValue::Record(fields) => ValueModel::RecordV(view_of_fields(fields@)),
    }
}

/// The models of a sequence of values, element by element.
pub open spec fn view_of_list(items: Seq<StructuredValue>) -> Seq<ValueModel>
    decreases items,
{
    if items.len() == 0 {
        Seq::empty()
    } else {
        view_of_list(items.drop_last()).push(view_of(items.last()))
    }
}

/// The models of a sequence of named fields, element by element.
pub open spec fn view_of_fields(fields: Seq<(String, StructuredValue)>) -> Seq<
    (Seq<char>, ValueModel),
>
    decreases fields,
{
    if fields.len() == 0 {
        Seq::empty()
    } else {
        view_of_fields(fields.drop_last()).push(
            (fields.last().0@, view_of(fields.last().1)),
        )
    }
}

/// Prepending an element prepends its model.
pub proof fn lemma_view_of_list_insert_front(v: StructuredValue, items: Seq<StructuredValue>)
    ensures
        view_of_list(items.insert(0, v)) == seq![view_of(v)] + view_of_list(items),
{
    lemma_view_of_list(items.insert(0, v));
    lemma_view_of_list(items);
    assert forall|i: int|
        0 <= i < items.len() + 1 implies view_of_list(items.insert(0, v))[i] == (seq![view_of(v)]
        + view_of_list(items))[i] by {
        if i == 0 {
            assert(items.insert(0, v)[0] == v);
        } else {
            assert(items.insert(0, v)[i] == items[i - 1]);
        }
    }
    assert(view_of_list(items.insert(0, v)) =~= seq![view_of(v)] + view_of_list(items));
}

/// Prepending a field prepends its model.
pub proof fn lemma_view_of_fields_insert_front(
    f: (String, StructuredValue),
    fields: Seq<(String, StructuredValue)>,
)
    ensures
        view_of_fields(fields.insert(0, f)) == seq![(f.0@, view_of(f.1))] + view_of_fields(fields),
{
    lemma_view_of_fields(fields.insert(0, f));
    lemma_view_of_fields(fields);
    assert forall|i: int|
        0 <= i < fields.len() + 1 implies view_of_fields(fields.insert(0, f))[i] == (seq![
        (f.0@, view_of(f.1)),
    ] + view_of_fields(fields))[i] by {
        if i == 0 {
            assert(fields.insert(0, f)[0] == f);
            assert(fields.insert(0, f)[0].0@ == f.0@);
        } else {
            assert(fields.insert(0, f)[i] == fields[i - 1]);
            assert(fields.insert(0, f)[i].0@ == fields[i - 1].0@);
        }
    }
    assert(view_of_fields(fields.insert(0, f)) =~= seq![(f.0@, view_of(f.1))] + view_of_fields(
        fields,
    ));
}

impl DeepView for StructuredValue {
    type V = ValueModel;

    open spec fn deep_view(&self) -> ValueModel {
        view_of(*self)
    }
}

/// A deep copy of a structured value: the copy has the same model.
#[verifier::loop_isolation(false)]
pub fn clone_value(v: &StructuredValue) -> (r: StructuredValue)
    ensures
        view_of(r) == view_of(*v),
    decreases v,
{
    match v {
        StructuredValue::Text(s) => StructuredValue::Text(s.clone()),
        StructuredValue::Number(t) => StructuredValue::Number(t.clone()),
        StructuredValue::Boolean(b) => StructuredValue::Boolean(*b),
        StructuredValue::UnitIdent(t) => StructuredValue::UnitIdent(t.clone()),
        StructuredValue::List(items) => {
            let n = items.len();
            let mut out: Vec<StructuredValue> = Vec::new();
            let mut i: usize = 0;
            while i < n
                invariant
                    0 <= i <= n,
                    out@.len() == i,
                    forall|j: int| 0 <= j < i ==> view_of(#[trigger] out@[j]) == view_of(items@[j]),
                decreases n - i,
            {
                proof {
                    assert(*v == StructuredValue::List(*items));
                    assert(decreases_to!(StructuredValue::List(*items) => *items));
                    assert(decreases_to!(*items => items@[i as int]));
                }
                let c = clone_value(&items[i]);
                out.push(c);
                i = i + 1;
            }
            proof {
                lemma_view_of_list(out@);
                lemma_view_of_list(items@);
                assert forall|j: int|
                    0 <= j < n implies view_of_list(out@)[j] == view_of_list(items@)[j] by {
                    assert(view_of_list(out@)[j] == view_of(out@[j]));
                    assert(view_of_list(items@)[j] == view_of(items@[j]));
                }
                assert(view_of_list(out@) =~= view_of_list(items@));
            }
            StructuredValue::List(out)
        },
        StructuredValue::Record(fields) => {
            let n = fields.len();
            let mut out: Vec<(String, StructuredValue)> = Vec::new();
            let mut i: usize = 0;
            while i < n
                invariant
                    0 <= i <= n,
                    out@.len() == i,
                    forall|j: int|
                        0 <= j < i ==> (#[trigger] out@[j].0@) == fields@[j].0@ && view_of(
                            out@[j].1,
                        ) == view_of(fields@[j].1),
                decreases n - i,
            {
                proof {
                    assert(*v == StructuredValue::Record(*fields));
                    assert(decreases_to!(StructuredValue::Record(*fields) => *fields));
                    assert(decreases_to!(*fields => fields@[i as int]));
                    assert(decreases_to!(fields@[i as int] => fields@[i as int].1));
                }
                let pair = &fields[i];
                let name = pair.0.clone();
                let c = clone_value(&pair.1);
                out.push((name, c));
                i = i + 1;
            }
            proof {
                lemma_view_of_fields(out@);
                lemma_view_of_fields(fields@);
                assert forall|j: int|
                    0 <= j < n implies view_of_fields(out@)[j] == view_of_fields(fields@)[j] by {
                    assert(view_of_fields(out@)[j] == (out@[j].0@, view_of(out@[j].1)));
                    assert(view_of_fields(fields@)[j] == (fields@[j].0@, view_of(fields@[j].1)));
                }
                assert(view_of_fields(out@) =~= view_of_fields(fields@));
            }
            StructuredValue::Record(out)
        },
    }
}

/// Structural equality of two structured values: true exactly when their
/// models coincide. Comparing values of different shapes is false, never an
/// error.
#[verifier::loop_isolation(false)]
pub fn structural_eq(a: &StructuredValue, b: &StructuredValue) -> (r: bool)
    ensures
        r == (view_of(*a) == view_of(*b)),
    decreases a,
{
    match (a, b) {
        (StructuredValue::Text(x), StructuredValue::Text(y)) => x.eq(y),
        (StructuredValue::Number(x), StructuredValue::Number(y)) => x.eq(y),
        (StructuredValue::Boolean(x), StructuredValue::Boolean(y)) => *x == *y,
        (StructuredValue::UnitIdent(x), StructuredValue::UnitIdent(y)) => x.eq(y),
        (StructuredValue::List(xs), StructuredValue::List(ys)) => {
            proof {
                lemma_view_of_list(xs@);
                lemma_view_of_list(ys@);
            }
            let n = xs.len();
            if n != ys.len() {
                return false;
            }
            let mut i: usize = 0;
            while i < n
                invariant
                    0 <= i <= n,
                    forall|j: int| 0 <= j < i ==> view_of(#[trigger] xs@[j]) == view_of(ys@[j]),
                decreases n - i,
            {
                proof {
                    assert(*a == StructuredValue::List(*xs));
                    assert(decreases_to!(StructuredValue::List(*xs) => *xs));
                    assert(decreases_to!(*xs => xs@[i as int]));
                }
                if !structural_eq(&xs[i], &ys[i]) {
                    proof {
                        assert(view_of_list(xs@)[i as int] != view_of_list(ys@)[i as int]);
                    }
                    return false;
                }
                i = i + 1;
            }
            proof {
                assert forall|j: int|
                    0 <= j < n implies view_of_list(xs@)[j] == view_of_list(ys@)[j] by {
                    assert(view_of_list(xs@)[j] == view_of(xs@[j]));
                    assert(view_of_list(ys@)[j] == view_of(ys@[j]));
                }
                assert(view_of_list(xs@) =~= view_of_list(ys@));
            }
            true
        },
        (StructuredValue::Record(xs), StructuredValue::Record(ys)) => {
            proof {
                lemma_view_of_fields(xs@);
                lemma_view_of_fields(ys@);
            }
            let n = xs.len();
            if n != ys.len() {
                return false;
            }
            let mut i: usize = 0;
            while i < n
                invariant
                    0 <= i <= n,
                    forall|j: int|
                        0 <= j < i ==> (#[trigger] xs@[j].0@) == ys@[j].0@ && view_of(xs@[j].1)
                            == view_of(ys@[j].1),
                decreases n - i,
            {
                proof {
                    assert(*a == StructuredValue::Record(*xs));
                    assert(decreases_to!(StructuredValue::Record(*xs) => *xs));
                    assert(decreases_to!(*xs => xs@[i as int]));
                    assert(decreases_to!(xs@[i as int] => xs@[i as int].1));
                }
                let xp = &xs[i];
                let yp = &ys[i];
                if !xp.0.eq(&yp.0) {
                    proof {
                        assert(view_of_fields(xs@)[i as int] != view_of_fields(ys@)[i as int]);
                    }
                    return false;
                }
                if !structural_eq(&xp.1, &yp.1) {
                    proof {
                        assert(view_of_fields(xs@)[i as int] != view_of_fields(ys@)[i as int]);
                    }
                    return false;
                }
                proof {
                    assert(xs@[i as int].0@ == ys@[i as int].0@);
                    assert(view_of(xs@[i as int].1) == view_of(ys@[i as int].1));
                }
                i = i + 1;
            }
            proof {
                assert forall|j: int|
                    0 <= j < n implies view_of_fields(xs@)[j] == view_of_fields(ys@)[j] by {
                    assert(view_of_fields(xs@)[j] == (xs@[j].0@, view_of(xs@[j].1)));
                    assert(view_of_fields(ys@)[j] == (ys@[j].0@, view_of(ys@[j].1)));
                }
                assert(view_of_fields(xs@) =~= view_of_fields(ys@));
            }
            true
        },
        _ => {
            proof {
                match (view_of(*a), view_of(*b)) {
                    _ => {},
                }
            }
            false
        },
    }
}

/// A list's model has one entry per element, each that element's model.
pub proof fn lemma_view_of_list(items: Seq<StructuredValue>)
    ensures
        view_of_list(items).len() == items.len(),
        forall|i: int|
            0 <= i < items.len() ==> view_of_list(items)[i] == #[trigger] view_of(items[i]),
    decreases items,
{
    if items.len() > 0 {
        lemma_view_of_list(items.drop_last());
        assert forall|i: int|
            0 <= i < items.len() implies view_of_list(items)[i] == #[trigger] view_of(
            items[i],
        ) by {
            if i < items.len() - 1 {
                assert(items.drop_last()[i] == items[i]);
            } else {
                assert(items[i] == items.last());
            }
        }
    }
}

/// A field list's model has one entry per field: the field's name and its
/// value's model.
pub proof fn lemma_view_of_fields(fields: Seq<(String, StructuredValue)>)
    ensures
        view_of_fields(fields).len() == fields.len(),
        forall|i: int|
            0 <= i < fields.len() ==> view_of_fields(fields)[i] == (
            #[trigger] fields[i].0@,
            view_of(fields[i].1),
            ),
    decreases fields,
{
    if fields.len() > 0 {
        lemma_view_of_fields(fields.drop_last());
        assert forall|i: int|
            0 <= i < fields.len() implies view_of_fields(fields)[i] == (
        #[trigger] fields[i].0@,
        view_of(fields[i].1),
        ) by {
            if i < fields.len() - 1 {
                assert(fields.drop_last()[i] == fields[i]);
            } else {
                assert(fields[i] == fields.last());
            }
        }
    }
}

} // verus!
