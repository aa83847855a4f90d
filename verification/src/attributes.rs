//! The item layer: a fully-encoded record is a sequence of field-name /
//! attribute pairs.  Serialization applies a shallow normalization pass that
//! rewrites an empty-string attribute to a null attribute, because the target
//! store rejects empty strings; the rewrite looks only at each field's
//! top-level value, never into nested containers, and it is the one deliberate
//! departure from round-tripping.

use vstd::prelude::*;

use crate::value::{AttrModel, AttributeValue};

verus! {

broadcast use vstd::std_specs::vec::group_vec_axioms, vstd::seq::group_seq_axioms;

/// An attribute value under the name the record mapper gives it; the value
/// type a record type's field mapping carries.
#[derive(Debug, PartialEq, Eq)]
pub struct DynamoType(AttributeValue);

impl DeepView for DynamoType {
    type V = AttrModel;

    closed spec fn deep_view(&self) -> AttrModel {
        self.0.deep_view()
    }
}

impl DynamoType {
    /// Wraps an attribute value.
    pub fn from_attr(attr: AttributeValue) -> (r: Self)
        ensures
            r.deep_view() == attr.deep_view(),
    {
        DynamoType(attr)
    }

    /// Unwraps the attribute value.
    pub fn into_attr(self) -> (r: AttributeValue)
        ensures
            r.deep_view() == self.deep_view(),
    {
        self.0
    }
}

/// The normalizing rewrite of one top-level attribute: an empty-string
/// attribute becomes a null attribute, everything else passes through
/// unchanged — including empty strings nested inside lists, maps or sets.
pub open spec fn normalize_attr_model(a: AttrModel) -> AttrModel {
    match a {
        AttrModel::S(s) => if s.len() == 0 {
            AttrModel::Null(true)
        } else {
            AttrModel::S(s)
        },
        _ => a,
    }
}

/// The normalizing rewrite of a whole item, field by field.
pub open spec fn normalize_item_model(m: Seq<(Seq<char>, AttrModel)>) -> Seq<
    (Seq<char>, AttrModel),
> {
    m.map(|i: int, kv: (Seq<char>, AttrModel)| (kv.0, normalize_attr_model(kv.1)))
}

/// Rewrites one attribute as `normalize_attr_model` says.
pub fn normalize_attr(v: AttributeValue) -> (r: AttributeValue)
    ensures
        r.deep_view() == normalize_attr_model(v.deep_view()),
{
    match v {
        AttributeValue::S(s) => {
            if s.as_str().is_empty() {
                AttributeValue::Null(true)
            } else {
                AttributeValue::S(s)
            }
        },
        other => other,
    }
}

/// Rewrites every field of an item as `normalize_item_model` says: the empty
/// string check applies to the top-level value of each field only.
pub fn normalize_item(item: Vec<(String, AttributeValue)>) -> (r: Vec<(String, AttributeValue)>)
    ensures
        r.deep_view() == normalize_item_model(item.deep_view()),
{
    let ghost m = item.deep_view();
    let mut v = item;
    let ghost orig = v@;
    let mut out: Vec<(String, AttributeValue)> = Vec::new();
    while v.len() > 0
        invariant
            out@.len() + v@.len() == orig.len(),
            v@ == orig.skip(out@.len() as int),
            m.len() == orig.len(),
            forall|i: int| 0 <= i < orig.len() ==> m[i] == #[trigger] orig[i].deep_view(),
            forall|i: int|
                0 <= i < out@.len() ==> #[trigger] out@[i].deep_view() == (
                    m[i].0,
                    normalize_attr_model(m[i].1),
                ),
        decreases v@.len(),
    {
        let ghost k = out@.len() as int;
        let kv = v.remove(0);
        proof {
            assert(kv == orig[k]);
            assert(m[k] == orig[k].deep_view());
            assert(kv.deep_view() == (kv.0.deep_view(), kv.1.deep_view()));
            assert(orig.skip(k).drop_first() =~= orig.skip(k + 1));
        }
        let w = normalize_attr(kv.1);
        out.push((kv.0, w));
    }
    proof {
        assert(out.deep_view() =~= normalize_item_model(m));
    }
    out
}

/// Unwraps every field of a record's mapping into its attribute value, with
/// no normalization: the model of the item is exactly the model of the
/// mapping.
pub fn into_item_unchecked(fields: Vec<(String, DynamoType)>) -> (r: Vec<
    (String, AttributeValue),
>)
    ensures
        r.deep_view() == fields.deep_view(),
{
    let ghost m = fields.deep_view();
    let mut v = fields;
    let ghost orig = v@;
    let mut out: Vec<(String, AttributeValue)> = Vec::new();
    while v.len() > 0
        invariant
            out@.len() + v@.len() == orig.len(),
            v@ == orig.skip(out@.len() as int),
            m.len() == orig.len(),
            forall|i: int| 0 <= i < orig.len() ==> m[i] == #[trigger] orig[i].deep_view(),
            forall|i: int| 0 <= i < out@.len() ==> #[trigger] out@[i].deep_view() == m[i],
        decreases v@.len(),
    {
        let ghost k = out@.len() as int;
        let kv = v.remove(0);
        proof {
            assert(kv == orig[k]);
            assert(m[k] == orig[k].deep_view());
            assert(kv.deep_view() == (kv.0.deep_view(), kv.1.deep_view()));
            assert(orig.skip(k).drop_first() =~= orig.skip(k + 1));
        }
        let a = kv.1.into_attr();
        out.push((kv.0, a));
    }
    proof {
        assert(out.deep_view() =~= m);
    }
    out
}

/// Serializes a record's field mapping for the store: every field's attribute
/// value, with the empty-string-to-null rewrite applied at the top level of
/// each field.
pub fn into_item(fields: Vec<(String, DynamoType)>) -> (r: Vec<(String, AttributeValue)>)
    ensures
        r.deep_view() == normalize_item_model(fields.deep_view()),
{
    let unchecked = into_item_unchecked(fields);
    normalize_item(unchecked)
}

} // verus!
