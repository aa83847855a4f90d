//! The attribute-value tagged union, its mathematical model, and the codec
//! error type.

use vstd::prelude::*;

verus! {

broadcast use vstd::std_specs::vec::group_vec_axioms, vstd::seq::group_seq_axioms;

/// One attribute of a stored record: a closed tagged union with exactly one
/// populated variant.  Numbers travel as decimal text because the wire format
/// has no native numeric type.
#[derive(Debug, PartialEq, Eq)]
pub enum AttributeValue {
    /// Text.
    S(String),
    /// A number, as decimal text.
    N(String),
    /// A raw byte blob.
    B(Vec<u8>),
    /// A boolean.
    Bool(bool),
    /// An absent value; the flag is set to true on encoding.
    Null(bool),
    /// An ordered sequence of attribute values.
    L(Vec<AttributeValue>),
    /// A mapping of string keys to attribute values.
    M(Vec<(String, AttributeValue)>),
    /// A set of strings.
    Ss(Vec<String>),
    /// A set of numbers, each as decimal text.
    Ns(Vec<String>),
    /// A set of byte blobs.
    Bs(Vec<Vec<u8>>),
}

/// The mathematical model of an [`AttributeValue`]: the same tree, with every
/// executable collection replaced by its abstract sequence.
#[verifier::ext_equal]
pub enum AttrModel {
    S(Seq<char>),
    N(Seq<char>),
    B(Seq<u8>),
    Bool(bool),
    Null(bool),
    L(Seq<AttrModel>),
    M(Seq<(Seq<char>, AttrModel)>),
    Ss(Seq<Seq<char>>),
    Ns(Seq<Seq<char>>),
    Bs(Seq<Seq<u8>>),
}

/// The model of an attribute value: the same tree over abstract sequences.
pub open spec fn attr_model_of(v: AttributeValue) -> AttrModel
    decreases v,
{
    match v {
        AttributeValue::S(s) => AttrModel::S(s@),
        AttributeValue::N(s) => AttrModel::N(s@),
        AttributeValue::B(b) => AttrModel::B(b@),
        AttributeValue::Bool(x) => AttrModel::Bool(x),
        AttributeValue::Null(x) => AttrModel::Null(x),
        AttributeValue::L(elems) => AttrModel::L(
            Seq::new(
                elems@.len(),
                |i: int|
                    if 0 <= i < elems@.len() {
                        attr_model_of(elems@[i])
                    } else {
                        arbitrary()
                    },
            ),
        ),
        AttributeValue::M(entries) => AttrModel::M(
            Seq::new(
                entries@.len(),
                |i: int|
                    if 0 <= i < entries@.len() {
                        (entries@[i].0@, attr_model_of(entries@[i].1))
                    } else {
                        arbitrary()
                    },
            ),
        ),
        AttributeValue::Ss(v) => AttrModel::Ss(Seq::new(v@.len(), |i: int| v@[i]@)),
        AttributeValue::Ns(v) => AttrModel::Ns(Seq::new(v@.len(), |i: int| v@[i]@)),
        AttributeValue::Bs(v) => AttrModel::Bs(Seq::new(v@.len(), |i: int| v@[i]@)),
    }
}

impl DeepView for AttributeValue {
    type V = AttrModel;

    open spec fn deep_view(&self) -> AttrModel {
        attr_model_of(*self)
    }
}

/// The model of a list attribute is the deep view of its element vector.
pub proof fn lemma_deep_view_l(elems: Vec<AttributeValue>)
    ensures
        (AttributeValue::L(elems)).deep_view() == AttrModel::L(elems.deep_view()),
{
    let dv = (AttributeValue::L(elems)).deep_view();
    assert(dv->L_0.len() == elems@.len());
    assert forall|i: int| 0 <= i < elems@.len() implies dv->L_0[i] == elems.deep_view()[i] by {
        assert(dv->L_0[i] == attr_model_of(elems@[i]));
    }
    assert(dv->L_0 =~= elems.deep_view());
    assert(dv =~= AttrModel::L(elems.deep_view()));
}

/// The model of a map attribute is the deep view of its entry vector.
pub proof fn lemma_deep_view_m(entries: Vec<(String, AttributeValue)>)
    ensures
        (AttributeValue::M(entries)).deep_view() == AttrModel::M(entries.deep_view()),
{
    let dv = (AttributeValue::M(entries)).deep_view();
    assert(dv->M_0.len() == entries@.len());
    assert forall|i: int| 0 <= i < entries@.len() implies dv->M_0[i] == entries.deep_view()[i] by {
        assert(dv->M_0[i] == (entries@[i].0@, attr_model_of(entries@[i].1)));
    }
    assert(dv->M_0 =~= entries.deep_view());
    assert(dv =~= AttrModel::M(entries.deep_view()));
}

/// Why a decode failed: the expected variant was absent, or its payload could
/// not be parsed into the target type.
#[derive(Debug, Clone, PartialEq, Eq)]
pub enum AttributeError {
    /// The attribute did not carry the variant the target type expects; the
    /// payload names that variant.
    MissingField(String),
    /// The variant was present but its payload could not be parsed; the
    /// payload is the offending text.
    InvalidFormat(String),
}

/// The mathematical model of an [`AttributeError`].
#[verifier::ext_equal]
pub enum ErrModel {
    MissingField(Seq<char>),
    InvalidFormat(Seq<char>),
}

impl DeepView for AttributeError {
    type V = ErrModel;

    open spec fn deep_view(&self) -> ErrModel {
        match self {
            AttributeError::MissingField(s) => ErrModel::MissingField(s@),
            AttributeError::InvalidFormat(s) => ErrModel::InvalidFormat(s@),
        }
    }
}

} // verus!
