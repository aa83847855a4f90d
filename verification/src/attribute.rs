//! The codec contract: a bidirectional conversion between a native type and
//! one attribute-value variant, together with the laws every implementation
//! carries.

use vstd::prelude::*;

use crate::value::{AttrModel, AttributeError, AttributeValue, ErrModel};

verus! {

broadcast use vstd::seq::group_seq_axioms;

/// A native type that encodes into exactly one attribute-value variant and
/// decodes back from it.
///
/// The contract is stated over the mathematical models given by [`DeepView`]:
/// `spec_into_attr` says which attribute model an encoding produces, and
/// `spec_from_attr` says, for every attribute model, either the decoded native
/// model or the exact error.  Two laws bind the pair together:
///
/// * `lemma_round_trip`: whenever `lossless()` holds of the type, decoding an
///   encoding gives back the value.  `lossless()` fails only for nested
///   optional types, whose inner `None` encodes to the same null attribute as
///   the outer one.
/// * `lemma_never_null`: whenever `null_free()` holds of the type, no encoding
///   is the null variant.  Only optional types encode to null.
pub trait Attribute: Sized + DeepView {
    /// The attribute model produced by encoding a native model.
    spec fn spec_into_attr(m: Self::V) -> AttrModel;

    /// The exact decode result for every attribute model.
    spec fn spec_from_attr(a: AttrModel) -> Result<Self::V, ErrModel>;

    /// True when no value of this type encodes to the null variant.
    spec fn null_free() -> bool;

    /// True when every value of this type round-trips through the codec.
    spec fn lossless() -> bool;

    /// Encode; total, and exactly as `spec_into_attr` says.
    fn into_attr(self) -> (r: AttributeValue)
        ensures
            r.deep_view() == Self::spec_into_attr(self.deep_view()),
    ;

    /// Decode; returns exactly what `spec_from_attr` says, value and error
    /// alike.
    fn from_attr(attr: AttributeValue) -> (r: Result<Self, AttributeError>)
        ensures
            match r {
                Ok(v) => Self::spec_from_attr(attr.deep_view()) == Ok::<Self::V, ErrModel>(
                    v.deep_view(),
                ),
                Err(e) => Self::spec_from_attr(attr.deep_view()) == Err::<Self::V, ErrModel>(
                    e.deep_view(),
                ),
            },
    ;

    /// The round-trip law: decoding an encoding yields the encoded value.
    proof fn lemma_round_trip(m: Self::V)
        ensures
            Self::lossless() ==> Self::spec_from_attr(Self::spec_into_attr(m)) == Ok::<
                Self::V,
                ErrModel,
            >(m),
    ;

    /// The null-freedom law: no encoding is the null variant.
    proof fn lemma_never_null(m: Self::V)
        ensures
            Self::null_free() ==> !(Self::spec_into_attr(m) is Null),
    ;
}

/// Decodes a sequence element-wise, keeping the first failure: the shared
/// shape of every container decode.
pub open spec fn dec_each<A, B>(
    f: spec_fn(A) -> Result<B, ErrModel>,
    xs: Seq<A>,
) -> Result<Seq<B>, ErrModel>
    decreases xs.len(),
{
    if xs.len() == 0 {
        Ok(Seq::empty())
    } else {
        match f(xs[0]) {
            Err(e) => Err(e),
            Ok(v) => match dec_each(f, xs.drop_first()) {
                Err(e) => Err(e),
                Ok(rest) => Ok(seq![v] + rest),
            },
        }
    }
}

/// When every element decodes, `dec_each` yields the element-wise results.
pub proof fn lemma_dec_each_ok<A, B>(f: spec_fn(A) -> Result<B, ErrModel>, xs: Seq<A>, vs: Seq<B>)
    requires
        vs.len() == xs.len(),
        forall|i: int| 0 <= i < xs.len() ==> f(#[trigger] xs[i]) == Ok::<B, ErrModel>(vs[i]),
    ensures
        dec_each(f, xs) == Ok::<Seq<B>, ErrModel>(vs),
    decreases xs.len(),
{
    if xs.len() == 0 {
        assert(vs =~= Seq::<B>::empty());
    } else {
        assert forall|i: int| 0 <= i < xs.drop_first().len() implies f(
            #[trigger] xs.drop_first()[i],
        ) == Ok::<B, ErrModel>(vs.drop_first()[i]) by {
            assert(xs.drop_first()[i] == xs[i + 1]);
            assert(vs.drop_first()[i] == vs[i + 1]);
        }
        lemma_dec_each_ok(f, xs.drop_first(), vs.drop_first());
        assert(seq![vs[0]] + vs.drop_first() =~= vs);
    }
}

/// When the elements before `k` decode and the one at `k` fails, `dec_each`
/// yields exactly that failure.
pub proof fn lemma_dec_each_err<A, B>(
    f: spec_fn(A) -> Result<B, ErrModel>,
    xs: Seq<A>,
    k: int,
    e: ErrModel,
)
    requires
        0 <= k < xs.len(),
        forall|i: int| 0 <= i < k ==> f(#[trigger] xs[i]) is Ok,
        f(xs[k]) == Err::<B, ErrModel>(e),
    ensures
        dec_each(f, xs) == Err::<Seq<B>, ErrModel>(e),
    decreases xs.len(),
{
    if k > 0 {
        assert forall|i: int| 0 <= i < k - 1 implies f(#[trigger] xs.drop_first()[i]) is Ok by {
            assert(xs.drop_first()[i] == xs[i + 1]);
        }
        assert(xs.drop_first()[k - 1] == xs[k]);
        lemma_dec_each_err(f, xs.drop_first(), k - 1, e);
    }
}

/// The element decoder of a list: the inner codec itself.
pub open spec fn from_attr_fn<T: Attribute>() -> spec_fn(AttrModel) -> Result<T::V, ErrModel> {
    |e: AttrModel| T::spec_from_attr(e)
}

/// The entry decoder of a map: the key passes through, the value goes through
/// the inner codec.
pub open spec fn entry_from_attr_fn<T: Attribute>() -> spec_fn((Seq<char>, AttrModel)) -> Result<
    (Seq<char>, T::V),
    ErrModel,
> {
    |kv: (Seq<char>, AttrModel)|
        match T::spec_from_attr(kv.1) {
            Ok(v) => Ok((kv.0, v)),
            Err(e) => Err(e),
        }
}

/// The element decoder of a number set: each text is decoded as if it were a
/// scalar number attribute.
pub open spec fn num_from_attr_fn<T: Attribute>() -> spec_fn(Seq<char>) -> Result<
    T::V,
    ErrModel,
> {
    |rep: Seq<char>| T::spec_from_attr(AttrModel::N(rep))
}

/// An owned copy of a variant name, for a `MissingField` error.
pub(crate) fn variant_name(s: &str) -> (r: String)
    ensures
        r@ == s@,
{
    s.to_owned()
}

impl Attribute for String {
    open spec fn spec_into_attr(m: Seq<char>) -> AttrModel {
        AttrModel::S(m)
    }

    open spec fn spec_from_attr(a: AttrModel) -> Result<Seq<char>, ErrModel> {
        match a {
            AttrModel::S(s) => Ok(s),
            _ => Err(ErrModel::MissingField("S"@)),
        }
    }

    open spec fn null_free() -> bool {
        true
    }

    open spec fn lossless() -> bool {
        true
    }

    fn into_attr(self) -> (r: AttributeValue) {
        AttributeValue::S(self)
    }

    fn from_attr(attr: AttributeValue) -> (r: Result<Self, AttributeError>) {
        match attr {
            AttributeValue::S(s) => Ok(s),
            _ => Err(AttributeError::MissingField(variant_name("S"))),
        }
    }

    proof fn lemma_round_trip(m: Seq<char>) {
    }

    proof fn lemma_never_null(m: Seq<char>) {
    }
}

impl Attribute for bool {
    open spec fn spec_into_attr(m: bool) -> AttrModel {
        AttrModel::Bool(m)
    }

    open spec fn spec_from_attr(a: AttrModel) -> Result<bool, ErrModel> {
        match a {
            AttrModel::Bool(x) => Ok(x),
            _ => Err(ErrModel::MissingField("BOOL"@)),
        }
    }

    open spec fn null_free() -> bool {
        true
    }

    open spec fn lossless() -> bool {
        true
    }

    fn into_attr(self) -> (r: AttributeValue) {
        AttributeValue::Bool(self)
    }

    fn from_attr(attr: AttributeValue) -> (r: Result<Self, AttributeError>) {
        match attr {
            AttributeValue::Bool(x) => Ok(x),
            _ => Err(AttributeError::MissingField(variant_name("BOOL"))),
        }
    }

    proof fn lemma_round_trip(m: bool) {
    }

    proof fn lemma_never_null(m: bool) {
    }
}

/// A raw byte blob; the native counterpart of the binary variant.
#[derive(Debug, Clone, PartialEq, Eq)]
pub struct Blob(pub Vec<u8>);

impl DeepView for Blob {
    type V = Seq<u8>;

    open spec fn deep_view(&self) -> Seq<u8> {
        self.0@
    }
}

impl Attribute for Blob {
    open spec fn spec_into_attr(m: Seq<u8>) -> AttrModel {
        AttrModel::B(m)
    }

    open spec fn spec_from_attr(a: AttrModel) -> Result<Seq<u8>, ErrModel> {
        match a {
            AttrModel::B(b) => Ok(b),
            _ => Err(ErrModel::MissingField("B"@)),
        }
    }

    open spec fn null_free() -> bool {
        true
    }

    open spec fn lossless() -> bool {
        true
    }

    fn into_attr(self) -> (r: AttributeValue) {
        AttributeValue::B(self.0)
    }

    fn from_attr(attr: AttributeValue) -> (r: Result<Self, AttributeError>) {
        match attr {
            AttributeValue::B(b) => Ok(Blob(b)),
            _ => Err(AttributeError::MissingField(variant_name("B"))),
        }
    }

    proof fn lemma_round_trip(m: Seq<u8>) {
    }

    proof fn lemma_never_null(m: Seq<u8>) {
    }
}

} // verus!
