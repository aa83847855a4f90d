//! Codec implementations for the set wrapper types: string sets, number sets
//! and binary sets.  The wire format treats their contents as unordered; the
//! codec neither sorts nor deduplicates, it carries the elements as given.

use vstd::prelude::*;

use crate::attribute::{
    dec_each, lemma_dec_each_err, lemma_dec_each_ok, num_from_attr_fn, variant_name, Attribute,
};
use crate::numeric::NumAttr;
use crate::value::{AttrModel, AttributeError, AttributeValue, ErrModel};

verus! {

broadcast use vstd::std_specs::vec::group_vec_axioms, vstd::seq::group_seq_axioms;

/// A set of strings; the native counterpart of the string-set variant.
#[derive(Debug, Clone, PartialEq, Eq)]
pub struct SSVec(pub Vec<String>);

impl DeepView for SSVec {
    type V = Seq<Seq<char>>;

    open spec fn deep_view(&self) -> Seq<Seq<char>> {
        self.0.deep_view()
    }
}

impl Attribute for SSVec {
    open spec fn spec_into_attr(m: Seq<Seq<char>>) -> AttrModel {
        AttrModel::Ss(m)
    }

    open spec fn spec_from_attr(a: AttrModel) -> Result<Seq<Seq<char>>, ErrModel> {
        match a {
            AttrModel::Ss(v) => Ok(v),
            _ => Err(ErrModel::MissingField("SS"@)),
        }
    }

    open spec fn null_free() -> bool {
        true
    }

    open spec fn lossless() -> bool {
        true
    }

    fn into_attr(self) -> (r: AttributeValue) {
        let r = AttributeValue::Ss(self.0);
        proof {
            assert(r.deep_view() =~~= AttrModel::Ss(self.deep_view()));
        }
        r
    }

    fn from_attr(attr: AttributeValue) -> (r: Result<Self, AttributeError>) {
        match attr {
            AttributeValue::Ss(v) => {
                proof {
                    assert(attr.deep_view() =~~= AttrModel::Ss(v.deep_view()));
                }
                Ok(SSVec(v))
            },
            _ => Err(AttributeError::MissingField(variant_name("SS"))),
        }
    }

    proof fn lemma_round_trip(m: Seq<Seq<char>>) {
    }

    proof fn lemma_never_null(m: Seq<Seq<char>>) {
    }
}

/// A set of byte blobs; the native counterpart of the binary-set variant.
#[derive(Debug, Clone, PartialEq, Eq)]
pub struct BSVec(pub Vec<Vec<u8>>);

impl DeepView for BSVec {
    type V = Seq<Seq<u8>>;

    open spec fn deep_view(&self) -> Seq<Seq<u8>> {
        self.0.deep_view()
    }
}

impl Attribute for BSVec {
    open spec fn spec_into_attr(m: Seq<Seq<u8>>) -> AttrModel {
        AttrModel::Bs(m)
    }

    open spec fn spec_from_attr(a: AttrModel) -> Result<Seq<Seq<u8>>, ErrModel> {
        match a {
            AttrModel::Bs(v) => Ok(v),
            _ => Err(ErrModel::MissingField("BS"@)),
        }
    }

    open spec fn null_free() -> bool {
        true
    }

    open spec fn lossless() -> bool {
        true
    }

    fn into_attr(self) -> (r: AttributeValue) {
        let r = AttributeValue::Bs(self.0);
        proof {
            assert(r.deep_view() =~~= AttrModel::Bs(self.deep_view()));
        }
        r
    }

    fn from_attr(attr: AttributeValue) -> (r: Result<Self, AttributeError>) {
        match attr {
            AttributeValue::Bs(v) => {
                proof {
                    assert(attr.deep_view() =~~= AttrModel::Bs(v.deep_view()));
                }
                Ok(BSVec(v))
            },
            _ => Err(AttributeError::MissingField(variant_name("BS"))),
        }
    }

    proof fn lemma_round_trip(m: Seq<Seq<u8>>) {
    }

    proof fn lemma_never_null(m: Seq<Seq<u8>>) {
    }
}

/// A set of numbers of one scalar numeric type; the native counterpart of the
/// number-set variant.  Each element travels as the text form the scalar
/// codec defines, so the canonical form is stated exactly once.
#[derive(Debug, Clone, PartialEq, Eq)]
pub struct NSVec<T>(pub Vec<T>);

impl<T: DeepView> DeepView for NSVec<T> {
    type V = Seq<T::V>;

    open spec fn deep_view(&self) -> Seq<T::V> {
        self.0.deep_view()
    }
}

impl<T: NumAttr> Attribute for NSVec<T> {
    open spec fn spec_into_attr(m: Seq<T::V>) -> AttrModel {
        AttrModel::Ns(m.map(|i: int, x: T::V| T::spec_num_text(x)))
    }

    open spec fn spec_from_attr(a: AttrModel) -> Result<Seq<T::V>, ErrModel> {
        match a {
            AttrModel::Ns(reps) => dec_each(num_from_attr_fn::<T>(), reps),
            _ => Err(ErrModel::MissingField("NS"@)),
        }
    }

    open spec fn null_free() -> bool {
        true
    }

    open spec fn lossless() -> bool {
        T::lossless()
    }

    fn into_attr(self) -> (r: AttributeValue) {
        let ghost m = self.deep_view();
        let mut v = self.0;
        let ghost orig = v@;
        let mut out: Vec<String> = Vec::new();
        while v.len() > 0
            invariant
                out@.len() + v@.len() == orig.len(),
                v@ == orig.skip(out@.len() as int),
                forall|i: int|
                    0 <= i < out@.len() ==> #[trigger] out@[i]@ == T::spec_num_text(
                        orig[i].deep_view(),
                    ),
            decreases v@.len(),
        {
            let ghost k = out@.len() as int;
            let t = v.remove(0);
            proof {
                assert(t == orig[k]);
                assert(orig.skip(k).drop_first() =~= orig.skip(k + 1));
            }
            let s = t.num_text();
            out.push(s);
        }
        let r = AttributeValue::Ns(out);
        proof {
            assert(r.deep_view() =~~= AttrModel::Ns(out.deep_view()));
            assert(out.deep_view() =~= m.map(|i: int, x: T::V| T::spec_num_text(x)));
        }
        r
    }

    fn from_attr(attr: AttributeValue) -> (r: Result<Self, AttributeError>) {
        match attr {
            AttributeValue::Ns(reps) => {
                proof {
                    assert(attr.deep_view() =~~= AttrModel::Ns(reps.deep_view()));
                }
                let ghost ems = reps.deep_view();
                let ghost f = num_from_attr_fn::<T>();
                let mut v = reps;
                let ghost orig = v@;
                let mut out: Vec<T> = Vec::new();
                while v.len() > 0
                    invariant
                        attr.deep_view() == AttrModel::Ns(ems),
                        out@.len() + v@.len() == orig.len(),
                        v@ == orig.skip(out@.len() as int),
                        ems.len() == orig.len(),
                        forall|i: int| 0 <= i < orig.len() ==> ems[i] == #[trigger] orig[i]@,
                        f == num_from_attr_fn::<T>(),
                        forall|i: int|
                            0 <= i < out@.len() ==> f(#[trigger] ems[i]) == Ok::<T::V, ErrModel>(
                                out@[i].deep_view(),
                            ),
                    decreases v@.len(),
                {
                    let ghost k = out@.len() as int;
                    let rep = v.remove(0);
                    proof {
                        assert(rep == orig[k]);
                        assert(ems[k] == orig[k]@);
                        assert(orig.skip(k).drop_first() =~= orig.skip(k + 1));
                    }
                    let e = AttributeValue::N(rep);
                    match T::from_attr(e) {
                        Ok(t) => {
                            out.push(t);
                            proof {
                                assert(f(ems[k]) == T::spec_from_attr(AttrModel::N(ems[k])));
                            }
                        },
                        Err(err) => {
                            proof {
                                assert(f(ems[k]) == T::spec_from_attr(AttrModel::N(ems[k])));
                                lemma_dec_each_err(f, ems, k, err.deep_view());
                            }
                            return Err(err);
                        },
                    }
                }
                proof {
                    lemma_dec_each_ok(f, ems, out.deep_view());
                }
                Ok(NSVec(out))
            },
            _ => Err(AttributeError::MissingField(variant_name("NS"))),
        }
    }

    proof fn lemma_round_trip(m: Seq<T::V>) {
        if Self::lossless() {
            let encs = m.map(|i: int, x: T::V| T::spec_num_text(x));
            assert forall|i: int| 0 <= i < encs.len() implies num_from_attr_fn::<T>()(
                #[trigger] encs[i],
            ) == Ok::<T::V, ErrModel>(m[i]) by {
                T::lemma_num_into_attr(m[i]);
                T::lemma_round_trip(m[i]);
            }
            lemma_dec_each_ok(num_from_attr_fn::<T>(), encs, m);
        }
    }

    proof fn lemma_never_null(m: Seq<T::V>) {
    }
}

} // verus!
