//! Codec implementations for containers: lists, maps of string keys, and
//! optional values.  Each is generic over any inner codec type, so that
//! encoding and decoding recurse through arbitrary nesting.

use vstd::prelude::*;

use crate::attribute::{
    dec_each, entry_from_attr_fn, from_attr_fn, lemma_dec_each_err, lemma_dec_each_ok,
    variant_name, Attribute,
};
use crate::value::{
    lemma_deep_view_l, lemma_deep_view_m, AttrModel, AttributeError, AttributeValue, ErrModel,
};

verus! {

broadcast use vstd::std_specs::vec::group_vec_axioms, vstd::seq::group_seq_axioms;

impl<T: Attribute> Attribute for Vec<T> {
    open spec fn spec_into_attr(m: Seq<T::V>) -> AttrModel {
        AttrModel::L(m.map(|i: int, x: T::V| T::spec_into_attr(x)))
    }

    open spec fn spec_from_attr(a: AttrModel) -> Result<Seq<T::V>, ErrModel> {
        match a {
            AttrModel::L(elems) => dec_each(from_attr_fn::<T>(), elems),
            _ => Err(ErrModel::MissingField("L"@)),
        }
    }

    open spec fn null_free() -> bool {
        true
    }

    open spec fn lossless() -> bool {
        T::lossless()
    }

    fn into_attr(self) -> (r: AttributeValue) {
        let ghost m = self.deep_view();
        let mut v = self;
        let ghost orig = v@;
        let mut out: Vec<AttributeValue> = Vec::new();
        while v.len() > 0
            invariant
                out@.len() + v@.len() == orig.len(),
                v@ == orig.skip(out@.len() as int),
                forall|i: int|
                    0 <= i < out@.len() ==> #[trigger] out@[i].deep_view() == T::spec_into_attr(
                        orig[i].deep_view(),
                    ),
            decreases v@.len(),
        {
            let ghost k = out@.len() as int;
            let t = v.remove(0);
            proof {
                assert(t == orig[k]);
                assert(orig.skip(k).drop_first() =~= orig.skip(k + 1));
            }
            let a = t.into_attr();
            out.push(a);
        }
        proof {
            lemma_deep_view_l(out);
            assert(out.deep_view() =~= m.map(|i: int, x: T::V| T::spec_into_attr(x)));
        }
        AttributeValue::L(out)
    }

    fn from_attr(attr: AttributeValue) -> (r: Result<Self, AttributeError>) {
        match attr {
            AttributeValue::L(elems) => {
                proof {
                    assert(attr == AttributeValue::L(elems));
                    lemma_deep_view_l(elems);
                }
                let ghost ems = elems.deep_view();
                let ghost f = from_attr_fn::<T>();
                let mut v = elems;
                let ghost orig = v@;
                let mut out: Vec<T> = Vec::new();
                while v.len() > 0
                    invariant
                        attr.deep_view() == AttrModel::L(ems),
                        out@.len() + v@.len() == orig.len(),
                        v@ == orig.skip(out@.len() as int),
                        ems.len() == orig.len(),
                        forall|i: int|
                            0 <= i < orig.len() ==> ems[i] == #[trigger] orig[i].deep_view(),
                        f == from_attr_fn::<T>(),
                        forall|i: int|
                            0 <= i < out@.len() ==> f(#[trigger] ems[i]) == Ok::<T::V, ErrModel>(
                                out@[i].deep_view(),
                            ),
                    decreases v@.len(),
                {
                    let ghost k = out@.len() as int;
                    let e = v.remove(0);
                    proof {
                        assert(e == orig[k]);
                        assert(ems[k] == orig[k].deep_view());
                        assert(orig.skip(k).drop_first() =~= orig.skip(k + 1));
                    }
                    match T::from_attr(e) {
                        Ok(t) => {
                            out.push(t);
                            proof {
                                assert(f(ems[k]) == T::spec_from_attr(ems[k]));
                            }
                        },
                        Err(err) => {
                            proof {
                                assert(f(ems[k]) == T::spec_from_attr(ems[k]));
                                lemma_dec_each_err(f, ems, k, err.deep_view());
                            }
                            return Err(err);
                        },
                    }
                }
                proof {
                    lemma_dec_each_ok(f, ems, out.deep_view());
                }
                Ok(out)
            },
            _ => Err(AttributeError::MissingField(variant_name("L"))),
        }
    }

    proof fn lemma_round_trip(m: Seq<T::V>) {
        if Self::lossless() {
            let encs = m.map(|i: int, x: T::V| T::spec_into_attr(x));
            assert forall|i: int| 0 <= i < encs.len() implies from_attr_fn::<T>()(
                #[trigger] encs[i],
            ) == Ok::<T::V, ErrModel>(m[i]) by {
                T::lemma_round_trip(m[i]);
            }
            lemma_dec_each_ok(from_attr_fn::<T>(), encs, m);
        }
    }

    proof fn lemma_never_null(m: Seq<T::V>) {
    }
}

impl<T: Attribute> Attribute for Option<T> {
    open spec fn spec_into_attr(m: Option<T::V>) -> AttrModel {
        match m {
            Some(x) => T::spec_into_attr(x),
            None => AttrModel::Null(true),
        }
    }

    open spec fn spec_from_attr(a: AttrModel) -> Result<Option<T::V>, ErrModel> {
        if a is Null {
            Ok(None)
        } else {
            match T::spec_from_attr(a) {
                Ok(v) => Ok(Some(v)),
                Err(e) => Err(e),
            }
        }
    }

    open spec fn null_free() -> bool {
        false
    }

    open spec fn lossless() -> bool {
        T::lossless() && T::null_free()
    }

    fn into_attr(self) -> (r: AttributeValue) {
        match self {
            Some(t) => t.into_attr(),
            None => AttributeValue::Null(true),
        }
    }

    fn from_attr(attr: AttributeValue) -> (r: Result<Self, AttributeError>) {
        match attr {
            AttributeValue::Null(_) => Ok(None),
            other => match T::from_attr(other) {
                Ok(v) => Ok(Some(v)),
                Err(e) => Err(e),
            },
        }
    }

    proof fn lemma_round_trip(m: Option<T::V>) {
        if Self::lossless() {
            match m {
                Some(x) => {
                    T::lemma_never_null(x);
                    T::lemma_round_trip(x);
                },
                None => {},
            }
        }
    }

    proof fn lemma_never_null(m: Option<T::V>) {
    }
}

/// A mapping of string keys to values of one codec type; the native
/// counterpart of the map variant.  Entries keep their order; the codec
/// neither sorts nor deduplicates keys.
#[derive(Debug, Clone, PartialEq, Eq)]
pub struct MVec<T>(pub Vec<(String, T)>);

impl<T: DeepView> DeepView for MVec<T> {
    type V = Seq<(Seq<char>, T::V)>;

    open spec fn deep_view(&self) -> Seq<(Seq<char>, T::V)> {
        self.0.deep_view()
    }
}

impl<T: Attribute> Attribute for MVec<T> {
    open spec fn spec_into_attr(m: Seq<(Seq<char>, T::V)>) -> AttrModel {
        AttrModel::M(m.map(|i: int, kv: (Seq<char>, T::V)| (kv.0, T::spec_into_attr(kv.1))))
    }

    open spec fn spec_from_attr(a: AttrModel) -> Result<Seq<(Seq<char>, T::V)>, ErrModel> {
        match a {
            AttrModel::M(entries) => dec_each(entry_from_attr_fn::<T>(), entries),
            _ => Err(ErrModel::MissingField("M"@)),
        }
    }

    open spec fn null_free() -> bool {
        true
    }

    open spec fn lossless() -> bool {
        T::lossless()
    }

    fn into_attr(self) -> (r: AttributeValue) {
        let ghost m = self.deep_view();
        let mut v = self.0;
        let ghost orig = v@;
        let mut out: Vec<(String, AttributeValue)> = Vec::new();
        while v.len() > 0
            invariant
                out@.len() + v@.len() == orig.len(),
                v@ == orig.skip(out@.len() as int),
                forall|i: int|
                    0 <= i < out@.len() ==> #[trigger] out@[i].deep_view() == (
                        orig[i].0@,
                        T::spec_into_attr(orig[i].1.deep_view()),
                    ),
            decreases v@.len(),
        {
            let ghost k = out@.len() as int;
            let kv = v.remove(0);
            proof {
                assert(kv == orig[k]);
                assert(orig.skip(k).drop_first() =~= orig.skip(k + 1));
            }
            let a = kv.1.into_attr();
            out.push((kv.0, a));
        }
        proof {
            lemma_deep_view_m(out);
            assert(out.deep_view() =~= m.map(
                |i: int, kv: (Seq<char>, T::V)| (kv.0, T::spec_into_attr(kv.1)),
            ));
        }
        AttributeValue::M(out)
    }

    fn from_attr(attr: AttributeValue) -> (r: Result<Self, AttributeError>) {
        match attr {
            AttributeValue::M(entries) => {
                proof {
                    lemma_deep_view_m(entries);
                }
                let ghost ems = entries.deep_view();
                let ghost f = entry_from_attr_fn::<T>();
                let mut v = entries;
                let ghost orig = v@;
                let mut out: Vec<(String, T)> = Vec::new();
                while v.len() > 0
                    invariant
                        attr.deep_view() == AttrModel::M(ems),
                        out@.len() + v@.len() == orig.len(),
                        v@ == orig.skip(out@.len() as int),
                        ems.len() == orig.len(),
                        forall|i: int|
                            0 <= i < orig.len() ==> ems[i] == #[trigger] orig[i].deep_view(),
                        f == entry_from_attr_fn::<T>(),
                        forall|i: int|
                            0 <= i < out@.len() ==> f(#[trigger] ems[i]) == Ok::<
                                (Seq<char>, T::V),
                                ErrModel,
                            >(out@[i].deep_view()),
                    decreases v@.len(),
                {
                    let ghost k = out@.len() as int;
                    let kv = v.remove(0);
                    proof {
                        assert(kv == orig[k]);
                        assert(ems[k] == orig[k].deep_view());
                        assert(kv.deep_view() == (kv.0.deep_view(), kv.1.deep_view()));
                        assert(orig.skip(k).drop_first() =~= orig.skip(k + 1));
                    }
                    match T::from_attr(kv.1) {
                        Ok(t) => {
                            out.push((kv.0, t));
                            proof {
                                assert(ems[k] == (kv.0@, kv.1.deep_view()));
                                assert(f(ems[k]) == entry_from_attr_fn::<T>()(ems[k]));
                                assert(out@[out@.len() - 1].deep_view() == (kv.0@, t.deep_view()));
                            }
                        },
                        Err(err) => {
                            proof {
                                assert(ems[k] == (kv.0@, kv.1.deep_view()));
                                assert(f(ems[k]) == entry_from_attr_fn::<T>()(ems[k]));
                                lemma_dec_each_err(f, ems, k, err.deep_view());
                            }
                            return Err(err);
                        },
                    }
                }
                proof {
                    lemma_dec_each_ok(f, ems, out.deep_view());
                }
                Ok(MVec(out))
            },
            _ => Err(AttributeError::MissingField(variant_name("M"))),
        }
    }

    proof fn lemma_round_trip(m: Seq<(Seq<char>, T::V)>) {
        if Self::lossless() {
            let encs = m.map(|i: int, kv: (Seq<char>, T::V)| (kv.0, T::spec_into_attr(kv.1)));
            assert forall|i: int| 0 <= i < encs.len() implies entry_from_attr_fn::<T>()(
                #[trigger] encs[i],
            ) == Ok::<(Seq<char>, T::V), ErrModel>(m[i]) by {
                T::lemma_round_trip(m[i].1);
            }
            lemma_dec_each_ok(entry_from_attr_fn::<T>(), encs, m);
        }
    }

    proof fn lemma_never_null(m: Seq<(Seq<char>, T::V)>) {
    }
}

} // verus!
