//! The typed facade: binds one engine to a scalar type, a compile-time
//! dimension and a metric, so that every shape and metric check happens
//! at construction rather than per call.

use vstd::prelude::*;
use vstd::math::min;
use vstd::multiset::Multiset;
use vstd::seq_lib::group_to_multiset_ensures;
use core::marker::PhantomData;
use crate::Error;
use crate::IndexOptions;
use crate::Key;
use crate::MAX_DIMENSIONS;
use crate::scalar::VectorType;
use crate::metric::MetricType;
use crate::metric::bounded_values;
use crate::metric::builtin_distance;
use crate::metric::builtin_distance_spec;
use crate::metric::builtin_supported;
use crate::metric::builtin_supported_exec;
use crate::engine::Engine;
use crate::engine::contains_key;
use crate::engine::count_key;
use crate::engine::distinct_keys;
use crate::engine::fixed_values;
use crate::engine::lemma_model_take_step;
use crate::engine::renamed;
use crate::engine::to_fixed_vec;
use crate::engine::vectors_under;
use crate::engine::without_key;

verus! {

broadcast use group_to_multiset_ensures;

/// A distance sequence that never decreases.
pub open spec fn sorted_distances(s: Seq<i64>) -> bool {
    forall|i: int, j: int| 0 <= i <= j < s.len() ==> s[i] <= s[j]
}

/// Key/distance pairs ordered by non-decreasing distance.
pub open spec fn sorted_pairs(s: Seq<(u64, i64)>) -> bool {
    forall|i: int, j: int| 0 <= i <= j < s.len() ==> (#[trigger] s[i]).1 <= (#[trigger] s[j]).1
}

/// No two pairs share a key.
pub open spec fn distinct_pair_keys(s: Seq<(u64, i64)>) -> bool {
    forall|i: int, j: int| 0 <= i < j < s.len() ==> (#[trigger] s[i]).0 != (#[trigger] s[j]).0
}

/// The distance the facade reports between a query and a stored
/// vector: the metric type's own function when the metric is custom,
/// the builtin kernel of the bound kind otherwise.
pub open spec fn metric_distance_spec<M: MetricType>(
    metric: crate::MetricKind,
    q: Seq<i64>,
    v: Seq<i64>,
    custom: bool,
) -> i64 {
    if custom {
        M::spec_distance(q, v)
    } else {
        builtin_distance_spec(metric, q, v)
    }
}

/// The reported key/distance pair comes from a stored vector: some
/// stored pair carries the key, and the bound metric reports exactly
/// this distance between the query and that stored vector.
pub open spec fn search_hit<T: VectorType, M: MetricType>(
    model: Seq<(u64, Seq<T>)>,
    metric: crate::MetricKind,
    q: Seq<i64>,
    custom: bool,
    key: u64,
    dist: i64,
) -> bool {
    exists|j: int|
        0 <= j < model.len() && (#[trigger] model[j]).0 == key && dist == metric_distance_spec::<
            M,
        >(metric, q, fixed_values(model[j].1), custom)
}

/// Like [`search_hit`], and the stored key was moreover accepted by the
/// filter predicate.
pub open spec fn filtered_hit<T: VectorType, M: MetricType, F: Fn(u64) -> bool>(
    model: Seq<(u64, Seq<T>)>,
    metric: crate::MetricKind,
    q: Seq<i64>,
    custom: bool,
    filter: F,
    key: u64,
    dist: i64,
) -> bool {
    exists|j: int|
        0 <= j < model.len() && (#[trigger] model[j]).0 == key && call_ensures(
            filter,
            (model[j].0,),
            true,
        ) && dist == metric_distance_spec::<M>(metric, q, fixed_values(model[j].1), custom)
}

/// Some position of the key sequence carries the given key.
pub open spec fn key_reported(keys: Seq<u64>, key: u64) -> bool {
    exists|i: int| 0 <= i < keys.len() && keys[i] == key
}

/// Some pair of the sequence carries the given key.
pub open spec fn pair_key_present(s: Seq<(u64, i64)>, key: u64) -> bool {
    exists|i: int| 0 <= i < s.len() && (#[trigger] s[i]).0 == key
}

/// The keys of a scored pair sequence, in order.
pub open spec fn pair_keys(s: Seq<(u64, i64)>) -> Seq<u64> {
    s.map_values(|p: (u64, i64)| p.0)
}

/// The keys of a stored-pair model, in order.
pub open spec fn model_keys<T>(s: Seq<(u64, Seq<T>)>) -> Seq<u64> {
    s.map_values(|p: (u64, Seq<T>)| p.0)
}

/// The distances of a scored pair sequence, in order.
pub open spec fn pair_dists(s: Seq<(u64, i64)>) -> Seq<i64> {
    s.map_values(|p: (u64, i64)| p.1)
}

/// The distance of every stored vector to the query, in storage order.
pub open spec fn entry_distances<T: VectorType, M: MetricType>(
    model: Seq<(u64, Seq<T>)>,
    metric: crate::MetricKind,
    q: Seq<i64>,
    custom: bool,
) -> Seq<i64> {
    model.map_values(
        |p: (u64, Seq<T>)| metric_distance_spec::<M>(metric, q, fixed_values(p.1), custom),
    )
}

/// Concatenating two sequences adds their element multisets.
pub proof fn lemma_to_multiset_concat<A>(a: Seq<A>, b: Seq<A>)
    ensures
        (a + b).to_multiset() == a.to_multiset().add(b.to_multiset()),
    decreases b.len(),
{
    if b.len() == 0 {
        assert(a + b =~= a);
        assert(b.to_multiset() =~= Multiset::<A>::empty()) by {
            assert(b =~= Seq::<A>::empty());
        }
        assert(a.to_multiset().add(b.to_multiset()) =~= a.to_multiset());
    } else {
        lemma_to_multiset_concat(a, b.drop_last());
        assert(a + b =~= (a + b.drop_last()).push(b.last()));
        assert(b =~= b.drop_last().push(b.last()));
        assert((a + b).to_multiset() =~= a.to_multiset().add(b.to_multiset()));
    }
}

/// A key occurs in the model's key sequence as often as [`count_key`]
/// says.
pub proof fn lemma_count_key_occurrences<T>(s: Seq<(u64, Seq<T>)>, key: u64)
    ensures
        model_keys(s).to_multiset().count(key) == count_key(s, key),
    decreases s.len(),
{
    if s.len() == 0 {
        assert(model_keys(s) =~= Seq::<u64>::empty());
        assert(model_keys(s).to_multiset() =~= Multiset::<u64>::empty());
    } else {
        lemma_count_key_occurrences(s.drop_last(), key);
        assert(model_keys(s) =~= model_keys(s.drop_last()).push(s.last().0));
        assert(model_keys(s).to_multiset() =~= model_keys(s.drop_last()).to_multiset().insert(
            s.last().0,
        ));
    }
}

/// The matches of one search: parallel sequences of keys and distances
/// of equal length, ordered by non-decreasing distance.
pub struct Matches {
    /// The keys of the matched vectors, nearest first.
    pub keys: Vec<u64>,
    /// The distance of each matched vector, parallel to `keys`.
    pub distances: Vec<i64>,
}

/// One search result: a key together with its distance.
#[derive(Clone, Copy, PartialEq, Eq, Structural, Debug)]
pub struct ResultElement {
    /// The reported distance.
    pub distance: i64,
    /// The key of the matched vector.
    pub key: u64,
}

impl Matches {
    /// Parallel sequences of equal length, sorted by distance.
    pub open spec fn wf(self) -> bool {
        &&& self.keys@.len() == self.distances@.len()
        &&& sorted_distances(self.distances@)
    }

    /// The matches as a list of key/distance result elements, one per
    /// key/distance pair.
    pub fn result(self) -> (r: Vec<ResultElement>)
        ensures
            r@.len() == min(self.keys@.len() as int, self.distances@.len() as int),
            forall|i: int|
                0 <= i < r@.len() ==> #[trigger] r@[i] == (ResultElement {
                    distance: self.distances@[i],
                    key: self.keys@[i],
                }),
    {
        let n = if self.keys.len() < self.distances.len() {
            self.keys.len()
        } else {
            self.distances.len()
        };
        let mut r: Vec<ResultElement> = Vec::new();
        let mut i: usize = 0;
        while i < n
            invariant
                0 <= i <= n,
                n == min(self.keys@.len() as int, self.distances@.len() as int),
                r@.len() == i,
                forall|k: int|
                    0 <= k < i ==> #[trigger] r@[k] == (ResultElement {
                        distance: self.distances@[k],
                        key: self.keys@[k],
                    }),
            decreases n - i,
        {
            r.push(ResultElement { distance: self.distances[i], key: self.keys[i] });
            i = i + 1;
        }
        r
    }
}

/// Sorts key/distance pairs by non-decreasing distance.
///
/// The result is a permutation of the input; distinct keys stay
/// distinct.
fn sort_by_distance(v: Vec<(u64, i64)>) -> (r: Vec<(u64, i64)>)
    ensures
        r@.len() == v@.len(),
        sorted_pairs(r@),
        r@.to_multiset() == v@.to_multiset(),
        pair_keys(r@).to_multiset() == pair_keys(v@).to_multiset(),
        pair_dists(r@).to_multiset() == pair_dists(v@).to_multiset(),
        distinct_pair_keys(v@) ==> distinct_pair_keys(r@),
{
    let ghost orig = v@;
    let mut rest = v;
    let mut out: Vec<(u64, i64)> = Vec::new();
    proof {
        assert(out@.to_multiset().add(rest@.to_multiset()) =~= orig.to_multiset());
        assert(pair_keys(out@).to_multiset().add(pair_keys(rest@).to_multiset())
            =~= pair_keys(orig).to_multiset());
        assert(pair_dists(out@).to_multiset().add(pair_dists(rest@).to_multiset())
            =~= pair_dists(orig).to_multiset());
    }
    while rest.len() > 0
        invariant
            out@.len() + rest@.len() == orig.len(),
            sorted_pairs(out@),
            forall|i: int, j: int|
                0 <= i < out@.len() && 0 <= j < rest@.len() ==> (#[trigger] out@[i]).1 <= (
                #[trigger] rest@[j]).1,
            out@.to_multiset().add(rest@.to_multiset()) == orig.to_multiset(),
            pair_keys(out@).to_multiset().add(pair_keys(rest@).to_multiset()) == pair_keys(
                orig,
            ).to_multiset(),
            pair_dists(out@).to_multiset().add(pair_dists(rest@).to_multiset()) == pair_dists(
                orig,
            ).to_multiset(),
            distinct_pair_keys(orig) ==> {
                &&& distinct_pair_keys(out@)
                &&& distinct_pair_keys(rest@)
                &&& forall|i: int, j: int|
                    0 <= i < out@.len() && 0 <= j < rest@.len() ==> (#[trigger] out@[i]).0 != (
                    #[trigger] rest@[j]).0
            },
        decreases rest@.len(),
    {
        let n = rest.len();
        let mut mi: usize = 0;
        let mut i: usize = 1;
        while i < n
            invariant
                0 <= mi < i <= n,
                n == rest@.len(),
                forall|j: int| 0 <= j < i ==> (#[trigger] rest@[j]).1 >= rest@[mi as int].1,
            decreases n - i,
        {
            if rest[i].1 < rest[mi].1 {
                mi = i;
            }
            i = i + 1;
        }
        let ghost old_rest = rest@;
        let ghost old_out = out@;
        let e = rest.remove(mi);
        out.push(e);
        proof {
            assert(e == old_rest[mi as int]);
            assert(rest@ == old_rest.remove(mi as int));
            assert(rest@.to_multiset() =~= old_rest.to_multiset().remove(e));
            assert(out@.to_multiset() =~= old_out.to_multiset().insert(e));
            assert(old_rest.to_multiset().count(e) > 0) by {
                assert(old_rest.contains(e));
            }
            assert(out@.to_multiset().add(rest@.to_multiset()) =~= old_out.to_multiset().add(
                old_rest.to_multiset(),
            ));
            assert(pair_keys(out@) =~= pair_keys(old_out).push(e.0));
            assert(pair_keys(rest@) =~= pair_keys(old_rest).remove(mi as int));
            assert(pair_keys(old_rest)[mi as int] == e.0);
            assert(pair_keys(rest@).to_multiset() =~= pair_keys(old_rest).to_multiset().remove(
                e.0,
            ));
            assert(pair_keys(out@).to_multiset() =~= pair_keys(old_out).to_multiset().insert(
                e.0,
            ));
            assert(pair_keys(old_rest).to_multiset().count(e.0) > 0) by {
                assert(pair_keys(old_rest).contains(e.0));
            }
            assert(pair_keys(out@).to_multiset().add(pair_keys(rest@).to_multiset())
                =~= pair_keys(old_out).to_multiset().add(pair_keys(old_rest).to_multiset()));
            assert(pair_dists(out@) =~= pair_dists(old_out).push(e.1));
            assert(pair_dists(rest@) =~= pair_dists(old_rest).remove(mi as int));
            assert(pair_dists(old_rest)[mi as int] == e.1);
            assert(pair_dists(rest@).to_multiset() =~= pair_dists(old_rest).to_multiset().remove(
                e.1,
            ));
            assert(pair_dists(out@).to_multiset() =~= pair_dists(old_out).to_multiset().insert(
                e.1,
            ));
            assert(pair_dists(old_rest).to_multiset().count(e.1) > 0) by {
                assert(pair_dists(old_rest).contains(e.1));
            }
            assert(pair_dists(out@).to_multiset().add(pair_dists(rest@).to_multiset())
                =~= pair_dists(old_out).to_multiset().add(pair_dists(old_rest).to_multiset()));
            assert forall|k: int| 0 <= k < rest@.len() implies #[trigger] rest@[k]
                == if k < mi as int {
                old_rest[k]
            } else {
                old_rest[k + 1]
            } by {}
            assert forall|i2: int, j2: int|
                0 <= i2 < out@.len() && 0 <= j2 < rest@.len() implies (#[trigger] out@[i2]).1 <= (
            #[trigger] rest@[j2]).1 by {
                if i2 < old_out.len() {
                } else {
                    assert(out@[i2] == e);
                }
            }
            if distinct_pair_keys(orig) {
                assert forall|i2: int, j2: int| 0 <= i2 < j2 < out@.len() implies (
                #[trigger] out@[i2]).0 != (#[trigger] out@[j2]).0 by {
                    if j2 == out@.len() - 1 {
                        assert(out@[i2] == old_out[i2]);
                        assert(out@[j2] == old_rest[mi as int]);
                    }
                }
            }
        }
    }
    proof {
        assert(rest@.to_multiset() =~= Multiset::<(u64, i64)>::empty()) by {
            assert(rest@ =~= Seq::<(u64, i64)>::empty());
        }
        assert(out@.to_multiset().add(Multiset::<(u64, i64)>::empty()) =~= out@.to_multiset());
        assert(pair_keys(rest@).to_multiset() =~= Multiset::<u64>::empty()) by {
            assert(pair_keys(rest@) =~= Seq::<u64>::empty());
        }
        assert(pair_keys(out@).to_multiset().add(Multiset::<u64>::empty()) =~= pair_keys(
            out@,
        ).to_multiset());
        assert(pair_dists(rest@).to_multiset() =~= Multiset::<i64>::empty()) by {
            assert(pair_dists(rest@) =~= Seq::<i64>::empty());
        }
        assert(pair_dists(out@).to_multiset().add(Multiset::<i64>::empty()) =~= pair_dists(
            out@,
        ).to_multiset());
    }
    out
}

/// Scores every stored vector against the query: the key of each stored
/// pair together with its distance, builtin or custom.
fn scored_entries<T: VectorType, M: MetricType>(e: &Engine<T>, query_ints: &Vec<i64>) -> (s: Vec<
    (u64, i64),
>)
    requires
        e.wf(),
        query_ints@.len() == e.opts().dimensions,
        bounded_values(query_ints@),
        e.custom_flag() || builtin_supported(e.opts().metric),
    ensures
        s@.len() == e.model().len(),
        forall|i: int| 0 <= i < s@.len() ==> (#[trigger] s@[i]).0 == e.model()[i].0,
        forall|i: int|
            0 <= i < s@.len() ==> (#[trigger] s@[i]).1 == metric_distance_spec::<M>(
                e.opts().metric,
                query_ints@,
                fixed_values(e.model()[i].1),
                e.custom_flag(),
            ),
{
    let n = e.size();
    let custom = e.is_custom();
    let kind = e.options().metric;
    let mut s: Vec<(u64, i64)> = Vec::new();
    let mut i: usize = 0;
    while i < n
        invariant
            0 <= i <= n,
            n == e.model().len(),
            e.wf(),
            custom == e.custom_flag(),
            kind == e.opts().metric,
            custom || builtin_supported(kind),
            query_ints@.len() == e.opts().dimensions,
            bounded_values(query_ints@),
            s@.len() == i,
            forall|k: int| 0 <= k < i ==> (#[trigger] s@[k]).0 == e.model()[k].0,
            forall|k: int|
                0 <= k < i ==> (#[trigger] s@[k]).1 == metric_distance_spec::<M>(
                    kind,
                    query_ints@,
                    fixed_values(e.model()[k].1),
                    custom,
                ),
        decreases n - i,
    {
        let key = e.key_at(i);
        let ints = e.ints_at(i);
        let d: i64 = if custom {
            M::custom_distance(query_ints, &ints)
        } else {
            builtin_distance(kind, query_ints, &ints)
        };
        s.push((key, d));
        i = i + 1;
    }
    s
}

/// A dimension- and metric-checked index of vectors keyed by 64-bit
/// identifiers.
///
/// `T` is the scalar type of indexed vectors, `D` their length, and `M`
/// the metric that ranks them.
pub struct HighLevel<T: VectorType, const D: usize, M: MetricType> {
    _m: PhantomData<M>,
    pub(crate) engine: Engine<T>,
}

impl<T: VectorType, const D: usize, M: MetricType> HighLevel<T, D, M> {
    /// The stored pairs of the index, in insertion order.
    pub closed spec fn model(self) -> Seq<(u64, Seq<T>)> {
        self.engine.model()
    }

    /// The options fixed at construction or metric-swap time.
    pub closed spec fn opts(self) -> IndexOptions {
        self.engine.opts()
    }

    /// Whether distances come from the metric type's custom function.
    pub closed spec fn custom(self) -> bool {
        self.engine.custom_flag()
    }

    /// The reserved capacity.
    pub closed spec fn spec_capacity(self) -> int {
        self.engine.spec_capacity()
    }

    /// Internal consistency: a consistent engine bound to the
    /// compile-time dimension.
    pub closed spec fn wf(self) -> bool {
        &&& self.engine.wf()
        &&& self.opts().dimensions == D
    }

    /// Read access to the engine, with its model equalities.
    pub(crate) fn engine_ref(&self) -> (e: &Engine<T>)
        ensures
            e.model() == self.model(),
            e.opts() == self.opts(),
            e.custom_flag() == self.custom(),
            e.spec_capacity() == self.spec_capacity(),
            self.wf() ==> e.wf() && e.opts().dimensions == D,
    {
        &self.engine
    }

    /// Mutable access to the engine, with the final facade state tied to
    /// the final engine state.
    pub(crate) fn engine_mut(&mut self) -> (e: &mut Engine<T>)
        ensures
            (*e).model() == old(self).model(),
            (*e).opts() == old(self).opts(),
            (*e).custom_flag() == old(self).custom(),
            (*e).spec_capacity() == old(self).spec_capacity(),
            old(self).wf() ==> (*e).wf() && (*e).opts().dimensions == D,
            final(self).model() == final(e).model(),
            final(self).opts() == final(e).opts(),
            final(self).custom() == final(e).custom_flag(),
            final(self).spec_capacity() == final(e).spec_capacity(),
            (final(e).wf() && final(e).opts().dimensions == D) ==> final(self).wf(),
    {
        &mut self.engine
    }

    fn from_engine(engine: Engine<T>) -> (r: Self)
        ensures
            r.model() == engine.model(),
            r.opts() == engine.opts(),
            r.custom() == engine.custom_flag(),
            r.spec_capacity() == engine.spec_capacity(),
    {
        HighLevel { _m: PhantomData, engine }
    }

    /// Builds the index from explicit options.
    ///
    /// Succeeds exactly when the options carry the compile-time
    /// dimension and the scalar type's quantization, the dimension is
    /// within bounds, and the metric type either supplies a custom
    /// function or maps to a kind with a builtin kernel; the options
    /// are then bound unchanged to an empty index.
    fn make_index(options: IndexOptions) -> (r: Result<Self, Error>)
        ensures
            match r {
                Ok(f) => {
                    &&& f.wf()
                    &&& f.model() == Seq::<(u64, Seq<T>)>::empty()
                    &&& f.opts() == options
                    &&& f.spec_capacity() == 0
                    &&& f.custom() == M::spec_custom()
                    &&& (f.custom() || builtin_supported(options.metric))
                    &&& options.dimensions == D
                },
                Err(_) => {
                    ||| options.dimensions != D
                    ||| options.dimensions > MAX_DIMENSIONS
                    ||| options.quantization != T::spec_quant_type()
                    ||| (!M::spec_custom() && !builtin_supported(options.metric))
                },
            },
            (options.dimensions != D || options.dimensions > MAX_DIMENSIONS
                || options.quantization != T::spec_quant_type() || (!M::spec_custom()
                && !builtin_supported(options.metric))) ==> r is Err,
    {
        if options.dimensions != D {
            return Err(Error::new("index construction: dimensions do not match the type"));
        }
        let custom = M::custom_metric();
        match Engine::construct(options, custom) {
            Ok(engine) => Ok(Self::from_engine(engine)),
            Err(e) => Err(e),
        }
    }

    /// Builds an index whose shape is given by the type parameters.
    ///
    /// Succeeds exactly when the compile-time dimension is within
    /// bounds and the metric type either supplies a custom function or
    /// maps to a kind with a builtin kernel. On success the index is
    /// empty and bound to options holding the compile-time dimension,
    /// the scalar type's quantization, the metric type's kind code, and
    /// the given tuning values.
    pub fn new(connectivity: usize, expansion_add: usize, expansion_search: usize, multi: bool)
        -> (r: Result<Self, Error>)
        ensures
            match r {
                Ok(f) => {
                    &&& f.wf()
                    &&& f.model() == Seq::<(u64, Seq<T>)>::empty()
                    &&& f.spec_capacity() == 0
                    &&& f.custom() == M::spec_custom()
                    &&& f.opts().metric == M::spec_kind()
                    &&& f.opts().dimensions == D
                    &&& f.opts().quantization == T::spec_quant_type()
                    &&& f.opts().connectivity == connectivity
                    &&& f.opts().expansion_add == expansion_add
                    &&& f.opts().expansion_search == expansion_search
                    &&& f.opts().multi == multi
                },
                Err(_) => D > MAX_DIMENSIONS || (!M::spec_custom() && !builtin_supported(
                    M::spec_kind(),
                )),
            },
            (D > MAX_DIMENSIONS || (!M::spec_custom() && !builtin_supported(M::spec_kind())))
                ==> r is Err,
    {
        let options = IndexOptions {
            dimensions: D,
            metric: M::get_kind(),
            quantization: T::quant_type(),
            connectivity,
            expansion_add,
            expansion_search,
            multi,
        };
        Self::make_index(options)
    }

    /// Builds the index with default tuning values; success and
    /// rejection follow exactly the conditions of [`HighLevel::new`].
    pub fn try_default() -> (r: Result<Self, Error>)
        ensures
            match r {
                Ok(f) => {
                    &&& f.wf()
                    &&& f.model() == Seq::<(u64, Seq<T>)>::empty()
                    &&& f.spec_capacity() == 0
                    &&& f.custom() == M::spec_custom()
                    &&& f.opts().metric == M::spec_kind()
                    &&& f.opts().dimensions == D
                    &&& f.opts().quantization == T::spec_quant_type()
                    &&& f.opts().connectivity == 0
                    &&& f.opts().expansion_add == 0
                    &&& f.opts().expansion_search == 0
                    &&& !f.opts().multi
                },
                Err(_) => D > MAX_DIMENSIONS || (!M::spec_custom() && !builtin_supported(
                    M::spec_kind(),
                )),
            },
            (D > MAX_DIMENSIONS || (!M::spec_custom() && !builtin_supported(M::spec_kind())))
                ==> r is Err,
    {
        let mut options = IndexOptions::default();
        options.dimensions = D;
        options.metric = M::get_kind();
        options.quantization = T::quant_type();
        Self::make_index(options)
    }

    /// Rebinds the index to a new metric, keeping the engine and every
    /// stored vector untouched: the new metric type's kind code and
    /// custom function are bound, and only the comparison function
    /// changes.
    pub fn change_metric<Nm: MetricType>(self) -> (r: HighLevel<T, D, Nm>)
        requires
            self.wf(),
        ensures
            r.wf(),
            r.model() == self.model(),
            r.spec_capacity() == self.spec_capacity(),
            r.opts().metric == Nm::spec_kind(),
            r.custom() == Nm::spec_custom(),
            r.opts().dimensions == self.opts().dimensions,
            r.opts().quantization == self.opts().quantization,
            r.opts().connectivity == self.opts().connectivity,
            r.opts().expansion_add == self.opts().expansion_add,
            r.opts().expansion_search == self.opts().expansion_search,
            r.opts().multi == self.opts().multi,
    {
        let kind = Nm::get_kind();
        let custom = Nm::custom_metric();
        let mut engine = self.engine;
        engine.rebind_metric(kind, custom);
        HighLevel { _m: PhantomData, engine }
    }

    /// Grows the reserved capacity to at least `n` vectors, including
    /// the current size; call it before a parallel insertion wave.
    pub fn reserve(&mut self, n: usize) -> (r: Result<(), Error>)
        requires
            old(self).wf(),
        ensures
            final(self).wf(),
            r is Ok,
            final(self).model() == old(self).model(),
            final(self).opts() == old(self).opts(),
            final(self).custom() == old(self).custom(),
            final(self).spec_capacity() == crate::engine::max_int(
                old(self).spec_capacity(),
                n as int,
            ),
    {
        self.engine.reserve(n);
        Ok(())
    }

    /// Stores a vector under the given key.
    ///
    /// Succeeds exactly when the vector has length `D` and the key is
    /// fresh or multiple vectors per key are enabled; the pair is then
    /// appended to the stored sequence.
    pub fn add(&mut self, key: Key, vector: &Vec<T>) -> (r: Result<(), Error>)
        requires
            old(self).wf(),
        ensures
            final(self).wf(),
            final(self).opts() == old(self).opts(),
            final(self).custom() == old(self).custom(),
            final(self).spec_capacity() >= old(self).spec_capacity(),
            match r {
                Ok(()) => {
                    &&& vector@.len() == D
                    &&& (old(self).opts().multi || !contains_key(old(self).model(), key))
                    &&& final(self).model() == old(self).model().push((key, vector@))
                },
                Err(_) => {
                    &&& final(self).model() == old(self).model()
                    &&& final(self).spec_capacity() == old(self).spec_capacity()
                    &&& (vector@.len() != D || (!old(self).opts().multi && contains_key(
                        old(self).model(),
                        key,
                    )))
                },
            },
    {
        self.engine.add(key, vector)
    }

    /// Copies the scalars stored under the given key into the front of
    /// the buffer, leaving its length and remainder untouched, and
    /// reports how many were written.
    ///
    /// A missing key yields `Ok(0)`: absence is not an error.
    pub fn get(&self, key: Key, buffer: &mut Vec<T>) -> (r: Result<usize, Error>)
        requires
            self.wf(),
        ensures
            match r {
                Ok(n) => {
                    &&& n == min(
                        old(buffer)@.len() as int,
                        vectors_under(self.model(), key).len() as int,
                    )
                    &&& final(buffer)@.len() == old(buffer)@.len()
                    &&& forall|i: int|
                        0 <= i < n ==> final(buffer)@[i] == vectors_under(self.model(), key)[i]
                    &&& forall|i: int|
                        n <= i < old(buffer)@.len() ==> final(buffer)@[i] == old(buffer)@[i]
                },
                Err(_) => false,
            },
    {
        Ok(self.engine.get(key, buffer))
    }

    /// Searches for up to `count` nearest matches to the query.
    ///
    /// Succeeds exactly when the query has length `D` and the bound
    /// metric is usable. The matches hold one entry per stored vector up
    /// to `count`, sorted by non-decreasing distance; every reported key
    /// is stored, with its distance computed by the bound metric; the
    /// reported distances are the smallest ones: the leading entries of
    /// some sorted arrangement of every stored vector's distance; no key
    /// is reported more often than it is stored, and keys stay distinct
    /// whenever the stored keys are.
    pub fn search(&self, query: &Vec<T>, count: usize) -> (r: Result<Matches, Error>)
        requires
            self.wf(),
        ensures
            match r {
                Ok(m) => {
                    &&& query@.len() == D
                    &&& (self.custom() || builtin_supported(self.opts().metric))
                    &&& m.wf()
                    &&& m.keys@.len() == min(count as int, self.model().len() as int)
                    &&& forall|i: int|
                        0 <= i < m.keys@.len() ==> search_hit::<T, M>(
                            self.model(),
                            self.opts().metric,
                            fixed_values(query@),
                            self.custom(),
                            #[trigger] m.keys@[i],
                            m.distances@[i],
                        )
                    &&& (forall|k: u64| #[trigger]
                        m.keys@.to_multiset().count(k) <= count_key(self.model(), k))
                    &&& (exists|full: Seq<i64>|
                        {
                            &&& #[trigger] sorted_distances(full)
                            &&& full.len() == self.model().len()
                            &&& full.to_multiset() == entry_distances::<T, M>(
                                self.model(),
                                self.opts().metric,
                                fixed_values(query@),
                                self.custom(),
                            ).to_multiset()
                            &&& m.distances@ == full.take(
                                min(count as int, self.model().len() as int),
                            )
                        })
                    &&& (distinct_keys(self.model()) ==> (forall|i: int, j: int|
                        0 <= i < j < m.keys@.len() ==> m.keys@[i] != m.keys@[j]))
                },
                Err(_) => query@.len() != D || (!self.custom() && !builtin_supported(
                    self.opts().metric,
                )),
            },
    {
        if query.len() != D {
            return Err(Error::new("search: query length does not match the index dimension"));
        }
        let custom = self.engine.is_custom();
        if !custom && !builtin_supported_exec(self.engine.options().metric) {
            return Err(Error::new("search: metric without builtin kernel or custom function"));
        }
        let qi = to_fixed_vec(query);
        let scored = scored_entries::<T, M>(&self.engine, &qi);
        let ghost scored_seq = scored@;
        proof {
            if distinct_keys(self.model()) {
                assert forall|i: int, j: int| 0 <= i < j < scored_seq.len() implies (
                #[trigger] scored_seq[i]).0 != (#[trigger] scored_seq[j]).0 by {
                    assert(self.model()[i].0 != self.model()[j].0);
                }
            }
        }
        let sorted = sort_by_distance(scored);
        let limit = if count < sorted.len() {
            count
        } else {
            sorted.len()
        };
        let mut keys: Vec<u64> = Vec::new();
        let mut distances: Vec<i64> = Vec::new();
        let mut i: usize = 0;
        while i < limit
            invariant
                0 <= i <= limit,
                limit <= sorted@.len(),
                keys@.len() == i,
                distances@.len() == i,
                forall|k: int|
                    0 <= k < i ==> keys@[k] == (#[trigger] sorted@[k]).0 && distances@[k]
                        == sorted@[k].1,
            decreases limit - i,
        {
            let p = sorted[i];
            keys.push(p.0);
            distances.push(p.1);
            i = i + 1;
        }
        let m = Matches { keys, distances };
        proof {
            assert forall|x: int, y: int|
                0 <= x <= y < m.distances@.len() implies m.distances@[x] <= m.distances@[y] by {
                assert(m.distances@[x] == sorted@[x].1);
                assert(m.distances@[y] == sorted@[y].1);
            }
            assert forall|i2: int| 0 <= i2 < m.keys@.len() implies search_hit::<T, M>(
                self.model(),
                self.opts().metric,
                fixed_values(query@),
                self.custom(),
                #[trigger] m.keys@[i2],
                m.distances@[i2],
            ) by {
                let p = sorted@[i2];
                assert(sorted@.contains(p));
                assert(sorted@.to_multiset().count(p) > 0);
                assert(scored_seq.to_multiset().count(p) > 0);
                assert(scored_seq.contains(p));
                let j = choose|j: int| 0 <= j < scored_seq.len() && scored_seq[j] == p;
                assert((scored_seq[j]).0 == self.model()[j].0);
                assert(m.keys@[i2] == p.0 && m.distances@[i2] == p.1);
                assert(0 <= j < self.model().len() && self.model()[j].0 == m.keys@[i2]
                    && m.distances@[i2] == metric_distance_spec::<M>(
                    self.opts().metric,
                    fixed_values(query@),
                    fixed_values(self.model()[j].1),
                    self.custom(),
                ));
            }
            if distinct_keys(self.model()) {
                assert forall|x: int, y: int|
                    0 <= x < y < m.keys@.len() implies m.keys@[x] != m.keys@[y] by {
                    assert(m.keys@[x] == sorted@[x].0);
                    assert(m.keys@[y] == sorted@[y].0);
                    assert(sorted@[x].0 != sorted@[y].0);
                }
            }
            let skeys = pair_keys(sorted@);
            let ckeys = pair_keys(scored_seq);
            assert(ckeys =~= model_keys(self.model()));
            assert(m.keys@ =~= skeys.take(limit as int));
            assert(skeys =~= skeys.take(limit as int) + skeys.skip(limit as int));
            lemma_to_multiset_concat(skeys.take(limit as int), skeys.skip(limit as int));
            assert forall|k: u64| #[trigger]
                m.keys@.to_multiset().count(k) <= count_key(self.model(), k) by {
                lemma_count_key_occurrences(self.model(), k);
                assert(skeys.to_multiset().count(k) == skeys.take(limit as int).to_multiset().count(
                    k,
                ) + skeys.skip(limit as int).to_multiset().count(k));
                assert(m.keys@.to_multiset() == skeys.take(limit as int).to_multiset());
                assert(skeys.to_multiset() == ckeys.to_multiset());
            }
            let full = pair_dists(sorted@);
            assert(sorted_distances(full)) by {
                assert forall|x: int, y: int| 0 <= x <= y < full.len() implies full[x]
                    <= full[y] by {
                    assert(full[x] == sorted@[x].1);
                    assert(full[y] == sorted@[y].1);
                }
            }
            assert(pair_dists(scored_seq) =~= entry_distances::<T, M>(
                self.model(),
                self.opts().metric,
                fixed_values(query@),
                self.custom(),
            ));
            assert(full.to_multiset() == pair_dists(scored_seq).to_multiset());
            assert(m.distances@ =~= full.take(limit as int));
            assert(full.len() == self.model().len());
        }
        Ok(m)
    }

    /// Searches like [`HighLevel::search`], additionally screening every
    /// candidate key with the given predicate.
    ///
    /// The predicate may be evaluated on any stored key, in any order,
    /// so it must be callable on every key and free of side effects.
    /// Every reported key is stored and was accepted by the predicate;
    /// no key is reported more often than it is stored; and when fewer
    /// than `count` matches are reported, every stored key was either
    /// reported or rejected by the predicate.
    pub fn filtered_search<F: Fn(Key) -> bool>(&self, query: &Vec<T>, count: usize, filter: F)
        -> (r: Result<Matches, Error>)
        requires
            self.wf(),
            forall|k: u64| #[trigger] call_requires(filter, (k,)),
        ensures
            match r {
                Ok(m) => {
                    &&& query@.len() == D
                    &&& (self.custom() || builtin_supported(self.opts().metric))
                    &&& m.wf()
                    &&& m.keys@.len() <= count
                    &&& m.keys@.len() <= self.model().len()
                    &&& forall|i: int|
                        0 <= i < m.keys@.len() ==> filtered_hit::<T, M, F>(
                            self.model(),
                            self.opts().metric,
                            fixed_values(query@),
                            self.custom(),
                            filter,
                            #[trigger] m.keys@[i],
                            m.distances@[i],
                        )
                    &&& (forall|k: u64| #[trigger]
                        m.keys@.to_multiset().count(k) <= count_key(self.model(), k))
                    &&& (m.keys@.len() < count ==> forall|j: int|
                        0 <= j < self.model().len() ==> (key_reported(
                            m.keys@,
                            (#[trigger] self.model()[j]).0,
                        ) || call_ensures(filter, (self.model()[j].0,), false)))
                    &&& (distinct_keys(self.model()) ==> (forall|i: int, j: int|
                        0 <= i < j < m.keys@.len() ==> m.keys@[i] != m.keys@[j]))
                },
                Err(_) => query@.len() != D || (!self.custom() && !builtin_supported(
                    self.opts().metric,
                )),
            },
    {
        if query.len() != D {
            return Err(Error::new("search: query length does not match the index dimension"));
        }
        let custom = self.engine.is_custom();
        let kind = self.engine.options().metric;
        if !custom && !builtin_supported_exec(kind) {
            return Err(Error::new("search: metric without builtin kernel or custom function"));
        }
        let qi = to_fixed_vec(query);
        let n = self.engine.size();
        let mut scored: Vec<(u64, i64)> = Vec::new();
        let ghost me = self.engine;
        let mut i: usize = 0;
        proof {
            assert(pair_keys(scored@) =~= Seq::<u64>::empty());
            assert(pair_keys(scored@).to_multiset() =~= Multiset::<u64>::empty());
            assert(me.model().take(0) =~= Seq::<(u64, Seq<T>)>::empty());
        }
        while i < n
            invariant
                0 <= i <= n,
                me == self.engine,
                n == me.model().len(),
                me.wf(),
                custom == me.custom_flag(),
                kind == me.opts().metric,
                custom || builtin_supported(kind),
                qi@.len() == me.opts().dimensions,
                bounded_values(qi@),
                forall|k: u64| #[trigger] call_requires(filter, (k,)),
                scored@.len() <= i,
                forall|k: int|
                    0 <= k < scored@.len() ==> filtered_hit::<T, M, F>(
                        me.model(),
                        kind,
                        qi@,
                        custom,
                        filter,
                        (#[trigger] scored@[k]).0,
                        scored@[k].1,
                    ),
                forall|j: int|
                    0 <= j < i ==> (pair_key_present(scored@, (#[trigger] me.model()[j]).0)
                        || call_ensures(filter, (me.model()[j].0,), false)),
                forall|k: u64| #[trigger]
                    pair_keys(scored@).to_multiset().count(k) <= count_key(
                        me.model().take(i as int),
                        k,
                    ),
                distinct_keys(me.model()) ==> distinct_pair_keys(scored@),
                distinct_keys(me.model()) ==> forall|k: int, j: int|
                    0 <= k < scored@.len() && i <= j < me.model().len() ==> (
                    #[trigger] scored@[k]).0 != (#[trigger] me.model()[j]).0,
            decreases n - i,
        {
            let key = self.engine.key_at(i);
            let accepted = filter(key);
            if accepted {
                let ints = self.engine.ints_at(i);
                let d: i64 = if custom {
                    M::custom_distance(&qi, &ints)
                } else {
                    builtin_distance(kind, &qi, &ints)
                };
                let ghost old_scored = scored@;
                scored.push((key, d));
                proof {
                    assert forall|k: int| 0 <= k < scored@.len() implies filtered_hit::<T, M, F>(
                        me.model(),
                        kind,
                        qi@,
                        custom,
                        filter,
                        (#[trigger] scored@[k]).0,
                        scored@[k].1,
                    ) by {
                        if k < old_scored.len() {
                            assert(scored@[k] == old_scored[k]);
                            assert(filtered_hit::<T, M, F>(
                                me.model(),
                                kind,
                                qi@,
                                custom,
                                filter,
                                old_scored[k].0,
                                old_scored[k].1,
                            ));
                        } else {
                            assert(scored@[k] == (key, d));
                            assert(0 <= i < me.model().len() && me.model()[i as int].0 == key
                                && call_ensures(filter, (me.model()[i as int].0,), true) && (custom
                                || d == builtin_distance_spec(
                                kind,
                                qi@,
                                fixed_values(me.model()[i as int].1),
                            )));
                        }
                    }
                    if distinct_keys(me.model()) {
                        assert forall|k: int, j: int|
                            0 <= k < j < scored@.len() implies (#[trigger] scored@[k]).0 != (
                        #[trigger] scored@[j]).0 by {
                            if j == scored@.len() - 1 {
                                assert(scored@[k] == old_scored[k]);
                            }
                        }
                    }
                    assert(pair_keys(scored@) =~= pair_keys(old_scored).push(key));
                    assert(pair_keys(scored@).to_multiset() =~= pair_keys(
                        old_scored,
                    ).to_multiset().insert(key));
                    assert forall|k2: u64| #[trigger]
                        pair_keys(scored@).to_multiset().count(k2) <= count_key(
                            me.model().take(i as int + 1),
                            k2,
                        ) by {
                        lemma_model_take_step(me.model(), k2, i as int);
                    }
                    assert forall|j: int|
                        0 <= j < i + 1 implies (pair_key_present(
                        scored@,
                        (#[trigger] me.model()[j]).0,
                    ) || call_ensures(filter, (me.model()[j].0,), false)) by {
                        if j == i as int {
                            assert((scored@[scored@.len() - 1]).0 == key);
                        } else {
                            if pair_key_present(old_scored, me.model()[j].0) {
                                let k3 = choose|k3: int|
                                    0 <= k3 < old_scored.len() && (#[trigger] old_scored[k3]).0
                                        == me.model()[j].0;
                                assert((scored@[k3]).0 == me.model()[j].0);
                            }
                        }
                    }
                }
            } else {
                proof {
                    assert(call_ensures(filter, (key,), false));
                    assert forall|k2: u64| #[trigger]
                        pair_keys(scored@).to_multiset().count(k2) <= count_key(
                            me.model().take(i as int + 1),
                            k2,
                        ) by {
                        lemma_model_take_step(me.model(), k2, i as int);
                    }
                }
            }
            i = i + 1;
        }
        let ghost scored_seq = scored@;
        let sorted = sort_by_distance(scored);
        let limit = if count < sorted.len() {
            count
        } else {
            sorted.len()
        };
        let mut keys: Vec<u64> = Vec::new();
        let mut distances: Vec<i64> = Vec::new();
        let mut i2: usize = 0;
        while i2 < limit
            invariant
                0 <= i2 <= limit,
                limit <= sorted@.len(),
                keys@.len() == i2,
                distances@.len() == i2,
                forall|k: int|
                    0 <= k < i2 ==> keys@[k] == (#[trigger] sorted@[k]).0 && distances@[k]
                        == sorted@[k].1,
            decreases limit - i2,
        {
            let p = sorted[i2];
            keys.push(p.0);
            distances.push(p.1);
            i2 = i2 + 1;
        }
        let m = Matches { keys, distances };
        proof {
            assert forall|x: int, y: int|
                0 <= x <= y < m.distances@.len() implies m.distances@[x] <= m.distances@[y] by {
                assert(m.distances@[x] == sorted@[x].1);
                assert(m.distances@[y] == sorted@[y].1);
            }
            assert forall|i3: int| 0 <= i3 < m.keys@.len() implies filtered_hit::<T, M, F>(
                self.model(),
                self.opts().metric,
                fixed_values(query@),
                self.custom(),
                filter,
                #[trigger] m.keys@[i3],
                m.distances@[i3],
            ) by {
                let p = sorted@[i3];
                assert(sorted@.contains(p));
                assert(sorted@.to_multiset().count(p) > 0);
                assert(scored_seq.to_multiset().count(p) > 0);
                assert(scored_seq.contains(p));
                let k = choose|k: int| 0 <= k < scored_seq.len() && scored_seq[k] == p;
                assert((scored_seq[k]).0 == p.0);
                assert(filtered_hit::<T, M, F>(me.model(), kind, qi@, custom, filter, p.0, p.1));
                assert(m.keys@[i3] == p.0 && m.distances@[i3] == p.1);
            }
            if distinct_keys(self.model()) {
                assert forall|x: int, y: int|
                    0 <= x < y < m.keys@.len() implies m.keys@[x] != m.keys@[y] by {
                    assert(m.keys@[x] == sorted@[x].0);
                    assert(m.keys@[y] == sorted@[y].0);
                    assert(sorted@[x].0 != sorted@[y].0);
                }
            }
            let skeys = pair_keys(sorted@);
            let ckeys = pair_keys(scored_seq);
            assert(me.model().take(n as int) =~= me.model());
            assert(m.keys@ =~= skeys.take(limit as int));
            assert(skeys =~= skeys.take(limit as int) + skeys.skip(limit as int));
            lemma_to_multiset_concat(skeys.take(limit as int), skeys.skip(limit as int));
            assert forall|k: u64| #[trigger]
                m.keys@.to_multiset().count(k) <= count_key(self.model(), k) by {
                assert(ckeys.to_multiset().count(k) <= count_key(me.model(), k));
                assert(skeys.to_multiset().count(k) == skeys.take(limit as int).to_multiset().count(
                    k,
                ) + skeys.skip(limit as int).to_multiset().count(k));
                assert(m.keys@.to_multiset() == skeys.take(limit as int).to_multiset());
                assert(skeys.to_multiset() == ckeys.to_multiset());
            }
            if m.keys@.len() < count {
                assert(limit == sorted@.len());
                assert(m.keys@ =~= skeys);
                assert forall|j: int| 0 <= j < self.model().len() implies (key_reported(
                    m.keys@,
                    (#[trigger] self.model()[j]).0,
                ) || call_ensures(filter, (self.model()[j].0,), false)) by {
                    if pair_key_present(scored_seq, me.model()[j].0) {
                        let kk = choose|kk: int|
                            0 <= kk < scored_seq.len() && (#[trigger] scored_seq[kk]).0
                                == me.model()[j].0;
                        assert(ckeys[kk] == me.model()[j].0);
                        assert(ckeys.to_multiset().count(me.model()[j].0) > 0) by {
                            assert(ckeys.contains(me.model()[j].0));
                        }
                        assert(skeys.to_multiset().count(me.model()[j].0) > 0);
                        assert(skeys.contains(me.model()[j].0));
                        let pp = choose|pp: int|
                            0 <= pp < skeys.len() && skeys[pp] == me.model()[j].0;
                        assert(m.keys@[pp] == me.model()[j].0);
                    }
                }
            }
        }
        Ok(m)
    }

    /// The candidate-list breadth used while inserting.
    pub fn expansion_add(&self) -> (n: usize)
        ensures
            n == self.opts().expansion_add,
    {
        self.engine.options().expansion_add
    }

    /// The candidate-list breadth used while searching.
    pub fn expansion_search(&self) -> (n: usize)
        ensures
            n == self.opts().expansion_search,
    {
        self.engine.options().expansion_search
    }

    /// Updates the candidate-list breadth used while inserting.
    pub fn change_expansion_add(&mut self, n: usize)
        requires
            old(self).wf(),
        ensures
            final(self).wf(),
            final(self).model() == old(self).model(),
            final(self).custom() == old(self).custom(),
            final(self).spec_capacity() == old(self).spec_capacity(),
            final(self).opts() == (IndexOptions { expansion_add: n, ..old(self).opts() }),
    {
        self.engine.set_expansion_add(n);
    }

    /// Updates the candidate-list breadth used while searching.
    pub fn change_expansion_search(&mut self, n: usize)
        requires
            old(self).wf(),
        ensures
            final(self).wf(),
            final(self).model() == old(self).model(),
            final(self).custom() == old(self).custom(),
            final(self).spec_capacity() == old(self).spec_capacity(),
            final(self).opts() == (IndexOptions { expansion_search: n, ..old(self).opts() }),
    {
        self.engine.set_expansion_search(n);
    }

    /// The number of scalars in every stored vector: always `D`.
    pub fn dimensions(&self) -> (n: usize)
        requires
            self.wf(),
        ensures
            n == D,
    {
        self.engine.options().dimensions
    }

    /// The connectivity bound fixed at construction.
    pub fn connectivity(&self) -> (n: usize)
        ensures
            n == self.opts().connectivity,
    {
        self.engine.options().connectivity
    }

    /// The number of stored vectors.
    pub fn size(&self) -> (n: usize)
        ensures
            n == self.model().len(),
    {
        self.engine.size()
    }

    /// The reserved capacity, including the current size.
    pub fn capacity(&self) -> (n: usize)
        ensures
            n == self.spec_capacity(),
    {
        self.engine.capacity()
    }

    /// Removes every vector stored under the given key, reporting how
    /// many were removed; afterwards the key is absent.
    pub fn remove(&mut self, key: Key) -> (r: Result<usize, Error>)
        requires
            old(self).wf(),
        ensures
            final(self).wf(),
            final(self).opts() == old(self).opts(),
            final(self).custom() == old(self).custom(),
            final(self).spec_capacity() == old(self).spec_capacity(),
            final(self).model() == without_key(old(self).model(), key),
            match r {
                Ok(n) => n == count_key(old(self).model(), key),
                Err(_) => false,
            },
    {
        self.engine.remove(key)
    }

    /// Relabels every vector stored under `from` with the key `to`,
    /// reporting how many were relabelled.
    ///
    /// Rejected exactly when both keys are distinct and present while
    /// multiple vectors per key are disabled.
    pub fn rename(&mut self, from: Key, to: Key) -> (r: Result<usize, Error>)
        requires
            old(self).wf(),
        ensures
            final(self).wf(),
            final(self).opts() == old(self).opts(),
            final(self).custom() == old(self).custom(),
            final(self).spec_capacity() == old(self).spec_capacity(),
            match r {
                Ok(n) => {
                    &&& n == count_key(old(self).model(), from)
                    &&& final(self).model() == renamed(old(self).model(), from, to)
                    &&& !(from != to && !old(self).opts().multi && contains_key(
                        old(self).model(),
                        from,
                    ) && contains_key(old(self).model(), to))
                },
                Err(_) => {
                    &&& final(self).model() == old(self).model()
                    &&& from != to
                    &&& !old(self).opts().multi
                    &&& contains_key(old(self).model(), from)
                    &&& contains_key(old(self).model(), to)
                },
            },
    {
        self.engine.rename(from, to)
    }

    /// Whether some vector is stored under the given key.
    pub fn contains(&self, key: Key) -> (r: bool)
        ensures
            r == contains_key(self.model(), key),
    {
        self.engine.contains(key)
    }

    /// How many vectors are stored under the given key.
    pub fn count(&self, key: Key) -> (n: usize)
        ensures
            n == count_key(self.model(), key),
    {
        self.engine.count(key)
    }

    /// Erases every stored vector and releases the reserved capacity;
    /// the options stay bound.
    pub fn reset(&mut self) -> (r: Result<(), Error>)
        requires
            old(self).wf(),
        ensures
            final(self).wf(),
            r is Ok,
            final(self).model() == Seq::<(u64, Seq<T>)>::empty(),
            final(self).opts() == old(self).opts(),
            final(self).custom() == old(self).custom(),
            final(self).spec_capacity() == 0,
    {
        self.engine.reset();
        Ok(())
    }

    /// A lower bound on the memory consumed by the index: a fixed
    /// overhead plus a per-vector share, saturated at the machine range.
    pub fn memory_usage(&self) -> (n: usize)
        requires
            self.wf(),
        ensures
            n == memory_usage_spec(self.model().len() as int, self.opts().dimensions as int),
    {
        let count = self.engine.size() as u128;
        let dims = self.engine.options().dimensions as u128;
        let per_entry: u128 = 32 + dims * 8;
        proof {
            assert(count * per_entry <= 0x8_0000_0000_0000_0000_0000_0000u128)
                by (nonlinear_arith)
                requires
                    count <= 0x1_0000_0000_0000_0000u128,
                    per_entry <= 0x8_0000_0000u128,
            ;
        }
        let total: u128 = 64 + count * per_entry;
        if total > usize::MAX as u128 {
            usize::MAX
        } else {
            total as usize
        }
    }
}

/// In an index that does not enable multiple vectors per key, no two
/// stored pairs share a key.
pub proof fn lemma_wf_distinct<T: VectorType, const D: usize, M: MetricType>(
    index: HighLevel<T, D, M>,
)
    requires
        index.wf(),
        !index.opts().multi,
    ensures
        distinct_keys(index.model()),
{
}

/// The stored vectors never outnumber the reserved capacity.
pub proof fn lemma_size_within_capacity<T: VectorType, const D: usize, M: MetricType>(
    index: HighLevel<T, D, M>,
)
    requires
        index.wf(),
    ensures
        index.model().len() <= index.spec_capacity(),
{
}

/// The memory estimate reported by [`HighLevel::memory_usage`]: 64 bytes
/// of fixed overhead plus, per stored vector, 32 bytes and 8 per scalar,
/// saturated at the machine range.
pub open spec fn memory_usage_spec(count: int, dims: int) -> usize {
    let total = 64 + count * (32 + dims * 8);
    if total > usize::MAX {
        usize::MAX
    } else {
        total as usize
    }
}

} // verus!
