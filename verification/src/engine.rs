//! The engine: an in-memory vector store keyed by 64-bit identifiers.
//!
//! One engine is exclusively owned by one typed facade. It keeps the
//! options fixed at construction, every stored `(key, vector)` pair in
//! insertion order, and the reserved capacity. Every operation is
//! specified against the engine's model: the sequence of stored pairs.

use vstd::prelude::*;
use vstd::pervasive::VecAdditionalExecFns;
use vstd::math::min;
use crate::Error;
use crate::IndexOptions;
use crate::MAX_DIMENSIONS;
use crate::scalar::VectorType;
use crate::metric::bounded_values;
use crate::metric::builtin_supported;
use crate::metric::builtin_supported_exec;

verus! {

/// Whether no two stored pairs share a key.
pub open spec fn distinct_keys<T>(s: Seq<(u64, Seq<T>)>) -> bool {
    forall|i: int, j: int| 0 <= i < j < s.len() ==> (#[trigger] s[i]).0 != (#[trigger] s[j]).0
}

/// The fixed-point scalar values of a stored vector.
pub open spec fn fixed_values<T: VectorType>(v: Seq<T>) -> Seq<i64> {
    v.map_values(|s: T| (s.spec_int() as i64))
}

/// How many stored pairs carry the given key.
pub open spec fn count_key<T>(s: Seq<(u64, Seq<T>)>, key: u64) -> int
    decreases s.len(),
{
    if s.len() == 0 {
        0
    } else {
        count_key(s.drop_last(), key) + if s.last().0 == key {
            1int
        } else {
            0int
        }
    }
}

/// Whether some stored pair carries the given key.
pub open spec fn contains_key<T>(s: Seq<(u64, Seq<T>)>, key: u64) -> bool {
    exists|i: int| 0 <= i < s.len() && (#[trigger] s[i]).0 == key
}

/// The scalars stored under the given key: the concatenation, in
/// insertion order, of every vector carrying it.
pub open spec fn vectors_under<T>(s: Seq<(u64, Seq<T>)>, key: u64) -> Seq<T>
    decreases s.len(),
{
    if s.len() == 0 {
        Seq::empty()
    } else {
        vectors_under(s.drop_last(), key) + if s.last().0 == key {
            s.last().1
        } else {
            Seq::empty()
        }
    }
}

/// The stored pairs whose key differs from the given one, in order.
pub open spec fn without_key<T>(s: Seq<(u64, Seq<T>)>, key: u64) -> Seq<(u64, Seq<T>)>
    decreases s.len(),
{
    if s.len() == 0 {
        Seq::empty()
    } else {
        without_key(s.drop_last(), key) + if s.last().0 == key {
            Seq::empty()
        } else {
            seq![s.last()]
        }
    }
}

/// The stored pairs with every occurrence of `from` relabelled `to`.
pub open spec fn renamed<T>(s: Seq<(u64, Seq<T>)>, from: u64, to: u64) -> Seq<(u64, Seq<T>)> {
    s.map_values(
        |p: (u64, Seq<T>)|
            if p.0 == from {
                (to, p.1)
            } else {
                p
            },
    )
}

/// A key occurs in a model exactly as often as [`count_key`] says.
pub proof fn lemma_count_key_contains<T>(s: Seq<(u64, Seq<T>)>, key: u64)
    ensures
        count_key(s, key) > 0 <==> contains_key(s, key),
        0 <= count_key(s, key) <= s.len(),
    decreases s.len(),
{
    if s.len() > 0 {
        lemma_count_key_contains(s.drop_last(), key);
        if s.last().0 == key {
            assert(s[s.len() - 1].0 == key);
        } else {
            if contains_key(s, key) {
                let i = choose|i: int| 0 <= i < s.len() && (#[trigger] s[i]).0 == key;
                assert(i < s.len() - 1);
                assert(s.drop_last()[i] == s[i]);
                assert(contains_key(s.drop_last(), key));
            }
            if contains_key(s.drop_last(), key) {
                let i = choose|i: int|
                    0 <= i < s.drop_last().len() && (#[trigger] s.drop_last()[i]).0 == key;
                assert(s[i] == s.drop_last()[i]);
                assert(contains_key(s, key));
            }
        }
    }
}

/// How [`count_key`], [`vectors_under`] and [`without_key`] grow when one
/// more stored pair is taken into view.
pub proof fn lemma_model_take_step<T>(s: Seq<(u64, Seq<T>)>, key: u64, i: int)
    requires
        0 <= i < s.len(),
    ensures
        count_key(s.take(i + 1), key) == count_key(s.take(i), key) + if s[i].0 == key {
            1int
        } else {
            0int
        },
        vectors_under(s.take(i + 1), key) == vectors_under(s.take(i), key) + if s[i].0 == key {
            s[i].1
        } else {
            Seq::<T>::empty()
        },
        without_key(s.take(i + 1), key) == without_key(s.take(i), key) + if s[i].0 == key {
            Seq::<(u64, Seq<T>)>::empty()
        } else {
            seq![s[i]]
        },
{
    assert(s.take(i + 1).drop_last() =~= s.take(i));
    assert(s.take(i + 1).last() == s[i]);
}

/// The engine owning the stored vectors of one index.
pub struct Engine<T> {
    options: IndexOptions,
    custom: bool,
    entries: Vec<(u64, Vec<T>)>,
    cap: usize,
}

impl<T: VectorType> Engine<T> {
    /// The stored pairs, each vector read as its scalar sequence.
    pub closed spec fn model(self) -> Seq<(u64, Seq<T>)> {
        self.entries@.map_values(|p: (u64, Vec<T>)| (p.0, p.1@))
    }

    /// The options fixed when the engine was constructed.
    pub closed spec fn opts(self) -> IndexOptions {
        self.options
    }

    /// Whether distances come from a custom metric function.
    pub closed spec fn custom_flag(self) -> bool {
        self.custom
    }

    /// The reserved capacity.
    pub closed spec fn spec_capacity(self) -> int {
        self.cap as int
    }

    /// Internal consistency: bounded dimensions, every stored vector of
    /// the fixed dimension, unique keys unless `multi`, capacity at
    /// least the current size, and a usable metric configuration.
    pub open spec fn wf(self) -> bool {
        &&& self.opts().dimensions <= MAX_DIMENSIONS
        &&& forall|j: int|
            0 <= j < self.model().len() ==> (#[trigger] self.model()[j]).1.len()
                == self.opts().dimensions
        &&& (!self.opts().multi ==> distinct_keys(self.model()))
        &&& self.model().len() <= self.spec_capacity()
        &&& self.opts().quantization == T::spec_quant_type()
    }

    /// Constructs an engine for the given options.
    ///
    /// Construction succeeds exactly when the dimension is within
    /// bounds, the quantization matches the scalar type, and the metric
    /// either has a builtin kernel or is custom.
    pub fn construct(options: IndexOptions, custom: bool) -> (r: Result<Engine<T>, Error>)
        ensures
            match r {
                Ok(e) => {
                    &&& e.wf()
                    &&& e.model() == Seq::<(u64, Seq<T>)>::empty()
                    &&& e.opts() == options
                    &&& e.custom_flag() == custom
                    &&& e.spec_capacity() == 0
                    &&& (custom || builtin_supported(options.metric))
                },
                Err(_) => {
                    ||| options.dimensions > MAX_DIMENSIONS
                    ||| options.quantization != T::spec_quant_type()
                    ||| (!custom && !builtin_supported(options.metric))
                },
            },
    {
        if options.dimensions > MAX_DIMENSIONS {
            return Err(Error::new("index construction: dimensions above the supported maximum"));
        }
        if !(options.quantization == T::quant_type()) {
            return Err(Error::new("index construction: quantization does not match scalar type"));
        }
        if !custom && !builtin_supported_exec(options.metric) {
            return Err(
                Error::new("index construction: metric without builtin kernel or custom function"),
            );
        }
        let e = Engine { options, custom, entries: Vec::new(), cap: 0 };
        proof {
            assert(e.model() =~= Seq::<(u64, Seq<T>)>::empty());
        }
        Ok(e)
    }

    /// The number of stored vectors.
    pub fn size(&self) -> (n: usize)
        ensures
            n == self.model().len(),
    {
        self.entries.len()
    }

    /// The reserved capacity.
    pub fn capacity(&self) -> (n: usize)
        ensures
            n == self.spec_capacity(),
    {
        self.cap
    }

    /// The options fixed at construction, as data.
    pub fn options(&self) -> (o: IndexOptions)
        ensures
            o == self.opts(),
    {
        self.options
    }

    /// Whether distances come from a custom metric function.
    pub fn is_custom(&self) -> (c: bool)
        ensures
            c == self.custom_flag(),
    {
        self.custom
    }

    /// Rebinds the metric configuration, keeping every stored vector.
    pub fn rebind_metric(&mut self, metric: crate::MetricKind, custom: bool)
        ensures
            final(self).model() == old(self).model(),
            final(self).spec_capacity() == old(self).spec_capacity(),
            final(self).custom_flag() == custom,
            final(self).opts() == (IndexOptions { metric, ..old(self).opts() }),
    {
        self.options.metric = metric;
        self.custom = custom;
    }

    /// Updates the candidate-list breadth used while inserting.
    pub fn set_expansion_add(&mut self, n: usize)
        ensures
            final(self).model() == old(self).model(),
            final(self).spec_capacity() == old(self).spec_capacity(),
            final(self).custom_flag() == old(self).custom_flag(),
            final(self).opts() == (IndexOptions { expansion_add: n, ..old(self).opts() }),
    {
        self.options.expansion_add = n;
    }

    /// Updates the candidate-list breadth used while searching.
    pub fn set_expansion_search(&mut self, n: usize)
        ensures
            final(self).model() == old(self).model(),
            final(self).spec_capacity() == old(self).spec_capacity(),
            final(self).custom_flag() == old(self).custom_flag(),
            final(self).opts() == (IndexOptions { expansion_search: n, ..old(self).opts() }),
    {
        self.options.expansion_search = n;
    }

    /// Grows the reserved capacity to at least `n` slots.
    pub fn reserve(&mut self, n: usize)
        ensures
            final(self).model() == old(self).model(),
            final(self).opts() == old(self).opts(),
            final(self).custom_flag() == old(self).custom_flag(),
            final(self).spec_capacity() == max_int(old(self).spec_capacity(), n as int),
    {
        if n > self.cap {
            let len = self.entries.len();
            if n > len {
                self.entries.reserve(n - len);
            }
            self.cap = n;
        }
    }

    /// The key of the stored pair at the given position.
    pub fn key_at(&self, i: usize) -> (k: u64)
        requires
            i < self.model().len(),
        ensures
            k == self.model()[i as int].0,
    {
        self.entries[i].0
    }

    /// The stored vector at the given position.
    pub fn vector_at(&self, i: usize) -> (v: &Vec<T>)
        requires
            i < self.model().len(),
        ensures
            v@ == self.model()[i as int].1,
    {
        &self.entries[i].1
    }

    /// The fixed-point scalar values of the vector at the given position.
    pub fn ints_at(&self, i: usize) -> (v: Vec<i64>)
        requires
            i < self.model().len(),
        ensures
            v@ == fixed_values(self.model()[i as int].1),
            v@.len() == self.model()[i as int].1.len(),
            bounded_values(v@),
    {
        let e = &self.entries[i];
        to_fixed_vec(&e.1)
    }

    /// Whether some stored pair carries the given key.
    pub fn contains(&self, key: u64) -> (r: bool)
        ensures
            r == contains_key(self.model(), key),
    {
        let n = self.entries.len();
        let mut i: usize = 0;
        while i < n
            invariant
                0 <= i <= n,
                n == self.model().len(),
                forall|j: int| 0 <= j < i ==> (#[trigger] self.model()[j]).0 != key,
            decreases n - i,
        {
            if self.entries[i].0 == key {
                assert(self.model()[i as int].0 == key);
                return true;
            }
            i = i + 1;
        }
        false
    }

    /// How many stored pairs carry the given key.
    pub fn count(&self, key: u64) -> (n: usize)
        ensures
            n == count_key(self.model(), key),
    {
        let len = self.entries.len();
        let mut c: usize = 0;
        let mut i: usize = 0;
        proof {
            lemma_count_key_contains(self.model(), key);
        }
        while i < len
            invariant
                0 <= i <= len,
                len == self.model().len(),
                c == count_key(self.model().take(i as int), key),
                c <= i,
            decreases len - i,
        {
            proof {
                lemma_model_take_step(self.model(), key, i as int);
            }
            if self.entries[i].0 == key {
                c = c + 1;
            }
            i = i + 1;
        }
        proof {
            assert(self.model().take(len as int) =~= self.model());
        }
        c
    }

    /// Stores a vector under the given key.
    ///
    /// Succeeds exactly when the vector has the fixed dimension and the
    /// key is fresh or multiple vectors per key are enabled; the pair is
    /// then appended to the stored sequence.
    pub fn add(&mut self, key: u64, vector: &Vec<T>) -> (r: Result<(), Error>)
        requires
            old(self).wf(),
        ensures
            final(self).wf(),
            final(self).opts() == old(self).opts(),
            final(self).custom_flag() == old(self).custom_flag(),
            final(self).spec_capacity() >= old(self).spec_capacity(),
            match r {
                Ok(()) => {
                    &&& vector@.len() == old(self).opts().dimensions
                    &&& (old(self).opts().multi || !contains_key(old(self).model(), key))
                    &&& final(self).model() == old(self).model().push((key, vector@))
                },
                Err(_) => {
                    &&& *final(self) == *old(self)
                    &&& (vector@.len() != old(self).opts().dimensions || (!old(
                        self,
                    ).opts().multi && contains_key(old(self).model(), key)))
                },
            },
    {
        if vector.len() != self.options.dimensions {
            return Err(Error::new("add: vector length does not match the index dimension"));
        }
        if !self.options.multi && self.contains(key) {
            return Err(Error::new("add: duplicate key while multiple vectors are disabled"));
        }
        let stored = clone_vector(vector);
        let ghost oldm = self.model();
        self.entries.push((key, stored));
        if self.cap < self.entries.len() {
            let len = self.entries.len();
            self.cap = len;
        }
        proof {
            assert(self.model() =~= oldm.push((key, vector@)));
            if !self.options.multi {
                assert forall|i: int, j: int| 0 <= i < j < self.model().len() implies (
                #[trigger] self.model()[i]).0 != (#[trigger] self.model()[j]).0 by {
                    if j == self.model().len() - 1 {
                        assert(!contains_key(oldm, key));
                        assert(oldm[i].0 != key);
                    }
                }
            }
        }
        Ok(())
    }

    /// Copies the scalars stored under the given key into the front of
    /// the buffer, leaving its length and remainder untouched.
    ///
    /// Returns how many scalars were written: the length of the stored
    /// concatenation or of the buffer, whichever is smaller. A missing
    /// key yields 0 written, which is not an error.
    pub fn get(&self, key: u64, buffer: &mut Vec<T>) -> (n: usize)
        requires
            self.wf(),
        ensures
            n == min(old(buffer)@.len() as int, vectors_under(self.model(), key).len() as int),
            final(buffer)@.len() == old(buffer)@.len(),
            forall|i: int|
                0 <= i < n ==> final(buffer)@[i] == vectors_under(self.model(), key)[i],
            forall|i: int|
                n <= i < old(buffer)@.len() ==> final(buffer)@[i] == old(buffer)@[i],
    {
        let ghost m = self.model();
        let buf_len = buffer.len();
        let n_entries = self.entries.len();
        let mut pos: usize = 0;
        let mut j: usize = 0;
        while j < n_entries
            invariant
                0 <= j <= n_entries,
                n_entries == m.len(),
                m == self.model(),
                self.wf(),
                buffer@.len() == buf_len == old(buffer)@.len(),
                pos == min(buf_len as int, vectors_under(m.take(j as int), key).len() as int),
                forall|i: int|
                    0 <= i < pos ==> buffer@[i] == vectors_under(m.take(j as int), key)[i],
                forall|i: int| pos <= i < buf_len ==> buffer@[i] == old(buffer)@[i],
            decreases n_entries - j,
        {
            proof {
                lemma_model_take_step(m, key, j as int);
            }
            let ghost vu_j = vectors_under(m.take(j as int), key);
            let ghost vu_j1 = vectors_under(m.take(j as int + 1), key);
            if self.entries[j].0 == key {
                assert(m[j as int].0 == key);
                assert(vu_j1 == vu_j + m[j as int].1);
                let vlen = self.entries[j].1.len();
                assert(vlen == m[j as int].1.len());
                let mut t: usize = 0;
                while t < vlen && pos < buf_len
                    invariant
                        0 <= t <= vlen,
                        vlen == m[j as int].1.len(),
                        j < m.len(),
                        m == self.model(),
                        vu_j1 == vu_j + m[j as int].1,
                        buffer@.len() == buf_len == old(buffer)@.len(),
                        pos == min(buf_len as int, vu_j.len() + t),
                        pos <= buf_len,
                        forall|i: int| 0 <= i < pos ==> buffer@[i] == vu_j1[i],
                        forall|i: int| pos <= i < buf_len ==> buffer@[i] == old(buffer)@[i],
                    decreases vlen - t,
                {
                    let value = self.entries[j].1[t];
                    assert(value == m[j as int].1[t as int]);
                    assert(pos == vu_j.len() + t);
                    assert(vu_j1[pos as int] == m[j as int].1[t as int]);
                    buffer.set(pos, value);
                    pos = pos + 1;
                    t = t + 1;
                }
                assert(pos == min(buf_len as int, vu_j1.len() as int));
            } else {
                assert(vu_j1 == vu_j + Seq::<T>::empty());
                assert(vu_j1 =~= vu_j);
            }
            j = j + 1;
        }
        proof {
            assert(m.take(n_entries as int) =~= m);
        }
        pos
    }

    /// Removes every vector stored under the given key, reporting how
    /// many were removed; the other pairs keep their order.
    pub fn remove(&mut self, key: u64) -> (r: Result<usize, Error>)
        requires
            old(self).wf(),
        ensures
            final(self).wf(),
            final(self).opts() == old(self).opts(),
            final(self).custom_flag() == old(self).custom_flag(),
            final(self).spec_capacity() == old(self).spec_capacity(),
            final(self).model() == without_key(old(self).model(), key),
            match r {
                Ok(n) => n == count_key(old(self).model(), key),
                Err(_) => false,
            },
    {
        let ghost m = self.model();
        let n_entries = self.entries.len();
        let mut kept: Vec<(u64, Vec<T>)> = Vec::new();
        let mut removed: usize = 0;
        let mut j: usize = 0;
        proof {
            assert(kept@.map_values(|p: (u64, Vec<T>)| (p.0, p.1@)) =~= without_key(
                m.take(0),
                key,
            ));
        }
        while j < n_entries
            invariant
                0 <= j <= n_entries,
                n_entries == m.len(),
                m == self.model(),
                self.wf(),
                removed == count_key(m.take(j as int), key),
                removed <= j,
                kept@.len() <= j,
                kept@.len() <= j,
                kept@.map_values(|p: (u64, Vec<T>)| (p.0, p.1@)) == without_key(
                    m.take(j as int),
                    key,
                ),
            decreases n_entries - j,
        {
            proof {
                lemma_model_take_step(m, key, j as int);
            }
            if self.entries[j].0 == key {
                removed = removed + 1;
            } else {
                let k = self.entries[j].0;
                let v = clone_vector(&self.entries[j].1);
                let ghost keptm = kept@.map_values(|p: (u64, Vec<T>)| (p.0, p.1@));
                kept.push((k, v));
                proof {
                    assert(kept@.map_values(|p: (u64, Vec<T>)| (p.0, p.1@)) =~= keptm.push(
                        (k, v@),
                    ));
                    assert((k, v@) == m[j as int]);
                }
            }
            j = j + 1;
        }
        proof {
            assert(m.take(n_entries as int) =~= m);
        }
        self.entries = kept;
        proof {
            lemma_without_key_props(m, key);
            if !self.options.multi {
                assert(distinct_keys(self.model()));
            }
        }
        Ok(removed)
    }

    /// Relabels every vector stored under `from` with the key `to`,
    /// reporting how many were relabelled.
    ///
    /// Rejected exactly when both keys are distinct and present while
    /// multiple vectors per key are disabled, since the relabelling
    /// would then store two vectors under one key.
    pub fn rename(&mut self, from: u64, to: u64) -> (r: Result<usize, Error>)
        requires
            old(self).wf(),
        ensures
            final(self).wf(),
            final(self).opts() == old(self).opts(),
            final(self).custom_flag() == old(self).custom_flag(),
            final(self).spec_capacity() == old(self).spec_capacity(),
            match r {
                Ok(n) => {
                    &&& n == count_key(old(self).model(), from)
                    &&& final(self).model() == renamed(old(self).model(), from, to)
                    &&& !(from != to && !old(self).opts().multi && contains_key(
                        old(self).model(),
                        from,
                    ) && contains_key(old(self).model(), to))
                },
                Err(_) => {
                    &&& *final(self) == *old(self)
                    &&& from != to
                    &&& !old(self).opts().multi
                    &&& contains_key(old(self).model(), from)
                    &&& contains_key(old(self).model(), to)
                },
            },
    {
        if from != to && !self.options.multi && self.contains(from) && self.contains(to) {
            return Err(Error::new("rename: target key already present"));
        }
        let ghost m = self.model();
        let n_entries = self.entries.len();
        let mut built: Vec<(u64, Vec<T>)> = Vec::new();
        let mut renamed_count: usize = 0;
        let mut j: usize = 0;
        proof {
            assert(built@.map_values(|p: (u64, Vec<T>)| (p.0, p.1@)) =~= renamed(
                m.take(0),
                from,
                to,
            ));
        }
        while j < n_entries
            invariant
                0 <= j <= n_entries,
                n_entries == m.len(),
                m == self.model(),
                self.wf(),
                renamed_count == count_key(m.take(j as int), from),
                renamed_count <= j,
                built@.len() == j,
                built@.map_values(|p: (u64, Vec<T>)| (p.0, p.1@)) == renamed(
                    m.take(j as int),
                    from,
                    to,
                ),
            decreases n_entries - j,
        {
            proof {
                lemma_model_take_step(m, from, j as int);
                assert(m.take(j as int + 1) =~= m.take(j as int).push(m[j as int]));
            }
            let ghost builtm = built@.map_values(|p: (u64, Vec<T>)| (p.0, p.1@));
            let k = self.entries[j].0;
            let v = clone_vector(&self.entries[j].1);
            if k == from {
                built.push((to, v));
                renamed_count = renamed_count + 1;
            } else {
                built.push((k, v));
            }
            proof {
                assert(renamed(m.take(j as int + 1), from, to) =~= renamed(
                    m.take(j as int),
                    from,
                    to,
                ).push(
                    if m[j as int].0 == from {
                        (to, m[j as int].1)
                    } else {
                        m[j as int]
                    },
                ));
                assert(built@.map_values(|p: (u64, Vec<T>)| (p.0, p.1@)) =~= builtm.push(
                    if m[j as int].0 == from {
                        (to, m[j as int].1)
                    } else {
                        m[j as int]
                    },
                ));
            }
            j = j + 1;
        }
        proof {
            assert(m.take(n_entries as int) =~= m);
        }
        self.entries = built;
        proof {
            let newm = self.model();
            assert(newm == renamed(m, from, to));
            assert forall|i: int| 0 <= i < newm.len() implies (#[trigger] newm[i]).1.len()
                == self.options.dimensions by {
                assert(m[i].1.len() == self.options.dimensions);
            }
            if !self.options.multi {
                lemma_renamed_distinct(m, from, to);
            }
        }
        Ok(renamed_count)
    }

    /// Replaces the whole engine state with one materialized from a
    /// serialized stream: the decoded options and stored pairs, keeping
    /// the custom-metric flag bound to the facade's metric type.
    pub fn restore(&mut self, options: IndexOptions, entries: Vec<(u64, Vec<T>)>)
        requires
            options.dimensions <= MAX_DIMENSIONS,
            options.quantization == T::spec_quant_type(),
            forall|j: int|
                0 <= j < entries@.len() ==> (#[trigger] entries@[j]).1@.len()
                    == options.dimensions,
            !options.multi ==> distinct_keys(
                entries@.map_values(|p: (u64, Vec<T>)| (p.0, p.1@)),
            ),
        ensures
            final(self).wf(),
            final(self).opts() == options,
            final(self).custom_flag() == old(self).custom_flag(),
            final(self).model() == entries@.map_values(|p: (u64, Vec<T>)| (p.0, p.1@)),
            final(self).spec_capacity() == entries@.len(),
    {
        let cap = entries.len();
        self.options = options;
        self.entries = entries;
        self.cap = cap;
        proof {
            assert forall|j: int| 0 <= j < self.model().len() implies (
            #[trigger] self.model()[j]).1.len() == options.dimensions by {
                assert(self.model()[j] == (self.entries@[j].0, self.entries@[j].1@));
            }
        }
    }

    /// Erases every stored vector and releases the reserved capacity;
    /// the options stay bound.
    pub fn reset(&mut self)
        requires
            old(self).wf(),
        ensures
            final(self).wf(),
            final(self).opts() == old(self).opts(),
            final(self).custom_flag() == old(self).custom_flag(),
            final(self).model() == Seq::<(u64, Seq<T>)>::empty(),
            final(self).spec_capacity() == 0,
    {
        self.entries.clear();
        self.cap = 0;
        proof {
            assert(self.model() =~= Seq::<(u64, Seq<T>)>::empty());
        }
    }
}

/// The larger of two integers.
pub open spec fn max_int(a: int, b: int) -> int {
    if a >= b {
        a
    } else {
        b
    }
}

/// Copies a vector of scalars.
pub fn clone_vector<T: VectorType>(v: &Vec<T>) -> (r: Vec<T>)
    ensures
        r@ == v@,
{
    let n = v.len();
    let mut r: Vec<T> = Vec::new();
    let mut i: usize = 0;
    while i < n
        invariant
            0 <= i <= n,
            n == v@.len(),
            r@ == v@.take(i as int),
        decreases n - i,
    {
        let x = v[i];
        r.push(x);
        proof {
            assert(v@.take(i as int + 1) =~= v@.take(i as int).push(v@[i as int]));
        }
        i = i + 1;
    }
    proof {
        assert(v@.take(n as int) =~= v@);
    }
    r
}

/// The fixed-point scalar values of a vector.
pub fn to_fixed_vec<T: VectorType>(v: &Vec<T>) -> (r: Vec<i64>)
    ensures
        r@ == fixed_values(v@),
        r@.len() == v@.len(),
        bounded_values(r@),
{
    let n = v.len();
    let mut r: Vec<i64> = Vec::new();
    let mut i: usize = 0;
    while i < n
        invariant
            0 <= i <= n,
            n == v@.len(),
            r@.len() == i,
            forall|k: int| 0 <= k < i ==> r@[k] == (v@[k].spec_int() as i64),
            bounded_values(r@),
        decreases n - i,
    {
        let x = v[i].to_int();
        r.push(x);
        i = i + 1;
    }
    proof {
        assert(r@ =~= fixed_values(v@));
    }
    r
}

/// What remains after [`without_key`]: pairs of the original model, none
/// of them carrying the removed key, their number reduced by the key's
/// count, and distinctness of keys preserved.
pub proof fn lemma_without_key_props<T>(s: Seq<(u64, Seq<T>)>, key: u64)
    ensures
        without_key(s, key).len() + count_key(s, key) == s.len(),
        forall|i: int|
            0 <= i < without_key(s, key).len() ==> (#[trigger] without_key(s, key)[i]).0 != key
                && s.contains(without_key(s, key)[i]),
        distinct_keys(s) ==> distinct_keys(without_key(s, key)),
        !contains_key(s, key) ==> without_key(s, key) == s,
        forall|k2: u64| #[trigger]
            count_key(without_key(s, key), k2) == if k2 == key {
                0int
            } else {
                count_key(s, k2)
            },
    decreases s.len(),
{
    if s.len() == 0 {
        assert(without_key(s, key) =~= s);
        assert forall|k2: u64| #[trigger]
            count_key(without_key(s, key), k2) == if k2 == key {
                0int
            } else {
                count_key(s, k2)
            } by {
            assert(count_key(without_key(s, key), k2) == 0);
        }
    } else {
        let d = s.drop_last();
        lemma_without_key_props(d, key);
        let w = without_key(s, key);
        let wd = without_key(d, key);
        assert forall|i: int| 0 <= i < w.len() implies (#[trigger] w[i]).0 != key && s.contains(
            w[i],
        ) by {
            if i < wd.len() {
                assert(w[i] == wd[i]);
                let o = choose|o: int| 0 <= o < d.len() && d[o] == wd[i];
                assert(s[o] == d[o]);
            } else {
                assert(s.last().0 != key);
                assert(w[i] == s.last());
                assert(s[s.len() - 1] == s.last());
            }
        }
        if distinct_keys(s) {
            assert(distinct_keys(d)) by {
                assert forall|i: int, j: int| 0 <= i < j < d.len() implies (#[trigger] d[i]).0 != (
                #[trigger] d[j]).0 by {
                    assert(s[i] == d[i] && s[j] == d[j]);
                }
            }
            assert forall|i: int, j: int| 0 <= i < j < w.len() implies (#[trigger] w[i]).0 != (
            #[trigger] w[j]).0 by {
                if j < wd.len() {
                } else {
                    if s.last().0 != key {
                        assert(w[j] == s.last());
                        assert(w[i] == wd[i]);
                        let o = choose|o: int| 0 <= o < d.len() && d[o] == wd[i];
                        assert(s[o] == d[o]);
                        assert(s[o].0 != s[s.len() - 1].0);
                    }
                }
            }
        }
        if !contains_key(s, key) {
            assert(!contains_key(d, key)) by {
                if contains_key(d, key) {
                    let i = choose|i: int| 0 <= i < d.len() && (#[trigger] d[i]).0 == key;
                    assert(s[i] == d[i]);
                }
            }
            assert(s.last().0 != key) by {
                assert(s[s.len() - 1] == s.last());
            }
            assert(w =~= s);
        }
        assert forall|k2: u64| #[trigger]
            count_key(w, k2) == if k2 == key {
                0int
            } else {
                count_key(s, k2)
            } by {
            assert(count_key(wd, k2) == if k2 == key {
                0int
            } else {
                count_key(d, k2)
            });
            assert(count_key(s, k2) == count_key(d, k2) + if s.last().0 == k2 {
                1int
            } else {
                0int
            });
            if s.last().0 == key {
                assert(w == wd + Seq::<(u64, Seq<T>)>::empty());
                assert(w =~= wd);
                assert(count_key(w, k2) == count_key(wd, k2));
            } else {
                assert(w == wd + seq![s.last()]);
                assert(w.len() > 0);
                assert(w.drop_last() =~= wd);
                assert(w.last() == s.last());
                assert(count_key(w, k2) == count_key(w.drop_last(), k2) + if w.last().0 == k2 {
                    1int
                } else {
                    0int
                });
            }
        }
    }
}

/// Relabelling `from` to `to` keeps keys distinct when the relabelling
/// was admissible.
proof fn lemma_renamed_distinct<T>(s: Seq<(u64, Seq<T>)>, from: u64, to: u64)
    requires
        distinct_keys(s),
        !(from != to && contains_key(s, from) && contains_key(s, to)),
    ensures
        distinct_keys(renamed(s, from, to)),
{
    let r = renamed(s, from, to);
    assert forall|i: int, j: int| 0 <= i < j < r.len() implies (#[trigger] r[i]).0 != (
    #[trigger] r[j]).0 by {
        if from == to {
            assert(r[i].0 == s[i].0 && r[j].0 == s[j].0);
        } else {
            if s[i].0 == from && s[j].0 == from {
                assert(false);
            } else if s[i].0 == from {
                assert(r[i].0 == to && r[j].0 == s[j].0);
                if s[j].0 == to {
                    assert(contains_key(s, from));
                    assert(contains_key(s, to));
                    assert(false);
                }
            } else if s[j].0 == from {
                assert(r[j].0 == to && r[i].0 == s[i].0);
                if s[i].0 == to {
                    assert(contains_key(s, from));
                    assert(contains_key(s, to));
                    assert(false);
                }
            } else {
                assert(r[i].0 == s[i].0 && r[j].0 == s[j].0);
            }
        }
    }
}

} // verus!
