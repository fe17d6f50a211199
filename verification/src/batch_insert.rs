//! Batch insertion: reserve capacity for the whole batch once, then
//! insert pair by pair, stopping at the first rejection.

use vstd::prelude::*;
use vstd::math::min;
use crate::Error;
use crate::Key;
use crate::scalar::VectorType;
use crate::metric::MetricType;
use crate::engine::contains_key;
use crate::engine::distinct_keys;
use crate::highlevel::HighLevel;

verus! {

/// The stored pairs a batch stands for.
pub open spec fn batch_model<T: VectorType>(b: Seq<(u64, Vec<T>)>) -> Seq<(u64, Seq<T>)> {
    b.map_values(|p: (u64, Vec<T>)| (p.0, p.1@))
}

impl<T: VectorType, const D: usize, M: MetricType> HighLevel<T, D, M> {
    /// Inserts a batch of keyed vectors after one capacity reservation.
    ///
    /// Capacity for the current size plus the whole batch is reserved
    /// once, up front, before any insertion. Insertion is fail-fast:
    /// the first rejected pair aborts the batch with its error, and the
    /// pairs inserted before it stay — the index may end up holding a
    /// prefix of the batch. A batch of well-sized pairs with fresh,
    /// mutually distinct keys is never rejected.
    pub fn batch_insert(&mut self, batch: &Vec<(Key, Vec<T>)>) -> (r: Result<(), Error>)
        requires
            old(self).wf(),
        ensures
            final(self).wf(),
            final(self).opts() == old(self).opts(),
            final(self).custom() == old(self).custom(),
            final(self).spec_capacity() >= min(
                old(self).model().len() + batch@.len() as int,
                usize::MAX as int,
            ),
            match r {
                Ok(()) => final(self).model() == old(self).model() + batch_model(batch@),
                Err(_) => exists|k: int|
                    {
                        &&& 0 <= k < batch@.len()
                        &&& final(self).model() == old(self).model() + batch_model(
                            #[trigger] batch@.take(k),
                        )
                        &&& (batch@[k].1@.len() != D || (!old(self).opts().multi && contains_key(
                            old(self).model() + batch_model(batch@.take(k)),
                            batch@[k].0,
                        )))
                    },
            },
            (old(self).model().len() == 0 && distinct_keys(batch_model(batch@)) && (forall|i: int|
                0 <= i < batch@.len() ==> (#[trigger] batch@[i]).1@.len() == D)) ==> r is Ok,
    {
        let len = batch.len();
        let size = self.size();
        let total: usize = if len <= usize::MAX - size {
            size + len
        } else {
            usize::MAX
        };
        let _ = self.reserve(total);
        let ghost m0 = self.model();
        let ghost bm = batch_model(batch@);
        let mut i: usize = 0;
        proof {
            assert(batch_model(batch@.take(0)) =~= Seq::<(u64, Seq<T>)>::empty());
            assert(self.model() =~= m0 + batch_model(batch@.take(0)));
        }
        while i < len
            invariant
                0 <= i <= len,
                len == batch@.len(),
                self.wf(),
                self.opts() == old(self).opts(),
                self.custom() == old(self).custom(),
                m0 == old(self).model(),
                bm == batch_model(batch@),
                self.model() == m0 + batch_model(batch@.take(i as int)),
                self.spec_capacity() >= min(m0.len() + batch@.len() as int, usize::MAX as int),
            decreases len - i,
        {
            let pair = &batch[i];
            let ghost before = self.model();
            match self.add(pair.0, &pair.1) {
                Ok(()) => {
                    proof {
                        assert(batch@.take(i as int + 1) =~= batch@.take(i as int).push(
                            batch@[i as int],
                        ));
                        assert(batch_model(batch@.take(i as int + 1)) =~= batch_model(
                            batch@.take(i as int),
                        ).push((batch@[i as int].0, batch@[i as int].1@)));
                        assert(self.model() =~= m0 + batch_model(batch@.take(i as int + 1)));
                    }
                },
                Err(e) => {
                    proof {
                        let k = i as int;
                        assert(0 <= k < batch@.len());
                        assert(self.model() == m0 + batch_model(batch@.take(k)));
                        assert(batch@[k].1@.len() != D || (!old(self).opts().multi
                            && contains_key(m0 + batch_model(batch@.take(k)), batch@[k].0)));
                        if m0.len() == 0 && distinct_keys(bm) && (forall|i2: int|
                            0 <= i2 < batch@.len() ==> (#[trigger] batch@[i2]).1@.len() == D) {
                            assert(batch@[k].1@.len() == D);
                            assert(!old(self).opts().multi && contains_key(
                                m0 + batch_model(batch@.take(k)),
                                batch@[k].0,
                            ));
                            let prefix = batch_model(batch@.take(k));
                            let whole = m0 + prefix;
                            let j = choose|j: int|
                                0 <= j < whole.len() && (#[trigger] whole[j]).0 == batch@[k].0;
                            assert(whole =~= prefix);
                            assert(prefix[j] == bm[j]);
                            assert(bm[j].0 == bm[k].0);
                            assert(j < k);
                            assert(false);
                        }
                    }
                    return Err(e);
                },
            }
            i = i + 1;
        }
        proof {
            assert(batch@.take(len as int) =~= batch@);
        }
        Ok(())
    }
}

} // verus!
