//! Round-robin interleaving of a bag of item queues: each draw takes the
//! head of the first non-empty queue and rotates that queue to the back,
//! so consumers are balanced across the queues.  Exhausted queues are
//! dropped as they are met.

use vstd::prelude::*;

use std::collections::VecDeque;

verus! {

/// What one draw does: empty queues at the front are discarded; then the
/// head of the first queue is taken and the remainder of that queue moves
/// to the back.
pub open spec fn spec_bf_next<T>(qs: Seq<Seq<T>>) -> (Seq<Seq<T>>, Option<T>)
    decreases qs.len(),
{
    if qs.len() == 0 {
        (qs, None::<T>)
    } else if qs[0].len() == 0 {
        spec_bf_next(qs.drop_first())
    } else {
        (qs.drop_first().push(qs[0].drop_first()), Some(qs[0][0]))
    }
}

/// A bag of queues drawn from round-robin.
pub struct BreadthFlatten<T> {
    pub iterators: VecDeque<Vec<T>>,
}

impl<T> BreadthFlatten<T> {
    /// The queues' contents, front to back.
    pub open spec fn spec_queues(&self) -> Seq<Seq<T>> {
        self.iterators@.map_values(|q: Vec<T>| q@)
    }

    pub fn new(iterators: Vec<Vec<T>>) -> (r: Self)
        ensures
            r.spec_queues() == iterators@.map_values(|q: Vec<T>| q@),
    {
        let mut dq: VecDeque<Vec<T>> = VecDeque::new();
        let mut src = iterators;
        let ghost all = src@;
        let n = src.len();
        let mut i: usize = 0;
        while src.len() > 0
            invariant
                n == all.len(),
                0 <= i <= n,
                src@ =~= all.skip(i as int),
                dq@ =~= all.take(i as int),
            decreases src@.len(),
        {
            let q = src.remove(0);
            dq.push_back(q);
            proof {
                assert(all.skip(i as int).drop_first() =~= all.skip(i + 1));
                assert(all.take(i as int).push(q) =~= all.take(i + 1));
            }
            i += 1;
        }
        proof {
            assert(all.take(i as int) =~= all);
        }
        let r = BreadthFlatten { iterators: dq };
        proof {
            assert(r.spec_queues() =~= all.map_values(|q: Vec<T>| q@));
        }
        r
    }

    /// Draws the next item round-robin, as `spec_bf_next` describes.
    pub fn next(&mut self) -> (r: Option<T>)
        ensures
            r == spec_bf_next(old(self).spec_queues()).1,
            final(self).spec_queues() == spec_bf_next(old(self).spec_queues()).0,
    {
        loop
            invariant
                spec_bf_next(self.spec_queues()) == spec_bf_next(old(self).spec_queues()),
            decreases self.iterators@.len(),
        {
            let ghost qs = self.spec_queues();
            match self.iterators.pop_front() {
                None => {
                    proof {
                        assert(qs.len() == 0);
                    }
                    return None;
                },
                Some(mut q) => {
                    proof {
                        assert(qs[0] == q@);
                        assert(self.spec_queues() =~= qs.drop_first());
                    }
                    if q.len() > 0 {
                        let item = q.remove(0);
                        self.iterators.push_back(q);
                        proof {
                            assert(self.spec_queues() =~= qs.drop_first().push(q@));
                            assert(q@ == qs[0].drop_first());
                            assert(item == qs[0][0]);
                        }
                        return Some(item);
                    }
                    proof {
                        assert(self.spec_queues() =~= qs.drop_first());
                    }
                },
            }
        }
    }
}

} // verus!
