//! The aggregate figures the report prints after the walk: the average and
//! the maximum of the recorded leaf depths, both guarded against an empty
//! recording.

use vstd::prelude::*;

use crate::walk::Stats;

verus! {

/// The sum of a sequence of recorded depths.
pub open spec fn seq_sum(s: Seq<usize>) -> int
    decreases s,
{
    if s.len() == 0 {
        0
    } else {
        seq_sum(s.drop_last()) + s.last()
    }
}

/// The largest entry of a sequence of recorded depths, 0 when it is empty.
pub open spec fn seq_max(s: Seq<usize>) -> usize
    decreases s,
{
    if s.len() == 0 {
        0
    } else if s.last() >= seq_max(s.drop_last()) {
        s.last()
    } else {
        seq_max(s.drop_last())
    }
}

proof fn lemma_seq_sum_take_step(s: Seq<usize>, i: int)
    requires
        0 <= i < s.len(),
    ensures
        seq_sum(s.take(i + 1)) == seq_sum(s.take(i)) + s[i],
{
    assert(s.take(i + 1).drop_last() =~= s.take(i));
    assert(s.take(i + 1).last() == s[i]);
}

proof fn lemma_seq_max_take_step(s: Seq<usize>, i: int)
    requires
        0 <= i < s.len(),
    ensures
        seq_max(s.take(i + 1)) == if s[i] >= seq_max(s.take(i)) {
            s[i]
        } else {
            seq_max(s.take(i))
        },
{
    assert(s.take(i + 1).drop_last() =~= s.take(i));
    assert(s.take(i + 1).last() == s[i]);
}

/// The maximum of two depth recordings laid end to end is the larger of
/// their maxima.
pub proof fn lemma_seq_max_add(a: Seq<usize>, b: Seq<usize>)
    ensures
        seq_max(a + b) == if seq_max(a) >= seq_max(b) {
            seq_max(a)
        } else {
            seq_max(b)
        },
    decreases b,
{
    if b.len() == 0 {
        assert(a + b =~= a);
    } else {
        assert((a + b).drop_last() =~= a + b.drop_last());
        assert((a + b).last() == b.last());
        lemma_seq_max_add(a, b.drop_last());
    }
}

/// `seq_max` really is the maximum: no entry exceeds it, and some entry
/// reaches it whenever the sequence is not empty.
pub proof fn lemma_seq_max_is_max(s: Seq<usize>)
    ensures
        forall|i: int| 0 <= i < s.len() ==> #[trigger] s[i] <= seq_max(s),
        s.len() > 0 ==> exists|i: int| 0 <= i < s.len() && s[i] == seq_max(s),
    decreases s,
{
    if s.len() > 0 {
        lemma_seq_max_is_max(s.drop_last());
        assert(forall|i: int|
            0 <= i < s.len() - 1 ==> #[trigger] s[i] == s.drop_last()[i]);
        if s.last() >= seq_max(s.drop_last()) {
            assert(s[s.len() - 1] == seq_max(s));
        } else {
            let j = choose|j: int|
                0 <= j < s.drop_last().len() && s.drop_last()[j] == seq_max(s.drop_last());
            assert(s[j] == seq_max(s));
        }
    }
}

impl Stats {
    /// The average recorded leaf depth, by integer division, or 0 when no
    /// leaf was recorded (so an empty tree never divides by zero).
    pub fn average_depth(&self) -> (r: usize)
        ensures
            self.depths@.len() == 0 ==> r == 0,
            self.depths@.len() > 0 ==> r == seq_sum(self.depths@) / (self.depths@.len() as int),
    {
        let n = self.depths.len();
        if n == 0 {
            return 0;
        }
        let mut sum: u128 = 0;
        let mut i: usize = 0;
        while i < n
            invariant
                i <= n,
                n == self.depths@.len(),
                sum == seq_sum(self.depths@.take(i as int)),
                sum <= (i as int) * (usize::MAX as int),
            decreases n - i,
        {
            let d = self.depths[i];
            proof {
                lemma_seq_sum_take_step(self.depths@, i as int);
                assert((i as int) * (usize::MAX as int) + (usize::MAX as int) == ((i as int) + 1)
                    * (usize::MAX as int)) by (nonlinear_arith);
                assert(((i as int) + 1) * (usize::MAX as int) <= (u128::MAX as int))
                    by (nonlinear_arith)
                    requires
                        0 <= i,
                        (i as int) + 1 <= usize::MAX as int,
                        usize::MAX as int <= u64::MAX as int,
                ;
            }
            sum = sum + (d as u128);
            i = i + 1;
        }
        proof {
            assert(self.depths@.take(n as int) =~= self.depths@);
            assert((sum as int) / (n as int) <= u128::MAX as int) by (nonlinear_arith)
                requires
                    0 < n,
                    0 <= sum,
            ;
            assert((sum as int) / (n as int) <= usize::MAX as int) by (nonlinear_arith)
                requires
                    0 < n as int,
                    0 <= sum as int,
                    sum as int <= (n as int) * (usize::MAX as int),
            ;
        }
        let avg = sum / (n as u128);
        avg as usize
    }

    /// The largest recorded leaf depth, or 0 when no leaf was recorded.
    pub fn max_depth(&self) -> (r: usize)
        ensures
            r == seq_max(self.depths@),
    {
        let mut m: usize = 0;
        let mut i: usize = 0;
        while i < self.depths.len()
            invariant
                i <= self.depths@.len(),
                m == seq_max(self.depths@.take(i as int)),
            decreases self.depths@.len() - i,
        {
            proof {
                lemma_seq_max_take_step(self.depths@, i as int);
            }
            let d = self.depths[i];
            if d >= m {
                m = d;
            }
            i = i + 1;
        }
        proof {
            assert(self.depths@.take(self.depths@.len() as int) =~= self.depths@);
        }
        m
    }
}

} // verus!
