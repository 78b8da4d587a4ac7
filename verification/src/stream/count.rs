//! A count without a bound of its own: what is counted may go on for as long as it does.

use vstd::prelude::*;

verus! {

/// A number in limbs, the lowest first. It gets another limb when it has outgrown them.
pub struct Count {
    limbs: Vec<u64>,
}

/// How many numbers there are of so many limbs.
spec fn span(n: nat) -> int
    decreases n,
{
    if n == 0 {
        1
    } else {
        0x1_0000_0000_0000_0000 * span((n - 1) as nat)
    }
}

/// The number that the limbs make.
spec fn value(s: Seq<u64>) -> int
    decreases s.len(),
{
    if s.len() == 0 {
        0
    } else {
        value(s.drop_last()) + s.last() as int * span((s.len() - 1) as nat)
    }
}

proof fn lemma_span(n: nat)
    ensures
        span(n) > 0,
    decreases n,
{
    if n > 0 {
        lemma_span((n - 1) as nat);
    }
}

proof fn lemma_value(s: Seq<u64>)
    ensures
        0 <= value(s) < span(s.len()),
    decreases s.len(),
{
    if s.len() > 0 {
        let p = span((s.len() - 1) as nat);
        let x = s.last() as int;
        lemma_value(s.drop_last());
        assert(0 <= x * p && x * p + p <= 0x1_0000_0000_0000_0000 * p) by (nonlinear_arith)
            requires
                0 <= x <= 0xffff_ffff_ffff_ffff,
                p > 0,
        ;
    }
}

/// The largest number of so many limbs.
proof fn lemma_full(s: Seq<u64>)
    requires
        forall|i: int| 0 <= i < s.len() ==> s[i] == u64::MAX,
    ensures
        value(s) == span(s.len()) - 1,
    decreases s.len(),
{
    if s.len() > 0 {
        let p = span((s.len() - 1) as nat);
        lemma_full(s.drop_last());
        assert(s.last() == s[s.len() - 1]);
        assert(0xffff_ffff_ffff_ffff * p + p == 0x1_0000_0000_0000_0000 * p) by (nonlinear_arith);
    }
}

proof fn lemma_zero(s: Seq<u64>)
    requires
        forall|i: int| 0 <= i < s.len() ==> s[i] == 0,
    ensures
        value(s) == 0,
    decreases s.len(),
{
    if s.len() > 0 {
        lemma_zero(s.drop_last());
        assert(s.last() == s[s.len() - 1]);
    }
}

/// Numbers that agree above a limb differ by as much as what is below it does.
proof fn lemma_same_above(s: Seq<u64>, t: Seq<u64>, k: int)
    requires
        s.len() == t.len(),
        0 <= k <= s.len(),
        forall|i: int| k <= i < s.len() ==> s[i] == t[i],
    ensures
        value(t) - value(s) == value(t.take(k)) - value(s.take(k)),
    decreases s.len(),
{
    if k == s.len() {
        assert(s.take(k) =~= s);
        assert(t.take(k) =~= t);
    } else {
        lemma_same_above(s.drop_last(), t.drop_last(), k);
        assert(s.drop_last().take(k) =~= s.take(k));
        assert(t.drop_last().take(k) =~= t.take(k));
        assert(s.last() == s[s.len() - 1] && t.last() == t[s.len() - 1]);
    }
}

/// One more: the lowest limb that is not full counts it, and the full ones below it start again.
proof fn lemma_one_more(s: Seq<u64>, t: Seq<u64>, k: int)
    requires
        s.len() == t.len(),
        0 <= k < s.len(),
        forall|i: int| 0 <= i < k ==> s[i] == u64::MAX,
        forall|i: int| 0 <= i < k ==> t[i] == 0,
        t[k] == s[k] + 1,
        forall|i: int| k < i < s.len() ==> s[i] == t[i],
    ensures
        value(t) == value(s) + 1,
{
    let p = span(k as nat);
    let x = s[k] as int;
    lemma_same_above(s, t, k + 1);
    lemma_full(s.take(k));
    lemma_zero(t.take(k));
    assert(s.take(k + 1).drop_last() =~= s.take(k));
    assert(t.take(k + 1).drop_last() =~= t.take(k));
    assert((x + 1) * p == x * p + p) by (nonlinear_arith);
}

impl Count {
    /// What has been counted.
    pub closed spec fn counted(&self) -> int {
        value(self.limbs@)
    }

    /// How many more limbs there can be.
    pub closed spec fn room(&self) -> int {
        usize::MAX - self.limbs@.len()
    }

    /// How much is left of the numbers of as many limbs.
    pub closed spec fn rest(&self) -> int {
        span(self.limbs@.len()) - value(self.limbs@)
    }

    pub fn new() -> (r: Count)
        ensures
            r.counted() == 0,
    {
        Count { limbs: Vec::new() }
    }

    /// One more. What is left becomes less: of the numbers of as many limbs, or of the limbs.
    pub fn step(&mut self)
        ensures
            final(self).counted() == old(self).counted() + 1,
            ({
                ||| 0 <= final(self).room() < old(self).room()
                ||| final(self).room() == old(self).room() && 0 <= final(self).rest() < old(self).rest()
            }),
    {
        let ghost s = self.limbs@;
        let mut i: usize = 0;
        while i < self.limbs.len()
            invariant
                i <= self.limbs@.len() == s.len(),
                s == old(self).limbs@,
                forall|j: int| 0 <= j < i ==> s[j] == u64::MAX,
                forall|j: int| 0 <= j < i ==> self.limbs@[j] == 0,
                forall|j: int| i <= j < s.len() ==> self.limbs@[j] == s[j],
            decreases self.limbs@.len() - i,
        {
            if self.limbs[i] < u64::MAX {
                self.limbs[i] = self.limbs[i] + 1;
                proof {
                    lemma_one_more(s, self.limbs@, i as int);
                    lemma_value(self.limbs@);
                }
                return;
            }
            self.limbs[i] = 0;
            i = i + 1;
        }
        proof {
            lemma_full(s);
            lemma_zero(self.limbs@);
            assert(self.limbs@.push(1).drop_last() =~= self.limbs@);
        }
        self.limbs.push(1);
        let grown: usize = self.limbs.len();
    }
}

} // verus!
