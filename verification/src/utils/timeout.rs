//! Timeouts of the retries of a request.

use vstd::arithmetic::power2::{lemma_pow2_strictly_increases, lemma_pow2_unfold, pow2};
use vstd::prelude::*;

verus! {

/// A span of time in nanoseconds.
pub type Nanos = u128;

/// The longest span that a retry schedule is made for: the longest that the
/// standard library's spans of time hold.
pub const LONGEST: Nanos = 18_446_744_073_709_551_615_999_999_999;

/// The first timeout of an exponential schedule of `cycle_count` timeouts
/// that takes `retry_time` for each on average: every timeout is twice the one
/// before, and together they take `retry_time * cycle_count`, less what is
/// lost in rounding down.
pub open spec fn first_timeout(retry_time: nat, cycle_count: nat) -> nat {
    (retry_time * cycle_count) / ((pow2(cycle_count) - 1) as nat)
}

/// The timeouts of an exponential schedule.
pub open spec fn exponential(retry_time: nat, cycle_count: nat) -> Seq<nat> {
    Seq::new(cycle_count, |i: int| first_timeout(retry_time, cycle_count) * pow2(i as nat))
}

/// The timeouts of a linear schedule: all the same.
pub open spec fn linear(retry_time: nat, cycle_count: nat) -> Seq<nat> {
    Seq::new(cycle_count, |i: int| retry_time)
}

/// The sum of the spans.
pub open spec fn total(spans: Seq<nat>) -> nat
    decreases spans.len(),
{
    if spans.len() == 0 {
        0
    } else {
        total(spans.drop_last()) + spans.last()
    }
}

/// A schedule of timeouts for the retries of a request. It hands out one
/// timeout after the other until the retries are used up.
#[derive(Debug, Clone, Copy)]
pub struct Timeout {
    /// The timeout that comes next.
    pub current: Nanos,
    /// Timeouts that are left.
    pub cycles_left: u32,
    /// Whether each timeout is twice the one before.
    pub doubling: bool,
}

impl Timeout {
    /// The timeouts that are still to come.
    pub open spec fn remaining(self) -> Seq<nat> {
        Seq::new(
            self.cycles_left as nat,
            |i: int|
                if self.doubling {
                    (self.current as nat) * pow2(i as nat)
                } else {
                    self.current as nat
                },
        )
    }

    /// Doubling never leaves the range of the numbers.
    pub open spec fn wf(self) -> bool {
        self.doubling && self.cycles_left > 0 ==> self.current * pow2(self.cycles_left as nat)
            <= u128::MAX
    }

    /// An exponential schedule of `cycle_count` timeouts that take
    /// `retry_time * cycle_count` together. There is none of no timeout: the
    /// first timeout is a share of the whole, and no timeouts share nothing.
    pub fn new_exponential(retry_time: Nanos, cycle_count: u32) -> (r: Timeout)
        requires
            cycle_count >= 1,
            retry_time * cycle_count <= LONGEST,
        ensures
            r.wf(),
            r.remaining() == exponential(retry_time as nat, cycle_count as nat),
    {
        let whole: u128 = retry_time * (cycle_count as u128);
        let ghost n = cycle_count as nat;
        let mut divisor: u128 = 1;
        let mut i: u32 = 0;
        proof {
            lemma_pow2_unfold(1);
            assert(pow2(0) == 1) by {
                vstd::arithmetic::power2::lemma2_to64();
            }
        }
        while i < cycle_count && divisor <= whole
            invariant
                i <= cycle_count,
                divisor == pow2(i as nat),
                whole <= LONGEST,
                i > 0 ==> divisor / 2 <= whole,
            decreases cycle_count - i,
        {
            proof {
                lemma_pow2_unfold((i + 1) as nat);
            }
            divisor = divisor * 2;
            i = i + 1;
        }
        proof {
            if i < cycle_count {
                lemma_pow2_strictly_increases(i as nat, n);
            }
            lemma_pow2_unfold(n);
            vstd::arithmetic::power2::lemma_pow2_pos((n - 1) as nat);
        }
        let first: u128 = if i < cycle_count {
            proof {
                let d = (pow2(n) - 1) as int;
                let w = whole as int;
                assert(w / d == 0) by (nonlinear_arith)
                    requires
                        0 <= w < d,
                ;
            }
            0
        } else {
            whole / (divisor - 1)
        };
        proof {
            let d = (pow2(n) - 1) as int;
            let w = whole as int;
            let f = first as int;
            assert(f * (d + 1) <= 2 * w + 1) by (nonlinear_arith)
                requires
                    f == w / d,
                    d >= 1,
                    w >= 0,
            ;
        }
        let r = Timeout { current: first, cycles_left: cycle_count, doubling: true };
        assert(r.remaining() =~= exponential(retry_time as nat, cycle_count as nat));
        r
    }

    /// A schedule of `cycle_count` timeouts of `retry_time` each.
    pub fn new_linear(retry_time: Nanos, cycle_count: u32) -> (r: Timeout)
        ensures
            r.wf(),
            r.remaining() == linear(retry_time as nat, cycle_count as nat),
    {
        let r = Timeout { current: retry_time, cycles_left: cycle_count, doubling: false };
        assert(r.remaining() =~= linear(retry_time as nat, cycle_count as nat));
        r
    }

    /// An exponential or a linear schedule.
    pub fn new(retry_time: Nanos, cycle_count: u32, is_exponential: bool) -> (r: Timeout)
        requires
            is_exponential ==> cycle_count >= 1 && retry_time * cycle_count <= LONGEST,
        ensures
            r.wf(),
            r.remaining() == if is_exponential {
                exponential(retry_time as nat, cycle_count as nat)
            } else {
                linear(retry_time as nat, cycle_count as nat)
            },
    {
        if is_exponential {
            Timeout::new_exponential(retry_time, cycle_count)
        } else {
            Timeout::new_linear(retry_time, cycle_count)
        }
    }

    /// Hands out the next timeout, if one is left.
    pub fn next(&mut self) -> (r: Option<Nanos>)
        requires
            old(self).wf(),
        ensures
            final(self).wf(),
            match r {
                Some(t) => old(self).remaining().len() > 0 && t == old(self).remaining()[0]
                    && final(self).remaining() == old(self).remaining().drop_first(),
                None => old(self).remaining().len() == 0 && final(self).remaining()
                    == old(self).remaining(),
            },
    {
        if self.cycles_left == 0 {
            return None;
        }
        let t = self.current;
        let ghost before = *self;
        proof {
            assert(pow2(0) == 1) by {
                vstd::arithmetic::power2::lemma2_to64();
            }
            lemma_pow2_unfold(before.cycles_left as nat);
        }
        self.cycles_left = self.cycles_left - 1;
        if self.doubling {
            if self.cycles_left > 0 {
                proof {
                    let c = t as int;
                    let p = pow2(self.cycles_left as nat) as int;
                    assert(p >= 2) by {
                        lemma_pow2_unfold(self.cycles_left as nat);
                        vstd::arithmetic::power2::lemma_pow2_pos((self.cycles_left - 1) as nat);
                    }
                    assert(2 * c <= c * (2 * p)) by (nonlinear_arith)
                        requires
                            c >= 0,
                            p >= 1,
                    ;
                    assert((2 * c) * p == c * (2 * p)) by (nonlinear_arith);
                }
                self.current = t * 2;
            }
        }
        proof {
            let old_rem = before.remaining();
            let new_rem = self.remaining();
            assert(new_rem.len() == old_rem.len() - 1);
            assert((t as nat) * 1 == t) by (nonlinear_arith);
            assert(old_rem[0] == t);
            assert forall|i: int| 0 <= i < new_rem.len() implies new_rem[i] == old_rem[i + 1] by {
                if self.doubling {
                    lemma_pow2_unfold((i + 1) as nat);
                    let c = t as int;
                    let p = pow2(i as nat) as int;
                    assert((2 * c) * p == c * (2 * p)) by (nonlinear_arith);
                    assert(self.current == 2 * t);
                    assert(new_rem[i] == (self.current as nat) * pow2(i as nat));
                    assert(old_rem[i + 1] == (t as nat) * pow2((i + 1) as nat));
                }
            }
            assert(new_rem =~= old_rem.drop_first());
        }
        Some(t)
    }

    /// All the timeouts that are left, in their order.
    pub fn collect(self) -> (r: Vec<Nanos>)
        requires
            self.wf(),
        ensures
            r@.len() == self.remaining().len(),
            forall|i: int| 0 <= i < r@.len() ==> r@[i] == self.remaining()[i],
    {
        let mut schedule = self;
        let mut out: Vec<Nanos> = Vec::new();
        loop
            invariant
                schedule.wf(),
                out@.len() + schedule.remaining().len() == self.remaining().len(),
                forall|i: int| 0 <= i < out@.len() ==> out@[i] == self.remaining()[i],
                forall|i: int|
                    0 <= i < schedule.remaining().len() ==> schedule.remaining()[i]
                        == self.remaining()[out@.len() + i],
            decreases schedule.remaining().len(),
        {
            let ghost before = schedule.remaining();
            match schedule.next() {
                Some(t) => {
                    out.push(t);
                    proof {
                        assert forall|i: int|
                            0 <= i < schedule.remaining().len() implies schedule.remaining()[i]
                            == self.remaining()[out@.len() + i] by {
                            assert(schedule.remaining()[i] == before[i + 1]);
                        }
                    }
                },
                None => {
                    return out;
                },
            }
        }
    }
}

/// The first `k` timeouts of an exponential schedule take all but one of
/// `2^k` first timeouts together.
proof fn lemma_exponential_prefix(first: nat, k: nat)
    ensures
        total(Seq::new(k, |i: int| first * pow2(i as nat))) == first * (pow2(k) - 1),
    decreases k,
{
    let s = Seq::new(k, |i: int| first * pow2(i as nat));
    if k == 0 {
        assert(pow2(0) == 1) by {
            vstd::arithmetic::power2::lemma2_to64();
        }
        assert(first * (pow2(0) - 1) == 0) by (nonlinear_arith)
            requires
                pow2(0) == 1,
        ;
    } else {
        let shorter = Seq::new((k - 1) as nat, |i: int| first * pow2(i as nat));
        assert(s.drop_last() =~= shorter);
        lemma_exponential_prefix(first, (k - 1) as nat);
        lemma_pow2_unfold(k);
        let p = pow2((k - 1) as nat) as int;
        let f = first as int;
        assert(f * (p - 1) + f * p == f * (2 * p - 1)) by (nonlinear_arith);
    }
}

/// A schedule of `n` timeouts for a retry time `t` hands out `n` timeouts.
/// Those of a linear schedule take `t * n` together. Those of an exponential
/// schedule take `t * n` less what the rounding of the first timeout loses,
/// which is less than one nanosecond for each of `2^n - 1` first timeouts.
pub proof fn lemma_schedule_total(t: nat, n: nat)
    requires
        n >= 1,
    ensures
        exponential(t, n).len() == n,
        linear(t, n).len() == n,
        total(linear(t, n)) == t * n,
        total(exponential(t, n)) <= t * n,
        t * n - total(exponential(t, n)) < pow2(n) - 1,
{
    lemma_exponential_prefix(first_timeout(t, n), n);
    lemma_linear_total(t, n);
    lemma_pow2_unfold(n);
    vstd::arithmetic::power2::lemma_pow2_pos((n - 1) as nat);
    let d = (pow2(n) - 1) as int;
    let w = (t * n) as int;
    let f = first_timeout(t, n) as int;
    assert(f * d <= w && w - f * d < d) by (nonlinear_arith)
        requires
            f == w / d,
            d >= 1,
            w >= 0,
    ;
}

proof fn lemma_linear_total(t: nat, n: nat)
    ensures
        total(linear(t, n)) == t * n,
    decreases n,
{
    if n == 0 {
        assert(t * 0 == 0) by (nonlinear_arith);
    } else {
        assert(linear(t, n).drop_last() =~= linear(t, (n - 1) as nat));
        lemma_linear_total(t, (n - 1) as nat);
        assert(t * (n - 1) + t == t * n) by (nonlinear_arith);
    }
}

} // verus!
