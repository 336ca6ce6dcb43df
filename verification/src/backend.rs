use vstd::prelude::*;

use vstd::arithmetic::div_mod::{lemma_fundamental_div_mod_converse, lemma_mod_add_multiples_vanish};

use crate::addr::Addr;

verus! {

/// A named set of upstream targets and the round-robin cursor over them.
///
/// The cursor is mutated only through `decide_target`, and only from the
/// single dispatcher thread; sharing between listeners is by index into
/// the driver state's backend table, so a reconfiguration can repoint a
/// listener by rewriting one index.
pub struct Backend {
    targets: Vec<Addr>,
    next_target: usize,
}

impl Backend {
    /// The ordered target list.
    pub closed spec fn targets_seq(self) -> Seq<Addr> {
        self.targets@
    }

    /// The index of the target the next call returns.
    pub closed spec fn cursor(self) -> int {
        self.next_target as int
    }

    /// At least one target, and the cursor in range.
    pub open spec fn wf(self) -> bool {
        &&& self.targets_seq().len() >= 1
        &&& 0 <= self.cursor() < self.targets_seq().len()
    }

    /// A router over `targets`, starting at the first. Routers with zero
    /// targets are rejected during reconfiguration and cannot be built.
    pub fn new(targets: Vec<Addr>) -> (b: Backend)
        requires
            targets@.len() >= 1,
        ensures
            b.wf(),
            b.targets_seq() == targets@,
            b.cursor() == 0,
    {
        Backend { targets, next_target: 0 }
    }

    /// Return the target under the cursor and advance the cursor by one,
    /// wrapping around the list.
    pub fn decide_target(&mut self) -> (target: Addr)
        requires
            old(self).wf(),
        ensures
            final(self).wf(),
            final(self).targets_seq() == old(self).targets_seq(),
            target == old(self).targets_seq()[old(self).cursor()],
            final(self).cursor() == (old(self).cursor() + 1) % (old(
                self,
            ).targets_seq().len() as int),
    {
        let len = self.targets.len();
        let target = self.targets[self.next_target];
        self.next_target = (self.next_target + 1) % len;
        target
    }
}

/// The index served by the `n`-th call after the cursor stood at `start`.
pub open spec fn rr_index(len: int, start: int, n: int) -> int
    recommends
        len >= 1,
{
    (start + n) % len
}

/// The target returned by the `n`-th call after the cursor stood at
/// `start`.
pub open spec fn rr_target(targets: Seq<Addr>, start: int, n: int) -> Addr
    recommends
        targets.len() >= 1,
{
    targets[rr_index(targets.len() as int, start, n)]
}

/// How many of the first `n` calls serve index `j`.
pub open spec fn rr_count(len: int, start: int, j: int, n: nat) -> int
    decreases n,
{
    if n == 0 {
        0
    } else {
        rr_count(len, start, j, (n - 1) as nat) + if rr_index(len, start, n - 1) == j {
            1int
        } else {
            0int
        }
    }
}

/// For `0 <= x < 2 * len`, taking `x` modulo `len` either keeps it or
/// wraps it once.
proof fn lemma_mod_in_window(x: int, len: int)
    requires
        len >= 1,
        0 <= x < 2 * len,
    ensures
        x % len == if x < len {
            x
        } else {
            x - len
        },
{
    if x < len {
        lemma_fundamental_div_mod_converse(x, len, 0, x);
    } else {
        lemma_fundamental_div_mod_converse(x, len, 1, x - len);
    }
}

/// Within one cycle, index `j` is served exactly at offset
/// `(j - start + len) % len`.
proof fn lemma_rr_index_hit(len: int, start: int, j: int, m: int)
    requires
        len >= 1,
        0 <= start < len,
        0 <= j < len,
        0 <= m < len,
    ensures
        (rr_index(len, start, m) == j) <==> (m == (j - start + len) % len),
{
    lemma_mod_in_window(start + m, len);
    lemma_mod_in_window(j - start + len, len);
}

/// Counting within the first cycle: index `j` has been served once as
/// soon as the cycle passed its offset, and not before.
proof fn lemma_rr_count_partial(len: int, start: int, j: int, n: nat)
    requires
        len >= 1,
        0 <= start < len,
        0 <= j < len,
        n <= len,
    ensures
        rr_count(len, start, j, n) == if (j - start + len) % len < n {
            1int
        } else {
            0int
        },
    decreases n,
{
    lemma_mod_in_window(j - start + len, len);
    if n > 0 {
        lemma_rr_count_partial(len, start, j, (n - 1) as nat);
        lemma_rr_index_hit(len, start, j, n - 1);
    }
}

/// One full cycle serves every index exactly once.
proof fn lemma_rr_count_single_cycle(len: int, start: int, j: int)
    requires
        len >= 1,
        0 <= start < len,
        0 <= j < len,
    ensures
        rr_count(len, start, j, len as nat) == 1,
{
    lemma_rr_count_partial(len, start, j, len as nat);
    lemma_mod_in_window(j - start + len, len);
}

/// Extending a window by one full cycle serves every index exactly once
/// more.
proof fn lemma_rr_count_periodic(len: int, start: int, j: int, n: nat)
    requires
        len >= 1,
        0 <= start < len,
        0 <= j < len,
    ensures
        rr_count(len, start, j, (n + len) as nat) == rr_count(len, start, j, n) + 1,
    decreases n,
{
    if n == 0 {
        lemma_rr_count_single_cycle(len, start, j);
    } else {
        lemma_rr_count_periodic(len, start, j, (n - 1) as nat);
        lemma_mod_add_multiples_vanish(start + n - 1, len);
        assert(rr_index(len, start, n - 1 + len) == rr_index(len, start, n - 1));
    }
}

/// Round-robin fairness: among `len * k` consecutive calls to a router
/// over `len` targets, each target index is served exactly `k` times,
/// whatever the starting cursor; the order of service is the cyclic
/// sequence given by `rr_index`.
pub proof fn lemma_round_robin_fairness(len: int, start: int, j: int, k: nat)
    requires
        len >= 1,
        0 <= start < len,
        0 <= j < len,
    ensures
        rr_count(len, start, j, (len * k) as nat) == k,
    decreases k,
{
    if k == 0 {
        assert(len * 0 == 0) by (nonlinear_arith);
    } else {
        lemma_round_robin_fairness(len, start, j, (k - 1) as nat);
        assert(len * k == len * (k - 1) + len) by (nonlinear_arith);
        assert(len * (k - 1) >= 0) by (nonlinear_arith)
            requires
                len >= 1,
                k >= 1,
        ;
        lemma_rr_count_periodic(len, start, j, (len * (k - 1)) as nat);
    }
}

/// Advancing the cursor by one call moves the served index along the
/// cyclic sequence: after `n` calls from cursor `start`, the cursor
/// stands at `rr_index(len, start, n)`, so the `n`-th call serves
/// `rr_target(targets, start, n)`.
pub proof fn lemma_rr_cursor_advance(len: int, start: int, n: int)
    requires
        len >= 1,
        0 <= start < len,
        0 <= n,
    ensures
        (rr_index(len, start, n) + 1) % len == rr_index(len, start, n + 1),
{
    let r = rr_index(len, start, n);
    vstd::arithmetic::div_mod::lemma_mod_bound(start + n, len);
    lemma_mod_in_window(r + 1, len);
    if r + 1 < len {
        assert((start + n) % len + 1 == r + 1);
        lemma_mod_add_multiples_vanish(start + n, len);
        vstd::arithmetic::div_mod::lemma_fundamental_div_mod(start + n, len);
        lemma_fundamental_div_mod_converse(start + n + 1, len, (start + n) / len, r + 1);
    } else {
        vstd::arithmetic::div_mod::lemma_fundamental_div_mod(start + n, len);
        let q = (start + n) / len;
        assert((q + 1) * len == q * len + len) by (nonlinear_arith);
        lemma_fundamental_div_mod_converse(start + n + 1, len, q + 1, 0);
    }
}

} // verus!
