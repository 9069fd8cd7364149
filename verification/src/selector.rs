//! The backend selector: round robin over the configured backends.

use vstd::prelude::*;
use crate::addr::{Endpoint, Ipv4Address};

verus! {

/// Whether `addr` is the address of one of `backends`.
pub open spec fn is_backend(backends: Seq<Endpoint>, addr: Ipv4Address) -> bool {
    exists|i: int| 0 <= i < backends.len() && (#[trigger] backends[i]).ip == addr
}

/// Where a cursor that stands at `cursor` stands after `k` choices among
/// `len` backends: one position further each time, from the last back to the
/// first.
pub open spec fn position(len: int, cursor: int, k: int) -> int {
    (cursor + k) % len
}

/// The backend that the `k`-th coming choice falls on, for a cursor that
/// stands at `cursor`.
pub open spec fn choice(backends: Seq<Endpoint>, cursor: int, k: int) -> Endpoint {
    backends[position(backends.len() as int, cursor, k)]
}

/// The configured backends in their order, and a cursor on the one that is
/// chosen next.
pub struct BackendSelector {
    backends: Vec<Endpoint>,
    cursor: usize,
}

impl BackendSelector {
    /// The configured backends, in configured order.
    pub closed spec fn backends(&self) -> Seq<Endpoint> {
        self.backends@
    }

    /// The position of the backend that is chosen next.
    pub closed spec fn cursor(&self) -> int {
        self.cursor as int
    }

    /// There is a backend, and the cursor stands on one.
    pub open spec fn wf(&self) -> bool {
        0 <= self.cursor() < self.backends().len()
    }

    /// A selector over `backends` that starts with the first of them; none
    /// for an empty list, which is a configuration error.
    pub fn new(backends: Vec<Endpoint>) -> (made: Option<BackendSelector>)
        ensures
            made is Some <==> backends@.len() > 0,
            made matches Some(s) ==> s.wf() && s.backends() == backends@ && s.cursor() == 0,
    {
        if backends.len() == 0 {
            None
        } else {
            Some(BackendSelector { backends, cursor: 0 })
        }
    }

    /// The next backend in round-robin order; the cursor moves one on, from
    /// the last backend back to the first.
    pub fn next(&mut self) -> (chosen: Endpoint)
        requires
            old(self).wf(),
        ensures
            final(self).wf(),
            final(self).backends() == old(self).backends(),
            chosen == old(self).backends()[old(self).cursor()],
            final(self).cursor() == position(
                old(self).backends().len() as int,
                old(self).cursor(),
                1,
            ),
    {
        let n: usize = self.backends.len();
        let chosen = self.backends[self.cursor];
        proof {
            if self.cursor + 1 == n {
                vstd::arithmetic::div_mod::lemma_mod_self_0(n as int);
            } else {
                vstd::arithmetic::div_mod::lemma_small_mod((self.cursor + 1) as nat, n as nat);
            }
        }
        if self.cursor + 1 == n {
            self.cursor = 0;
        } else {
            self.cursor = self.cursor + 1;
        }
        chosen
    }

    /// Whether `addr` is the address of a configured backend.
    pub fn has_address(&self, addr: Ipv4Address) -> (found: bool)
        ensures
            found == is_backend(self.backends(), addr),
    {
        let mut i: usize = 0;
        while i < self.backends.len()
            invariant
                i <= self.backends@.len(),
                forall|j: int| 0 <= j < i ==> (#[trigger] self.backends@[j]).ip != addr,
            decreases self.backends@.len() - i,
        {
            if self.backends[i].ip == addr {
                return true;
            }
            i = i + 1;
        }
        false
    }

    /// How many backends are configured.
    pub fn len(&self) -> (n: usize)
        ensures
            n == self.backends().len(),
    {
        self.backends.len()
    }
}

/// The choices come round: after as many as there are backends, the same
/// backend is chosen again.
pub proof fn lemma_choice_periodic(backends: Seq<Endpoint>, cursor: int, k: int)
    requires
        backends.len() > 0,
        0 <= cursor,
        0 <= k,
    ensures
        choice(backends, cursor, k + backends.len()) == choice(backends, cursor, k),
{
    let m = backends.len() as int;
    vstd::arithmetic::div_mod::lemma_mod_add_multiples_vanish(cursor + k, m);
    assert(cursor + (k + m) == m + (cursor + k));
}

/// Within one round every backend is chosen exactly once, in configured
/// order from the cursor on: the backend at position `i` is the choice
/// number `(i - cursor) mod len`, and no other choice of the round is it.
pub proof fn lemma_choice_covers(backends: Seq<Endpoint>, cursor: int, i: int)
    requires
        0 <= cursor < backends.len(),
        0 <= i < backends.len(),
    ensures
        ({
            let m = backends.len() as int;
            let k = (i - cursor + m) % m;
            &&& 0 <= k < m
            &&& position(m, cursor, k) == i
            &&& forall|j: int| 0 <= j < m && j != k ==> #[trigger] position(m, cursor, j) != i
        }),
{
    let m = backends.len() as int;
    let k = (i - cursor + m) % m;
    if i >= cursor {
        assert(k == i - cursor) by {
            vstd::arithmetic::div_mod::lemma_mod_add_multiples_vanish(i - cursor, m);
            vstd::arithmetic::div_mod::lemma_small_mod((i - cursor) as nat, m as nat);
        }
        vstd::arithmetic::div_mod::lemma_small_mod(i as nat, m as nat);
    } else {
        assert(k == i - cursor + m) by {
            vstd::arithmetic::div_mod::lemma_small_mod((i - cursor + m) as nat, m as nat);
        }
        assert((cursor + k) % m == i) by {
            vstd::arithmetic::div_mod::lemma_mod_add_multiples_vanish(i, m);
            vstd::arithmetic::div_mod::lemma_small_mod(i as nat, m as nat);
            assert(cursor + k == m + i);
        }
    }
    assert forall|j: int| 0 <= j < m && j != k implies #[trigger] position(m, cursor, j) != i by {
        if cursor + j < m {
            vstd::arithmetic::div_mod::lemma_small_mod((cursor + j) as nat, m as nat);
        } else {
            vstd::arithmetic::div_mod::lemma_mod_add_multiples_vanish(cursor + j - m, m);
            vstd::arithmetic::div_mod::lemma_small_mod((cursor + j - m) as nat, m as nat);
            assert(m + (cursor + j - m) == cursor + j);
        }
    }
}

} // verus!
