//! The rotating pool of backend servers.
//!
//! A `LoadBalancer` owns an ordered ring of backends. Each call to
//! `next_backend` hands out the front backend and moves it to the back, so
//! that successive calls walk the configured order round-robin and wrap
//! around. Callers that share one pool must serialize their calls (the pool
//! is read-modify-write state); each serialized call then takes a distinct
//! rotation step, which the lemmas below pin down exactly.

use std::collections::VecDeque;

use vstd::arithmetic::div_mod::{
    lemma_fundamental_div_mod_converse, lemma_mod_add_multiples_vanish, lemma_small_mod,
};
use vstd::prelude::*;

verus! {

/// One upstream server, identified by its `host:port` address.
/// Immutable once constructed.
#[derive(Debug)]
pub struct Backend {
    pub address: String,
}

impl View for Backend {
    type V = Seq<char>;

    open spec fn view(&self) -> Seq<char> {
        self.address@
    }
}

/// The ordered, rotating collection of backends.
///
/// Its view is the sequence of backend addresses in current rotation order.
/// The multiset of members never changes after construction; only the order
/// rotates.
pub struct LoadBalancer {
    backends: VecDeque<Backend>,
}

impl View for LoadBalancer {
    type V = Seq<Seq<char>>;

    closed spec fn view(&self) -> Seq<Seq<char>> {
        Seq::new(self.backends@.len(), |i: int| self.backends@[i]@)
    }
}

/// One round-robin step: the front element moves to the back, everything
/// else shifts forward by one.
pub open spec fn rotate_once<A>(s: Seq<A>) -> Seq<A>
    recommends
        s.len() > 0,
{
    s.subrange(1, s.len() as int).push(s[0])
}

/// The rotation order after `n` round-robin steps from the order `s`.
pub open spec fn rotations<A>(s: Seq<A>, n: nat) -> Seq<A>
    decreases n,
{
    if n == 0 {
        s
    } else {
        rotate_once(rotations(s, (n - 1) as nat))
    }
}

/// The backend handed out by the `i`-th selection (0-indexed) from a pool
/// first configured in order `s`: the front of the order after `i` rotations.
pub open spec fn selection<A>(s: Seq<A>, i: nat) -> A
    recommends
        s.len() > 0,
{
    rotations(s, i)[0]
}

/// After any number of rotations, the order is a cyclic shift of the
/// original: position `i` holds the element first configured at position
/// `(i + n) % len`. In particular the members never change, only the order.
pub proof fn lemma_rotations_index<A>(s: Seq<A>, n: nat, i: int)
    requires
        s.len() > 0,
        0 <= i < s.len(),
    ensures
        rotations(s, n).len() == s.len(),
        rotations(s, n)[i] == s[(i + n) % (s.len() as int)],
    decreases n,
{
    let len = s.len() as int;
    if n == 0 {
        lemma_small_mod(i as nat, s.len());
    } else {
        let m = (n - 1) as nat;
        if i < len - 1 {
            lemma_rotations_index(s, m, i + 1);
        } else {
            lemma_rotations_index(s, m, 0);
            assert((len + (n - 1)) % len == (n - 1) % len) by {
                lemma_mod_add_multiples_vanish(n - 1, len);
            }
        }
    }
}

/// Round-robin fairness: the `i`-th selection (0-indexed) from a non-empty
/// pool first configured in order `s` is the backend at index `i % s.len()`
/// of that original order — equivalently, the n-th call (1-indexed) returns
/// the backend at index `(n - 1) % len`.
pub proof fn lemma_round_robin<A>(s: Seq<A>, i: nat)
    requires
        s.len() > 0,
    ensures
        selection(s, i) == s[(i % s.len()) as int],
{
    lemma_rotations_index(s, i, 0);
}

/// Rotation never changes the pool's membership: after any number of
/// round-robin steps the order still holds exactly the originally configured
/// backends, with multiplicity — nothing is ever added or dropped.
pub proof fn lemma_rotation_keeps_members<A>(s: Seq<A>, n: nat)
    requires
        s.len() > 0,
    ensures
        rotations(s, n).to_multiset() == s.to_multiset(),
    decreases n,
{
    broadcast use vstd::seq_lib::group_to_multiset_ensures;

    if n > 0 {
        let m = (n - 1) as nat;
        let t = rotations(s, m);
        lemma_rotation_keeps_members(s, m);
        lemma_rotations_index(s, m, 0);
        let sub = t.subrange(1, t.len() as int);
        assert(sub =~= t.remove(0));
        assert(t.contains(t[0]));
        assert(rotate_once(t).to_multiset() =~= t.to_multiset());
    }
}

/// How many of the first `n` selections fall on the backend at index `j` of
/// the original order, for a pool of `k` backends: selection `i` falls on
/// index `i % k`, and this counts the `i < n` with `i % k == j`.
pub open spec fn times_selected(n: nat, k: nat, j: nat) -> nat
    decreases n,
{
    if n == 0 {
        0
    } else if ((n - 1) as nat) % k == j {
        times_selected((n - 1) as nat, k, j) + 1
    } else {
        times_selected((n - 1) as nat, k, j)
    }
}

/// No backend is over- or under-served: across the first `n` selections from
/// a pool of `k` backends, the backend at original index `j` is handed out
/// exactly `n / k` times, plus one more when `j < n % k` — so always either
/// `floor(n / k)` or `ceil(n / k)` times. Together with `lemma_round_robin`,
/// the multiset of any `n` serialized selections matches sequential
/// rotation, whatever the interleaving of the callers that produced them.
pub proof fn lemma_fair_distribution(n: nat, k: nat, j: nat)
    requires
        0 < k,
        j < k,
    ensures
        times_selected(n, k, j) == n / k + if j < n % k {
            1nat
        } else {
            0nat
        },
        n / k <= times_selected(n, k, j) <= n / k + 1,
    decreases n,
{
    let ki = k as int;
    if n == 0 {
        lemma_small_mod(0, k);
        vstd::arithmetic::div_mod::lemma_div_of0(ki);
    } else {
        let m = (n - 1) as nat;
        let ni = n as int;
        lemma_fair_distribution(m, k, j);
        vstd::arithmetic::div_mod::lemma_fundamental_div_mod(ni, ki);
        vstd::arithmetic::div_mod::lemma_mod_bound(ni, ki);
        vstd::arithmetic::div_mod::lemma_div_pos_is_pos(ni, ki);
        if n % k == 0 {
            assert((ni / ki - 1) * ki == ki * (ni / ki) - ki) by (nonlinear_arith);
            lemma_fundamental_div_mod_converse(ni - 1, ki, ni / ki - 1, ki - 1);
        } else {
            lemma_fundamental_div_mod_converse(ni - 1, ki, ni / ki, ni % ki - 1);
        }
    }
}

impl LoadBalancer {
    /// Builds a pool holding the given addresses, in the given order.
    pub fn new(backend_addresses: Vec<String>) -> (lb: LoadBalancer)
        ensures
            lb@ == backend_addresses.deep_view(),
    {
        let mut backends: VecDeque<Backend> = VecDeque::new();
        let mut i: usize = 0;
        while i < backend_addresses.len()
            invariant
                i <= backend_addresses.len(),
                backends@.len() == i,
                forall|j: int| 0 <= j < i ==> backends@[j]@ == backend_addresses@[j]@,
            decreases backend_addresses.len() - i,
        {
            let address = backend_addresses[i].clone();
            backends.push_back(Backend { address });
            i = i + 1;
        }
        let lb = LoadBalancer { backends };
        proof {
            assert(lb@ =~= backend_addresses.deep_view());
        }
        lb
    }

    /// Hands out the next backend, round-robin.
    ///
    /// On a non-empty pool this returns the front backend and rotates it to
    /// the back, as one read-modify-write step; on an empty pool it returns
    /// `None` and changes nothing, on every call.
    pub fn next_backend(&mut self) -> (r: Option<Backend>)
        ensures
            old(self)@.len() == 0 ==> (r is None && final(self)@ == old(self)@),
            old(self)@.len() > 0 ==> (r matches Some(b) && b@ == old(self)@[0]
                && final(self)@ == rotate_once(old(self)@)),
    {
        match self.backends.pop_front() {
            Some(backend) => {
                let recycled = Backend { address: backend.address.clone() };
                self.backends.push_back(recycled);
                proof {
                    assert(self@ =~= rotate_once(old(self)@));
                }
                Some(backend)
            },
            None => {
                proof {
                    assert(self@ =~= old(self)@);
                }
                None
            },
        }
    }
}

} // verus!
