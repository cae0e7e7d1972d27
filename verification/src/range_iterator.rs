//! A memory-free permutation of a port range, produced by a linear
//! congruential walk: from a random starting offset, repeatedly add a
//! step that is coprime with the range length, modulo that length.

use vstd::prelude::*;
use crate::numbers::gcd;
use crate::numbers::lemma_gcd_consecutive;
use crate::numbers::lemma_walk_full_cycle;
use crate::numbers::lemma_walk_hits;
use crate::numbers::lemma_walk_injective;
use crate::numbers::lemma_walk_never_adjacent;
use crate::numbers::lemma_walk_step;
use crate::numbers::walk_index;
use crate::rng::random_range_u32;
use crate::rng::thread_rng;
use vstd::arithmetic::div_mod::lemma_fundamental_div_mod;
use vstd::arithmetic::div_mod::lemma_small_mod;

verus! {

/// Relies on gcd::Gcd::gcd: the greatest common divisor of the two
/// arguments, computed by the binary GCD algorithm.
#[verifier::external_body]
fn gcd_u32(a: u32, b: u32) -> (r: u32)
    ensures
        r as nat == gcd(a as nat, b as nat),
{
    gcd::Gcd::gcd(a, b)
}

/// A step for the walk over `0..end`: a random value from the middle
/// half of the range that is coprime with `end`, or `end - 1` (always
/// coprime) if ten random draws all fail.
///
/// Steps near the range boundaries would put consecutive ports close to
/// each other, so only the middle half is drawn from.
fn pick_random_coprime(end: u32) -> (r: u32)
    requires
        end > 0,
    ensures
        gcd(end as nat, r as nat) == 1,
        r < end,
        (end / 4 <= r && r < end - end / 4) || r == end - 1,
{
    let range_boundary = end / 4;
    let lower_range = range_boundary;
    let upper_range = end - range_boundary;
    proof {
        lemma_fundamental_div_mod(end as int, 4);
        assert(lower_range < upper_range);
    }
    let mut rng = thread_rng();
    let mut candidate = random_range_u32(&mut rng, lower_range, upper_range);

    let mut i: u32 = 0;
    while i < 10
        invariant
            end > 0,
            lower_range == end / 4,
            upper_range == end - end / 4,
            lower_range < upper_range,
            upper_range <= end,
            lower_range <= candidate < upper_range,
        decreases 10 - i,
    {
        if gcd_u32(end, candidate) == 1 {
            return candidate;
        }
        candidate = random_range_u32(&mut rng, lower_range, upper_range);
        i = i + 1;
    }

    proof {
        lemma_gcd_consecutive(end as nat);
    }
    end - 1
}

/// No two consecutive entries of the sequence are adjacent integers.
pub open spec fn never_adjacent(s: Seq<u16>) -> bool {
    forall|i: int|
        0 <= i && i + 1 < s.len() ==> ((#[trigger] s[i + 1]) as nat) != (s[i] as nat) + 1 && (
        s[i] as nat) != (s[i + 1] as nat) + 1
}

/// The walk over a normalized range, emitting `start + position` until
/// the position returns to where it began.
pub struct RangeIterator {
    active: bool,
    normalized_end: u32,
    normalized_first_pick: u32,
    normalized_pick: u32,
    actual_start: u32,
    step: u32,
    emitted: Ghost<Seq<u16>>,
}

impl RangeIterator {
    /// Length of the range being walked.
    pub closed spec fn spec_len(&self) -> nat {
        self.normalized_end as nat
    }

    /// The first port of the range.
    pub closed spec fn spec_start(&self) -> nat {
        self.actual_start as nat
    }

    /// Whether another call to `next` will emit a port.
    pub closed spec fn spec_active(&self) -> bool {
        self.active
    }

    /// The step of the walk: coprime with the range length, and smaller
    /// than it.
    pub closed spec fn spec_step(&self) -> nat {
        self.step as nat
    }

    /// The ports emitted so far, in emission order.
    pub closed spec fn spec_emitted(&self) -> Seq<u16> {
        self.emitted@
    }

    /// The walk parameters never change after construction.
    pub closed spec fn same_walk(&self, other: &Self) -> bool {
        &&& self.normalized_end == other.normalized_end
        &&& self.normalized_first_pick == other.normalized_first_pick
        &&& self.actual_start == other.actual_start
        &&& self.step == other.step
    }

    /// Internal consistency: the step is coprime with the range length,
    /// the current position is where the walk stands after the emissions
    /// so far, and every emission so far came from the walk.
    pub closed spec fn wf(&self) -> bool {
        &&& self.normalized_end > 0
        &&& gcd(self.normalized_end as nat, self.step as nat) == 1
        &&& self.step < self.normalized_end
        &&& self.normalized_first_pick < self.normalized_end
        &&& self.normalized_pick < self.normalized_end
        &&& self.actual_start + self.normalized_end <= 65536
        &&& self.emitted@.len() <= self.normalized_end
        &&& forall|k: int|
            0 <= k < self.emitted@.len() ==> self.emitted@[k] as nat == self.actual_start as nat
                + walk_index(
                self.normalized_first_pick as nat,
                self.step as nat,
                self.normalized_end as nat,
                k as nat,
            )
        &&& self.active ==> self.emitted@.len() < self.normalized_end
            && self.normalized_pick as nat == walk_index(
            self.normalized_first_pick as nat,
            self.step as nat,
            self.normalized_end as nat,
            self.emitted@.len(),
        )
        &&& !self.active ==> self.emitted@.len() == self.normalized_end
    }

    /// Normalize the range `start..=end` to `0..=end-start`, pick a
    /// coprime step and a random starting offset for the walk.
    pub fn new(start: u32, end: u32) -> (r: Self)
        requires
            start <= end,
            end < 65536,
        ensures
            r.wf(),
            r.spec_active(),
            r.spec_emitted() == Seq::<u16>::empty(),
            r.spec_start() == start as nat,
            r.spec_len() == end - start + 1,
    {
        let normalized_end = end - start + 1;
        let step = pick_random_coprime(normalized_end);

        let mut rng = thread_rng();
        let normalized_first_pick = random_range_u32(&mut rng, 0, normalized_end);

        proof {
            assert(0 * step as nat == 0);
            lemma_small_mod(normalized_first_pick as nat, normalized_end as nat);
            assert(walk_index(
                normalized_first_pick as nat,
                step as nat,
                normalized_end as nat,
                0,
            ) == normalized_first_pick as nat);
        }
        Self {
            active: true,
            normalized_end,
            step,
            normalized_first_pick,
            normalized_pick: normalized_first_pick,
            actual_start: start,
            emitted: Ghost(Seq::empty()),
        }
    }

    /// The next position is always given by `(position + step) % length`;
    /// the walk ends when that would return to the first position, which
    /// the coprime step guarantees happens only after the whole range has
    /// been emitted.
    pub fn next(&mut self) -> (r: Option<u16>)
        requires
            old(self).wf(),
        ensures
            final(self).wf(),
            final(self).same_walk(old(self)),
            final(self).spec_start() == old(self).spec_start(),
            final(self).spec_len() == old(self).spec_len(),
            !old(self).spec_active() ==> r is None && *final(self) == *old(self),
            old(self).spec_active() ==> r is Some
                && final(self).spec_emitted() == old(self).spec_emitted().push(r->Some_0)
                && old(self).spec_start() <= (r->Some_0 as nat)
                && (r->Some_0 as nat) < old(self).spec_start() + old(self).spec_len(),
            final(self).spec_active() <==> final(self).spec_emitted().len()
                < final(self).spec_len(),
    {
        if !self.active {
            return None;
        }

        let ghost first = self.normalized_first_pick as nat;
        let ghost s = self.step as nat;
        let ghost n = self.normalized_end as nat;
        let ghost len = self.emitted@.len();

        let current_pick = self.normalized_pick;
        let next_pick = (current_pick + self.step) % self.normalized_end;

        proof {
            lemma_walk_step(first, s, n, len);
            assert(next_pick as nat == walk_index(first, s, n, len + 1));
            assert(walk_index(first, s, n, 0) == first) by {
                assert(0 * s == 0);
                lemma_small_mod(first, n);
            }
        }

        if next_pick == self.normalized_first_pick {
            proof {
                if len + 1 < n {
                    lemma_walk_injective(first, s, n, 0, len + 1);
                    assert(false);
                }
            }
            self.active = false;
        } else {
            proof {
                if len + 1 == n {
                    lemma_walk_full_cycle(first, s, n);
                    lemma_small_mod(first, n);
                    assert(false);
                }
            }
        }

        self.normalized_pick = next_pick;
        let out = self.actual_start + current_pick;
        proof {
            self.emitted@ = self.emitted@.push(out as u16);
        }
        Some(out as u16)
    }

    /// Run the walk to its end: the result visits every port in
    /// `start..=start+len-1` exactly once — it has one entry per port of
    /// the range, no entry appears twice, and every port of the range
    /// appears.
    pub fn collect_all(self) -> (r: Vec<u16>)
        requires
            self.wf(),
            self.spec_active(),
            self.spec_emitted() == Seq::<u16>::empty(),
        ensures
            r@.len() == self.spec_len(),
            self.spec_step() < self.spec_len(),
            gcd(self.spec_len(), self.spec_step()) == 1,
            self.spec_step() != 1 && self.spec_step() + 1 != self.spec_len() ==> never_adjacent(
                r@,
            ),
            forall|i: int, j: int| 0 <= i < j < r@.len() ==> r@[i] != r@[j],
            forall|i: int|
                0 <= i < r@.len() ==> self.spec_start() <= (r@[i] as nat) && (r@[i] as nat)
                    < self.spec_start() + self.spec_len(),
            forall|v: u16|
                self.spec_start() <= (v as nat) && (v as nat) < self.spec_start()
                    + self.spec_len() ==> r@.contains(v),
    {
        let ghost first = self.normalized_first_pick as nat;
        let ghost s = self.step as nat;
        let ghost n = self.normalized_end as nat;
        let ghost start = self.actual_start as nat;

        let mut it = self;
        let mut out: Vec<u16> = Vec::new();
        loop
            invariant
                it.wf(),
                it.normalized_first_pick as nat == first,
                it.step as nat == s,
                it.normalized_end as nat == n,
                it.actual_start as nat == start,
                out@ == it.spec_emitted(),
            ensures
                it.wf(),
                !it.spec_active(),
                out@ == it.spec_emitted(),
                it.normalized_first_pick as nat == first,
                it.step as nat == s,
                it.normalized_end as nat == n,
                it.actual_start as nat == start,
            decreases n - it.spec_emitted().len() + (if it.spec_active() {
                1int
            } else {
                0int
            }),
        {
            match it.next() {
                Some(v) => {
                    out.push(v);
                },
                None => {
                    break ;
                },
            }
        }

        proof {
            assert(out@.len() == n);
            assert forall|i: int, j: int| 0 <= i < j < out@.len() implies out@[i] != out@[j] by {
                lemma_walk_injective(first, s, n, i as nat, j as nat);
            }
            if s != 1 && s + 1 != n {
                assert forall|i: int|
                    0 <= i && i + 1 < out@.len() implies ((#[trigger] out@[i + 1]) as nat) != (
                    out@[i] as nat) + 1 && (out@[i] as nat) != (out@[i + 1] as nat) + 1 by {
                    lemma_walk_never_adjacent(first, s, n, i as nat);
                }
            }
            assert forall|v: u16|
                start <= (v as nat) && (v as nat) < start + n implies out@.contains(v) by {
                let t = (v as nat - start) as nat;
                let k = lemma_walk_hits(first, s, n, t);
                assert(out@[k as int] == v);
            }
        }
        out
    }
}

} // verus!
