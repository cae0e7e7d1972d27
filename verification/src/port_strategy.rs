//! Port ordering strategies: an explicit list (kept or shuffled), a dense
//! ascending range, or a dense range visited in a scrambled order.

use vstd::prelude::*;
use crate::input::PortRange;
use crate::input::ScanOrder;
use crate::numbers::gcd;
use crate::range_iterator::RangeIterator;
use crate::range_iterator::never_adjacent;
use crate::rng::shuffle_u16;
use crate::rng::thread_rng;

verus! {

/// The ascending sequence of all ports from `start` to `end` inclusive,
/// empty when `start > end`.
pub open spec fn serial_seq(start: u16, end: u16) -> Seq<u16> {
    if start <= end {
        Seq::new((end - start + 1) as nat, |i: int| (start + i) as u16)
    } else {
        Seq::empty()
    }
}

/// How a port scan chooses the order of its ports.
#[derive(Debug)]
pub enum PortStrategy {
    Manual(Vec<u16>),
    Serial(SerialRange),
    Random(RandomRange),
}

/// A range scanned in ascending order.
#[derive(Debug)]
pub struct SerialRange {
    start: u16,
    end: u16,
}

/// A range scanned in a scrambled order produced by the linear
/// congruential walk.
#[derive(Debug)]
pub struct RandomRange {
    start: u16,
    end: u16,
}

impl SerialRange {
    /// The first port of the range.
    pub closed spec fn spec_start(&self) -> u16 {
        self.start
    }

    /// The last port of the range.
    pub closed spec fn spec_end(&self) -> u16 {
        self.end
    }

    /// All ports of the range, ascending.
    pub fn generate(&self) -> (r: Vec<u16>)
        ensures
            r@ == serial_seq(self.spec_start(), self.spec_end()),
    {
        let mut out: Vec<u16> = Vec::new();
        if self.start > self.end {
            return out;
        }
        let mut p: u32 = self.start as u32;
        while p <= self.end as u32
            invariant
                self.start <= p,
                p <= self.end as u32 + 1,
                self.start <= self.end,
                out@.len() == p - self.start,
                forall|i: int| 0 <= i < out@.len() ==> out@[i] == (self.start + i) as u16,
            decreases self.end as u32 + 1 - p,
        {
            out.push(p as u16);
            p = p + 1;
        }
        proof {
            assert(out@ =~= serial_seq(self.spec_start(), self.spec_end()));
        }
        out
    }
}

impl RandomRange {
    /// The first port of the range.
    pub closed spec fn spec_start(&self) -> u16 {
        self.start
    }

    /// The last port of the range.
    pub closed spec fn spec_end(&self) -> u16 {
        self.end
    }

    /// All ports of the range in the order of the walk: one entry per
    /// port, no entry twice, every port of the range present; and for
    /// the step the walk chose — unless it fell back to the one step
    /// that is adjacent by nature, one less than the range length — no
    /// two consecutive ports are adjacent integers.
    pub fn generate(&self) -> (r: Vec<u16>)
        requires
            self.spec_start() <= self.spec_end(),
        ensures
            r@.len() == self.spec_end() - self.spec_start() + 1,
            forall|i: int, j: int| 0 <= i < j < r@.len() ==> r@[i] != r@[j],
            forall|i: int|
                0 <= i < r@.len() ==> self.spec_start() <= r@[i] && r@[i] <= self.spec_end(),
            forall|v: u16| self.spec_start() <= v && v <= self.spec_end() ==> r@.contains(v),
            exists|step: nat|
                step < r@.len() && #[trigger] gcd(r@.len() as nat, step) == 1 && ((step != 1
                    && step + 1 != r@.len()) ==> never_adjacent(r@)),
    {
        let it = RangeIterator::new(self.start as u32, self.end as u32);
        let out = it.collect_all();
        proof {
            assert forall|v: u16|
                self.spec_start() <= v && v <= self.spec_end() implies out@.contains(v) by {
                assert(it.spec_start() <= (v as nat) && (v as nat) < it.spec_start()
                    + it.spec_len());
            }
            assert(gcd(out@.len() as nat, it.spec_step()) == 1);
        }
        out
    }
}

impl PortStrategy {
    /// A strategy whose port range, if it has one, is not reversed.
    pub open spec fn wf(&self) -> bool {
        match self {
            PortStrategy::Manual(_) => true,
            PortStrategy::Serial(_) => true,
            PortStrategy::Random(r) => r.spec_start() <= r.spec_end(),
        }
    }

    /// Choose the strategy: a given port list is kept (shuffled first on a
    /// random scan); otherwise the range is scanned serially or through
    /// the random walk.
    pub fn pick(range: &Option<PortRange>, ports: Option<Vec<u16>>, order: ScanOrder) -> (r: Self)
        requires
            ports is None ==> range is Some,
        ensures
            r.wf() || (range matches Some(pr) && pr.start > pr.end),
            ports is None && order == ScanOrder::Serial ==> (r matches PortStrategy::Serial(s)
                && s.spec_start() == range->Some_0.start && s.spec_end() == range->Some_0.end),
            ports is None && order == ScanOrder::Random ==> (r matches PortStrategy::Random(s)
                && s.spec_start() == range->Some_0.start && s.spec_end() == range->Some_0.end),
            ports is Some && order == ScanOrder::Serial ==> (r matches
                PortStrategy::Manual(m) && m@ == ports->Some_0@),
            ports is Some && order == ScanOrder::Random ==> (r matches
                PortStrategy::Manual(m) && m@.to_multiset() == ports->Some_0@.to_multiset()),
    {
        match order {
            ScanOrder::Serial => {
                match ports {
                    None => {
                        let pr = range.as_ref().unwrap();
                        PortStrategy::Serial(SerialRange { start: pr.start, end: pr.end })
                    },
                    Some(p) => PortStrategy::Manual(p),
                }
            },
            ScanOrder::Random => {
                match ports {
                    None => {
                        let pr = range.as_ref().unwrap();
                        PortStrategy::Random(RandomRange { start: pr.start, end: pr.end })
                    },
                    Some(mut p) => {
                        let mut rng = thread_rng();
                        shuffle_u16(&mut p, &mut rng);
                        PortStrategy::Manual(p)
                    },
                }
            },
        }
    }

    /// The port sequence of the strategy, in scan order: the manual list
    /// as given, a serial range ascending, a random range as a
    /// permutation of the ascending sequence.
    pub fn order(&self) -> (r: Vec<u16>)
        requires
            self.wf(),
        ensures
            self matches PortStrategy::Manual(p) ==> r@ == p@,
            self matches PortStrategy::Serial(s) ==> (r@ == serial_seq(
                s.spec_start(),
                s.spec_end(),
            )),
            self matches PortStrategy::Random(rr) ==> {
                &&& r@.len() == rr.spec_end() - rr.spec_start() + 1
                &&& (forall|i: int, j: int| 0 <= i < j < r@.len() ==> r@[i] != r@[j])
                &&& (forall|i: int|
                    0 <= i < r@.len() ==> rr.spec_start() <= r@[i] && r@[i] <= rr.spec_end())
                &&& (forall|v: u16| rr.spec_start() <= v && v <= rr.spec_end() ==> r@.contains(v))
                &&& (exists|step: nat|
                    step < r@.len() && #[trigger] gcd(r@.len() as nat, step) == 1 && ((step != 1
                        && step + 1 != r@.len()) ==> never_adjacent(r@)))
            },
    {
        match self {
            PortStrategy::Manual(ports) => ports.clone(),
            PortStrategy::Serial(range) => range.generate(),
            PortStrategy::Random(range) => range.generate(),
        }
    }
}

} // verus!
