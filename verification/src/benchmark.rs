//! Timing of the scan phases: named timers with a start and an end
//! instant, and a summary that lists the runtime of every completed
//! timer.

use vstd::prelude::*;
use crate::textnum::dec_str_of;
use crate::textnum::dec_string;
use crate::textnum::dec_digit_char;
use crate::textnum::pad_right;
use crate::textnum::spec_pad_right;

verus! {

#[verifier::external_type_specification]
#[verifier::external_body]
pub struct ExInstant(std::time::Instant);

/// Relies on std::time::Instant::now: the current instant. The value
/// depends on the clock, so nothing is promised of it.
#[verifier::external_body]
fn instant_now() -> std::time::Instant {
    std::time::Instant::now()
}

/// Relies on std::time::Instant::saturating_duration_since: the time
/// between two instants, or zero when they are ordered the other way.
/// The instants are opaque, so nothing is promised of the value.
#[verifier::external_body]
fn duration_since(later: &std::time::Instant, earlier: &std::time::Instant) -> core::time::Duration {
    later.saturating_duration_since(*earlier)
}

/// Relies on core::time::Duration::as_millis: the duration in whole
/// milliseconds. The duration is opaque, so nothing is promised of the
/// value.
#[verifier::external_body]
fn duration_millis(d: &core::time::Duration) -> u128 {
    d.as_millis()
}

/// A named timer: the name, and the start and end instants once taken.
#[derive(Debug)]
pub struct NamedTimer {
    name: &'static str,
    start: Option<std::time::Instant>,
    end: Option<std::time::Instant>,
}

impl NamedTimer {
    /// The timer's name.
    pub closed spec fn spec_name(&self) -> Seq<char> {
        self.name@
    }

    /// Whether both instants have been taken.
    pub closed spec fn spec_completed(&self) -> bool {
        self.start is Some && self.end is Some
    }

    /// Whether the start instant has been taken.
    pub closed spec fn spec_started(&self) -> bool {
        self.start is Some
    }

    /// A timer started now, with no end yet.
    pub fn start(name: &'static str) -> (r: Self)
        ensures
            r.spec_name() == name@,
            r.spec_started(),
            !r.spec_completed(),
    {
        Self { name, start: Some(instant_now()), end: None }
    }

    /// Take the end instant.
    pub fn end(&mut self)
        ensures
            final(self).spec_name() == old(self).spec_name(),
            final(self).spec_started() == old(self).spec_started(),
            old(self).spec_started() ==> final(self).spec_completed(),
    {
        self.end = Some(instant_now());
    }
}

/// The names of the completed timers, in order.
pub open spec fn spec_completed_names(ts: Seq<NamedTimer>) -> Seq<Seq<char>>
    decreases ts.len(),
{
    if ts.len() == 0 {
        Seq::empty()
    } else {
        let rest = spec_completed_names(ts.drop_last());
        if ts.last().spec_completed() {
            rest.push(ts.last().spec_name())
        } else {
            rest
        }
    }
}

/// The runtime of one timer as text: whole seconds, a dot, and the
/// milliseconds as three digits.
pub open spec fn spec_millis_text(ms: nat) -> Seq<char> {
    dec_str_of(ms / 1000) + seq!['.'] + seq![
        dec_digit_char((ms % 1000) / 100),
        dec_digit_char(((ms % 1000) / 10) % 10),
        dec_digit_char((ms % 1000) % 10),
    ]
}

/// One summary line: the name and the runtime, each padded to ten
/// characters.
pub open spec fn spec_timer_line(name: Seq<char>, ms: nat) -> Seq<char> {
    seq!['\n'] + spec_pad_right(name, 10) + " | "@ + spec_pad_right(spec_millis_text(ms), 10)
        + seq!['s']
}

/// The summary lines for the given names and runtimes, in order.
pub open spec fn spec_summary_lines(names: Seq<Seq<char>>, ms: Seq<nat>) -> Seq<char>
    decreases names.len(),
{
    if names.len() == 0 || names.len() != ms.len() {
        Seq::empty()
    } else {
        spec_summary_lines(names.drop_last(), ms.drop_last()) + spec_timer_line(
            names.last(),
            ms.last(),
        )
    }
}

/// The runtime in milliseconds of one timer as text.
fn millis_text(ms: u128) -> (r: String)
    ensures
        r@ == spec_millis_text(ms as nat),
{
    let mut out = dec_string(ms / 1000);
    out.push('.');
    let frac = ms % 1000;
    out.push((48 + (frac / 100) as u8) as char);
    out.push((48 + ((frac / 10) % 10) as u8) as char);
    out.push((48 + (frac % 10) as u8) as char);
    proof {
        assert(out@ =~= dec_str_of(ms as nat / 1000) + seq!['.'] + seq![
            dec_digit_char((ms as nat % 1000) / 100),
            dec_digit_char(((ms as nat % 1000) / 10) % 10),
            dec_digit_char((ms as nat % 1000) % 10),
        ]);
    }
    out
}

/// The collection of timers taken over a scan.
#[derive(Debug)]
pub struct Benchmark {
    named_timers: Vec<NamedTimer>,
}

impl Benchmark {
    /// The timers pushed so far.
    pub closed spec fn spec_timers(&self) -> Seq<NamedTimer> {
        self.named_timers@
    }

    /// An empty collection.
    pub fn init() -> (r: Self)
        ensures
            r.spec_timers() == Seq::<NamedTimer>::empty(),
    {
        Self { named_timers: Vec::new() }
    }

    /// Add a timer.
    pub fn push(&mut self, timer: NamedTimer)
        ensures
            final(self).spec_timers() == old(self).spec_timers().push(timer),
    {
        self.named_timers.push(timer);
    }

    /// One line per completed timer, under a heading: the name and the
    /// measured runtime, which depends on the clock, as seconds text.
    pub fn summary(&self) -> (r: String)
        ensures
            exists|ms: Seq<nat>|
                ms.len() == spec_completed_names(self.spec_timers()).len() && r@
                    == "\nRustScan Benchmark Summary"@ + #[trigger] spec_summary_lines(
                    spec_completed_names(self.spec_timers()),
                    ms,
                ),
    {
        let mut out = String::from_str("\nRustScan Benchmark Summary");
        let ghost header = out@;
        let ghost mut ms_seq: Seq<nat> = Seq::empty();
        let n = self.named_timers.len();
        let mut i: usize = 0;
        while i < n
            invariant
                0 <= i <= n,
                n == self.named_timers@.len(),
                ms_seq.len() == spec_completed_names(self.named_timers@.take(i as int)).len(),
                out@ == header + spec_summary_lines(
                    spec_completed_names(self.named_timers@.take(i as int)),
                    ms_seq,
                ),
            decreases n - i,
        {
            proof {
                assert(self.named_timers@.take(i + 1).drop_last() =~= self.named_timers@.take(
                    i as int,
                ));
                assert(self.named_timers@.take(i + 1).last() == self.named_timers@[i as int]);
            }
            let timer = &self.named_timers[i];
            match (&timer.start, &timer.end) {
                (Some(s), Some(e)) => {
                    let d = duration_since(e, s);
                    let runtime_millis = duration_millis(&d);
                    let line_name = pad_right(String::from_str(timer.name), 10);
                    let line_time = pad_right(millis_text(runtime_millis), 10);
                    out.push('\n');
                    out.append(line_name.as_str());
                    out.append(" | ");
                    out.append(line_time.as_str());
                    out.push('s');
                    proof {
                        let names0 = spec_completed_names(self.named_timers@.take(i as int));
                        let names1 = spec_completed_names(self.named_timers@.take(i + 1));
                        let old_ms = ms_seq;
                        ms_seq = ms_seq.push(runtime_millis as nat);
                        assert(names1 =~= names0.push(timer.spec_name()));
                        assert(names1.drop_last() =~= names0);
                        assert(names1.last() == timer.spec_name());
                        assert(ms_seq.drop_last() =~= old_ms);
                        assert(ms_seq.last() == runtime_millis as nat);
                        assert(spec_summary_lines(names1, ms_seq) == spec_summary_lines(
                            names0,
                            old_ms,
                        ) + spec_timer_line(timer.spec_name(), runtime_millis as nat));
                        assert(out@ =~= header + spec_summary_lines(names1, ms_seq));
                    }
                },
                _ => {
                    proof {
                        assert(spec_completed_names(self.named_timers@.take(i + 1))
                            =~= spec_completed_names(self.named_timers@.take(i as int)));
                    }
                },
            }
            i = i + 1;
        }
        proof {
            assert(self.named_timers@.take(n as int) =~= self.named_timers@);
            assert(ms_seq.len() == spec_completed_names(self.spec_timers()).len() && out@
                == "\nRustScan Benchmark Summary"@ + spec_summary_lines(
                spec_completed_names(self.spec_timers()),
                ms_seq,
            ));
        }
        out
    }
}

} // verus!
