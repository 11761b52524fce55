use std::time::{Duration, Instant};
use vstd::prelude::*;

verus! {

/// A point in time of the monotonic clock.
#[verifier::external_type_specification]
#[verifier::external_body]
pub struct ExInstant(Instant);

/// Reads the monotonic clock (`Instant::now`). Nothing is claimed of the reading.
#[verifier::external_body]
fn now() -> (res: Instant) {
    Instant::now()
}

/// The time from `earlier` to `later`, as `Instant - Instant` gives it: a function of the
/// two readings alone.
pub uninterp spec fn time_between(later: Instant, earlier: Instant) -> Duration;

/// The time from `earlier` to `later` (`Instant - Instant`, which the documentation calls
/// the amount of time elapsed from `earlier` to `later`, saturating to zero when `earlier`
/// is the later one). The contract claims that the result is [`time_between`] of the two
/// readings, and that elapsed times add up: for a reading `first` not after `earlier`
/// (the time from `earlier` to `first` is zero) with `earlier` not after `later`, the time
/// from `first` to `later` is the time from `first` to `earlier` plus the result, in
/// nanoseconds. What the span is otherwise, is left unsaid.
#[verifier::external_body]
fn elapsed(later: Instant, earlier: Instant) -> (res: Duration)
    ensures
        res == time_between(later, earlier),
        forall|first: Instant|
            duration_nanos(time_between(first, earlier)) == 0 && duration_nanos(
                time_between(earlier, later),
            ) == 0 ==> #[trigger] duration_nanos(time_between(later, first)) == duration_nanos(
                time_between(earlier, first),
            ) + duration_nanos(res),
{
    later - earlier
}

/// The length of a span in nanoseconds, as `Duration::as_nanos` gives it.
pub uninterp spec fn duration_nanos(d: Duration) -> u128;

/// The length of a span in nanoseconds (`Duration::as_nanos`). The contract claims that the
/// result is [`duration_nanos`] of the span.
#[verifier::external_body]
fn nanos(d: Duration) -> (res: u128)
    ensures
        res == duration_nanos(d),
{
    d.as_nanos()
}

/// A zero-length span (`Duration::default`, which is `Duration::ZERO`). The contract claims
/// that it is zero nanoseconds long.
#[verifier::external_body]
fn zero_duration() -> (res: Duration)
    ensures
        duration_nanos(res) == 0,
{
    Duration::default()
}

/// Whether the reading `a` is not after the reading `b`: the time from `b` back to `a`
/// is zero.
pub open spec fn not_after(a: Instant, b: Instant) -> bool {
    duration_nanos(time_between(a, b)) == 0
}

/// Measures the time between consecutive frames.
pub struct Stopwatch {
    prev: Instant,
    /// The time the last frame took.
    pub dt: Duration,
    started: Ghost<Instant>,
    frames: Ghost<nat>,
    measured: Ghost<int>,
    in_order: Ghost<bool>,
}

impl Stopwatch {
    /// The clock reading of the last redraw (of the start, before any).
    pub closed spec fn last_redraw(&self) -> Instant {
        self.prev
    }

    /// The time the last frame took, as the field `dt` holds it.
    pub closed spec fn frame_time(&self) -> Duration {
        self.dt
    }

    /// The clock reading the stopwatch started at.
    pub closed spec fn start_reading(&self) -> Instant {
        self.started@
    }

    /// How many redraws were measured.
    pub closed spec fn frames(&self) -> nat {
        self.frames@
    }

    /// The sum of the measured frame times, in nanoseconds.
    pub closed spec fn measured_nanos(&self) -> int {
        self.measured@
    }

    /// Whether every redraw's reading was not before the previous one nor before the start.
    pub closed spec fn readings_in_order(&self) -> bool {
        self.in_order@
    }

    /// The frame times add up: before any redraw nothing is measured; after one, while
    /// the readings came in order, the frame times sum to the time from the start to the
    /// last redraw, and the last redraw is not before the start.
    pub open spec fn wf(&self) -> bool {
        &&& self.frames() == 0 ==> self.measured_nanos() == 0 && self.last_redraw()
            == self.start_reading()
        &&& self.frames() > 0 && self.readings_in_order() ==> {
            &&& self.measured_nanos() == duration_nanos(
                time_between(self.last_redraw(), self.start_reading()),
            )
            &&& not_after(self.start_reading(), self.last_redraw())
        }
    }

    /// A stopwatch started at the clock reading `now`, with no frame measured yet.
    pub fn start_at(now: Instant) -> (res: Self)
        ensures
            res.last_redraw() == now,
            duration_nanos(res.frame_time()) == 0,
            res.start_reading() == now,
            res.frames() == 0,
            res.readings_in_order(),
            res.wf(),
    {
        Stopwatch {
            prev: now,
            dt: zero_duration(),
            started: Ghost(now),
            frames: Ghost(0),
            measured: Ghost(0),
            in_order: Ghost(true),
        }
    }

    /// A stopwatch that starts now, with no frame measured yet: its frame time is zero.
    /// Which clock reading it starts from depends on the time.
    pub fn start() -> (res: Self)
        ensures
            duration_nanos(res.frame_time()) == 0,
            res.start_reading() == res.last_redraw(),
            res.frames() == 0,
            res.readings_in_order(),
            res.wf(),
    {
        Self::start_at(now())
    }

    /// A redraw at the clock reading `now`: the frame took the time since the previous
    /// redraw (or the start), and `now` becomes the previous redraw.
    /// The start stays, the frame count grows by one and the frame time is added to the
    /// measured sum; the readings stay in order while `now` is not before the previous
    /// redraw nor the start.
    pub fn redraw_at(&mut self, now: Instant)
        ensures
            final(self).last_redraw() == now,
            final(self).frame_time() == time_between(now, old(self).last_redraw()),
            final(self).start_reading() == old(self).start_reading(),
            final(self).frames() == old(self).frames() + 1,
            final(self).measured_nanos() == old(self).measured_nanos() + duration_nanos(
                final(self).frame_time(),
            ),
            final(self).readings_in_order() == (old(self).readings_in_order() && not_after(
                old(self).last_redraw(),
                now,
            ) && not_after(old(self).start_reading(), now)),
            old(self).wf() ==> final(self).wf(),
    {
        let dt = elapsed(now, self.prev);
        proof {
            let ghost old_prev = self.prev;
            if self.frames@ > 0 && self.in_order@ && not_after(old_prev, now) && not_after(
                self.started@,
                now,
            ) && self.wf() {
                assert(duration_nanos(time_between(now, self.started@)) == duration_nanos(
                    time_between(old_prev, self.started@),
                ) + duration_nanos(dt));
            }
            self.measured@ = self.measured@ + duration_nanos(dt);
            self.in_order@ = self.in_order@ && not_after(old_prev, now) && not_after(
                self.started@,
                now,
            );
            self.frames@ = self.frames@ + 1;
        }
        self.dt = dt;
        self.prev = now;
    }

    /// On a redraw, reads the clock and measures the time since the previous redraw, as
    /// [`Stopwatch::redraw_at`] does with that reading; any other event leaves the
    /// stopwatch as it is.
    pub fn handle(&mut self, is_redraw: bool)
        ensures
            !is_redraw ==> *final(self) == *old(self),
            is_redraw ==> {
                &&& final(self).frame_time() == time_between(
                    final(self).last_redraw(),
                    old(self).last_redraw(),
                )
                &&& final(self).start_reading() == old(self).start_reading()
                &&& final(self).frames() == old(self).frames() + 1
                &&& final(self).measured_nanos() == old(self).measured_nanos() + duration_nanos(
                    final(self).frame_time(),
                )
                &&& final(self).readings_in_order() == (old(self).readings_in_order()
                    && not_after(old(self).last_redraw(), final(self).last_redraw())
                    && not_after(old(self).start_reading(), final(self).last_redraw()))
            },
            old(self).wf() ==> final(self).wf(),
    {
        if is_redraw {
            self.redraw_at(now());
        }
    }

    /// The time the last frame took, in nanoseconds.
    pub fn frame_nanos(&self) -> (res: u128)
        ensures
            res == duration_nanos(self.frame_time()),
    {
        nanos(self.dt)
    }
}

/// The frame times add up: once a stopwatch has measured a redraw, and every redraw's
/// clock reading came no earlier than the previous one and the start, the frame times it
/// measured sum to the whole time from the start to the last redraw; none is lost or
/// counted twice.
pub proof fn lemma_frame_times_add_up(s: Stopwatch)
    requires
        s.wf(),
        s.frames() > 0,
        s.readings_in_order(),
    ensures
        s.measured_nanos() == duration_nanos(time_between(s.last_redraw(), s.start_reading())),
{
}

} // verus!
