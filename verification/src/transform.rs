use vstd::prelude::*;
use crate::event::Event;

verus! {

/// Times are non-decreasing from one event to the next: the assumed
/// invariant of every well-formed event sequence.
pub open spec fn times_sorted(evs: Seq<Event>) -> bool {
    forall|i: int| 0 <= i < evs.len() - 1 ==> #[trigger] evs[i].time <= evs[i + 1].time
}

/// The accumulated idle-time shift after the first `n` events: every gap
/// above `limit` microseconds - measured on the original times, with the
/// time before the first event taken as 0 - contributes its excess.
pub open spec fn spec_idle_offset(evs: Seq<Event>, limit: u64, n: int) -> int
    decreases n,
{
    if n <= 0 {
        0
    } else {
        let prev: int = if n == 1 {
            0
        } else {
            evs[n - 2].time as int
        };
        let gap = evs[n - 1].time - prev;
        spec_idle_offset(evs, limit, n - 1) + if gap > limit {
            gap - limit
        } else {
            0
        }
    }
}

/// Caps the gap between consecutive events at `limit` microseconds,
/// shrinking the whole timeline: each event keeps its code and data and
/// moves earlier by the idle time accumulated so far above the cap.
#[verifier::loop_isolation(false)]
pub fn limit_idle_time(events: &Vec<Event>, limit: u64) -> (r: Vec<Event>)
    requires
        times_sorted(events@),
    ensures
        r@.len() == events@.len(),
        forall|i: int|
            0 <= i < events@.len() ==> (#[trigger] r@[i]).code == events@[i].code && r@[i].data@
                == events@[i].data@ && r@[i].time == events@[i].time - spec_idle_offset(
                events@,
                limit,
                i + 1,
            ),
{
    let mut out: Vec<Event> = Vec::new();
    let mut prev_time: u64 = 0;
    let mut offset: u64 = 0;
    let mut i: usize = 0;
    while i < events.len()
        invariant
            i <= events@.len(),
            out@.len() == i,
            prev_time == if i == 0 {
                0
            } else {
                events@[i - 1].time as int
            },
            offset == spec_idle_offset(events@, limit, i as int),
            offset <= prev_time,
            forall|j: int|
                0 <= j < i ==> (#[trigger] out@[j]).code == events@[j].code && out@[j].data@
                    == events@[j].data@ && out@[j].time == events@[j].time - spec_idle_offset(
                    events@,
                    limit,
                    j + 1,
                ),
        decreases events@.len() - i,
    {
        let e = &events[i];
        proof {
            if i > 0 {
                assert(events@[i as int - 1].time <= events@[i as int].time);
            }
        }
        let gap = e.time - prev_time;
        if gap > limit {
            offset = offset + (gap - limit);
        }
        prev_time = e.time;
        out.push(Event { time: e.time - offset, code: e.code, data: e.data.clone() });
        i = i + 1;
    }
    out
}

/// The accelerated time: original microseconds divided by the speed
/// factor, rounded down, saturating at the largest representable time.
/// The factor is given in millionths, so one million is unit speed.
pub open spec fn spec_accel(t: u64, speed: u64) -> u64 {
    let v = (t * 1_000_000) as int / speed as int;
    if v > u64::MAX {
        u64::MAX
    } else {
        v as u64
    }
}

/// Scales every event time by a positive speed factor given in
/// millionths (2000000 doubles the speed, halving every time, rounded
/// down). Codes and data stay; no state crosses from one event to the
/// next.
pub fn accelerate(events: &Vec<Event>, speed: u64) -> (r: Vec<Event>)
    requires
        speed > 0,
    ensures
        r@.len() == events@.len(),
        forall|i: int|
            0 <= i < events@.len() ==> (#[trigger] r@[i]).code == events@[i].code && r@[i].data@
                == events@[i].data@ && r@[i].time == spec_accel(events@[i].time, speed),
{
    let mut out: Vec<Event> = Vec::new();
    let mut i: usize = 0;
    while i < events.len()
        invariant
            speed > 0,
            i <= events@.len(),
            out@.len() == i,
            forall|j: int|
                0 <= j < i ==> (#[trigger] out@[j]).code == events@[j].code && out@[j].data@
                    == events@[j].data@ && out@[j].time == spec_accel(events@[j].time, speed),
        decreases events@.len() - i,
    {
        let e = &events[i];
        let scaled: u128 = (e.time as u128) * 1_000_000u128;
        let q: u128 = scaled / (speed as u128);
        let t: u64 = if q > u64::MAX as u128 {
            u64::MAX
        } else {
            q as u64
        };
        out.push(Event { time: t, code: e.code, data: e.data.clone() });
        i = i + 1;
    }
    out
}

/// Total recorded duration: the time of the last event, or 0 of none.
pub fn get_duration(events: &Vec<Event>) -> (r: u64)
    ensures
        events@.len() == 0 ==> r == 0,
        events@.len() > 0 ==> r == events@.last().time,
{
    if events.len() == 0 {
        0
    } else {
        events[events.len() - 1].time
    }
}

} // verus!
