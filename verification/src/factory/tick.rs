//! Tick and timing math.
//!
//! One tick is one second, stored as Unix epoch seconds. Building progress
//! is always computed from timestamps:
//!
//! ```text
//! current_progress = (current_tick - start_tick) * speed
//! is_complete      = current_progress >= total_progress
//! completion_tick  = start_tick + ceil(total_progress / speed)
//! ```
use vstd::prelude::*;

verus! {

/// Global monotonic tick counter. 1 tick = 1 second.
pub type Tick = u64;

/// `a - b`, bottoming out at zero.
pub open spec fn sat_sub(a: int, b: int) -> int {
    if a >= b { a - b } else { 0 }
}

/// `a * b`, capped at `u64::MAX`.
pub open spec fn sat_mul_u64(a: int, b: int) -> int {
    if a * b > u64::MAX { u64::MAX as int } else { a * b }
}

/// `a + b`, capped at `u64::MAX`.
pub open spec fn sat_add_u64(a: int, b: int) -> int {
    if a + b > u64::MAX { u64::MAX as int } else { a + b }
}

/// Ticks elapsed between `start` and `now`, zero when `start` is later.
pub open spec fn spec_elapsed(now: Tick, start: Tick) -> int {
    sat_sub(now as int, start as int)
}

/// Whether an operation begun at `start` has reached `total_progress` at
/// tick `now`, progressing `speed` per tick.
pub open spec fn spec_is_complete(now: Tick, start: Tick, speed: u64, total_progress: u64) -> bool {
    sat_mul_u64(spec_elapsed(now, start), speed as int) >= total_progress
}

/// Ceiling of `a / b` for `b > 0`.
pub open spec fn ceil_div(a: int, b: int) -> int {
    (a + b - 1) / b
}

/// The tick at which an operation begun at `start` completes; a speed of 0
/// counts as 1.
pub open spec fn spec_completion_tick(start: Tick, speed: u64, total_progress: u64) -> int {
    let s = if speed == 0 { 1int } else { speed as int };
    sat_add_u64(start as int, ceil_div(total_progress as int, s))
}

/// Reads the system clock: whole seconds since the Unix epoch.
///
/// Wraps `std::time::SystemTime::now` and `duration_since(UNIX_EPOCH)`;
/// a clock set before the epoch reads as 0. Nothing is promised of the
/// value: it is the machine's clock.
#[verifier::external_body]
pub fn current_tick() -> (t: Tick) {
    match std::time::SystemTime::now().duration_since(std::time::UNIX_EPOCH) {
        Ok(d) => d.as_secs(),
        Err(_) => 0,
    }
}

/// Ticks elapsed between `start` and `now`, bottoming out at zero.
pub fn elapsed_between(now: Tick, start: Tick) -> (r: Tick)
    ensures
        r == spec_elapsed(now, start),
{
    now.saturating_sub(start)
}

/// Ticks elapsed since `start` on the system clock, bottoming out at zero
/// so that a future `start` gives no progress.
pub fn elapsed_since(start: Tick) -> (r: Tick)
    ensures
        exists|now: Tick| r == #[trigger] spec_elapsed(now, start),
{
    let now = current_tick();
    elapsed_between(now, start)
}

/// `(now - start) * speed >= total_progress`, saturating on both sides.
pub fn is_complete_at(now: Tick, start: Tick, speed: u64, total_progress: u64) -> (r: bool)
    ensures
        r == spec_is_complete(now, start, speed, total_progress),
{
    let elapsed = elapsed_between(now, start);
    let capped: u64 = match elapsed.checked_mul(speed) {
        Some(p) => p,
        None => u64::MAX,
    };
    capped >= total_progress
}

/// `(current_tick - start) * speed >= total_progress` on the system clock.
pub fn is_complete(start: Tick, speed: u64, total_progress: u64) -> (r: bool)
    ensures
        exists|now: Tick| r == #[trigger] spec_is_complete(now, start, speed, total_progress),
{
    let now = current_tick();
    is_complete_at(now, start, speed, total_progress)
}

/// The tick when the operation finishes: `start + ceil(total / speed)`,
/// with speed 0 bumped to 1 and the sum saturating.
pub fn completion_tick(start: Tick, speed: u64, total_progress: u64) -> (r: Tick)
    ensures
        r == spec_completion_tick(start, speed, total_progress),
{
    let speed = if speed == 0 { 1 } else { speed };
    let q = total_progress / speed;
    let needed = if total_progress % speed == 0 {
        q
    } else {
        assert(q < u64::MAX) by (nonlinear_arith)
            requires
                q == total_progress / speed,
                total_progress % speed != 0,
                speed >= 1,
        {
            if speed == 1 {
                assert(total_progress % speed == 0);
            }
        }
        q + 1
    };
    proof {
        lemma_ceil_div(total_progress as int, speed as int);
    }
    start.saturating_add(needed)
}

proof fn lemma_ceil_div(a: int, b: int)
    requires
        a >= 0,
        b > 0,
    ensures
        ceil_div(a, b) == a / b + if a % b == 0 { 0int } else { 1int },
{
    assert(ceil_div(a, b) == a / b + if a % b == 0 { 0int } else { 1int }) by (nonlinear_arith)
        requires
            a >= 0,
            b > 0,
    {
        let q = a / b;
        let r = a % b;
        assert(a == b * q + r);
        assert(0 <= r < b);
        if r == 0 {
            assert(a + b - 1 == b * q + (b - 1));
        } else {
            assert(a + b - 1 == b * (q + 1) + (r - 1));
        }
    }
}

/// Completion and the completion tick agree: for a non-zero speed, an
/// operation is complete at `now` exactly when `now` has reached its
/// completion tick (as long as that tick does not saturate, and the
/// operation has started or needs some progress).
pub proof fn lemma_complete_iff_reached_completion_tick(
    now: Tick,
    start: Tick,
    speed: u64,
    total_progress: u64,
)
    requires
        speed >= 1,
        start + ceil_div(total_progress as int, speed as int) <= u64::MAX,
        now >= start || total_progress > 0,
    ensures
        spec_is_complete(now, start, speed, total_progress) <==> now >= spec_completion_tick(
            start,
            speed,
            total_progress,
        ),
{
    let s = speed as int;
    let t = total_progress as int;
    let c = ceil_div(t, s);
    lemma_ceil_div(t, s);
    let e = spec_elapsed(now, start);
    assert(e * s >= t <==> e >= c) by (nonlinear_arith)
        requires
            s >= 1,
            t >= 0,
            e >= 0,
            c == t / s + if t % s == 0 { 0int } else { 1int },
    {
        let q = t / s;
        let r = t % s;
        assert(t == s * q + r && 0 <= r < s);
        if e >= c {
            assert(e * s >= c * s);
        } else {
            assert(e <= c - 1);
            assert(e * s <= (c - 1) * s);
        }
    }
    if e * s > u64::MAX {
        assert(e * s >= t);
    }
}

} // verus!
