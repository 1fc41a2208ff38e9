use vstd::prelude::*;

verus! {

/// Seconds in one day of the lookback window.
pub const SECONDS_PER_DAY: i64 = 86400;

/// A lookback window `[start, end)`, both ends in seconds since the Unix epoch.
#[derive(Clone, Copy, Debug, PartialEq, Eq, Structural)]
pub struct Window {
    pub start: i64,
    pub end: i64,
}

/// The start of a window of `days` days that ends at `end`.
pub open spec fn window_start(end: int, days: int) -> int {
    end - days * SECONDS_PER_DAY
}

/// Whether the window of `days` days ending at `now` has a start that fits in an `i64`.
pub open spec fn window_fits(now: int, days: int) -> bool {
    i64::MIN <= window_start(now, days) <= i64::MAX
}

/// The window of `days` days that ends at `now`. A negative `days` is not
/// rejected: it gives a window whose start lies after its end.
pub fn lookback_window(now: i64, days: i64) -> (w: Window)
    requires
        window_fits(now as int, days as int),
    ensures
        w.end == now,
        w.start == window_start(now as int, days as int),
        days >= 0 ==> w.start <= w.end,
{
    let span: i128 = (days as i128) * (SECONDS_PER_DAY as i128);
    let start: i128 = (now as i128) - span;
    Window { start: start as i64, end: now }
}

/// For every non-negative day count and fixed end, the window starts `days`
/// whole days before its end, and never after it.
pub proof fn lemma_window_ordered(end: int, days: int)
    requires
        days >= 0,
    ensures
        window_start(end, days) == end - days * 86400,
        window_start(end, days) <= end,
{
    assert(days * 86400 >= 0) by (nonlinear_arith)
        requires
            days >= 0,
    ;
}

} // verus!
