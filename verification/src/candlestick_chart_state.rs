//! The viewport/cursor state machine.
//!
//! A state is either *live* (`cursor_timestamp` is `None`: the window
//! follows the newest candle) or *scrolled* (`Some(t)`: the window ends
//! at `t`).  Each render pass recomputes the window bounds and stores
//! them here as a [`CandleStikcChartInfo`]; explicit move calls shift
//! the cursor by one interval, clamped into those bounds.

use vstd::prelude::*;

use crate::x_axis::Interval;

verus! {

/// Timestamps of candles stay below this magnitude (milliseconds
/// since the epoch, about 250 000 years), which keeps every window
/// computation inside `i64` and inside the range of the calendar
/// conversion.
pub const MAX_TIMESTAMP_MS: i64 = 8_000_000_000_000_000;

/// Window bounds may lie up to a full screen of interval steps
/// beyond the candle timestamps.
pub const MAX_BOUND_TIMESTAMP_MS: i64 = 8_040_000_000_000_000;

/// Window bounds derived from the series and the render area, written
/// back by every render pass.
#[derive(Debug, Clone, PartialEq, Eq, Structural)]
pub struct CandleStikcChartInfo {
    /// Earliest timestamp the cursor may scroll back to.
    pub cursor_first_timestamp: i64,
    /// Latest timestamp the cursor may scroll forward to.
    pub cursor_last_timestamp: i64,
    /// Spacing of the candle series.
    pub interval: Interval,
    /// Timestamp of the newest real candle (the live edge).
    pub latest_timestamp: i64,
    /// Whether the visible window starts before the first candle held
    /// by the caller, i.e. older history should be fetched.
    pub need_previous_candles: bool,
}

impl CandleStikcChartInfo {
    /// Well-formed bounds: ordered and within the timestamp range.
    pub open spec fn wf(self) -> bool {
        &&& self.cursor_first_timestamp <= self.latest_timestamp
        &&& self.latest_timestamp <= self.cursor_last_timestamp
        &&& -MAX_BOUND_TIMESTAMP_MS <= self.cursor_first_timestamp
        &&& self.cursor_last_timestamp <= MAX_BOUND_TIMESTAMP_MS
    }

    pub(crate) fn new(
        cursor_first_timestamp: i64,
        cursor_last_timestamp: i64,
        interval: Interval,
        latest_timestamp: i64,
        need_previous_candles: bool,
    ) -> (r: Self)
        ensures
            r == (CandleStikcChartInfo {
                cursor_first_timestamp,
                cursor_last_timestamp,
                interval,
                latest_timestamp,
                need_previous_candles,
            }),
    {
        CandleStikcChartInfo {
            cursor_first_timestamp,
            cursor_last_timestamp,
            interval,
            latest_timestamp,
            need_previous_candles,
        }
    }
}

/// Caller-owned scroll state: the optional cursor plus the bounds of
/// the most recent render.
#[derive(Debug, Clone, PartialEq, Eq, Structural)]
pub struct CandleStickChartState {
    /// Bounds written by the most recent render pass, if any.
    pub info: Option<CandleStikcChartInfo>,
    /// `None` = pinned to the live edge; `Some(t)` = window ends at `t`.
    pub cursor_timestamp: Option<i64>,
}

impl CandleStickChartState {
    /// The cursor-clamp invariant: whenever bounds are known, a set
    /// cursor lies inside them; before the first render the cursor is
    /// unset.
    pub open spec fn wf(self) -> bool {
        match self.info {
            None => self.cursor_timestamp is None,
            Some(i) => {
                &&& i.wf()
                &&& (self.cursor_timestamp is Some ==> {
                    &&& i.cursor_first_timestamp <= self.cursor_timestamp.unwrap()
                    &&& self.cursor_timestamp.unwrap() <= i.cursor_last_timestamp
                })
            },
        }
    }

    /// The state after new bounds are stored: a set cursor is clamped
    /// into them, and a cursor that then sits exactly on the live edge
    /// collapses back to live (`None`).
    pub open spec fn spec_set_info(self, info: CandleStikcChartInfo) -> Self {
        let cursor = match self.cursor_timestamp {
            None => None,
            Some(c) => {
                let cc = if c < info.cursor_first_timestamp {
                    info.cursor_first_timestamp
                } else if c > info.cursor_last_timestamp {
                    info.cursor_last_timestamp
                } else {
                    c
                };
                if cc == info.latest_timestamp {
                    None
                } else {
                    Some(cc)
                }
            },
        };
        CandleStickChartState { info: Some(info), cursor_timestamp: cursor }
    }

    /// The state after one backward move: the window end steps one
    /// interval into the past, stopping at the earliest allowed bound.
    pub open spec fn spec_move_backward(self) -> Self {
        match self.info {
            None => self,
            Some(i) => {
                let base = match self.cursor_timestamp {
                    Some(c) => c,
                    None => i.latest_timestamp,
                };
                let stepped: int = base - i.interval.spec_step_ms();
                let clamped: int = if stepped < i.cursor_first_timestamp {
                    i.cursor_first_timestamp as int
                } else {
                    stepped
                };
                CandleStickChartState { info: self.info, cursor_timestamp: Some(clamped as i64) }
            },
        }
    }

    /// The state after one forward move: the window end steps one
    /// interval towards the present, stopping at the latest allowed
    /// bound.
    pub open spec fn spec_move_forward(self) -> Self {
        match self.info {
            None => self,
            Some(i) => {
                let base = match self.cursor_timestamp {
                    Some(c) => c,
                    None => i.latest_timestamp,
                };
                let stepped: int = base + i.interval.spec_step_ms();
                let clamped: int = if stepped > i.cursor_last_timestamp {
                    i.cursor_last_timestamp as int
                } else {
                    stepped
                };
                CandleStickChartState { info: self.info, cursor_timestamp: Some(clamped as i64) }
            },
        }
    }

    /// Stores the bounds computed by a render pass and re-clamps the
    /// cursor, collapsing to live when it lands on the live edge.
    pub(crate) fn set_info(&mut self, info: CandleStikcChartInfo)
        requires
            info.wf(),
        ensures
            *final(self) == old(self).spec_set_info(info),
            final(self).wf(),
    {
        if let Some(cursor_timestamp) = self.cursor_timestamp {
            let clamped = if cursor_timestamp < info.cursor_first_timestamp {
                info.cursor_first_timestamp
            } else if cursor_timestamp > info.cursor_last_timestamp {
                info.cursor_last_timestamp
            } else {
                cursor_timestamp
            };
            if clamped == info.latest_timestamp {
                self.cursor_timestamp = None;
            } else {
                self.cursor_timestamp = Some(clamped);
            }
        }
        self.info = Some(info);
    }

    /// Scrolls one interval into the past, entering scrolled state from
    /// live; the cursor never moves before the earliest allowed bound.
    /// Does nothing before the first render.
    pub fn try_move_backward(&mut self)
        requires
            old(self).wf(),
        ensures
            *final(self) == old(self).spec_move_backward(),
            final(self).wf(),
    {
        if let Some(info) = &self.info {
            let cursor = if let Some(cursor_timestamp) = self.cursor_timestamp {
                cursor_timestamp - info.interval.step_ms()
            } else {
                info.latest_timestamp - info.interval.step_ms()
            };

            let clamped = if cursor < info.cursor_first_timestamp {
                info.cursor_first_timestamp
            } else {
                cursor
            };
            self.cursor_timestamp = Some(clamped);
        }
    }

    /// Scrolls one interval towards the present; the cursor never moves
    /// past the latest allowed bound.  Does nothing before the first
    /// render.
    pub fn try_move_forward(&mut self)
        requires
            old(self).wf(),
        ensures
            *final(self) == old(self).spec_move_forward(),
            final(self).wf(),
    {
        if let Some(info) = &self.info {
            let cursor = if let Some(cursor_timestamp) = self.cursor_timestamp {
                cursor_timestamp + info.interval.step_ms()
            } else {
                info.latest_timestamp + info.interval.step_ms()
            };

            let clamped = if cursor > info.cursor_last_timestamp {
                info.cursor_last_timestamp
            } else {
                cursor
            };
            self.cursor_timestamp = Some(clamped);
        }
    }

    /// True exactly when the most recent render found that the visible
    /// window extends before the first candle of the series.
    pub fn is_needed_previous_candles(&self) -> (r: bool)
        ensures
            r == match self.info {
                Some(i) => i.need_previous_candles,
                None => false,
            },
    {
        if let Some(info) = &self.info {
            info.need_previous_candles
        } else {
            false
        }
    }

    /// Returns to live state unconditionally.
    pub fn reset_cursor(&mut self)
        ensures
            *final(self) == (CandleStickChartState {
                info: old(self).info,
                cursor_timestamp: None,
            }),
            old(self).wf() ==> final(self).wf(),
    {
        self.cursor_timestamp = None;
    }
}

impl Default for CandleStickChartState {
    /// The initial state: live, with no bounds known yet.
    fn default() -> (r: Self)
        ensures
            r.info is None,
            r.cursor_timestamp is None,
            r.wf(),
    {
        CandleStickChartState { info: None, cursor_timestamp: None }
    }
}

/// Every transition keeps the cursor-clamp invariant: starting from any
/// well-formed state, a move in either direction yields a well-formed
/// state, so a set cursor always lies inside the bounds of the most
/// recent render.
pub proof fn lemma_moves_preserve_wf(s: CandleStickChartState)
    requires
        s.wf(),
    ensures
        s.spec_move_backward().wf(),
        s.spec_move_forward().wf(),
        forall|i: CandleStikcChartInfo| i.wf() ==> #[trigger] s.spec_set_info(i).wf(),
{
}

/// Backward motion stops at the earliest allowed bound: the cursor
/// never passes it, and once there further backward moves leave the
/// state unchanged.  A reset then returns to live regardless of the
/// cursor's position.
pub proof fn lemma_move_backward_stops(s: CandleStickChartState)
    requires
        s.wf(),
        s.info is Some,
    ensures
        s.spec_move_backward().cursor_timestamp.unwrap()
            >= s.info.unwrap().cursor_first_timestamp,
        s.cursor_timestamp == Some(s.info.unwrap().cursor_first_timestamp)
            ==> s.spec_move_backward() == s,
        (CandleStickChartState {
            info: s.info,
            cursor_timestamp: None,
        }).cursor_timestamp is None,
{
}

} // verus!
