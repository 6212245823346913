//! The fixed glyph palette of the candle renderer.
//!
//! One candle becomes one column of these characters, one per row.
//! Heavy strokes draw the open/close body, light strokes the high/low
//! wick, and the half-height forms cover cells that are only partially
//! filled; `UNICODE_VOID` marks a row with no ink at all.

use vstd::prelude::*;

verus! {

pub const UNICODE_VOID: char = ' ';

pub const UNICODE_BODY: char = '┃';

pub const UNICODE_HALF_BODY_BOTTOM: char = '╻';

pub const UNICODE_HALF_BODY_TOP: char = '╹';

pub const UNICODE_WICK: char = '│';

pub const UNICODE_HALF_WICK_BOTTOM: char = '╷';

pub const UNICODE_HALF_WICK_TOP: char = '╵';

pub const UNICODE_UP: char = '╽';

pub const UNICODE_DOWN: char = '╿';

} // verus!
