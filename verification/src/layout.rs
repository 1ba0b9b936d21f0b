//! Shared layout constants — used by both rendering and hit-test code.
use vstd::prelude::*;

verus! {

pub const FB_WIDTH: u32 = 1920;

pub const FB_HEIGHT: u32 = 1080;

pub const TAB_BAR_HEIGHT: u32 = 38;

pub const CHROME_BAR_HEIGHT: u32 = 44;

pub const TOP_BAR_HEIGHT: u32 = TAB_BAR_HEIGHT + CHROME_BAR_HEIGHT;

pub const TAB_START_X: u32 = 8;

pub const TAB_SEP: u32 = 2;

pub const TAB_MAX_W: u32 = 180;

pub const TAB_MIN_W: u32 = 80;

pub const TAB_NEW_BTN_W: u32 = 36;

pub const ADDR_BAR_W: u32 = 700;

pub const ADDR_BAR_H: u32 = 30;

pub const ADDR_BAR_R: u32 = 15;

pub const RETRY_BTN_W: u32 = 140;

pub const RETRY_BTN_H: u32 = 38;

pub const QUICK_LINK_W: u32 = 120;

pub const QUICK_LINK_H: u32 = 100;

pub const QUICK_LINK_GAP: u32 = 16;

/// The tab count as the divisor that `tab_width` uses (at least one, taken
/// modulo 2^32 as the `u32` conversion does).
pub open spec fn tab_divisor(n: usize) -> int {
    (if n > 1 {
        n as int
    } else {
        1
    }) % 0x1_0000_0000
}

/// Width of each tab in the strip: the free space shared among `n` tabs, less
/// the separator, clamped to the minimum and maximum tab widths.
pub open spec fn spec_tab_width(n: usize) -> int {
    let avail = FB_WIDTH - (TAB_START_X + TAB_NEW_BTN_W + 12);
    let share = avail / tab_divisor(n);
    let w = if share > TAB_SEP {
        share - TAB_SEP
    } else {
        0
    };
    let capped = if w < TAB_MAX_W {
        w
    } else {
        TAB_MAX_W as int
    };
    if capped > TAB_MIN_W {
        capped
    } else {
        TAB_MIN_W as int
    }
}

pub fn tab_width(n: usize) -> (w: u32)
    requires
        tab_divisor(n) != 0,
    ensures
        w == spec_tab_width(n),
        TAB_MIN_W <= w <= TAB_MAX_W,
{
    let avail = FB_WIDTH.saturating_sub(TAB_START_X + TAB_NEW_BTN_W + 12);
    let m: usize = if n > 1 {
        n
    } else {
        1
    };
    let d: u32 = #[verifier::truncate] (m as u32);
    assert(d as int == tab_divisor(n)) by (bit_vector)
        requires
            d == #[verifier::truncate] (m as u32),
            m == (if n > 1 {
                n
            } else {
                1
            }),
    ;
    let share = avail / d;
    let w = share.saturating_sub(TAB_SEP);
    let capped = if w < TAB_MAX_W {
        w
    } else {
        TAB_MAX_W
    };
    if capped > TAB_MIN_W {
        capped
    } else {
        TAB_MIN_W
    }
}

pub open spec fn spec_retry_btn_pos() -> (u32, u32) {
    (
        (FB_WIDTH / 2 - RETRY_BTN_W / 2) as u32,
        (TOP_BAR_HEIGHT + (FB_HEIGHT - TOP_BAR_HEIGHT) / 2 + 80) as u32,
    )
}

/// Top-left corner of the error page's retry button.
pub fn retry_btn_pos() -> (p: (u32, u32))
    ensures
        p == spec_retry_btn_pos(),
{
    let cx = FB_WIDTH / 2;
    let cy = TOP_BAR_HEIGHT + (FB_HEIGHT - TOP_BAR_HEIGHT) / 2;
    (cx.saturating_sub(RETRY_BTN_W / 2), cy + 80)
}

} // verus!
