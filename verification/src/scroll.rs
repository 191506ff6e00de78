//! Scrolling: which rows of a panel are on the screen.

use vstd::prelude::*;

verus! {

/// The rows of a panel that is `screen_height` rows high, its two border
/// rows left out.
pub open spec fn visible_height(screen_height: u16) -> int {
    if screen_height >= 2 {
        screen_height - 2
    } else {
        0
    }
}

/// The first row shown of a list that was scrolled to `scroll`, such that
/// the row `cursor` is on the screen: `scroll` where it is so already, else
/// the least change that brings it there. A panel without rows keeps
/// `scroll`.
pub open spec fn scrolled_to(cursor: int, scroll: int, screen_height: u16) -> int {
    let height = visible_height(screen_height);
    if height == 0 {
        scroll
    } else if cursor < scroll {
        cursor
    } else if cursor - scroll >= height {
        if cursor >= height - 1 {
            cursor - (height - 1)
        } else {
            0
        }
    } else {
        scroll
    }
}

/// The first row to show so that the row `cursor` is on the screen.
pub fn update_tree_scroll(cursor: usize, scroll: usize, screen_height: u16) -> (r: usize)
    ensures
        r == scrolled_to(cursor as int, scroll as int, screen_height),
{
    let height: usize = if screen_height >= 2 {
        (screen_height - 2) as usize
    } else {
        0
    };
    if height == 0 {
        scroll
    } else if cursor < scroll {
        cursor
    } else if cursor - scroll >= height {
        if cursor >= height - 1 {
            cursor - (height - 1)
        } else {
            0
        }
    } else {
        scroll
    }
}

/// The row of the list that a click on screen row `row` hits, in a panel
/// that is `screen_height` rows high and scrolled to `scroll`: none on the
/// border rows.
pub open spec fn clicked(row: u16, screen_height: u16, scroll: int) -> Option<int> {
    if 0 < row && row < screen_height - 1 {
        Some(scroll + row - 1)
    } else {
        None
    }
}

/// The row of the list that a click on screen row `row` hits.
pub fn clicked_row(row: u16, screen_height: u16, scroll: usize) -> (r: Option<usize>)
    requires
        screen_height >= 1,
        scroll + row <= usize::MAX,
    ensures
        match r {
            Some(k) => clicked(row, screen_height, scroll as int) == Some(k as int),
            None => clicked(row, screen_height, scroll as int) is None,
        },
{
    if row > 0 && row < screen_height - 1 {
        Some(scroll + (row - 1) as usize)
    } else {
        None
    }
}

/// The scroll of the detail panel as a signed number: what is beyond the
/// signed range counts from below.
pub open spec fn signed_scroll(scroll: u16) -> int {
    if scroll > i16::MAX {
        scroll - 0x1_0000
    } else {
        scroll as int
    }
}

/// The scroll of the detail panel after it has moved by `delta`, never
/// before the first row.
pub open spec fn scrolled_by(scroll: u16, delta: i16) -> int {
    if signed_scroll(scroll) + delta < 0 {
        0
    } else {
        signed_scroll(scroll) + delta
    }
}

/// The scroll of the detail panel after it has moved by `delta`.
pub fn scroll_details(scroll: u16, delta: i16) -> (r: u16)
    requires
        i16::MIN <= signed_scroll(scroll) + delta <= i16::MAX,
    ensures
        r == scrolled_by(scroll, delta),
{
    let signed: i32 = if scroll > 0x7fff {
        scroll as i32 - 0x1_0000
    } else {
        scroll as i32
    };
    let moved: i32 = signed + delta as i32;
    if moved < 0 {
        0
    } else {
        moved as u16
    }
}

} // verus!
