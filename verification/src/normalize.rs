//! Clamping of the numbers that the viewer sends with a render request.

use vstd::prelude::*;
use vstd::string::*;

verus! {

/// Smallest width, in CSS pixels, that a page is ever rendered at.
pub const MIN_TARGET_WIDTH: u16 = 240;

/// Largest width, in CSS pixels, that a page is ever rendered at.
pub const MAX_TARGET_WIDTH: u16 = 2200;

/// Priority given to a render request that names none.
pub const DEFAULT_RENDER_PRIORITY: u16 = 100;

/// Largest render priority; larger values are clamped to it.
pub const MAX_RENDER_PRIORITY: u16 = 4096;

/// The page that a request for `page_number` in a document of `page_count`
/// pages resolves to: page 1 for an empty document, else the request clamped
/// into `1..=page_count`.
pub open spec fn spec_normalize_page_number(page_number: int, page_count: int) -> int {
    if page_count == 0 {
        1
    } else if page_number < 1 {
        1
    } else if page_number > page_count {
        page_count
    } else {
        page_number
    }
}

pub fn normalize_page_number(page_number: u16, page_count: u16) -> (r: u16)
    ensures
        r == spec_normalize_page_number(page_number as int, page_count as int),
        1 <= r,
        page_count > 0 ==> r <= page_count,
        page_count == 0 ==> r == 1,
        1 <= page_number <= page_count ==> r == page_number,
        page_count > 0 && page_number == 0 ==> r == 1,
        page_count > 0 && page_number > page_count ==> r == page_count,
{
    if page_count == 0 {
        return 1;
    }
    let at_least_one = if page_number < 1 { 1 } else { page_number };
    if at_least_one > page_count {
        page_count
    } else {
        at_least_one
    }
}

/// The target width clamped into `MIN_TARGET_WIDTH..=MAX_TARGET_WIDTH`.
pub open spec fn spec_normalize_target_width(target_width: int) -> int {
    if target_width < MIN_TARGET_WIDTH {
        MIN_TARGET_WIDTH as int
    } else if target_width > MAX_TARGET_WIDTH {
        MAX_TARGET_WIDTH as int
    } else {
        target_width
    }
}

pub fn normalize_target_width(target_width: u16) -> (r: u16)
    ensures
        r == spec_normalize_target_width(target_width as int),
        MIN_TARGET_WIDTH <= r <= MAX_TARGET_WIDTH,
        MIN_TARGET_WIDTH <= target_width <= MAX_TARGET_WIDTH ==> r == target_width,
        target_width < MIN_TARGET_WIDTH ==> r == MIN_TARGET_WIDTH,
        target_width > MAX_TARGET_WIDTH ==> r == MAX_TARGET_WIDTH,
{
    if target_width < MIN_TARGET_WIDTH {
        MIN_TARGET_WIDTH
    } else if target_width > MAX_TARGET_WIDTH {
        MAX_TARGET_WIDTH
    } else {
        target_width
    }
}

/// The priority of a render request: `DEFAULT_RENDER_PRIORITY` when none is
/// given, and never more than `MAX_RENDER_PRIORITY`.
pub open spec fn spec_normalize_render_priority(render_priority: Option<u16>) -> int {
    let p: int = match render_priority {
        Some(p) => p as int,
        None => DEFAULT_RENDER_PRIORITY as int,
    };
    if p > MAX_RENDER_PRIORITY {
        MAX_RENDER_PRIORITY as int
    } else {
        p
    }
}

pub fn normalize_render_priority(render_priority: Option<u16>) -> (r: u16)
    ensures
        r == spec_normalize_render_priority(render_priority),
        r <= MAX_RENDER_PRIORITY,
        render_priority is None ==> r == DEFAULT_RENDER_PRIORITY,
        forall|p: u16| render_priority == Some(p) && p <= MAX_RENDER_PRIORITY ==> r == p,
        forall|p: u16| render_priority == Some(p) && p > MAX_RENDER_PRIORITY ==> r == MAX_RENDER_PRIORITY,
{
    let p = match render_priority {
        Some(p) => p,
        None => DEFAULT_RENDER_PRIORITY,
    };
    if p > MAX_RENDER_PRIORITY {
        MAX_RENDER_PRIORITY
    } else {
        p
    }
}

/// Clamping a page number: a page inside the document is kept, page 0
/// becomes the first page, a page past the end becomes the last one, and an
/// empty document gives page 1.
pub proof fn lemma_page_number_clamp(page_number: int, page_count: int)
    requires
        0 <= page_number,
        0 <= page_count,
    ensures
        1 <= page_number <= page_count ==> spec_normalize_page_number(page_number, page_count) == page_number,
        page_count > 0 && page_number == 0 ==> spec_normalize_page_number(page_number, page_count) == 1,
        page_count > 0 && page_number > page_count ==> spec_normalize_page_number(page_number, page_count) == page_count,
        page_count == 0 ==> spec_normalize_page_number(page_number, page_count) == 1,
        page_count > 0 ==> 1 <= spec_normalize_page_number(page_number, page_count) <= page_count,
{
}

/// Clamping a width: a width inside the rendering range is kept, others go
/// to the nearest end of the range.
pub proof fn lemma_target_width_clamp(target_width: int)
    ensures
        MIN_TARGET_WIDTH <= target_width <= MAX_TARGET_WIDTH ==> spec_normalize_target_width(target_width) == target_width,
        target_width < MIN_TARGET_WIDTH ==> spec_normalize_target_width(target_width) == MIN_TARGET_WIDTH,
        target_width > MAX_TARGET_WIDTH ==> spec_normalize_target_width(target_width) == MAX_TARGET_WIDTH,
{
}

/// A given priority is kept unless it is above the cap, which it is lowered
/// to; only a missing priority gets the default.
pub proof fn lemma_render_priority_kept(p: u16)
    ensures
        p <= MAX_RENDER_PRIORITY ==> spec_normalize_render_priority(Some(p)) == p,
        p > MAX_RENDER_PRIORITY ==> spec_normalize_render_priority(Some(p)) == MAX_RENDER_PRIORITY,
        spec_normalize_render_priority(None) == DEFAULT_RENDER_PRIORITY,
{
}

/// The error of a document without pages.
pub open spec fn no_pages_message() -> Seq<char> {
    "PDF has no pages."@
}

/// A document must have at least one page to be opened or rendered.
pub fn require_pages(page_count: u16) -> (r: Result<u16, String>)
    ensures
        match r {
            Ok(n) => page_count > 0 && n == page_count,
            Err(e) => page_count == 0 && e@ == no_pages_message(),
        },
{
    if page_count == 0 {
        Err(String::from_str("PDF has no pages."))
    } else {
        Ok(page_count)
    }
}

/// The page and width that a render request resolves to.
pub struct RenderTarget {
    pub page_number: u16,
    pub target_width: u16,
}

/// Resolves a render request against a document of `page_count` pages: the
/// page clamped into the document, the width clamped into the rendering
/// range; an error for a document without pages.
pub fn resolve_render_target(page_count: u16, page_number: u16, target_width: u16) -> (r: Result<RenderTarget, String>)
    ensures
        match r {
            Ok(t) => page_count > 0
                && t.page_number == spec_normalize_page_number(page_number as int, page_count as int)
                && t.target_width == spec_normalize_target_width(target_width as int)
                && 1 <= t.page_number <= page_count
                && (1 <= page_number <= page_count ==> t.page_number == page_number)
                && (page_number == 0 ==> t.page_number == 1)
                && (page_number > page_count ==> t.page_number == page_count)
                && (MIN_TARGET_WIDTH <= target_width <= MAX_TARGET_WIDTH ==> t.target_width == target_width),
            Err(e) => page_count == 0 && e@ == no_pages_message(),
        },
{
    let page_count = require_pages(page_count)?;
    let requested_page = if page_number < 1 { 1 } else { page_number };
    Ok(RenderTarget {
        page_number: normalize_page_number(requested_page, page_count),
        target_width: normalize_target_width(target_width),
    })
}

} // verus!
