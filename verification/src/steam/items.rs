//! The user's published workshop items, one page at a time.
use vstd::prelude::*;

verus! {

/// Visibility code of a public item.
pub const VIS_PUBLIC: u8 = 0;

/// Visibility code of an item shown to friends only.
pub const VIS_FRIENDS: u8 = 1;

/// Visibility code of a private item.
pub const VIS_PRIVATE: u8 = 2;

/// Visibility code of an unlisted item.
pub const VIS_UNLISTED: u8 = 3;

/// The visibilities Steam gives a published item.
pub enum Visibility {
    Public,
    FriendsOnly,
    Private,
    Unlisted,
}

/// The code under which the tool stores a visibility.
pub open spec fn visibility_code_spec(v: Visibility) -> u8 {
    match v {
        Visibility::Public => VIS_PUBLIC,
        Visibility::FriendsOnly => VIS_FRIENDS,
        Visibility::Private => VIS_PRIVATE,
        Visibility::Unlisted => VIS_UNLISTED,
    }
}

/// The code under which the tool stores a visibility.
pub fn visibility_code(v: Visibility) -> (r: u8)
    ensures
        r == visibility_code_spec(v),
{
    match v {
        Visibility::Public => VIS_PUBLIC,
        Visibility::FriendsOnly => VIS_FRIENDS,
        Visibility::Private => VIS_PRIVATE,
        Visibility::Unlisted => VIS_UNLISTED,
    }
}

/// One published workshop item.
pub struct WorkshopItem {
    pub id: u64,
    pub title: String,
    pub description: String,
    pub tags: Vec<String>,
    pub file_size: u32,
    pub preview_url: Option<String>,
    pub num_upvotes: u32,
    pub num_downvotes: u32,
    pub subscriptions: Option<u64>,
    pub visibility: u8,
}

/// One page of published items, with the totals over all pages.
pub struct WorkshopQueryResult {
    pub items: Vec<WorkshopItem>,
    pub page: u32,
    pub total_results: u32,
    pub total_pages: u32,
}

/// The number of pages for `total` results when a page returned `returned` of them: the
/// page size is at least one, and there is always at least one page.
pub open spec fn page_count_spec(total: u32, returned: u32) -> int {
    let per = if returned == 0 {
        1
    } else {
        returned as int
    };
    let pages = (total as int + per - 1) / per;
    if pages < 1 {
        1
    } else {
        pages
    }
}

/// Rounding up a division adds one to the quotient exactly when there is a remainder.
proof fn lemma_ceil_div(t: int, p: int)
    requires
        t >= 0,
        p >= 1,
    ensures
        (t + p - 1) / p == t / p + (if t % p != 0 {
            1int
        } else {
            0int
        }),
        t % p != 0 ==> p >= 2 && t / p < t,
{
    assert((t + p - 1) / p == t / p + (if t % p != 0 {
        1int
    } else {
        0int
    })) by (nonlinear_arith)
        requires
            t >= 0,
            p >= 1,
    ;
    assert(t % p != 0 ==> p >= 2 && t / p < t) by (nonlinear_arith)
        requires
            t >= 0,
            p >= 1,
    ;
}

/// The number of pages for `total` results when a page returned `returned` of them.
pub fn page_count(total: u32, returned: u32) -> (r: u32)
    ensures
        r == page_count_spec(total, returned),
{
    let per = if returned == 0 {
        1
    } else {
        returned
    };
    let q = total / per;
    let m = total % per;
    proof {
        lemma_ceil_div(total as int, per as int);
    }
    let pages = if m != 0 {
        q + 1
    } else {
        q
    };
    if pages < 1 {
        1
    } else {
        pages
    }
}

/// The result of a page query: the page's items, the page number, and the totals.
pub fn query_result(items: Vec<WorkshopItem>, page: u32, total_results: u32, returned: u32) -> (r:
    WorkshopQueryResult)
    ensures
        r.items == items,
        r.page == page,
        r.total_results == total_results,
        r.total_pages == page_count_spec(total_results, returned),
{
    let total_pages = page_count(total_results, returned);
    WorkshopQueryResult { items, page, total_results, total_pages }
}

} // verus!
