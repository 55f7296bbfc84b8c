//! Paging through the stored versions of a bot: which page a request asks
//! for, how many versions a page holds, and the key of the next page.

use vstd::prelude::*;
use crate::number::{parse_i64, parse_i64_spec, i64_to_string, decimal_i64, lemma_i64_decimal_roundtrip};

verus! {

/// Most versions one page holds.
pub const MAX_PAGE_SIZE: i64 = 25;

/// The page a request asks for: its pagination key read as an `i64`, and the
/// first page (1) when the key is absent or not a number.
pub open spec fn page_for(key: Option<Seq<char>>) -> i64 {
    match key {
        Some(k) => match parse_i64_spec(k) {
            Some(p) => p,
            None => 1,
        },
        None => 1,
    }
}

/// The page that the pagination key `key` asks for.
pub fn pagination_page(key: Option<&str>) -> (r: i64)
    ensures
        r == page_for(crate::tools::opt_view(key)),
{
    match key {
        Some(k) => match parse_i64(k) {
            Some(p) => p,
            None => 1,
        },
        None => 1,
    }
}

/// Versions per page: the requested limit, at most `MAX_PAGE_SIZE`, which is
/// also the default.
pub fn page_size(limit: Option<i64>) -> (r: i64)
    ensures
        r == match limit {
            Some(l) => if l < MAX_PAGE_SIZE {
                l
            } else {
                MAX_PAGE_SIZE
            },
            None => MAX_PAGE_SIZE,
        },
{
    match limit {
        Some(l) => if l < MAX_PAGE_SIZE {
            l
        } else {
            MAX_PAGE_SIZE
        },
        None => MAX_PAGE_SIZE,
    }
}

/// The pagination key of the page after `page`, present only when `page`
/// is not the last of `total_pages`.
pub fn next_pagination_key(page: i64, total_pages: i64) -> (r: Option<String>)
    ensures
        page < total_pages ==> (r matches Some(k) && k@ == decimal_i64((page + 1) as i64)),
        page >= total_pages ==> r is None,
{
    if page < total_pages {
        Some(i64_to_string(page + 1))
    } else {
        None
    }
}

/// The key handed out for the next page asks, when sent back, for exactly
/// that next page.
pub proof fn lemma_next_key_reads_back(page: i64, total_pages: i64)
    requires
        page < total_pages,
    ensures
        page_for(Some(decimal_i64((page + 1) as i64))) == page + 1,
{
    lemma_i64_decimal_roundtrip((page + 1) as i64);
}

} // verus!
