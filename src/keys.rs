use vstd::prelude::*;

verus! {

/// Time-to-live of a cached detail document, in seconds.
pub const DETAIL_TTL_SECS: u64 = 86_400;

/// Time-to-live of a cached page body, in seconds.
pub const PAGE_TTL_SECS: u64 = 86_400;

/// Time-to-live of a cached ranking list, in seconds.
pub const RANKING_TTL_SECS: u64 = 10_800;

/// Time-to-live of cached search results, in seconds.
pub const SEARCH_TTL_SECS: u64 = 3_600;

/// `novel:{source}:{id}:detail`
pub fn detail_key(source: &str, id: &str) -> (r: String)
    ensures
        r@ == "novel:"@ + source@ + ":"@ + id@ + ":detail"@,
{
    let mut s = String::from_str("novel:");
    s.append(source);
    s.append(":");
    s.append(id);
    s.append(":detail");
    s
}

/// `novel:{source}:{id}:page:{page}`
pub fn page_key(source: &str, id: &str, page: &str) -> (r: String)
    ensures
        r@ == "novel:"@ + source@ + ":"@ + id@ + ":page:"@ + page@,
{
    let mut s = String::from_str("novel:");
    s.append(source);
    s.append(":");
    s.append(id);
    s.append(":page:");
    s.append(page);
    s
}

/// `novel:{source}:ranking:{period}`
pub fn ranking_key(source: &str, period: &str) -> (r: String)
    ensures
        r@ == "novel:"@ + source@ + ":ranking:"@ + period@,
{
    let mut s = String::from_str("novel:");
    s.append(source);
    s.append(":ranking:");
    s.append(period);
    s
}

/// `novel:{source}:search:{query}`
pub fn search_key(source: &str, query: &str) -> (r: String)
    ensures
        r@ == "novel:"@ + source@ + ":search:"@ + query@,
{
    let mut s = String::from_str("novel:");
    s.append(source);
    s.append(":search:");
    s.append(query);
    s
}

} // verus!
