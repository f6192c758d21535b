use vstd::prelude::*;

use crate::modules::str_eq;

verus! {

/// Fields asked of the search API for ranking and search lists: title,
/// writer, code, episode count, novel type. The API wants them joined by `-`.
pub const OF_RANKING: &'static str = "t-w-n-ga-nt";

/// Fields asked for a favourite's refresh: code, title, episode count,
/// synopsis, last update.
pub const OF_DATUM: &'static str = "n-t-ga-s-nu";

/// Fields asked for a detail document: title, synopsis, episode count.
pub const OF_DETAIL: &'static str = "t-s-ga";

/// The API's sort order for a ranking period; an unknown period ranks daily.
pub open spec fn ranking_order_of(period: Seq<char>) -> Seq<char> {
    if period == "weekly"@ {
        "weeklypoint"@
    } else if period == "monthly"@ {
        "monthlypoint"@
    } else if period == "quarter"@ {
        "quarterpoint"@
    } else if period == "yearly"@ {
        "yearlypoint"@
    } else {
        "dailypoint"@
    }
}

/// The API's sort order for a ranking period.
pub fn ranking_order(period: &str) -> (r: &'static str)
    ensures
        r@ == ranking_order_of(period@),
{
    if str_eq(period, "weekly") {
        "weeklypoint"
    } else if str_eq(period, "monthly") {
        "monthlypoint"
    } else if str_eq(period, "quarter") {
        "quarterpoint"
    } else if str_eq(period, "yearly") {
        "yearlypoint"
    } else {
        "dailypoint"
    }
}

} // verus!
