use vstd::prelude::*;

use crate::error::AppError;
use crate::modules::str_eq;

verus! {

/// The period a ranking request asks for when it names none.
pub const DEFAULT_PERIOD: &'static str = "daily";

/// The ranking periods a request may ask for.
pub open spec fn is_period(p: Seq<char>) -> bool {
    p == "daily"@ || p == "weekly"@ || p == "monthly"@ || p == "quarter"@ || p == "yearly"@
}

/// Sources that have no quarterly ranking.
pub open spec fn lacks_quarter(source: Seq<char>) -> bool {
    source == "kakuyomu"@
}

/// Accepts a known period, except a quarterly ranking of a source that has
/// none; anything else is a bad request.
pub fn validate_period(type_str: &str, period: &str) -> (r: Result<(), AppError>)
    ensures
        r is Ok <==> is_period(period@) && !(period@ == "quarter"@ && lacks_quarter(type_str@)),
        r is Err ==> r->Err_0 is BadRequest,
        r is Err && !is_period(period@) ==> r->Err_0.spec_message() == "Invalid period"@,
        r is Err && is_period(period@) ==> r->Err_0.spec_message() == type_str@
            + " does not support quarter ranking"@,
{
    let known = str_eq(period, "daily") || str_eq(period, "weekly") || str_eq(period, "monthly")
        || str_eq(period, "quarter") || str_eq(period, "yearly");
    if !known {
        return Err(AppError::BadRequest(String::from_str("Invalid period")));
    }
    if str_eq(period, "quarter") && str_eq(type_str, "kakuyomu") {
        let mut m = String::from_str(type_str);
        m.append(" does not support quarter ranking");
        return Err(AppError::BadRequest(m));
    }
    Ok(())
}

} // verus!
