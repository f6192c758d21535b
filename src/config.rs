use vstd::prelude::*;

use crate::error::AppError;

verus! {

/// The port served on when none, or no valid one, is configured.
pub const DEFAULT_PORT: u16 = 3000;

/// Where the favourites store lives when no path is configured.
pub const DEFAULT_DB_PATH: &'static str = "/data/novel.db";

/// What a non-empty base path must look like: a leading `/`, then word
/// characters, `-` and `/`.
pub const BASE_PATH_PATTERN: &'static str = "^/[\\w\\-/]*$";

/// Server settings.
pub struct Config {
    pub port: u16,
    /// Empty, or a path prefix without a trailing `/`.
    pub base_path: String,
    pub db_path: String,
}

/// Whether `haystack` matches the regular expression `pattern`.
pub uninterp spec fn regex_match(pattern: Seq<char>, haystack: Seq<char>) -> bool;

/// Relies on `regex_lite::Regex::new` to compile `pattern` (`None` if it is
/// not a valid expression; [`BASE_PATH_PATTERN`] is one) and on
/// `Regex::is_match` to test `haystack`.
#[verifier::external_body]
fn regex_is_match(pattern: &str, haystack: &str) -> (r: Option<bool>)
    ensures
        r matches Some(b) ==> b == regex_match(pattern@, haystack@),
        pattern@ == BASE_PATH_PATTERN@ ==> r is Some,
{
    match regex_lite::Regex::new(pattern) {
        Ok(re) => Some(re.is_match(haystack)),
        Err(_) => None,
    }
}

pub open spec fn is_digit(c: char) -> bool {
    '0' <= c && c <= '9'
}

/// The number a string of decimal digits denotes.
pub open spec fn digits_value(s: Seq<char>) -> int
    decreases s.len(),
{
    if s.len() == 0 {
        0
    } else {
        digits_value(s.drop_last()) * 10 + (s.last() as int - '0' as int)
    }
}

/// Whether every character of `d` is a decimal digit.
pub open spec fn all_digits(d: Seq<char>) -> bool {
    forall|i: int| 0 <= i < d.len() ==> is_digit(#[trigger] d[i])
}

/// `s` without one leading `+`.
pub open spec fn unsigned_part(s: Seq<char>) -> Seq<char> {
    if s.len() > 0 && s[0] == '+' {
        s.drop_first()
    } else {
        s
    }
}

/// The number `s` writes in decimal, with an optional leading `+`, if it is
/// at most `max`.
pub open spec fn decimal_at_most(s: Seq<char>, max: int) -> Option<int> {
    let d = unsigned_part(s);
    if d.len() > 0 && all_digits(d) && digits_value(d) <= max {
        Some(digits_value(d))
    } else {
        None
    }
}

/// A port number written in decimal, with an optional leading `+`.
pub open spec fn port_of(s: Seq<char>) -> Option<u16> {
    match decimal_at_most(s, u16::MAX as int) {
        Some(v) => Some(v as u16),
        None => None,
    }
}

/// `s` without its trailing `/` characters.
pub open spec fn without_trailing_slashes(s: Seq<char>) -> Seq<char>
    decreases s.len(),
{
    if s.len() > 0 && s.last() == '/' {
        without_trailing_slashes(s.drop_last())
    } else {
        s
    }
}

proof fn lemma_value_nonneg(s: Seq<char>)
    requires
        forall|i: int| 0 <= i < s.len() ==> is_digit(#[trigger] s[i]),
    ensures
        digits_value(s) >= 0,
    decreases s.len(),
{
    if s.len() > 0 {
        let p = s.drop_last();
        assert forall|i: int| 0 <= i < p.len() implies is_digit(#[trigger] p[i]) by {
            assert(p[i] == s[i]);
        }
        lemma_value_nonneg(p);
        assert(is_digit(s[s.len() - 1]));
    }
}

proof fn lemma_prefix_value_le(s: Seq<char>, k: int)
    requires
        0 <= k <= s.len(),
        forall|i: int| 0 <= i < s.len() ==> is_digit(#[trigger] s[i]),
    ensures
        digits_value(s.take(k)) <= digits_value(s),
    decreases s.len(),
{
    if k < s.len() {
        let p = s.drop_last();
        assert forall|i: int| 0 <= i < p.len() implies is_digit(#[trigger] p[i]) by {
            assert(p[i] == s[i]);
        }
        lemma_prefix_value_le(p, k);
        lemma_value_nonneg(p);
        assert(is_digit(s[s.len() - 1]));
        assert(p.take(k) =~= s.take(k));
    } else {
        assert(s.take(k) =~= s);
    }
}

/// Reads a number written in decimal, with an optional leading `+`, if it
/// is at most `max`.
pub fn parse_decimal(s: &str, max: u32) -> (r: Option<u32>)
    ensures
        r matches Some(v) ==> decimal_at_most(s@, max as int) == Some(v as int),
        r is None ==> decimal_at_most(s@, max as int) is None,
{
    let n = s.unicode_len();
    let ghost d = unsigned_part(s@);
    let start: usize = if n > 0 && s.get_char(0) == '+' {
        1
    } else {
        0
    };
    if start >= n {
        return None;
    }
    let mut value: u64 = 0;
    let mut i: usize = start;
    while i < n
        invariant
            n == s@.len(),
            start <= i <= n,
            d == s@.subrange(start as int, n as int),
            d == unsigned_part(s@),
            forall|j: int| 0 <= j < i - start ==> is_digit(#[trigger] d[j]),
            value == digits_value(d.take(i - start)),
            value <= max,
        decreases n - i,
    {
        let c = s.get_char(i);
        if c < '0' || c > '9' {
            proof {
                assert(d[i - start] == s@[i as int]);
                assert(!is_digit(d[i - start]));
                assert(!all_digits(d));
            }
            return None;
        }
        proof {
            assert(d.take(i - start + 1).drop_last() =~= d.take(i - start));
            assert(d.take(i - start + 1).last() == c);
        }
        proof {
            assert(d[i - start] == s@[i as int]);
        }
        value = value * 10 + (c as u64 - '0' as u64);
        i = i + 1;
        proof {
            assert(value == digits_value(d.take(i - start)));
        }
        if value > max as u64 {
            proof {
                if all_digits(d) {
                    lemma_prefix_value_le(d, i - start);
                }
            }
            return None;
        }
    }
    proof {
        assert(d.take(n - start) =~= d);
    }
    Some(value as u32)
}

/// Reads a port number written in decimal, with an optional leading `+`.
pub fn parse_port(s: &str) -> (r: Option<u16>)
    ensures
        r == port_of(s@),
{
    match parse_decimal(s, 65535) {
        Some(v) => Some(v as u16),
        None => None,
    }
}

/// `s` without its trailing `/` characters.
pub fn trim_trailing_slashes(s: &str) -> (r: String)
    ensures
        r@ == without_trailing_slashes(s@),
{
    let mut n = s.unicode_len();
    proof {
        assert(s@.take(n as int) =~= s@);
    }
    while n > 0 && s.get_char(n - 1) == '/'
        invariant
            n <= s@.len(),
            without_trailing_slashes(s@.take(n as int)) == without_trailing_slashes(s@),
        decreases n,
    {
        proof {
            assert(s@.take(n as int).drop_last() =~= s@.take(n - 1));
        }
        n = n - 1;
    }
    proof {
        if n > 0 {
            assert(s@.take(n as int).last() == s@[n - 1]);
        }
    }
    String::from_str(s.substring_char(0, n))
}

impl Config {
    /// Settings from the raw values of the environment: a missing or invalid
    /// port falls back to [`DEFAULT_PORT`], a missing store path to
    /// [`DEFAULT_DB_PATH`]. The base path loses its trailing `/`; if anything
    /// is left, it must match [`BASE_PATH_PATTERN`], else it is a bad request.
    pub fn from_values(port: Option<&str>, base_path: Option<&str>, db_path: Option<&str>) -> (r:
        Result<Config, AppError>)
        ensures
            ({
                let base = match base_path {
                    Some(b) => without_trailing_slashes(b@),
                    None => Seq::empty(),
                };
                &&& r is Ok <==> base.len() == 0 || regex_match(BASE_PATH_PATTERN@, base)
                &&& r is Err ==> r->Err_0 is BadRequest && r->Err_0.spec_message()
                    == "Invalid BASE_PATH: "@ + base
                &&& r matches Ok(c) ==> {
                    &&& c.base_path@ == base
                    &&& c.port == match port {
                        Some(p) => match port_of(p@) {
                            Some(v) => v,
                            None => DEFAULT_PORT,
                        },
                        None => DEFAULT_PORT,
                    }
                    &&& c.db_path@ == match db_path {
                        Some(p) => p@,
                        None => DEFAULT_DB_PATH@,
                    }
                }
            }),
    {
        let port = match port {
            Some(p) => match parse_port(p) {
                Some(v) => v,
                None => DEFAULT_PORT,
            },
            None => DEFAULT_PORT,
        };
        let base = match base_path {
            Some(b) => trim_trailing_slashes(b),
            None => String::new(),
        };
        if base.unicode_len() > 0 {
            match regex_is_match(BASE_PATH_PATTERN, base.as_str()) {
                Some(true) => {},
                Some(false) => {
                    let mut m = String::from_str("Invalid BASE_PATH: ");
                    m.append(base.as_str());
                    return Err(AppError::BadRequest(m));
                },
                None => {
                    return Err(AppError::Internal(String::from_str("Bad base path pattern")));
                },
            }
        }
        let db_path = match db_path {
            Some(p) => String::from_str(p),
            None => String::from_str(DEFAULT_DB_PATH),
        };
        Ok(Config { port, base_path: base, db_path })
    }
}

} // verus!
