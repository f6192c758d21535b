use vstd::prelude::*;

use crate::error::AppError;

verus! {

/// Whether two strings hold the same characters.
pub fn str_eq(a: &str, b: &str) -> (r: bool)
    ensures
        r == (a@ == b@),
{
    let n = a.unicode_len();
    if n != b.unicode_len() {
        return false;
    }
    let mut i: usize = 0;
    while i < n
        invariant
            n == a@.len(),
            n == b@.len(),
            i <= n,
            forall|j: int| 0 <= j < i ==> a@[j] == b@[j],
        decreases n - i,
    {
        if a.get_char(i) != b.get_char(i) {
            return false;
        }
        i = i + 1;
    }
    assert(a@ =~= b@);
    true
}

/// The upstream sources the reader knows.
#[derive(Debug, Clone, Copy, PartialEq, Eq, Structural)]
pub enum ModuleType {
    Narou,
    Nocturne,
    Kakuyomu,
}

impl ModuleType {
    /// The name a source goes by in routes, cache keys and the favourites store.
    pub open spec fn name(self) -> Seq<char> {
        match self {
            ModuleType::Narou => "narou"@,
            ModuleType::Nocturne => "nocturne"@,
            ModuleType::Kakuyomu => "kakuyomu"@,
        }
    }

    /// Whether some source goes by the name `s`.
    pub open spec fn is_name(s: Seq<char>) -> bool {
        s == "narou"@ || s == "nocturne"@ || s == "kakuyomu"@
    }

    /// Sources with a bulk lookup are refreshed in batches; the others one
    /// favourite at a time.
    pub open spec fn spec_has_bulk_lookup(self) -> bool {
        !(self is Kakuyomu)
    }

    /// Looks a source up by its name; an unknown name is a bad request.
    pub fn resolve(s: &str) -> (r: Result<ModuleType, AppError>)
        ensures
            r is Ok <==> ModuleType::is_name(s@),
            r matches Ok(m) ==> m.name() == s@,
            r is Err ==> r->Err_0 is BadRequest && r->Err_0.spec_message() == "Invalid type"@,
    {
        if str_eq(s, "narou") {
            Ok(ModuleType::Narou)
        } else if str_eq(s, "nocturne") {
            Ok(ModuleType::Nocturne)
        } else if str_eq(s, "kakuyomu") {
            Ok(ModuleType::Kakuyomu)
        } else {
            Err(AppError::BadRequest(String::from_str("Invalid type")))
        }
    }

    /// The name of the source.
    pub fn as_str(&self) -> (r: &'static str)
        ensures
            r@ == self.name(),
    {
        match self {
            ModuleType::Narou => "narou",
            ModuleType::Nocturne => "nocturne",
            ModuleType::Kakuyomu => "kakuyomu",
        }
    }

    /// Whether the source answers one request for many items.
    pub fn has_bulk_lookup(&self) -> (r: bool)
        ensures
            r == self.spec_has_bulk_lookup(),
    {
        match self {
            ModuleType::Kakuyomu => false,
            _ => true,
        }
    }
}

/// Every source's name is one that resolves, and distinct sources have
/// distinct names, so resolving the name of a source gives back that source.
pub proof fn law_name_round_trip(a: ModuleType, b: ModuleType)
    ensures
        ModuleType::is_name(a.name()),
        a.name() == b.name() <==> a == b,
{
    reveal_strlit("narou");
    reveal_strlit("nocturne");
    reveal_strlit("kakuyomu");
    if a != b {
        assert(a.name()[0] != b.name()[0] || a.name().len() != b.name().len()
            || a.name()[1] != b.name()[1]);
    }
}

} // verus!
