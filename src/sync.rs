use vstd::prelude::*;

use crate::error::AppError;
use crate::modules::ModuleType;

verus! {

/// Time between two batch passes, in milliseconds.
pub const BATCH_INTERVAL_MS: u64 = 600_000;

/// Time in which the round-robin strategy visits every favourite once, in milliseconds.
pub const ROUND_ROBIN_BUDGET_MS: u64 = 3_600_000;

/// Pause after a failed fetch or an empty favourites list, in milliseconds.
pub const IDLE_SLEEP_MS: u64 = 60_000;

/// One freshly fetched record for a favourite; a field is `None` where the
/// source gave nothing usable for it.
pub struct Datum {
    pub id: String,
    pub title: Option<String>,
    /// The number of pages the source lists.
    pub page_count: Option<u64>,
    pub last_updated_at: Option<String>,
}

impl Datum {
    /// Whether the record carries any field that a merge would write.
    pub open spec fn spec_has_update(self) -> bool {
        self.title is Some || self.page_count is Some || self.last_updated_at is Some
    }

    /// Whether the record carries any field that a merge would write.
    pub fn has_update(&self) -> (r: bool)
        ensures
            r == self.spec_has_update(),
    {
        self.title.is_some() || self.page_count.is_some() || self.last_updated_at.is_some()
    }
}

/// A stored favourite; `(source, id)` identifies it.
pub struct FavoriteRecord {
    pub source: ModuleType,
    pub id: String,
    pub title: String,
    pub last_updated_at: Option<String>,
    pub page_count: u64,
    pub read_progress: i64,
}

/// The record after merging `d`: each field the datum carries replaces the
/// stored one, and each field it lacks leaves the stored one as it was.
pub open spec fn merged(r: FavoriteRecord, d: Datum) -> FavoriteRecord {
    FavoriteRecord {
        source: r.source,
        id: r.id,
        title: match d.title {
            Some(t) => t,
            None => r.title,
        },
        last_updated_at: match d.last_updated_at {
            Some(t) => Some(t),
            None => r.last_updated_at,
        },
        page_count: match d.page_count {
            Some(p) => p,
            None => r.page_count,
        },
        read_progress: r.read_progress,
    }
}

/// Whether datum `d`, fetched from `source`, is about record `r`.
pub open spec fn is_about(r: FavoriteRecord, source: ModuleType, d: Datum) -> bool {
    r.source == source && r.id@ == d.id@
}

/// The record after merging, in order, every datum of `ds` that is about it.
pub open spec fn merged_all(r: FavoriteRecord, source: ModuleType, ds: Seq<Datum>) -> FavoriteRecord
    decreases ds.len(),
{
    if ds.len() == 0 {
        r
    } else {
        let prev = merged_all(r, source, ds.drop_last());
        if is_about(r, source, ds.last()) {
            merged(prev, ds.last())
        } else {
            prev
        }
    }
}

fn copy_text(s: &Option<String>) -> (r: Option<String>)
    ensures
        r == *s,
{
    match s {
        Some(t) => Some(t.clone()),
        None => None,
    }
}

impl FavoriteRecord {
    /// Merges a fetched datum into the record; absent fields never erase
    /// stored ones.
    pub fn merge(&mut self, d: &Datum)
        ensures
            *final(self) == merged(*old(self), *d),
    {
        if let Some(t) = &d.title {
            self.title = t.clone();
        }
        if let Some(p) = d.page_count {
            self.page_count = p;
        }
        if d.last_updated_at.is_some() {
            self.last_updated_at = copy_text(&d.last_updated_at);
        }
    }

    /// A copy of the record.
    pub fn copy(&self) -> (r: FavoriteRecord)
        ensures
            r == *self,
    {
        FavoriteRecord {
            source: self.source,
            id: self.id.clone(),
            title: self.title.clone(),
            last_updated_at: copy_text(&self.last_updated_at),
            page_count: self.page_count,
            read_progress: self.read_progress,
        }
    }
}

/// Merges every datum into the records it is about, in the order the data
/// came. Records no datum is about are returned as they were.
pub fn apply_batch(records: &Vec<FavoriteRecord>, source: ModuleType, data: &Vec<Datum>) -> (r: Vec<
    FavoriteRecord,
>)
    ensures
        r@.len() == records@.len(),
        forall|i: int| 0 <= i < r@.len() ==> #[trigger] r@[i] == merged_all(records@[i], source, data@),
{
    let mut out: Vec<FavoriteRecord> = Vec::new();
    let mut i: usize = 0;
    while i < records.len()
        invariant
            i <= records@.len(),
            out@.len() == i,
            forall|k: int| 0 <= k < i ==> #[trigger] out@[k] == merged_all(records@[k], source, data@),
        decreases records@.len() - i,
    {
        let mut rec = records[i].copy();
        let mut j: usize = 0;
        while j < data.len()
            invariant
                i < records@.len(),
                j <= data@.len(),
                rec == merged_all(records@[i as int], source, data@.take(j as int)),
                rec.source == records@[i as int].source,
                rec.id == records@[i as int].id,
            decreases data@.len() - j,
        {
            let d = &data[j];
            proof {
                assert(data@.take(j + 1).drop_last() =~= data@.take(j as int));
                assert(data@.take(j + 1).last() == data@[j as int]);
            }
            if rec.source == source && rec.id == d.id {
                rec.merge(d);
            }
            j = j + 1;
        }
        proof {
            assert(data@.take(data@.len() as int) =~= data@);
        }
        out.push(rec);
        i = i + 1;
    }
    out
}

/// One batch pass over the favourites of `source`, given what the bulk fetch
/// returned: on success every datum is merged; on failure nothing changes.
pub fn batch_pass(
    records: &Vec<FavoriteRecord>,
    source: ModuleType,
    fetched: &Result<Vec<Datum>, AppError>,
) -> (r: Vec<FavoriteRecord>)
    ensures
        r@.len() == records@.len(),
        fetched is Err ==> forall|i: int| 0 <= i < r@.len() ==> #[trigger] r@[i] == records@[i],
        fetched matches Ok(data) ==> forall|i: int|
            0 <= i < r@.len() ==> #[trigger] r@[i] == merged_all(records@[i], source, data@),
{
    match fetched {
        Ok(data) => apply_batch(records, source, data),
        Err(_) => {
            let mut out: Vec<FavoriteRecord> = Vec::new();
            let mut i: usize = 0;
            while i < records.len()
                invariant
                    i <= records@.len(),
                    out@.len() == i,
                    forall|k: int| 0 <= k < i ==> #[trigger] out@[k] == records@[k],
                decreases records@.len() - i,
            {
                out.push(records[i].copy());
                i = i + 1;
            }
            out
        },
    }
}

/// Whether a batch pass fetches at all: it is skipped while the source has
/// no favourites.
pub fn batch_should_fetch(favorite_count: usize) -> (r: bool)
    ensures
        r == (favorite_count > 0),
{
    favorite_count > 0
}

/// Merging never erases: a field the datum lacks keeps its stored value, a
/// field it carries replaces the stored one, and the identity and reading
/// progress of the record never change.
pub proof fn law_merge_keeps_absent_fields(r: FavoriteRecord, d: Datum)
    ensures
        d.title is None ==> merged(r, d).title == r.title,
        d.title matches Some(t) ==> merged(r, d).title == t,
        d.last_updated_at is None ==> merged(r, d).last_updated_at == r.last_updated_at,
        d.last_updated_at is Some ==> merged(r, d).last_updated_at == d.last_updated_at,
        d.page_count is None ==> merged(r, d).page_count == r.page_count,
        d.page_count matches Some(p) ==> merged(r, d).page_count == p,
        merged(r, d).source == r.source,
        merged(r, d).id == r.id,
        merged(r, d).read_progress == r.read_progress,
        !d.spec_has_update() ==> merged(r, d) == r,
{
}

/// A batch pass merges a datum into the record it is about and leaves a
/// record that no datum is about untouched; merged twice in a row, the later
/// datum wins each field it carries.
pub proof fn law_batch_merge(r: FavoriteRecord, source: ModuleType, d: Datum, e: Datum)
    ensures
        is_about(r, source, d) ==> merged_all(r, source, seq![d]) == merged(r, d),
        !is_about(r, source, d) ==> merged_all(r, source, seq![d]) == r,
        is_about(r, source, d) && is_about(r, source, e) ==> merged_all(r, source, seq![d, e])
            == merged(merged(r, d), e),
{
    assert(seq![d].drop_last() =~= Seq::<Datum>::empty());
    assert(merged_all(r, source, Seq::<Datum>::empty()) == r);
    assert(seq![d].last() == d);
    assert(seq![d, e].drop_last() =~= seq![d]);
    assert(seq![d, e].last() == e);
}

/// What the round-robin strategy does next.
#[derive(Debug, Clone, Copy, PartialEq, Eq, Structural)]
pub enum RoundStep {
    /// Sleep this long, then read the favourites list again.
    Idle { sleep_ms: u64 },
    /// Fetch the favourite at this position of the list just read.
    Fetch { index: usize },
}

/// The cursor of the round-robin strategy, and the length of the favourites
/// list its last plan was made for.
#[derive(Debug, Clone, Copy, PartialEq, Eq, Structural)]
pub struct RoundRobin {
    cursor: usize,
    planned_for: usize,
}

/// The plan for a list of `count` favourites: nothing to fetch when it is
/// empty, else the favourite under the cursor, taken modulo the length.
pub open spec fn round_plan(cursor: nat, count: nat) -> RoundStep {
    if count == 0 {
        RoundStep::Idle { sleep_ms: IDLE_SLEEP_MS }
    } else {
        RoundStep::Fetch { index: (cursor % count) as usize }
    }
}

/// The pause after a fetch from a list of `count` favourites: the hour budget
/// shared evenly on success, the flat retry pause on failure.
pub open spec fn round_sleep(count: nat, succeeded: bool) -> u64 {
    if succeeded && count > 0 {
        (ROUND_ROBIN_BUDGET_MS as nat / count) as u64
    } else {
        IDLE_SLEEP_MS
    }
}

impl RoundRobin {
    pub closed spec fn spec_cursor(self) -> nat {
        self.cursor as nat
    }

    pub closed spec fn spec_planned_for(self) -> nat {
        self.planned_for as nat
    }

    /// A cursor at the start of the list.
    pub fn new() -> (r: RoundRobin)
        ensures
            r.spec_cursor() == 0,
            r.spec_planned_for() == 0,
    {
        RoundRobin { cursor: 0, planned_for: 0 }
    }

    /// The position of the cursor.
    pub fn cursor(&self) -> (r: usize)
        ensures
            r == self.spec_cursor(),
    {
        self.cursor
    }

    /// Plans an iteration over a freshly read list of `count` favourites. The
    /// cursor is brought into range of the list, however it has shrunk.
    pub fn plan(&mut self, count: usize) -> (r: RoundStep)
        ensures
            r == round_plan(old(self).spec_cursor(), count as nat),
            final(self).spec_planned_for() == count,
            count == 0 ==> final(self).spec_cursor() == old(self).spec_cursor(),
            count > 0 ==> final(self).spec_cursor() == old(self).spec_cursor() % (count as nat),
    {
        self.planned_for = count;
        if count == 0 {
            RoundStep::Idle { sleep_ms: IDLE_SLEEP_MS }
        } else {
            self.cursor = self.cursor % count;
            RoundStep::Fetch { index: self.cursor }
        }
    }

    /// Records how the planned fetch went and returns the pause before the
    /// next iteration. Success moves the cursor past the favourite; failure
    /// keeps it there, so the same favourite is tried again.
    pub fn finish(&mut self, succeeded: bool) -> (sleep_ms: u64)
        ensures
            sleep_ms == round_sleep(old(self).spec_planned_for(), succeeded),
            final(self).spec_planned_for() == old(self).spec_planned_for(),
            final(self).spec_cursor() == if succeeded && old(self).spec_cursor() < old(
                self,
            ).spec_planned_for() {
                old(self).spec_cursor() + 1
            } else {
                old(self).spec_cursor()
            },
    {
        if succeeded && self.planned_for > 0 {
            if self.cursor < self.planned_for {
                self.cursor = self.cursor + 1;
            }
            ROUND_ROBIN_BUDGET_MS / (self.planned_for as u64)
        } else {
            IDLE_SLEEP_MS
        }
    }
}

/// The round-robin strategy never fetches out of range: for any cursor and
/// any non-empty list, the planned position lies in the list, and a success
/// is followed by the hour budget divided by the list length.
pub proof fn law_round_robin_in_range(cursor: nat, count: nat)
    requires
        count > 0,
        count <= usize::MAX,
    ensures
        round_plan(cursor, count) matches RoundStep::Fetch { index } && index < count,
        round_sleep(count, true) == ROUND_ROBIN_BUDGET_MS as nat / count,
        round_sleep(count, false) == IDLE_SLEEP_MS,
{
}

/// The outcome of `n` iterations on an empty favourites list: the cursor and
/// the steps taken.
pub open spec fn idle_run(cursor: nat, n: nat) -> Seq<RoundStep>
    decreases n,
{
    if n == 0 {
        Seq::empty()
    } else {
        idle_run(cursor, (n - 1) as nat).push(round_plan(cursor, 0))
    }
}

/// While the favourites list stays empty, every iteration sleeps the idle
/// pause and none fetches, however many iterations run; the cursor stays put.
pub proof fn law_empty_list_never_fetches(cursor: nat, n: nat)
    ensures
        idle_run(cursor, n).len() == n,
        forall|i: int|
            0 <= i < n ==> #[trigger] idle_run(cursor, n)[i] == (RoundStep::Idle {
                sleep_ms: IDLE_SLEEP_MS,
            }),
    decreases n,
{
    if n > 0 {
        law_empty_list_never_fetches(cursor, (n - 1) as nat);
    }
}

} // verus!
