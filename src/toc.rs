use vstd::prelude::*;

use crate::config::{decimal_at_most, parse_decimal};

verus! {

/// One entry of a table of contents; `num` counts from 1.
pub struct TocEpisode {
    pub num: u64,
    pub title: String,
}

/// A table of contents as read from one listing page, with the number of the
/// last listing page.
pub struct TocResult {
    pub title: String,
    pub episodes: Vec<TocEpisode>,
    pub last_page: u64,
}

/// Numbers the titles 1, 2, 3, ... in the order given.
pub fn number_episodes(titles: &Vec<String>) -> (r: Vec<TocEpisode>)
    ensures
        r@.len() == titles@.len(),
        forall|i: int|
            0 <= i < r@.len() ==> (#[trigger] r@[i]).num == i + 1 && r@[i].title == titles@[i],
{
    let mut out: Vec<TocEpisode> = Vec::new();
    let mut i: usize = 0;
    while i < titles.len()
        invariant
            i <= titles@.len(),
            out@.len() == i,
            forall|k: int|
                0 <= k < i ==> (#[trigger] out@[k]).num == k + 1 && out@[k].title == titles@[k],
        decreases titles@.len() - i,
    {
        out.push(TocEpisode { num: i as u64 + 1, title: titles[i].clone() });
        i = i + 1;
    }
    out
}

/// The titles of several listing pages, read in order, numbered as one table.
pub fn merge_listing_pages(pages: &Vec<Vec<String>>) -> (r: Vec<TocEpisode>)
    ensures
        r@.len() == pages@.map_values(|p: Vec<String>| p@).flatten().len(),
        forall|i: int|
            0 <= i < r@.len() ==> (#[trigger] r@[i]).num == i + 1 && r@[i].title
                == pages@.map_values(|p: Vec<String>| p@).flatten()[i],
{
    let ghost all = pages@.map_values(|p: Vec<String>| p@);
    let mut titles: Vec<String> = Vec::new();
    let mut i: usize = 0;
    while i < pages.len()
        invariant
            i <= pages@.len(),
            all == pages@.map_values(|p: Vec<String>| p@),
            titles@ == all.take(i as int).flatten(),
        decreases pages@.len() - i,
    {
        let page = &pages[i];
        let ghost before = titles@;
        let mut j: usize = 0;
        while j < page.len()
            invariant
                j <= page@.len(),
                titles@ == before + page@.take(j as int),
            decreases page@.len() - j,
        {
            titles.push(page[j].clone());
            proof {
                assert(page@.take(j + 1) =~= page@.take(j as int).push(page@[j as int]));
            }
            j = j + 1;
        }
        proof {
            assert(page@.take(page@.len() as int) =~= page@);
            assert(all.take(i + 1) =~= all.take(i as int).push(page@));
            all.take(i as int).lemma_flatten_push(page@);
        }
        i = i + 1;
    }
    proof {
        assert(all.take(pages@.len() as int) =~= all);
    }
    number_episodes(&titles)
}

/// Page locators below this are positions in the table of contents; the rest
/// are a source's own episode ids.
pub const SEQUENTIAL_PAGE_LIMIT: u32 = 100_000;

/// The position in the table of contents that a page locator names, counting
/// from 0, if it names one: a decimal number from 1 up to
/// [`SEQUENTIAL_PAGE_LIMIT`] (exclusive) names the entry with that number.
/// `Ok(None)` means the locator is an episode id of the source itself; the
/// number 0 names no entry.
pub fn page_position(locator: &str) -> (r: Result<Option<usize>, ()>)
    ensures
        (match decimal_at_most(locator@, SEQUENTIAL_PAGE_LIMIT - 1) {
            None => r == Ok::<Option<usize>, ()>(None),
            Some(n) => if n == 0 {
                r is Err
            } else {
                r == Ok::<Option<usize>, ()>(Some((n - 1) as usize))
            },
        }),
{
    match parse_decimal(locator, SEQUENTIAL_PAGE_LIMIT - 1) {
        None => Ok(None),
        Some(0) => Err(()),
        Some(n) => Ok(Some((n - 1) as usize)),
    }
}

} // verus!
