//! The walk through the sitemaps of a site.

use crate::text::{holds_text, lemma_filter_map_add, opt_view, views};
use crate::weburl::{PageUrl, UrlView};
use vstd::prelude::*;

verus! {

/// An entry of a sitemap, with its location where it has one.
#[derive(Debug)]
pub enum SitemapEntry {
    Page(Option<String>),
    Child(Option<String>),
    Broken,
}

/// The mathematical value of a `SitemapEntry`.
pub enum SitemapEntryView {
    Page(Option<Seq<char>>),
    Child(Option<Seq<char>>),
    Broken,
}

impl View for SitemapEntry {
    type V = SitemapEntryView;

    open spec fn view(&self) -> SitemapEntryView {
        match self {
            SitemapEntry::Page(loc) => SitemapEntryView::Page(opt_view(*loc)),
            SitemapEntry::Child(loc) => SitemapEntryView::Child(opt_view(*loc)),
            SitemapEntry::Broken => SitemapEntryView::Broken,
        }
    }
}

/// The values of a sequence of entries.
pub open spec fn entries_view(v: Seq<SitemapEntry>) -> Seq<SitemapEntryView> {
    v.map_values(|e: SitemapEntry| e@)
}

/// The entries of the sitemap that a text is.
pub uninterp spec fn sitemap_entries(body: Seq<char>) -> Seq<SitemapEntryView>;

/// Calls `sitemap::reader::SiteMapReader::new` and takes the entities that it
/// gives, with their locations. The result is named, not described: it is a
/// function of the text.
#[verifier::external_body]
fn read_sitemap(body: &str) -> (r: Vec<SitemapEntry>)
    ensures
        entries_view(r@) == sitemap_entries(body@),
{
    sitemap::reader::SiteMapReader::new(body.as_bytes()).map(|entity| match entity {
        sitemap::reader::SiteMapEntity::Url(page) => {
            SitemapEntry::Page(page.loc.get_url().map(|u| u.to_string()))
        }
        sitemap::reader::SiteMapEntity::SiteMap(child) => {
            SitemapEntry::Child(child.loc.get_url().map(|u| u.to_string()))
        }
        sitemap::reader::SiteMapEntity::Err(_) => SitemapEntry::Broken,
    }).collect()
}

/// The walk through the sitemaps of a site, as far as it has come.
#[derive(Debug)]
pub struct SitemapWalk {
    /// How many pages are collected at most.
    pub limit: usize,
    /// The pages that the sitemaps list.
    pub collected: Vec<String>,
    /// The sitemaps that were asked for.
    pub visited: Vec<String>,
    /// The sitemaps that are still to be asked for, the next one last.
    pub pending: Vec<String>,
}

/// The pages collected after `entries` were read, behind those of `collected`.
pub open spec fn pages_after(
    entries: Seq<SitemapEntryView>,
    collected: Seq<Seq<char>>,
    limit: nat,
) -> Seq<Seq<char>>
    decreases entries.len(),
{
    if entries.len() == 0 || collected.len() >= limit {
        collected
    } else {
        match entries[0] {
            SitemapEntryView::Page(Some(loc)) => pages_after(
                entries.drop_first(),
                collected.push(loc),
                limit,
            ),
            _ => pages_after(entries.drop_first(), collected, limit),
        }
    }
}

/// The further sitemaps that `entries` name, up to where the last page was
/// collected.
pub open spec fn children_in(
    entries: Seq<SitemapEntryView>,
    collected: nat,
    limit: nat,
) -> Seq<Seq<char>>
    decreases entries.len(),
{
    if entries.len() == 0 || collected >= limit {
        Seq::empty()
    } else {
        match entries[0] {
            SitemapEntryView::Page(Some(_)) => children_in(
                entries.drop_first(),
                collected + 1,
                limit,
            ),
            SitemapEntryView::Child(Some(loc)) => seq![loc] + children_in(
                entries.drop_first(),
                collected,
                limit,
            ),
            _ => children_in(entries.drop_first(), collected, limit),
        }
    }
}

/// The next sitemap that was not asked for yet, and what is pending behind it.
pub open spec fn next_pending(pending: Seq<Seq<char>>, visited: Seq<Seq<char>>) -> (
    Seq<Seq<char>>,
    Option<Seq<char>>,
)
    decreases pending.len(),
{
    if pending.len() == 0 {
        (pending, None)
    } else if visited.contains(pending.last()) {
        next_pending(pending.drop_last(), visited)
    } else {
        (pending.drop_last(), Some(pending.last()))
    }
}

/// Where the sitemap of the site of `url` is.
pub open spec fn sitemap_url(url: UrlView) -> Seq<char> {
    url.scheme + "://"@ + url.host_text() + "/sitemap.xml"@
}

/// However many pages the sitemaps list, at most as many as the limit are
/// collected, and none that was collected is lost.
pub proof fn law_sitemap_pages_within_limit(
    entries: Seq<SitemapEntryView>,
    collected: Seq<Seq<char>>,
    limit: nat,
)
    requires
        collected.len() <= limit,
    ensures
        collected.len() <= pages_after(entries, collected, limit).len() <= limit,
        collected.is_prefix_of(pages_after(entries, collected, limit)),
    decreases entries.len(),
{
    if entries.len() > 0 && collected.len() < limit {
        match entries[0] {
            SitemapEntryView::Page(Some(loc)) => {
                law_sitemap_pages_within_limit(entries.drop_first(), collected.push(loc), limit);
                let all = pages_after(entries, collected, limit);
                assert(collected =~= collected.push(loc).take(collected.len() as int));
                assert(collected =~= all.take(collected.len() as int));
            },
            _ => {
                law_sitemap_pages_within_limit(entries.drop_first(), collected, limit);
            },
        }
    }
}

impl SitemapWalk {
    /// At most as many pages as may be collected, and no sitemap visited twice.
    pub open spec fn wf(self) -> bool {
        &&& self.collected@.len() <= self.limit
        &&& views(self.visited@).no_duplicates()
    }

    /// Begins the walk at the sitemap of the site of `base_url`.
    pub fn fetch_sitemap_urls(base_url: &PageUrl, limit: usize) -> (r: Self)
        ensures
            r.limit == limit,
            views(r.collected@) == Seq::<Seq<char>>::empty(),
            views(r.visited@) == Seq::<Seq<char>>::empty(),
            views(r.pending@) == seq![sitemap_url(base_url@)],
            views(r.pending@) == seq![
                base_url.scheme@ + "://"@ + base_url@.host_text() + "/sitemap.xml"@,
            ],
            r.wf(),
    {
        let host = base_url.host_text();
        let head = base_url.scheme.clone().concat("://").concat(host.as_str());
        let r = SitemapWalk {
            limit,
            collected: Vec::new(),
            visited: Vec::new(),
            pending: vec![head.concat("/sitemap.xml")],
        };
        assert(views(r.collected@) =~= Seq::empty());
        assert(views(r.visited@) =~= Seq::empty());
        assert(views(r.pending@) =~= seq![sitemap_url(base_url@)]);
        r
    }

    /// The next sitemap to ask for, which was not asked for before; `None` where
    /// the walk is over.
    pub fn next(&mut self) -> (r: Option<String>)
        requires
            old(self).wf(),
        ensures
            final(self).wf(),
            final(self).limit == old(self).limit,
            final(self).collected == old(self).collected,
            if old(self).collected@.len() >= old(self).limit {
                r is None && *final(self) == *old(self)
            } else {
                let (rest, url) = next_pending(views(old(self).pending@), views(old(self).visited@));
                &&& opt_view(r) == url
                &&& views(final(self).pending@) == rest
                &&& match url {
                    Some(u) => views(final(self).visited@) == views(old(self).visited@).push(u)
                        && !views(old(self).visited@).contains(u),
                    None => final(self).visited == old(self).visited,
                }
            },
    {
        if self.collected.len() >= self.limit {
            return None;
        }
        while self.pending.len() > 0
            invariant
                self.wf(),
                self.limit == old(self).limit,
                self.collected == old(self).collected,
                self.visited == old(self).visited,
                old(self).collected@.len() < old(self).limit,
                next_pending(views(self.pending@), views(self.visited@)) == next_pending(
                    views(old(self).pending@),
                    views(old(self).visited@),
                ),
            decreases self.pending@.len(),
        {
            let ghost before = self.pending@;
            let url = match self.pending.pop() {
                Some(url) => url,
                None => {
                    return None;
                },
            };
            assert(views(self.pending@) =~= views(before).drop_last());
            assert(views(before).last() == url@);
            if !holds_text(&self.visited, url.as_str()) {
                let ghost seen = views(self.visited@);
                self.visited.push(url.clone());
                assert(views(self.visited@) =~= seen.push(url@));
                return Some(url);
            }
        }
        assert(views(self.pending@).len() == 0);
        None
    }

    /// Takes the entries of a sitemap: its pages are collected, and its further
    /// sitemaps are asked for next, in order.
    pub fn add_entries(&mut self, entries: &Vec<SitemapEntry>)
        requires
            old(self).wf(),
        ensures
            final(self).wf(),
            final(self).limit == old(self).limit,
            final(self).visited == old(self).visited,
            views(final(self).collected@) == pages_after(
                entries_view(entries@),
                views(old(self).collected@),
                old(self).limit as nat,
            ),
            views(final(self).pending@) == views(old(self).pending@) + children_in(
                entries_view(entries@),
                old(self).collected@.len(),
                old(self).limit as nat,
            ).reverse(),
    {
        let ghost all = entries_view(entries@);
        let ghost limit = self.limit as nat;
        let mut children: Vec<String> = Vec::new();
        let mut i: usize = 0;
        assert(all.skip(0) =~= all);
        assert(views(children@) + children_in(all, self.collected@.len(), limit) =~= children_in(
            all,
            self.collected@.len(),
            limit,
        ));
        while i < entries.len() && self.collected.len() < self.limit
            invariant
                i <= entries@.len() == all.len(),
                all == entries_view(entries@),
                limit == self.limit,
                self.limit == old(self).limit,
                self.visited == old(self).visited,
                self.pending == old(self).pending,
                self.collected@.len() <= self.limit,
                pages_after(all.skip(i as int), views(self.collected@), limit) == pages_after(
                    all,
                    views(old(self).collected@),
                    limit,
                ),
                views(children@) + children_in(
                    all.skip(i as int),
                    self.collected@.len(),
                    limit,
                ) == children_in(all, old(self).collected@.len(), limit),
            decreases entries@.len() - i,
        {
            let ghost here = all.skip(i as int);
            let ghost found = views(children@);
            let ghost pages = views(self.collected@);
            assert(here[0] == entries@[i as int]@);
            assert(here.drop_first() =~= all.skip(i + 1));
            match &entries[i] {
                SitemapEntry::Page(Some(loc)) => {
                    self.collected.push(loc.clone());
                    assert(views(self.collected@) =~= pages.push(loc@));
                },
                SitemapEntry::Child(Some(loc)) => {
                    children.push(loc.clone());
                    assert(views(children@) + children_in(
                        all.skip(i + 1),
                        self.collected@.len(),
                        limit,
                    ) =~= found + children_in(here, self.collected@.len(), limit));
                },
                _ => {},
            }
            i = i + 1;
        }
        assert(views(children@) =~= children_in(all, old(self).collected@.len(), limit)) by {
            assert(children_in(all.skip(i as int), self.collected@.len(), limit)
                =~= Seq::<Seq<char>>::empty());
        }
        let ghost named = views(children@);
        let ghost before = views(self.pending@);
        assert(before + named.skip(children@.len() as int).reverse() =~= before);
        let mut k: usize = children.len();
        while k > 0
            invariant
                k <= children@.len() == named.len(),
                named == views(children@),
                self.limit == old(self).limit,
                self.visited == old(self).visited,
                views(self.collected@) == pages_after(
                    all,
                    views(old(self).collected@),
                    limit,
                ),
                self.collected@.len() <= self.limit,
                views(self.pending@) == before + named.skip(k as int).reverse(),
            decreases k,
        {
            let ghost sofar = self.pending@;
            k = k - 1;
            self.pending.push(children[k].clone());
            assert(views(self.pending@) =~= views(sofar).push(named[k as int]));
            assert(named.skip(k as int).reverse() =~= named.skip(k + 1).reverse().push(
                named[k as int],
            ));
        }
        assert(named.skip(0) =~= named);
    }

    /// Takes the text of the sitemap that was asked for last; `None` where it could
    /// not be had.
    pub fn fetched(&mut self, body: Option<&str>)
        requires
            old(self).wf(),
        ensures
            final(self).wf(),
            final(self).limit == old(self).limit,
            final(self).visited == old(self).visited,
            match body {
                Some(text) => {
                    &&& views(final(self).collected@) == pages_after(
                        sitemap_entries(text@),
                        views(old(self).collected@),
                        old(self).limit as nat,
                    )
                    &&& views(final(self).pending@) == views(old(self).pending@) + children_in(
                        sitemap_entries(text@),
                        old(self).collected@.len(),
                        old(self).limit as nat,
                    ).reverse()
                },
                None => *final(self) == *old(self),
            },
    {
        match body {
            Some(text) => {
                let entries = read_sitemap(text);
                self.add_entries(&entries);
            },
            None => {},
        }
    }
}

// ---------------------------------------------------------------------------
// Laws of the walk
// ---------------------------------------------------------------------------

/// The page that an entry lists.
pub open spec fn page_of(entry: SitemapEntryView) -> Option<Seq<char>> {
    match entry {
        SitemapEntryView::Page(loc) => loc,
        _ => None,
    }
}

/// The further sitemap that an entry names.
pub open spec fn child_of(entry: SitemapEntryView) -> Option<Seq<char>> {
    match entry {
        SitemapEntryView::Child(loc) => loc,
        _ => None,
    }
}

/// The pages of a sitemap are collected in order, none left out, until there are as many
/// as may be.
pub proof fn law_sitemap_pages_are_collected(
    entries: Seq<SitemapEntryView>,
    collected: Seq<Seq<char>>,
    limit: nat,
)
    requires
        collected.len() <= limit,
    ensures
        ({
            let all = collected + entries.filter_map(|e: SitemapEntryView| page_of(e));
            pages_after(entries, collected, limit) == (if all.len() <= limit {
                all
            } else {
                all.take(limit as int)
            })
        }),
    decreases entries.len(),
{
    let f = |e: SitemapEntryView| page_of(e);
    reveal(Seq::filter_map);
    let all = collected + entries.filter_map(f);
    if entries.len() == 0 {
        assert(all =~= collected);
    } else {
        let rest = entries.drop_first();
        assert(entries =~= seq![entries[0]] + rest);
        Seq::<SitemapEntryView>::lemma_filter_map_singleton(entries[0], f);
        lemma_filter_map_add(seq![entries[0]], rest, f);
        if collected.len() < limit {
            match page_of(entries[0]) {
                Some(loc) => {
                    assert(all =~= collected.push(loc) + rest.filter_map(f));
                    law_sitemap_pages_are_collected(rest, collected.push(loc), limit);
                },
                None => {
                    assert(Seq::<Seq<char>>::empty() + rest.filter_map(f) =~= rest.filter_map(f));
                    law_sitemap_pages_are_collected(rest, collected, limit);
                },
            }
        } else {
            assert(all.take(limit as int) =~= collected);
            if all.len() <= limit {
                assert(all =~= collected);
            }
        }
    }
}

/// Where there is room for all pages of a sitemap and more, every further sitemap that it
/// names is asked for, in order.
pub proof fn law_child_sitemaps_are_followed(
    entries: Seq<SitemapEntryView>,
    collected: nat,
    limit: nat,
)
    requires
        collected + entries.filter_map(|e: SitemapEntryView| page_of(e)).len() < limit,
    ensures
        children_in(entries, collected, limit) == entries.filter_map(
            |e: SitemapEntryView| child_of(e),
        ),
    decreases entries.len(),
{
    let f = |e: SitemapEntryView| page_of(e);
    let g = |e: SitemapEntryView| child_of(e);
    reveal(Seq::filter_map);
    if entries.len() > 0 {
        let rest = entries.drop_first();
        assert(entries =~= seq![entries[0]] + rest);
        Seq::<SitemapEntryView>::lemma_filter_map_singleton(entries[0], f);
        lemma_filter_map_add(seq![entries[0]], rest, f);
        Seq::<SitemapEntryView>::lemma_filter_map_singleton(entries[0], g);
        lemma_filter_map_add(seq![entries[0]], rest, g);
        if page_of(entries[0]) is Some {
            law_child_sitemaps_are_followed(rest, collected + 1, limit);
        } else {
            law_child_sitemaps_are_followed(rest, collected, limit);
        }
        if child_of(entries[0]) is None {
            assert(Seq::<Seq<char>>::empty() + rest.filter_map(g) =~= rest.filter_map(g));
        }
    }
}

/// The next sitemap is the last pending one that was not asked for; only such as were
/// asked for are passed over.
pub proof fn law_next_sitemap(pending: Seq<Seq<char>>, visited: Seq<Seq<char>>)
    ensures
        ({
            let (rest, next) = next_pending(pending, visited);
            match next {
                Some(u) => {
                    &&& rest.len() < pending.len()
                    &&& rest == pending.take(rest.len() as int)
                    &&& u == pending[rest.len() as int]
                    &&& !visited.contains(u)
                    &&& forall|i: int|
                        rest.len() < i < pending.len() ==> visited.contains(#[trigger] pending[i])
                },
                None => forall|i: int|
                    0 <= i < pending.len() ==> visited.contains(#[trigger] pending[i]),
            }
        }),
    decreases pending.len(),
{
    if pending.len() > 0 {
        let shorter = pending.drop_last();
        let (rest, next) = next_pending(pending, visited);
        if visited.contains(pending.last()) {
            law_next_sitemap(shorter, visited);
            assert forall|i: int| 0 <= i < shorter.len() implies pending[i] == shorter[i] by {}
            if next is Some {
                assert(rest =~= pending.take(rest.len() as int));
                assert forall|i: int| rest.len() < i < pending.len() implies visited.contains(
                    #[trigger] pending[i],
                ) by {
                    if i < shorter.len() {
                        assert(visited.contains(shorter[i]));
                    }
                }
            } else {
                assert forall|i: int| 0 <= i < pending.len() implies visited.contains(
                    #[trigger] pending[i],
                ) by {
                    if i < shorter.len() {
                        assert(visited.contains(shorter[i]));
                    }
                }
            }
        } else {
            assert(rest =~= pending.take(rest.len() as int));
        }
    }
}
} // verus!
