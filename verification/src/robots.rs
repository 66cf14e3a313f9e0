//! The rules that sites give robots: where they are fetched from, how they are
//! kept, and whether they allow a page.

use crate::config::CrawlerConfig;
use crate::text::{same_text, chars_of};
use crate::weburl::{PageUrl, UrlView};
use vstd::prelude::*;

verus! {

// ---------------------------------------------------------------------------
// Matching
// ---------------------------------------------------------------------------

/// The number of bytes of a character in UTF-8.
pub open spec fn utf8_len(c: char) -> nat {
    if c <= '\u{7f}' {
        1
    } else if c <= '\u{7ff}' {
        2
    } else if c <= '\u{ffff}' {
        3
    } else {
        4
    }
}

/// The number of bytes of the first `i` characters of `s`.
pub open spec fn bytes_before(s: Seq<char>, i: int) -> nat
    decreases i,
{
    if i <= 0 {
        0
    } else {
        bytes_before(s, i - 1) + utf8_len(s[i - 1])
    }
}

/// The byte `p` of `s` is where a character begins, or the end.
pub open spec fn is_boundary(s: Seq<char>, p: int) -> bool {
    exists|i: int| 0 <= i <= s.len() && #[trigger] bytes_before(s, i) == p
}

/// How far a reader of lines has come.
pub struct LineReader {
    /// The byte at which it takes the line to begin.
    pub start: nat,
    /// The byte behind what it keeps of the line.
    pub end: nat,
    /// How many characters of the line it does not keep.
    pub skipped: nat,
    /// How much of a byte order mark it has seen, `3` where that is over.
    pub mark: nat,
    /// Whether the last line ended in a carriage return.
    pub returned: bool,
    /// All lines were cut between characters.
    pub sound: bool,
}

/// The characters whose numbers are the bytes of a byte order mark.
pub open spec fn mark_char(i: nat) -> char {
    if i == 0 {
        '\u{ef}'
    } else if i == 1 {
        '\u{bb}'
    } else {
        '\u{bf}'
    }
}

/// The reader once it has read the character `c` of `s`.
pub open spec fn reader_after(s: Seq<char>, r: LineReader, c: char) -> LineReader {
    if r.mark < 3 && c == mark_char(r.mark) {
        LineReader {
            start: r.start + utf8_len(c),
            end: r.end + utf8_len(c),
            mark: r.mark + 1,
            ..r
        }
    } else if c == '\n' || c == '\r' {
        let next = r.end + r.skipped + 1;
        LineReader {
            start: next,
            end: next,
            skipped: 0,
            mark: 3,
            returned: c == '\r',
            sound: r.sound && (r.end == r.start && r.returned && c == '\n' || is_boundary(
                s,
                r.start as int,
            ) && is_boundary(s, r.end as int)),
        }
    } else if r.end - r.start < 16_663 {
        LineReader { end: r.end + utf8_len(c), mark: 3, ..r }
    } else {
        LineReader { skipped: r.skipped + 1, mark: 3, ..r }
    }
}

/// The reader once it has read the first `i` characters of `s`.
pub open spec fn reader_at(s: Seq<char>, i: int) -> LineReader
    decreases i,
{
    if i <= 0 {
        LineReader { start: 0, end: 0, skipped: 0, mark: 0, returned: false, sound: true }
    } else {
        reader_after(s, reader_at(s, i - 1), s[i - 1])
    }
}

/// A reader of lines that keeps about 16663 bytes of each, and counts a character
/// that it does not keep as one byte, cuts all lines of `s` between characters.
pub open spec fn is_readable(s: Seq<char>) -> bool {
    let r = reader_at(s, s.len() as int);
    r.sound && is_boundary(s, r.start as int) && is_boundary(s, r.end as int)
}

proof fn lemma_bytes_increase(s: Seq<char>, i: int, j: int)
    requires
        0 <= i < j,
    ensures
        bytes_before(s, i) < bytes_before(s, j),
    decreases j,
{
    if i < j - 1 {
        lemma_bytes_increase(s, i, j - 1);
    }
}

/// The bytes inside the character `i` are no boundaries, its first one is.
proof fn lemma_boundaries(s: Seq<char>, i: int)
    requires
        0 <= i < s.len(),
    ensures
        is_boundary(s, bytes_before(s, i) as int),
        forall|p: int| bytes_before(s, i) < p < bytes_before(s, i + 1) ==> !is_boundary(s, p),
{
    assert forall|p: int| bytes_before(s, i) < p < bytes_before(s, i + 1) implies !is_boundary(
        s,
        p,
    ) by {
        assert forall|j: int| 0 <= j <= s.len() implies #[trigger] bytes_before(s, j) != p by {
            if j < i {
                lemma_bytes_increase(s, j, i);
            } else if j > i + 1 {
                lemma_bytes_increase(s, i + 1, j);
            }
        }
    }
}

/// What the reader counts never runs ahead of what it has read.
proof fn lemma_reader_bound(s: Seq<char>, i: int)
    requires
        0 <= i,
    ensures
        reader_at(s, i).start <= reader_at(s, i).end,
        reader_at(s, i).end + reader_at(s, i).skipped <= bytes_before(s, i),
        reader_at(s, i).mark <= 3,
    decreases i,
{
    if i > 0 {
        lemma_reader_bound(s, i - 1);
    }
}

/// The number of bytes of a character in UTF-8.
fn utf8_length(c: char) -> (r: usize)
    ensures
        r == utf8_len(c),
{
    if c <= '\u{7f}' {
        1
    } else if c <= '\u{7ff}' {
        2
    } else if c <= '\u{ffff}' {
        3
    } else {
        4
    }
}

/// For each byte, and for the end, whether it is a boundary.
fn boundaries(s: &Vec<char>) -> (r: Vec<bool>)
    ensures
        r@.len() == bytes_before(s@, s@.len() as int) + 1,
        forall|p: int| 0 <= p < r@.len() ==> #[trigger] r@[p] == is_boundary(s@, p),
{
    let mut r: Vec<bool> = Vec::new();
    let mut i: usize = 0;
    while i < s.len()
        invariant
            i <= s@.len(),
            r@.len() == bytes_before(s@, i as int),
            forall|p: int| 0 <= p < r@.len() ==> #[trigger] r@[p] == is_boundary(s@, p),
        decreases s@.len() - i,
    {
        proof {
            lemma_boundaries(s@, i as int);
            assert(bytes_before(s@, i + 1) == bytes_before(s@, i as int) + utf8_len(s@[i as int]));
        }
        let n: usize = utf8_length(s[i]);
        r.push(true);
        let mut k: usize = 1;
        while k < n
            invariant
                i < s@.len(),
                1 <= k <= n,
                r@.len() == bytes_before(s@, i as int) + k,
                bytes_before(s@, i + 1) == bytes_before(s@, i as int) + n,
                forall|p: int|
                    bytes_before(s@, i as int) < p < bytes_before(s@, i + 1) ==> !is_boundary(
                        s@,
                        p,
                    ),
                forall|p: int| 0 <= p < r@.len() ==> #[trigger] r@[p] == is_boundary(s@, p),
            decreases n - k,
        {
            r.push(false);
            k = k + 1;
        }
        i = i + 1;
    }
    r.push(true);
    r
}

/// Whether a reader that keeps about 16663 bytes of a line cuts all lines between
/// characters.
pub fn is_readable_text(text: &str) -> (r: bool)
    ensures
        r == is_readable(text@),
{
    let s = chars_of(text);
    let cuts = boundaries(&s);
    let total: usize = cuts.len();
    let mut start: usize = 0;
    let mut end: usize = 0;
    let mut skipped: usize = 0;
    let mut mark: u8 = 0;
    let mut returned: bool = false;
    let mut sound: bool = true;
    let mut i: usize = 0;
    while i < s.len()
        invariant
            i <= s@.len(),
            s@ == text@,
            total == cuts@.len() == bytes_before(s@, s@.len() as int) + 1,
            forall|p: int| 0 <= p < cuts@.len() ==> #[trigger] cuts@[p] == is_boundary(s@, p),
            reader_at(s@, i as int) == (LineReader {
                start: start as nat,
                end: end as nat,
                skipped: skipped as nat,
                mark: mark as nat,
                returned,
                sound,
            }),
        decreases s@.len() - i,
    {
        let c = s[i];
        proof {
            lemma_reader_bound(s@, i as int);
            lemma_reader_bound(s@, i + 1);
            lemma_bytes_increase(s@, i as int, i + 1);
            if i + 1 < s@.len() {
                lemma_bytes_increase(s@, i + 1, s@.len() as int);
            }
            assert(reader_at(s@, i + 1) == reader_after(s@, reader_at(s@, i as int), c));
            assert(bytes_before(s@, i + 1) == bytes_before(s@, i as int) + utf8_len(c));
        }
        let n: usize = utf8_length(c);
        if mark == 0 && c == '\u{ef}' || mark == 1 && c == '\u{bb}' || mark == 2 && c == '\u{bf}' {
            start = start + n;
            end = end + n;
            mark = mark + 1;
        } else {
            mark = 3;
            if c == '\n' || c == '\r' {
                if !(end == start && returned && c == '\n') {
                    sound = sound && cuts[start] && cuts[end];
                }
                end = end + skipped + 1;
                start = end;
                skipped = 0;
                returned = c == '\r';
            } else if end - start < 16_663 {
                end = end + n;
            } else {
                skipped = skipped + 1;
            }
        }
        i = i + 1;
    }
    proof {
        lemma_reader_bound(s@, s@.len() as int);
    }
    sound && cuts[start] && cuts[end]
}

/// Whether the rules `text` allow the robot `agent` to fetch `url`.
pub uninterp spec fn rules_allow(text: Seq<char>, agent: Seq<char>, url: Seq<char>) -> bool;

/// Calls `robotstxt::DefaultMatcher::one_agent_allowed_by_robots`. The result is
/// named, not described: it is a function of the rules, the name of the robot and
/// the URL. The parser of the rules keeps about 16663 bytes of a line and counts a
/// character that it does not keep as one byte; it panics where it then cuts inside
/// of a character.
#[verifier::external_body]
fn match_rules(text: &str, agent: &str, url: &str) -> (r: bool)
    requires
        is_readable(text@),
    ensures
        r == rules_allow(text@, agent@, url@),
{
    robotstxt::DefaultMatcher::default().one_agent_allowed_by_robots(text, agent, url)
}

// ---------------------------------------------------------------------------
// The rules that were fetched
// ---------------------------------------------------------------------------

/// How many sites the rules are kept of.
pub const MAX_SITES: usize = 1_000;

/// The rules of the sites that were asked for them last.
#[derive(Debug)]
pub struct RobotsCache {
    /// Pairs of host and rules, the oldest first.
    pub entries: Vec<(String, String)>,
}

/// The rules kept for `host`.
pub open spec fn kept(entries: Seq<(Seq<char>, Seq<char>)>, host: Seq<char>) -> Option<Seq<char>>
    decreases entries.len(),
{
    if entries.len() == 0 {
        None
    } else if entries[0].0 == host {
        Some(entries[0].1)
    } else {
        kept(entries.drop_first(), host)
    }
}

/// The entries but those of `host`.
pub open spec fn without(entries: Seq<(Seq<char>, Seq<char>)>, host: Seq<char>) -> Seq<
    (Seq<char>, Seq<char>),
>
    decreases entries.len(),
{
    if entries.len() == 0 {
        Seq::empty()
    } else {
        let before = without(entries.drop_last(), host);
        if entries.last().0 == host {
            before
        } else {
            before.push(entries.last())
        }
    }
}

/// The entries after the rules `text` of `host` were fetched: where they are as
/// many as may be kept, the oldest one goes.
pub open spec fn remembered(
    entries: Seq<(Seq<char>, Seq<char>)>,
    host: Seq<char>,
    text: Seq<char>,
) -> Seq<(Seq<char>, Seq<char>)> {
    let room = if entries.len() >= MAX_SITES {
        entries.drop_first()
    } else {
        entries
    };
    without(room, host).push((host, text))
}

/// The values of the entries.
pub open spec fn entry_views(v: Seq<(String, String)>) -> Seq<(Seq<char>, Seq<char>)> {
    v.map_values(|e: (String, String)| (e.0@, e.1@))
}

impl View for RobotsCache {
    type V = Seq<(Seq<char>, Seq<char>)>;

    open spec fn view(&self) -> Seq<(Seq<char>, Seq<char>)> {
        entry_views(self.entries@)
    }
}

proof fn lemma_without_len(entries: Seq<(Seq<char>, Seq<char>)>, host: Seq<char>)
    ensures
        without(entries, host).len() <= entries.len(),
        forall|i: int|
            #![trigger without(entries, host)[i]]
            0 <= i < without(entries, host).len() ==> entries.contains(without(entries, host)[i])
                && without(entries, host)[i].0 != host,
    decreases entries.len(),
{
    if entries.len() > 0 {
        lemma_without_len(entries.drop_last(), host);
        let before = without(entries.drop_last(), host);
        let all = without(entries, host);
        assert forall|i: int| 0 <= i < all.len() implies entries.contains(#[trigger] all[i])
            && all[i].0 != host by {
            if i < before.len() {
                assert(all[i] == before[i]);
                let k = choose|k: int|
                    0 <= k < entries.drop_last().len() && entries.drop_last()[k] == before[i];
                assert(entries[k] == before[i]);
            } else {
                assert(entries[entries.len() - 1] == all[i]);
            }
        }
    }
}

/// The rules of at most a thousand sites are kept, whatever is fetched.
pub proof fn law_cache_is_bounded(
    entries: Seq<(Seq<char>, Seq<char>)>,
    host: Seq<char>,
    text: Seq<char>,
)
    requires
        entries.len() <= MAX_SITES,
    ensures
        remembered(entries, host, text).len() <= MAX_SITES,
{
    lemma_without_len(entries, host);
    lemma_without_len(entries.drop_first(), host);
}

/// Rules that were just fetched are the rules that are kept.
pub proof fn law_cache_remembers(
    entries: Seq<(Seq<char>, Seq<char>)>,
    host: Seq<char>,
    text: Seq<char>,
)
    ensures
        kept(remembered(entries, host, text), host) == Some(text),
{
    let room = if entries.len() >= MAX_SITES {
        entries.drop_first()
    } else {
        entries
    };
    lemma_without_len(room, host);
    lemma_kept_at_end(without(room, host), host, text);
}

proof fn lemma_kept_at_end(
    entries: Seq<(Seq<char>, Seq<char>)>,
    host: Seq<char>,
    text: Seq<char>,
)
    requires
        forall|i: int| 0 <= i < entries.len() ==> (#[trigger] entries[i]).0 != host,
    ensures
        kept(entries.push((host, text)), host) == Some(text),
    decreases entries.len(),
{
    let all = entries.push((host, text));
    if entries.len() > 0 {
        assert(all[0] == entries[0]);
        assert forall|i: int| 0 <= i < entries.drop_first().len() implies (
        #[trigger] entries.drop_first()[i]).0 != host by {
            assert(entries.drop_first()[i] == entries[i + 1]);
        }
        assert(all.drop_first() =~= entries.drop_first().push((host, text)));
        lemma_kept_at_end(entries.drop_first(), host, text);
    }
}

impl RobotsCache {
    /// At most a thousand entries, all of them readable.
    pub open spec fn wf(self) -> bool {
        &&& self@.len() <= MAX_SITES
        &&& forall|i: int| 0 <= i < self@.len() ==> is_readable((#[trigger] self@[i]).1)
    }

    /// No rules.
    pub fn new() -> (r: Self)
        ensures
            r@ == Seq::<(Seq<char>, Seq<char>)>::empty(),
            r.wf(),
    {
        let r = RobotsCache { entries: Vec::new() };
        assert(r@ =~= Seq::empty());
        r
    }

    /// The rules kept for `host`.
    pub fn get(&self, host: &str) -> (r: Option<String>)
        ensures
            crate::text::opt_view(r) == kept(self@, host@),
            self.wf() ==> (r matches Some(t) ==> is_readable(t@)),
    {
        let mut i: usize = 0;
        assert(self@.skip(0) =~= self@);
        while i < self.entries.len()
            invariant
                i <= self.entries@.len() == self@.len(),
                kept(self@, host@) == kept(self@.skip(i as int), host@),
            decreases self.entries@.len() - i,
        {
            assert(self@.skip(i as int)[0] == self@[i as int]);
            assert(self@.skip(i as int).drop_first() =~= self@.skip(i + 1));
            if same_text(self.entries[i].0.as_str(), host) {
                assert(self@[i as int].1 == self.entries@[i as int].1@);
                return Some(self.entries[i].1.clone());
            }
            i = i + 1;
        }
        None
    }

    /// Keeps the rules `text` of `host`.
    pub fn insert(&mut self, host: String, text: String)
        requires
            old(self).wf(),
            is_readable(text@),
        ensures
            final(self)@ == remembered(old(self)@, host@, text@),
            final(self).wf(),
    {
        let ghost before = self@;
        let first: usize = if self.entries.len() >= MAX_SITES {
            1
        } else {
            0
        };
        let ghost room = before.skip(first as int);
        assert(first == 0 ==> room =~= before);
        assert(first == 1 ==> room =~= before.drop_first());
        let mut entries: Vec<(String, String)> = Vec::new();
        let mut i: usize = first;
        assert(entry_views(entries@) =~= without(room.take(0), host@));
        while i < self.entries.len()
            invariant
                first <= i <= self.entries@.len(),
                self@ == before,
                room == before.skip(first as int),
                entry_views(entries@) == without(room.take(i - first), host@),
            decreases self.entries@.len() - i,
        {
            let ghost sofar = entries@;
            assert(room.take(i - first + 1).drop_last() =~= room.take(i - first));
            assert(room.take(i - first + 1).last() == self@[i as int]);
            if !same_text(self.entries[i].0.as_str(), host.as_str()) {
                entries.push((self.entries[i].0.clone(), self.entries[i].1.clone()));
                assert(entry_views(entries@) =~= entry_views(sofar).push(self@[i as int]));
            }
            i = i + 1;
        }
        assert(room.take(room.len() as int) =~= room);
        let ghost sofar = entries@;
        entries.push((host, text));
        assert(entry_views(entries@) =~= entry_views(sofar).push((host@, text@)));
        self.entries = entries;
        proof {
            law_cache_is_bounded(before, host@, text@);
            lemma_without_len(room, host@);
            assert forall|k: int| 0 <= k < self@.len() implies is_readable((#[trigger] self@[k]).1) by {
                if k < without(room, host@).len() {
                    let e = without(room, host@)[k];
                    assert(self@[k] == e);
                    let j = choose|j: int| 0 <= j < room.len() && room[j] == e;
                    assert(before[j + first] == e);
                }
            }
        }
    }
}

// ---------------------------------------------------------------------------
// Whether a page may be fetched
// ---------------------------------------------------------------------------

/// What is known about whether a page may be fetched.
#[derive(Debug)]
pub enum RobotsStep {
    Decided(bool),
    /// The rules of the site have to be fetched first.
    Fetch { url: String },
}

/// Where the rules of the site of `url` are.
pub open spec fn robots_url(url: UrlView) -> Seq<char> {
    url.scheme + "://"@ + url.host_text() + "/robots.txt"@
}

/// Whether the page `url` may be fetched, as far as is known.
pub fn is_allowed_by_robots(config: &CrawlerConfig, cache: &RobotsCache, url: &PageUrl) -> (r:
    RobotsStep)
    requires
        cache.wf(),
    ensures
        if !config.respect_robots_txt {
            r == RobotsStep::Decided(true)
        } else {
            match kept(cache@, url@.host_text()) {
                Some(text) => r == RobotsStep::Decided(
                    rules_allow(text, config.user_agent@, url.text@),
                ),
                None => r matches RobotsStep::Fetch { url: u } && u@ == robots_url(url@) && u@
                    == url.scheme@ + "://"@ + url@.host_text() + "/robots.txt"@,
            }
        },
{
    if !config.respect_robots_txt {
        return RobotsStep::Decided(true);
    }
    let host = url.host_text();
    match cache.get(host.as_str()) {
        Some(text) => RobotsStep::Decided(
            match_rules(text.as_str(), config.user_agent.as_str(), url.text.as_str()),
        ),
        None => {
            let head = url.scheme.clone().concat("://").concat(host.as_str());
            RobotsStep::Fetch { url: head.concat("/robots.txt") }
        },
    }
}

/// Takes the rules of the site of `url`, `None` where there are none to be had, and
/// decides whether the page may be fetched. Rules are kept.
pub fn robots_fetched(
    config: &CrawlerConfig,
    cache: &mut RobotsCache,
    url: &PageUrl,
    text: Option<String>,
) -> (r: bool)
    requires
        old(cache).wf(),
        text matches Some(t) ==> is_readable(t@),
    ensures
        final(cache).wf(),
        match text {
            Some(t) => r == rules_allow(t@, config.user_agent@, url.text@) && final(cache)@
                == remembered(old(cache)@, url@.host_text(), t@),
            None => r && final(cache)@ == old(cache)@,
        },
{
    match text {
        Some(t) => {
            let host = url.host_text();
            let allowed = match_rules(t.as_str(), config.user_agent.as_str(), url.text.as_str());
            cache.insert(host, t);
            allowed
        },
        None => true,
    }
}

// ---------------------------------------------------------------------------
// Laws of the rules that are kept
// ---------------------------------------------------------------------------

/// Keeping the rules of one site leaves those of every other site as they are, as long
/// as the rules of fewer than a thousand sites are kept; where there are as many, only
/// those of the site that was asked for them longest ago are lost.
pub proof fn law_cache_keeps_other_sites(
    entries: Seq<(Seq<char>, Seq<char>)>,
    host: Seq<char>,
    text: Seq<char>,
    other: Seq<char>,
)
    requires
        other != host,
    ensures
        entries.len() < 1_000 ==> kept(remembered(entries, host, text), other) == kept(
            entries,
            other,
        ),
        entries.len() >= 1_000 && entries[0].0 != other ==> kept(
            remembered(entries, host, text),
            other,
        ) == kept(entries, other),
{
    let room = if entries.len() >= MAX_SITES {
        entries.drop_first()
    } else {
        entries
    };
    lemma_kept_without(room, host, other);
    lemma_kept_push(without(room, host), (host, text), other);
}

/// Rules are kept for a site just where there is an entry for it, and the first one
/// counts.
pub proof fn law_kept(
    before: Seq<(Seq<char>, Seq<char>)>,
    host: Seq<char>,
    text: Seq<char>,
    after: Seq<(Seq<char>, Seq<char>)>,
)
    requires
        forall|i: int| 0 <= i < before.len() ==> (#[trigger] before[i]).0 != host,
    ensures
        kept(before + seq![(host, text)] + after, host) == Some(text),
        kept(before, host) is None,
    decreases before.len(),
{
    let all = before + seq![(host, text)] + after;
    if before.len() > 0 {
        let rest = before.drop_first();
        assert forall|i: int| 0 <= i < rest.len() implies (#[trigger] rest[i]).0 != host by {
            assert(before[i + 1].0 != host);
        }
        law_kept(rest, host, text, after);
        assert(all.drop_first() =~= rest + seq![(host, text)] + after);
        assert(all[0] == before[0]);
    } else {
        assert(all[0] == (host, text));
    }
}

proof fn lemma_kept_push(
    entries: Seq<(Seq<char>, Seq<char>)>,
    entry: (Seq<char>, Seq<char>),
    other: Seq<char>,
)
    requires
        entry.0 != other,
    ensures
        kept(entries.push(entry), other) == kept(entries, other),
    decreases entries.len(),
{
    if entries.len() > 0 {
        lemma_kept_push(entries.drop_first(), entry, other);
        assert(entries.push(entry).drop_first() =~= entries.drop_first().push(entry));
    } else {
        assert(entries.push(entry).drop_first() =~= entries);
    }
}

proof fn lemma_kept_last(
    entries: Seq<(Seq<char>, Seq<char>)>,
    other: Seq<char>,
)
    requires
        entries.len() > 0,
    ensures
        kept(entries, other) == (if kept(entries.drop_last(), other) is Some {
            kept(entries.drop_last(), other)
        } else if entries.last().0 == other {
            Some(entries.last().1)
        } else {
            None
        }),
    decreases entries.len(),
{
    reveal_with_fuel(kept, 2);
    if entries.len() > 1 {
        lemma_kept_last(entries.drop_first(), other);
        assert(entries.drop_first().drop_last() =~= entries.drop_last().drop_first());
    } else {
        assert(entries.drop_first() =~= Seq::empty());
    }
}

proof fn lemma_kept_without(
    entries: Seq<(Seq<char>, Seq<char>)>,
    host: Seq<char>,
    other: Seq<char>,
)
    requires
        other != host,
    ensures
        kept(without(entries, host), other) == kept(entries, other),
    decreases entries.len(),
{
    if entries.len() > 0 {
        lemma_kept_without(entries.drop_last(), host, other);
        lemma_kept_last(entries, other);
        let w = without(entries, host);
        if entries.last().0 != host {
            lemma_kept_last(w, other);
            assert(w.drop_last() =~= without(entries.drop_last(), host));
        }
    }
}
/// Rules that are no longer than a line may be are readable, whatever they hold.
pub proof fn law_short_rules_are_readable(s: Seq<char>)
    requires
        bytes_before(s, s.len() as int) <= 16_663,
    ensures
        is_readable(s),
{
    lemma_short_reader(s, s.len() as int);
    let r = reader_at(s, s.len() as int);
    assert(is_boundary(s, r.start as int));
}

proof fn lemma_short_reader(s: Seq<char>, i: int)
    requires
        0 <= i <= s.len(),
        bytes_before(s, s.len() as int) <= 16_663,
    ensures
        reader_at(s, i).skipped == 0,
        reader_at(s, i).end == bytes_before(s, i),
        reader_at(s, i).sound,
        is_boundary(s, reader_at(s, i).start as int),
        is_boundary(s, reader_at(s, i).end as int),
        reader_at(s, i).start <= reader_at(s, i).end,
    decreases i,
{
    if i > 0 {
        lemma_short_reader(s, i - 1);
        if i < s.len() {
            lemma_bytes_increase(s, i, s.len() as int);
        }
        let before = reader_at(s, i - 1);
        let c = s[i - 1];
        assert(bytes_before(s, i) == bytes_before(s, i - 1) + utf8_len(c));
        if before.mark < 3 && c == mark_char(before.mark) {
            lemma_mark_start(s, i);
        }
    } else {
        assert(bytes_before(s, 0) == 0);
    }
}

/// As long as the reader is inside of a byte order mark, the line begins where it is.
proof fn lemma_mark_start(s: Seq<char>, i: int)
    requires
        0 <= i <= s.len(),
    ensures
        reader_at(s, i).mark < 3 ==> reader_at(s, i).start == bytes_before(s, i),
        i > 0 && reader_at(s, i - 1).mark < 3 && s[i - 1] == mark_char(reader_at(s, i - 1).mark)
            ==> reader_at(s, i).start == bytes_before(s, i),
    decreases i,
{
    if i > 0 {
        lemma_mark_start(s, i - 1);
    }
}
} // verus!
