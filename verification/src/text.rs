//! Text as a sequence of characters: trimming, splitting, searching, numbers.

use vstd::prelude::*;

verus! {

// ---------------------------------------------------------------------------
// Conversions between strings and vectors of characters
// ---------------------------------------------------------------------------

/// `String::push` of the standard library appends one character at the end.
pub assume_specification[ String::push ](s: &mut String, c: char)
    ensures
        final(s)@ == old(s)@.push(c),
;

/// The characters of a string, in order.
pub fn chars_of(s: &str) -> (r: Vec<char>)
    ensures
        r@ == s@,
{
    let mut r: Vec<char> = Vec::new();
    for c in it: s.chars()
        invariant
            it.seq() == s@,
            r@ == s@.take(it.index() as int),
    {
        r.push(c);
        assert(s@.take(it.index() + 1) =~= s@.take(it.index() as int).push(c));
    }
    assert(s@.take(s@.len() as int) =~= s@);
    r
}

/// The string that holds `v[from..to]`.
pub fn string_from(v: &Vec<char>, from: usize, to: usize) -> (r: String)
    requires
        from <= to <= v@.len(),
    ensures
        r@ == v@.subrange(from as int, to as int),
{
    let mut r = String::new();
    let mut i: usize = from;
    while i < to
        invariant
            from <= i <= to <= v@.len(),
            r@ == v@.subrange(from as int, i as int),
        decreases to - i,
    {
        r.push(v[i]);
        i = i + 1;
        assert(v@.subrange(from as int, i as int) =~= v@.subrange(from as int, i - 1).push(v@[i - 1]));
    }
    r
}

/// The views of a sequence of strings.
pub open spec fn views(v: Seq<String>) -> Seq<Seq<char>> {
    v.map_values(|s: String| s@)
}

/// The view of an optional string.
pub open spec fn opt_view(o: Option<String>) -> Option<Seq<char>> {
    match o {
        Some(s) => Some(s@),
        None => None,
    }
}

/// A copy of an optional string.
pub fn opt_clone(o: &Option<String>) -> (r: Option<String>)
    ensures
        r == *o,
{
    match o {
        Some(s) => Some(s.clone()),
        None => None,
    }
}

/// A copy of a list of strings.
pub fn strings_clone(v: &Vec<String>) -> (r: Vec<String>)
    ensures
        r@ == v@,
{
    let mut r: Vec<String> = Vec::new();
    let mut i: usize = 0;
    while i < v.len()
        invariant
            i <= v@.len(),
            r@ == v@.take(i as int),
        decreases v@.len() - i,
    {
        r.push(v[i].clone());
        i = i + 1;
        assert(v@.take(i as int) =~= v@.take(i - 1).push(v@[i - 1]));
    }
    assert(v@.take(v@.len() as int) =~= v@);
    r
}

/// Whether two strings hold the same characters.
pub fn same_text(a: &str, b: &str) -> (r: bool)
    ensures
        r == (a@ == b@),
{
    let x = a.to_owned();
    let y = b.to_owned();
    x == y
}

/// Whether a list holds a given text.
pub fn holds_text(v: &Vec<String>, s: &str) -> (r: bool)
    ensures
        r == views(v@).contains(s@),
{
    let mut i: usize = 0;
    while i < v.len()
        invariant
            i <= v@.len(),
            forall|j: int| 0 <= j < i ==> v@[j]@ != s@,
        decreases v@.len() - i,
    {
        if same_text(v[i].as_str(), s) {
            assert(views(v@)[i as int] == s@);
            return true;
        }
        i = i + 1;
    }
    assert forall|j: int| 0 <= j < views(v@).len() implies views(v@)[j] != s@ by {
        assert(views(v@)[j] == v@[j]@);
    }
    false
}

// ---------------------------------------------------------------------------
// White space
// ---------------------------------------------------------------------------

/// The characters with the Unicode property `White_Space`.
pub open spec fn is_space(c: char) -> bool {
    ||| '\u{9}' <= c && c <= '\u{d}'
    ||| c == '\u{20}'
    ||| c == '\u{85}'
    ||| c == '\u{a0}'
    ||| c == '\u{1680}'
    ||| '\u{2000}' <= c && c <= '\u{200a}'
    ||| c == '\u{2028}'
    ||| c == '\u{2029}'
    ||| c == '\u{202f}'
    ||| c == '\u{205f}'
    ||| c == '\u{3000}'
}

/// Whether `c` is white space.
pub fn char_is_space(c: char) -> (r: bool)
    ensures
        r == is_space(c),
{
    ('\u{9}' <= c && c <= '\u{d}') || c == '\u{20}' || c == '\u{85}' || c == '\u{a0}' || c
        == '\u{1680}' || ('\u{2000}' <= c && c <= '\u{200a}') || c == '\u{2028}' || c == '\u{2029}'
        || c == '\u{202f}' || c == '\u{205f}' || c == '\u{3000}'
}

/// `s` without its leading white space.
pub open spec fn trim_start(s: Seq<char>) -> Seq<char>
    decreases s.len(),
{
    if s.len() > 0 && is_space(s[0]) {
        trim_start(s.drop_first())
    } else {
        s
    }
}

/// `s` without its trailing white space.
pub open spec fn trim_end(s: Seq<char>) -> Seq<char>
    decreases s.len(),
{
    if s.len() > 0 && is_space(s.last()) {
        trim_end(s.drop_last())
    } else {
        s
    }
}

/// `s` without the white space at either end.
pub open spec fn trim(s: Seq<char>) -> Seq<char> {
    trim_end(trim_start(s))
}

/// Text that begins with something else than white space is kept whole behind
/// text that is trimmed at its start.
pub proof fn lemma_trim_start_before(a: Seq<char>, b: Seq<char>)
    requires
        b.len() > 0,
        !is_space(b[0]),
    ensures
        trim_start(a + b) == trim_start(a) + b,
    decreases a.len(),
{
    if a.len() == 0 {
        assert(a + b =~= b);
        assert(trim_start(a) + b =~= b);
    } else if is_space(a[0]) {
        assert((a + b).drop_first() =~= a.drop_first() + b);
        lemma_trim_start_before(a.drop_first(), b);
    }
}

/// White space behind text that ends with something else is trimmed away.
pub proof fn lemma_trim_end_after(a: Seq<char>, b: Seq<char>)
    requires
        a.len() > 0,
        !is_space(a.last()),
        forall|i: int| 0 <= i < b.len() ==> is_space(#[trigger] b[i]),
    ensures
        trim_end(a + b) == a,
    decreases b.len(),
{
    if b.len() == 0 {
        assert(a + b =~= a);
    } else {
        assert((a + b).drop_last() =~= a + b.drop_last());
        lemma_trim_end_after(a, b.drop_last());
    }
}

/// What is left after trimming the start is the end of the text, and does not
/// begin with white space.
pub proof fn lemma_trim_start_suffix(s: Seq<char>)
    ensures
        trim_start(s).len() <= s.len(),
        trim_start(s) == s.skip(s.len() - trim_start(s).len()),
        trim_start(s).len() > 0 ==> !is_space(trim_start(s)[0]),
    decreases s.len(),
{
    if s.len() > 0 && is_space(s[0]) {
        lemma_trim_start_suffix(s.drop_first());
        assert(trim_start(s) =~= s.skip(s.len() - trim_start(s).len()));
    } else {
        assert(s.skip(0) =~= s);
    }
}

/// Text that ends with something else than white space is kept whole before text
/// that is trimmed at its end.
pub proof fn lemma_trim_end_behind(a: Seq<char>, b: Seq<char>)
    requires
        a.len() > 0,
        !is_space(a.last()),
    ensures
        trim_end(a + b) == a + trim_end(b),
    decreases b.len(),
{
    if b.len() == 0 {
        assert(a + b =~= a);
        assert(a + trim_end(b) =~= a);
    } else if is_space(b.last()) {
        assert((a + b).drop_last() =~= a + b.drop_last());
        lemma_trim_end_behind(a, b.drop_last());
    }
}

/// White space alone is trimmed away.
proof fn lemma_trim_blank(s: Seq<char>)
    requires
        forall|i: int| 0 <= i < s.len() ==> is_space(#[trigger] s[i]),
    ensures
        trim_start(s) == Seq::<char>::empty(),
    decreases s.len(),
{
    if s.len() > 0 {
        assert forall|i: int| 0 <= i < s.drop_first().len() implies is_space(
            #[trigger] s.drop_first()[i],
        ) by {
            assert(is_space(s[i + 1]));
        }
        lemma_trim_blank(s.drop_first());
    } else {
        assert(s =~= Seq::empty());
    }
}

/// Trimming takes away the white space around a text, whatever it is, and nothing of
/// the text; white space alone leaves nothing.
pub proof fn law_trim_takes_white_space_away(before: Seq<char>, s: Seq<char>, after: Seq<char>)
    requires
        forall|i: int| 0 <= i < before.len() ==> is_space(#[trigger] before[i]),
        forall|i: int| 0 <= i < after.len() ==> is_space(#[trigger] after[i]),
        s.len() > 0 ==> !is_space(s[0]) && !is_space(s.last()),
    ensures
        trim(before + s + after) == s,
{
    lemma_trim_blank(before);
    if s.len() == 0 {
        let all = before + s + after;
        assert forall|i: int| 0 <= i < all.len() implies is_space(#[trigger] all[i]) by {
            if i < before.len() {
                assert(is_space(before[i]));
            } else {
                assert(is_space(after[i - before.len()]));
            }
        }
        lemma_trim_blank(all);
        assert(s =~= Seq::empty());
    } else {
        assert(before + s + after =~= before + (s + after));
        lemma_trim_start_before(before, s + after);
        assert(Seq::<char>::empty() + (s + after) =~= s + after);
        lemma_trim_end_after(s, after);
    }
}

/// Among the characters of ASCII, white space are the space and those from the tab to
/// the carriage return.
pub proof fn law_ascii_white_space(c: char)
    requires
        (c as u32) < 128,
    ensures
        is_space(c) == (c == ' ' || '\t' <= c <= '\r'),
{
}

/// Where the trimmed part of `v` begins and ends.
pub fn trim_range(v: &Vec<char>) -> (r: (usize, usize))
    ensures
        r.0 <= r.1 <= v@.len(),
        v@.subrange(r.0 as int, r.1 as int) == trim(v@),
{
    let mut i: usize = 0;
    assert(v@.skip(0) =~= v@);
    while i < v.len() && char_is_space(v[i])
        invariant
            i <= v@.len(),
            trim_start(v@) == trim_start(v@.skip(i as int)),
        decreases v@.len() - i,
    {
        assert(v@.skip(i as int).drop_first() =~= v@.skip(i + 1));
        i = i + 1;
    }
    assert(trim_start(v@) == v@.skip(i as int));
    let mut j: usize = v.len();
    assert(v@.subrange(i as int, j as int) =~= v@.skip(i as int));
    while i < j && char_is_space(v[j - 1])
        invariant
            i <= j <= v@.len(),
            trim_end(v@.skip(i as int)) == trim_end(v@.subrange(i as int, j as int)),
        decreases j - i,
    {
        assert(v@.subrange(i as int, j as int).drop_last() =~= v@.subrange(i as int, j - 1));
        j = j - 1;
    }
    (i, j)
}

/// The text without the white space at either end.
pub fn trim_text(s: &str) -> (r: String)
    ensures
        r@ == trim(s@),
{
    let v = chars_of(s);
    let (i, j) = trim_range(&v);
    string_from(&v, i, j)
}

/// Whether the text is empty or all white space.
pub fn is_blank(s: &str) -> (r: bool)
    ensures
        r == (trim(s@).len() == 0),
{
    let v = chars_of(s);
    let (i, j) = trim_range(&v);
    i == j
}

// ---------------------------------------------------------------------------
// Splitting and joining
// ---------------------------------------------------------------------------

/// `s` cut at every character for which `cut` holds; there is one piece more
/// than there are such characters.
pub open spec fn pieces(s: Seq<char>, cut: spec_fn(char) -> bool) -> Seq<Seq<char>>
    decreases s.len(),
{
    if s.len() == 0 {
        seq![Seq::empty()]
    } else {
        let before = pieces(s.drop_last(), cut);
        if cut(s.last()) {
            before.push(Seq::empty())
        } else {
            before.drop_last().push(before.last().push(s.last()))
        }
    }
}

/// The members of `parts` that are not empty, in order.
pub open spec fn nonempty(parts: Seq<Seq<char>>) -> Seq<Seq<char>>
    decreases parts.len(),
{
    if parts.len() == 0 {
        Seq::empty()
    } else {
        let before = nonempty(parts.drop_last());
        if parts.last().len() > 0 {
            before.push(parts.last())
        } else {
            before
        }
    }
}

/// Each member of `parts` without the white space at its ends.
pub open spec fn trim_all(parts: Seq<Seq<char>>) -> Seq<Seq<char>> {
    parts.map_values(|p: Seq<char>| trim(p))
}

/// The maximal runs of characters that are not white space.
pub open spec fn words(s: Seq<char>) -> Seq<Seq<char>> {
    nonempty(pieces(s, |c: char| is_space(c)))
}

/// The members of `parts` in order, with `sep` between neighbours.
pub open spec fn join(parts: Seq<Seq<char>>, sep: Seq<char>) -> Seq<char>
    decreases parts.len(),
{
    if parts.len() == 0 {
        Seq::empty()
    } else if parts.len() == 1 {
        parts[0]
    } else {
        join(parts.drop_last(), sep) + sep + parts.last()
    }
}

/// The words of `s`, with one space between neighbours.
pub open spec fn squeeze(s: Seq<char>) -> Seq<char> {
    join(words(s), " "@)
}

/// There is always at least one piece.
pub proof fn lemma_pieces_nonempty(s: Seq<char>, cut: spec_fn(char) -> bool)
    ensures
        pieces(s, cut).len() >= 1,
    decreases s.len(),
{
    if s.len() > 0 {
        lemma_pieces_nonempty(s.drop_last(), cut);
    }
}

/// The maximal runs of characters that are not white space, in order.
pub fn words_of(s: &str) -> (r: Vec<String>)
    ensures
        views(r@) == words(s@),
{
    let v = chars_of(s);
    let ghost cut = |c: char| is_space(c);
    let mut r: Vec<String> = Vec::new();
    let mut start: usize = 0;
    let mut i: usize = 0;
    assert(v@.take(0).len() == 0);
    assert(v@.subrange(0, 0) =~= Seq::<char>::empty());
    assert(pieces(v@.take(0), cut).drop_last() =~= Seq::<Seq<char>>::empty());
    assert(views(r@) =~= Seq::<Seq<char>>::empty());
    while i < v.len()
        invariant
            start <= i <= v@.len(),
            cut == (|c: char| is_space(c)),
            pieces(v@.take(i as int), cut).len() >= 1,
            pieces(v@.take(i as int), cut).last() == v@.subrange(start as int, i as int),
            views(r@) == nonempty(pieces(v@.take(i as int), cut).drop_last()),
        decreases v@.len() - i,
    {
        let ghost before = pieces(v@.take(i as int), cut);
        assert(v@.take(i + 1).drop_last() =~= v@.take(i as int));
        assert(v@.take(i + 1).last() == v@[i as int]);
        if char_is_space(v[i]) {
            let ghost old_r = r@;
            assert(pieces(v@.take(i + 1), cut).drop_last() =~= before);
            if start < i {
                r.push(string_from(&v, start, i));
                assert(views(r@) =~= views(old_r).push(before.last()));
            } else {
                assert(before.last().len() == 0);
            }
            start = i + 1;
            assert(v@.subrange(start as int, i + 1) =~= Seq::<char>::empty());
        } else {
            assert(pieces(v@.take(i + 1), cut).drop_last() =~= before.drop_last());
            assert(v@.subrange(start as int, i + 1) =~= v@.subrange(start as int, i as int).push(
                v@[i as int],
            ));
        }
        i = i + 1;
    }
    assert(v@.take(v@.len() as int) =~= v@);
    if start < v.len() {
        let ghost old_r = r@;
        r.push(string_from(&v, start, v.len()));
        assert(views(r@) =~= views(old_r).push(v@.subrange(start as int, v@.len() as int)));
    }
    r
}

/// The parts in order, with `sep` between neighbours.
pub fn join_strings(parts: &Vec<String>, sep: &str) -> (r: String)
    ensures
        r@ == join(views(parts@), sep@),
{
    let mut r = String::new();
    let mut i: usize = 0;
    assert(views(parts@).take(0) =~= Seq::<Seq<char>>::empty());
    while i < parts.len()
        invariant
            i <= parts@.len(),
            r@ == join(views(parts@).take(i as int), sep@),
        decreases parts@.len() - i,
    {
        let ghost all = views(parts@);
        assert(all.take(i + 1).drop_last() =~= all.take(i as int));
        assert(all.take(i + 1).last() == parts@[i as int]@);
        if i > 0 {
            r.append(sep);
        } else {
            assert(r@ =~= Seq::<char>::empty());
        }
        r.append(parts[i].as_str());
        i = i + 1;
        assert(r@ =~= join(all.take(i as int), sep@));
    }
    assert(views(parts@).take(parts@.len() as int) =~= views(parts@));
    r
}

/// The words of the text, with one space between neighbours.
pub fn squeeze_text(s: &str) -> (r: String)
    ensures
        r@ == squeeze(s@),
{
    let w = words_of(s);
    join_strings(&w, " ")
}

/// The parts of a comma-separated list, trimmed, without the empty ones.
pub open spec fn comma_list(s: Seq<char>) -> Seq<Seq<char>> {
    nonempty(trim_all(pieces(s, |c: char| c == ',')))
}

/// The parts of a comma-separated list, trimmed, without the empty ones.
pub fn comma_list_of(s: &str) -> (r: Vec<String>)
    ensures
        views(r@) == comma_list(s@),
{
    let v = chars_of(s);
    let ghost cut = |c: char| c == ',';
    let mut r: Vec<String> = Vec::new();
    let mut start: usize = 0;
    let mut i: usize = 0;
    assert(v@.take(0).len() == 0);
    assert(v@.subrange(0, 0) =~= Seq::<char>::empty());
    assert(pieces(v@.take(0), cut).drop_last() =~= Seq::<Seq<char>>::empty());
    assert(trim_all(Seq::<Seq<char>>::empty()) =~= Seq::<Seq<char>>::empty());
    assert(views(r@) =~= Seq::<Seq<char>>::empty());
    while i < v.len()
        invariant
            start <= i <= v@.len(),
            cut == (|c: char| c == ','),
            pieces(v@.take(i as int), cut).len() >= 1,
            pieces(v@.take(i as int), cut).last() == v@.subrange(start as int, i as int),
            views(r@) == nonempty(trim_all(pieces(v@.take(i as int), cut).drop_last())),
        decreases v@.len() - i,
    {
        let ghost before = pieces(v@.take(i as int), cut);
        assert(v@.take(i + 1).drop_last() =~= v@.take(i as int));
        assert(v@.take(i + 1).last() == v@[i as int]);
        if v[i] == ',' {
            let ghost old_r = r@;
            assert(pieces(v@.take(i + 1), cut).drop_last() =~= before);
            proof {
                lemma_trim_all_last(before);
            }
            push_trimmed(&mut r, &v, start, i);
            start = i + 1;
            assert(v@.subrange(start as int, i + 1) =~= Seq::<char>::empty());
        } else {
            assert(pieces(v@.take(i + 1), cut).drop_last() =~= before.drop_last());
            assert(v@.subrange(start as int, i + 1) =~= v@.subrange(start as int, i as int).push(
                v@[i as int],
            ));
        }
        i = i + 1;
    }
    assert(v@.take(v@.len() as int) =~= v@);
    proof {
        lemma_trim_all_last(pieces(v@, cut));
    }
    let len = v.len();
    push_trimmed(&mut r, &v, start, len);
    r
}

proof fn lemma_trim_all_last(parts: Seq<Seq<char>>)
    requires
        parts.len() >= 1,
    ensures
        trim_all(parts).len() == parts.len(),
        trim_all(parts).last() == trim(parts.last()),
        trim_all(parts).drop_last() == trim_all(parts.drop_last()),
{
    assert(trim_all(parts).drop_last() =~= trim_all(parts.drop_last()));
}

/// Appends `v[from..to]`, trimmed, unless nothing is left of it.
fn push_trimmed(r: &mut Vec<String>, v: &Vec<char>, from: usize, to: usize)
    requires
        from <= to <= v@.len(),
    ensures
        views(final(r)@) == (if trim(v@.subrange(from as int, to as int)).len() > 0 {
            views(old(r)@).push(trim(v@.subrange(from as int, to as int)))
        } else {
            views(old(r)@)
        }),
{
    let piece = string_from(v, from, to);
    let trimmed = trim_text(piece.as_str());
    if !trimmed.as_str().is_empty() {
        r.push(trimmed);
        assert(views(r@) =~= views(old(r)@).push(trim(v@.subrange(from as int, to as int))));
    }
}

/// The first line of `s` that is not blank, without its line ending.
///
/// A line ends at `\n` or `\r\n`; the end of the text ends the last line.
pub open spec fn first_nonblank_line(s: Seq<char>) -> Option<Seq<char>> {
    nonblank_piece(pieces(s, |c: char| c == '\n'), 0)
}

/// The first of `parts[from..]` that is not blank; a part that a further one
/// follows loses one `\r` at its end.
pub open spec fn nonblank_piece(parts: Seq<Seq<char>>, from: int) -> Option<Seq<char>>
    decreases parts.len() - from,
{
    if from < 0 || from >= parts.len() {
        None
    } else if trim(parts[from]).len() > 0 {
        if from + 1 < parts.len() && parts[from].len() > 0 && parts[from].last() == '\r' {
            Some(parts[from].drop_last())
        } else {
            Some(parts[from])
        }
    } else {
        nonblank_piece(parts, from + 1)
    }
}

/// The first `n` characters of `s`, or all of them.
pub open spec fn prefix(s: Seq<char>, n: nat) -> Seq<char> {
    if s.len() <= n {
        s
    } else {
        s.take(n as int)
    }
}

/// The first `n` characters of the text, or all of them.
pub fn prefix_text(s: &str, n: usize) -> (r: String)
    ensures
        r@ == prefix(s@, n as nat),
{
    let v = chars_of(s);
    let end: usize = if v.len() <= n {
        v.len()
    } else {
        n
    };
    assert(v@.subrange(0, end as int) =~= prefix(s@, n as nat));
    string_from(&v, 0, end)
}

/// The first line of the text that is not blank, without its line ending.
pub fn first_nonblank_line_of(s: &str) -> (r: Option<String>)
    ensures
        opt_view(r) == first_nonblank_line(s@),
{
    let v = chars_of(s);
    let ghost cut = |c: char| c == '\n';
    let ghost parts = pieces(v@, cut);
    let mut start: usize = 0;
    let ghost mut n: int = 0;
    proof {
        lemma_piece_at(v@, cut, 0, 0);
    }
    loop
        invariant
            start <= v@.len(),
            cut == (|c: char| c == '\n'),
            parts == pieces(v@, cut),
            0 <= n < parts.len(),
            piece_starts(v@, cut, n, start as int),
            v@ == s@,
            nonblank_piece(parts, n) == first_nonblank_line(s@),
        decreases v@.len() - start,
    {
        let mut end: usize = start;
        while end < v.len() && v[end] != '\n'
            invariant
                start <= end <= v@.len(),
                forall|k: int| start <= k < end ==> v@[k] != '\n',
            decreases v@.len() - end,
        {
            end = end + 1;
        }
        proof {
            lemma_piece_between(v@, cut, n, start as int, end as int);
        }
        let line = string_from(&v, start, end);
        if !is_blank(line.as_str()) {
            if end < v.len() && start < end && v[end - 1] == '\r' {
                let cut_line = string_from(&v, start, end - 1);
                assert(v@.subrange(start as int, end as int).drop_last() =~= v@.subrange(
                    start as int,
                    end - 1,
                ));
                assert(v@.subrange(start as int, end as int).last() == '\r');
                return Some(cut_line);
            }
            assert(start < end ==> v@.subrange(start as int, end as int).last() == v@[end - 1]);
            return Some(line);
        }
        if end >= v.len() {
            assert(nonblank_piece(parts, n + 1) is None);
            return None;
        }
        start = end + 1;
        proof {
            n = n + 1;
        }
    }
}

/// The piece number `n` of `s` begins at `at`: `n` cuts come before, the last
/// of them right before `at`.
pub open spec fn piece_starts(s: Seq<char>, cut: spec_fn(char) -> bool, n: int, at: int) -> bool {
    &&& 0 <= at <= s.len()
    &&& pieces(s.take(at), cut).len() == n + 1
    &&& pieces(s.take(at), cut).last().len() == 0
}

/// Text after a prefix leaves all pieces of the prefix but its last as they are.
pub proof fn lemma_pieces_grow(s: Seq<char>, cut: spec_fn(char) -> bool, at: int)
    requires
        0 <= at <= s.len(),
    ensures
        pieces(s, cut).len() >= pieces(s.take(at), cut).len() >= 1,
        forall|k: int|
            0 <= k < pieces(s.take(at), cut).len() - 1 ==> pieces(s, cut)[k] == pieces(
                s.take(at),
                cut,
            )[k],
    decreases s.len() - at,
{
    lemma_pieces_nonempty(s.take(at), cut);
    if at < s.len() {
        lemma_pieces_grow(s, cut, at + 1);
        assert(s.take(at + 1).drop_last() =~= s.take(at));
        assert(s.take(at + 1).last() == s[at]);
        let p = pieces(s.take(at), cut);
        let q = pieces(s.take(at + 1), cut);
        assert forall|k: int| 0 <= k < p.len() - 1 implies pieces(s, cut)[k] == p[k] by {
            assert(q[k] == p[k]);
        }
    } else {
        assert(s.take(at) =~= s);
    }
}

proof fn lemma_piece_at(s: Seq<char>, cut: spec_fn(char) -> bool, n: int, at: int)
    requires
        n == 0,
        at == 0,
    ensures
        piece_starts(s, cut, n, at),
        pieces(s, cut).len() >= 1,
{
    assert(s.take(0).len() == 0);
    lemma_pieces_nonempty(s, cut);
}

/// A stretch without a cut is one piece.
proof fn lemma_piece_run(s: Seq<char>, cut: spec_fn(char) -> bool, n: int, start: int, end: int)
    requires
        piece_starts(s, cut, n, start),
        start <= end <= s.len(),
        forall|k: int| start <= k < end ==> !cut(s[k]),
    ensures
        pieces(s.take(end), cut).len() == n + 1,
        pieces(s.take(end), cut).last() == s.subrange(start, end),
    decreases end - start,
{
    if start < end {
        lemma_piece_run(s, cut, n, start, end - 1);
        assert(s.take(end).drop_last() =~= s.take(end - 1));
        assert(s.take(end).last() == s[end - 1]);
        assert(s.subrange(start, end) =~= s.subrange(start, end - 1).push(s[end - 1]));
    } else {
        assert(s.subrange(start, end) =~= Seq::<char>::empty());
        assert(pieces(s.take(end), cut).last() =~= Seq::<char>::empty());
    }
}

proof fn lemma_piece_between(s: Seq<char>, cut: spec_fn(char) -> bool, n: int, start: int, end: int)
    requires
        piece_starts(s, cut, n, start),
        start <= end <= s.len(),
        forall|k: int| start <= k < end ==> !cut(s[k]),
        end < s.len() ==> cut(s[end]),
    ensures
        0 <= n < pieces(s, cut).len(),
        pieces(s, cut)[n] == s.subrange(start, end),
        end < s.len() ==> n + 1 < pieces(s, cut).len() && piece_starts(s, cut, n + 1, end + 1),
        end == s.len() ==> n + 1 == pieces(s, cut).len(),
{
    lemma_piece_run(s, cut, n, start, end);
    if end < s.len() {
        assert(s.take(end + 1).drop_last() =~= s.take(end));
        assert(s.take(end + 1).last() == s[end]);
        lemma_pieces_grow(s, cut, end + 1);
        assert(pieces(s.take(end + 1), cut)[n] == pieces(s.take(end), cut).last());
    } else {
        assert(s.take(end) =~= s);
    }
}

// ---------------------------------------------------------------------------
// Searching
// ---------------------------------------------------------------------------

/// `p` stands in `s` at position `i`.
pub open spec fn occurs_at(s: Seq<char>, p: Seq<char>, i: int) -> bool {
    0 <= i && i + p.len() <= s.len() && s.subrange(i, i + p.len()) == p
}

/// `p` stands somewhere in `s`.
pub open spec fn contains(s: Seq<char>, p: Seq<char>) -> bool {
    exists|i: int| occurs_at(s, p, i)
}

/// The first position, from `from` on, at which `p` stands in `s`.
pub open spec fn find_from(s: Seq<char>, p: Seq<char>, from: int) -> Option<int>
    decreases s.len() + 1 - from,
{
    if from < 0 || from + p.len() > s.len() {
        None
    } else if occurs_at(s, p, from) {
        Some(from)
    } else {
        find_from(s, p, from + 1)
    }
}

/// The first position at which `p` stands in `s`.
pub open spec fn find(s: Seq<char>, p: Seq<char>) -> Option<int> {
    find_from(s, p, 0)
}

/// What `find_from` gives is a position of `p`, and no earlier one is.
pub proof fn lemma_find_from(s: Seq<char>, p: Seq<char>, from: int)
    requires
        0 <= from,
    ensures
        match find_from(s, p, from) {
            Some(i) => from <= i && occurs_at(s, p, i) && forall|j: int|
                from <= j < i ==> !#[trigger] occurs_at(s, p, j),
            None => forall|j: int| from <= j ==> !#[trigger] occurs_at(s, p, j),
        },
    decreases s.len() + 1 - from,
{
    if from + p.len() <= s.len() && !occurs_at(s, p, from) {
        lemma_find_from(s, p, from + 1);
    }
}

/// A position that has no earlier one is what `find_from` gives.
pub proof fn lemma_find_is(s: Seq<char>, p: Seq<char>, from: int, i: int)
    requires
        0 <= from <= i,
        occurs_at(s, p, i),
        forall|j: int| from <= j < i ==> !#[trigger] occurs_at(s, p, j),
    ensures
        find_from(s, p, from) == Some(i),
{
    lemma_find_from(s, p, from);
}

/// Whether `p` stands in `s` at position `i`.
fn occurs_here(s: &Vec<char>, p: &Vec<char>, i: usize) -> (r: bool)
    requires
        i + p@.len() <= s@.len(),
    ensures
        r == occurs_at(s@, p@, i as int),
{
    let len: usize = s.len();
    let mut k: usize = 0;
    while k < p.len()
        invariant
            k <= p@.len(),
            i + p@.len() <= s@.len() == len,
            forall|j: int| 0 <= j < k ==> s@[i + j] == p@[j],
        decreases p@.len() - k,
    {
        if s[i + k] != p[k] {
            assert(s@.subrange(i as int, i + p@.len())[k as int] != p@[k as int]);
            return false;
        }
        k = k + 1;
    }
    assert(s@.subrange(i as int, i + p@.len()) =~= p@);
    true
}

/// The first position, from `from` on, at which `p` stands in `s`.
pub fn find_chars(s: &Vec<char>, p: &Vec<char>, from: usize) -> (r: Option<usize>)
    ensures
        match r {
            Some(i) => find_from(s@, p@, from as int) == Some(i as int) && from <= i && i + p@.len()
                <= s@.len(),
            None => find_from(s@, p@, from as int) is None,
        },
{
    let mut i: usize = from;
    while p.len() <= s.len() && i <= s.len() - p.len()
        invariant
            from <= i,
            find_from(s@, p@, from as int) == find_from(s@, p@, i as int),
        decreases s@.len() + 1 - i,
    {
        if occurs_here(s, p, i) {
            return Some(i);
        }
        if i == usize::MAX {
            assert(find_from(s@, p@, i + 1) is None);
            return None;
        }
        i = i + 1;
    }
    None
}

/// The last position of the character `c` in `s`.
pub open spec fn last_at(s: Seq<char>, c: char) -> Option<int>
    decreases s.len(),
{
    if s.len() == 0 {
        None
    } else if s.last() == c {
        Some(s.len() - 1)
    } else {
        last_at(s.drop_last(), c)
    }
}

/// The first position of the character `c` in `s`, and the last one.
pub fn char_span(s: &Vec<char>, c: char) -> (r: Option<(usize, usize)>)
    ensures
        match r {
            Some((i, j)) => i <= j < s@.len() && find(s@, seq![c]) == Some(i as int) && last_at(
                s@,
                c,
            ) == Some(j as int),
            None => find(s@, seq![c]) is None && last_at(s@, c) is None,
        },
{
    let mut pattern: Vec<char> = Vec::new();
    pattern.push(c);
    assert(pattern@ =~= seq![c]);
    let first = find_chars(s, &pattern, 0);
    proof {
        lemma_find_from(s@, seq![c], 0);
        lemma_last_at(s@, c);
    }
    match first {
        None => {
            proof {
                if last_at(s@, c) is Some {
                    let j = last_at(s@, c)->0;
                    assert(s@.subrange(j, j + 1) =~= seq![c]);
                    assert(occurs_at(s@, seq![c], j));
                }
            }
            None
        },
        Some(i) => {
            assert(s@.subrange(i as int, i + 1)[0] == c);
            let mut j: usize = s.len();
            assert(s@.take(j as int) =~= s@);
            while s[j - 1] != c
                invariant
                    i < j <= s@.len(),
                    s@[i as int] == c,
                    last_at(s@, c) == last_at(s@.take(j as int), c),
                decreases j,
            {
                assert(s@.take(j as int).drop_last() =~= s@.take(j - 1));
                j = j - 1;
            }
            Some((i, j - 1))
        },
    }
}

/// What `last_at` gives is a position of `c`, and no later one is.
pub proof fn lemma_last_at(s: Seq<char>, c: char)
    ensures
        match last_at(s, c) {
            Some(i) => 0 <= i < s.len() && s[i] == c && forall|j: int| i < j < s.len() ==> s[j] != c,
            None => forall|j: int| 0 <= j < s.len() ==> s[j] != c,
        },
    decreases s.len(),
{
    if s.len() > 0 && s.last() != c {
        lemma_last_at(s.drop_last(), c);
        assert forall|j: int| 0 <= j < s.len() - 1 implies s[j] == s.drop_last()[j] by {}
    }
}

/// Whether `p` stands somewhere in `s`.
pub fn text_contains(s: &str, p: &str) -> (r: bool)
    ensures
        r == contains(s@, p@),
{
    let sv = chars_of(s);
    let pv = chars_of(p);
    let found = find_chars(&sv, &pv, 0);
    proof {
        lemma_find_from(s@, p@, 0);
        if found is Some {
            assert(occurs_at(s@, p@, found->0 as int));
        }
    }
    found.is_some()
}

/// A text holds whatever it has in its middle.
pub proof fn law_text_contains_its_middle(before: Seq<char>, p: Seq<char>, after: Seq<char>)
    ensures
        contains(before + p + after, p),
        starts_with(p + after, p),
        ends_with(before + p, p),
{
    let s = before + p + after;
    let at = before.len() as int;
    assert(s.subrange(at, at + p.len()) =~= p);
    assert(occurs_at(s, p, at));
    assert((p + after).subrange(0, p.len() as int) =~= p);
    assert((before + p).subrange(at, at + p.len()) =~= p);
}

/// What a text holds stands in it, character for character.
pub proof fn law_contained_text_stands_in_the_text(s: Seq<char>, p: Seq<char>)
    ensures
        contains(s, p) ==> exists|a: Seq<char>, b: Seq<char>| s == #[trigger] (a + p + b),
        starts_with(s, p) ==> s == p + s.skip(p.len() as int),
        ends_with(s, p) ==> s == s.take(s.len() - p.len()) + p,
{
    if contains(s, p) {
        let i = choose|i: int| occurs_at(s, p, i);
        let a = s.take(i);
        let b = s.skip(i + p.len());
        let o = s.subrange(i, i + p.len());
        assert(s =~= a + o + b);
        assert(s == a + p + b);
    }
    if starts_with(s, p) {
        assert(s =~= s.subrange(0, p.len() as int) + s.skip(p.len() as int));
    }
    if ends_with(s, p) {
        assert(s =~= s.take(s.len() - p.len()) + s.subrange(s.len() - p.len(), s.len() as int));
    }
}

/// `p` stands at the beginning of `s`.
pub open spec fn starts_with(s: Seq<char>, p: Seq<char>) -> bool {
    occurs_at(s, p, 0)
}

/// `p` stands at the end of `s`.
pub open spec fn ends_with(s: Seq<char>, p: Seq<char>) -> bool {
    occurs_at(s, p, s.len() - p.len())
}

/// The rest of the text behind `p`, if it begins with `p`.
pub fn strip_prefix_text(s: &str, p: &str) -> (r: Option<String>)
    ensures
        match r {
            Some(rest) => starts_with(s@, p@) && rest@ == s@.skip(p@.len() as int),
            None => !starts_with(s@, p@),
        },
{
    let sv = chars_of(s);
    let pv = chars_of(p);
    if pv.len() <= sv.len() && occurs_here(&sv, &pv, 0) {
        let rest = string_from(&sv, pv.len(), sv.len());
        assert(rest@ =~= s@.skip(p@.len() as int));
        Some(rest)
    } else {
        None
    }
}

/// Whether the text begins with `p`.
pub fn text_starts_with(s: &str, p: &str) -> (r: bool)
    ensures
        r == starts_with(s@, p@),
{
    strip_prefix_text(s, p).is_some()
}

/// Whether the text ends with `p`.
pub fn text_ends_with(s: &str, p: &str) -> (r: bool)
    ensures
        r == ends_with(s@, p@),
{
    let sv = chars_of(s);
    let pv = chars_of(p);
    pv.len() <= sv.len() && occurs_here(&sv, &pv, sv.len() - pv.len())
}

/// `s` without the characters `c` at its end.
pub open spec fn trim_end_char(s: Seq<char>, c: char) -> Seq<char>
    decreases s.len(),
{
    if s.len() > 0 && s.last() == c {
        trim_end_char(s.drop_last(), c)
    } else {
        s
    }
}

/// The text without the characters `c` at its end.
pub fn trim_end_char_text(s: &str, c: char) -> (r: String)
    ensures
        r@ == trim_end_char(s@, c),
{
    let v = chars_of(s);
    let mut j: usize = v.len();
    assert(v@.subrange(0, j as int) =~= v@);
    while 0 < j && v[j - 1] == c
        invariant
            j <= v@.len(),
            trim_end_char(v@, c) == trim_end_char(v@.subrange(0, j as int), c),
        decreases j,
    {
        assert(v@.subrange(0, j as int).drop_last() =~= v@.subrange(0, j - 1));
        j = j - 1;
    }
    string_from(&v, 0, j)
}

// ---------------------------------------------------------------------------
// Letter case
// ---------------------------------------------------------------------------

/// The lower-case form that `str::to_lowercase` gives a text.
pub uninterp spec fn lowercase(s: Seq<char>) -> Seq<char>;

/// Calls `str::to_lowercase` of the standard library. The result is a function
/// of the text alone: the lower-case mapping of Unicode, with no locale.
#[verifier::external_body]
pub(crate) fn lowercase_text(s: &str) -> (r: String)
    ensures
        r@ == lowercase(s@),
{
    s.to_lowercase()
}

/// The lower-case form of an ASCII letter; any other character as it is.
pub open spec fn ascii_lower(c: char) -> char {
    if 'A' <= c && c <= 'Z' {
        ((c as u8) + 32) as u8 as char
    } else {
        c
    }
}

/// Two texts are the same but for the case of ASCII letters.
pub open spec fn same_ignoring_ascii_case(a: Seq<char>, b: Seq<char>) -> bool {
    a.len() == b.len() && forall|i: int|
        0 <= i < a.len() ==> ascii_lower(#[trigger] a[i]) == ascii_lower(b[i])
}

fn char_ascii_lower(c: char) -> (r: char)
    ensures
        r == ascii_lower(c),
{
    if 'A' <= c && c <= 'Z' {
        ((c as u8) + 32) as char
    } else {
        c
    }
}

/// Whether two texts are the same but for the case of ASCII letters.
pub fn same_text_ignoring_ascii_case(a: &str, b: &str) -> (r: bool)
    ensures
        r == same_ignoring_ascii_case(a@, b@),
{
    let av = chars_of(a);
    let bv = chars_of(b);
    if av.len() != bv.len() {
        return false;
    }
    let mut i: usize = 0;
    while i < av.len()
        invariant
            i <= av@.len() == bv@.len(),
            av@ == a@,
            bv@ == b@,
            forall|k: int| 0 <= k < i ==> ascii_lower(#[trigger] av@[k]) == ascii_lower(bv@[k]),
        decreases av@.len() - i,
    {
        if char_ascii_lower(av[i]) != char_ascii_lower(bv[i]) {
            return false;
        }
        i = i + 1;
    }
    true
}

// ---------------------------------------------------------------------------
// Decimal numbers
// ---------------------------------------------------------------------------

/// The decimal digit of a number below ten.
pub open spec fn digit(d: int) -> char {
    if d == 0 {
        '0'
    } else if d == 1 {
        '1'
    } else if d == 2 {
        '2'
    } else if d == 3 {
        '3'
    } else if d == 4 {
        '4'
    } else if d == 5 {
        '5'
    } else if d == 6 {
        '6'
    } else if d == 7 {
        '7'
    } else if d == 8 {
        '8'
    } else {
        '9'
    }
}

/// The decimal digits of a number, without leading zeros.
pub open spec fn decimal(n: nat) -> Seq<char>
    decreases n,
{
    if n < 10 {
        seq![digit(n as int)]
    } else {
        decimal(n / 10).push(digit((n % 10) as int))
    }
}

/// The decimal form of an integer, with a minus sign where it is negative.
pub open spec fn signed_decimal(n: int) -> Seq<char> {
    if n < 0 {
        seq!['-'] + decimal((-n) as nat)
    } else {
        decimal(n as nat)
    }
}

fn digit_char(d: u64) -> (r: char)
    requires
        d < 10,
    ensures
        r == digit(d as int),
{
    if d == 0 {
        '0'
    } else if d == 1 {
        '1'
    } else if d == 2 {
        '2'
    } else if d == 3 {
        '3'
    } else if d == 4 {
        '4'
    } else if d == 5 {
        '5'
    } else if d == 6 {
        '6'
    } else if d == 7 {
        '7'
    } else if d == 8 {
        '8'
    } else {
        '9'
    }
}

/// The decimal digits of a number.
pub fn decimal_text(n: u64) -> (r: String)
    ensures
        r@ == decimal(n as nat),
    decreases n,
{
    if n < 10 {
        let mut r = String::new();
        r.push(digit_char(n));
        assert(r@ =~= seq![digit(n as int)]);
        r
    } else {
        let mut r = decimal_text(n / 10);
        r.push(digit_char(n % 10));
        r
    }
}

/// The decimal form of an integer.
pub fn signed_decimal_text(n: i64) -> (r: String)
    ensures
        r@ == signed_decimal(n as int),
{
    if n < 0 {
        let m: i128 = -(n as i128);
        let digits = decimal_text(m as u64);
        let sign = "-".to_owned();
        proof {
            reveal_strlit("-");
            assert("-"@ =~= seq!['-']);
        }
        sign.concat(digits.as_str())
    } else {
        decimal_text(n as u64)
    }
}

/// The value of a decimal digit.
pub open spec fn digit_value(c: char) -> Option<nat> {
    if '0' <= c && c <= '9' {
        Some((c as u32 - '0' as u32) as nat)
    } else {
        None
    }
}

/// The number that a sequence of decimal digits denotes; `None` where some
/// character is no digit. The empty sequence denotes zero.
pub open spec fn digits_value(s: Seq<char>) -> Option<nat>
    decreases s.len(),
{
    if s.len() == 0 {
        Some(0)
    } else {
        match (digits_value(s.drop_last()), digit_value(s.last())) {
            (Some(n), Some(d)) => Some(n * 10 + d),
            _ => None,
        }
    }
}

/// The number that a text denotes: an optional `+` and then at least one digit,
/// nothing else, and at most `max`.
pub open spec fn parse_unsigned(s: Seq<char>, max: nat) -> Option<nat> {
    let digits = if s.len() > 0 && s[0] == '+' {
        s.drop_first()
    } else {
        s
    };
    match digits_value(digits) {
        Some(n) => if digits.len() > 0 && n <= max {
            Some(n)
        } else {
            None
        },
        None => None,
    }
}

proof fn lemma_digits_none(s: Seq<char>, at: int)
    requires
        0 <= at <= s.len(),
        digits_value(s.take(at)) is None,
    ensures
        digits_value(s) is None,
    decreases s.len() - at,
{
    if at < s.len() {
        assert(s.take(at + 1).drop_last() =~= s.take(at));
        lemma_digits_none(s, at + 1);
    } else {
        assert(s.take(at) =~= s);
    }
}

proof fn lemma_digits_large(s: Seq<char>, at: int, max: nat)
    requires
        0 <= at <= s.len(),
        digits_value(s.take(at)) is Some,
        digits_value(s.take(at))->0 > max,
    ensures
        digits_value(s) matches Some(n) ==> n > max,
    decreases s.len() - at,
{
    if at < s.len() {
        assert(s.take(at + 1).drop_last() =~= s.take(at));
        if digits_value(s.take(at + 1)) is Some {
            lemma_digits_large(s, at + 1, max);
        } else {
            lemma_digits_none(s, at + 1);
        }
    } else {
        assert(s.take(at) =~= s);
    }
}

/// The number that a text denotes, as `parse_unsigned` says.
pub fn parse_unsigned_text(s: &str, max: u64) -> (r: Option<u64>)
    ensures
        match r {
            Some(n) => parse_unsigned(s@, max as nat) == Some(n as nat),
            None => parse_unsigned(s@, max as nat) is None,
        },
{
    let v = chars_of(s);
    let first: usize = if v.len() > 0 && v[0] == '+' {
        1
    } else {
        0
    };
    let ghost digits = v@.skip(first as int);
    assert(first == 0 ==> digits =~= v@);
    assert(first == 1 ==> digits =~= v@.drop_first());
    if first == v.len() {
        return None;
    }
    let mut n: u64 = 0;
    let mut i: usize = first;
    assert(digits.take(0).len() == 0);
    while i < v.len()
        invariant
            first <= i <= v@.len(),
            v@ == s@,
            digits == v@.skip(first as int),
            digits == (if s@.len() > 0 && s@[0] == '+' { s@.drop_first() } else { s@ }),
            digits_value(digits.take(i - first)) == Some(n as nat),
            n <= max,
        decreases v@.len() - i,
    {
        let c = v[i];
        let ghost here = i - first;
        assert(digits.take(here + 1).drop_last() =~= digits.take(here));
        assert(digits.take(here + 1).last() == c);
        if c < '0' || c > '9' {
            proof {
                lemma_digits_none(digits, here + 1);
            }
            return None;
        }
        let d: u64 = (c as u32 - '0' as u32) as u64;
        if d > max || n > (max - d) / 10 {
            proof {
                assert(n * 10 + d > max);
                lemma_digits_large(digits, here + 1, max as nat);
            }
            return None;
        }
        n = n * 10 + d;
        i = i + 1;
    }
    assert(digits.take(digits.len() as int) =~= digits);
    Some(n)
}

// ---------------------------------------------------------------------------
// Laws of texts
// ---------------------------------------------------------------------------

/// Of a list, exactly the texts that are not empty are kept, in order.
pub proof fn law_nonempty_is_a_filter(parts: Seq<Seq<char>>)
    ensures
        nonempty(parts) == parts.filter(|p: Seq<char>| p.len() > 0),
    decreases parts.len(),
{
    reveal(Seq::filter);
    if parts.len() > 0 {
        law_nonempty_is_a_filter(parts.drop_last());
    } else {
        assert(parts =~= Seq::empty());
    }
}

/// What is taken of two lists together is what is taken of one after the other.
pub proof fn lemma_filter_map_add<A, B>(a: Seq<A>, b: Seq<A>, f: spec_fn(A) -> Option<B>)
    ensures
        (a + b).filter_map(f) == a.filter_map(f) + b.filter_map(f),
    decreases b.len(),
{
    reveal(Seq::filter_map);
    if b.len() == 0 {
        assert(a + b =~= a);
        assert(a.filter_map(f) + b.filter_map(f) =~= a.filter_map(f));
    } else {
        lemma_filter_map_add(a, b.drop_last(), f);
        assert((a + b).drop_last() =~= a + b.drop_last());
        assert((a + b).filter_map(f) =~= a.filter_map(f) + b.filter_map(f));
    }
}

/// A text with a separator in it is cut into the pieces on its one side and then those
/// on its other; a text without a separator is one piece.
pub proof fn law_pieces(a: Seq<char>, c: char, b: Seq<char>, cut: spec_fn(char) -> bool)
    requires
        cut(c),
    ensures
        pieces(a + seq![c] + b, cut) == pieces(a, cut) + pieces(b, cut),
        (forall|i: int| 0 <= i < a.len() ==> !cut(#[trigger] a[i])) ==> pieces(a, cut) == seq![a],
    decreases b.len(),
{
    let s = a + seq![c] + b;
    if b.len() == 0 {
        assert(s.drop_last() =~= a);
        assert(s.last() == c);
        assert(pieces(s, cut) =~= pieces(a, cut) + pieces(b, cut));
    } else {
        law_pieces(a, c, b.drop_last(), cut);
        assert(s.drop_last() =~= a + seq![c] + b.drop_last());
        assert(s.last() == b.last());
        lemma_pieces_nonempty(b.drop_last(), cut);
        let p = pieces(a, cut);
        let q = pieces(b.drop_last(), cut);
        assert((p + q).last() == q.last());
        assert((p + q).drop_last() =~= p + q.drop_last());
        assert(pieces(s, cut) =~= p + pieces(b, cut));
    }
    if forall|i: int| 0 <= i < a.len() ==> !cut(#[trigger] a[i]) {
        lemma_one_piece(a, cut);
    }
}

proof fn lemma_one_piece(a: Seq<char>, cut: spec_fn(char) -> bool)
    requires
        forall|i: int| 0 <= i < a.len() ==> !cut(#[trigger] a[i]),
    ensures
        pieces(a, cut) == seq![a],
    decreases a.len(),
{
    if a.len() > 0 {
        let rest = a.drop_last();
        assert forall|i: int| 0 <= i < rest.len() implies !cut(#[trigger] rest[i]) by {
            assert(!cut(a[i]));
        }
        lemma_one_piece(rest, cut);
        assert(!cut(a[a.len() - 1]));
        assert(rest.push(a.last()) =~= a);
        assert(pieces(a, cut) =~= seq![a]);
    } else {
        assert(a =~= Seq::empty());
    }
}

/// White space parts the words before it from those behind it, and a text without
/// white space is one word, or none where it is empty.
pub proof fn law_words(a: Seq<char>, c: char, b: Seq<char>)
    requires
        is_space(c),
    ensures
        words(a + seq![c] + b) == words(a) + words(b),
        (forall|i: int| 0 <= i < a.len() ==> !is_space(#[trigger] a[i])) ==> words(a) == (if a.len()
            > 0 {
            seq![a]
        } else {
            Seq::empty()
        }),
{
    let cut = |c: char| is_space(c);
    law_pieces(a, c, b, cut);
    let p = pieces(a, cut);
    let q = pieces(b, cut);
    law_nonempty_is_a_filter(p + q);
    law_nonempty_is_a_filter(p);
    law_nonempty_is_a_filter(q);
    Seq::filter_distributes_over_add(p, q, |p: Seq<char>| p.len() > 0);
    if forall|i: int| 0 <= i < a.len() ==> !is_space(#[trigger] a[i]) {
        assert forall|i: int| 0 <= i < a.len() implies !cut(#[trigger] a[i]) by {
            assert(!is_space(a[i]));
        }
        reveal_with_fuel(nonempty, 2);
        lemma_one_piece(a, cut);
        assert(seq![a].drop_last() =~= Seq::empty());
        assert(words(a) =~= if a.len() > 0 {
            seq![a]
        } else {
            Seq::empty()
        });
    }
}

/// Joining puts the separator between two lists of texts, and leaves one text as it is.
pub proof fn law_join(a: Seq<Seq<char>>, b: Seq<Seq<char>>, sep: Seq<char>)
    ensures
        a.len() > 0 && b.len() > 0 ==> join(a + b, sep) == join(a, sep) + sep + join(b, sep),
        a.len() == 1 ==> join(a, sep) == a[0],
        a.len() == 0 ==> join(a, sep) == Seq::<char>::empty(),
    decreases b.len(),
{
    if a.len() > 0 && b.len() > 0 {
        let all = a + b;
        assert(all.drop_last() =~= a + b.drop_last());
        assert(all.last() == b.last());
        if b.len() == 1 {
            assert(a + b.drop_last() =~= a);
        } else {
            law_join(a, b.drop_last(), sep);
            assert(join(all, sep) =~= join(a, sep) + sep + join(b, sep));
        }
    }
}

/// Any white space between two texts with words is squeezed to one space; a text
/// without white space stays as it is.
pub proof fn law_squeeze(a: Seq<char>, c: char, b: Seq<char>)
    requires
        is_space(c),
    ensures
        squeeze(a + seq![c] + b) == (if squeeze(a).len() == 0 {
            squeeze(b)
        } else if squeeze(b).len() == 0 {
            squeeze(a)
        } else {
            squeeze(a) + " "@ + squeeze(b)
        }),
        (forall|i: int| 0 <= i < a.len() ==> !is_space(#[trigger] a[i])) ==> squeeze(a) == a,
{
    law_words(a, c, b);
    law_join(words(a), words(b), " "@);
    law_join(words(b), words(a), " "@);
    lemma_squeeze_empty(a);
    lemma_squeeze_empty(b);
    assert(Seq::<Seq<char>>::empty() + words(b) =~= words(b));
    assert(words(a) + Seq::<Seq<char>>::empty() =~= words(a));
    if words(a).len() == 0 {
        assert(words(a) =~= Seq::empty());
    }
    if words(b).len() == 0 {
        assert(words(b) =~= Seq::empty());
    }
    if forall|i: int| 0 <= i < a.len() ==> !is_space(#[trigger] a[i]) {
        if a.len() > 0 {
            assert(words(a)[0] == a);
        } else {
            assert(a =~= Seq::empty());
        }
    }
}

/// Just the text without words is squeezed to nothing.
proof fn lemma_squeeze_empty(s: Seq<char>)
    ensures
        squeeze(s).len() == 0 <==> words(s).len() == 0,
{
    let w = words(s);
    let cut = |c: char| is_space(c);
    law_nonempty_is_a_filter(pieces(s, cut));
    if w.len() > 0 {
        pieces(s, cut).lemma_filter_pred(|p: Seq<char>| p.len() > 0, 0);
        assert(w[0].len() > 0);
        if w.len() > 1 {
            assert(seq![w[0]] + w.drop_first() =~= w);
            law_join(seq![w[0]], w.drop_first(), " "@);
        }
    }
}

/// A comma parts the members of a list before it from those behind it; a text without a
/// comma is one member, trimmed, or none where it is blank.
pub proof fn law_comma_list(a: Seq<char>, b: Seq<char>)
    ensures
        comma_list(a + seq![','] + b) == comma_list(a) + comma_list(b),
        (forall|i: int| 0 <= i < a.len() ==> (#[trigger] a[i]) != ',') ==> comma_list(a) == (
        if trim(a).len() > 0 {
            seq![trim(a)]
        } else {
            Seq::empty()
        }),
{
    let cut = |c: char| c == ',';
    law_pieces(a, ',', b, cut);
    let p = pieces(a, cut);
    let q = pieces(b, cut);
    assert(trim_all(p + q) =~= trim_all(p) + trim_all(q));
    law_nonempty_is_a_filter(trim_all(p + q));
    law_nonempty_is_a_filter(trim_all(p));
    law_nonempty_is_a_filter(trim_all(q));
    Seq::filter_distributes_over_add(trim_all(p), trim_all(q), |p: Seq<char>| p.len() > 0);
    if forall|i: int| 0 <= i < a.len() ==> (#[trigger] a[i]) != ',' {
        lemma_one_piece(a, cut);
        assert(trim_all(seq![a]) =~= seq![trim(a)]);
        reveal_with_fuel(nonempty, 2);
        assert(seq![trim(a)].drop_last() =~= Seq::empty());
        assert(comma_list(a) =~= if trim(a).len() > 0 {
            seq![trim(a)]
        } else {
            Seq::empty()
        });
    }
}

/// The first line that is not blank is found behind blank lines, up to its end.
pub proof fn law_first_nonblank_line(blank: Seq<char>, line: Seq<char>, rest: Seq<char>)
    requires
        forall|i: int| 0 <= i < blank.len() ==> (#[trigger] blank[i]) != '\n',
        trim(blank).len() == 0,
        forall|i: int| 0 <= i < line.len() ==> (#[trigger] line[i]) != '\n',
        trim(line).len() > 0,
        line.last() != '\r',
    ensures
        first_nonblank_line(line) == Some(line),
        first_nonblank_line(line + seq!['\n'] + rest) == Some(line),
        first_nonblank_line(blank + seq!['\n'] + line + seq!['\n'] + rest) == Some(line),
        first_nonblank_line(blank) is None,
{
    let cut = |c: char| c == '\n';
    let nl = seq!['\n'];
    lemma_one_piece(line, cut);
    lemma_one_piece(blank, cut);
    lemma_pieces_nonempty(rest, cut);
    law_pieces(line, '\n', rest, cut);
    let all = blank + nl + line + nl + rest;
    assert(all =~= blank + nl + (line + nl + rest));
    law_pieces(blank, '\n', line + nl + rest, cut);
    reveal_with_fuel(nonblank_piece, 3);
    let one = pieces(line + nl + rest, cut);
    assert(one[0] == line);
    let two = pieces(all, cut);
    assert(two[0] == blank);
    assert(two[1] == line);
}

/// The beginning of a text is as long as asked for, as far as the text is.
pub proof fn law_prefix(s: Seq<char>, n: nat)
    ensures
        prefix(s, n).len() == (if s.len() <= n {
            s.len()
        } else {
            n
        }),
        forall|i: int| 0 <= i < prefix(s, n).len() ==> #[trigger] prefix(s, n)[i] == s[i],
{
}

/// A number that is written in decimal is read as the same number, where it may be as
/// large, and is not read where it may not; its sign may be written.
pub proof fn law_decimal_is_read_back(n: nat, max: nat)
    ensures
        digits_value(decimal(n)) == Some(n),
        parse_unsigned(decimal(n), max) == (if n <= max {
            Some(n)
        } else {
            None
        }),
        parse_unsigned(seq!['+'] + decimal(n), max) == parse_unsigned(decimal(n), max),
        decimal(n).len() > 0,
        n > 0 ==> decimal(n)[0] != '0',
        signed_decimal(n as int) == decimal(n),
        n > 0 ==> signed_decimal(-(n as int)) == seq!['-'] + decimal(n),
{
    lemma_decimal(n);
    let s = decimal(n);
    assert((seq!['+'] + s).drop_first() =~= s);
}

proof fn lemma_decimal(n: nat)
    ensures
        digits_value(decimal(n)) == Some(n),
        decimal(n).len() > 0,
        decimal(n)[0] != '+',
        n > 0 ==> decimal(n)[0] != '0',
    decreases n,
{
    reveal_with_fuel(digits_value, 2);
    if n >= 10 {
        lemma_decimal(n / 10);
        let s = decimal(n);
        assert(s.drop_last() =~= decimal(n / 10));
        assert(s.last() == digit((n % 10) as int));
    } else {
        assert(decimal(n).drop_last() =~= Seq::empty());
    }
}

/// Of the letters of ASCII the capital ones become the small ones with the same place in
/// the alphabet; every other character stays.
pub proof fn law_ascii_lower(c: char)
    ensures
        'A' <= c <= 'Z' ==> ascii_lower(c) as u32 - 'a' as u32 == c as u32 - 'A' as u32,
        !('A' <= c <= 'Z') ==> ascii_lower(c) == c,
{
    if 'A' <= c <= 'Z' {
        let b = c as u8;
        assert(65 <= b <= 90);
        assert(((b + 32) as u8) as char as u32 == b + 32);
    }
}
/// The decimal form of a number begins with a digit.
pub proof fn lemma_decimal_digits(n: nat)
    ensures
        decimal(n).len() > 0,
        '0' <= decimal(n)[0] <= '9',
    decreases n,
{
    if n >= 10 {
        lemma_decimal_digits(n / 10);
    }
}

/// A text with a minus sign in front is no number without a sign.
pub proof fn lemma_digits_of_sign(s: Seq<char>)
    requires
        s.len() > 0,
        s[0] == '-',
    ensures
        digits_value(s) is None,
    decreases s.len(),
{
    reveal_with_fuel(digits_value, 2);
    if s.len() > 1 {
        lemma_digits_of_sign(s.drop_last());
    }
}
/// A text in which something else than a digit stands, but for a plus sign in front, is
/// no number; nor is one without a digit.
pub proof fn law_number_has_digits_only(s: Seq<char>, i: int, max: nat)
    requires
        0 <= i < s.len(),
        !('0' <= s[i] <= '9'),
        i > 0 || s[0] != '+',
    ensures
        parse_unsigned(s, max) is None,
        parse_unsigned(Seq::empty(), max) is None,
        parse_unsigned(seq!['+'], max) is None,
{
    if s[0] == '+' {
        assert(s.drop_first()[i - 1] == s[i]);
        lemma_not_digits(s.drop_first(), i - 1);
    } else {
        lemma_not_digits(s, i);
    }
    assert(seq!['+'].drop_first().len() == 0);
}

proof fn lemma_not_digits(s: Seq<char>, i: int)
    requires
        0 <= i < s.len(),
        !('0' <= s[i] <= '9'),
    ensures
        digits_value(s) is None,
    decreases s.len(),
{
    if i < s.len() - 1 {
        lemma_not_digits(s.drop_last(), i);
    }
}

/// A line loses the carriage return before its end, and a line that is the last one does
/// not.
pub proof fn law_line_ends(line: Seq<char>, rest: Seq<char>)
    requires
        forall|i: int| 0 <= i < line.len() ==> (#[trigger] line[i]) != '\n',
        trim(line).len() > 0,
    ensures
        first_nonblank_line(line.push('\r') + seq!['\n'] + rest) == Some(line),
        first_nonblank_line(line) == Some(line),
{
    let cut = |c: char| c == '\n';
    let ended = line.push('\r');
    assert forall|i: int| 0 <= i < ended.len() implies !cut(#[trigger] ended[i]) by {
        if i < line.len() {
            assert(line[i] != '\n');
        }
    }
    lemma_one_piece(line, cut);
    lemma_one_piece(ended, cut);
    law_pieces(ended, '\n', rest, cut);
    lemma_pieces_nonempty(rest, cut);
    let all = pieces(ended + seq!['\n'] + rest, cut);
    assert(all[0] == ended);
    assert(trim(ended).len() > 0) by {
        lemma_trim_keeps(line, '\r');
    }
    assert(ended.drop_last() =~= line);
    reveal_with_fuel(nonblank_piece, 2);
}

/// Text that is not blank is not blank with one character more.
proof fn lemma_trim_keeps(s: Seq<char>, c: char)
    requires
        trim(s).len() > 0,
    ensures
        trim(s.push(c)).len() > 0,
{
    let a = trim_start(s);
    lemma_trim_start_push(s, c);
    lemma_trim_end_push(a, c);
}

proof fn lemma_trim_start_push(s: Seq<char>, c: char)
    requires
        trim_start(s).len() > 0,
    ensures
        trim_start(s.push(c)) == trim_start(s).push(c),
    decreases s.len(),
{
    if s.len() > 0 && is_space(s[0]) {
        lemma_trim_start_push(s.drop_first(), c);
        assert(s.push(c).drop_first() =~= s.drop_first().push(c));
    }
}

proof fn lemma_trim_end_push(s: Seq<char>, c: char)
    requires
        trim_end(s).len() > 0,
    ensures
        trim_end(s.push(c)).len() > 0,
{
    assert(s.push(c).drop_last() =~= s);
}

/// The character is taken from the end as often as it stands there, and nothing else is.
pub proof fn law_trim_end_char(s: Seq<char>, c: char, n: nat)
    requires
        s.len() > 0 ==> s.last() != c,
    ensures
        trim_end_char(s + Seq::new(n, |i: int| c), c) == s,
    decreases n,
{
    let run = Seq::new(n, |i: int| c);
    if n > 0 {
        law_trim_end_char(s, c, (n - 1) as nat);
        assert((s + run).drop_last() =~= s + Seq::new((n - 1) as nat, |i: int| c));
    } else {
        assert(s + run =~= s);
    }
}
} // verus!
