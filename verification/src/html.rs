//! HTML pages: what is selected of them, and the texts, links and summaries that
//! are made of a selection.

use crate::json::{
    get_in, json_text, json_text_array, json_text_or_null, lemma_member_at, lemma_object_view,
    member_views, text_array, text_or_null, Json, JsonView,
};
use crate::text::{
    join, join_strings, law_nonempty_is_a_filter, nonempty, opt_view, prefix, prefix_text, same_text,
    squeeze, squeeze_text, trim, trim_text, views,
};
use crate::weburl::{join_url, joined_url, opt_url_view, PageUrl, UrlView};
use vstd::prelude::*;

verus! {

// ---------------------------------------------------------------------------
// Selecting
// ---------------------------------------------------------------------------

/// The values of a list of lists of texts.
pub open spec fn texts_view(v: Seq<Vec<String>>) -> Seq<Seq<Seq<char>>> {
    v.map_values(|e: Vec<String>| views(e@))
}

/// The value of the texts of a selection.
pub open spec fn selection_view(o: Option<Vec<Vec<String>>>) -> Option<Seq<Seq<Seq<char>>>> {
    match o {
        Some(v) => Some(texts_view(v@)),
        None => None,
    }
}

/// The values of a list of optional texts.
pub open spec fn attrs_seq_view(v: Seq<Option<String>>) -> Seq<Option<Seq<char>>> {
    v.map_values(|a: Option<String>| opt_view(a))
}

/// The value of the attributes of a selection.
pub open spec fn attrs_view(o: Option<Vec<Option<String>>>) -> Option<Seq<Option<Seq<char>>>> {
    match o {
        Some(v) => Some(attrs_seq_view(v@)),
        None => None,
    }
}

/// The text nodes of each element that a CSS selector selects in a page; `None`
/// where the selector is malformed.
pub uninterp spec fn selected_texts(html: Seq<char>, selector: Seq<char>) -> Option<
    Seq<Seq<Seq<char>>>,
>;

/// Calls `scraper::Selector::parse`, `scraper::Html::parse_document` and
/// `Html::select`, and takes the text nodes that `ElementRef::text` gives of each
/// element. The result is named, not described: it is a function of the page and
/// the selector.
#[verifier::external_body]
pub(crate) fn select_texts(html: &str, selector: &str) -> (r: Option<Vec<Vec<String>>>)
    ensures
        selection_view(r) == selected_texts(html@, selector@),
{
    let selector = ::scraper::Selector::parse(selector).ok()?;
    let page = ::scraper::Html::parse_document(html);
    Some(page.select(&selector).map(|e| e.text().map(|t| t.to_owned()).collect()).collect())
}

/// The attribute `name` of each element that a CSS selector selects in a page;
/// `None` where the selector is malformed.
pub uninterp spec fn selected_attrs(
    html: Seq<char>,
    selector: Seq<char>,
    name: Seq<char>,
) -> Option<Seq<Option<Seq<char>>>>;

/// Calls `scraper::Selector::parse`, `scraper::Html::parse_document` and
/// `Html::select`, and takes the attribute that `Element::attr` gives of each
/// element. The result is named, not described: it is a function of the page, the
/// selector and the name of the attribute.
#[verifier::external_body]
pub(crate) fn select_attrs(html: &str, selector: &str, name: &str) -> (r: Option<
    Vec<Option<String>>,
>)
    ensures
        attrs_view(r) == selected_attrs(html@, selector@, name@),
{
    let selector = ::scraper::Selector::parse(selector).ok()?;
    let page = ::scraper::Html::parse_document(html);
    Some(page.select(&selector).map(|e| e.value().attr(name).map(|a| a.to_owned())).collect())
}

/// The Markdown of a page; `None` where it cannot be converted.
pub uninterp spec fn converted_markdown(html: Seq<char>) -> Option<Seq<char>>;

/// Calls `htmd::convert`. The result is named, not described: it is a function
/// of the page.
#[verifier::external_body]
fn convert_markdown(html: &str) -> (r: Option<String>)
    ensures
        opt_view(r) == converted_markdown(html@),
{
    htmd::convert(html).ok()
}

// ---------------------------------------------------------------------------
// Texts
// ---------------------------------------------------------------------------

/// The title that the elements `title` of a page give: the text of the first one,
/// trimmed.
pub open spec fn title_in(elements: Option<Seq<Seq<Seq<char>>>>) -> Option<Seq<char>> {
    match elements {
        Some(e) => if e.len() > 0 {
            Some(trim(join(e[0], ""@)))
        } else {
            None
        },
        None => None,
    }
}

/// The title that the elements `title` of a page give.
pub fn title_of(elements: &Option<Vec<Vec<String>>>) -> (r: Option<String>)
    ensures
        opt_view(r) == title_in(selection_view(*elements)),
{
    match elements {
        Some(e) => if e.len() > 0 {
            let text = join_strings(&e[0], "");
            Some(trim_text(text.as_str()))
        } else {
            None
        },
        None => None,
    }
}

/// The title of a page.
pub fn extract_title(html: &str) -> (r: Option<String>)
    ensures
        opt_view(r) == title_in(selected_texts(html@, "title"@)),
{
    let elements = select_texts(html, "title");
    title_of(&elements)
}

/// The Markdown of a page, empty where it cannot be converted.
pub open spec fn markdown_of(html: Seq<char>) -> Seq<char> {
    match converted_markdown(html) {
        Some(m) => m,
        None => Seq::empty(),
    }
}

/// The Markdown of a page, empty where it cannot be converted.
pub fn html_to_markdown(html: &str) -> (r: String)
    ensures
        r@ == markdown_of(html@),
        match converted_markdown(html@) {
            Some(m) => r@ == m,
            None => r@.len() == 0,
        },
{
    match convert_markdown(html) {
        Some(m) => m,
        None => String::new(),
    }
}

/// The text of an element: its words, with one space between neighbours.
pub open spec fn element_text(nodes: Seq<Seq<char>>) -> Seq<char> {
    squeeze(join(nodes, " "@))
}

/// The text of an element.
fn element_text_of(nodes: &Vec<String>) -> (r: String)
    ensures
        r@ == element_text(views(nodes@)),
{
    let text = join_strings(nodes, " ");
    squeeze_text(text.as_str())
}

/// The text of the first element of a selection, empty where there is none.
pub open spec fn first_text(elements: Option<Seq<Seq<Seq<char>>>>) -> Seq<char> {
    match elements {
        Some(e) => if e.len() > 0 {
            element_text(e[0])
        } else {
            Seq::empty()
        },
        None => Seq::empty(),
    }
}

/// The text of the first element of a selection, empty where there is none.
pub fn first_text_of(elements: &Option<Vec<Vec<String>>>) -> (r: String)
    ensures
        r@ == first_text(selection_view(*elements)),
{
    match elements {
        Some(e) => if e.len() > 0 {
            element_text_of(&e[0])
        } else {
            String::new()
        },
        None => String::new(),
    }
}

/// The text of the body of a page.
pub fn html_to_text(html: &str) -> (r: String)
    ensures
        r@ == first_text(selected_texts(html@, "body"@)),
{
    let elements = select_texts(html, "body");
    first_text_of(&elements)
}

/// The main content of a page, given the elements `article`, `main`, those with
/// the role `main`, and `body`: the first text that is not empty, in this order.
pub open spec fn main_content_in(
    article: Option<Seq<Seq<Seq<char>>>>,
    main: Option<Seq<Seq<Seq<char>>>>,
    role: Option<Seq<Seq<Seq<char>>>>,
    body: Option<Seq<Seq<Seq<char>>>>,
) -> Seq<char> {
    if first_text(article).len() > 0 {
        first_text(article)
    } else if first_text(main).len() > 0 {
        first_text(main)
    } else if first_text(role).len() > 0 {
        first_text(role)
    } else {
        first_text(body)
    }
}

/// The main content of a page, given its candidates.
pub fn main_content_of(
    article: &Option<Vec<Vec<String>>>,
    main: &Option<Vec<Vec<String>>>,
    role: &Option<Vec<Vec<String>>>,
    body: &Option<Vec<Vec<String>>>,
) -> (r: String)
    ensures
        r@ == main_content_in(
            selection_view(*article),
            selection_view(*main),
            selection_view(*role),
            selection_view(*body),
        ),
{
    let text = first_text_of(article);
    if !text.as_str().is_empty() {
        return text;
    }
    let text = first_text_of(main);
    if !text.as_str().is_empty() {
        return text;
    }
    let text = first_text_of(role);
    if !text.as_str().is_empty() {
        return text;
    }
    first_text_of(body)
}

/// The main content of a page.
pub open spec fn main_content(html: Seq<char>) -> Seq<char> {
    main_content_in(
        selected_texts(html, "article"@),
        selected_texts(html, "main"@),
        selected_texts(html, "[role='main']"@),
        selected_texts(html, "body"@),
    )
}

/// The main content of a page: the text of `<article>`, of `<main>`, of the
/// element with the role `main`, or of `<body>`.
pub fn extract_main_content(html: &str) -> (r: String)
    ensures
        r@ == main_content(html@),
{
    let article = select_texts(html, "article");
    let main = select_texts(html, "main");
    let role = select_texts(html, "[role='main']");
    let body = select_texts(html, "body");
    main_content_of(&article, &main, &role, &body)
}

// ---------------------------------------------------------------------------
// Links
// ---------------------------------------------------------------------------

/// The link that a resolved reference is: that of a page on the web.
pub open spec fn web_link(url: Option<UrlView>) -> Option<Seq<char>> {
    match url {
        Some(u) => if u.scheme == "http"@ || u.scheme == "https"@ {
            Some(u.text)
        } else {
            None
        },
        None => None,
    }
}

/// The link that a resolved reference is.
pub fn web_link_of(url: &Option<PageUrl>) -> (r: Option<String>)
    ensures
        opt_view(r) == web_link(opt_url_view(*url)),
{
    match url {
        Some(u) => if same_text(u.scheme.as_str(), "http") || same_text(
            u.scheme.as_str(),
            "https",
        ) {
            Some(u.text.clone())
        } else {
            None
        },
        None => None,
    }
}

/// The links that the references `hrefs` are on the page whose URL is `base`.
pub open spec fn links_in(hrefs: Seq<Option<Seq<char>>>, base: Seq<char>) -> Seq<Seq<char>>
    decreases hrefs.len(),
{
    if hrefs.len() == 0 {
        Seq::empty()
    } else {
        let before = links_in(hrefs.drop_last(), base);
        match hrefs.last() {
            Some(href) => match web_link(joined_url(base, href)) {
                Some(link) => before.push(link),
                None => before,
            },
            None => before,
        }
    }
}

/// The links of a page whose URL is the text `base`.
pub open spec fn page_links(html: Seq<char>, base: Seq<char>) -> Seq<Seq<char>> {
    match selected_attrs(html, "a[href]"@, "href"@) {
        Some(hrefs) => links_in(hrefs, base),
        None => Seq::empty(),
    }
}

/// The links that the references `hrefs` are on the page `base_url`.
pub fn links_of(hrefs: &Vec<Option<String>>, base_url: &PageUrl) -> (r: Vec<String>)
    ensures
        views(r@) == links_in(attrs_seq_view(hrefs@), base_url.source@),
{
    let ghost all = attrs_seq_view(hrefs@);
    let mut links: Vec<String> = Vec::new();
    let mut i: usize = 0;
    assert(views(links@) =~= links_in(all.take(0), base_url.source@));
    while i < hrefs.len()
        invariant
            i <= hrefs@.len(),
            all == attrs_seq_view(hrefs@),
            views(links@) == links_in(all.take(i as int), base_url.source@),
        decreases hrefs@.len() - i,
    {
        let ghost before = links@;
        assert(all.take(i + 1).drop_last() =~= all.take(i as int));
        assert(all.take(i + 1).last() == opt_view(hrefs@[i as int]));
        if let Some(href) = &hrefs[i] {
            let joined = join_url(base_url.source.as_str(), href.as_str());
            if let Some(link) = web_link_of(&joined) {
                links.push(link);
                assert(views(links@) =~= views(before).push(link@));
            }
        }
        i = i + 1;
    }
    assert(all.take(all.len() as int) =~= all);
    links
}

/// The links of a page to pages on the web, in order, resolved against its URL.
pub fn extract_links(html: &str, base_url: &PageUrl) -> (r: Vec<String>)
    ensures
        views(r@) == page_links(html@, base_url.source@),
{
    match select_attrs(html, "a[href]", "href") {
        Some(hrefs) => links_of(&hrefs, base_url),
        None => {
            let none: Vec<String> = Vec::new();
            assert(views(none@) =~= Seq::empty());
            none
        },
    }
}

// ---------------------------------------------------------------------------
// The summary of a page
// ---------------------------------------------------------------------------

/// The first `n` members, or all of them.
pub open spec fn first_n(v: Seq<Seq<char>>, n: nat) -> Seq<Seq<char>> {
    if v.len() <= n {
        v
    } else {
        v.take(n as int)
    }
}

/// The first `n` texts, or all of them.
fn first_n_of(v: &Vec<String>, n: usize) -> (r: Vec<String>)
    ensures
        views(r@) == first_n(views(v@), n as nat),
{
    let mut r: Vec<String> = Vec::new();
    let mut i: usize = 0;
    while i < v.len() && i < n
        invariant
            i <= v@.len(),
            i <= n,
            r@ == v@.take(i as int),
        decreases v@.len() - i,
    {
        r.push(v[i].clone());
        i = i + 1;
        assert(v@.take(i as int) =~= v@.take(i - 1).push(v@[i - 1]));
    }
    assert(views(r@) =~= first_n(views(v@), n as nat));
    r
}

/// The texts of the elements of a selection that are not empty.
pub open spec fn element_texts(elements: Seq<Seq<Seq<char>>>) -> Seq<Seq<char>> {
    nonempty(elements.map_values(|e: Seq<Seq<char>>| element_text(e)))
}

/// The first `n` texts of the elements of a selection that are not empty.
pub open spec fn collected(elements: Option<Seq<Seq<Seq<char>>>>, n: nat) -> Seq<Seq<char>> {
    match elements {
        Some(e) => first_n(element_texts(e), n),
        None => Seq::empty(),
    }
}

/// The first `n` texts of the elements of a selection that are not empty.
fn collect_text(elements: &Option<Vec<Vec<String>>>, n: usize) -> (r: Vec<String>)
    ensures
        views(r@) == collected(selection_view(*elements), n as nat),
{
    let elements = match elements {
        Some(e) => e,
        None => {
            let none: Vec<String> = Vec::new();
            assert(views(none@) =~= Seq::empty());
            return none;
        },
    };
    let ghost all = texts_view(elements@).map_values(|e: Seq<Seq<char>>| element_text(e));
    let mut r: Vec<String> = Vec::new();
    let mut i: usize = 0;
    assert(views(r@) =~= nonempty(all.take(0)));
    while i < elements.len()
        invariant
            i <= elements@.len(),
            all == texts_view(elements@).map_values(|e: Seq<Seq<char>>| element_text(e)),
            views(r@) == nonempty(all.take(i as int)),
        decreases elements@.len() - i,
    {
        let ghost before = r@;
        assert(all.take(i + 1).drop_last() =~= all.take(i as int));
        assert(all.take(i + 1).last() == element_text(views(elements@[i as int]@)));
        let text = element_text_of(&elements[i]);
        if !text.as_str().is_empty() {
            r.push(text);
            assert(views(r@) =~= views(before).push(text@));
        }
        i = i + 1;
    }
    assert(all.take(all.len() as int) =~= all);
    first_n_of(&r, n)
}

/// A text, if it is not empty.
pub open spec fn if_nonempty(s: Seq<char>) -> Option<Seq<char>> {
    if s.len() == 0 {
        None
    } else {
        Some(s)
    }
}

/// The attribute of the first element of a selection, trimmed, if it is not empty.
pub open spec fn first_attr(attrs: Option<Seq<Option<Seq<char>>>>) -> Option<Seq<char>> {
    match attrs {
        Some(a) => if a.len() > 0 {
            match a[0] {
                Some(content) => if_nonempty(trim(content)),
                None => None,
            }
        } else {
            None
        },
        None => None,
    }
}

/// The attribute of the first element of a selection, trimmed, if it is not empty.
fn first_attr_of(attrs: &Option<Vec<Option<String>>>) -> (r: Option<String>)
    ensures
        opt_view(r) == first_attr(attrs_view(*attrs)),
{
    match attrs {
        Some(a) => if a.len() > 0 {
            match &a[0] {
                Some(content) => {
                    let text = trim_text(content.as_str());
                    if text.as_str().is_empty() {
                        None
                    } else {
                        Some(text)
                    }
                },
                None => None,
            }
        } else {
            None
        },
        None => None,
    }
}

/// What a summary is made of: what was selected of a page, its links and its main
/// content.
#[derive(Debug)]
pub struct PageParts {
    pub title: Option<Vec<Vec<String>>>,
    /// The contents of `meta[name='description']`.
    pub description: Option<Vec<Option<String>>>,
    /// The contents of `meta[property='og:description']`.
    pub og_description: Option<Vec<Option<String>>>,
    /// The contents of `meta[name='twitter:description']`.
    pub twitter_description: Option<Vec<Option<String>>>,
    pub h1: Option<Vec<Vec<String>>>,
    pub h2: Option<Vec<Vec<String>>>,
    pub h3: Option<Vec<Vec<String>>>,
    pub paragraphs: Option<Vec<Vec<String>>>,
    pub links: Vec<String>,
    pub main_text: String,
}

/// The mathematical value of `PageParts`.
pub struct PagePartsView {
    pub title: Option<Seq<Seq<Seq<char>>>>,
    pub description: Option<Seq<Option<Seq<char>>>>,
    pub og_description: Option<Seq<Option<Seq<char>>>>,
    pub twitter_description: Option<Seq<Option<Seq<char>>>>,
    pub h1: Option<Seq<Seq<Seq<char>>>>,
    pub h2: Option<Seq<Seq<Seq<char>>>>,
    pub h3: Option<Seq<Seq<Seq<char>>>>,
    pub paragraphs: Option<Seq<Seq<Seq<char>>>>,
    pub links: Seq<Seq<char>>,
    pub main_text: Seq<char>,
}

impl View for PageParts {
    type V = PagePartsView;

    open spec fn view(&self) -> PagePartsView {
        PagePartsView {
            title: selection_view(self.title),
            description: attrs_view(self.description),
            og_description: attrs_view(self.og_description),
            twitter_description: attrs_view(self.twitter_description),
            h1: selection_view(self.h1),
            h2: selection_view(self.h2),
            h3: selection_view(self.h3),
            paragraphs: selection_view(self.paragraphs),
            links: views(self.links@),
            main_text: self.main_text@,
        }
    }
}

/// The description of a page: the first of its descriptions that is not empty.
pub open spec fn description_in(parts: PagePartsView) -> Option<Seq<char>> {
    if first_attr(parts.description) is Some {
        first_attr(parts.description)
    } else if first_attr(parts.og_description) is Some {
        first_attr(parts.og_description)
    } else {
        first_attr(parts.twitter_description)
    }
}

/// The headings of a page.
pub open spec fn headings_in(parts: PagePartsView) -> JsonView {
    JsonView::Object(
        seq![
            ("h1"@, text_array(collected(parts.h1, 10))),
            ("h2"@, text_array(collected(parts.h2, 20))),
            ("h3"@, text_array(collected(parts.h3, 30))),
        ],
    )
}

/// The summary of a page.
pub open spec fn summary_in(parts: PagePartsView) -> JsonView {
    JsonView::Object(
        seq![
            ("title"@, text_or_null(if_nonempty(first_text(parts.title)))),
            ("description"@, text_or_null(description_in(parts))),
            ("headings"@, headings_in(parts)),
            ("paragraphs"@, text_array(collected(parts.paragraphs, 30))),
            ("links"@, text_array(first_n(parts.links, 200))),
            ("text"@, JsonView::Text(prefix(parts.main_text, 3000))),
        ],
    )
}

fn headings_of(parts: &PageParts) -> (r: Json)
    ensures
        r@ == headings_in(parts@),
{
    let h1 = collect_text(&parts.h1, 10);
    let h2 = collect_text(&parts.h2, 20);
    let h3 = collect_text(&parts.h3, 30);
    let members = vec![
        ("h1".to_owned(), json_text_array(&h1)),
        ("h2".to_owned(), json_text_array(&h2)),
        ("h3".to_owned(), json_text_array(&h3)),
    ];
    proof {
        lemma_object_view(members);
        assert(member_views(members@) =~= headings_in(parts@)->Object_0);
    }
    Json::Object(members)
}

/// The summary of a page, given its parts.
pub fn summary_of(parts: &PageParts) -> (r: Json)
    ensures
        r@ == summary_in(parts@),
{
    let title_text = first_text_of(&parts.title);
    let title = if title_text.as_str().is_empty() {
        None
    } else {
        Some(title_text)
    };
    let description = match first_attr_of(&parts.description) {
        Some(d) => Some(d),
        None => match first_attr_of(&parts.og_description) {
            Some(d) => Some(d),
            None => first_attr_of(&parts.twitter_description),
        },
    };
    let paragraphs = collect_text(&parts.paragraphs, 30);
    let links = first_n_of(&parts.links, 200);
    let text = prefix_text(parts.main_text.as_str(), 3000);
    let members = vec![
        ("title".to_owned(), json_text_or_null(&title)),
        ("description".to_owned(), json_text_or_null(&description)),
        ("headings".to_owned(), headings_of(parts)),
        ("paragraphs".to_owned(), json_text_array(&paragraphs)),
        ("links".to_owned(), json_text_array(&links)),
        ("text".to_owned(), json_text(text.as_str())),
    ];
    proof {
        lemma_object_view(members);
        assert(member_views(members@) =~= summary_in(parts@)->Object_0);
    }
    Json::Object(members)
}

/// The parts of a page whose URL is the text `base`.
pub open spec fn parts_in(html: Seq<char>, base: Seq<char>) -> PagePartsView {
    PagePartsView {
        title: selected_texts(html, "title"@),
        description: selected_attrs(html, "meta[name='description']"@, "content"@),
        og_description: selected_attrs(html, "meta[property='og:description']"@, "content"@),
        twitter_description: selected_attrs(
            html,
            "meta[name='twitter:description']"@,
            "content"@,
        ),
        h1: selected_texts(html, "h1"@),
        h2: selected_texts(html, "h2"@),
        h3: selected_texts(html, "h3"@),
        paragraphs: selected_texts(html, "p"@),
        links: page_links(html, base),
        main_text: main_content(html),
    }
}

/// The summary of a page: its title, description, headings, paragraphs, links and
/// the beginning of its main content.
pub fn html_to_structured_json(html: &str, base_url: &PageUrl) -> (r: Json)
    ensures
        r@ == summary_in(parts_in(html@, base_url.source@)),
{
    let parts = PageParts {
        title: select_texts(html, "title"),
        description: select_attrs(html, "meta[name='description']", "content"),
        og_description: select_attrs(html, "meta[property='og:description']", "content"),
        twitter_description: select_attrs(html, "meta[name='twitter:description']", "content"),
        h1: select_texts(html, "h1"),
        h2: select_texts(html, "h2"),
        h3: select_texts(html, "h3"),
        paragraphs: select_texts(html, "p"),
        links: extract_links(html, base_url),
        main_text: extract_main_content(html),
    };
    summary_of(&parts)
}

// ---------------------------------------------------------------------------
// Laws of what is taken from a page
// ---------------------------------------------------------------------------

/// The links of a page are exactly the references that lead to a page on the web,
/// resolved, in order.
pub proof fn law_links_are_the_web_references(hrefs: Seq<Option<Seq<char>>>, base: Seq<char>)
    ensures
        links_in(hrefs, base) == hrefs.filter_map(
            |h: Option<Seq<char>>|
                match h {
                    Some(href) => match joined_url(base, href) {
                        Some(u) => if u.scheme == "http"@ || u.scheme == "https"@ {
                            Some(u.text)
                        } else {
                            None
                        },
                        None => None,
                    },
                    None => None,
                },
        ),
    decreases hrefs.len(),
{
    reveal(Seq::filter_map);
    if hrefs.len() > 0 {
        law_links_are_the_web_references(hrefs.drop_last(), base);
        let before = links_in(hrefs.drop_last(), base);
        if let Some(href) = hrefs.last() {
            if let Some(link) = web_link(joined_url(base, href)) {
                assert(before.push(link) =~= before + seq![link]);
            }
        }
    }
}

/// No reference to a page on the web is left out of the links.
pub proof fn law_every_web_reference_is_a_link(
    hrefs: Seq<Option<Seq<char>>>,
    base: Seq<char>,
    k: int,
)
    requires
        0 <= k < hrefs.len(),
        hrefs[k] matches Some(href) && (joined_url(base, href) matches Some(u) && (u.scheme
            == "http"@ || u.scheme == "https"@)),
    ensures
        hrefs[k] matches Some(href) && (joined_url(base, href) matches Some(u) && links_in(
            hrefs,
            base,
        ).contains(u.text)),
    decreases hrefs.len(),
{
    let before = links_in(hrefs.drop_last(), base);
    let all = links_in(hrefs, base);
    if k == hrefs.len() - 1 {
        assert(all[before.len() as int] == joined_url(base, hrefs[k]->0)->0.text);
    } else {
        law_every_web_reference_is_a_link(hrefs.drop_last(), base, k);
        let text = joined_url(base, hrefs[k]->0)->0.text;
        let m = choose|m: int| 0 <= m < before.len() && before[m] == text;
        assert(all[m] == text);
    }
}

/// The links of references that follow each other follow each other.
pub proof fn law_links_follow_the_references(
    a: Seq<Option<Seq<char>>>,
    b: Seq<Option<Seq<char>>>,
    base: Seq<char>,
)
    ensures
        links_in(a + b, base) == links_in(a, base) + links_in(b, base),
    decreases b.len(),
{
    if b.len() == 0 {
        assert(a + b =~= a);
        assert(links_in(a, base) + links_in(b, base) =~= links_in(a, base));
    } else {
        law_links_follow_the_references(a, b.drop_last(), base);
        assert((a + b).drop_last() =~= a + b.drop_last());
        assert(links_in(a + b, base) =~= links_in(a, base) + links_in(b, base));
    }
}

/// The texts that are collected are those of the elements that have any, in order, as
/// many as there may be.
pub proof fn law_collected_texts(elements: Seq<Seq<Seq<char>>>, n: nat)
    ensures
        ({
            let texts = elements.map_values(|e: Seq<Seq<char>>| squeeze(join(e, " "@))).filter(
                |t: Seq<char>| t.len() > 0,
            );
            &&& collected(Some(elements), n).len() == (if texts.len() <= n {
                texts.len()
            } else {
                n
            })
            &&& forall|k: int|
                0 <= k < collected(Some(elements), n).len() ==> #[trigger] collected(
                    Some(elements),
                    n,
                )[k] == texts[k]
        }),
{
    let texts = elements.map_values(|e: Seq<Seq<char>>| element_text(e));
    assert(texts =~= elements.map_values(|e: Seq<Seq<char>>| squeeze(join(e, " "@))));
    law_nonempty_is_a_filter(texts);
    assert((|p: Seq<char>| p.len() > 0) =~= (|t: Seq<char>| t.len() > 0));
}

/// The main content is the text of the first of `article`, `main`, the element with the
/// role `main` and `body` that has any.
pub proof fn law_main_content(html: Seq<char>)
    ensures
        ({
            let article = first_text(selected_texts(html, "article"@));
            let main = first_text(selected_texts(html, "main"@));
            let role = first_text(selected_texts(html, "[role='main']"@));
            let body = first_text(selected_texts(html, "body"@));
            &&& article.len() > 0 ==> main_content(html) == article
            &&& article.len() == 0 && main.len() > 0 ==> main_content(html) == main
            &&& article.len() == 0 && main.len() == 0 && role.len() > 0 ==> main_content(html)
                == role
            &&& article.len() == 0 && main.len() == 0 && role.len() == 0 ==> main_content(html)
                == body
        }),
{
}

/// The text of a selection is that of its first element, its text nodes one behind the
/// other, squeezed; of no element it is empty.
pub proof fn law_first_text(nodes: Seq<Seq<char>>, others: Seq<Seq<Seq<char>>>)
    ensures
        first_text(Some(seq![nodes] + others)) == squeeze(join(nodes, " "@)),
        first_text(None).len() == 0,
        first_text(Some(Seq::empty())).len() == 0,
{
}

/// The title is the text of the first title, trimmed; there is none just where there is
/// no such element.
pub proof fn law_title(nodes: Seq<Seq<char>>, others: Seq<Seq<Seq<char>>>)
    ensures
        title_in(Some(seq![nodes] + others)) == Some(trim(join(nodes, ""@))),
        title_in(None) is None,
        title_in(Some(Seq::empty())) is None,
{
}

/// An attribute of the first element that is not blank is taken, trimmed.
pub proof fn law_first_attribute(content: Seq<char>, others: Seq<Option<Seq<char>>>)
    ensures
        trim(content).len() > 0 ==> first_attr(Some(seq![Some(content)] + others)) == Some(
            trim(content),
        ),
        trim(content).len() == 0 ==> first_attr(Some(seq![Some(content)] + others)) is None,
        first_attr(Some(seq![None::<Seq<char>>] + others)) is None,
        first_attr(None) is None,
{
}

/// The summary of a page names its title, its description, at most ten, twenty and
/// thirty headings of the three levels, at most thirty paragraphs, at most two hundred
/// links, and at most three thousand characters of its main content; of what is within
/// those bounds nothing is left out.
pub proof fn law_summary(html: Seq<char>, base: Seq<char>)
    ensures
        ({
            let s = summary_in(parts_in(html, base));
            let title = first_text(selected_texts(html, "title"@));
            let named = first_attr(
                selected_attrs(html, "meta[name='description']"@, "content"@),
            );
            let og = first_attr(
                selected_attrs(html, "meta[property='og:description']"@, "content"@),
            );
            let twitter = first_attr(
                selected_attrs(html, "meta[name='twitter:description']"@, "content"@),
            );
            let headings = s.get("headings"@);
            let links = page_links(html, base);
            let text = main_content(html);
            &&& title.len() > 0 ==> s.get("title"@) == Some(JsonView::Text(title))
            &&& title.len() == 0 ==> s.get("title"@) == Some(JsonView::Null)
            &&& s.get("description"@) == Some(
                if named is Some {
                    JsonView::Text(named->0)
                } else if og is Some {
                    JsonView::Text(og->0)
                } else if twitter is Some {
                    JsonView::Text(twitter->0)
                } else {
                    JsonView::Null
                },
            )
            &&& get_in(headings, "h1"@) == Some(
                text_array(collected(selected_texts(html, "h1"@), 10)),
            )
            &&& get_in(headings, "h2"@) == Some(
                text_array(collected(selected_texts(html, "h2"@), 20)),
            )
            &&& get_in(headings, "h3"@) == Some(
                text_array(collected(selected_texts(html, "h3"@), 30)),
            )
            &&& s.get("paragraphs"@) == Some(
                text_array(collected(selected_texts(html, "p"@), 30)),
            )
            &&& links.len() <= 200 ==> s.get("links"@) == Some(text_array(links))
            &&& links.len() > 200 ==> s.get("links"@) == Some(text_array(links.take(200)))
            &&& text.len() <= 3000 ==> s.get("text"@) == Some(JsonView::Text(text))
            &&& text.len() > 3000 ==> s.get("text"@) == Some(JsonView::Text(text.take(3000)))
        }),
{
    reveal_strlit("title");
    reveal_strlit("description");
    reveal_strlit("headings");
    reveal_strlit("paragraphs");
    reveal_strlit("links");
    reveal_strlit("text");
    reveal_strlit("h1");
    reveal_strlit("h2");
    reveal_strlit("h3");
    assert("title"@[0] == 't' && "links"@[0] == 'l');
    assert("title"@.len() == 5 && "description"@.len() == 11 && "headings"@.len() == 8);
    assert("paragraphs"@.len() == 10 && "links"@.len() == 5 && "text"@.len() == 4);
    assert("h1"@[1] == '1' && "h2"@[1] == '2' && "h3"@[1] == '3');
    let parts = parts_in(html, base);
    let m = summary_in(parts)->Object_0;
    let h = headings_in(parts)->Object_0;
    lemma_member_at(h, 0);
    lemma_member_at(h, 1);
    lemma_member_at(h, 2);
    lemma_member_at(m, 0);
    lemma_member_at(m, 1);
    lemma_member_at(m, 2);
    lemma_member_at(m, 3);
    lemma_member_at(m, 4);
    lemma_member_at(m, 5);
}

} // verus!
