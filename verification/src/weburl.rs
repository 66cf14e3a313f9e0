//! URLs: what the rest of the library reads of a URL, local addresses, and
//! percent encoding.

use crate::text::{
    ascii_lower, opt_view, same_ignoring_ascii_case, same_text_ignoring_ascii_case,
};
use vstd::prelude::*;

verus! {

/// The host of a URL.
#[derive(Debug)]
pub enum Host {
    Domain(String),
    V4(u32),
    V6(u128),
}

/// A URL, with the parts that are read of it.
#[derive(Debug)]
pub struct PageUrl {
    /// The text that was parsed.
    pub source: String,
    /// The URL in its normal form.
    pub text: String,
    pub scheme: String,
    /// The host as it stands in the normal form.
    pub host_str: Option<String>,
    pub host: Option<Host>,
}

/// The mathematical value of a `Host`.
pub enum HostView {
    Domain(Seq<char>),
    V4(u32),
    V6(u128),
}

/// The mathematical value of what was parsed into a `PageUrl`.
pub struct UrlView {
    pub text: Seq<char>,
    pub scheme: Seq<char>,
    pub host_str: Option<Seq<char>>,
    pub host: Option<HostView>,
}

impl View for Host {
    type V = HostView;

    open spec fn view(&self) -> HostView {
        match self {
            Host::Domain(d) => HostView::Domain(d@),
            Host::V4(a) => HostView::V4(*a),
            Host::V6(a) => HostView::V6(*a),
        }
    }
}

/// The view of an optional host.
pub open spec fn opt_host_view(o: Option<Host>) -> Option<HostView> {
    match o {
        Some(h) => Some(h@),
        None => None,
    }
}

impl View for PageUrl {
    type V = UrlView;

    open spec fn view(&self) -> UrlView {
        UrlView {
            text: self.text@,
            scheme: self.scheme@,
            host_str: opt_view(self.host_str),
            host: opt_host_view(self.host),
        }
    }
}

impl UrlView {
    /// The host as text, empty where there is none.
    pub open spec fn host_text(self) -> Seq<char> {
        match self.host_str {
            Some(h) => h,
            None => Seq::empty(),
        }
    }
}

impl PageUrl {
    /// The host as text, empty where there is none.
    pub fn host_text(&self) -> (r: String)
        ensures
            r@ == self@.host_text(),
            self.host_str matches Some(h) ==> r@ == h@,
            self.host_str is None ==> r@.len() == 0,
    {
        match &self.host_str {
            Some(h) => h.clone(),
            None => String::new(),
        }
    }
}

/// What parsing a text as a URL gives: the URL, or the text of the error.
pub uninterp spec fn parsed_url(text: Seq<char>) -> Result<UrlView, Seq<char>>;

/// The view of the result of parsing.
pub open spec fn parse_view(r: Result<PageUrl, String>) -> Result<UrlView, Seq<char>> {
    match r {
        Ok(u) => Ok(u@),
        Err(e) => Err(e@),
    }
}

/// Calls `url::Url::parse` and reads the normal form, the scheme and the host
/// of the result; an error is taken by its text. The result is named, not
/// described: it is a function of the text.
#[verifier::external_body]
pub(crate) fn parse_url(text: &str) -> (r: Result<PageUrl, String>)
    ensures
        parse_view(r) == parsed_url(text@),
        r matches Ok(u) ==> u.source@ == text@,
{
    let url = url::Url::parse(text).map_err(|e| e.to_string())?;
    let host = url.host().map(|h| match h {
        url::Host::Domain(d) => Host::Domain(d.to_owned()),
        url::Host::Ipv4(a) => Host::V4(u32::from(a)),
        url::Host::Ipv6(a) => Host::V6(u128::from(a)),
    });
    Ok(PageUrl {
        source: text.to_owned(),
        text: url.to_string(),
        scheme: url.scheme().to_owned(),
        host_str: url.host_str().map(|h| h.to_owned()),
        host,
    })
}

impl PageUrl {
    /// Parses a text as a URL; an error is given by its text.
    pub fn parse(text: &str) -> (r: Result<PageUrl, String>)
        ensures
            parse_view(r) == parsed_url(text@),
            r matches Ok(u) ==> u.source@ == text@,
    {
        parse_url(text)
    }
}

/// Whether a text is a URL.
pub fn is_url(text: &str) -> (r: bool)
    ensures
        r == (parsed_url(text@) is Ok),
{
    parse_url(text).is_ok()
}

/// What the reference `href` means on the page whose URL is the text `base`;
/// `None` where one of them is no URL.
pub uninterp spec fn joined_url(base: Seq<char>, href: Seq<char>) -> Option<UrlView>;

/// The view of an optional URL.
pub open spec fn opt_url_view(o: Option<PageUrl>) -> Option<UrlView> {
    match o {
        Some(u) => Some(u@),
        None => None,
    }
}

/// Calls `url::Url::join` on the URL that the text `base` denotes, and reads the
/// normal form, the scheme and the host of the result. The result is named, not
/// described: it is a function of the two texts.
#[verifier::external_body]
pub(crate) fn join_url(base: &str, href: &str) -> (r: Option<PageUrl>)
    ensures
        opt_url_view(r) == joined_url(base@, href@),
{
    let url = url::Url::parse(base).ok()?.join(href).ok()?;
    let host = url.host().map(|h| match h {
        url::Host::Domain(d) => Host::Domain(d.to_owned()),
        url::Host::Ipv4(a) => Host::V4(u32::from(a)),
        url::Host::Ipv6(a) => Host::V6(u128::from(a)),
    });
    let text = url.to_string();
    let host_str = url.host_str().map(|h| h.to_owned());
    Some(PageUrl { source: text.clone(), text, scheme: url.scheme().to_owned(), host_str, host })
}

// ---------------------------------------------------------------------------
// Local addresses
// ---------------------------------------------------------------------------

/// The IPv4 addresses that are not on the public internet: 127.0.0.0/8,
/// 10.0.0.0/8, 172.16.0.0/12, 192.168.0.0/16, 169.254.0.0/16, the broadcast and
/// the unspecified address, and 224.0.0.0/4.
pub open spec fn is_local_v4(a: u32) -> bool {
    ||| 0x7f00_0000 <= a <= 0x7fff_ffff
    ||| 0x0a00_0000 <= a <= 0x0aff_ffff
    ||| 0xac10_0000 <= a <= 0xac1f_ffff
    ||| 0xc0a8_0000 <= a <= 0xc0a8_ffff
    ||| 0xa9fe_0000 <= a <= 0xa9fe_ffff
    ||| a == 0xffff_ffff
    ||| a == 0
    ||| 0xe000_0000 <= a <= 0xefff_ffff
}

/// The IPv6 addresses that are not on the public internet: ::1, fc00::/7,
/// fe80::/10, :: and ff00::/8.
pub open spec fn is_local_v6(a: u128) -> bool {
    ||| a == 1
    ||| 0xfc00_0000_0000_0000_0000_0000_0000_0000 <= a
        <= 0xfdff_ffff_ffff_ffff_ffff_ffff_ffff_ffff
    ||| 0xfe80_0000_0000_0000_0000_0000_0000_0000 <= a
        <= 0xfebf_ffff_ffff_ffff_ffff_ffff_ffff_ffff
    ||| a == 0
    ||| 0xff00_0000_0000_0000_0000_0000_0000_0000 <= a
}

/// The hosts that are not on the public internet.
pub open spec fn is_local_host(host: HostView) -> bool {
    match host {
        HostView::Domain(d) => same_ignoring_ascii_case(d, "localhost"@),
        HostView::V4(a) => is_local_v4(a),
        HostView::V6(a) => is_local_v6(a),
    }
}

/// Whether the host is not on the public internet.
pub fn host_is_local(host: &Host) -> (r: bool)
    ensures
        r == is_local_host(host@),
{
    match host {
        Host::Domain(d) => same_text_ignoring_ascii_case(d.as_str(), "localhost"),
        Host::V4(a) => {
            let a: u32 = *a;
            (0x7f00_0000 <= a && a <= 0x7fff_ffff) || (0x0a00_0000 <= a && a <= 0x0aff_ffff) || (
            0xac10_0000 <= a && a <= 0xac1f_ffff) || (0xc0a8_0000 <= a && a <= 0xc0a8_ffff) || (
            0xa9fe_0000 <= a && a <= 0xa9fe_ffff) || a == 0xffff_ffff || a == 0 || (0xe000_0000 <= a
                && a <= 0xefff_ffff)
        },
        Host::V6(a) => {
            let a: u128 = *a;
            a == 1 || (0xfc00_0000_0000_0000_0000_0000_0000_0000 <= a && a
                <= 0xfdff_ffff_ffff_ffff_ffff_ffff_ffff_ffff) || (
            0xfe80_0000_0000_0000_0000_0000_0000_0000 <= a && a
                <= 0xfebf_ffff_ffff_ffff_ffff_ffff_ffff_ffff) || a == 0
                || 0xff00_0000_0000_0000_0000_0000_0000_0000 <= a
        },
    }
}

// ---------------------------------------------------------------------------
// Percent encoding
// ---------------------------------------------------------------------------

/// The bytes that percent encoding leaves as they are: ASCII letters and digits
/// and `-`, `_`, `.`, `~`.
pub open spec fn stays_plain(b: u8) -> bool {
    ||| 0x30 <= b <= 0x39
    ||| 0x41 <= b <= 0x5a
    ||| 0x61 <= b <= 0x7a
    ||| b == 0x2d
    ||| b == 0x5f
    ||| b == 0x2e
    ||| b == 0x7e
}

/// The upper-case hexadecimal digit of a number below sixteen.
pub open spec fn upper_hex_digit(d: int) -> char {
    if d < 10 {
        (0x30 + d) as char
    } else {
        (0x37 + d) as char
    }
}

/// A sequence of bytes, percent encoded.
pub open spec fn percent_encode(bytes: Seq<u8>) -> Seq<char>
    decreases bytes.len(),
{
    if bytes.len() == 0 {
        Seq::empty()
    } else {
        let b = bytes.last();
        percent_encode(bytes.drop_last()) + (if stays_plain(b) {
            seq![b as char]
        } else {
            seq!['%', upper_hex_digit(b as int / 16), upper_hex_digit(b as int % 16)]
        })
    }
}

/// A text, percent encoded byte by byte in UTF-8.
pub open spec fn url_encoded(text: Seq<char>) -> Seq<char> {
    percent_encode(vstd::utf8::encode_utf8(text))
}

/// Calls `urlencoding::encode`: every byte of the UTF-8 form but letters, digits
/// and `-`, `_`, `.`, `~` becomes `%` and two upper-case hexadecimal digits.
#[verifier::external_body]
pub(crate) fn url_encode(text: &str) -> (r: String)
    ensures
        r@ == url_encoded(text@),
{
    urlencoding::encode(text).into_owned()
}

/// The number that a hexadecimal digit stands for, in ASCII.
pub open spec fn hex_value(b: u8) -> Option<int> {
    if 0x30 <= b <= 0x39 {
        Some(b - 0x30)
    } else if 0x41 <= b <= 0x46 {
        Some(b - 0x37)
    } else if 0x61 <= b <= 0x66 {
        Some(b - 0x57)
    } else {
        None
    }
}

/// A sequence of bytes in which each `%` with two hexadecimal digits behind it is
/// replaced by the byte that they stand for.
pub open spec fn percent_decode(bytes: Seq<u8>) -> Seq<u8>
    decreases bytes.len(),
{
    if bytes.len() == 0 {
        Seq::empty()
    } else if bytes.len() >= 3 && bytes[0] == 0x25 && hex_value(bytes[1]) is Some && hex_value(
        bytes[2],
    ) is Some {
        seq![(hex_value(bytes[1])->0 * 16 + hex_value(bytes[2])->0) as u8] + percent_decode(
            bytes.skip(3),
        )
    } else {
        seq![bytes[0]] + percent_decode(bytes.skip(1))
    }
}

/// A text with its percent encoding undone; `None` where that is no UTF-8.
pub open spec fn url_decoded(text: Seq<char>) -> Option<Seq<char>> {
    let bytes = percent_decode(vstd::utf8::encode_utf8(text));
    if vstd::utf8::valid_utf8(bytes) {
        Some(vstd::utf8::decode_utf8(bytes))
    } else {
        None
    }
}

/// Calls `urlencoding::decode`: in the UTF-8 form, `%` and two hexadecimal digits
/// become a byte, and all else stays; `None` where the bytes are no UTF-8.
#[verifier::external_body]
pub(crate) fn url_decode(text: &str) -> (r: Option<String>)
    ensures
        opt_view(r) == url_decoded(text@),
{
    urlencoding::decode(text).ok().map(|d| d.into_owned())
}

// ---------------------------------------------------------------------------
// Laws of local addresses
// ---------------------------------------------------------------------------

/// An IPv4 address is local just by its first octets, read as numbers, but for the
/// unspecified and the broadcast address.
pub proof fn law_local_v4(o1: u32, o2: u32, o3: u32, o4: u32)
    requires
        o1 <= 255,
        o2 <= 255,
        o3 <= 255,
        o4 <= 255,
    ensures
        is_local_v4((o1 * 0x100_0000 + o2 * 0x1_0000 + o3 * 0x100 + o4) as u32) == (o1 == 127 || o1
            == 10 || o1 == 172 && 16 <= o2 <= 31 || o1 == 192 && o2 == 168 || o1 == 169 && o2 == 254
            || 224 <= o1 <= 239 || (o1 == 0 && o2 == 0 && o3 == 0 && o4 == 0) || (o1 == 255 && o2
            == 255 && o3 == 255 && o4 == 255)),
{
}

/// An IPv6 address is local by its first eight or ten bits, and where it is the
/// unspecified or the loopback address.
pub proof fn law_local_v6(first: u128, rest: u128)
    requires
        first <= 0xffff,
        rest <= 0xffff_ffff_ffff_ffff_ffff_ffff_ffff,
    ensures
        is_local_v6((first * 0x1_0000_0000_0000_0000_0000_0000_0000 + rest) as u128) == (first
            / 0x200 == 0x7e || first / 0x40 == 0x3fa || first / 0x100 == 0xff || first == 0 && rest
            <= 1),
{
}

/// A domain is local just where it is the local host, whatever the case of its letters.
pub proof fn law_local_domain(d: Seq<char>)
    ensures
        is_local_host(HostView::Domain(d)) == (d.map_values(|c: char| ascii_lower(c))
            == "localhost"@),
{
    reveal_strlit("localhost");
    let l = "localhost"@;
    let m = d.map_values(|c: char| ascii_lower(c));
    assert forall|i: int| 0 <= i < l.len() implies ascii_lower(#[trigger] l[i]) == l[i] by {}
    if is_local_host(HostView::Domain(d)) {
        assert forall|i: int| 0 <= i < l.len() implies m[i] == l[i] by {
            assert(ascii_lower(d[i]) == ascii_lower(l[i]));
        }
        assert(m =~= l);
    }
    if m == l {
        assert(d.len() == l.len());
        assert forall|i: int| 0 <= i < d.len() implies ascii_lower(#[trigger] d[i]) == ascii_lower(
            l[i],
        ) by {
            assert(m[i] == l[i]);
        }
    }
}
} // verus!
