//! What extraction by the language model takes of a scraped page, and what it adds
//! to the result.

use crate::json::{opt_json_clone, opt_json_view, JsonView};
use crate::llm::{ExtractionRequest, ExtractionResult};
use crate::models::{ExtractOptions, ScrapeResult, ScrapeResultView};
use crate::text::{chars_of, decimal, decimal_text, opt_clone, opt_view, prefix, prefix_text};
use vstd::prelude::*;

verus! {

/// The first of two optional texts that is there.
pub open spec fn or_else(a: Option<Seq<char>>, b: Option<Seq<char>>) -> Option<Seq<char>> {
    match a {
        Some(x) => Some(x),
        None => b,
    }
}

/// An optional text, or the default where there is none.
pub open spec fn or_default(a: Option<Seq<char>>, d: Seq<char>) -> Seq<char> {
    match a {
        Some(x) => x,
        None => d,
    }
}

/// The text of a page that the language model reads: its Markdown, or its HTML, or,
/// with `raw`, the page itself.
pub open spec fn page_text(result: ScrapeResultView, raw: bool) -> Seq<char> {
    or_default(
        or_else(
            or_else(result.markdown, result.html),
            if raw {
                result.raw_html
            } else {
                None
            },
        ),
        Seq::empty(),
    )
}

/// What is said where the input of the language model was cut.
pub open spec fn truncation_warning(total: nat, max: nat) -> Seq<char> {
    "Extraction input was truncated from "@ + decimal(total) + " to "@ + decimal(max)
        + " characters. Refine the prompt or request fewer fields for best results."@
}

/// Two warnings, one behind the other.
pub open spec fn merged_warning(first: Option<Seq<char>>, second: Option<Seq<char>>) -> Option<
    Seq<char>,
> {
    match (first, second) {
        (Some(a), Some(b)) => Some(a + " "@ + b),
        (Some(a), None) => Some(a),
        (None, b) => b,
    }
}

/// The result of scraping a page before its text, of `max` characters at most, is
/// read by the language model: where the text was cut, that is its warning.
pub open spec fn before_extraction(result: ScrapeResultView, raw: bool, max: nat) -> ScrapeResultView {
    let text = page_text(result, raw);
    if text.len() > max {
        ScrapeResultView { warning: Some(truncation_warning(text.len(), max)), ..result }
    } else {
        result
    }
}

/// The text of a page that the language model reads.
fn page_text_of(result: &ScrapeResult, raw: bool) -> (r: String)
    ensures
        r@ == page_text(result@, raw),
{
    if let Some(t) = &result.markdown {
        return t.clone();
    }
    if let Some(t) = &result.html {
        return t.clone();
    }
    if raw {
        if let Some(t) = &result.raw_html {
            return t.clone();
        }
    }
    String::new()
}

/// What the language model is asked of a page: its text, cut to `max` characters,
/// and what `options` ask, with `default_prompt` where they ask nothing. Where the
/// text was cut, the result says so.
pub fn extraction_request(
    result: &mut ScrapeResult,
    options: &ExtractOptions,
    default_prompt: &str,
    raw: bool,
    max: usize,
) -> (r: ExtractionRequest)
    ensures
        r.content@ == prefix(page_text(old(result)@, raw), max as nat),
        r.prompt@ == or_default(opt_view(options.prompt), default_prompt@),
        opt_json_view(r.schema) == opt_json_view(options.schema),
        r.system_prompt == options.system_prompt,
        final(result)@ == before_extraction(old(result)@, raw, max as nat),
        final(result)@ == (ScrapeResultView { warning: final(result)@.warning, ..old(result)@ }),
        page_text(old(result)@, raw).len() <= max ==> r.content@ == page_text(old(result)@, raw)
            && final(result)@.warning == old(result)@.warning,
        page_text(old(result)@, raw).len() > max ==> r.content@ == page_text(
            old(result)@,
            raw,
        ).take(max as int) && final(result)@.warning is Some,
{
    let text = page_text_of(result, raw);
    let total: usize = chars_of(text.as_str()).len();
    let content = if total > max {
        let head = "Extraction input was truncated from ".to_owned();
        let total_text = decimal_text(total as u64);
        let max_text = decimal_text(max as u64);
        let warning = head.concat(total_text.as_str()).concat(" to ").concat(
            max_text.as_str(),
        ).concat(" characters. Refine the prompt or request fewer fields for best results.");
        result.warning = Some(warning);
        prefix_text(text.as_str(), max)
    } else {
        text
    };
    ExtractionRequest {
        content,
        prompt: match &options.prompt {
            Some(p) => p.clone(),
            None => default_prompt.to_owned(),
        },
        schema: opt_json_clone(&options.schema),
        system_prompt: opt_clone(&options.system_prompt),
    }
}

/// The result of scraping a page with what was extracted of it.
pub open spec fn with_extraction(
    result: ScrapeResultView,
    data: JsonView,
    warning: Option<Seq<char>>,
) -> ScrapeResultView {
    ScrapeResultView {
        extract: Some(data),
        warning: merged_warning(result.warning, warning),
        ..result
    }
}

/// Adds what was extracted of a page to its result.
pub fn add_extraction(result: &mut ScrapeResult, extraction: ExtractionResult)
    ensures
        final(result)@ == with_extraction(
            old(result)@,
            extraction.data@,
            opt_view(extraction.warning),
        ),
        final(result)@ == (ScrapeResultView {
            extract: Some(extraction.data@),
            warning: final(result)@.warning,
            ..old(result)@
        }),
        old(result)@.warning is None ==> final(result)@.warning == opt_view(extraction.warning),
        extraction.warning is None ==> final(result)@.warning == old(result)@.warning,
        old(result)@.warning matches Some(a) ==> (extraction.warning matches Some(b)
            ==> final(result)@.warning == Some(a + " "@ + b@)),
{
    result.extract = Some(extraction.data);
    if let Some(w) = extraction.warning {
        let merged = match &result.warning {
            Some(existing) => existing.clone().concat(" ").concat(w.as_str()),
            None => w,
        };
        result.warning = Some(merged);
    }
}

/// The language model reads the Markdown of a page, where there is any; else its HTML;
/// else, where that is allowed, the page itself; else nothing.
pub proof fn law_page_text(result: ScrapeResultView, raw: bool)
    ensures
        result.markdown matches Some(m) ==> page_text(result, raw) == m,
        result.markdown is None ==> (result.html matches Some(h) ==> page_text(result, raw) == h),
        result.markdown is None && result.html is None ==> (result.raw_html matches Some(h)
            ==> page_text(result, true) == h && page_text(result, false).len() == 0),
        result.markdown is None && result.html is None && result.raw_html is None ==> page_text(
            result,
            raw,
        ).len() == 0,
{
}

/// A text that is cut is said to be, with its length and what is left of it; a text that
/// fits is not.
pub proof fn law_truncation_is_said(result: ScrapeResultView, raw: bool, max: nat)
    ensures
        page_text(result, raw).len() <= max ==> before_extraction(result, raw, max) == result,
        page_text(result, raw).len() > max ==> (before_extraction(result, raw, max).warning
            matches Some(w) && w == "Extraction input was truncated from "@ + decimal(
            page_text(result, raw).len(),
        ) + " to "@ + decimal(max)
            + " characters. Refine the prompt or request fewer fields for best results."@),
{
}
} // verus!
