//! The element extractor: from the text of an HTML page and a query to the
//! text of the first element that the query matches.

use vstd::prelude::*;
use scraper::{Html, Selector};
use crate::error::{result_view, Error};
use crate::text::{chars_of, option_view, string_of, trim, trimmed};

verus! {

/// Whether `query` is a selector that `Selector::parse` of the `scraper`
/// crate accepts.
pub uninterp spec fn selector_parses(query: Seq<char>) -> bool;

/// The content of the first text node under the first element that a
/// selector matches in a page, as the `scraper` crate finds them:
/// `Html::parse_document` on `html`, `Html::select` with the selector parsed
/// from `query`, the first element that it yields, and the first item of
/// that element's `text`.  `None` where no element matches or the first that
/// does has no text node.
pub uninterp spec fn first_text_of(html: Seq<char>, query: Seq<char>) -> Option<Seq<char>>;

/// `Selector::parse`, `Html::parse_document`, `Html::select` and
/// `ElementRef::text` of the `scraper` crate.  `Err` says that `query` did
/// not parse as a selector.  Otherwise the page is parsed, and the result is
/// the first text node of the first element that the selector matches, if
/// there is one.  The contract only names these results: equal inputs give
/// equal outputs.
#[verifier::external_body]
fn select_first_text(html: &str, query: &str) -> (r: Result<Option<String>, ()>)
    ensures
        r is Ok <==> selector_parses(query@),
        r matches Ok(found) ==> option_view(found) == first_text_of(html@, query@),
{
    let selector = match Selector::parse(query) {
        Ok(selector) => selector,
        Err(_) => return Err(()),
    };
    let document = Html::parse_document(html);
    match document.select(&selector).next() {
        Some(element) => Ok(element.text().next().map(|text| text.to_string())),
        None => Ok(None),
    }
}

/// What extraction yields, given whether the query parses and what it finds:
/// `InvalidQuery` for a query that does not parse, `NoMatch` where nothing
/// is found, else the text found, trimmed.
pub open spec fn extraction(parses: bool, found: Option<Seq<char>>) -> Result<Seq<char>, Error> {
    if !parses {
        Err(Error::InvalidQuery)
    } else {
        match found {
            Some(text) => Ok(trim(text)),
            None => Err(Error::NoMatch),
        }
    }
}

/// What extraction yields for a page and a query.
pub open spec fn extracted(html: Seq<char>, query: Seq<char>) -> Result<Seq<char>, Error> {
    extraction(selector_parses(query), first_text_of(html, query))
}

/// What a selection amounts to: `InvalidQuery` for `Err`, `NoMatch` where
/// nothing was found, else the text found, trimmed.
pub fn text_of_selection(selection: Result<Option<String>, ()>) -> (r: Result<String, Error>)
    ensures
        result_view(r) == extraction(
            selection is Ok,
            match selection {
                Ok(found) => option_view(found),
                Err(_) => None,
            },
        ),
{
    match selection {
        Err(_) => Err(Error::InvalidQuery),
        Ok(None) => Err(Error::NoMatch),
        Ok(Some(text)) => Ok(string_of(&trimmed(&chars_of(text.as_str())))),
    }
}

/// The text, trimmed, of the first element of the page `html` that `query`
/// matches.
///
/// The result is `InvalidQuery` exactly if `query` is not a structural
/// selector, and else `NoMatch` exactly if no element matches or the first
/// that does has no text.
pub fn extract(html: &str, query: &str) -> (r: Result<String, Error>)
    ensures
        result_view(r) == extracted(html@, query@),
{
    text_of_selection(select_first_text(html, query))
}

} // verus!
