//! The answers that the browsing tools give, built from what the browser or
//! the network handed back.
use vstd::prelude::*;
use vstd::string::StringExecFns;
use vstd::utf8::encode_utf8;
use crate::dom::{select_text_nodes, selected_text_nodes};
use crate::text::chars_of;
use crate::encoding::{base64_encode, base64_len_fits, decimal, decimal_string, encode_base64};
use crate::page::{
    extract_links, extract_metadata, extract_structured, first_attr, first_text, html_to_text,
    page_links, page_text, query_texts, selector_query, structured_fields, ExtractedField,
    FieldSelector, Link, PageMetadata,
};
use crate::dom::selected_texts_with_attr;

verus! {

/// How long a wait for an element lasts when no timeout is given, in
/// milliseconds.
pub const DEFAULT_WAIT_TIMEOUT_MS: u64 = 5000;

/// The answer a tool gives when its work failed: the failure after `Error: `.
pub open spec fn error_text(message: Seq<char>) -> Seq<char> {
    "Error: "@ + message
}

/// The answer for a failure described by `message`.
pub fn error_reply(message: &str) -> (reply: String)
    ensures
        reply@ == error_text(message@),
{
    let mut reply = String::from_str("Error: ");
    reply.append(message);
    reply
}

/// The answer of the page-reading tools: the readable text of the fetched
/// page, or the failure.
pub fn read_page_reply(fetched: Result<String, String>) -> (reply: String)
    ensures
        match fetched {
            Ok(html) => reply@ == page_text(html@),
            Err(e) => reply@ == error_text(e@),
        },
{
    match fetched {
        Ok(html) => html_to_text(html.as_str()),
        Err(e) => error_reply(e.as_str()),
    }
}

/// The answer of the tools that hand back a text as it came (the rendered
/// HTML, the value of a script): that text, or the failure.
pub fn text_reply(result: Result<String, String>) -> (reply: String)
    ensures
        match result {
            Ok(text) => reply@ == text@,
            Err(e) => reply@ == error_text(e@),
        },
{
    match result {
        Ok(text) => text,
        Err(e) => error_reply(e.as_str()),
    }
}

/// A captured image or document, ready to be sent.
pub struct MediaCapture {
    /// `png` or `pdf`.
    pub format: String,
    /// How many bytes were captured.
    pub size_bytes: usize,
    /// The captured bytes in standard base64.
    pub base64: String,
}

/// The answer of the capturing tools: the format, size and base64 text of
/// the captured bytes, or the failure.
pub fn media_reply(format: &str, captured: Result<Vec<u8>, String>) -> (reply: Result<
    MediaCapture,
    String,
>)
    requires
        captured matches Ok(bytes) ==> base64_len_fits(bytes@.len()),
    ensures
        match captured {
            Ok(bytes) => reply matches Ok(m) && m.format@ == format@ && m.size_bytes == bytes.len()
                && m.base64@ == base64_encode(bytes@),
            Err(e) => reply matches Err(text) && text@ == error_text(e@),
        },
{
    match captured {
        Ok(bytes) => {
            let base64 = encode_base64(bytes.as_slice());
            Ok(MediaCapture { format: String::from_str(format), size_bytes: bytes.len(), base64 })
        },
        Err(e) => Err(error_reply(e.as_str())),
    }
}

/// The number of bytes of the UTF-8 encoding of `s`, as `str::len` reports
/// it in a `usize`.
pub open spec fn utf8_len(s: Seq<char>) -> nat {
    (encode_utf8(s).len() as usize) as nat
}

/// The report of a click on `selector` that left a page of `html`: the
/// selector and the number of characters of the page.
pub open spec fn clicked_text(selector: Seq<char>, html: Seq<char>) -> Seq<char> {
    "Clicked '"@ + selector + "'. Page has "@ + decimal(html.len()) + " chars after click."@
}

/// The answer of the clicking tool: the selector clicked and the number of
/// characters of the page afterwards, or the failure.
pub fn click_reply(selector: &str, result: Result<String, String>) -> (reply: String)
    ensures
        match result {
            Ok(html) => reply@ == clicked_text(selector@, html@),
            Err(e) => reply@ == error_text(e@),
        },
{
    match result {
        Ok(html) => {
            let size = chars_of(html.as_str()).len();
            let mut reply = String::from_str("Clicked '");
            reply.append(selector);
            reply.append("'. Page has ");
            let count = decimal_string(size as u128);
            reply.append(count.as_str());
            reply.append(" chars after click.");
            reply
        },
        Err(e) => error_reply(e.as_str()),
    }
}

/// The answer of the typing tool: the selector typed into, or the failure.
pub fn typed_reply(selector: &str, result: Result<(), String>) -> (reply: String)
    ensures
        match result {
            Ok(_) => reply@ == "Typed into '"@ + selector@ + "'"@,
            Err(e) => reply@ == error_text(e@),
        },
{
    match result {
        Ok(_) => {
            let mut reply = String::from_str("Typed into '");
            reply.append(selector);
            reply.append("'");
            reply
        },
        Err(e) => error_reply(e.as_str()),
    }
}

/// The answer of the waiting tool: the selector found, or the failure.
pub fn found_reply(selector: &str, result: Result<(), String>) -> (reply: String)
    ensures
        match result {
            Ok(_) => reply@ == "Element '"@ + selector@ + "' found"@,
            Err(e) => reply@ == error_text(e@),
        },
{
    match result {
        Ok(_) => {
            let mut reply = String::from_str("Element '");
            reply.append(selector);
            reply.append("' found");
            reply
        },
        Err(e) => error_reply(e.as_str()),
    }
}

/// The timeout of a wait: the one given, else `DEFAULT_WAIT_TIMEOUT_MS`.
pub fn wait_timeout_ms(timeout_ms: Option<u64>) -> (ms: u64)
    ensures
        ms == match timeout_ms {
            Some(t) => t,
            None => DEFAULT_WAIT_TIMEOUT_MS,
        },
{
    match timeout_ms {
        Some(t) => t,
        None => DEFAULT_WAIT_TIMEOUT_MS,
    }
}

/// What the navigating tool reports of a page.
pub struct PageVisit {
    /// The address asked for.
    pub url: String,
    /// The page title, if it has one.
    pub title: Option<String>,
    /// How long fetching the page took, in milliseconds.
    pub load_time_ms: u128,
    /// The length of the page in bytes.
    pub size_bytes: usize,
}

/// The answer of the navigating tool: the address, the page title, the time
/// the fetch took and the size of the page, or the failure.
pub fn navigate_reply(url: &str, fetched: Result<String, String>, elapsed_ms: u128) -> (reply:
    Result<PageVisit, String>)
    ensures
        match fetched {
            Ok(html) => reply matches Ok(visit) && visit.url@ == url@ && visit.title.deep_view()
                == first_text(selected_text_nodes(html@, "title"@)) && visit.load_time_ms == elapsed_ms
                && visit.size_bytes == utf8_len(html@),
            Err(e) => reply matches Err(text) && text@ == error_text(e@),
        },
{
    match fetched {
        Ok(html) => {
            let meta = extract_metadata(html.as_str());
            Ok(
                PageVisit {
                    url: String::from_str(url),
                    title: meta.title,
                    load_time_ms: elapsed_ms,
                    size_bytes: html.as_str().len(),
                },
            )
        },
        Err(e) => Err(error_reply(e.as_str())),
    }
}

/// Every failure answer starts with `Error: ` and then says what failed.
pub proof fn lemma_error_replies_are_marked(message: Seq<char>)
    ensures
        error_text(message).take(7) == "Error: "@,
        error_text(message).skip(7) == message,
{
    reveal_strlit("Error: ");
    assert(error_text(message).take(7) =~= "Error: "@);
    assert(error_text(message).skip(7) =~= message);
}

/// The answer of the link-listing tool: the links of the fetched page (see
/// `page_links`), or the failure.
pub fn links_reply(fetched: Result<String, String>, base_url: &str) -> (reply: Result<
    Vec<Link>,
    String,
>)
    ensures
        match fetched {
            Ok(html) => reply matches Ok(links) && links@.map_values(|l: Link| l@) == page_links(
                html@,
                base_url@,
            ),
            Err(e) => reply matches Err(text) && text@ == error_text(e@),
        },
{
    match fetched {
        Ok(html) => Ok(extract_links(html.as_str(), base_url)),
        Err(e) => Err(error_reply(e.as_str())),
    }
}

/// The answer of the metadata tool: the metadata of the fetched page, or
/// the failure.
pub fn metadata_reply(fetched: Result<String, String>) -> (reply: Result<PageMetadata, String>)
    ensures
        match fetched {
            Ok(html) => reply matches Ok(meta) && {
                &&& meta.title.deep_view() == first_text(selected_text_nodes(html@, "title"@))
                &&& meta.description.deep_view() == first_attr(
                    selected_texts_with_attr(html@, "meta[name=description]"@, "content"@),
                )
                &&& meta.og_title.deep_view() == first_attr(
                    selected_texts_with_attr(html@, "meta[property='og:title']"@, "content"@),
                )
                &&& meta.og_image.deep_view() == first_attr(
                    selected_texts_with_attr(html@, "meta[property='og:image']"@, "content"@),
                )
                &&& meta.canonical.deep_view() == first_attr(
                    selected_texts_with_attr(html@, "link[rel=canonical]"@, "href"@),
                )
            },
            Err(e) => reply matches Err(text) && text@ == error_text(e@),
        },
{
    match fetched {
        Ok(html) => Ok(extract_metadata(html.as_str())),
        Err(e) => Err(error_reply(e.as_str())),
    }
}

/// The answer of the selector-query tool: the texts that the query gives on
/// the fetched page (see `selector_query`); a failure naming the selector
/// when it is not valid; or the failure of the fetch.
pub fn query_reply(fetched: Result<String, String>, selector: &str) -> (reply: Result<
    Vec<String>,
    String,
>)
    ensures
        match fetched {
            Ok(html) => match selected_text_nodes(html@, selector@) {
                Some(_) => reply matches Ok(texts) && texts.deep_view() == selector_query(
                    html@,
                    selector@,
                ),
                None => reply matches Err(text) && text@ == error_text(
                    "Invalid selector: "@ + selector@,
                ),
            },
            Err(e) => reply matches Err(text) && text@ == error_text(e@),
        },
{
    match fetched {
        Ok(html) => {
            let found = select_text_nodes(html.as_str(), selector);
            match found {
                Some(_) => Ok(query_texts(&found, selector)),
                None => {
                    let mut message = String::from_str("Invalid selector: ");
                    message.append(selector);
                    Err(error_reply(message.as_str()))
                },
            }
        },
        Err(e) => Err(error_reply(e.as_str())),
    }
}

/// The answer of the structured-extraction tool: the fields extracted from
/// the fetched page (see `structured_fields`), or the failure.
pub fn structured_reply(fetched: Result<String, String>, fields: &Vec<FieldSelector>) -> (reply:
    Result<Vec<ExtractedField>, String>)
    ensures
        match fetched {
            Ok(html) => reply matches Ok(extracted) && extracted@.map_values(
                |f: ExtractedField| f@,
            ) == structured_fields(html@, fields@.map_values(|f: FieldSelector| f@)),
            Err(e) => reply matches Err(text) && text@ == error_text(e@),
        },
{
    match fetched {
        Ok(html) => Ok(extract_structured(html.as_str(), fields)),
        Err(e) => Err(error_reply(e.as_str())),
    }
}

} // verus!
