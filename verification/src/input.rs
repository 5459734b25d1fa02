//! The parameters that the browsing tools take.
use vstd::prelude::*;
use crate::page::FieldSelector;

verus! {

/// No parameters.
#[derive(Debug)]
pub struct EmptyInput {}

/// A page address.
#[derive(Debug)]
pub struct UrlInput {
    pub url: String,
}

/// A page address and a CSS selector on it.
#[derive(Debug)]
pub struct SelectorInput {
    pub url: String,
    pub selector: String,
}

/// A page address, the CSS selector of an input field, and text to type
/// into it.
#[derive(Debug)]
pub struct TypeInput {
    pub url: String,
    pub selector: String,
    pub text: String,
}

/// A page address and a script expression to evaluate on it.
#[derive(Debug)]
pub struct JsInput {
    pub url: String,
    pub expression: String,
}

/// A page address, the CSS selector of an element to wait for, and how long
/// to wait in milliseconds.
#[derive(Debug)]
pub struct WaitInput {
    pub url: String,
    pub selector: String,
    pub timeout_ms: Option<u64>,
}

/// A page address and cookies to set for it.
#[derive(Debug)]
pub struct CookieInput {
    pub url: String,
    pub cookies: Vec<Cookie>,
}

/// A cookie.
#[derive(Debug)]
pub struct Cookie {
    pub name: String,
    pub value: String,
    pub domain: Option<String>,
}

/// A page address and the named fields to extract from it, each with the
/// CSS selector that picks it out.
pub struct ExtractInput {
    pub url: String,
    pub fields: Vec<FieldSelector>,
}

} // verus!
