use vstd::prelude::*;
use crate::error::ProgramError;

verus! {

/// What the URL parser gives for a text: the serialization of the parsed URL,
/// or the parser's error message.
pub uninterp spec fn url_parse_of(s: Seq<char>) -> Result<Seq<char>, Seq<char>>;

/// Relies on `reqwest::Url::parse` (the `url` crate's parser, default options,
/// no base URL): its outcome depends on the input text alone. On success the
/// text is the URL's serialization (`From<Url> for String`), on failure the
/// message of the `ParseError` (its `Display`).
#[verifier::external_body]
fn parse_url(s: &str) -> (r: Result<String, String>)
    ensures
        match r {
            Ok(t) => url_parse_of(s@) == Ok::<Seq<char>, Seq<char>>(t@),
            Err(e) => url_parse_of(s@) == Err::<Seq<char>, Seq<char>>(e@),
        },
{
    match reqwest::Url::parse(s) {
        Ok(u) => Ok(String::from(u)),
        Err(e) => Err(e.to_string()),
    }
}

/// What building a `Downloadable` from a text gives: the parsed URL's text, or
/// the message of the error.
pub open spec fn downloadable_of(s: Seq<char>) -> Result<Seq<char>, Seq<char>> {
    match url_parse_of(s) {
        Ok(u) => Ok(u),
        Err(e) => Err("Failed to parse url: "@ + e),
    }
}

/// A validated absolute URL, ready to be fetched.
#[derive(Debug)]
pub struct Downloadable {
    url: String,
}

impl View for Downloadable {
    type V = Seq<char>;

    closed spec fn view(&self) -> Seq<char> {
        self.url@
    }
}

/// A build outcome as plain values.
pub open spec fn built_view(r: Result<Downloadable, ProgramError>) -> Result<Seq<char>, Seq<char>> {
    match r {
        Ok(d) => Ok(d@),
        Err(e) => Err(e.message()),
    }
}

impl Downloadable {
    /// Parses `url` as an absolute URL; the result holds the URL's serialization.
    pub fn build(url: String) -> (r: Result<Self, ProgramError>)
        ensures
            built_view(r) == downloadable_of(url@),
    {
        match parse_url(url.as_str()) {
            Ok(text) => Ok(Downloadable { url: text }),
            Err(cause) => {
                let mut message = String::from_str("Failed to parse url: ");
                message.append(cause.as_str());
                Err(ProgramError::new(message))
            },
        }
    }

    /// The URL to fetch.
    pub fn url(&self) -> (r: &str)
        ensures
            r@ == self@,
    {
        self.url.as_str()
    }
}

} // verus!
