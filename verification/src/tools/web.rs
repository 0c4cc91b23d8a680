//! Web addresses.

use crate::utils::text::same_text;
use vstd::prelude::*;

verus! {

/// A URL that was parsed.
#[derive(Debug)]
pub struct Location {
    /// What was parsed.
    pub raw: String,
    /// Its scheme.
    pub scheme: String,
    /// Its normal form.
    pub text: String,
}

/// The contents of a [`Location`].
pub struct LocationView {
    /// See [`Location::raw`].
    pub raw: Seq<char>,
    /// See [`Location::scheme`].
    pub scheme: Seq<char>,
    /// See [`Location::text`].
    pub text: Seq<char>,
}

impl View for Location {
    type V = LocationView;

    open spec fn view(&self) -> LocationView {
        LocationView { raw: self.raw@, scheme: self.scheme@, text: self.text@ }
    }
}

impl Location {
    /// The same location.
    pub fn copy(&self) -> (r: Location)
        ensures
            r@ == self@,
    {
        Location {
            raw: self.raw.as_str().to_owned(),
            scheme: self.scheme.as_str().to_owned(),
            text: self.text.as_str().to_owned(),
        }
    }
}

/// The contents of a parsed URL, or of the message why there is none.
pub open spec fn parse_view(r: Result<Location, String>) -> Result<LocationView, Seq<char>> {
    match r {
        Ok(url) => Ok(url@),
        Err(message) => Err(message@),
    }
}

/// The scheme and the normal form of a URL, or the message why it is none.
pub uninterp spec fn url_parts(raw: Seq<char>) -> Result<(Seq<char>, Seq<char>), Seq<char>>;

/// What parsing a URL gives.
pub open spec fn parsed(raw: Seq<char>) -> Result<LocationView, Seq<char>> {
    match url_parts(raw) {
        Ok((scheme, text)) => Ok(LocationView { raw, scheme, text }),
        Err(message) => Err(message),
    }
}

/// Whether a URL with this scheme and this normal form is sure to be read back
/// from its normal form.
pub open spec fn reads_back(scheme: Seq<char>, text: Seq<char>) -> bool {
    is_web_scheme(scheme) && text.len() <= 2000
}

/// `reqwest::Url::parse`, then `scheme` and `to_string`: the scheme and the
/// normal form of a URL, or the message of the error. An `http` or `https` URL
/// whose normal form is not overlong is read back from it unchanged: parsing the
/// normal form gives the same scheme and the same form, which `Url` keeps as an
/// invariant of its own.
///
/// Nothing is said of reading back longer ones. Of an internationalized name,
/// the parser writes labels of up to 1000 characters but reads back only encoded
/// labels of up to 2000, so that it refuses what it wrote where the encoding is
/// longer than that. Nor is anything said of other schemes.
#[verifier::external_body]
fn split_url(raw: &str) -> (r: Result<(String, String), String>)
    ensures
        match r {
            Ok((scheme, text)) => {
                &&& url_parts(raw@) == Ok::<_, Seq<char>>((scheme@, text@))
                &&& reads_back(scheme@, text@) ==> url_parts(text@) == url_parts(raw@)
            },
            Err(message) => url_parts(raw@) == Err::<(Seq<char>, Seq<char>), _>(message@),
        },
{
    match reqwest::Url::parse(raw) {
        Ok(url) => Ok((url.scheme().to_string(), url.to_string())),
        Err(e) => Err(e.to_string()),
    }
}

/// Parses a URL. The normal form of a web URL that is not overlong parses to
/// itself.
pub fn parse_url(raw: &str) -> (r: Result<Location, String>)
    ensures
        parse_view(r) == parsed(raw@),
        r matches Ok(url) ==> reads_back(url@.scheme, url@.text) ==> parsed(url@.text) == Ok::<
            _,
            Seq<char>,
        >((LocationView { raw: url@.text, scheme: url@.scheme, text: url@.text })),
{
    match split_url(raw) {
        Ok((scheme, text)) => Ok(Location { raw: raw.to_owned(), scheme, text }),
        Err(message) => Err(message),
    }
}

/// Whether a scheme is one of the web's.
pub open spec fn is_web_scheme(scheme: Seq<char>) -> bool {
    scheme == "http"@ || scheme == "https"@
}

/// Whether a scheme is `http` or `https`.
pub fn web_scheme(scheme: &str) -> (r: bool)
    ensures
        r == is_web_scheme(scheme@),
{
    same_text(scheme, "http") || same_text(scheme, "https")
}

} // verus!
