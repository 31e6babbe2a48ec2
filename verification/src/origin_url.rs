//! The parts of an absolute URL that routing, validation and proxying read.
use vstd::prelude::*;

verus! {

/// An absolute URL, held as its serialization together with the scheme and
/// authority components that the proxy reads.
pub struct OriginUrl {
    /// The full serialization (what `url::Url::as_str` gives).
    pub serialization: String,
    /// The lower-cased scheme, without the `:` delimiter.
    pub scheme: String,
    /// The authority (`host[:port]`, with any user info), empty when absent.
    pub authority: String,
}

/// The character view of an [`OriginUrl`].
pub struct OriginUrlView {
    pub serialization: Seq<char>,
    pub scheme: Seq<char>,
    pub authority: Seq<char>,
}

impl View for OriginUrl {
    type V = OriginUrlView;

    open spec fn view(&self) -> OriginUrlView {
        OriginUrlView {
            serialization: self.serialization@,
            scheme: self.scheme@,
            authority: self.authority@,
        }
    }
}

impl Clone for OriginUrl {
    fn clone(&self) -> (r: Self)
        ensures
            r@ == self@,
    {
        OriginUrl {
            serialization: self.serialization.clone(),
            scheme: self.scheme.clone(),
            authority: self.authority.clone(),
        }
    }
}

/// What `url::Url::parse` gives on `input`: `None` where it refuses the
/// input, else the serialization, scheme and authority of the parsed URL.
pub uninterp spec fn url_parse(input: Seq<char>) -> Option<OriginUrlView>;

impl OriginUrl {
    /// Parses an absolute URL with the `url` crate.
    ///
    /// Trusted: calls `url::Url::parse` and reads `as_str`, `scheme` and
    /// `authority` of the result; the contract claims only that the outcome
    /// is the one named by `url_parse` for this input, which holds since the
    /// parser is a function of its input alone.
    #[verifier::external_body]
    pub(crate) fn parse(input: &str) -> (r: Option<OriginUrl>)
        ensures
            match r {
                Some(u) => url_parse(input@) == Some(u@),
                None => url_parse(input@) is None,
            },
    {
        match url::Url::parse(input) {
            Ok(u) => Some(
                OriginUrl {
                    serialization: u.as_str().to_string(),
                    scheme: u.scheme().to_string(),
                    authority: u.authority().to_string(),
                },
            ),
            Err(_) => None,
        }
    }
}

} // verus!
