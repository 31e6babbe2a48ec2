//! Custom error pages and the error responses built from them.
use crate::config::{ErrorPage, ErrorPagesConfig};
use crate::tables::{page_table, page_table_get, page_table_insert, page_table_new};
use dashmap::DashMap;
use vstd::prelude::*;
use vstd::string::{StrSliceExecFns, StringSliceAdditionalSpecFns};

verus! {

/// The body of each configured status code that could be read.
pub struct ErrorPageStore {
    pages: DashMap<u16, Vec<u8>>,
}

impl View for ErrorPageStore {
    type V = Map<u16, Seq<u8>>;

    closed spec fn view(&self) -> Map<u16, Seq<u8>> {
        page_table(self.pages)
    }
}

/// The pages kept after loading the first `n` configured pages, where
/// `loaded[i]` is the content read for page `i` (none when it could not be
/// read): a later page for the same code replaces an earlier one.
pub open spec fn pages_loaded(pages: Seq<ErrorPage>, loaded: Seq<Option<Vec<u8>>>, n: int) -> Map<
    u16,
    Seq<u8>,
>
    decreases n,
{
    if n <= 0 {
        Map::empty()
    } else {
        match loaded[n - 1] {
            Some(b) => pages_loaded(pages, loaded, n - 1).insert(pages[n - 1].code, b@),
            None => pages_loaded(pages, loaded, n - 1),
        }
    }
}

impl ErrorPageStore {
    /// The store of the pages of `config` whose content could be read;
    /// `loaded[i]` is what reading page `i` gave.
    pub fn from_config(config: &ErrorPagesConfig, loaded: Vec<Option<Vec<u8>>>) -> (r: Self)
        requires
            loaded@.len() == config.pages@.len(),
        ensures
            r@ == pages_loaded(config.pages@, loaded@, config.pages@.len() as int),
    {
        let mut pages = page_table_new();
        let mut i: usize = 0;
        while i < loaded.len()
            invariant
                i <= loaded@.len(),
                loaded@.len() == config.pages@.len(),
                page_table(pages) == pages_loaded(config.pages@, loaded@, i as int),
            decreases loaded@.len() - i,
        {
            match &loaded[i] {
                Some(content) => {
                    page_table_insert(&mut pages, config.pages[i].code, content.clone());
                },
                None => {},
            }
            i = i + 1;
        }
        ErrorPageStore { pages }
    }

    /// The page body for `status`, if one was loaded.
    pub fn get(&self, status: u16) -> (r: Option<Vec<u8>>)
        ensures
            r is Some == self@.contains_key(status),
            r matches Some(b) ==> b@ == self@[status],
    {
        page_table_get(&self.pages, status)
    }
}

/// An error response: its status, its body, and whether the body is a custom
/// HTML page.
pub struct ErrorResponse {
    pub status: u16,
    pub body: Vec<u8>,
    pub html: bool,
}

/// The response for `status`: the custom page for it when one is loaded, else
/// `default_body` as plain text.
pub fn get_error_response(store: &Option<ErrorPageStore>, status: u16, default_body: &str) -> (r:
    ErrorResponse)
    ensures
        r.status == status,
        match store {
            Some(s) if s@.contains_key(status) => r.html && r.body@ == s@[status],
            _ => !r.html && r.body@ == default_body.spec_bytes(),
        },
{
    match store {
        Some(s) => match s.get(status) {
            Some(body) => {
                return ErrorResponse { status, body, html: true };
            },
            None => {},
        },
        None => {},
    }
    ErrorResponse { status, body: default_body.as_bytes_vec(), html: false }
}

} // verus!
