//! The three request handlers, on plain values: shorten a submitted URL,
//! resolve a code for a redirect, and list every known pair.
use vstd::prelude::*;
use crate::code_gen::short_url_of;
use crate::registry::{
    code_in_use, codes_well_formed, get_or_create_step, resolves_to, KnownUrls,
};
use crate::validation::{url_parse, validate, InvalidUrlError};

verus! {

/// The body of a request to shorten a URL.
pub struct UrlRequest {
    pub url: String,
}

/// Why a URL could not be shortened.
pub enum ShortenError {
    /// The submitted text is not an absolute URL.
    InvalidUrl(InvalidUrlError),
    /// Every code drawn for the URL already belonged to another one.
    NoFreshCode,
}

/// Validates the submitted URL and returns its short URL, filing it under a
/// new code when it was not known yet.
pub fn shorten(url_req: &UrlRequest, known_urls: &mut KnownUrls) -> (r: Result<String, ShortenError>)
    requires
        old(known_urls).wf(),
    ensures
        final(known_urls).wf(),
        codes_well_formed(final(known_urls)@),
        url_parse(url_req.url@) is None ==> r is Err && r->Err_0 is InvalidUrl
            && final(known_urls)@ == old(known_urls)@,
        url_parse(url_req.url@) is Some ==> {
            let u = url_parse(url_req.url@)->Some_0;
            &&& old(known_urls)@.contains_key(u) ==> r is Ok
            &&& old(known_urls)@ == Map::<Seq<char>, Seq<char>>::empty() ==> r is Ok
            &&& r is Ok ==> get_or_create_step(
                old(known_urls)@,
                u,
                final(known_urls)@,
                final(known_urls)@[u],
            ) && r->Ok_0@ == short_url_of(final(known_urls)@[u])
            &&& r is Err ==> r->Err_0 is NoFreshCode && final(known_urls)@ == old(known_urls)@
                && !old(known_urls)@.contains_key(u)
        },
{
    proof {
        known_urls.lemma_wf_injective();
    }
    match validate(url_req.url.as_str()) {
        Err(e) => Err(ShortenError::InvalidUrl(e)),
        Ok(canonical) => match known_urls.get_or_create(canonical.as_str()) {
            Some(s) => Ok(s),
            None => Err(ShortenError::NoFreshCode),
        },
    }
}

/// The URL that the short code `redirect_id` leads to, or `None` when no URL
/// is filed under it.
pub fn redirect(redirect_id: &str, known_urls: &KnownUrls) -> (r: Option<String>)
    requires
        known_urls.wf(),
    ensures
        r is Some <==> code_in_use(known_urls@, redirect_id@),
        r is Some ==> resolves_to(known_urls@, redirect_id@, r->Some_0@),
{
    known_urls.resolve(redirect_id)
}

/// Every known URL with its short URL, each URL once.
pub fn debugger(known_urls: &KnownUrls) -> (r: Vec<(String, String)>)
    requires
        known_urls.wf(),
    ensures
        codes_well_formed(known_urls@),
        forall|i: int|
            0 <= i < r@.len() ==> known_urls@.contains_key((#[trigger] r@[i]).0@) && r@[i].1@
                == short_url_of(known_urls@[r@[i].0@]),
        forall|u: Seq<char>|
            #[trigger] known_urls@.contains_key(u) ==> exists|i: int|
                0 <= i < r@.len() && #[trigger] r@[i].0@ == u,
        forall|i: int, j: int|
            0 <= i < r@.len() && 0 <= j < r@.len() && i != j ==> #[trigger] r@[i].0@
                != #[trigger] r@[j].0@,
{
    known_urls.snapshot()
}

} // verus!
