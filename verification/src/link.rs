//! URLs, as the `url` crate understands them.

use vstd::prelude::*;

verus! {

/// Why a reference could not be resolved: the base is no URL, or the reference does not fit
/// it. Both carry the message of the `url` crate.
#[derive(Debug)]
pub enum LinkError {
    Base(String),
    Reference(String),
}

/// The model of a `LinkError`.
pub enum LinkErrorView {
    Base(Seq<char>),
    Reference(Seq<char>),
}

impl View for LinkError {
    type V = LinkErrorView;

    open spec fn view(&self) -> LinkErrorView {
        match self {
            LinkError::Base(m) => LinkErrorView::Base(m@),
            LinkError::Reference(m) => LinkErrorView::Reference(m@),
        }
    }
}

/// The model of a resolved reference.
pub open spec fn joined_view(r: Result<String, LinkError>) -> Result<Seq<char>, LinkErrorView> {
    match r {
        Ok(u) => Ok(u@),
        Err(e) => Err(e@),
    }
}

/// The host of a URL, where the text is a URL that has one.
pub uninterp spec fn url_host(url: Seq<char>) -> Option<Seq<char>>;

/// A reference resolved against a base URL.
pub uninterp spec fn url_join(base: Seq<char>, reference: Seq<char>) -> Result<
    Seq<char>,
    LinkErrorView,
>;

/// `Url::parse` and `Url::host_str` of the `url` crate.
#[verifier::external_body]
pub(crate) fn host_of(url: &str) -> (r: Option<String>)
    ensures
        match r {
            Some(h) => url_host(url@) == Some(h@),
            None => url_host(url@) is None,
        },
{
    url::Url::parse(url).ok()?.host_str().map(|h| h.to_string())
}

/// `Url::parse` of the base and `Url::join` of the reference, both of the `url` crate.
#[verifier::external_body]
pub(crate) fn join_urls(base: &str, reference: &str) -> (r: Result<String, LinkError>)
    ensures
        joined_view(r) == url_join(base@, reference@),
{
    match url::Url::parse(base) {
        Ok(b) => match b.join(reference) {
            Ok(u) => Ok(u.to_string()),
            Err(e) => Err(LinkError::Reference(e.to_string())),
        },
        Err(e) => Err(LinkError::Base(e.to_string())),
    }
}

/// A resolved reference is seen as its text, and an error as its own kind with its message.
pub proof fn law_joined_is_seen_as_it_is(u: String, e: String)
    ensures
        joined_view(Ok(u)) == Ok::<Seq<char>, LinkErrorView>(u@),
        joined_view(Err(LinkError::Base(e))) == Err::<Seq<char>, LinkErrorView>(
            LinkErrorView::Base(e@),
        ),
        joined_view(Err(LinkError::Reference(e))) == Err::<Seq<char>, LinkErrorView>(
            LinkErrorView::Reference(e@),
        ),
{
}

} // verus!
