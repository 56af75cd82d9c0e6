//! The calls into outside crates and into std functions that vstd does not
//! specify. Each item states only what the called function documents.
use vstd::prelude::*;
use crate::entities::opt_view;
use crate::users::is_nonce;

verus! {

/// The serialization of the absolute URL that `s` parses to, if it parses.
pub uninterp spec fn url_parsed(s: Seq<char>) -> Option<Seq<char>>;

/// The lowercase mapping of `s`.
pub uninterp spec fn lower_of(s: Seq<char>) -> Seq<char>;

/// Relies on `url::Url::parse`: parses an absolute URL; its serialization is
/// a function of the input alone.
#[verifier::external_body]
pub(crate) fn parse_url(s: &str) -> (r: Option<String>)
    ensures
        opt_view(r) == url_parsed(s@),
{
    url::Url::parse(s).ok().map(String::from)
}

/// Relies on `str::to_lowercase`: the result depends on the characters alone.
#[verifier::external_body]
pub(crate) fn to_lowercase(s: &str) -> (r: String)
    ensures
        r@ == lower_of(s@),
{
    s.to_lowercase()
}

/// Relies on `uuid::Uuid::new_v4` and its simple format: a random id written
/// as 32 lowercase hexadecimal digits.
#[verifier::external_body]
pub(crate) fn new_id() -> (r: String)
    ensures
        is_nonce(r@),
{
    uuid::Uuid::new_v4().to_simple_ref().to_string()
}

/// Relies on `chrono::Utc::now`: the current time in milliseconds since the
/// epoch. Nothing is promised of its value.
#[verifier::external_body]
pub(crate) fn now_ms() -> (r: i64) {
    chrono::Utc::now().timestamp_millis()
}

} // verus!
