//! Short codes: how they are drawn and how they are shown as short URLs.
use vstd::prelude::*;

verus! {

/// Number of characters in a generated short code.
pub const CODE_LEN: usize = 10;

/// The URL-safe alphabet that codes are drawn from.
pub open spec fn is_code_char(c: char) -> bool {
    c == '_' || c == '-' || ('0' <= c && c <= '9') || ('a' <= c && c <= 'z') || ('A' <= c
        && c <= 'Z')
}

/// A well-formed generated code: `CODE_LEN` characters of the URL-safe alphabet.
pub open spec fn is_code(s: Seq<char>) -> bool {
    &&& s.len() == CODE_LEN
    &&& forall|i: int| 0 <= i < s.len() ==> is_code_char(#[trigger] s[i])
}

/// The fixed host that every short URL starts with.
pub open spec fn host_prefix() -> Seq<char> {
    seq!['s', 'h', 'o', 'r', 't', '.', 'f', 'e', '/']
}

/// The short URL under which `code` is published.
pub open spec fn short_url_of(code: Seq<char>) -> Seq<char> {
    host_prefix() + code
}

/// Draws a fresh random code.
///
/// Relies on `nanoid::format`, called with nanoid's default random source and
/// its URL-safe alphabet: the string it returns has exactly the requested
/// number of characters, each one taken from the given alphabet.
#[verifier::external_body]
pub(crate) fn generate_code() -> (r: String)
    ensures
        is_code(r@),
{
    nanoid::format(nanoid::rngs::default, &nanoid::alphabet::SAFE, CODE_LEN)
}

/// Renders `code` as a short URL, `short.fe/<code>`.
pub fn short_url(code: &str) -> (r: String)
    ensures
        r@ == short_url_of(code@),
{
    let prefix = "short.fe/";
    proof {
        reveal_strlit("short.fe/");
    }
    assert(prefix@ =~= host_prefix());
    let mut s = String::from_str(prefix);
    s.append(code);
    s
}

} // verus!
