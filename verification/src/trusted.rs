//! The crate's contact points with outside code: token generation, file-name
//! sanitization, and timestamp formatting.  Each wrapper's contract states
//! what the called crate's source shows, and nothing more; everything built
//! on top of them is verified against these contracts.

use vstd::prelude::*;
use rand::Rng;

verus! {

/// A character that a generated storage token may contain.
pub open spec fn is_token_char(c: char) -> bool {
    ('0' <= c && c <= '9') || ('a' <= c && c <= 'z') || ('A' <= c && c <= 'Z')
}

/// The whole sequence is made of token characters.
pub open spec fn all_token_chars(s: Seq<char>) -> bool {
    forall|i: int| 0 <= i < s.len() ==> is_token_char(#[trigger] s[i])
}

/// Relies on rand's `thread_rng` with the `Alphanumeric` distribution: each
/// sampled byte is one of `A`-`Z`, `a`-`z`, `0`-`9`.  The outcome is random,
/// so the contract states only what holds of every draw: sixteen token
/// characters.
#[verifier::external_body]
pub fn generate_token() -> (r: String)
    ensures
        r@.len() == 16,
        all_token_chars(r@),
{
    rand::thread_rng()
        .sample_iter(&rand::distributions::Alphanumeric)
        .take(16)
        .map(char::from)
        .collect()
}

/// What sanitize-filename's `sanitize_with_options` returns for a name, with
/// the Windows rules switched on; a function of the characters alone.
pub uninterp spec fn sanitized_of(s: Seq<char>) -> Seq<char>;

/// Relies on sanitize-filename's `sanitize_with_options`, with the Windows
/// rules applied on every platform so that the result is
/// platform-independent.  Its source shows: the result is the input with
/// illegal and control characters removed (among them `/` and `\`), then
/// truncated to at most 255 bytes; a string of five to 255 token characters
/// matches none of its rules and passes through unchanged.
#[verifier::external_body]
pub fn sanitize_name(name: &str) -> (r: String)
    ensures
        r@ == sanitized_of(name@),
        r@.len() <= 255,
        forall|i: int| 0 <= i < r@.len() ==> #[trigger] r@[i] != '/' && r@[i] != '\\',
        5 <= name@.len() <= 255 && all_token_chars(name@) ==> r@ == name@,
{
    sanitize_filename::sanitize_with_options(
        name,
        sanitize_filename::Options { windows: true, truncate: true, replacement: "" },
    )
}

/// What chrono renders for a timestamp under `%Y-%m-%d %H:%M:%S` in UTC;
/// a function of the timestamp alone.
pub uninterp spec fn datetime_string_of(t: int) -> Seq<char>;

/// Relies on chrono's `DateTime::from_timestamp` and `format`: UTC, so the
/// rendering depends on the timestamp alone.  The precondition keeps the
/// timestamp far inside the range chrono documents, so the conversion cannot
/// fail.
#[verifier::external_body]
pub fn format_timestamp(secs: i64) -> (r: String)
    requires
        0 <= secs <= crate::config::MAX_TIMESTAMP + crate::config::MAX_RETENTION_SECONDS as i64,
    ensures
        r@ == datetime_string_of(secs as int),
{
    let dt = chrono::DateTime::from_timestamp(secs, 0).unwrap();
    dt.format("%Y-%m-%d %H:%M:%S").to_string()
}

}
