//! The content digest of canonical bundle text, computed by `evorule_hash`.

use vstd::prelude::*;

verus! {

/// The BLAKE3 digest of the UTF-8 bytes of `text`, written as hex digits.
pub uninterp spec fn blake3_hex(text: Seq<char>) -> Seq<char>;

/// Calls `evorule_hash::digest` on the UTF-8 bytes of `text`. The crate documents the
/// result as the BLAKE3 hash of the bytes in 64 lower-case hex digits without prefix;
/// the contract names that result and states its length.
#[verifier::external_body]
pub(crate) fn digest_text(text: &str) -> (r: String)
    ensures
        r@ == blake3_hex(text@),
        r@.len() == 64,
{
    evorule_hash::digest(text.as_bytes())
}

/// Calls `evorule_hash::prefixed`, which its source writes as `format!("blake3:{d}")`:
/// the digest with the `blake3:` prefix.
#[verifier::external_body]
pub(crate) fn prefixed(d: &str) -> (r: String)
    ensures
        r@ == "blake3:"@ + d@,
{
    evorule_hash::prefixed(d)
}

} // verus!
