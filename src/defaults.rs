//! The computing parts of the handlers that an engine can register by
//! default; what they read and write stays with the host.
use vstd::prelude::*;

use crate::wire::bool_text;

verus! {

/// The MD5 digest of `data`, in lower-case hexadecimal.
pub uninterp spec fn md5_hex(data: Seq<u8>) -> Seq<char>;

/// Relies on `md5::compute` and the `LowerHex` form of its `Digest`: the
/// digest of `data` as 32 lower-case hexadecimal digits, which depends on
/// the bytes alone.
#[verifier::external_body]
fn md5_digest_hex(data: &[u8]) -> (r: String)
    ensures
        r@ == md5_hex(data@),
        r@.len() == 32,
{
    format!("{:x}", md5::compute(data))
}

/// The reply to `ping`.
pub fn pong() -> (r: Result<String, String>)
    ensures
        r matches Ok(s) && s@ == "pong from switch!"@,
{
    Ok(String::from_str("pong from switch!"))
}

/// The reply to `get_md5` once the file's bytes are read: the digest of
/// `data` in lower-case hexadecimal.
pub fn md5_reply(data: &[u8]) -> (r: Result<String, String>)
    ensures
        r matches Ok(s) && s@ == md5_hex(data@) && s@.len() == 32,
{
    Ok(md5_digest_hex(data))
}

/// The reply to `file_exists` or `dir_exists`: `true` or `false`.
pub fn exists_reply(found: bool) -> (r: Result<String, String>)
    ensures
        r matches Ok(s) && s@ == bool_text(found),
{
    if found {
        Ok(String::from_str("true"))
    } else {
        Ok(String::from_str("false"))
    }
}

} // verus!
