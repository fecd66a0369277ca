//! The stored form of a history record's value: duration, timer name
//! and tag, laid out as
//!
//! ```text
//! duration (8 bytes BE) | name length (8 bytes BE) | name (UTF-8)
//!                       | tag length (8 bytes BE)  | tag (UTF-8)
//! ```
//!
//! The decoder accepts exactly the strings the encoder produces
//! ([`lemma_codec_round_trip`]); anything else — a short value, a
//! length that disagrees with the value's size, bytes that are not
//! UTF-8 — is rejected, which is how a corrupt or foreign entry gets
//! skipped during a scan rather than surfacing as an error.

use crate::keys::{be_bytes, be_num, decode_key, encode_key, lemma_be_bytes_num, lemma_be_num_bound};
use vstd::prelude::*;
use vstd::slice::slice_subrange;
use vstd::string::StrSliceExecFns;
use vstd::utf8::{decode_utf8, encode_utf8, valid_utf8};

verus! {

broadcast use vstd::utf8::encode_utf8_valid_utf8, vstd::utf8::encode_utf8_decode_utf8;

/// The value bytes that stand for a record with the given duration,
/// timer name and tag.
pub open spec fn spec_encode(duration: u64, name: Seq<char>, tag: Seq<char>) -> Seq<u8> {
    let nb = encode_utf8(name);
    let tb = encode_utf8(tag);
    be_bytes(duration) + be_bytes(nb.len() as u64) + nb + be_bytes(tb.len() as u64) + tb
}

/// What a stored value stands for: the duration, name and tag it
/// encodes, or `None` when it is not a well-formed record value.
pub open spec fn spec_decode(bytes: Seq<u8>) -> Option<(u64, Seq<char>, Seq<char>)> {
    if bytes.len() < 16 {
        None
    } else {
        let d = be_num(bytes.subrange(0, 8));
        let nlen = be_num(bytes.subrange(8, 16));
        if bytes.len() < 24 + nlen {
            None
        } else {
            let nb = bytes.subrange(16, 16 + nlen);
            let tlen = be_num(bytes.subrange(16 + nlen, 24 + nlen));
            if bytes.len() != 24 + nlen + tlen {
                None
            } else {
                let tb = bytes.subrange(24 + nlen, 24 + nlen + tlen);
                if valid_utf8(nb) && valid_utf8(tb) {
                    Some((d as u64, decode_utf8(nb), decode_utf8(tb)))
                } else {
                    None
                }
            }
        }
    }
}

/// Decoding undoes encoding: every record value the encoder writes is
/// read back as exactly the duration, name and tag it was written
/// from. (Every `String` satisfies the bounds: its UTF-8 form is at
/// most `usize::MAX` bytes.)
pub proof fn lemma_codec_round_trip(duration: u64, name: Seq<char>, tag: Seq<char>)
    requires
        encode_utf8(name).len() <= u64::MAX,
        encode_utf8(tag).len() <= u64::MAX,
    ensures
        spec_decode(spec_encode(duration, name, tag)) == Some((duration, name, tag)),
{
    let nb = encode_utf8(name);
    let tb = encode_utf8(tag);
    let e = spec_encode(duration, name, tag);
    lemma_be_bytes_num(duration);
    lemma_be_bytes_num(nb.len() as u64);
    lemma_be_bytes_num(tb.len() as u64);
    assert(e.subrange(0, 8) =~= be_bytes(duration));
    assert(e.subrange(8, 16) =~= be_bytes(nb.len() as u64));
    let nl = nb.len() as int;
    let tl = tb.len() as int;
    assert(e.subrange(16, 16 + nl) =~= nb);
    assert(e.subrange(16 + nl, 24 + nl) =~= be_bytes(tb.len() as u64));
    assert(e.subrange(24 + nl, 24 + nl + tl) =~= tb);
}

fn push_bytes(out: &mut Vec<u8>, src: &[u8])
    ensures
        final(out)@ == old(out)@ + src@,
{
    let n = src.len();
    let mut i: usize = 0;
    proof {
        assert(out@ =~= old(out)@ + src@.subrange(0, 0));
    }
    while i < n
        invariant
            i <= n,
            n == src@.len(),
            out@ == old(out)@ + src@.subrange(0, i as int),
        decreases n - i,
    {
        out.push(src[i]);
        i = i + 1;
        proof {
            assert(out@ =~= old(out)@ + src@.subrange(0, i as int));
        }
    }
    proof {
        assert(src@.subrange(0, src@.len() as int) =~= src@);
    }
}

/// The stored value for a record, exactly [`spec_encode`].
pub fn encode_record(duration: u64, name: &str, tag: &str) -> (r: Vec<u8>)
    ensures
        r@ == spec_encode(duration, name@, tag@),
{
    let nb = name.as_bytes_vec();
    let tb = tag.as_bytes_vec();
    let mut r = encode_key(duration);
    let mut nlen = encode_key(nb.len() as u64);
    r.append(&mut nlen);
    push_bytes(&mut r, nb.as_slice());
    let mut tlen = encode_key(tb.len() as u64);
    r.append(&mut tlen);
    push_bytes(&mut r, tb.as_slice());
    proof {
        assert(r@ =~= spec_encode(duration, name@, tag@));
    }
    r
}

/// Relies on `core::str::from_utf8`: it accepts exactly the valid
/// UTF-8 byte strings, viewing those bytes as the characters they
/// encode.
#[verifier::external_body]
fn utf8_to_string(bytes: &[u8]) -> (r: Option<String>)
    ensures
        match r {
            Some(s) => bytes@ == encode_utf8(s@),
            None => !valid_utf8(bytes@),
        },
{
    match core::str::from_utf8(bytes) {
        Ok(s) => Some(s.to_owned()),
        Err(_) => None,
    }
}

/// Reads a stored value back, exactly [`spec_decode`]: the record it
/// stands for, or `None` for a value in any other shape.
pub fn decode_record(bytes: &[u8]) -> (r: Option<(u64, String, String)>)
    ensures
        match r {
            Some(rec) => spec_decode(bytes@) == Some((rec.0, rec.1@, rec.2@)),
            None => spec_decode(bytes@) is None,
        },
{
    let len = bytes.len();
    if len < 16 {
        return None;
    }
    let d = decode_key(slice_subrange(bytes, 0, 8));
    let nlen64 = decode_key(slice_subrange(bytes, 8, 16));
    proof {
        lemma_be_num_bound(bytes@.subrange(0, 8));
    }
    if nlen64 > u64::MAX - 24 || (len as u64) < 24 + nlen64 {
        return None;
    }
    let nlen = nlen64 as usize;
    let nb = slice_subrange(bytes, 16, 16 + nlen);
    let tlen64 = decode_key(slice_subrange(bytes, 16 + nlen, 24 + nlen));
    if tlen64 > u64::MAX - 24 - nlen64 || (len as u64) != 24 + nlen64 + tlen64 {
        return None;
    }
    let tlen = tlen64 as usize;
    let tb = slice_subrange(bytes, 24 + nlen, 24 + nlen + tlen);
    match (utf8_to_string(nb), utf8_to_string(tb)) {
        (Some(name), Some(tag)) => Some((d, name, tag)),
        _ => None,
    }
}

} // verus!
