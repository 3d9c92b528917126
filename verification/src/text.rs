//! Byte blocks and strings in the cache.

use crate::codec::{
    le_bytes, lemma_parse_u64, lemma_taken, lemma_u64_is_written_back, lemma_u64_reads_no_further,
    parse_u64, read_part, read_u64, reads, reads_same, taken, write_u64, ByteReader, Parsed,
};
use crate::errors::CacheError;
use vstd::prelude::*;
use vstd::slice::{slice_subrange, slice_to_vec};
use vstd::utf8::{decode_utf8, encode_utf8, valid_utf8};

verus! {

/// The bytes of a block: its length, and the bytes themselves.
pub open spec fn encode_bytes(data: Seq<u8>) -> Seq<u8> {
    le_bytes(data.len(), 8) + data
}

/// Reading a block of bytes.
pub open spec fn parse_bytes(s: Seq<u8>) -> Parsed<Seq<u8>> {
    match parse_u64(s) {
        Err(e) => Err(e),
        Ok((len, rest)) => if len > usize::MAX {
            Err(CacheError::AllocationTooLarge)
        } else if rest.len() < len {
            Err(CacheError::UnexpectedEof)
        } else {
            Ok((rest.take(len as int), rest.skip(len as int)))
        },
    }
}

/// Reading a string: a block of bytes that is UTF-8.
pub open spec fn parse_string(s: Seq<u8>) -> Parsed<Seq<char>> {
    match parse_bytes(s) {
        Err(e) => Err(e),
        Ok((data, rest)) => if valid_utf8(data) {
            Ok((decode_utf8(data), rest))
        } else {
            Err(CacheError::InvalidUtf8)
        },
    }
}

/// A block of bytes that was written is read back.
pub proof fn lemma_bytes_read_back(data: Seq<u8>, tail: Seq<u8>)
    requires
        data.len() <= usize::MAX,
    ensures
        parse_bytes(encode_bytes(data) + tail) == Ok::<(Seq<u8>, Seq<u8>), CacheError>(
            (data, tail),
        ),
{
    let more = data + tail;
    assert(encode_bytes(data) + tail =~= le_bytes(data.len(), 8) + more);
    lemma_parse_u64(data.len() as u64, more);
    assert(more.take(data.len() as int) =~= data);
    assert(more.skip(data.len() as int) =~= tail);
}

/// A string that was written is read back.
pub proof fn lemma_string_reads_back(text: Seq<char>, tail: Seq<u8>)
    requires
        encode_utf8(text).len() <= usize::MAX,
    ensures
        parse_string(encode_bytes(encode_utf8(text)) + tail) == Ok::<
            (Seq<char>, Seq<u8>),
            CacheError,
        >((text, tail)),
{
    lemma_bytes_read_back(encode_utf8(text), tail);
    vstd::utf8::encode_utf8_valid_utf8(text);
    vstd::utf8::encode_utf8_decode_utf8(text);
}

/// Reading a block of bytes depends on nothing behind it.
pub proof fn lemma_bytes_reads_no_further(s: Seq<u8>, tail: Seq<u8>)
    ensures
        reads_same(s, parse_bytes(s), parse_bytes(read_part(s, parse_bytes(s)) + tail), tail),
{
    if let Ok((data, s2)) = parse_bytes(s) {
        if let Ok((len, s1)) = parse_u64(s) {
            let t1 = taken(s1, s2) + tail;
            lemma_u64_reads_no_further(s, t1);
            assert(taken(s1, s2) =~= data);
            assert(s1 =~= taken(s1, s2) + s2);
            lemma_taken(s, s1, s2, tail);
            assert(t1.take(len as int) =~= data);
            assert(t1.skip(len as int) =~= tail);
        }
    }
}

/// Reading a string depends on nothing behind it.
pub proof fn lemma_string_reads_no_further(s: Seq<u8>, tail: Seq<u8>)
    ensures
        reads_same(s, parse_string(s), parse_string(read_part(s, parse_string(s)) + tail), tail),
{
    lemma_bytes_reads_no_further(s, tail);
}

/// Writing a string that was read gives the bytes that it was read from.
pub proof fn lemma_string_is_written_back(s: Seq<u8>)
    ensures
        parse_string(s) matches Ok((text, rest)) ==> s == encode_bytes(encode_utf8(text)) + rest
            && encode_utf8(text).len() <= usize::MAX,
{
    if let Ok((data, rest)) = parse_bytes(s) {
        lemma_u64_is_written_back(s);
        if valid_utf8(data) {
            vstd::utf8::decode_utf8_encode_utf8(data);
            assert(s =~= encode_bytes(data) + rest);
        }
    }
}

/// `String::from_utf8`: it gives a string exactly when the bytes are UTF-8, and that string holds
/// the characters that the bytes encode.
#[verifier::external_body]
fn string_from_utf8(data: Vec<u8>) -> (out: Option<String>)
    ensures
        out is Some <==> valid_utf8(data@),
        out matches Some(text) ==> text@ == decode_utf8(data@),
{
    String::from_utf8(data).ok()
}

/// Appends a block of bytes behind its length.
pub fn write_bytes(w: &mut Vec<u8>, data: &[u8])
    ensures
        final(w)@ == old(w)@ + encode_bytes(data@),
{
    write_u64(w, data.len() as u64);
    w.extend_from_slice(data);
    proof {
        assert(w@ =~= old(w)@ + encode_bytes(data@));
    }
}

/// Reads a block of bytes.
pub fn read_bytes(r: &mut ByteReader) -> (out: Result<Vec<u8>, CacheError>)
    requires
        old(r).wf(),
    ensures
        reads(*old(r), *final(r), out, parse_bytes(old(r).rest())),
{
    let len = read_u64(r)?;
    if len > usize::MAX as u64 {
        return Err(CacheError::AllocationTooLarge);
    }
    let len: usize = len as usize;
    let available: usize = r.data.len();
    if available - r.pos < len {
        return Err(CacheError::UnexpectedEof);
    }
    let ghost here = r.rest();
    let data = slice_to_vec(slice_subrange(r.data, r.pos, r.pos + len));
    r.pos = r.pos + len;
    proof {
        assert(data@ =~= here.take(len as int));
        assert(r.rest() =~= here.skip(len as int));
    }
    Ok(data)
}

/// Appends a string's UTF-8 bytes behind their number.
pub fn write_string(w: &mut Vec<u8>, s: &str)
    ensures
        final(w)@ == old(w)@ + encode_bytes(encode_utf8(s@)),
{
    write_bytes(w, s.as_bytes());
}

/// Reads a string.
pub fn read_string(r: &mut ByteReader) -> (out: Result<String, CacheError>)
    requires
        old(r).wf(),
    ensures
        reads(*old(r), *final(r), out, parse_string(old(r).rest())),
{
    let data = read_bytes(r)?;
    match string_from_utf8(data) {
        Some(text) => Ok(text),
        None => Err(CacheError::InvalidUtf8),
    }
}

/// A block of bytes says in eight bytes how many there are, and holds them as they are; a text is the block
/// of its UTF-8. Both are read back, whatever follows.
pub proof fn law_blocks_say_their_length(data: Seq<u8>, text: Seq<char>, tail: Seq<u8>)
    requires
        data.len() <= usize::MAX,
        encode_utf8(text).len() <= usize::MAX,
    ensures
        encode_bytes(data).len() == 8 + data.len(),
        encode_bytes(data).take(8) == le_bytes(data.len(), 8),
        encode_bytes(data).skip(8) == data,
        parse_bytes(encode_bytes(data) + tail) == Ok::<(Seq<u8>, Seq<u8>), CacheError>(
            (data, tail),
        ),
        parse_string(encode_bytes(encode_utf8(text)) + tail) == Ok::<
            (Seq<char>, Seq<u8>),
            CacheError,
        >((text, tail)),
{
    crate::codec::lemma_le_bytes_len(data.len(), 8);
    assert(encode_bytes(data).take(8) =~= le_bytes(data.len(), 8));
    assert(encode_bytes(data).skip(8) =~= data);
    lemma_bytes_read_back(data, tail);
    lemma_string_reads_back(text, tail);
}

/// A text is read only where its bytes are UTF-8; a block that is cut off, and one that is longer than
/// memory can be, are refused.
pub proof fn law_bad_blocks_are_refused(s: Seq<u8>)
    ensures
        s.len() < 8 ==> parse_bytes(s) == Err::<(Seq<u8>, Seq<u8>), CacheError>(
            CacheError::UnexpectedEof,
        ),
        parse_u64(s) matches Ok((len, rest)) ==> {
            &&& len > usize::MAX ==> parse_bytes(s) == Err::<(Seq<u8>, Seq<u8>), CacheError>(
                CacheError::AllocationTooLarge,
            )
            &&& len <= usize::MAX && rest.len() < len ==> parse_bytes(s) == Err::<
                (Seq<u8>, Seq<u8>),
                CacheError,
            >(CacheError::UnexpectedEof)
        },
        parse_bytes(s) matches Ok((data, _)) ==> {
            &&& !valid_utf8(data) ==> parse_string(s) == Err::<(Seq<char>, Seq<u8>), CacheError>(
                CacheError::InvalidUtf8,
            )
            &&& valid_utf8(data) ==> parse_string(s) is Ok
        },
        parse_bytes(s) is Err ==> parse_string(s) is Err && parse_string(s)->Err_0 == parse_bytes(
            s,
        )->Err_0,
{
}

} // verus!
