//! The RESP wire protocol: framed values, their encoding, and an incremental
//! decoder that never consumes bytes from a buffer holding only part of a frame.

use vstd::prelude::*;

pub mod array;
pub mod bool;
pub mod bulk_strings;
pub mod bytes_buf;
pub mod decspec;
pub mod double;
pub mod integer;
pub mod laws;
pub mod map;
pub mod model;
pub mod null;
pub mod num;
pub mod protocols;
pub mod set;
pub mod simple_error;
pub mod simple_string;

pub use self::array::RespArray;
pub use self::bulk_strings::BulkString;
pub use self::double::RespDouble;
pub use self::map::RespMap;
pub use self::null::RespNull;
pub use self::protocols::RespFrame;
pub use self::set::RespSet;
pub use self::simple_error::SimpleError;
pub use self::simple_string::SimpleString;

verus! {

/// Carriage return, the first byte of the frame terminator.
pub const CR: u8 = 13;
/// Line feed, the second byte of the frame terminator.
pub const LF: u8 = 10;
/// Length in bytes of the CR LF terminator.
pub const CRLF_LEN: usize = 2;

/// Tag byte `+` of a simple string frame.
pub const TAG_SIMPLE: u8 = 43;
/// Tag byte `-` of a simple error frame.
pub const TAG_ERROR: u8 = 45;
/// Tag byte `:` of an integer frame.
pub const TAG_INTEGER: u8 = 58;
/// Tag byte `$` of a bulk string frame.
pub const TAG_BULK: u8 = 36;
/// Tag byte `*` of an array frame.
pub const TAG_ARRAY: u8 = 42;
/// Tag byte `_` of the generic null frame.
pub const TAG_NULL: u8 = 95;
/// Tag byte `#` of a boolean frame.
pub const TAG_BOOL: u8 = 35;
/// Tag byte `,` of a double frame.
pub const TAG_DOUBLE: u8 = 44;
/// Tag byte `%` of a map frame.
pub const TAG_MAP: u8 = 37;
/// Tag byte `~` of a set frame.
pub const TAG_SET: u8 = 126;

/// Outcome of decoding: either a complete frame was produced, or the caller
/// must wait for more bytes, or the bytes prove the stream malformed.
#[derive(Debug, Clone, PartialEq, Eq, Structural)]
pub enum RespError {
    /// The bytes present violate the wire grammar.
    InvalidFrame,
    /// The leading tag byte does not belong to the expected frame type.
    InvalidFrameType,
    /// The buffer holds a valid prefix of a frame; retry once more bytes arrive.
    NotComplete,
}

/// Mathematical outcome of decoding one value from a byte sequence:
/// the value's view plus the exact number of bytes it occupies, or one of
/// the three non-value outcomes mirroring `RespError`.
pub enum SpecDec<V> {
    Val(V, int),
    Inc,
    FmtFrame,
    FmtType,
}

/// Mathematical outcome of locating the end of a simple (terminator-delimited)
/// frame: the index of the first CR LF, or incompleteness, or a tag mismatch.
pub enum SpecEnd {
    End(int),
    Inc,
    FmtType,
}

/// Mathematical outcome of predicting a frame's total byte span.
pub enum SpecExp {
    Len(int),
    Inc,
    FmtFrame,
    FmtType,
}


/// What a verified decoder returns: on success the decoded value's view and
/// the count of bytes consumed agree with the mathematical decoder, and on
/// every other outcome the error variant does.
pub open spec fn dec_post<T: DeepView>(
    sd: SpecDec<<T as DeepView>::V>,
    slen: int,
    r: Result<(T, usize), RespError>,
) -> bool {
    match sd {
        SpecDec::Val(v, n) => r matches Ok(p) && p.0.deep_view() == v && p.1 == n && n <= slen,
        SpecDec::Inc => r == Err::<(T, usize), RespError>(RespError::NotComplete),
        SpecDec::FmtFrame => r == Err::<(T, usize), RespError>(RespError::InvalidFrame),
        SpecDec::FmtType => r == Err::<(T, usize), RespError>(RespError::InvalidFrameType),
    }
}

/// Encoding to wire bytes.  Encoding is total: it never fails.
pub trait RespEncode: Sized + DeepView {
    /// The exact bytes this value encodes to.
    spec fn spec_encoding(&self) -> Seq<u8>;

    /// Encode the value to exactly its wire bytes.
    fn encode(self) -> (r: Vec<u8>)
        ensures
            r@ == self.spec_encoding(),
    ;
}

/// Decoding from a connection buffer.  A decoder consumes exactly one
/// complete frame's bytes, and consumes nothing when the buffer holds only a
/// prefix of a frame or malformed bytes.
pub trait RespDecode: Sized + DeepView {
    /// The mathematical decoder this type's `decode` implements.
    spec fn spec_decode(s: Seq<u8>) -> SpecDec<<Self as DeepView>::V>;

    /// The mathematical span predictor this type's `expect_length`
    /// implements.
    spec fn spec_expect(s: Seq<u8>) -> SpecExp;

    /// Decode one frame from the front of `buf`.  On success exactly the
    /// frame's bytes are consumed; on `NotComplete` and on every error the
    /// buffer is left untouched.
    fn decode(buf: &mut bytes::BytesMut) -> (r: Result<Self, RespError>)
        ensures
            match Self::spec_decode(crate::protocol::bytes_buf::bytes_view(*old(buf))) {
                SpecDec::Val(v, n) => r matches Ok(f) && f.deep_view() == v
                    && crate::protocol::bytes_buf::bytes_view(*final(buf))
                    == crate::protocol::bytes_buf::bytes_view(*old(buf)).skip(n),
                SpecDec::Inc => r matches Err(e) && e == RespError::NotComplete && *final(buf)
                    == *old(buf),
                SpecDec::FmtFrame => r matches Err(e) && e == RespError::InvalidFrame
                    && *final(buf) == *old(buf),
                SpecDec::FmtType => r matches Err(e) && e == RespError::InvalidFrameType
                    && *final(buf) == *old(buf),
            },
    ;

    /// How many bytes the frame at the front of `buf` will occupy once fully
    /// present, judged from its header without decoding payloads.
    fn expect_length(buf: &[u8]) -> (r: Result<usize, RespError>)
        ensures
            match Self::spec_expect(buf@) {
                SpecExp::Len(n) => r matches Ok(v) && v == n,
                SpecExp::Inc => r matches Err(e) && e == RespError::NotComplete,
                SpecExp::FmtFrame => r matches Err(e) && e == RespError::InvalidFrame,
                SpecExp::FmtType => r matches Err(e) && e == RespError::InvalidFrameType,
            },
    ;
}


/// Copy the bytes of `s` between `from` and `to` into a fresh vector.
pub(crate) fn copy_range(s: &[u8], from: usize, to: usize) -> (r: Vec<u8>)
    requires
        from <= to <= s@.len(),
    ensures
        r@ == s@.subrange(from as int, to as int),
{
    let mut out: Vec<u8> = Vec::new();
    let mut i: usize = from;
    while i < to
        invariant
            from <= i <= to <= s@.len(),
            out@ == s@.subrange(from as int, i as int),
        decreases to - i,
    {
        out.push(s[i]);
        proof {
            assert(s@.subrange(from as int, i as int).push(s@[i as int]) =~= s@.subrange(
                from as int,
                i + 1 as int,
            ));
        }
        i = i + 1;
    }
    out
}

/// Copy a byte vector element by element.
pub(crate) fn clone_bytes(v: &Vec<u8>) -> (r: Vec<u8>)
    ensures
        r@ == v@,
{
    let mut out: Vec<u8> = Vec::new();
    let mut i: usize = 0;
    while i < v.len()
        invariant
            i <= v@.len(),
            out@ == v@.take(i as int),
        decreases v@.len() - i,
    {
        out.push(v[i]);
        proof {
            assert(v@.take(i as int).push(v@[i as int]) =~= v@.take(i + 1 as int));
        }
        i = i + 1;
    }
    proof {
        assert(v@.take(v@.len() as int) =~= v@);
    }
    out
}

/// Append the bytes of `src` to `out`.
pub(crate) fn extend_bytes(out: &mut Vec<u8>, src: &Vec<u8>)
    ensures
        final(out)@ == old(out)@ + src@,
{
    let mut i: usize = 0;
    while i < src.len()
        invariant
            i <= src@.len(),
            out@ == old(out)@ + src@.take(i as int),

        decreases src@.len() - i,
    {
        out.push(src[i]);
        proof {
            assert(old(out)@ + src@.take(i as int).push(src@[i as int]) =~= old(out)@
                + src@.take(i + 1 as int));
            assert(src@.take(i as int).push(src@[i as int]) =~= src@.take(i + 1 as int));
        }
        i = i + 1;
    }
    proof {
        assert(src@.take(src@.len() as int) =~= src@);
    }
}

/// True when the two-byte terminator CR LF stands at index `i` of `s`.
pub open spec fn crlf_at(s: Seq<u8>, i: int) -> bool {
    0 <= i && i + 1 < s.len() && s[i] == CR && s[i + 1] == LF
}

/// Index of the `n`th CR LF terminator at or after `start`, scanning one byte
/// at a time, or `None` when fewer than `n` terminators follow.
pub open spec fn nth_crlf_from(s: Seq<u8>, start: int, n: nat) -> Option<int>
    decreases s.len() - start,
{
    if start < 0 || start + 1 >= s.len() {
        None
    } else if s[start] == CR && s[start + 1] == LF {
        if n <= 1 {
            Some(start)
        } else {
            nth_crlf_from(s, start + 1, (n - 1) as nat)
        }
    } else {
        nth_crlf_from(s, start + 1, n)
    }
}

/// Index of the first CR LF at or after `start`.
pub open spec fn first_crlf_from(s: Seq<u8>, start: int) -> Option<int> {
    nth_crlf_from(s, start, 1)
}

/// Find the `nth` CR LF terminator, searching from offset 1 (the tag byte is
/// never part of a terminator).
pub fn find_crlf(buf: &[u8], nth: usize) -> (r: Option<usize>)
    requires
        nth >= 1,
    ensures
        match r {
            Some(i) => nth_crlf_from(buf@, 1, nth as nat) == Some(i as int),
            None => nth_crlf_from(buf@, 1, nth as nat) is None,
        },
{
    let n = buf.len();
    if n < 2 {
        return None;
    }
    let mut count: usize = 0;
    let mut i: usize = 1;
    while i < n - 1
        invariant
            1 <= i <= n,
            n == buf@.len(),
            2 <= n,
            count < nth,
            nth_crlf_from(buf@, 1, nth as nat) == nth_crlf_from(buf@, i as int, (nth - count) as nat),
        decreases n - i,
    {
        if buf[i] == CR && buf[i + 1] == LF {
            count = count + 1;
            if count == nth {
                return Some(i);
            }
        }
        i = i + 1;
    }
    None
}


/// A found terminator lies at or after the search start and fits in the
/// buffer with its second byte.
pub proof fn lemma_nth_crlf_bounds(s: Seq<u8>, start: int, n: nat)
    requires
        nth_crlf_from(s, start, n) is Some,
    ensures
        start <= nth_crlf_from(s, start, n).unwrap(),
        nth_crlf_from(s, start, n).unwrap() + 1 < s.len(),
        crlf_at(s, nth_crlf_from(s, start, n).unwrap()),
    decreases s.len() - start,
{
    if start < 0 || start + 1 >= s.len() {
    } else if s[start] == CR && s[start + 1] == LF {
        if n <= 1 {
        } else {
            lemma_nth_crlf_bounds(s, start + 1, (n - 1) as nat);
        }
    } else {
        lemma_nth_crlf_bounds(s, start + 1, n);
    }
}

/// Locate the end of a simple frame: the buffer must hold at least a tag and
/// a terminator, start with the expected tag, and contain a first CR LF.
pub fn extract_simple_frame_data(buf: &[u8], tag: u8) -> (r: Result<usize, RespError>)
    ensures
        match crate::protocol::decspec::spec_simple_end(buf@, tag) {
            SpecEnd::End(e) => r matches Ok(v) && v == e,
            SpecEnd::Inc => r == Err::<usize, RespError>(RespError::NotComplete),
            SpecEnd::FmtType => r == Err::<usize, RespError>(RespError::InvalidFrameType),
        },
{
    if buf.len() < 3 {
        return Err(RespError::NotComplete);
    }
    if buf[0] != tag {
        return Err(RespError::InvalidFrameType);
    }
    match find_crlf(buf, 1) {
        Some(end) => Ok(end),
        None => Err(RespError::NotComplete),
    }
}

/// Parse a length header: the tag, a non-negative decimal length, and the
/// terminator.  Returns the terminator's index and the length.
pub fn parse_length(buf: &[u8], tag: u8) -> (r: Result<(usize, usize), RespError>)
    ensures
        match crate::protocol::decspec::spec_simple_end(buf@, tag) {
            SpecEnd::End(e) => match crate::protocol::decspec::spec_parse_usize(
                buf@.subrange(1, e),
            ) {
                Some(l) => r matches Ok(p) && p.0 == e && p.1 == l,
                None => r == Err::<(usize, usize), RespError>(RespError::InvalidFrame),
            },
            SpecEnd::Inc => r == Err::<(usize, usize), RespError>(RespError::NotComplete),
            SpecEnd::FmtType => r == Err::<(usize, usize), RespError>(RespError::InvalidFrameType),
        },
{
    let end = match extract_simple_frame_data(buf, tag) {
        Ok(e) => e,
        Err(e) => {
            return Err(e);
        },
    };
    proof {
        lemma_nth_crlf_bounds(buf@, 1, 1);
    }
    match crate::protocol::num::parse_digits_u64(buf, 1, end, usize::MAX as u64) {
        Some(v) => Ok((end, v as usize)),
        None => Err(RespError::InvalidFrame),
    }
}

} // verus!
