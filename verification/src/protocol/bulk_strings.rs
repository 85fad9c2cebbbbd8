//! Bulk string frames: `$<length>\r\n<data>\r\n`, or the null literal
//! `$-1\r\n`.  The null form is wire-distinct from an empty payload.

use vstd::prelude::*;
use crate::protocol::decspec::{null_bulk_lit, spec_dec_bulk, spec_exp_bulk};
use crate::protocol::model::{crlf, dec_digits, enc_frame, FrameV};
use crate::protocol::num::fmt_u64;
use crate::protocol::{
    copy_range, dec_post, lemma_nth_crlf_bounds, parse_length, RespDecode, RespEncode, RespError,
    SpecDec, SpecExp, CR, LF, TAG_BULK,
};

verus! {

/// A length-prefixed byte string; `None` is the explicit null bulk string.
#[derive(Debug, PartialEq)]
pub struct BulkString(pub Option<Vec<u8>>);

impl DeepView for BulkString {
    type V = Option<Seq<u8>>;

    open spec fn deep_view(&self) -> Option<Seq<u8>> {
        match self.0 {
            Some(b) => Some(b@),
            None => None,
        }
    }
}

impl BulkString {
    /// Wrap bytes as a present bulk string.
    pub fn new(s: Vec<u8>) -> (r: Self)
        ensures
            r.deep_view() == Some(s@),
    {
        BulkString(Some(s))
    }

    /// The explicit null bulk string.
    pub fn new_null() -> (r: Self)
        ensures
            r.deep_view() == Option::<Seq<u8>>::None,
    {
        BulkString(None)
    }
}

impl Clone for BulkString {
    /// Copying keeps the payload exactly, null staying null.
    fn clone(&self) -> (r: Self)
        ensures
            r.deep_view() == self.deep_view(),
    {
        match &self.0 {
            Some(b) => BulkString(Some(crate::protocol::clone_bytes(b))),
            None => BulkString(None),
        }
    }
}

/// True when the five-byte null literal for `tag` stands at the front of `t`.
pub(crate) fn null_lit_at(t: &[u8], tag: u8) -> (r: bool)
    ensures
        r == (t@.len() >= 5 && t@.subrange(0, 5) == seq![tag, 45u8, 49u8, CR, LF]),
{
    if t.len() >= 5 && t[0] == tag && t[1] == 45 && t[2] == 49 && t[3] == CR && t[4] == LF {
        proof {
            assert(t@.subrange(0, 5) =~= seq![tag, 45u8, 49u8, CR, LF]);
        }
        true
    } else {
        proof {
            if t@.len() >= 5 {
                let w = t@.subrange(0, 5);
                assert(w[0] == t@[0] && w[1] == t@[1] && w[2] == t@[2] && w[3] == t@[3] && w[4]
                    == t@[4]);
                let lit = seq![tag, 45u8, 49u8, CR, LF];
                assert(lit[0] == tag && lit[1] == 45u8 && lit[2] == 49u8 && lit[3] == CR && lit[4]
                    == LF);
            }
        }
        false
    }
}

/// Decode a bulk string frame standing at the front of `t`.
pub fn dec_bulk_at(t: &[u8]) -> (r: Result<(BulkString, usize), RespError>)
    ensures
        dec_post::<BulkString>(spec_dec_bulk(t@), t@.len() as int, r),
{
    if null_lit_at(t, TAG_BULK) {
        proof {
            assert(t@.subrange(0, 5) == null_bulk_lit());
        }
        return Ok((BulkString(None), 5));
    }
    let (end, len) = match parse_length(t, TAG_BULK) {
        Ok(p) => p,
        Err(e) => {
            return Err(e);
        },
    };
    proof {
        vstd::slice::axiom_spec_len::<u8>(t);
        lemma_nth_crlf_bounds(t@, 1, 1);
    }
    let hdr = end + 2;
    let avail = t.len() - hdr;
    if avail < len || avail - len < 2 {
        return Err(RespError::NotComplete);
    }
    if t[hdr + len] == CR && t[hdr + len + 1] == LF {
        let payload = copy_range(t, hdr, hdr + len);
        Ok((BulkString(Some(payload)), hdr + len + 2))
    } else {
        Err(RespError::InvalidFrame)
    }
}

impl RespDecode for BulkString {
    open spec fn spec_decode(s: Seq<u8>) -> SpecDec<Option<Seq<u8>>> {
        spec_dec_bulk(s)
    }

    open spec fn spec_expect(s: Seq<u8>) -> SpecExp {
        spec_exp_bulk(s)
    }

    fn decode(buf: &mut bytes::BytesMut) -> (r: Result<Self, RespError>) {
        let s = crate::protocol::bytes_buf::buf_bytes(buf);
        match dec_bulk_at(s) {
            Ok((f, n)) => {
                crate::protocol::bytes_buf::buf_advance(buf, n);
                Ok(f)
            },
            Err(e) => Err(e),
        }
    }

    fn expect_length(buf: &[u8]) -> (r: Result<usize, RespError>) {
        if null_lit_at(buf, TAG_BULK) {
            proof {
                assert(buf@.subrange(0, 5) == null_bulk_lit());
            }
            return Ok(5);
        }
        let (end, len) = match parse_length(buf, TAG_BULK) {
            Ok(p) => p,
            Err(e) => {
                return Err(e);
            },
        };
        proof {
            vstd::slice::axiom_spec_len::<u8>(buf);
            lemma_nth_crlf_bounds(buf@, 1, 1);
        }
        let base = end + 2;
        if len > usize::MAX - base {
            return Err(RespError::NotComplete);
        }
        let with_payload = base + len;
        if with_payload > usize::MAX - 2 {
            return Err(RespError::NotComplete);
        }
        Ok(with_payload + 2)
    }
}

impl RespEncode for BulkString {
    open spec fn spec_encoding(&self) -> Seq<u8> {
        enc_frame(FrameV::BulkString(self.deep_view()))
    }

    fn encode(self) -> (r: Vec<u8>) {
        match self.0 {
            None => {
                let mut out: Vec<u8> = Vec::new();
                out.push(TAG_BULK);
                out.push(45);
                out.push(49);
                out.push(CR);
                out.push(LF);
                proof {
                    assert(out@ =~= seq![TAG_BULK, 45u8, 49u8, CR, LF]);
                }
                out
            },
            Some(b) => {
                let mut out: Vec<u8> = Vec::new();
                out.push(TAG_BULK);
                let mut digits = fmt_u64(b.len() as u64);
                out.append(&mut digits);
                out.push(CR);
                out.push(LF);
                let ghost bv = b@;
                let mut payload = b;
                out.append(&mut payload);
                out.push(CR);
                out.push(LF);
                proof {
                    assert(out@ =~= seq![TAG_BULK] + dec_digits(bv.len()) + crlf() + bv + crlf());
                }
                out
            },
        }
    }
}

} // verus!
