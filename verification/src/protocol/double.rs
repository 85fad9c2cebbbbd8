//! Double frames: `,[+|-]<digits>[.<digits>][e[+|-]<digits>]\r\n`.
//!
//! The frame stores the decimal text between the tag and the terminator
//! verbatim, so a decoded double re-encodes to exactly the bytes it came
//! from.  Producing the text for a machine float is the caller's concern.

use vstd::prelude::*;
use crate::protocol::decspec::{spec_dec_double, spec_simple_end};
use crate::protocol::model::{crlf, digits_end, enc_frame, is_double_text, FrameV};
use crate::protocol::{
    copy_range, dec_post, extract_simple_frame_data, lemma_nth_crlf_bounds, RespDecode,
    RespEncode, RespError, SpecDec, SpecEnd, SpecExp, CR, LF, TAG_DOUBLE,
};

verus! {

/// A 64-bit floating point value, held as its wire text.
#[derive(Debug, PartialEq)]
pub struct RespDouble(pub Vec<u8>);

impl DeepView for RespDouble {
    type V = Seq<u8>;

    open spec fn deep_view(&self) -> Seq<u8> {
        self.0@
    }
}

impl RespDouble {
    /// Wrap decimal text as a double frame.
    pub fn new(text: Vec<u8>) -> (r: Self)
        ensures
            r.deep_view() == text@,
    {
        RespDouble(text)
    }
}

impl Clone for RespDouble {
    /// Copying keeps the payload exactly.
    fn clone(&self) -> (r: Self)
        ensures
            r.deep_view() == self.deep_view(),
    {
        RespDouble(crate::protocol::clone_bytes(&self.0))
    }
}

/// First index at or after `i` whose byte is not a decimal digit.
fn digits_run(v: &Vec<u8>, i: usize) -> (r: usize)
    requires
        i <= v@.len(),
    ensures
        r == digits_end(v@, i as int),
        i <= r <= v@.len(),
{
    let mut j: usize = i;
    while j < v.len() && 48 <= v[j] && v[j] <= 57
        invariant
            i <= j <= v@.len(),
            digits_end(v@, i as int) == digits_end(v@, j as int),
        decreases v@.len() - j,
    {
        j = j + 1;
    }
    j
}

/// Check the double grammar: an optional sign, at least one digit, an
/// optional fraction with at least one digit, and an optional exponent with
/// an optional sign and at least one digit.
pub fn check_double_text(v: &Vec<u8>) -> (r: bool)
    ensures
        r == is_double_text(v@),
{
    let n = v.len();
    let start: usize = if n > 0 && (v[0] == 43 || v[0] == 45) {
        1
    } else {
        0
    };
    let j = digits_run(v, start);
    if j == start {
        return false;
    }
    let k: usize = if j < n && v[j] == 46 {
        digits_run(v, j + 1)
    } else {
        j
    };
    if k != j && k <= j + 1 {
        return false;
    }
    if k == n {
        return true;
    }
    if v[k] != 101 {
        return false;
    }
    let m: usize = if k + 1 < n && (v[k + 1] == 43 || v[k + 1] == 45) {
        k + 2
    } else {
        k + 1
    };
    let e2 = digits_run(v, m);
    e2 == n && n > m
}

/// Decode a double frame standing at the front of `t`.
pub fn dec_double_at(t: &[u8]) -> (r: Result<(RespDouble, usize), RespError>)
    ensures
        dec_post::<RespDouble>(spec_dec_double(t@), t@.len() as int, r),
{
    let end = match extract_simple_frame_data(t, TAG_DOUBLE) {
        Ok(e) => e,
        Err(e) => {
            return Err(e);
        },
    };
    proof {
        vstd::slice::axiom_spec_len::<u8>(t);
        lemma_nth_crlf_bounds(t@, 1, 1);
    }
    let text = copy_range(t, 1, end);
    if check_double_text(&text) {
        Ok((RespDouble(text), end + 2))
    } else {
        Err(RespError::InvalidFrame)
    }
}

impl RespDecode for RespDouble {
    open spec fn spec_decode(s: Seq<u8>) -> SpecDec<Seq<u8>> {
        spec_dec_double(s)
    }

    open spec fn spec_expect(s: Seq<u8>) -> SpecExp {
        match spec_simple_end(s, TAG_DOUBLE) {
            SpecEnd::End(end) => SpecExp::Len(end + 2),
            SpecEnd::Inc => SpecExp::Inc,
            SpecEnd::FmtType => SpecExp::FmtType,
        }
    }

    fn decode(buf: &mut bytes::BytesMut) -> (r: Result<Self, RespError>) {
        let s = crate::protocol::bytes_buf::buf_bytes(buf);
        match dec_double_at(s) {
            Ok((f, n)) => {
                crate::protocol::bytes_buf::buf_advance(buf, n);
                Ok(f)
            },
            Err(e) => Err(e),
        }
    }

    fn expect_length(buf: &[u8]) -> (r: Result<usize, RespError>) {
        match extract_simple_frame_data(buf, TAG_DOUBLE) {
            Ok(end) => {
                proof {
                    vstd::slice::axiom_spec_len::<u8>(buf);
                    lemma_nth_crlf_bounds(buf@, 1, 1);
                }
                Ok(end + 2)
            },
            Err(e) => Err(e),
        }
    }
}

impl RespEncode for RespDouble {
    open spec fn spec_encoding(&self) -> Seq<u8> {
        enc_frame(FrameV::Double(self.deep_view()))
    }

    fn encode(self) -> (r: Vec<u8>) {
        let mut out: Vec<u8> = Vec::new();
        out.push(TAG_DOUBLE);
        let mut payload = self.0;
        out.append(&mut payload);
        out.push(CR);
        out.push(LF);
        proof {
            assert(out@ =~= seq![TAG_DOUBLE] + self.deep_view() + crlf());
        }
        out
    }
}

} // verus!
