//! The mathematical decoder: for every byte sequence it says whether a
//! complete frame stands at the front, how many bytes it occupies, and which
//! value it denotes — or that the bytes are an incomplete prefix, or malformed.
//! The executable decoders are verified against these functions, and
//! `spec_exp_frame` predicts a frame's total span the same way.

use vstd::prelude::*;
use crate::protocol::model::{
    all_digits, digits_val, is_double_text, FrameV,
};
use crate::protocol::{
    first_crlf_from, SpecDec, SpecEnd, SpecExp, CR, LF, TAG_ARRAY, TAG_BOOL, TAG_BULK,
    TAG_DOUBLE, TAG_ERROR, TAG_INTEGER, TAG_MAP, TAG_NULL, TAG_SET, TAG_SIMPLE,
};

verus! {

/// Locate the end of a simple (terminator-delimited) frame: the buffer must
/// hold the tag, and the first CR LF after it marks the end.  Fewer than three
/// bytes are always incomplete, never malformed.
pub open spec fn spec_simple_end(s: Seq<u8>, tag: u8) -> SpecEnd {
    if s.len() < 3 {
        SpecEnd::Inc
    } else if s[0] != tag {
        SpecEnd::FmtType
    } else {
        match first_crlf_from(s, 1) {
            Some(end) => SpecEnd::End(end),
            None => SpecEnd::Inc,
        }
    }
}

/// A length field: one or more decimal digits whose value fits in `usize`.
pub open spec fn spec_parse_usize(t: Seq<u8>) -> Option<int> {
    if t.len() > 0 && all_digits(t) && digits_val(t) <= usize::MAX {
        Some(digits_val(t) as int)
    } else {
        None
    }
}

/// A 64-bit signed integer field: an optional sign followed by one or more
/// decimal digits, rejected when the value leaves the `i64` range.
pub open spec fn spec_parse_i64(t: Seq<u8>) -> Option<i64> {
    let neg = t.len() > 0 && t[0] == 45;
    let ds = if t.len() > 0 && (t[0] == 43 || t[0] == 45) {
        t.skip(1)
    } else {
        t
    };
    if ds.len() == 0 || !all_digits(ds) {
        None
    } else if neg {
        if digits_val(ds) <= 0x8000_0000_0000_0000 {
            Some((-(digits_val(ds) as int)) as i64)
        } else {
            None
        }
    } else {
        if digits_val(ds) <= 0x7fff_ffff_ffff_ffff {
            Some(digits_val(ds) as i64)
        } else {
            None
        }
    }
}

/// Decode the text of a simple string or simple error frame.
pub open spec fn spec_dec_simple(s: Seq<u8>, tag: u8) -> SpecDec<Seq<u8>> {
    match spec_simple_end(s, tag) {
        SpecEnd::End(end) => SpecDec::Val(s.subrange(1, end), end + 2),
        SpecEnd::Inc => SpecDec::Inc,
        SpecEnd::FmtType => SpecDec::FmtType,
    }
}

/// Decode an integer frame.
pub open spec fn spec_dec_integer(s: Seq<u8>) -> SpecDec<i64> {
    match spec_simple_end(s, TAG_INTEGER) {
        SpecEnd::End(end) => match spec_parse_i64(s.subrange(1, end)) {
            Some(v) => SpecDec::Val(v, end + 2),
            None => SpecDec::FmtFrame,
        },
        SpecEnd::Inc => SpecDec::Inc,
        SpecEnd::FmtType => SpecDec::FmtType,
    }
}

/// Decode a double frame: the text between tag and terminator must obey the
/// double grammar, and is kept verbatim as the frame's payload.
pub open spec fn spec_dec_double(s: Seq<u8>) -> SpecDec<Seq<u8>> {
    match spec_simple_end(s, TAG_DOUBLE) {
        SpecEnd::End(end) => if is_double_text(s.subrange(1, end)) {
            SpecDec::Val(s.subrange(1, end), end + 2)
        } else {
            SpecDec::FmtFrame
        },
        SpecEnd::Inc => SpecDec::Inc,
        SpecEnd::FmtType => SpecDec::FmtType,
    }
}

/// Decode a boolean frame: an exact four-byte match against `#t\r\n` or
/// `#f\r\n`.
pub open spec fn spec_dec_bool(s: Seq<u8>) -> SpecDec<bool> {
    if s.len() < 4 {
        SpecDec::Inc
    } else if s[0] != TAG_BOOL {
        SpecDec::FmtType
    } else if s[1] == 116 && s[2] == CR && s[3] == LF {
        SpecDec::Val(true, 4)
    } else if s[1] == 102 && s[2] == CR && s[3] == LF {
        SpecDec::Val(false, 4)
    } else {
        SpecDec::FmtFrame
    }
}

/// Decode the generic null frame: an exact three-byte match against `_\r\n`.
pub open spec fn spec_dec_null(s: Seq<u8>) -> SpecDec<()> {
    if s.len() < 3 {
        SpecDec::Inc
    } else if s[0] != TAG_NULL {
        SpecDec::FmtType
    } else if s[1] == CR && s[2] == LF {
        SpecDec::Val((), 3)
    } else {
        SpecDec::FmtFrame
    }
}

/// The five-byte null bulk string literal `$-1\r\n`.
pub open spec fn null_bulk_lit() -> Seq<u8> {
    seq![TAG_BULK, 45u8, 49u8, CR, LF]
}

/// The five-byte null array literal `*-1\r\n`.
pub open spec fn null_array_lit() -> Seq<u8> {
    seq![TAG_ARRAY, 45u8, 49u8, CR, LF]
}

/// Decode a bulk string frame: the null literal first (without consuming),
/// else a length header followed by that many payload bytes and a terminator,
/// all of which must be present before anything is consumed.
pub open spec fn spec_dec_bulk(s: Seq<u8>) -> SpecDec<Option<Seq<u8>>> {
    if s.len() >= 5 && s.subrange(0, 5) == null_bulk_lit() {
        SpecDec::Val(None, 5)
    } else {
        match spec_simple_end(s, TAG_BULK) {
            SpecEnd::End(end) => match spec_parse_usize(s.subrange(1, end)) {
                Some(len) => if s.len() < end + 2 + len + 2 {
                    SpecDec::Inc
                } else if s[end + 2 + len] == CR && s[end + 2 + len + 1] == LF {
                    SpecDec::Val(Some(s.subrange(end + 2, end + 2 + len)), end + 2 + len + 2)
                } else {
                    SpecDec::FmtFrame
                },
                None => SpecDec::FmtFrame,
            },
            SpecEnd::Inc => SpecDec::Inc,
            SpecEnd::FmtType => SpecDec::FmtType,
        }
    }
}

/// Decode an array frame: the null literal first, else a count header
/// followed by that many frames.
pub open spec fn spec_dec_array(s: Seq<u8>) -> SpecDec<Option<Seq<FrameV>>>
    decreases s.len(), 0int, 0nat,
{
    if s.len() >= 5 && s.subrange(0, 5) == null_array_lit() {
        SpecDec::Val(None, 5)
    } else {
        match spec_simple_end(s, TAG_ARRAY) {
            SpecEnd::End(end) => match spec_parse_usize(s.subrange(1, end)) {
                Some(count) => if end < 1 || end + 2 > s.len() {
                    SpecDec::FmtFrame
                } else {
                    match spec_dec_elems(s.skip(end + 2), count as nat) {
                        SpecDec::Val(es, m) => SpecDec::Val(Some(es), end + 2 + m),
                        SpecDec::Inc => SpecDec::Inc,
                        SpecDec::FmtFrame => SpecDec::FmtFrame,
                        SpecDec::FmtType => SpecDec::FmtType,
                    }
                },
                None => SpecDec::FmtFrame,
            },
            SpecEnd::Inc => SpecDec::Inc,
            SpecEnd::FmtType => SpecDec::FmtType,
        }
    }
}

/// Decode a map frame: a pair-count header followed by that many key/value
/// pairs of frames, kept in encounter order, duplicates and all.
pub open spec fn spec_dec_map(s: Seq<u8>) -> SpecDec<Seq<(FrameV, FrameV)>>
    decreases s.len(), 0int, 0nat,
{
    match spec_simple_end(s, TAG_MAP) {
        SpecEnd::End(end) => match spec_parse_usize(s.subrange(1, end)) {
            Some(count) => if end < 1 || end + 2 > s.len() {
                SpecDec::FmtFrame
            } else {
                match spec_dec_pairs(s.skip(end + 2), count as nat) {
                    SpecDec::Val(ps, m) => SpecDec::Val(ps, end + 2 + m),
                    SpecDec::Inc => SpecDec::Inc,
                    SpecDec::FmtFrame => SpecDec::FmtFrame,
                    SpecDec::FmtType => SpecDec::FmtType,
                }
            },
            None => SpecDec::FmtFrame,
        },
        SpecEnd::Inc => SpecDec::Inc,
        SpecEnd::FmtType => SpecDec::FmtType,
    }
}

/// Decode a set frame: a count header followed by that many member frames,
/// kept in encounter order; the codec does not deduplicate.
pub open spec fn spec_dec_set(s: Seq<u8>) -> SpecDec<Seq<FrameV>>
    decreases s.len(), 0int, 0nat,
{
    match spec_simple_end(s, TAG_SET) {
        SpecEnd::End(end) => match spec_parse_usize(s.subrange(1, end)) {
            Some(count) => if end < 1 || end + 2 > s.len() {
                SpecDec::FmtFrame
            } else {
                match spec_dec_elems(s.skip(end + 2), count as nat) {
                    SpecDec::Val(es, m) => SpecDec::Val(es, end + 2 + m),
                    SpecDec::Inc => SpecDec::Inc,
                    SpecDec::FmtFrame => SpecDec::FmtFrame,
                    SpecDec::FmtType => SpecDec::FmtType,
                }
            },
            None => SpecDec::FmtFrame,
        },
        SpecEnd::Inc => SpecDec::Inc,
        SpecEnd::FmtType => SpecDec::FmtType,
    }
}

/// Decode `count` consecutive frames.  Any incompleteness or format error in
/// any element is the result for the whole sequence.
pub open spec fn spec_dec_elems(s: Seq<u8>, count: nat) -> SpecDec<Seq<FrameV>>
    decreases s.len(), 2int, count,
{
    if count == 0 {
        SpecDec::Val(Seq::empty(), 0)
    } else {
        match spec_dec_frame(s) {
            SpecDec::Val(v, n) => if n < 0 || n > s.len() {
                SpecDec::FmtFrame
            } else {
                match spec_dec_elems(s.skip(n), (count - 1) as nat) {
                    SpecDec::Val(vs, m) => SpecDec::Val(seq![v] + vs, n + m),
                    SpecDec::Inc => SpecDec::Inc,
                    SpecDec::FmtFrame => SpecDec::FmtFrame,
                    SpecDec::FmtType => SpecDec::FmtType,
                }
            },
            SpecDec::Inc => SpecDec::Inc,
            SpecDec::FmtFrame => SpecDec::FmtFrame,
            SpecDec::FmtType => SpecDec::FmtType,
        }
    }
}

/// Decode `count` consecutive key/value pairs of frames.
pub open spec fn spec_dec_pairs(s: Seq<u8>, count: nat) -> SpecDec<Seq<(FrameV, FrameV)>>
    decreases s.len(), 2int, count,
{
    if count == 0 {
        SpecDec::Val(Seq::empty(), 0)
    } else {
        match spec_dec_frame(s) {
            SpecDec::Val(k, n) => if n < 0 || n > s.len() {
                SpecDec::FmtFrame
            } else {
                match spec_dec_frame(s.skip(n)) {
                    SpecDec::Val(v, m) => if m < 0 || n + m > s.len() {
                        SpecDec::FmtFrame
                    } else {
                        match spec_dec_pairs(s.skip(n + m), (count - 1) as nat) {
                            SpecDec::Val(ps, w) => SpecDec::Val(seq![(k, v)] + ps, n + m + w),
                            SpecDec::Inc => SpecDec::Inc,
                            SpecDec::FmtFrame => SpecDec::FmtFrame,
                            SpecDec::FmtType => SpecDec::FmtType,
                        }
                    },
                    SpecDec::Inc => SpecDec::Inc,
                    SpecDec::FmtFrame => SpecDec::FmtFrame,
                    SpecDec::FmtType => SpecDec::FmtType,
                }
            },
            SpecDec::Inc => SpecDec::Inc,
            SpecDec::FmtFrame => SpecDec::FmtFrame,
            SpecDec::FmtType => SpecDec::FmtType,
        }
    }
}

/// Decode one frame of any variant: the leading tag byte alone selects the
/// codec.  An empty buffer is incomplete; an unknown tag is a format error.
pub open spec fn spec_dec_frame(s: Seq<u8>) -> SpecDec<FrameV>
    decreases s.len(), 1int, 0nat,
{
    if s.len() == 0 {
        SpecDec::Inc
    } else if s[0] == TAG_SIMPLE {
        match spec_dec_simple(s, TAG_SIMPLE) {
            SpecDec::Val(t, n) => SpecDec::Val(FrameV::SimpleString(t), n),
            SpecDec::Inc => SpecDec::Inc,
            SpecDec::FmtFrame => SpecDec::FmtFrame,
            SpecDec::FmtType => SpecDec::FmtType,
        }
    } else if s[0] == TAG_ERROR {
        match spec_dec_simple(s, TAG_ERROR) {
            SpecDec::Val(t, n) => SpecDec::Val(FrameV::SimpleError(t), n),
            SpecDec::Inc => SpecDec::Inc,
            SpecDec::FmtFrame => SpecDec::FmtFrame,
            SpecDec::FmtType => SpecDec::FmtType,
        }
    } else if s[0] == TAG_INTEGER {
        match spec_dec_integer(s) {
            SpecDec::Val(v, n) => SpecDec::Val(FrameV::Integer(v), n),
            SpecDec::Inc => SpecDec::Inc,
            SpecDec::FmtFrame => SpecDec::FmtFrame,
            SpecDec::FmtType => SpecDec::FmtType,
        }
    } else if s[0] == TAG_BULK {
        match spec_dec_bulk(s) {
            SpecDec::Val(p, n) => SpecDec::Val(FrameV::BulkString(p), n),
            SpecDec::Inc => SpecDec::Inc,
            SpecDec::FmtFrame => SpecDec::FmtFrame,
            SpecDec::FmtType => SpecDec::FmtType,
        }
    } else if s[0] == TAG_ARRAY {
        match spec_dec_array(s) {
            SpecDec::Val(a, n) => SpecDec::Val(FrameV::Array(a), n),
            SpecDec::Inc => SpecDec::Inc,
            SpecDec::FmtFrame => SpecDec::FmtFrame,
            SpecDec::FmtType => SpecDec::FmtType,
        }
    } else if s[0] == TAG_NULL {
        match spec_dec_null(s) {
            SpecDec::Val(_, n) => SpecDec::Val(FrameV::Null, n),
            SpecDec::Inc => SpecDec::Inc,
            SpecDec::FmtFrame => SpecDec::FmtFrame,
            SpecDec::FmtType => SpecDec::FmtType,
        }
    } else if s[0] == TAG_BOOL {
        match spec_dec_bool(s) {
            SpecDec::Val(b, n) => SpecDec::Val(FrameV::Boolean(b), n),
            SpecDec::Inc => SpecDec::Inc,
            SpecDec::FmtFrame => SpecDec::FmtFrame,
            SpecDec::FmtType => SpecDec::FmtType,
        }
    } else if s[0] == TAG_DOUBLE {
        match spec_dec_double(s) {
            SpecDec::Val(t, n) => SpecDec::Val(FrameV::Double(t), n),
            SpecDec::Inc => SpecDec::Inc,
            SpecDec::FmtFrame => SpecDec::FmtFrame,
            SpecDec::FmtType => SpecDec::FmtType,
        }
    } else if s[0] == TAG_MAP {
        match spec_dec_map(s) {
            SpecDec::Val(ps, n) => SpecDec::Val(FrameV::Pairs(ps), n),
            SpecDec::Inc => SpecDec::Inc,
            SpecDec::FmtFrame => SpecDec::FmtFrame,
            SpecDec::FmtType => SpecDec::FmtType,
        }
    } else if s[0] == TAG_SET {
        match spec_dec_set(s) {
            SpecDec::Val(es, n) => SpecDec::Val(FrameV::Members(es), n),
            SpecDec::Inc => SpecDec::Inc,
            SpecDec::FmtFrame => SpecDec::FmtFrame,
            SpecDec::FmtType => SpecDec::FmtType,
        }
    } else {
        SpecDec::FmtType
    }
}

/// Predict the total byte span of the bulk string frame at the front of `s`
/// from its header alone.
pub open spec fn spec_exp_bulk(s: Seq<u8>) -> SpecExp {
    if s.len() >= 5 && s.subrange(0, 5) == null_bulk_lit() {
        SpecExp::Len(5)
    } else {
        match spec_simple_end(s, TAG_BULK) {
            SpecEnd::End(end) => match spec_parse_usize(s.subrange(1, end)) {
                Some(len) => if end + 2 + len + 2 > usize::MAX {
                    SpecExp::Inc
                } else {
                    SpecExp::Len(end + 2 + len + 2)
                },
                None => SpecExp::FmtFrame,
            },
            SpecEnd::Inc => SpecExp::Inc,
            SpecEnd::FmtType => SpecExp::FmtType,
        }
    }
}

/// Predict the total byte span of a counted composite (array, map or set)
/// whose header declares `factor * count` nested frames.
pub open spec fn spec_exp_composite(s: Seq<u8>, tag: u8, factor: nat) -> SpecExp
    decreases s.len(), 0int, 0nat,
{
    if tag == TAG_ARRAY && s.len() >= 5 && s.subrange(0, 5) == null_array_lit() {
        SpecExp::Len(5)
    } else {
        match spec_simple_end(s, tag) {
            SpecEnd::End(end) => match spec_parse_usize(s.subrange(1, end)) {
                Some(count) => if end < 1 || end + 2 > s.len() {
                    SpecExp::FmtFrame
                } else {
                    match spec_exp_elems(s.skip(end + 2), (factor * count) as nat) {
                        SpecExp::Len(m) => if end + 2 + m > usize::MAX {
                            SpecExp::Inc
                        } else {
                            SpecExp::Len(end + 2 + m)
                        },
                        SpecExp::Inc => SpecExp::Inc,
                        SpecExp::FmtFrame => SpecExp::FmtFrame,
                        SpecExp::FmtType => SpecExp::FmtType,
                    }
                },
                None => SpecExp::FmtFrame,
            },
            SpecEnd::Inc => SpecExp::Inc,
            SpecEnd::FmtType => SpecExp::FmtType,
        }
    }
}

/// Predict the combined span of `count` consecutive frames, walking each
/// frame's predicted span in turn.
pub open spec fn spec_exp_elems(s: Seq<u8>, count: nat) -> SpecExp
    decreases s.len(), 2int, count,
{
    if count == 0 {
        SpecExp::Len(0)
    } else {
        match spec_exp_frame(s) {
            SpecExp::Len(n) => if n < 0 {
                SpecExp::FmtFrame
            } else {
                let k = if n <= s.len() {
                    n
                } else {
                    s.len() as int
                };
                match spec_exp_elems(s.skip(k), (count - 1) as nat) {
                    SpecExp::Len(m) => if n + m > usize::MAX {
                        SpecExp::Inc
                    } else {
                        SpecExp::Len(n + m)
                    },
                    SpecExp::Inc => SpecExp::Inc,
                    SpecExp::FmtFrame => SpecExp::FmtFrame,
                    SpecExp::FmtType => SpecExp::FmtType,
                }
            },
            SpecExp::Inc => SpecExp::Inc,
            SpecExp::FmtFrame => SpecExp::FmtFrame,
            SpecExp::FmtType => SpecExp::FmtType,
        }
    }
}

/// Predict the total byte span of the frame at the front of `s` without
/// decoding payloads: the primary tool of a streaming caller that wants to
/// wait for a frame's full span before decoding it.
pub open spec fn spec_exp_frame(s: Seq<u8>) -> SpecExp
    decreases s.len(), 1int, 0nat,
{
    if s.len() == 0 {
        SpecExp::Inc
    } else if s[0] == TAG_SIMPLE || s[0] == TAG_ERROR || s[0] == TAG_INTEGER || s[0]
        == TAG_DOUBLE {
        match spec_simple_end(s, s[0]) {
            SpecEnd::End(end) => SpecExp::Len(end + 2),
            SpecEnd::Inc => SpecExp::Inc,
            SpecEnd::FmtType => SpecExp::FmtType,
        }
    } else if s[0] == TAG_BOOL {
        SpecExp::Len(4)
    } else if s[0] == TAG_NULL {
        SpecExp::Len(3)
    } else if s[0] == TAG_BULK {
        spec_exp_bulk(s)
    } else if s[0] == TAG_ARRAY {
        spec_exp_composite(s, TAG_ARRAY, 1)
    } else if s[0] == TAG_MAP {
        spec_exp_composite(s, TAG_MAP, 2)
    } else if s[0] == TAG_SET {
        spec_exp_composite(s, TAG_SET, 1)
    } else {
        SpecExp::FmtType
    }
}

} // verus!

verus! {

/// Prefix `n` consumed bytes and the already-decoded frames `vs` onto the
/// outcome of decoding the remaining elements.
pub open spec fn prepend_elems(vs: Seq<FrameV>, n: int, r: SpecDec<Seq<FrameV>>) -> SpecDec<
    Seq<FrameV>,
> {
    match r {
        SpecDec::Val(ws, m) => SpecDec::Val(vs + ws, n + m),
        SpecDec::Inc => SpecDec::Inc,
        SpecDec::FmtFrame => SpecDec::FmtFrame,
        SpecDec::FmtType => SpecDec::FmtType,
    }
}

/// Prefixing nothing changes nothing.
pub proof fn lemma_prepend_elems_empty(r: SpecDec<Seq<FrameV>>)
    ensures
        prepend_elems(Seq::empty(), 0, r) == r,
{
    match r {
        SpecDec::Val(ws, m) => {
            assert(Seq::empty() + ws =~= ws);
        },
        _ => {},
    }
}

/// Folding one more decoded frame into the prefix commutes with prefixing.
pub proof fn lemma_prepend_elems_step(
    vs: Seq<FrameV>,
    n: int,
    v: FrameV,
    k: int,
    r: SpecDec<Seq<FrameV>>,
)
    ensures
        prepend_elems(vs, n, prepend_elems(seq![v], k, r)) == prepend_elems(vs.push(v), n + k, r),
{
    match r {
        SpecDec::Val(ws, m) => {
            assert(vs + (seq![v] + ws) =~= vs.push(v) + ws);
        },
        _ => {},
    }
}

/// Prefix `n` consumed bytes and the already-decoded pairs `vs` onto the
/// outcome of decoding the remaining pairs.
pub open spec fn prepend_pairs(
    vs: Seq<(FrameV, FrameV)>,
    n: int,
    r: SpecDec<Seq<(FrameV, FrameV)>>,
) -> SpecDec<Seq<(FrameV, FrameV)>> {
    match r {
        SpecDec::Val(ws, m) => SpecDec::Val(vs + ws, n + m),
        SpecDec::Inc => SpecDec::Inc,
        SpecDec::FmtFrame => SpecDec::FmtFrame,
        SpecDec::FmtType => SpecDec::FmtType,
    }
}

/// Prefixing nothing changes nothing.
pub proof fn lemma_prepend_pairs_empty(r: SpecDec<Seq<(FrameV, FrameV)>>)
    ensures
        prepend_pairs(Seq::empty(), 0, r) == r,
{
    match r {
        SpecDec::Val(ws, m) => {
            assert(Seq::empty() + ws =~= ws);
        },
        _ => {},
    }
}

/// Folding one more decoded pair into the prefix commutes with prefixing.
pub proof fn lemma_prepend_pairs_step(
    vs: Seq<(FrameV, FrameV)>,
    n: int,
    kv: (FrameV, FrameV),
    k: int,
    r: SpecDec<Seq<(FrameV, FrameV)>>,
)
    ensures
        prepend_pairs(vs, n, prepend_pairs(seq![kv], k, r)) == prepend_pairs(
            vs.push(kv),
            n + k,
            r,
        ),
{
    match r {
        SpecDec::Val(ws, m) => {
            assert(vs + (seq![kv] + ws) =~= vs.push(kv) + ws);
        },
        _ => {},
    }
}

/// Prefix `a` already-counted bytes onto the predicted span of the remaining
/// elements; a span beyond the address space reads as incomplete.
pub open spec fn prepend_exp(a: int, r: SpecExp) -> SpecExp {
    match r {
        SpecExp::Len(m) => if a + m > usize::MAX {
            SpecExp::Inc
        } else {
            SpecExp::Len(a + m)
        },
        SpecExp::Inc => SpecExp::Inc,
        SpecExp::FmtFrame => SpecExp::FmtFrame,
        SpecExp::FmtType => SpecExp::FmtType,
    }
}

/// Counting one more frame's span commutes with prefixing.
pub proof fn lemma_prepend_exp_step(a: int, n: int, r: SpecExp)
    requires
        a >= 0,
        n >= 0,
    ensures
        prepend_exp(a, prepend_exp(n, r)) == prepend_exp(a + n, r),
{
}

} // verus!
