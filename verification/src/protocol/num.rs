//! Verified decimal formatting and parsing for length fields and integer
//! frames, with the lemmas that make them inverses.

use vstd::prelude::*;
use crate::protocol::model::{all_digits, dec_digits, digits_val, int_text, is_digit};

verus! {

/// The canonical digits of `n` are digits, at least one, and read back as `n`.
pub proof fn lemma_dec_digits(n: nat)
    ensures
        dec_digits(n).len() >= 1,
        all_digits(dec_digits(n)),
        digits_val(dec_digits(n)) == n,
    decreases n,
{
    if n < 10 {
        assert(dec_digits(n) =~= seq![(n + 48) as u8]);
        assert(digits_val(dec_digits(n)) == digits_val(dec_digits(n).drop_last()) * 10 + n);
        assert(dec_digits(n).drop_last() =~= Seq::<u8>::empty());
    } else {
        lemma_dec_digits(n / 10);
        let d = (((n % 10) + 48) as u8);
        let w = dec_digits(n / 10).push(d);
        assert(w.drop_last() =~= dec_digits(n / 10));
        assert(w.last() == d);
        assert(digits_val(w) == digits_val(dec_digits(n / 10)) * 10 + (n % 10));
        assert(forall|i: int|
            0 <= i < w.len() ==> #[trigger] w[i] == if i < w.len() - 1 {
                dec_digits(n / 10)[i]
            } else {
                d
            });
    }
}

/// Reading one more digit multiplies the value by ten and adds that digit.
pub proof fn lemma_digits_val_take_step(t: Seq<u8>, k: int)
    requires
        0 <= k < t.len(),
        t[k] >= 48,
    ensures
        digits_val(t.take(k + 1)) == digits_val(t.take(k)) * 10 + (t[k] - 48),
{
    let w = t.take(k + 1);
    assert(w.drop_last() =~= t.take(k));
    assert(w.last() == t[k]);
}

/// A digit string's value never shrinks as more digits are read.
pub proof fn lemma_digits_val_mono(t: Seq<u8>, k: int)
    requires
        0 <= k <= t.len(),
        all_digits(t),
    ensures
        digits_val(t.take(k)) <= digits_val(t),
    decreases t.len() - k,
{
    if k == t.len() {
        assert(t.take(k) =~= t);
    } else {
        lemma_digits_val_take_step(t, k);
        lemma_digits_val_mono(t, k + 1);
    }
}

/// Format an unsigned value as its canonical decimal digits.
pub fn fmt_u64(n: u64) -> (r: Vec<u8>)
    ensures
        r@ == dec_digits(n as nat),
    decreases n,
{
    if n < 10 {
        let mut v: Vec<u8> = Vec::new();
        v.push((n as u8) + 48);
        proof {
            assert(v@ =~= dec_digits(n as nat));
        }
        v
    } else {
        let mut v = fmt_u64(n / 10);
        v.push(((n % 10) as u8) + 48);
        proof {
            assert(v@ =~= dec_digits(n as nat));
        }
        v
    }
}

/// Format a signed value with an explicit sign character: `+` for zero and
/// positive values, `-` for negative ones.
pub fn fmt_i64(n: i64) -> (r: Vec<u8>)
    ensures
        r@ == int_text(n as int),
{
    let mut out: Vec<u8> = Vec::new();
    if n < 0 {
        out.push(45);
        let mag: u64 = if n == i64::MIN {
            9223372036854775808
        } else {
            (-n) as u64
        };
        let mut ds = fmt_u64(mag);
        out.append(&mut ds);
        proof {
            assert(out@ =~= int_text(n as int));
        }
    } else {
        out.push(43);
        let mut ds = fmt_u64(n as u64);
        out.append(&mut ds);
        proof {
            assert(out@ =~= int_text(n as int));
        }
    }
    out
}

/// Parse the digits of `s` between `from` and `to` as an unsigned value,
/// rejecting an empty field, a non-digit, and a value above `cap`.
pub fn parse_digits_u64(s: &[u8], from: usize, to: usize, cap: u64) -> (r: Option<u64>)
    requires
        from <= to <= s@.len(),
    ensures
        ({
            let t = s@.subrange(from as int, to as int);
            match r {
                Some(v) => t.len() > 0 && all_digits(t) && digits_val(t) == v && v <= cap,
                None => !(t.len() > 0 && all_digits(t) && digits_val(t) <= cap),
            }
        }),
{
    let ghost t = s@.subrange(from as int, to as int);
    if from == to {
        return None;
    }
    let mut acc: u64 = 0;
    let mut i: usize = from;
    while i < to
        invariant
            from <= i <= to <= s@.len(),
            t == s@.subrange(from as int, to as int),
            acc == digits_val(t.take(i - from)),
            acc <= cap,
            all_digits(t.take(i - from)),
        decreases to - i,
    {
        let b = s[i];
        if b < 48 || b > 57 {
            proof {
                assert(t[i - from] == b);
                assert(!is_digit(t[i - from]));
            }
            return None;
        }
        let d = b - 48;
        proof {
            lemma_digits_val_take_step(t, i - from);
        }
        if acc > cap / 10 || (acc == cap / 10 && (d as u64) > cap % 10) {
            proof {
                assert(digits_val(t.take(i - from + 1)) == acc * 10 + d);
                assert(acc * 10 + d > cap) by (nonlinear_arith)
                    requires
                        acc > cap / 10 || (acc == cap / 10 && (d as u64) > cap % 10),
                        cap == (cap / 10) * 10 + cap % 10,
                        d < 10,
                        acc >= 0,
                ;
                if all_digits(t) {
                    lemma_digits_val_mono(t, i - from + 1);
                }
            }
            return None;
        }
        proof {
            assert(acc * 10 + d <= cap) by (nonlinear_arith)
                requires
                    acc <= cap / 10,
                    !(acc == cap / 10 && (d as u64) > cap % 10),
                    cap == (cap / 10) * 10 + cap % 10,
                    d <= 9,
                    acc >= 0,
            ;
            assert(t.take(i - from).push(t[i - from]) =~= t.take(i - from + 1));
        }
        acc = acc * 10 + (d as u64);
        i = i + 1;
    }
    proof {
        assert(t.take(to - from) =~= t);
    }
    Some(acc)
}

} // verus!
