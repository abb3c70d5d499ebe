//! Decimal ASCII length prefixes: the mathematical representation of a
//! number as digit bytes, and verified formatting and parsing.

use vstd::prelude::*;

verus! {

/// The ASCII digit byte for a value below ten.
pub open spec fn digit_byte(n: nat) -> u8
    recommends
        n < 10,
{
    (0x30 + n) as u8
}

/// The decimal ASCII representation of a number, most significant digit
/// first, with no leading zeros (a lone zero for zero itself).
pub open spec fn dec_rep(n: nat) -> Seq<u8>
    decreases n,
{
    if n < 10 {
        seq![digit_byte(n)]
    } else {
        dec_rep(n / 10).push(digit_byte(n % 10))
    }
}

/// True of an ASCII decimal digit byte.
pub open spec fn is_digit(b: u8) -> bool {
    0x30 <= b <= 0x39
}

/// True when every byte of the sequence is a decimal digit.
pub open spec fn all_digits(s: Seq<u8>) -> bool {
    forall|i: int| 0 <= i < s.len() ==> is_digit(#[trigger] s[i])
}

/// The number a digit sequence denotes, read left to right.
pub open spec fn dec_val(s: Seq<u8>) -> nat
    recommends
        all_digits(s),
    decreases s.len(),
{
    if s.len() == 0 {
        0
    } else {
        dec_val(s.drop_last()) * 10 + (s.last() - 0x30) as nat
    }
}

/// A decimal representation consists of digit bytes only and is never empty.
pub proof fn lemma_dec_rep_digits(n: nat)
    ensures
        all_digits(dec_rep(n)),
        dec_rep(n).len() >= 1,
    decreases n,
{
    if n >= 10 {
        lemma_dec_rep_digits(n / 10);
    }
}

/// Parsing a decimal representation gives back the number it was made from.
pub proof fn lemma_dec_val_dec_rep(n: nat)
    ensures
        dec_val(dec_rep(n)) == n,
    decreases n,
{
    if n < 10 {
        let rep = dec_rep(n);
        assert(rep == seq![digit_byte(n)]);
        assert(rep.drop_last() =~= Seq::<u8>::empty());
        assert(dec_val(Seq::<u8>::empty()) == 0);
        assert(rep.last() == digit_byte(n));
        assert(digit_byte(n) == 0x30 + n);
        assert(dec_val(rep) == dec_val(rep.drop_last()) * 10 + (rep.last() - 0x30) as nat);
        assert(dec_val(rep) == n);
    } else {
        lemma_dec_val_dec_rep(n / 10);
        let rep = dec_rep(n / 10).push(digit_byte(n % 10));
        assert(dec_rep(n) == rep);
        assert(rep.drop_last() =~= dec_rep(n / 10));
        assert(rep.last() == digit_byte(n % 10));
        assert(n % 10 < 10) by (nonlinear_arith);
        assert(digit_byte(n % 10) == 0x30 + n % 10);
        assert((rep.last() - 0x30) as nat == n % 10);
        assert(dec_val(rep) == dec_val(rep.drop_last()) * 10 + (rep.last() - 0x30) as nat);
        assert(dec_val(rep) == (n / 10) * 10 + n % 10);
        assert((n / 10) * 10 + n % 10 == n) by (nonlinear_arith);
    }
}

/// Appending digits never decreases the denoted value.
pub proof fn lemma_dec_val_prefix_le(s: Seq<u8>, i: int)
    requires
        0 <= i <= s.len(),
    ensures
        dec_val(s.take(i)) <= dec_val(s),
    decreases s.len() - i,
{
    if i < s.len() {
        lemma_dec_val_prefix_le(s, i + 1);
        assert(s.take(i + 1).drop_last() =~= s.take(i));
        assert(dec_val(s.take(i)) <= dec_val(s.take(i + 1)));
    } else {
        assert(s.take(i) =~= s);
    }
}

/// Formats a number as its decimal ASCII representation.
pub fn format_decimal(n: usize) -> (r: Vec<u8>)
    ensures
        r@ == dec_rep(n as nat),
    decreases n,
{
    if n < 10 {
        let mut v: Vec<u8> = Vec::new();
        v.push(0x30u8 + (n as u8));
        proof {
            assert(v@ =~= dec_rep(n as nat));
        }
        v
    } else {
        let mut v = format_decimal(n / 10);
        v.push(0x30u8 + ((n % 10) as u8));
        v
    }
}

/// Parses the digit bytes of `v` between `start` and `end` as a decimal
/// number. Fails exactly when the range is empty, holds a non-digit, or
/// denotes a value that does not fit in `usize`.
pub fn parse_decimal(v: &Vec<u8>, start: usize, end: usize) -> (r: Option<usize>)
    requires
        start <= end <= v@.len(),
    ensures
        ({
            let s = v@.subrange(start as int, end as int);
            match r {
                Some(n) => start < end && all_digits(s) && n as nat == dec_val(s),
                None => start == end || !all_digits(s) || dec_val(s) > usize::MAX,
            }
        }),
{
    let ghost s = v@.subrange(start as int, end as int);
    if start == end {
        return None;
    }
    let mut acc: usize = 0;
    let mut i: usize = start;
    while i < end
        invariant
            start <= i <= end <= v@.len(),
            s == v@.subrange(start as int, end as int),
            all_digits(s.take(i - start)),
            acc as nat == dec_val(s.take(i - start)),
        decreases end - i,
    {
        let b = v[i];
        if b < 0x30 || b > 0x39 {
            proof {
                assert(s[i - start] == b);
                assert(!all_digits(s));
            }
            return None;
        }
        let d = (b - 0x30) as usize;
        proof {
            assert(s.take(i - start + 1).drop_last() =~= s.take(i - start));
            assert(s.take(i - start + 1).last() == b);
        }
        if acc > (usize::MAX - d) / 10 {
            proof {
                assert(acc * 10 + d > usize::MAX) by (nonlinear_arith)
                    requires
                        acc > (usize::MAX - d) / 10,
                        d < 10,
                ;
                assert(dec_val(s.take(i - start + 1)) > usize::MAX);
                lemma_dec_val_prefix_le(s, i - start + 1);
            }
            return None;
        }
        proof {
            assert(acc * 10 + d <= usize::MAX) by (nonlinear_arith)
                requires
                    acc <= (usize::MAX - d) / 10,
                    d < 10,
            ;
        }
        acc = acc * 10 + d;
        i += 1;
    }
    proof {
        assert(s.take(end - start) =~= s);
    }
    Some(acc)
}

} // verus!
