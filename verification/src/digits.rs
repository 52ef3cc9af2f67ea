//! Decimal text for the integers that appear in stats files and lock names.
//!
//! The stats sidecar stores its two counters as decimal text, and lock file
//! names carry the owning process id in decimal. Formatting is canonical
//! (no leading zeros, a single leading `-` for negatives) and parsing
//! accepts exactly the canonical forms.

use vstd::prelude::*;

verus! {

/// Byte is an ASCII decimal digit.
pub open spec fn is_digit(b: u8) -> bool {
    48 <= b <= 57
}

pub open spec fn all_digits(s: Seq<u8>) -> bool {
    forall|i: int| 0 <= i < s.len() ==> is_digit(#[trigger] s[i])
}

/// Value of a digit string, most significant digit first.
pub open spec fn dec_val(s: Seq<u8>) -> int
    decreases s.len(),
{
    if s.len() == 0 {
        0
    } else {
        dec_val(s.drop_last()) * 10 + s.last() - 48
    }
}

/// Canonical decimal form of an unsigned 64-bit value: non-empty, digits
/// only, no leading zero, and in range.
pub open spec fn canon_u64(s: Seq<u8>) -> bool {
    &&& s.len() > 0
    &&& all_digits(s)
    &&& (s.len() > 1 ==> s[0] != 48)
    &&& 0 <= dec_val(s) <= u64::MAX
}

pub open spec fn parse_u64_spec(s: Seq<u8>) -> Option<u64> {
    if canon_u64(s) {
        Some(dec_val(s) as u64)
    } else {
        None
    }
}

/// Canonical decimal digits of `n`, most significant first.
pub open spec fn fmt_u64_spec(n: nat) -> Seq<u8>
    decreases n,
{
    if n < 10 {
        seq![(48 + n) as u8]
    } else {
        fmt_u64_spec(n / 10).push((48 + n % 10) as u8)
    }
}

pub proof fn lemma_dec_val_push(s: Seq<u8>, b: u8)
    ensures
        dec_val(s.push(b)) == dec_val(s) * 10 + b - 48,
{
    assert(s.push(b).drop_last() =~= s);
}

/// The canonical digits of `n` evaluate back to `n`, contain only digits,
/// no newline among them, and start with a non-zero digit unless `n` itself
/// is a single zero.
pub proof fn lemma_fmt_u64_canon(n: nat)
    ensures
        all_digits(fmt_u64_spec(n)),
        dec_val(fmt_u64_spec(n)) == n,
        fmt_u64_spec(n).len() > 0,
        fmt_u64_spec(n).len() > 1 ==> fmt_u64_spec(n)[0] != 48,
        n > 0 ==> fmt_u64_spec(n)[0] != 48,
    decreases n,
{
    if n < 10 {
        assert(fmt_u64_spec(n) =~= seq![(48 + n) as u8]);
        assert(dec_val(seq![(48 + n) as u8].drop_last()) == 0) by {
            assert(seq![(48 + n) as u8].drop_last() =~= Seq::<u8>::empty());
        }
    } else {
        lemma_fmt_u64_canon(n / 10);
        let p = fmt_u64_spec(n / 10);
        let d = (48 + n % 10) as u8;
        lemma_dec_val_push(p, d);
        assert(dec_val(p.push(d)) == (n / 10) * 10 + n % 10);
        assert((n / 10) * 10 + n % 10 == n) by (nonlinear_arith);
        assert(fmt_u64_spec(n)[0] == p[0]);
    }
}

pub proof fn lemma_parse_fmt_u64(n: u64)
    ensures
        parse_u64_spec(fmt_u64_spec(n as nat)) == Some(n),
{
    lemma_fmt_u64_canon(n as nat);
}

pub fn fmt_u64(n: u64) -> (r: Vec<u8>)
    ensures
        r@ == fmt_u64_spec(n as nat),
    decreases n,
{
    if n < 10 {
        let mut v: Vec<u8> = Vec::new();
        v.push(48 + n as u8);
        proof {
            assert(v@ =~= fmt_u64_spec(n as nat));
        }
        v
    } else {
        let mut v = fmt_u64(n / 10);
        v.push(48 + (n % 10) as u8);
        proof {
            assert(v@ =~= fmt_u64_spec(n as nat));
        }
        v
    }
}

pub fn parse_u64(s: &Vec<u8>) -> (r: Option<u64>)
    ensures
        r == parse_u64_spec(s@),
{
    if s.len() == 0 {
        return None;
    }
    if s.len() > 1 && s[0] == 48 {
        return None;
    }
    let mut acc: u64 = 0;
    let mut over: bool = false;
    let mut i: usize = 0;
    while i < s.len()
        invariant
            0 <= i <= s@.len(),
            all_digits(s@.subrange(0, i as int)),
            !over ==> acc == dec_val(s@.subrange(0, i as int)),
            over ==> dec_val(s@.subrange(0, i as int)) > u64::MAX,
        decreases s@.len() - i,
    {
        let b = s[i];
        proof {
            assert(s@.subrange(0, i + 1) =~= s@.subrange(0, i as int).push(b));
            lemma_dec_val_push(s@.subrange(0, i as int), b);
        }
        if b < 48 || b > 57 {
            return None;
        }
        if over {
            proof {
                assert(dec_val(s@.subrange(0, i + 1)) > u64::MAX);
            }
        } else {
            match acc.checked_mul(10) {
                Some(m) => {
                    match m.checked_add((b - 48) as u64) {
                        Some(a) => {
                            acc = a;
                        },
                        None => {
                            over = true;
                        },
                    }
                },
                None => {
                    over = true;
                },
            }
        }
        i += 1;
    }
    proof {
        assert(s@.subrange(0, s@.len() as int) =~= s@);
    }
    if over {
        None
    } else {
        Some(acc)
    }
}

/// Canonical decimal form of a signed 32-bit value.
pub open spec fn fmt_i32_spec(n: int) -> Seq<u8> {
    if n >= 0 {
        fmt_u64_spec(n as nat)
    } else {
        seq![45u8] + fmt_u64_spec((-n) as nat)
    }
}

pub open spec fn parse_i32_spec(s: Seq<u8>) -> Option<i32> {
    if s.len() > 0 && s[0] == 45 {
        let m = s.subrange(1, s.len() as int);
        if canon_u64(m) && 0 < dec_val(m) <= 0x8000_0000 {
            Some((-dec_val(m)) as i32)
        } else {
            None
        }
    } else if canon_u64(s) && dec_val(s) <= 0x7fff_ffff {
        Some(dec_val(s) as i32)
    } else {
        None
    }
}

pub proof fn lemma_parse_fmt_i32(n: i32)
    ensures
        parse_i32_spec(fmt_i32_spec(n as int)) == Some(n),
{
    if n >= 0 {
        lemma_fmt_u64_canon(n as nat);
        assert(fmt_i32_spec(n as int)[0] != 45);
    } else {
        let m = (-(n as int)) as nat;
        lemma_fmt_u64_canon(m);
        let s = fmt_i32_spec(n as int);
        assert(s.subrange(1, s.len() as int) =~= fmt_u64_spec(m));
    }
}

pub fn fmt_i32(n: i32) -> (r: Vec<u8>)
    ensures
        r@ == fmt_i32_spec(n as int),
{
    if n >= 0 {
        let r = fmt_u64(n as u64);
        proof {
            assert(r@ =~= fmt_i32_spec(n as int));
        }
        r
    } else {
        let mag: u64 = (-(n as i64)) as u64;
        let mut r: Vec<u8> = Vec::new();
        r.push(45);
        let mut digits = fmt_u64(mag);
        r.append(&mut digits);
        proof {
            assert(r@ =~= fmt_i32_spec(n as int));
        }
        r
    }
}

pub fn parse_i32(s: &Vec<u8>) -> (r: Option<i32>)
    ensures
        r == parse_i32_spec(s@),
{
    if s.len() > 0 && s[0] == 45 {
        let mut m: Vec<u8> = Vec::new();
        let mut i: usize = 1;
        while i < s.len()
            invariant
                1 <= i <= s@.len(),
                m@ == s@.subrange(1, i as int),
            decreases s@.len() - i,
        {
            m.push(s[i]);
            proof {
                assert(s@.subrange(1, i + 1) =~= s@.subrange(1, i as int).push(s@[i as int]));
            }
            i += 1;
        }
        proof {
            assert(m@ =~= s@.subrange(1, s@.len() as int));
        }
        match parse_u64(&m) {
            Some(v) => {
                if v > 0 && v <= 0x8000_0000 {
                    Some((-(v as i64)) as i32)
                } else {
                    None
                }
            },
            None => None,
        }
    } else {
        match parse_u64(s) {
            Some(v) => {
                if v <= 0x7fff_ffff {
                    Some(v as i32)
                } else {
                    None
                }
            },
            None => None,
        }
    }
}

} // verus!
