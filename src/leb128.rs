//! Unsigned LEB128: the variable-length integer encoding used for every
//! length and index of the binary module.
use vstd::prelude::*;

verus! {

/// The bytes of `v` in unsigned LEB128: low seven bits first, the high bit
/// set on every byte but the last.
pub open spec fn leb128(v: nat) -> Seq<u8>
    decreases v,
{
    if v < 128 {
        seq![v as u8]
    } else {
        seq![((v % 128) + 128) as u8] + leb128(v / 128)
    }
}

/// The number that a sequence of LEB128 bytes stands for (the high bit of
/// each byte is ignored).
pub open spec fn leb128_value(s: Seq<u8>) -> nat
    decreases s.len(),
{
    if s.len() == 0 {
        0
    } else {
        (s[0] % 128) as nat + 128 * leb128_value(s.drop_first())
    }
}

/// The length of the first LEB128 group of `s`: up to and including the
/// first byte whose high bit is clear. `None` when every byte has it set.
pub open spec fn leb128_group_len(s: Seq<u8>) -> Option<nat>
    decreases s.len(),
{
    if s.len() == 0 {
        None
    } else if s[0] < 128 {
        Some(1)
    } else {
        match leb128_group_len(s.drop_first()) {
            Some(n) => Some(n + 1),
            None => None,
        }
    }
}

/// Encodes `value` in unsigned LEB128.
pub fn encode_leb128(value: u64) -> (r: Vec<u8>)
    ensures
        r@ == leb128(value as nat),
{
    let mut out: Vec<u8> = Vec::new();
    let mut rest: u64 = value;
    loop
        invariant
            out@ + leb128(rest as nat) == leb128(value as nat),
        decreases rest,
    {
        if rest < 128 {
            out.push(rest as u8);
            proof {
                assert(leb128(rest as nat) == seq![rest as u8]);
            }
            return out;
        }
        let byte: u8 = ((rest % 128) + 128) as u8;
        proof {
            assert(leb128(rest as nat) == seq![byte] + leb128((rest / 128) as nat));
            assert(out@.push(byte) + leb128((rest / 128) as nat) == out@ + leb128(rest as nat));
        }
        out.push(byte);
        rest = rest / 128;
    }
}

/// Appends the LEB128 encoding of `value` to `out`.
pub fn push_leb128(out: &mut Vec<u8>, value: u64)
    ensures
        final(out)@ == old(out)@ + leb128(value as nat),
{
    let bytes = encode_leb128(value);
    let mut i: usize = 0;
    while i < bytes.len()
        invariant
            i <= bytes@.len(),
            bytes@ == leb128(value as nat),
            out@ == old(out)@ + bytes@.subrange(0, i as int),
        decreases bytes@.len() - i,
    {
        out.push(bytes[i]);
        proof {
            assert(bytes@.subrange(0, i as int + 1) == bytes@.subrange(0, i as int).push(bytes@[i as int]));
        }
        i = i + 1;
    }
    proof {
        assert(bytes@.subrange(0, bytes@.len() as int) == bytes@);
    }
}

proof fn lemma_value_step(s: Seq<u8>, i: int, n: int)
    requires
        0 <= i < n <= s.len(),
    ensures
        leb128_value(s.subrange(i, n)) == (s[i] % 128) as nat + 128 * leb128_value(s.subrange(i + 1, n)),
{
    assert(s.subrange(i, n).drop_first() == s.subrange(i + 1, n));
}

proof fn lemma_group_len_bounds(s: Seq<u8>)
    ensures
        match leb128_group_len(s) {
            Some(n) => 1 <= n <= s.len() && s[n - 1] < 128 && forall|j: int|
                0 <= j < n - 1 ==> s[j] >= 128,
            None => true,
        },
    decreases s.len(),
{
    if s.len() > 0 && s[0] >= 128 {
        let t = s.drop_first();
        lemma_group_len_bounds(t);
        match leb128_group_len(t) {
            Some(m) => {
                assert(leb128_group_len(s) == Some(m + 1));
                assert forall|j: int| 0 <= j < m implies s[j] >= 128 by {
                    if j > 0 {
                        assert(s[j] == t[j - 1]);
                    }
                }
                assert(s[m as int] == t[m - 1]);
            },
            None => {},
        }
    }
}

proof fn lemma_group_len_is_first_clear(s: Seq<u8>, n: int)
    requires
        0 <= n < s.len(),
        s[n] < 128,
        forall|j: int| 0 <= j < n ==> s[j] >= 128,
    ensures
        leb128_group_len(s) == Some((n + 1) as nat),
    decreases n,
{
    if n > 0 {
        assert forall|j: int| 0 <= j < n - 1 implies s.drop_first()[j] >= 128 by {
            assert(s.drop_first()[j] == s[j + 1]);
        }
        lemma_group_len_is_first_clear(s.drop_first(), n - 1);
    }
}

proof fn lemma_no_group(s: Seq<u8>)
    requires
        forall|j: int| 0 <= j < s.len() ==> s[j] >= 128,
    ensures
        leb128_group_len(s) is None,
    decreases s.len(),
{
    if s.len() > 0 {
        assert forall|j: int| 0 <= j < s.drop_first().len() implies s.drop_first()[j] >= 128 by {
            assert(s.drop_first()[j] == s[j + 1]);
        }
        lemma_no_group(s.drop_first());
    }
}

/// Decodes the first LEB128 group of `bytes`. Returns the value and the
/// number of bytes read, or `None` when the group is unterminated or its
/// value does not fit in 64 bits.
pub fn decode_leb128(bytes: &[u8]) -> (r: Option<(u64, usize)>)
    ensures
        match leb128_group_len(bytes@) {
            None => r is None,
            Some(n) => if leb128_value(bytes@.subrange(0, n as int)) <= u64::MAX {
                r == Some((leb128_value(bytes@.subrange(0, n as int)) as u64, n as usize))
            } else {
                r is None
            },
        },
{
    proof {
        lemma_group_len_bounds(bytes@);
    }
    let mut end: usize = 0;
    while end < bytes.len() && bytes[end] >= 128
        invariant
            end <= bytes@.len(),
            forall|j: int| 0 <= j < end ==> bytes@[j] >= 128,
        decreases bytes@.len() - end,
    {
        end = end + 1;
    }
    if end == bytes.len() {
        proof {
            lemma_no_group(bytes@);
        }
        return None;
    }
    proof {
        lemma_group_len_is_first_clear(bytes@, end as int);
    }
    let n: usize = end + 1;
    let mut acc: u64 = 0;
    let mut i: usize = n;
    proof {
        assert(bytes@.subrange(n as int, n as int).len() == 0);
    }
    while i > 0
        invariant
            n <= bytes@.len(),
            i <= n,
            leb128_group_len(bytes@) == Some(n as nat),
            acc as nat == leb128_value(bytes@.subrange(i as int, n as int)),
        decreases i,
    {
        i = i - 1;
        let digit: u64 = (bytes[i] % 128) as u64;
        proof {
            lemma_value_step(bytes@, i as int, n as int);
        }
        if acc > (u64::MAX - digit) / 128 {
            proof {
                let tail = leb128_value(bytes@.subrange(i as int + 1, n as int));
                assert(tail * 128 + digit > u64::MAX) by (nonlinear_arith)
                    requires tail > (u64::MAX - digit) / 128, digit < 128;
                assert forall|k: int| 0 <= k <= i implies leb128_value(bytes@.subrange(k, n as int)) > u64::MAX by {
                    lemma_value_tail_grows(bytes@, k, i as int, n as int);
                }
                assert(leb128_value(bytes@.subrange(i as int, n as int)) > u64::MAX);
                assert(leb128_value(bytes@.subrange(0, n as int)) > u64::MAX);
            }
            return None;
        }
        proof {
            assert(acc * 128 + digit <= u64::MAX) by (nonlinear_arith)
                requires acc <= (u64::MAX - digit) / 128, digit < 128;
        }
        acc = acc * 128 + digit;
    }
    Some((acc, n))
}

proof fn lemma_value_tail_grows(s: Seq<u8>, k: int, i: int, n: int)
    requires
        0 <= k <= i < n <= s.len(),
    ensures
        leb128_value(s.subrange(k, n)) >= leb128_value(s.subrange(i, n)),
    decreases i - k,
{
    if k < i {
        lemma_value_step(s, k, n);
        lemma_value_tail_grows(s, k + 1, i, n);
    }
}

/// Decoding the encoding of any value gives the value back, and the group
/// read is exactly the encoding, whatever bytes follow it.
pub proof fn lemma_leb128_round_trip(v: nat, rest: Seq<u8>)
    ensures
        leb128_group_len(leb128(v) + rest) == Some(leb128(v).len()),
        leb128_value(leb128(v)) == v,
        (leb128(v) + rest).subrange(0, leb128(v).len() as int) == leb128(v),
    decreases v,
{
    let s = leb128(v) + rest;
    if v >= 128 {
        lemma_leb128_round_trip(v / 128, rest);
        assert(s.drop_first() == leb128(v / 128) + rest);
        assert(leb128(v).drop_first() == leb128(v / 128));
        let b: u8 = ((v % 128) + 128) as u8;
        assert(leb128(v)[0] == b);
        assert(b % 128 == v % 128);
        assert(v == v % 128 + 128 * (v / 128));
        assert(leb128_value(leb128(v)) == (leb128(v)[0] % 128) as nat + 128 * leb128_value(
            leb128(v).drop_first(),
        ));
    } else {
        assert(leb128(v).drop_first().len() == 0);
        assert(leb128_value(leb128(v).drop_first()) == 0);
        assert(leb128(v)[0] == v as u8);
        assert((v as u8) % 128 == v);
    }
    assert(s.subrange(0, leb128(v).len() as int) == leb128(v));
}

} // verus!
