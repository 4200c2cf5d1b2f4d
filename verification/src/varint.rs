use vstd::prelude::*;

use crate::error::VarintError;

verus! {

/// How many 7-bit groups the decoder reads before giving up. The reference
/// protocol allows five; this codec deliberately caps at four, so only values
/// below `2^28` are representable on the wire.
pub const MAX_DECODE_GROUPS: usize = 4;

/// The varint encoding of `n`: 7-bit groups, least significant first, each
/// byte but the last carrying the continuation bit.
pub open spec fn varint_encoding(n: nat) -> Seq<u8>
    decreases n,
{
    if n < 128 {
        seq![n as u8]
    } else {
        seq![(128 + n % 128) as u8] + varint_encoding(n / 128)
    }
}

/// How many bytes the varint encoding of `n` takes.
pub open spec fn varint_size(n: nat) -> nat
    decreases n,
{
    if n < 128 {
        1
    } else {
        1 + varint_size(n / 128)
    }
}

/// The least value whose varint encoding needs more than `groups` bytes,
/// that is `128^groups`.
pub open spec fn groups_limit(groups: nat) -> nat
    decreases groups,
{
    if groups == 0 {
        1
    } else {
        128 * groups_limit((groups - 1) as nat)
    }
}

/// Reading a varint from the front of `s`, willing to read at most `max`
/// groups: the decoded value and the number of bytes consumed, or `None`
/// when no byte with a clear continuation bit appears within reach.
pub open spec fn varint_value(s: Seq<u8>, max: nat) -> Option<(nat, nat)>
    decreases max,
{
    if max == 0 || s.len() == 0 {
        None
    } else if s[0] < 128 {
        Some((s[0] as nat, 1 as nat))
    } else {
        match varint_value(s.skip(1), (max - 1) as nat) {
            None => None,
            Some(p) => Some((((s[0] - 128) + 128 * p.0) as nat, (p.1 + 1) as nat)),
        }
    }
}

/// Encodes `value` by its unsigned 32-bit bit pattern, emitting seven bits
/// per byte with a continuation bit on every byte but the last.
pub fn encode(value: i32) -> (r: Vec<u8>)
    ensures
        r@ == varint_encoding((value as u32) as nat),
{
    let mut remaining: u32 = #[verifier::truncate] (value as u32);
    let mut out: Vec<u8> = Vec::new();
    while remaining >= 128
        invariant
            out@ + varint_encoding(remaining as nat) == varint_encoding((value as u32) as nat),
        decreases remaining,
    {
        let low: u8 = (remaining % 128) as u8;
        out.push(128 + low);
        proof {
            assert(out@ + varint_encoding((remaining as nat) / 128) =~= varint_encoding(
                (value as u32) as nat,
            ));
        }
        remaining = remaining / 128;
    }
    out.push(remaining as u8);
    proof {
        assert(out@ =~= varint_encoding((value as u32) as nat));
    }
    out
}

proof fn lemma_div_128_bound(n: nat, l: nat)
    requires
        l >= 1,
    ensures
        (n / 128 < l) <==> (n < 128 * l),
{
    vstd::arithmetic::div_mod::lemma_fundamental_div_mod(n as int, 128);
    assert((n / 128 < l) <==> (n < 128 * l)) by (nonlinear_arith)
        requires
            n == 128 * (n / 128) + (n % 128),
            0 <= n % 128 < 128,
            l >= 1,
    ;
}

proof fn lemma_groups_limit_values()
    ensures
        groups_limit(0) == 1,
        groups_limit(1) == 128,
        groups_limit(2) == 0x4000,
        groups_limit(3) == 0x200000,
        groups_limit(4) == 0x10000000,
{
    assert(groups_limit(0) == 1);
    assert(groups_limit(1) == 128);
    assert(groups_limit(2) == 0x4000);
    assert(groups_limit(3) == 0x200000);
    assert(groups_limit(4) == 0x10000000);
}

proof fn lemma_groups_limit_pos(groups: nat)
    ensures
        groups_limit(groups) >= 1,
        groups >= 1 ==> groups_limit(groups) >= 128,
    decreases groups,
{
    if groups >= 1 {
        lemma_groups_limit_pos((groups - 1) as nat);
    }
}

/// A decoded varint consumes between one and `max` bytes, never more than the
/// input holds, and its value is below `128^max`.
pub proof fn lemma_varint_value_props(s: Seq<u8>, max: nat)
    ensures
        varint_value(s, max) matches Some(p) ==> 1 <= p.1 <= max && p.1 <= s.len() && p.0
            < groups_limit(max),
    decreases max,
{
    if max == 0 || s.len() == 0 {
    } else if s[0] < 128 {
        lemma_groups_limit_pos(max);
    } else {
        lemma_varint_value_props(s.skip(1), (max - 1) as nat);
        if varint_value(s.skip(1), (max - 1) as nat) is Some {
            let q = varint_value(s.skip(1), (max - 1) as nat)->0;
            assert((s[0] - 128) + 128 * q.0 < 128 * groups_limit((max - 1) as nat)) by {
                assert(q.0 < groups_limit((max - 1) as nat));
                assert(q.0 + 1 <= groups_limit((max - 1) as nat));
                assert(128 * (q.0 + 1) <= 128 * groups_limit((max - 1) as nat))
                    by (nonlinear_arith)
                    requires
                        q.0 + 1 <= groups_limit((max - 1) as nat),
                ;
            }
        }
    }
}

/// The encoding's length is `varint_size`, and `varint_size(n) <= groups`
/// exactly when `n < 128^groups`.
pub proof fn lemma_varint_size(n: nat, groups: nat)
    requires
        groups >= 1,
    ensures
        varint_encoding(n).len() == varint_size(n),
        1 <= varint_size(n),
        varint_size(n) <= groups <==> n < groups_limit(groups),
    decreases n, groups,
{
    lemma_encoding_len(n);
    if n < 128 {
        lemma_groups_limit_pos(groups);
    } else if groups == 1 {
        lemma_groups_limit_values();
        lemma_encoding_len(n / 128);
    } else {
        lemma_varint_size(n / 128, (groups - 1) as nat);
        lemma_groups_limit_pos((groups - 1) as nat);
        lemma_div_128_bound(n, groups_limit((groups - 1) as nat));
    }
}

proof fn lemma_encoding_len(n: nat)
    ensures
        varint_encoding(n).len() == varint_size(n),
        1 <= varint_size(n),
    decreases n,
{
    if n >= 128 {
        lemma_encoding_len(n / 128);
    }
}

/// Round trip: a value that fits in `max` groups, encoded and placed in front
/// of any trailing bytes, decodes back to itself, consuming its whole
/// encoding and nothing more.
pub proof fn lemma_varint_round_trip(n: nat, rest: Seq<u8>, max: nat)
    requires
        varint_size(n) <= max,
    ensures
        varint_value(varint_encoding(n) + rest, max) == Some((n, varint_size(n))),
    decreases n,
{
    let s = varint_encoding(n) + rest;
    lemma_encoding_len(n);
    if n < 128 {
        assert(s[0] == n as u8);
    } else {
        assert(s[0] == (128 + n % 128) as u8);
        assert(s.skip(1) =~= varint_encoding(n / 128) + rest);
        lemma_varint_round_trip(n / 128, rest, (max - 1) as nat);
        let p = varint_value(s.skip(1), (max - 1) as nat)->0;
        assert((s[0] - 128) + 128 * p.0 == n % 128 + 128 * (n / 128));
        assert(n % 128 + 128 * (n / 128) == n) by {
            vstd::arithmetic::div_mod::lemma_fundamental_div_mod(n as int, 128);
        }
    }
}

/// Known limitation of the four-group cap: a correctly encoded value that
/// needs more than `max` groups does not decode; the decoder reports it
/// truncated whatever bytes follow.
pub proof fn lemma_varint_overflow_rejected(n: nat, rest: Seq<u8>, max: nat)
    requires
        varint_size(n) > max,
    ensures
        varint_value(varint_encoding(n) + rest, max) is None,
    decreases max,
{
    lemma_encoding_len(n);
    if max > 0 {
        let s = varint_encoding(n) + rest;
        assert(n >= 128);
        assert(s[0] == (128 + n % 128) as u8);
        assert(s.skip(1) =~= varint_encoding(n / 128) + rest);
        lemma_encoding_len(n / 128);
        lemma_varint_overflow_rejected(n / 128, rest, (max - 1) as nat);
    }
}

/// The four-group limit written out: values below `2^28` fit, and
/// `groups_limit(4)` is that bound.
pub proof fn lemma_four_group_limit()
    ensures
        groups_limit(MAX_DECODE_GROUPS as nat) == 0x10000000,
{
    lemma_groups_limit_values();
}

/// Round trip at the codec's boundary: every value the encoder can represent
/// within the decoder's four-group cap — the non-negative values below `2^28`
/// — decodes back to itself, consuming exactly its encoding, whatever bytes
/// follow.
pub proof fn lemma_encode_decode_round_trip(value: i32, rest: Seq<u8>)
    requires
        0 <= value < 0x10000000,
    ensures
        varint_value(varint_encoding((value as u32) as nat) + rest, MAX_DECODE_GROUPS as nat)
            == Some(((value as u32) as nat, varint_size((value as u32) as nat))),
{
    lemma_varint_size((value as u32) as nat, MAX_DECODE_GROUPS as nat);
    lemma_four_group_limit();
    lemma_varint_round_trip((value as u32) as nat, rest, MAX_DECODE_GROUPS as nat);
}

/// Known limitation of the four-group cap: a value whose correct encoding
/// needs a fifth group — any negative value, or `2^28` and above — is out of
/// the representable domain, and its encoding fails to decode as truncated.
pub proof fn lemma_encode_decode_fifth_group(value: i32, rest: Seq<u8>)
    requires
        value < 0 || value >= 0x10000000,
    ensures
        varint_value(varint_encoding((value as u32) as nat) + rest, MAX_DECODE_GROUPS as nat)
            is None,
{
    let n = (value as u32) as nat;
    assert(value < 0 ==> (value as u32) >= 0x80000000) by (bit_vector);
    assert(value >= 0x10000000 ==> (value as u32) >= 0x10000000) by (bit_vector);
    assert(n >= 0x10000000);
    lemma_varint_size(n, MAX_DECODE_GROUPS as nat);
    lemma_four_group_limit();
    lemma_varint_overflow_rejected(n, rest, MAX_DECODE_GROUPS as nat);
}

/// Decodes a varint from `bytes` starting at `start`: at most four groups of
/// seven bits, least significant first, ending at the first byte whose high
/// bit is clear. Reports `Truncated` when no such byte is within reach,
/// whether the input ran out or the cap was hit.
#[verifier::rlimit(50)]
pub fn decode(bytes: &Vec<u8>, start: usize) -> (r: Result<(i32, usize), VarintError>)
    requires
        start <= bytes@.len(),
    ensures
        varint_value(bytes@.skip(start as int), MAX_DECODE_GROUPS as nat) matches Some(p) ==> r
            == Ok::<(i32, usize), VarintError>((p.0 as i32, p.1 as usize)) && p.0 < 0x10000000 && 1
            <= p.1 <= MAX_DECODE_GROUPS && start + p.1 <= bytes@.len(),
        varint_value(bytes@.skip(start as int), MAX_DECODE_GROUPS as nat) is None ==> r == Err::<
            (i32, usize),
            VarintError,
        >(VarintError::Truncated),
{
    let ghost tail = bytes@.skip(start as int);
    proof {
        lemma_varint_value_props(tail, MAX_DECODE_GROUPS as nat);
        lemma_four_group_limit();
        assert(tail.skip(0) =~= tail);
    }
    let mut ans: u32 = 0;
    let mut mult: u32 = 1;
    let mut i: usize = 0;
    while i < MAX_DECODE_GROUPS
        invariant
            start <= bytes@.len(),
            tail == bytes@.skip(start as int),
            tail.len() == bytes@.len() - start,
            i <= MAX_DECODE_GROUPS,
            i <= tail.len(),
            mult == groups_limit(i as nat),
            mult <= 0x10000000,
            ans < mult,
            ({
                let full = varint_value(tail, MAX_DECODE_GROUPS as nat);
                match varint_value(tail.skip(i as int), (MAX_DECODE_GROUPS - i) as nat) {
                    Some(p) => full == Some((((ans + mult * p.0) as nat, (i + p.1) as nat))),
                    None => full is None,
                }
            }),
        decreases MAX_DECODE_GROUPS - i,
    {
        proof {
            lemma_groups_limit_pos(i as nat);
            lemma_groups_limit_values();
            assert(i == 0 || i == 1 || i == 2 || i == 3);
            assert(mult <= 0x200000);
        }
        if bytes.len() - start <= i {
            proof {
                assert(tail.skip(i as int).len() == 0);
            }
            return Err(VarintError::Truncated);
        }
        let b: u8 = bytes[start + i];
        proof {
            assert(tail.skip(i as int)[0] == tail[i as int] == bytes@[start + i]);
            lemma_varint_value_props(tail.skip(i as int), (MAX_DECODE_GROUPS - i) as nat);
            if varint_value(tail.skip(i as int), (MAX_DECODE_GROUPS - i) as nat) is Some {
                let p = varint_value(tail.skip(i as int), (MAX_DECODE_GROUPS - i) as nat)->0;
                assert(mult * p.0 <= mult * (groups_limit((MAX_DECODE_GROUPS - i) as nat) - 1))
                    by (nonlinear_arith)
                    requires
                        p.0 <= groups_limit((MAX_DECODE_GROUPS - i) as nat) - 1,
                        mult >= 0,
                ;
            }
        }
        let low: u8 = b % 128;
        if b < 128 {
            proof {
                let full = varint_value(tail, MAX_DECODE_GROUPS as nat);
                assert(varint_value(tail.skip(i as int), (MAX_DECODE_GROUPS - i) as nat) == Some(
                    ((b as nat, 1 as nat)),
                ));
                assert(ans + mult * (b as nat) < mult * 128) by (nonlinear_arith)
                    requires
                        ans < mult,
                        b < 128,
                        mult >= 1,
                ;
                assert(mult * 128 <= 0x10000000);
            }
            let value: u32 = ans + (low as u32) * mult;
            return Ok((value as i32, i + 1));
        }
        proof {
            let ghost prev = varint_value(tail.skip(i as int), (MAX_DECODE_GROUPS - i) as nat);
            assert(tail.skip(i as int).skip(1) =~= tail.skip(i as int + 1));
            if varint_value(tail.skip(i as int + 1), (MAX_DECODE_GROUPS - i - 1) as nat)
                is Some {
                let q = varint_value(tail.skip(i as int + 1), (MAX_DECODE_GROUPS - i - 1) as nat)->0;
                lemma_varint_value_props(
                    tail.skip(i as int + 1),
                    (MAX_DECODE_GROUPS - i - 1) as nat,
                );
                assert(prev == Some((((b - 128) + 128 * q.0) as nat, (q.1 + 1) as nat)));
                assert((ans + mult * ((b - 128) + 128 * q.0)) == ((ans + (b - 128) * mult) + (128
                    * mult) * q.0)) by (nonlinear_arith);
            }
            assert(ans + (b - 128) * mult < 128 * mult) by (nonlinear_arith)
                requires
                    ans < mult,
                    128 <= b < 256,
                    mult >= 1,
            ;
        }
        ans = ans + (low as u32) * mult;
        mult = mult * 128;
        i = i + 1;
    }
    proof {
        assert(varint_value(tail.skip(MAX_DECODE_GROUPS as int), 0) is None);
    }
    Err(VarintError::Truncated)
}

} // verus!
