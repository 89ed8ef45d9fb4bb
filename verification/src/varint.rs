//! Unsigned base-128 integers, the form of a record's length prefix.
//!
//! A value is written seven bits at a time, lowest group first. Every byte
//! but the last has its top bit set.

use vstd::prelude::*;

verus! {

/// The largest number of bytes a prefix that holds a `u64` can take.
pub const MAX_PREFIX_WIDTH: usize = 10;

/// 128 raised to the power `k`.
pub open spec fn pow128(k: nat) -> nat
    decreases k,
{
    if k == 0 {
        1
    } else {
        128 * pow128((k - 1) as nat)
    }
}

/// The bytes that stand for `n`.
pub open spec fn varint_encoding(n: nat) -> Seq<u8>
    decreases n,
{
    if n < 128 {
        seq![n as u8]
    } else {
        seq![(n % 128 + 128) as u8] + varint_encoding(n / 128)
    }
}

/// The number that the low seven bits of each byte spell, lowest group first.
pub open spec fn varint_value(bytes: Seq<u8>) -> nat
    decreases bytes.len(),
{
    if bytes.len() == 0 {
        0
    } else {
        (bytes[0] % 128) as nat + 128 * varint_value(bytes.drop_first())
    }
}

/// How many bytes the first prefix in `bytes` takes: one more than the index
/// of the first byte below 128. `None` where every byte has its top bit set.
pub open spec fn prefix_width(bytes: Seq<u8>) -> Option<nat>
    decreases bytes.len(),
{
    if bytes.len() == 0 {
        None
    } else if bytes[0] < 128 {
        Some(1nat)
    } else {
        match prefix_width(bytes.drop_first()) {
            Some(w) => Some(w + 1),
            None => None,
        }
    }
}

/// What the start of a byte string holds when read as a length prefix.
#[derive(Debug, Clone, Copy, PartialEq, Eq, Structural)]
pub enum Prefix {
    /// The bytes end before the prefix does.
    Incomplete,
    /// The prefix runs past ten bytes or spells a value above `u64::MAX`.
    Malformed,
    /// A prefix of `width` bytes that spells `value`.
    Length { value: u64, width: usize },
}

/// The reading of `bytes` as a length prefix followed by anything.
pub open spec fn parse_prefix(bytes: Seq<u8>) -> Prefix {
    match prefix_width(bytes) {
        Some(w) => {
            if w <= 10 && varint_value(bytes.subrange(0, w as int)) <= u64::MAX {
                Prefix::Length {
                    value: varint_value(bytes.subrange(0, w as int)) as u64,
                    width: w as usize,
                }
            } else {
                Prefix::Malformed
            }
        },
        None => {
            if bytes.len() < 10 {
                Prefix::Incomplete
            } else {
                Prefix::Malformed
            }
        },
    }
}

/// Powers of 128 grow with the exponent.
pub proof fn lemma_pow128_monotonic(a: nat, b: nat)
    requires
        a <= b,
    ensures
        0 < pow128(a) <= pow128(b),
    decreases b,
{
    if b == 0 {
    } else if a == b {
        lemma_pow128_monotonic((a - 1) as nat, (b - 1) as nat);
    } else {
        lemma_pow128_monotonic(a, (b - 1) as nat);
    }
}

/// The powers of 128 at the edge of what a `u64` holds.
pub proof fn lemma_pow128_bounds()
    ensures
        pow128(8) == 0x100_0000_0000_0000,
        pow128(9) == 0x8000_0000_0000_0000,
        pow128(10) > u64::MAX,
{
    reveal_with_fuel(pow128, 11);
}

/// Appending a byte adds its low seven bits at the next power of 128.
pub proof fn lemma_value_push(bytes: Seq<u8>, byte: u8)
    ensures
        varint_value(bytes.push(byte)) == varint_value(bytes) + (byte % 128) * pow128(bytes.len()),
    decreases bytes.len(),
{
    let low = (byte % 128) as nat;
    let whole = bytes.push(byte);
    if bytes.len() == 0 {
        assert(whole.drop_first() =~= Seq::<u8>::empty());
        assert(varint_value(whole.drop_first()) == 0);
        assert(pow128(0) == 1);
    } else {
        lemma_value_push(bytes.drop_first(), byte);
        assert(whole.drop_first() =~= bytes.drop_first().push(byte));
        let tail = varint_value(bytes.drop_first());
        let p = pow128((bytes.len() - 1) as nat);
        assert(128 * (tail + low * p) == 128 * tail + low * (128 * p)) by (nonlinear_arith);
    }
}

/// A value spelt by `k` bytes is below the `k`-th power of 128.
pub proof fn lemma_value_bound(bytes: Seq<u8>)
    ensures
        varint_value(bytes) < pow128(bytes.len()),
    decreases bytes.len(),
{
    if bytes.len() > 0 {
        lemma_value_bound(bytes.drop_first());
    }
}

/// A run of bytes with the top bit set only moves the prefix's end along.
pub proof fn lemma_width_after_run(bytes: Seq<u8>, k: nat)
    requires
        k <= bytes.len(),
        forall|j: int| 0 <= j < k ==> bytes[j] >= 128,
    ensures
        prefix_width(bytes) == match prefix_width(bytes.skip(k as int)) {
            Some(w) => Some(w + k),
            None => None,
        },
    decreases k,
{
    if k == 0 {
        assert(bytes.skip(0) =~= bytes);
    } else {
        let rest = bytes.drop_first();
        assert forall|j: int| 0 <= j < k - 1 implies rest[j] >= 128 by {
            assert(rest[j] == bytes[j + 1]);
        }
        lemma_width_after_run(rest, (k - 1) as nat);
        assert(rest.skip(k - 1) =~= bytes.skip(k as int));
    }
}

/// A prefix lies within the bytes it was found in.
pub proof fn lemma_width_in_range(bytes: Seq<u8>)
    ensures
        match prefix_width(bytes) {
            Some(w) => 1 <= w <= bytes.len(),
            None => true,
        },
    decreases bytes.len(),
{
    if bytes.len() > 0 && bytes[0] >= 128 {
        lemma_width_in_range(bytes.drop_first());
    }
}

/// Where no prefix ends, every byte has its top bit set.
pub proof fn lemma_width_none(bytes: Seq<u8>)
    requires
        prefix_width(bytes) is None,
    ensures
        forall|j: int| 0 <= j < bytes.len() ==> bytes[j] >= 128,
    decreases bytes.len(),
{
    if bytes.len() > 0 {
        let rest = bytes.drop_first();
        lemma_width_none(rest);
        assert forall|j: int| 0 <= j < bytes.len() implies bytes[j] >= 128 by {
            if j > 0 {
                assert(bytes[j] == rest[j - 1]);
            }
        }
    }
}

/// A prefix that is whole stays what it is when more bytes arrive.
pub proof fn lemma_prefix_stable(bytes: Seq<u8>, more: Seq<u8>)
    requires
        prefix_width(bytes) is Some,
    ensures
        prefix_width(bytes + more) == prefix_width(bytes),
        parse_prefix(bytes + more) == parse_prefix(bytes),
    decreases bytes.len(),
{
    lemma_width_in_range(bytes);
    let w = prefix_width(bytes)->Some_0 as int;
    if bytes[0] >= 128 {
        lemma_prefix_stable(bytes.drop_first(), more);
        assert((bytes + more).drop_first() =~= bytes.drop_first() + more);
    }
    assert((bytes + more)[0] == bytes[0]);
    assert(prefix_width(bytes + more) == prefix_width(bytes));
    assert((bytes + more).subrange(0, w) =~= bytes.subrange(0, w));
}

/// The first prefix of an encoding followed by anything is the encoding.
pub proof fn lemma_encoding_width(n: nat, tail: Seq<u8>)
    ensures
        prefix_width(varint_encoding(n) + tail) == Some(varint_encoding(n).len()),
    decreases n,
{
    let all = varint_encoding(n) + tail;
    if n < 128 {
        assert(all[0] == n as u8);
    } else {
        lemma_encoding_width(n / 128, tail);
        assert(all[0] == (n % 128 + 128) as u8);
        assert(all.drop_first() =~= varint_encoding(n / 128) + tail);
    }
}

/// An encoding spells the number it was made from.
pub proof fn lemma_encoding_value(n: nat)
    ensures
        varint_value(varint_encoding(n)) == n,
    decreases n,
{
    let enc = varint_encoding(n);
    if n < 128 {
        assert(enc.drop_first() =~= Seq::<u8>::empty());
        assert(varint_value(enc.drop_first()) == 0);
    } else {
        lemma_encoding_value(n / 128);
        assert(enc[0] == (n % 128 + 128) as u8);
        assert(enc.drop_first() =~= varint_encoding(n / 128));
    }
}

/// A number below the `k`-th power of 128 takes at most `k` bytes.
pub proof fn lemma_encoding_len(n: nat, k: nat)
    requires
        k >= 1,
        n < pow128(k),
    ensures
        1 <= varint_encoding(n).len() <= k,
    decreases n,
{
    if n >= 128 {
        reveal_with_fuel(pow128, 2);
        assert(k >= 2);
        lemma_encoding_len(n / 128, (k - 1) as nat);
    }
}

/// Reading back what was written: the encoding of a `u64`, followed by
/// anything, parses as that value and its own width.
pub proof fn lemma_parse_encoding(n: u64, tail: Seq<u8>)
    ensures
        1 <= varint_encoding(n as nat).len() <= 10,
        parse_prefix(varint_encoding(n as nat) + tail) == (Prefix::Length {
            value: n,
            width: varint_encoding(n as nat).len() as usize,
        }),
{
    let enc = varint_encoding(n as nat);
    lemma_pow128_bounds();
    lemma_encoding_len(n as nat, 10);
    lemma_encoding_width(n as nat, tail);
    lemma_encoding_value(n as nat);
    assert((enc + tail).subrange(0, enc.len() as int) =~= enc);
}

/// Appends the encoding of `value` to `out`.
pub fn encode_varint(value: u64, out: &mut Vec<u8>)
    ensures
        final(out)@ == old(out)@ + varint_encoding(value as nat),
{
    let ghost before = out@;
    let mut rest: u64 = value;
    while rest >= 128
        invariant
            out@ + varint_encoding(rest as nat) == before + varint_encoding(value as nat),
        decreases rest,
    {
        let low: u8 = (rest % 128 + 128) as u8;
        proof {
            assert(varint_encoding(rest as nat) == seq![low] + varint_encoding(
                (rest / 128) as nat,
            ));
            assert(out@.push(low) + varint_encoding((rest / 128) as nat) =~= out@ + (seq![low]
                + varint_encoding((rest / 128) as nat)));
        }
        out.push(low);
        rest = rest / 128;
    }
    proof {
        assert(out@.push(rest as u8) =~= out@ + varint_encoding(rest as nat));
    }
    out.push(rest as u8);
}

/// Reads the length prefix at the start of `bytes`.
pub fn decode_prefix(bytes: &[u8]) -> (parsed: Prefix)
    ensures
        parsed == parse_prefix(bytes@),
{
    let mut value: u64 = 0;
    let mut scale: u64 = 1;
    let mut i: usize = 0;
    while i < bytes.len() && i < MAX_PREFIX_WIDTH
        invariant
            i <= bytes.len(),
            i <= 10,
            forall|j: int| 0 <= j < i ==> bytes@[j] >= 128,
            value as nat == varint_value(bytes@.subrange(0, i as int)),
            i < 10 ==> scale as nat == pow128(i as nat),
        decreases 10 - i,
    {
        let byte: u8 = bytes[i];
        let low: u64 = (byte % 128) as u64;
        let ghost seen = bytes@.subrange(0, i as int);
        proof {
            lemma_pow128_bounds();
            lemma_value_bound(seen);
            lemma_value_push(seen, byte);
            assert(seen.push(byte) =~= bytes@.subrange(0, i + 1));
            lemma_width_after_run(bytes@, i as nat);
            if i < 9 {
                lemma_pow128_monotonic(i as nat, 8);
            }
            if byte >= 128 {
                lemma_width_after_run(bytes@, (i + 1) as nat);
            }
        }
        if i == 9 && low > 1 {
            proof {
                assert(low * scale >= 2 * scale) by (nonlinear_arith)
                    requires
                        low >= 2,
                        scale > 0,
                ;
            }
            return Prefix::Malformed;
        }
        proof {
            assert(low * scale <= 127 * scale) by (nonlinear_arith)
                requires
                    low <= 127,
                    scale > 0,
            ;
            if i == 9 {
                assert(low * scale <= 1 * scale) by (nonlinear_arith)
                    requires
                        low <= 1,
                        scale > 0,
                ;
            }
        }
        let total: u64 = value + low * scale;
        if byte < 128 {
            return Prefix::Length { value: total, width: i + 1 };
        }
        value = total;
        if i < 9 {
            scale = scale * 128;
        }
        i += 1;
    }
    proof {
        lemma_width_after_run(bytes@, i as nat);
        if i < 10 {
            assert(bytes@.skip(i as int) =~= Seq::<u8>::empty());
        }
    }
    if i < MAX_PREFIX_WIDTH {
        Prefix::Incomplete
    } else {
        Prefix::Malformed
    }
}

} // verus!
