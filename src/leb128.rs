//! Unsigned LEB128 varints: seven bits per byte, least significant group
//! first, the high bit set on every byte but the last.

use vstd::prelude::*;

verus! {

/// The bytes that encode `v`.
pub open spec fn leb128_encode(v: nat) -> Seq<u8>
    decreases v,
{
    if v < 128 {
        seq![v as u8]
    } else {
        seq![(v % 128 + 128) as u8] + leb128_encode(v / 128)
    }
}

/// The varint that starts at index `i` of `s`: its value and the number of
/// bytes it takes, or `None` when `s` ends before its last byte.
pub open spec fn leb128_decode_at(s: Seq<u8>, i: int) -> Option<(nat, nat)>
    decreases s.len() - i,
{
    if i < 0 || i >= s.len() {
        None
    } else if s[i] < 128 {
        Some((s[i] as nat, 1))
    } else {
        match leb128_decode_at(s, i + 1) {
            Some((v, n)) => Some((((s[i] - 128) + 128 * v) as nat, n + 1)),
            None => None,
        }
    }
}

/// The value of the varint at index `i` of `s`, where there is one.
pub open spec fn decoded_value(s: Seq<u8>, i: int) -> nat {
    match leb128_decode_at(s, i) {
        Some((v, _)) => v,
        None => 0,
    }
}

/// The number of bytes of the varint at index `i` of `s`, where there is one.
pub open spec fn decoded_len(s: Seq<u8>, i: int) -> nat {
    match leb128_decode_at(s, i) {
        Some((_, n)) => n,
        None => 0,
    }
}

/// A decoded varint whose value stays within `max`.
pub open spec fn decoded_within(s: Seq<u8>, i: int, max: nat, v: nat, n: nat) -> bool {
    leb128_decode_at(s, i) == Some((v, n)) && v <= max && i + n <= s.len()
}

/// No varint that fits within `max` starts at index `i` of `s`.
pub open spec fn no_varint_within(s: Seq<u8>, i: int, max: nat) -> bool {
    match leb128_decode_at(s, i) {
        Some((v, _)) => v > max,
        None => true,
    }
}

proof fn lemma_decode_none_without_end(s: Seq<u8>, i: int)
    requires
        0 <= i <= s.len(),
        forall|k: int| i <= k < s.len() ==> s[k] >= 128,
    ensures
        leb128_decode_at(s, i) is None,
    decreases s.len() - i,
{
    if i < s.len() {
        lemma_decode_none_without_end(s, i + 1);
    }
}

proof fn lemma_decode_value_grows(s: Seq<u8>, i: int, k: int)
    requires
        0 <= i <= k,
        leb128_decode_at(s, k) is Some,
        forall|m: int| i <= m < k ==> s[m] >= 128,
        k < s.len(),
    ensures
        leb128_decode_at(s, i) is Some,
        decoded_value(s, i) >= decoded_value(s, k),
    decreases k - i,
{
    if i < k {
        lemma_decode_value_grows(s, i + 1, k);
    }
}

/// Appends the encoding of `value` to `out`.
fn encode_u128(value: u128, out: &mut Vec<u8>)
    ensures
        final(out)@ == old(out)@ + leb128_encode(value as nat),
    decreases value,
{
    if value < 128 {
        out.push(value as u8);
    } else {
        out.push((value % 128 + 128) as u8);
        let ghost mid = out@;
        encode_u128(value / 128, out);
        assert(final(out)@ =~= old(out)@ + leb128_encode(value as nat));
    }
}

/// Reads the varint at `pos`, provided its value is at most `max`.
fn decode_u128(bytes: &[u8], pos: usize, max: u128) -> (r: Option<(u128, usize)>)
    ensures
        match r {
            Some((v, n)) => decoded_within(bytes@, pos as int, max as nat, v as nat, n as nat),
            None => no_varint_within(bytes@, pos as int, max as nat),
        },
{
    let len = bytes.len();
    if pos >= len {
        return None;
    }
    let mut end: usize = pos;
    while end < len && bytes[end] >= 128
        invariant
            pos <= end <= len,
            len == bytes@.len(),
            forall|k: int| pos <= k < end ==> bytes@[k] >= 128,
        decreases len - end,
    {
        end += 1;
    }
    if end == len {
        proof {
            lemma_decode_none_without_end(bytes@, pos as int);
        }
        return None;
    }
    let mut value: u128 = bytes[end] as u128;
    if value > max {
        proof {
            lemma_decode_value_grows(bytes@, pos as int, end as int);
        }
        return None;
    }
    let mut k: usize = end;
    while k > pos
        invariant
            pos <= k <= end < len,
            len == bytes@.len(),
            forall|m: int| pos <= m < end ==> bytes@[m] >= 128,
            bytes@[end as int] < 128,
            leb128_decode_at(bytes@, k as int) == Some((value as nat, (end - k + 1) as nat)),
            value <= max,
        decreases k,
    {
        let chunk: u128 = (bytes[k - 1] - 128) as u128;
        if chunk > max || value > (max - chunk) / 128 {
            proof {
                assert(leb128_decode_at(bytes@, k - 1) == Some(
                    ((chunk + 128 * value) as nat, (end - k + 2) as nat),
                ));
                if chunk <= max {
                    assert(chunk + 128 * value > max) by (nonlinear_arith)
                        requires
                            value > (max - chunk) / 128,
                            chunk <= max,
                    ;
                }
                lemma_decode_value_grows(bytes@, pos as int, k - 1);
            }
            return None;
        }
        proof {
            assert(chunk + 128 * value <= max) by (nonlinear_arith)
                requires
                    value <= (max - chunk) / 128,
                    chunk <= max,
            ;
        }
        value = chunk + 128 * value;
        k -= 1;
    }
    Some((value, end - pos + 1))
}

/// Encoding then decoding gives back the value and exactly the bytes that
/// were written, whatever surrounds the encoding.
pub proof fn lemma_leb128_round_trip(prefix: Seq<u8>, v: nat, suffix: Seq<u8>)
    ensures
        leb128_decode_at(prefix + leb128_encode(v) + suffix, prefix.len() as int) == Some(
            (v, leb128_encode(v).len()),
        ),
    decreases v,
{
    let s = prefix + leb128_encode(v) + suffix;
    if v >= 128 {
        let first = seq![(v % 128 + 128) as u8];
        let longer = prefix + first;
        lemma_leb128_round_trip(longer, v / 128, suffix);
        assert(longer + leb128_encode(v / 128) + suffix =~= s);
        assert(s[prefix.len() as int] == (v % 128 + 128) as u8);
    } else {
        assert(s[prefix.len() as int] == v as u8);
    }
}

/// Every encoding ends with its only byte below 128.
pub proof fn lemma_leb128_encode_len(v: nat)
    ensures
        1 <= leb128_encode(v).len() <= 1 + v,
    decreases v,
{
    if v >= 128 {
        lemma_leb128_encode_len(v / 128);
    }
}

/// Unsigned integers that have a varint form.
pub trait Leb128: Sized {
    /// The number held.
    spec fn as_nat(&self) -> nat;

    /// The largest number the type holds.
    spec fn max_nat() -> nat;

    /// Appends the varint form of `self` to `out`.
    fn to_leb128_bytes(&self, out: &mut Vec<u8>)
        ensures
            final(out)@ == old(out)@ + leb128_encode(self.as_nat()),
    ;

    /// Reads the varint at the start of `slice`: its value and the number of
    /// bytes it takes. `None` when the slice ends first or the value does not
    /// fit the type.
    fn from_leb128_bytes(slice: &[u8]) -> (r: Option<(Self, usize)>)
        ensures
            match r {
                Some((v, n)) => decoded_within(slice@, 0, Self::max_nat(), v.as_nat(), n as nat),
                None => no_varint_within(slice@, 0, Self::max_nat()),
            },
    ;

    /// Reads the varint that starts at `pos`, as `from_leb128_bytes` does.
    fn from_leb128_at(bytes: &[u8], pos: usize) -> (r: Option<(Self, usize)>)
        ensures
            match r {
                Some((v, n)) => decoded_within(
                    bytes@,
                    pos as int,
                    Self::max_nat(),
                    v.as_nat(),
                    n as nat,
                ),
                None => no_varint_within(bytes@, pos as int, Self::max_nat()),
            },
    ;
}

impl Leb128 for u16 {
    open spec fn as_nat(&self) -> nat {
        *self as nat
    }

    open spec fn max_nat() -> nat {
        u16::MAX as nat
    }

    fn to_leb128_bytes(&self, out: &mut Vec<u8>) {
        encode_u128(*self as u128, out);
    }

    fn from_leb128_bytes(slice: &[u8]) -> (r: Option<(u16, usize)>) {
        u16::from_leb128_at(slice, 0)
    }

    fn from_leb128_at(bytes: &[u8], pos: usize) -> (r: Option<(u16, usize)>) {
        match decode_u128(bytes, pos, u16::MAX as u128) {
            Some((v, n)) => Some((v as u16, n)),
            None => None,
        }
    }
}

impl Leb128 for u32 {
    open spec fn as_nat(&self) -> nat {
        *self as nat
    }

    open spec fn max_nat() -> nat {
        u32::MAX as nat
    }

    fn to_leb128_bytes(&self, out: &mut Vec<u8>) {
        encode_u128(*self as u128, out);
    }

    fn from_leb128_bytes(slice: &[u8]) -> (r: Option<(u32, usize)>) {
        u32::from_leb128_at(slice, 0)
    }

    fn from_leb128_at(bytes: &[u8], pos: usize) -> (r: Option<(u32, usize)>) {
        match decode_u128(bytes, pos, u32::MAX as u128) {
            Some((v, n)) => Some((v as u32, n)),
            None => None,
        }
    }
}

impl Leb128 for u64 {
    open spec fn as_nat(&self) -> nat {
        *self as nat
    }

    open spec fn max_nat() -> nat {
        u64::MAX as nat
    }

    fn to_leb128_bytes(&self, out: &mut Vec<u8>) {
        encode_u128(*self as u128, out);
    }

    fn from_leb128_bytes(slice: &[u8]) -> (r: Option<(u64, usize)>) {
        u64::from_leb128_at(slice, 0)
    }

    fn from_leb128_at(bytes: &[u8], pos: usize) -> (r: Option<(u64, usize)>) {
        match decode_u128(bytes, pos, u64::MAX as u128) {
            Some((v, n)) => Some((v as u64, n)),
            None => None,
        }
    }
}

impl Leb128 for u128 {
    open spec fn as_nat(&self) -> nat {
        *self as nat
    }

    open spec fn max_nat() -> nat {
        u128::MAX as nat
    }

    fn to_leb128_bytes(&self, out: &mut Vec<u8>) {
        encode_u128(*self, out);
    }

    fn from_leb128_bytes(slice: &[u8]) -> (r: Option<(u128, usize)>) {
        u128::from_leb128_at(slice, 0)
    }

    fn from_leb128_at(bytes: &[u8], pos: usize) -> (r: Option<(u128, usize)>) {
        decode_u128(bytes, pos, u128::MAX)
    }
}

impl Leb128 for usize {
    open spec fn as_nat(&self) -> nat {
        *self as nat
    }

    open spec fn max_nat() -> nat {
        usize::MAX as nat
    }

    fn to_leb128_bytes(&self, out: &mut Vec<u8>) {
        encode_u128(*self as u128, out);
    }

    fn from_leb128_bytes(slice: &[u8]) -> (r: Option<(usize, usize)>) {
        usize::from_leb128_at(slice, 0)
    }

    fn from_leb128_at(bytes: &[u8], pos: usize) -> (r: Option<(usize, usize)>) {
        match decode_u128(bytes, pos, usize::MAX as u128) {
            Some((v, n)) => Some((v as usize, n)),
            None => None,
        }
    }
}

/// Steps over the varint that starts at `pos` without reading its value:
/// the number of bytes it takes, or `None` when the bytes end first.
pub fn skip_leb128_at(bytes: &[u8], pos: usize) -> (r: Option<usize>)
    ensures
        match r {
            Some(n) => leb128_decode_at(bytes@, pos as int) is Some && decoded_len(
                bytes@,
                pos as int,
            ) == n as nat && pos + n <= bytes@.len(),
            None => leb128_decode_at(bytes@, pos as int) is None,
        },
{
    let len = bytes.len();
    let mut end: usize = pos;
    while end < len && bytes[end] >= 128
        invariant
            pos <= end,
            len == bytes@.len(),
            forall|k: int| pos <= k < end ==> bytes@[k] >= 128,
        decreases len - end,
    {
        end += 1;
    }
    if end >= len {
        proof {
            if pos <= len {
                lemma_decode_none_without_end(bytes@, pos as int);
            }
        }
        return None;
    }
    proof {
        lemma_decode_count(bytes@, pos as int, end as int);
    }
    Some(end - pos + 1)
}

proof fn lemma_decode_count(s: Seq<u8>, i: int, end: int)
    requires
        0 <= i <= end < s.len(),
        s[end] < 128,
        forall|k: int| i <= k < end ==> s[k] >= 128,
    ensures
        leb128_decode_at(s, i) is Some,
        decoded_len(s, i) == end - i + 1,
    decreases end - i,
{
    if i < end {
        lemma_decode_count(s, i + 1, end);
    }
}

} // verus!
