//! The variable-width integer codec used for file lengths.
//!
//! A value is sent as a field of at least `min_size` bytes: a leading
//! marker byte followed by the value's low bytes, little-endian.  The
//! marker's leading one-bits say how many bytes the field has beyond
//! `min_size`; its remaining low bits carry the value's highest bits.
use vstd::prelude::*;

use crate::socket::ReceiveError;

verus! {

/// 256 raised to `n`: the weight of the byte at little-endian position `n`.
pub open spec fn pow256(n: nat) -> nat
    decreases n,
{
    if n == 0 {
        1
    } else {
        256 * pow256((n - 1) as nat)
    }
}

/// 2 raised to `s`, for the bit weights of a single byte (`s <= 7`).
pub open spec fn pow2_small(s: nat) -> nat {
    if s == 0 {
        1
    } else if s == 1 {
        2
    } else if s == 2 {
        4
    } else if s == 3 {
        8
    } else if s == 4 {
        16
    } else if s == 5 {
        32
    } else if s == 6 {
        64
    } else {
        128
    }
}

/// How many base-256 digits `v` needs (0 for `v == 0`).
pub open spec fn sig_bytes(v: nat) -> nat
    decreases v,
{
    if v == 0 {
        0
    } else {
        1 + sig_bytes(v / 256)
    }
}

/// Byte `i` of `v`, little-endian.
pub open spec fn byte_at(v: nat, i: nat) -> u8 {
    ((v / pow256(i)) % 256) as u8
}

/// The scratch width the encoder settles on: the index of the highest
/// non-zero byte of `v`, but not below `min`.
pub open spec fn varlong_width(v: nat, min: nat) -> nat {
    if sig_bytes(v) > min {
        sig_bytes(v)
    } else {
        min
    }
}

/// The length-marker threshold for a field of width `k`:
/// `2 ^ (7 - k + min)`.
pub open spec fn varlong_mark(v: nat, min: nat) -> nat {
    pow2_small((7 + min - varlong_width(v, min)) as nat)
}

/// The value's highest scratch byte, the one the marker byte absorbs.
pub open spec fn varlong_top(v: nat, min: nat) -> nat {
    v / pow256((varlong_width(v, min) - 1) as nat)
}

/// The emitted field length in bytes.
pub open spec fn varlong_len(v: nat, min: nat) -> nat {
    let k = varlong_width(v, min);
    if varlong_top(v, min) >= varlong_mark(v, min) {
        k + 1
    } else {
        k
    }
}

/// The leading byte of the field.  Three cases: the top byte does not fit
/// beside the length bits (pure marker), the field is longer than `min`
/// (top byte plus length bits), or the field is exactly `min` bytes (the
/// top byte alone, no length bits).
pub open spec fn varlong_marker(v: nat, min: nat) -> u8 {
    let k = varlong_width(v, min);
    let mark = varlong_mark(v, min);
    let top = varlong_top(v, min);
    if top >= mark {
        (256 - mark) as u8
    } else if k > min {
        (top + 256 - 2 * mark) as u8
    } else {
        top as u8
    }
}

/// The full encoded field: marker byte, then the value's low bytes.
pub open spec fn encode_varlong(v: nat, min: nat) -> Seq<u8> {
    seq![varlong_marker(v, min)] + Seq::new(
        (varlong_len(v, min) - 1) as nat,
        |i: int| byte_at(v, i as nat),
    )
}

/// How many leading one-bits a marker byte carries.
pub open spec fn leading_ones(b: u8) -> nat {
    if b < 0x80 {
        0
    } else if b < 0xC0 {
        1
    } else if b < 0xE0 {
        2
    } else if b < 0xF0 {
        3
    } else if b < 0xF8 {
        4
    } else if b < 0xFC {
        5
    } else if b < 0xFE {
        6
    } else if b < 0xFF {
        7
    } else {
        8
    }
}

/// The value bits left in a marker byte once its length bits (and the
/// zero bit that ends them) are stripped.
pub open spec fn marker_residual(b: u8) -> nat {
    if leading_ones(b) == 8 {
        0
    } else {
        (b as nat) % pow2_small((7 - leading_ones(b)) as nat)
    }
}

/// The value of the first `n` bytes of `data`, read little-endian: the
/// first byte is the lowest.
pub open spec fn bytes_val(data: Seq<u8>, n: nat) -> nat
    decreases n,
{
    if n == 0 {
        0
    } else {
        (data[0] as int as nat) + 256 * bytes_val(data.skip(1), (n - 1) as nat)
    }
}

/// What decoding the head of `data` as a varint field yields: the value
/// and how many bytes the field occupied.  `TruncatedVarint` when `data`
/// ends before the declared length; `Invalid` when the declared field
/// does not fit a 64-bit value.
pub open spec fn decode_varlong(data: Seq<u8>, min: nat) -> Result<(u64, usize), ReceiveError> {
    if data.len() < min {
        Err(ReceiveError::TruncatedVarint)
    } else {
        let extra = leading_ones(data[0]);
        let total = min + extra;
        if total > 9 {
            Err(ReceiveError::Invalid)
        } else if data.len() < total {
            Err(ReceiveError::TruncatedVarint)
        } else {
            let v = bytes_val(data.subrange(1, total as int), (total - 1) as nat)
                + marker_residual(data[0]) * pow256((total - 1) as nat);
            if v < 0x10000000000000000 {
                Ok((v as u64, total as usize))
            } else {
                Err(ReceiveError::Invalid)
            }
        }
    }
}

/// `2 ^ s` as one executable byte.
fn small_pow2(s: usize) -> (r: u8)
    requires
        s <= 7,
    ensures
        r as nat == pow2_small(s as nat),
{
    match s {
        0 => 1,
        1 => 2,
        2 => 4,
        3 => 8,
        4 => 16,
        5 => 32,
        6 => 64,
        _ => 128,
    }
}

/// Appends the encoded field for `value` to `buffer`: marker byte first,
/// then the value's low bytes little-endian, at least `min_size` bytes
/// in all.
#[verifier::rlimit(60)]
pub fn write_varlong(value: u64, min_size: usize, buffer: &mut Vec<u8>)
    requires
        1 <= min_size <= 8,
    ensures
        final(buffer)@ == old(buffer)@ + encode_varlong(value as nat, min_size as nat),
{
    proof {
        reveal_with_fuel(pow256, 9);
        assert(pow256(7) == 0x100000000000000);
        assert(pow256(8) == 0x10000000000000000);
        lemma_sig_bytes_le(value as nat, 8);
        vstd::arithmetic::div_mod::lemma_div_basics(value as int);
        assert(pow256(0) == 1);
    }
    // Index of the highest non-zero byte of the value.
    let mut n: usize = 0;
    let mut t: u64 = value;
    while t > 0
        invariant
            1 <= min_size <= 8,
            sig_bytes(value as nat) == n + sig_bytes(t as nat),
            t as nat == (value as nat) / pow256(n as nat),
            n <= 8,
            sig_bytes(value as nat) <= 8,
        decreases t,
    {
        proof {
            lemma_pow256_pos(n as nat);
            vstd::arithmetic::div_mod::lemma_div_denominator(
                value as int,
                pow256(n as nat) as int,
                256,
            );
            assert(pow256((n + 1) as nat) == 256 * pow256(n as nat));
            vstd::arithmetic::div_mod::lemma_div_decreases(t as int, 256);
        }
        t = t / 256;
        n = n + 1;
    }
    assert(sig_bytes(value as nat) == n as nat);

    // The settled width, clamped to at least `min_size`.
    let k: usize = if min_size > n {
        min_size
    } else {
        n
    };
    assert(k as nat == varlong_width(value as nat, min_size as nat));

    // 256 ^ (k - 1), to pick out the highest scratch byte.
    let mut d: u64 = 1;
    let mut j: usize = 0;
    while j + 1 < k
        invariant
            j + 1 <= k <= 8,
            d as nat == pow256(j as nat),
        decreases k - j,
    {
        proof {
            lemma_pow256_increases((j + 1) as nat, 7);
            reveal_with_fuel(pow256, 9);
            assert(pow256(7) == 0x100000000000000);
            assert((d * 256) as nat == pow256((j + 1) as nat));
        }
        d = d * 256;
        j = j + 1;
    }
    assert(d as nat == pow256((k - 1) as nat));

    proof {
        if value > 0 {
            lemma_sig_bytes_lower(value as nat);
        }
        lemma_pow256_increases(sig_bytes(value as nat), k as nat);
        assert((value as nat) < pow256(k as nat));
        assert(pow256(k as nat) == 256 * pow256((k - 1) as nat));
        vstd::arithmetic::div_mod::lemma_multiply_divide_lt(value as int, d as int, 256);
    }
    let top8: u8 = (value / d) as u8;
    assert(top8 as nat == varlong_top(value as nat, min_size as nat));

    let s: usize = 7 + min_size - k;
    let mark: u8 = small_pow2(s);
    assert(mark as nat == varlong_mark(value as nat, min_size as nat));
    assert(1 <= mark as nat <= 128);

    let marker: u8;
    let nlow: usize;
    if top8 >= mark {
        marker = 255 - (mark - 1);
        nlow = k;
    } else if k > min_size {
        assert(s <= 6);
        assert(mark <= 64);
        marker = top8 + (255 - (2 * mark - 1));
        nlow = k - 1;
    } else {
        marker = top8;
        nlow = min_size - 1;
    }
    assert(marker == varlong_marker(value as nat, min_size as nat));
    assert(nlow as nat == (varlong_len(value as nat, min_size as nat) - 1) as nat);
    assert(nlow <= 8);

    buffer.push(marker);
    let ghost emitted = |x: int| byte_at(value as nat, x as nat);
    assert(buffer@ =~= old(buffer)@ + seq![marker] + Seq::new(0, emitted));

    let mut rem: u64 = value;
    let mut i: usize = 0;
    while i < nlow
        invariant
            i <= nlow <= 8,
            rem as nat == (value as nat) / pow256(i as nat),
            buffer@ == old(buffer)@ + seq![marker] + Seq::new(i as nat, emitted),
            emitted == (|x: int| byte_at(value as nat, x as nat)),
            marker == varlong_marker(value as nat, min_size as nat),
            nlow as nat == (varlong_len(value as nat, min_size as nat) - 1) as nat,
        decreases nlow - i,
    {
        buffer.push((rem % 256) as u8);
        proof {
            assert((rem % 256) as u8 == byte_at(value as nat, i as nat));
            assert(Seq::new((i + 1) as nat, emitted) =~= Seq::new(i as nat, emitted).push(
                byte_at(value as nat, i as nat),
            ));
            lemma_pow256_pos(i as nat);
            vstd::arithmetic::div_mod::lemma_div_denominator(
                value as int,
                pow256(i as nat) as int,
                256,
            );
            assert(pow256((i + 1) as nat) == 256 * pow256(i as nat));
        }
        rem = rem / 256;
        i = i + 1;
    }
    assert(buffer@ =~= old(buffer)@ + encode_varlong(value as nat, min_size as nat));
}

/// Counts the leading one-bits of a marker byte.
fn count_leading_ones(b: u8) -> (r: usize)
    ensures
        r as nat == leading_ones(b),
{
    if b < 0x80 {
        0
    } else if b < 0xC0 {
        1
    } else if b < 0xE0 {
        2
    } else if b < 0xF0 {
        3
    } else if b < 0xF8 {
        4
    } else if b < 0xFC {
        5
    } else if b < 0xFE {
        6
    } else if b < 0xFF {
        7
    } else {
        8
    }
}

/// `bytes_val` reads only the first `n` bytes.
proof fn lemma_bytes_val_agree(s1: Seq<u8>, s2: Seq<u8>, n: nat)
    requires
        n <= s1.len(),
        n <= s2.len(),
        forall|i: int| 0 <= i < n ==> s1[i] == s2[i],
    ensures
        bytes_val(s1, n) == bytes_val(s2, n),
    decreases n,
{
    if n > 0 {
        assert(forall|i: int| 0 <= i < n - 1 ==> s1.skip(1)[i] == s2.skip(1)[i]);
        lemma_bytes_val_agree(s1.skip(1), s2.skip(1), (n - 1) as nat);
    }
}

/// The first `n` bytes stay below `pow256(n)`.
proof fn lemma_bytes_val_bound(s: Seq<u8>, n: nat)
    requires
        n <= s.len(),
    ensures
        bytes_val(s, n) < pow256(n),
    decreases n,
{
    if n > 0 {
        lemma_bytes_val_bound(s.skip(1), (n - 1) as nat);
        assert(pow256(n) == 256 * pow256((n - 1) as nat));
    }
}

/// Decodes the varint field at the head of `data`: the value, and how
/// many bytes the field occupied.
#[verifier::rlimit(60)]
pub fn read_varlong(data: &[u8], min_size: usize) -> (r: Result<(u64, usize), ReceiveError>)
    requires
        1 <= min_size <= 8,
    ensures
        r == decode_varlong(data@, min_size as nat),
{
    proof {
        reveal_with_fuel(pow256, 9);
        assert(pow256(7) == 0x100000000000000);
        assert(pow256(8) == 0x10000000000000000);
    }
    if data.len() < min_size {
        return Err(ReceiveError::TruncatedVarint);
    }
    let m: u8 = data[0];
    let extra: usize = count_leading_ones(m);
    let total: usize = min_size + extra;
    if total > 9 {
        return Err(ReceiveError::Invalid);
    }
    if data.len() < total {
        return Err(ReceiveError::TruncatedVarint);
    }
    let nlow: usize = total - 1;
    let ghost low = data@.subrange(1, total as int);

    // Low bytes, highest first, folded together Horner-style.
    let mut val: u64 = 0;
    let mut idx: usize = total;
    while idx > 1
        invariant
            1 <= idx <= total <= data@.len(),
            total <= 9,
            low == data@.subrange(1, total as int),
            val as nat == bytes_val(data@.subrange(idx as int, total as int), (total - idx) as nat),
            (val as nat) < pow256((total - idx) as nat),
        decreases idx,
    {
        proof {
            reveal_with_fuel(pow256, 9);
            assert(pow256(8) == 0x10000000000000000);
            lemma_pow256_increases((total - idx) as nat, 7);
            let tail = data@.subrange(idx as int, total as int);
            let longer = data@.subrange(idx - 1, total as int);
            assert(longer.skip(1) =~= tail);
            assert(longer[0] == data@[idx - 1]);
            lemma_bytes_val_bound(longer, (total - (idx - 1)) as nat);
        }
        idx = idx - 1;
        val = val * 256 + (data[idx] as u64);
    }
    assert(val as nat == bytes_val(low, nlow as nat));

    // The value bits still sitting in the marker byte.
    let res: u8 = if extra == 8 {
        0
    } else {
        m % small_pow2(7 - extra)
    };
    assert(res as nat == marker_residual(m));

    if nlow == 8 {
        if res > 0 {
            proof {
                lemma_pow256_pos(8);
                assert((marker_residual(m) * pow256(8)) >= pow256(8)) by (nonlinear_arith)
                    requires
                        marker_residual(m) >= 1,
                ;
            }
            return Err(ReceiveError::Invalid);
        }
        return Ok((val, total));
    }

    // 256 ^ nlow, to weigh the residual.
    let mut p: u64 = 1;
    let mut j: usize = 0;
    while j < nlow
        invariant
            j <= nlow <= 7,
            p as nat == pow256(j as nat),
        decreases nlow - j,
    {
        proof {
            lemma_pow256_increases((j + 1) as nat, 7);
            reveal_with_fuel(pow256, 9);
            assert(pow256(7) == 0x100000000000000);
            assert((p * 256) as nat == pow256((j + 1) as nat));
        }
        p = p * 256;
        j = j + 1;
    }
    proof {
        reveal_with_fuel(pow256, 9);
        lemma_pow256_increases(nlow as nat, 7);
        lemma_bytes_val_bound(low, nlow as nat);
        assert((marker_residual(m) * pow256(nlow as nat)) <= 127 * pow256(7)) by (nonlinear_arith)
            requires
                marker_residual(m) <= 127,
                pow256(nlow as nat) <= pow256(7),
        ;
        assert(marker_residual(m) <= 127);
    }
    let v: u64 = val + res as u64 * p;
    Ok((v, total))
}

/// A sequence holding the little-endian bytes of `v` reassembles to
/// `v` modulo the weight of its length.
proof fn lemma_bytes_val_of_value(v: nat, s: Seq<u8>, n: nat)
    requires
        n <= s.len(),
        forall|i: int| 0 <= i < n ==> s[i] == byte_at(v, i as nat),
    ensures
        bytes_val(s, n) == v % pow256(n),
    decreases n,
{
    if n == 0 {
        assert(pow256(0) == 1);
        assert(v % 1 == 0) by (nonlinear_arith);
    } else {
        assert(s[0] == byte_at(v, 0));
        assert(pow256(0) == 1);
        vstd::arithmetic::div_mod::lemma_div_basics(v as int);
        assert(byte_at(v, 0) == v % 256);
        assert forall|i: int| 0 <= i < n - 1 implies #[trigger] s.skip(1)[i] == byte_at(
            v / 256,
            i as nat,
        ) by {
            assert(s.skip(1)[i] == s[i + 1]);
            assert(s[i + 1] == byte_at(v, (i + 1) as nat));
            lemma_pow256_pos(i as nat);
            vstd::arithmetic::div_mod::lemma_div_denominator(
                v as int,
                256,
                pow256(i as nat) as int,
            );
            assert(pow256((i + 1) as nat) == 256 * pow256(i as nat));
        }
        lemma_bytes_val_of_value(v / 256, s.skip(1), (n - 1) as nat);
        lemma_pow256_pos((n - 1) as nat);
        vstd::arithmetic::div_mod::lemma_breakdown(v as int, 256, pow256((n - 1) as nat) as int);
        assert(pow256(n) == 256 * pow256((n - 1) as nat));
    }
}

/// A pure marker byte (the top byte did not fit beside the length bits)
/// carries `8 - s` leading ones and no value bits.
proof fn lemma_marker_pure(s: nat)
    requires
        s <= 7,
    ensures
        leading_ones((256 - pow2_small(s)) as u8) == 8 - s,
        marker_residual((256 - pow2_small(s)) as u8) == 0,
{
    if s == 0 {
        assert(marker_residual(255u8) == 0);
    } else if s == 1 {
        assert(marker_residual(254u8) == 0);
    } else if s == 2 {
        assert(marker_residual(252u8) == 0);
    } else if s == 3 {
        assert(marker_residual(248u8) == 0);
    } else if s == 4 {
        assert(marker_residual(240u8) == 0);
    } else if s == 5 {
        assert(marker_residual(224u8) == 0);
    } else if s == 6 {
        assert(marker_residual(192u8) == 0);
    } else {
        assert(marker_residual(128u8) == 0);
    }
}

/// A marker that holds the top byte beside its length bits carries
/// `7 - s` leading ones, and the top byte as its value bits.
proof fn lemma_marker_mixed(s: nat, top: nat)
    requires
        s <= 6,
        top < pow2_small(s),
    ensures
        leading_ones((top + 256 - 2 * pow2_small(s)) as u8) == 7 - s,
        marker_residual((top + 256 - 2 * pow2_small(s)) as u8) == top,
{
    let m = (top + 256 - 2 * pow2_small(s)) as u8;
    if s == 0 {
        assert(m == 254 + top);
        assert(marker_residual(m) == (m as nat) % 1);
        assert((m as nat) % 1 == 0) by (nonlinear_arith);
    } else if s == 1 {
        assert(marker_residual(m) == (m as nat) % 2);
    } else if s == 2 {
        assert(marker_residual(m) == (m as nat) % 4);
    } else if s == 3 {
        assert(marker_residual(m) == (m as nat) % 8);
    } else if s == 4 {
        assert(marker_residual(m) == (m as nat) % 16);
    } else if s == 5 {
        assert(marker_residual(m) == (m as nat) % 32);
    } else {
        assert(marker_residual(m) == (m as nat) % 64);
    }
}

/// A marker below 0x80 is the top byte itself: no length bits at all.
proof fn lemma_marker_plain(top: nat)
    requires
        top < 128,
    ensures
        leading_ones(top as u8) == 0,
        marker_residual(top as u8) == top,
{
    assert(marker_residual(top as u8) == (top as nat) % 128);
}

/// Law: a varint field decodes back to the value it was encoded from,
/// whatever bytes follow it in the stream; the field is `varlong_len`
/// bytes long, and that length is minimal: a longer-than-`min_size`
/// field is used only when the value does not fit a shorter one.
#[verifier::rlimit(80)]
pub proof fn lemma_varlong_round_trip(v: u64, min: nat, rest: Seq<u8>)
    requires
        1 <= min <= 8,
    ensures
        encode_varlong(v as nat, min).len() == varlong_len(v as nat, min),
        min <= varlong_len(v as nat, min) <= 9,
        decode_varlong(encode_varlong(v as nat, min) + rest, min) == Ok::<
            (u64, usize),
            ReceiveError,
        >((v, varlong_len(v as nat, min) as usize)),
        varlong_len(v as nat, min) > min ==> (v as nat) >= pow2_small(
            (8 + min - varlong_len(v as nat, min)) as nat,
        ) * pow256((varlong_len(v as nat, min) - 2) as nat),
{
    reveal_with_fuel(pow256, 9);
    assert(pow256(8) == 0x10000000000000000);
    let vn = v as nat;
    lemma_sig_bytes_le(vn, 8);
    if vn > 0 {
        lemma_sig_bytes_lower(vn);
    }
    let k = varlong_width(vn, min);
    let mark = varlong_mark(vn, min);
    let top = varlong_top(vn, min);
    let s = (7 + min - k) as nat;
    let p1 = pow256((k - 1) as nat);
    lemma_pow256_increases(sig_bytes(vn), k);
    assert(vn < pow256(k));
    assert(pow256(k) == 256 * p1);
    lemma_pow256_pos((k - 1) as nat);
    vstd::arithmetic::div_mod::lemma_multiply_divide_lt(vn as int, p1 as int, 256);
    assert(top == vn / p1);
    assert(top < 256);
    vstd::arithmetic::div_mod::lemma_fundamental_div_mod(vn as int, p1 as int);
    assert(vn == p1 * top + vn % p1);

    let len = varlong_len(vn, min);
    let marker = varlong_marker(vn, min);
    let field = encode_varlong(vn, min);
    let data = field + rest;
    assert(field.len() == len);
    assert(data[0] == marker);

    // The marker's leading ones announce exactly the field length.
    if top >= mark {
        lemma_marker_pure(s);
        assert(leading_ones(marker) == 8 - s);
        assert(marker_residual(marker) == 0);
        assert(min + leading_ones(marker) == len);
    } else if k > min {
        lemma_marker_mixed(s, top);
        assert(leading_ones(marker) == 7 - s);
        assert(marker_residual(marker) == top);
        assert(min + leading_ones(marker) == len);
    } else {
        assert(mark == 128);
        lemma_marker_plain(top);
        assert(leading_ones(marker) == 0);
        assert(marker_residual(marker) == top);
        assert(min + leading_ones(marker) == len);
    }

    // The low bytes reassemble to the value below the marker's weight.
    let low = data.subrange(1, len as int);
    assert forall|i: int| 0 <= i < len - 1 implies #[trigger] low[i] == byte_at(vn, i as nat) by {
        assert(low[i] == data[i + 1]);
        assert(data[i + 1] == field[i + 1]);
        assert(field[i + 1] == byte_at(vn, i as nat));
    }
    lemma_bytes_val_of_value(vn, low, (len - 1) as nat);

    let plen = pow256((len - 1) as nat);
    if top >= mark {
        // The whole value sits in the low bytes; the marker adds nothing.
        assert(len - 1 == k);
        vstd::arithmetic::div_mod::lemma_small_mod(vn, pow256(k));
        assert(bytes_val(low, (len - 1) as nat) == vn);
        assert(bytes_val(low, (len - 1) as nat) + marker_residual(marker) * plen == vn);
        // Minimality: the value reaches the marker threshold of width k.
        vstd::arithmetic::mul::lemma_mul_inequality(mark as int, top as int, p1 as int);
        assert(mark * p1 <= top * p1);
        assert(p1 * top == top * p1);
        assert(vn >= mark * p1);
        assert((8 + min - len) as nat == s);
        assert(pow256((len - 2) as nat) == p1);
    } else {
        // The marker carries the top byte; the low bytes carry the rest.
        assert(len == k);
        assert(plen == p1);
        assert(bytes_val(low, (len - 1) as nat) == vn % p1);
        assert(marker_residual(marker) * p1 == top * p1);
        assert(vn % p1 + top * p1 == vn);
        if k > min {
            // Minimality: a non-zero top byte forces width k.
            assert(sig_bytes(vn) == k);
            assert(vn >= pow256((k - 1) as nat));
            assert((8 + min - len) as nat == (s + 1) as nat);
            assert(pow2_small((s + 1) as nat) == 2 * mark);
            assert(pow256((len - 2) as nat) * 256 == pow256((k - 1) as nat));
            vstd::arithmetic::mul::lemma_mul_inequality(
                (2 * mark) as int,
                256,
                pow256((len - 2) as nat) as int,
            );
            assert(2 * mark * pow256((len - 2) as nat) <= 256 * pow256((len - 2) as nat));
            assert(vn >= pow2_small((8 + min - len) as nat) * pow256((len - 2) as nat));
        }
    }
    assert(data.len() >= len);
    assert(bytes_val(low, (len - 1) as nat) + marker_residual(marker) * plen == vn);
}

/// `pow256` is positive and grows with its argument.
proof fn lemma_pow256_pos(n: nat)
    ensures
        pow256(n) >= 1,
    decreases n,
{
    if n > 0 {
        lemma_pow256_pos((n - 1) as nat);
    }
}

proof fn lemma_pow256_increases(a: nat, b: nat)
    requires
        a <= b,
    ensures
        pow256(a) <= pow256(b),
    decreases b,
{
    if a < b {
        lemma_pow256_increases(a, (b - 1) as nat);
        lemma_pow256_pos((b - 1) as nat);
    }
}

/// `pow256(a + b) == pow256(a) * pow256(b)`.
proof fn lemma_pow256_adds(a: nat, b: nat)
    ensures
        pow256((a + b) as nat) == pow256(a) * pow256(b),
    decreases a,
{
    if a > 0 {
        lemma_pow256_adds((a - 1) as nat, b);
        assert(pow256((a - 1 + b) as nat) == pow256((a - 1) as nat) * pow256(b));
        assert(pow256((a + b) as nat) == 256 * pow256((a - 1 + b) as nat));
        assert(pow256(a) == 256 * pow256((a - 1) as nat));
        assert(pow256((a + b) as nat) == pow256(a) * pow256(b)) by (nonlinear_arith)
            requires
                pow256((a + b) as nat) == 256 * pow256((a - 1 + b) as nat),
                pow256((a - 1 + b) as nat) == pow256((a - 1) as nat) * pow256(b),
                pow256(a) == 256 * pow256((a - 1) as nat),
        ;
    } else {
        assert(pow256(a) == 1);
        assert(pow256((a + b) as nat) == pow256(b));
    }
}

/// A value below `pow256(n)` needs at most `n` bytes.
proof fn lemma_sig_bytes_le(v: nat, n: nat)
    requires
        v < pow256(n),
    ensures
        sig_bytes(v) <= n,
    decreases n,
{
    if v > 0 {
        vstd::arithmetic::div_mod::lemma_div_denominator(v as int, 256, pow256((n - 1) as nat) as int);
        lemma_pow256_pos((n - 1) as nat);
        assert(v / 256 < pow256((n - 1) as nat)) by {
            vstd::arithmetic::div_mod::lemma_div_is_strictly_smaller(v as int, 256);
            if v / 256 >= pow256((n - 1) as nat) {
                vstd::arithmetic::div_mod::lemma_fundamental_div_mod(v as int, 256);
                assert(v >= 256 * (v / 256));
                vstd::arithmetic::mul::lemma_mul_inequality(
                    pow256((n - 1) as nat) as int,
                    (v / 256) as int,
                    256,
                );
            }
        }
        lemma_sig_bytes_le(v / 256, (n - 1) as nat);
    }
}

/// A non-zero value reaches its highest byte: `v >= pow256(sig_bytes(v) - 1)`.
proof fn lemma_sig_bytes_lower(v: nat)
    requires
        v > 0,
    ensures
        sig_bytes(v) >= 1,
        v >= pow256((sig_bytes(v) - 1) as nat),
        v < pow256(sig_bytes(v)),
    decreases v,
{
    if v / 256 == 0 {
        assert(sig_bytes(0) == 0);
        assert(sig_bytes(v) == 1);
        assert(pow256(0) == 1);
        assert(pow256(1) == 256);
        vstd::arithmetic::div_mod::lemma_fundamental_div_mod(v as int, 256);
        assert(v == 256 * (v / 256) + v % 256);
        assert(v < 256);
    } else {
        lemma_sig_bytes_lower(v / 256);
        let s = sig_bytes(v / 256);
        vstd::arithmetic::div_mod::lemma_fundamental_div_mod(v as int, 256);
        assert(v >= 256 * (v / 256));
        vstd::arithmetic::mul::lemma_mul_inequality(
            pow256((s - 1) as nat) as int,
            (v / 256) as int,
            256,
        );
        assert(v >= 256 * pow256((s - 1) as nat));
        assert(v / 256 < pow256(s));
        assert(v < 256 * pow256(s)) by {
            assert(v == 256 * (v / 256) + v % 256);
            assert(v / 256 + 1 <= pow256(s));
            vstd::arithmetic::mul::lemma_mul_inequality(
                (v / 256 + 1) as int,
                pow256(s) as int,
                256,
            );
            assert(256 * (v / 256 + 1) == 256 * (v / 256) + 256) by (nonlinear_arith);
            assert(v % 256 < 256);
        }
        assert(sig_bytes(v) == 1 + s);
        assert(pow256((1 + s) as nat) == 256 * pow256(s));
        assert(pow256(((1 + s) - 1) as nat) == pow256(s));
        assert(v >= 256 * pow256((s - 1) as nat));
        assert(pow256(s) == 256 * pow256((s - 1) as nat));
    }
}

} // verus!
