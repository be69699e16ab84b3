//! The wire format of the values exchanged between workers: a
//! length-prefixed little-endian binary encoding of the vehicle list and
//! the stateful city, with a proved round trip.
//!
//! Every `enc_*` spec function gives the exact byte sequence of a value;
//! every `dec_*` spec function parses a prefix of a byte sequence and
//! returns the value with the number of bytes consumed.  The round-trip
//! lemmas state that decoding an encoding (followed by anything) yields
//! the encoded value back.

use crate::model::common::{
    AbsoluteDirection, Around, AxisDirection, LaneDirection, RelativeDirection, TurnRule,
};
use crate::model::stateful::{Intersection, SwitchState};
use vstd::prelude::*;

verus! {

/// `v` written as `n` little-endian base-256 digits (`v` taken modulo
/// `256^n`).
pub open spec fn enc_le(v: nat, n: nat) -> Seq<u8>
    decreases n,
{
    if n == 0 {
        Seq::empty()
    } else {
        seq![(v % 256) as u8] + enc_le(v / 256, (n - 1) as nat)
    }
}

/// The value of the first `n` bytes of `s` read as little-endian base-256
/// digits.
pub open spec fn dec_le(s: Seq<u8>, n: nat) -> nat
    decreases n,
{
    if n == 0 {
        0
    } else {
        (s[0] + 256 * dec_le(s.skip(1), (n - 1) as nat)) as nat
    }
}

pub open spec fn pow256(n: nat) -> nat
    decreases n,
{
    if n == 0 {
        1
    } else {
        256 * pow256((n - 1) as nat)
    }
}

pub proof fn lemma_enc_le_len(v: nat, n: nat)
    ensures
        enc_le(v, n).len() == n,
    decreases n,
{
    if n > 0 {
        lemma_enc_le_len(v / 256, (n - 1) as nat);
    }
}

/// Reading back `n` little-endian digits of `v` gives `v` whenever `v`
/// fits in them, whatever follows the digits.
pub proof fn lemma_le_round_trip(v: nat, n: nat, rest: Seq<u8>)
    requires
        v < pow256(n),
    ensures
        dec_le(enc_le(v, n) + rest, n) == v,
    decreases n,
{
    if n > 0 {
        lemma_enc_le_len(v / 256, (n - 1) as nat);
        vstd::arithmetic::div_mod::lemma_fundamental_div_mod(v as int, 256);
        assert(v / 256 < pow256((n - 1) as nat)) by (nonlinear_arith)
            requires
                v < pow256(n),
                pow256(n) == 256 * pow256((n - 1) as nat),
                v == 256 * (v / 256) + v % 256,
                0 <= v % 256 < 256,
        ;
        lemma_le_round_trip(v / 256, (n - 1) as nat, rest);
        assert((enc_le(v, n) + rest).skip(1) =~= enc_le(v / 256, (n - 1) as nat) + rest);
    }
}

/// The value read from any `n` bytes fits in `n` digits.
pub proof fn lemma_dec_le_bound(s: Seq<u8>, n: nat)
    ensures
        dec_le(s, n) < pow256(n),
    decreases n,
{
    if n > 0 {
        lemma_dec_le_bound(s.skip(1), (n - 1) as nat);
        assert(s[0] + 256 * dec_le(s.skip(1), (n - 1) as nat) < 256 * pow256((n - 1) as nat))
            by (nonlinear_arith)
            requires
                dec_le(s.skip(1), (n - 1) as nat) < pow256((n - 1) as nat),
                0 <= s[0] < 256,
        ;
    }
}

/// A 64-bit unsigned value on the wire: 8 little-endian bytes.
pub open spec fn enc_u64(v: u64) -> Seq<u8> {
    enc_le(v as nat, 8)
}

pub open spec fn dec_u64(s: Seq<u8>) -> Option<(u64, int)> {
    if s.len() >= 8 {
        Some(((dec_le(s, 8) % 0x1_0000_0000_0000_0000) as u64, 8))
    } else {
        None
    }
}

pub proof fn lemma_pow256_8()
    ensures
        pow256(8) == 0x1_0000_0000_0000_0000,
{
    lemma_pow256_values();
}

/// The first nine powers of 256, written out.
pub proof fn lemma_pow256_values()
    ensures
        pow256(0) == 1,
        pow256(1) == 256,
        pow256(2) == 0x1_0000,
        pow256(3) == 0x100_0000,
        pow256(4) == 0x1_0000_0000,
        pow256(5) == 0x100_0000_0000,
        pow256(6) == 0x1_0000_0000_0000,
        pow256(7) == 0x100_0000_0000_0000,
        pow256(8) == 0x1_0000_0000_0000_0000,
{
    assert(pow256(0) == 1);
    assert(pow256(1) == 256);
    assert(pow256(2) == 0x1_0000);
    assert(pow256(3) == 0x100_0000);
    assert(pow256(4) == 0x1_0000_0000);
    assert(pow256(5) == 0x100_0000_0000);
    assert(pow256(6) == 0x1_0000_0000_0000);
    assert(pow256(7) == 0x100_0000_0000_0000);
    assert(pow256(8) == 0x1_0000_0000_0000_0000);
}

pub proof fn lemma_u64_round_trip(v: u64, rest: Seq<u8>)
    ensures
        dec_u64(enc_u64(v) + rest) == Some((v, 8int)),
{
    lemma_pow256_8();
    lemma_le_round_trip(v as nat, 8, rest);
    lemma_enc_le_len(v as nat, 8);
}

/// Append the 8 wire bytes of `v`.
pub fn write_u64(out: &mut Vec<u8>, v: u64)
    ensures
        final(out)@ == old(out)@ + enc_u64(v),
{
    let ghost orig = out@;
    let mut x = v;
    let mut k: usize = 0;
    while k < 8
        invariant
            k <= 8,
            out@ == orig + enc_le(v as nat, k as nat),
            x == spec_shr256(v as nat, k as nat),
        decreases 8 - k,
    {
        proof {
            lemma_enc_le_len(v as nat, k as nat);
            lemma_enc_le_unfold(v as nat, k as nat);
        }
        out.push((x % 256) as u8);
        x = x / 256;
        k = k + 1;
    }
}

/// `v` shifted right by `k` bytes.
pub open spec fn spec_shr256(v: nat, k: nat) -> nat
    decreases k,
{
    if k == 0 {
        v
    } else {
        spec_shr256(v, (k - 1) as nat) / 256
    }
}

/// One more little-endian digit: the digit after the first `k` is the low
/// digit of `v` shifted right by `k` bytes.
pub proof fn lemma_enc_le_unfold(v: nat, k: nat)
    ensures
        enc_le(v, (k + 1) as nat) == enc_le(v, k) + seq![(spec_shr256(v, k) % 256) as u8],
    decreases k,
{
    if k == 0 {
        assert(enc_le(v, 1) == seq![(v % 256) as u8] + enc_le(v / 256, 0));
        assert(enc_le(v, 1) =~= enc_le(v, 0) + seq![(spec_shr256(v, 0) % 256) as u8]);
    } else {
        lemma_enc_le_unfold(v / 256, (k - 1) as nat);
        lemma_shr256_step(v, (k - 1) as nat);
        assert(enc_le(v, (k + 1) as nat) == seq![(v % 256) as u8] + enc_le(
            v / 256,
            k,
        ));
        assert(enc_le(v, k) == seq![(v % 256) as u8] + enc_le(v / 256, (k - 1) as nat));
        assert(enc_le(v, (k + 1) as nat) =~= enc_le(v, k) + seq![
            (spec_shr256(v, k) % 256) as u8,
        ]);
    }
}

/// Shifting `v` right by `k + 1` bytes is shifting `v / 256` right by `k`.
pub proof fn lemma_shr256_step(v: nat, k: nat)
    ensures
        spec_shr256(v, (k + 1) as nat) == spec_shr256(v / 256, k),
    decreases k,
{
    if k == 0 {
        assert(spec_shr256(v, 1) == spec_shr256(v, 0) / 256);
    } else {
        lemma_shr256_step(v, (k - 1) as nat);
        assert(spec_shr256(v, (k + 1) as nat) == spec_shr256(v, k) / 256);
        assert(spec_shr256(v / 256, k) == spec_shr256(v / 256, (k - 1) as nat) / 256);
    }
}

/// Read the 8 wire bytes at `*pos`.
pub fn read_u64(buf: &Vec<u8>, pos: &mut usize) -> (r: Option<u64>)
    requires
        *old(pos) <= buf.len(),
    ensures
        *old(pos) <= *final(pos) <= buf.len(),
        match dec_u64(buf@.skip(*old(pos) as int)) {
            None => r is None && *final(pos) == *old(pos),
            Some((v, n)) => r == Some(v) && *final(pos) == *old(pos) + n && *final(pos)
                <= buf.len(),
        },
{
    if buf.len() - *pos < 8 {
        return None;
    }
    let ghost s = buf@.skip(*pos as int);
    let mut x: u64 = 0;
    let mut k: usize = 8;
    while k > 0
        invariant
            k <= 8,
            *pos + 8 <= buf.len(),
            s == buf@.skip(*pos as int),
            x == dec_le(s.skip(k as int), (8 - k) as nat),
        decreases k,
    {
        k = k - 1;
        let b = buf[*pos + k];
        proof {
            assert(s[k as int] == buf@[*pos + k]);
            lemma_dec_le_unfold_front(s.skip(k as int), (8 - k) as nat);
            assert((s.skip(k as int)).skip(1) =~= s.skip(k as int + 1));
            lemma_dec_le_bound(s.skip(k as int + 1), (7 - k) as nat);
            lemma_pow256_bound((8 - k) as nat);
            assert(pow256((8 - k) as nat) == 256 * pow256((7 - k) as nat));
            assert(x * 256 + b < pow256((8 - k) as nat)) by (nonlinear_arith)
                requires
                    x < pow256((7 - k) as nat),
                    0 <= b < 256,
                    pow256((8 - k) as nat) == 256 * pow256((7 - k) as nat),
            ;
            assert(s.skip(k as int)[0] == s[k as int]);
        }
        x = x * 256 + (b as u64);
    }
    proof {
        assert(s.skip(0) =~= s);
        lemma_dec_le_bound(s, 8);
        lemma_pow256_bound(8);
        lemma_small_mod_eq(dec_le(s, 8));
    }
    *pos = *pos + 8;
    Some(x)
}

/// Any value of at most 8 digits is below `2^64`.
pub proof fn lemma_pow256_bound(n: nat)
    requires
        n <= 8,
    ensures
        pow256(n) <= 0x1_0000_0000_0000_0000,
{
    lemma_pow256_values();
}

/// A value below `2^64` is unchanged by reduction modulo `2^64`.
pub proof fn lemma_small_mod_eq(v: nat)
    requires
        v < 0x1_0000_0000_0000_0000,
    ensures
        v % 0x1_0000_0000_0000_0000 == v,
{
    vstd::arithmetic::div_mod::lemma_small_mod(v, 0x1_0000_0000_0000_0000);
}

/// Unfolding `dec_le` from the front.
pub proof fn lemma_dec_le_unfold_front(s: Seq<u8>, n: nat)
    requires
        n >= 1,
    ensures
        dec_le(s, n) == s[0] + 256 * dec_le(s.skip(1), (n - 1) as nat),
{
}


/// Dropping an encoding's bytes from the front of a concatenation leaves
/// exactly what follows it.
pub proof fn lemma_drop_prefix(a: Seq<u8>, b: Seq<u8>)
    ensures
        (a + b).skip(a.len() as int) == b,
{
    assert((a + b).skip(a.len() as int) =~= b);
}

/// A single byte on the wire.
pub open spec fn enc_byte(v: u8) -> Seq<u8> {
    seq![v]
}

pub open spec fn dec_byte(s: Seq<u8>) -> Option<(u8, int)> {
    if s.len() >= 1 {
        Some((s[0], 1))
    } else {
        None
    }
}

pub proof fn lemma_byte_round_trip(v: u8, rest: Seq<u8>)
    ensures
        dec_byte(enc_byte(v) + rest) == Some((v, 1int)),
{
}

/// Append one wire byte.
pub fn write_byte(out: &mut Vec<u8>, v: u8)
    ensures
        final(out)@ == old(out)@ + enc_byte(v),
{
    out.push(v);
    proof {
        assert(out@ =~= old(out)@ + enc_byte(v));
    }
}

/// Read one wire byte at `*pos`.
pub fn read_byte(buf: &Vec<u8>, pos: &mut usize) -> (r: Option<u8>)
    requires
        *old(pos) <= buf.len(),
    ensures
        *old(pos) <= *final(pos) <= buf.len(),
        match dec_byte(buf@.skip(*old(pos) as int)) {
            None => r is None && *final(pos) == *old(pos),
            Some((v, n)) => r == Some(v) && *final(pos) == *old(pos) + n && *final(pos)
                <= buf.len(),
        },
{
    if *pos < buf.len() {
        let b = buf[*pos];
        *pos = *pos + 1;
        Some(b)
    } else {
        None
    }
}

/// An index on the wire: its 64-bit value.
pub open spec fn enc_usize(v: usize) -> Seq<u8> {
    enc_u64(v as u64)
}

pub open spec fn dec_usize(s: Seq<u8>) -> Option<(usize, int)> {
    match dec_u64(s) {
        None => None,
        Some((v, n)) => if v <= usize::MAX as u64 {
            Some((v as usize, n))
        } else {
            None
        },
    }
}

pub proof fn lemma_usize_round_trip(v: usize, rest: Seq<u8>)
    ensures
        dec_usize(enc_usize(v) + rest) == Some((v, 8int)),
{
    lemma_u64_round_trip(v as u64, rest);
}

pub fn write_usize(out: &mut Vec<u8>, v: usize)
    ensures
        final(out)@ == old(out)@ + enc_usize(v),
{
    write_u64(out, v as u64);
}

pub fn read_usize(buf: &Vec<u8>, pos: &mut usize) -> (r: Option<usize>)
    requires
        *old(pos) <= buf.len(),
    ensures
        *old(pos) <= *final(pos) <= buf.len(),
        match dec_usize(buf@.skip(*old(pos) as int)) {
            None => r is None,
            Some((v, n)) => r == Some(v) && *final(pos) == *old(pos) + n && *final(pos)
                <= buf.len(),
        },
{
    match read_u64(buf, pos) {
        None => None,
        Some(v) => if v <= usize::MAX as u64 {
            Some(v as usize)
        } else {
            None
        },
    }
}

/// A signed quantity on the wire: a sign byte, then the magnitude (for a
/// negative value, `-(v + 1)`, so that the full `i64` range fits).
pub open spec fn enc_i64(v: i64) -> Seq<u8> {
    if v >= 0 {
        enc_byte(0) + enc_u64(v as u64)
    } else {
        enc_byte(1) + enc_u64((-(v + 1)) as u64)
    }
}

pub open spec fn dec_i64(s: Seq<u8>) -> Option<(i64, int)> {
    match dec_byte(s) {
        None => None,
        Some((tag, n1)) => match dec_u64(s.skip(n1)) {
            None => None,
            Some((m, n2)) => if tag == 0 {
                if m <= i64::MAX as u64 {
                    Some((m as i64, n1 + n2))
                } else {
                    None
                }
            } else if tag == 1 {
                if m <= i64::MAX as u64 {
                    Some(((-(m as i64) - 1) as i64, n1 + n2))
                } else {
                    None
                }
            } else {
                None
            },
        },
    }
}

pub proof fn lemma_i64_round_trip(v: i64, rest: Seq<u8>)
    ensures
        dec_i64(enc_i64(v) + rest) == Some((v, 9int)),
{
    let s = enc_i64(v) + rest;
    if v >= 0 {
        let m = v as u64;
        assert(s =~= enc_byte(0) + (enc_u64(m) + rest));
        lemma_byte_round_trip(0, enc_u64(m) + rest);
        lemma_drop_prefix(enc_byte(0), enc_u64(m) + rest);
        lemma_u64_round_trip(m, rest);
    } else {
        let m = (-(v + 1)) as u64;
        assert(s =~= enc_byte(1) + (enc_u64(m) + rest));
        lemma_byte_round_trip(1, enc_u64(m) + rest);
        lemma_drop_prefix(enc_byte(1), enc_u64(m) + rest);
        lemma_u64_round_trip(m, rest);
    }
}

pub fn write_i64(out: &mut Vec<u8>, v: i64)
    ensures
        final(out)@ == old(out)@ + enc_i64(v),
{
    if v >= 0 {
        write_byte(out, 0);
        write_u64(out, v as u64);
    } else {
        write_byte(out, 1);
        write_u64(out, (-(v + 1)) as u64);
    }
    proof {
        assert(out@ =~= old(out)@ + enc_i64(v));
    }
}

pub fn read_i64(buf: &Vec<u8>, pos: &mut usize) -> (r: Option<i64>)
    requires
        *old(pos) <= buf.len(),
    ensures
        *old(pos) <= *final(pos) <= buf.len(),
        match dec_i64(buf@.skip(*old(pos) as int)) {
            None => r is None,
            Some((v, n)) => r == Some(v) && *final(pos) == *old(pos) + n && *final(pos)
                <= buf.len(),
        },
{
    let ghost s = buf@.skip(*old(pos) as int);
    let tag = match read_byte(buf, pos) {
        None => {
            return None;
        },
        Some(tag) => tag,
    };
    proof {
        assert(buf@.skip(*pos as int) =~= s.skip(1));
    }
    let m = match read_u64(buf, pos) {
        None => {
            return None;
        },
        Some(m) => m,
    };
    if tag == 0 {
        if m <= i64::MAX as u64 {
            Some(m as i64)
        } else {
            None
        }
    } else if tag == 1 {
        if m <= i64::MAX as u64 {
            Some(-(m as i64) - 1)
        } else {
            None
        }
    } else {
        None
    }
}


/// The wire tag of one `AxisDirection` value.
pub open spec fn spec_axis_tag(v: AxisDirection) -> u8 {
    match v {
        AxisDirection::Horizontal => 0,
        AxisDirection::Vertical => 1,
    }
}

pub open spec fn enc_axis(v: AxisDirection) -> Seq<u8> {
    enc_byte(spec_axis_tag(v))
}

pub open spec fn dec_axis(s: Seq<u8>) -> Option<(AxisDirection, int)> {
    match dec_byte(s) {
        None => None,
        Some((tag, n)) =>
        if tag == 0 {
            Some((AxisDirection::Horizontal, n))
        } else if tag == 1 {
            Some((AxisDirection::Vertical, n))
        } else {
            None
        },
    }
}

pub proof fn lemma_axis_round_trip(v: AxisDirection, rest: Seq<u8>)
    ensures
        dec_axis(enc_axis(v) + rest) == Some((v, 1int)),
{
    lemma_byte_round_trip(spec_axis_tag(v), rest);
}

pub fn write_axis(out: &mut Vec<u8>, v: AxisDirection)
    ensures
        final(out)@ == old(out)@ + enc_axis(v),
{
    let tag: u8 = match v {
        AxisDirection::Horizontal => 0,
        AxisDirection::Vertical => 1,
    };
    write_byte(out, tag);
}

pub fn read_axis(buf: &Vec<u8>, pos: &mut usize) -> (r: Option<AxisDirection>)
    requires
        *old(pos) <= buf.len(),
    ensures
        *old(pos) <= *final(pos) <= buf.len(),
        match dec_axis(buf@.skip(*old(pos) as int)) {
            None => r is None,
            Some((v, n)) => r == Some(v) && *final(pos) == *old(pos) + n && *final(pos)
                <= buf.len(),
        },
{
    let tag = match read_byte(buf, pos) {
        None => {
            return None;
        },
        Some(tag) => tag,
    };
    if tag == 0 {
        Some(AxisDirection::Horizontal)
    } else if tag == 1 {
        Some(AxisDirection::Vertical)
    } else {
        None
    }
}

/// The wire tag of one `LaneDirection` value.
pub open spec fn spec_lane_dir_tag(v: LaneDirection) -> u8 {
    match v {
        LaneDirection::LowToHigh => 0,
        LaneDirection::HighToLow => 1,
    }
}

pub open spec fn enc_lane_dir(v: LaneDirection) -> Seq<u8> {
    enc_byte(spec_lane_dir_tag(v))
}

pub open spec fn dec_lane_dir(s: Seq<u8>) -> Option<(LaneDirection, int)> {
    match dec_byte(s) {
        None => None,
        Some((tag, n)) =>
        if tag == 0 {
            Some((LaneDirection::LowToHigh, n))
        } else if tag == 1 {
            Some((LaneDirection::HighToLow, n))
        } else {
            None
        },
    }
}

pub proof fn lemma_lane_dir_round_trip(v: LaneDirection, rest: Seq<u8>)
    ensures
        dec_lane_dir(enc_lane_dir(v) + rest) == Some((v, 1int)),
{
    lemma_byte_round_trip(spec_lane_dir_tag(v), rest);
}

pub fn write_lane_dir(out: &mut Vec<u8>, v: LaneDirection)
    ensures
        final(out)@ == old(out)@ + enc_lane_dir(v),
{
    let tag: u8 = match v {
        LaneDirection::LowToHigh => 0,
        LaneDirection::HighToLow => 1,
    };
    write_byte(out, tag);
}

pub fn read_lane_dir(buf: &Vec<u8>, pos: &mut usize) -> (r: Option<LaneDirection>)
    requires
        *old(pos) <= buf.len(),
    ensures
        *old(pos) <= *final(pos) <= buf.len(),
        match dec_lane_dir(buf@.skip(*old(pos) as int)) {
            None => r is None,
            Some((v, n)) => r == Some(v) && *final(pos) == *old(pos) + n && *final(pos)
                <= buf.len(),
        },
{
    let tag = match read_byte(buf, pos) {
        None => {
            return None;
        },
        Some(tag) => tag,
    };
    if tag == 0 {
        Some(LaneDirection::LowToHigh)
    } else if tag == 1 {
        Some(LaneDirection::HighToLow)
    } else {
        None
    }
}

/// The wire tag of one `AbsoluteDirection` value.
pub open spec fn spec_abs_dir_tag(v: AbsoluteDirection) -> u8 {
    match v {
        AbsoluteDirection::North => 0,
        AbsoluteDirection::West => 1,
        AbsoluteDirection::South => 2,
        AbsoluteDirection::East => 3,
    }
}

pub open spec fn enc_abs_dir(v: AbsoluteDirection) -> Seq<u8> {
    enc_byte(spec_abs_dir_tag(v))
}

pub open spec fn dec_abs_dir(s: Seq<u8>) -> Option<(AbsoluteDirection, int)> {
    match dec_byte(s) {
        None => None,
        Some((tag, n)) =>
        if tag == 0 {
            Some((AbsoluteDirection::North, n))
        } else if tag == 1 {
            Some((AbsoluteDirection::West, n))
        } else if tag == 2 {
            Some((AbsoluteDirection::South, n))
        } else if tag == 3 {
            Some((AbsoluteDirection::East, n))
        } else {
            None
        },
    }
}

pub proof fn lemma_abs_dir_round_trip(v: AbsoluteDirection, rest: Seq<u8>)
    ensures
        dec_abs_dir(enc_abs_dir(v) + rest) == Some((v, 1int)),
{
    lemma_byte_round_trip(spec_abs_dir_tag(v), rest);
}

pub fn write_abs_dir(out: &mut Vec<u8>, v: AbsoluteDirection)
    ensures
        final(out)@ == old(out)@ + enc_abs_dir(v),
{
    let tag: u8 = match v {
        AbsoluteDirection::North => 0,
        AbsoluteDirection::West => 1,
        AbsoluteDirection::South => 2,
        AbsoluteDirection::East => 3,
    };
    write_byte(out, tag);
}

pub fn read_abs_dir(buf: &Vec<u8>, pos: &mut usize) -> (r: Option<AbsoluteDirection>)
    requires
        *old(pos) <= buf.len(),
    ensures
        *old(pos) <= *final(pos) <= buf.len(),
        match dec_abs_dir(buf@.skip(*old(pos) as int)) {
            None => r is None,
            Some((v, n)) => r == Some(v) && *final(pos) == *old(pos) + n && *final(pos)
                <= buf.len(),
        },
{
    let tag = match read_byte(buf, pos) {
        None => {
            return None;
        },
        Some(tag) => tag,
    };
    if tag == 0 {
        Some(AbsoluteDirection::North)
    } else if tag == 1 {
        Some(AbsoluteDirection::West)
    } else if tag == 2 {
        Some(AbsoluteDirection::South)
    } else if tag == 3 {
        Some(AbsoluteDirection::East)
    } else {
        None
    }
}

/// The wire tag of one `RelativeDirection` value.
pub open spec fn spec_rel_dir_tag(v: RelativeDirection) -> u8 {
    match v {
        RelativeDirection::Front => 0,
        RelativeDirection::Right => 1,
        RelativeDirection::Back => 2,
        RelativeDirection::Left => 3,
    }
}

pub open spec fn enc_rel_dir(v: RelativeDirection) -> Seq<u8> {
    enc_byte(spec_rel_dir_tag(v))
}

pub open spec fn dec_rel_dir(s: Seq<u8>) -> Option<(RelativeDirection, int)> {
    match dec_byte(s) {
        None => None,
        Some((tag, n)) =>
        if tag == 0 {
            Some((RelativeDirection::Front, n))
        } else if tag == 1 {
            Some((RelativeDirection::Right, n))
        } else if tag == 2 {
            Some((RelativeDirection::Back, n))
        } else if tag == 3 {
            Some((RelativeDirection::Left, n))
        } else {
            None
        },
    }
}

pub proof fn lemma_rel_dir_round_trip(v: RelativeDirection, rest: Seq<u8>)
    ensures
        dec_rel_dir(enc_rel_dir(v) + rest) == Some((v, 1int)),
{
    lemma_byte_round_trip(spec_rel_dir_tag(v), rest);
}

pub fn write_rel_dir(out: &mut Vec<u8>, v: RelativeDirection)
    ensures
        final(out)@ == old(out)@ + enc_rel_dir(v),
{
    let tag: u8 = match v {
        RelativeDirection::Front => 0,
        RelativeDirection::Right => 1,
        RelativeDirection::Back => 2,
        RelativeDirection::Left => 3,
    };
    write_byte(out, tag);
}

pub fn read_rel_dir(buf: &Vec<u8>, pos: &mut usize) -> (r: Option<RelativeDirection>)
    requires
        *old(pos) <= buf.len(),
    ensures
        *old(pos) <= *final(pos) <= buf.len(),
        match dec_rel_dir(buf@.skip(*old(pos) as int)) {
            None => r is None,
            Some((v, n)) => r == Some(v) && *final(pos) == *old(pos) + n && *final(pos)
                <= buf.len(),
        },
{
    let tag = match read_byte(buf, pos) {
        None => {
            return None;
        },
        Some(tag) => tag,
    };
    if tag == 0 {
        Some(RelativeDirection::Front)
    } else if tag == 1 {
        Some(RelativeDirection::Right)
    } else if tag == 2 {
        Some(RelativeDirection::Back)
    } else if tag == 3 {
        Some(RelativeDirection::Left)
    } else {
        None
    }
}

/// A turn rule on the wire: its bits.
pub open spec fn enc_turn_rule(v: TurnRule) -> Seq<u8> {
    enc_byte(v.bits)
}

pub open spec fn dec_turn_rule(s: Seq<u8>) -> Option<(TurnRule, int)> {
    match dec_byte(s) {
        None => None,
        Some((bits, n)) => Some((TurnRule { bits }, n)),
    }
}

pub proof fn lemma_turn_rule_round_trip(v: TurnRule, rest: Seq<u8>)
    ensures
        dec_turn_rule(enc_turn_rule(v) + rest) == Some((v, 1int)),
{
    lemma_byte_round_trip(v.bits, rest);
}

pub fn write_turn_rule(out: &mut Vec<u8>, v: TurnRule)
    ensures
        final(out)@ == old(out)@ + enc_turn_rule(v),
{
    write_byte(out, v.bits);
}

pub fn read_turn_rule(buf: &Vec<u8>, pos: &mut usize) -> (r: Option<TurnRule>)
    requires
        *old(pos) <= buf.len(),
    ensures
        *old(pos) <= *final(pos) <= buf.len(),
        match dec_turn_rule(buf@.skip(*old(pos) as int)) {
            None => r is None,
            Some((v, n)) => r == Some(v) && *final(pos) == *old(pos) + n && *final(pos)
                <= buf.len(),
        },
{
    match read_byte(buf, pos) {
        None => None,
        Some(bits) => Some(TurnRule { bits }),
    }
}

/// The four per-side turn rules on the wire: north, west, south, east.
pub open spec fn enc_around(v: Around<TurnRule>) -> Seq<u8> {
    enc_turn_rule(v.north) + enc_turn_rule(v.west) + enc_turn_rule(v.south) + enc_turn_rule(
        v.east,
    )
}

pub open spec fn dec_around(s: Seq<u8>) -> Option<(Around<TurnRule>, int)> {
    if s.len() >= 4 {
        Some(
            (
                Around {
                    north: TurnRule { bits: s[0] },
                    west: TurnRule { bits: s[1] },
                    south: TurnRule { bits: s[2] },
                    east: TurnRule { bits: s[3] },
                },
                4,
            ),
        )
    } else {
        None
    }
}

pub proof fn lemma_around_round_trip(v: Around<TurnRule>, rest: Seq<u8>)
    ensures
        dec_around(enc_around(v) + rest) == Some((v, 4int)),
{
    let s = enc_around(v) + rest;
    assert(s[0] == v.north.bits && s[1] == v.west.bits && s[2] == v.south.bits && s[3]
        == v.east.bits);
}

pub fn write_around(out: &mut Vec<u8>, v: Around<TurnRule>)
    ensures
        final(out)@ == old(out)@ + enc_around(v),
{
    write_turn_rule(out, v.north);
    write_turn_rule(out, v.west);
    write_turn_rule(out, v.south);
    write_turn_rule(out, v.east);
    proof {
        assert(out@ =~= old(out)@ + enc_around(v));
    }
}

pub fn read_around(buf: &Vec<u8>, pos: &mut usize) -> (r: Option<Around<TurnRule>>)
    requires
        *old(pos) <= buf.len(),
    ensures
        *old(pos) <= *final(pos) <= buf.len(),
        match dec_around(buf@.skip(*old(pos) as int)) {
            None => r is None,
            Some((v, n)) => r == Some(v) && *final(pos) == *old(pos) + n && *final(pos)
                <= buf.len(),
        },
{
    if buf.len() - *pos < 4 {
        return None;
    }
    let r = Around {
        north: TurnRule { bits: buf[*pos] },
        west: TurnRule { bits: buf[*pos + 1] },
        south: TurnRule { bits: buf[*pos + 2] },
        east: TurnRule { bits: buf[*pos + 3] },
    };
    *pos = *pos + 4;
    Some(r)
}

/// A signal switch state on the wire: the remaining time, then the two
/// phase indices.
pub open spec fn enc_switch_state(v: SwitchState) -> Seq<u8> {
    match v {
        SwitchState::LoopTimeout { remain_time, time_index, rule_index } => enc_i64(remain_time)
            + enc_usize(time_index) + enc_usize(rule_index),
    }
}

pub open spec fn dec_switch_state(s: Seq<u8>) -> Option<(SwitchState, int)> {
    match dec_i64(s) {
        None => None,
        Some((remain_time, n1)) => match dec_usize(s.skip(n1)) {
            None => None,
            Some((time_index, n2)) => match dec_usize(s.skip(n1 + n2)) {
                None => None,
                Some((rule_index, n3)) => Some(
                    (SwitchState::LoopTimeout { remain_time, time_index, rule_index }, n1 + n2
                        + n3),
                ),
            },
        },
    }
}

pub proof fn lemma_switch_state_round_trip(v: SwitchState, rest: Seq<u8>)
    ensures
        dec_switch_state(enc_switch_state(v) + rest) == Some(
            (v, enc_switch_state(v).len() as int),
        ),
{
    let SwitchState::LoopTimeout { remain_time, time_index, rule_index } = v;
    let e1 = enc_i64(remain_time);
    let e2 = enc_usize(time_index);
    let e3 = enc_usize(rule_index);
    let s = enc_switch_state(v) + rest;
    assert(s =~= e1 + (e2 + (e3 + rest)));
    lemma_i64_round_trip(remain_time, e2 + (e3 + rest));
    lemma_drop_prefix(e1, e2 + (e3 + rest));
    assert(e1.len() == 9) by {
        lemma_enc_le_len(if remain_time >= 0 { remain_time as nat } else { (-(remain_time + 1)) as nat }, 8);
    }
    assert(e2.len() == 8 && e3.len() == 8) by {
        lemma_enc_le_len(time_index as nat, 8);
        lemma_enc_le_len(rule_index as nat, 8);
    }
    lemma_usize_round_trip(time_index, e3 + rest);
    lemma_drop_prefix(e2, e3 + rest);
    assert((e2 + (e3 + rest)).skip(8) == e3 + rest);
    assert(s.skip(17int) =~= e3 + rest);
    lemma_usize_round_trip(rule_index, rest);
    assert(enc_switch_state(v).len() == 25);
}

pub fn write_switch_state(out: &mut Vec<u8>, v: SwitchState)
    ensures
        final(out)@ == old(out)@ + enc_switch_state(v),
{
    match v {
        SwitchState::LoopTimeout { remain_time, time_index, rule_index } => {
            write_i64(out, remain_time);
            write_usize(out, time_index);
            write_usize(out, rule_index);
        },
    }
    proof {
        assert(out@ =~= old(out)@ + enc_switch_state(v));
    }
}

pub fn read_switch_state(buf: &Vec<u8>, pos: &mut usize) -> (r: Option<SwitchState>)
    requires
        *old(pos) <= buf.len(),
    ensures
        *old(pos) <= *final(pos) <= buf.len(),
        match dec_switch_state(buf@.skip(*old(pos) as int)) {
            None => r is None,
            Some((v, n)) => r == Some(v) && *final(pos) == *old(pos) + n && *final(pos)
                <= buf.len(),
        },
{
    let ghost s = buf@.skip(*old(pos) as int);
    let ghost p0 = *pos;
    let remain_time = match read_i64(buf, pos) {
        None => {
            return None;
        },
        Some(v) => v,
    };
    proof {
        assert(buf@.skip(*pos as int) =~= s.skip(*pos - p0));
    }
    let time_index = match read_usize(buf, pos) {
        None => {
            return None;
        },
        Some(v) => v,
    };
    proof {
        assert(buf@.skip(*pos as int) =~= s.skip(*pos - p0));
    }
    let rule_index = match read_usize(buf, pos) {
        None => {
            return None;
        },
        Some(v) => v,
    };
    Some(SwitchState::LoopTimeout { remain_time, time_index, rule_index })
}

/// A stateful intersection on the wire: a kind tag, and for the signal
/// kinds the current rules and the switch state.
pub open spec fn enc_intersection(v: Intersection) -> Seq<u8> {
    match v {
        Intersection::Crossroad { current, switch_state } => enc_byte(0) + enc_around(current)
            + enc_switch_state(switch_state),
        Intersection::TJunction { current, switch_state } => enc_byte(1) + enc_around(current)
            + enc_switch_state(switch_state),
        Intersection::Turn => enc_byte(2),
        Intersection::Straight => enc_byte(3),
        Intersection::End => enc_byte(4),
    }
}

pub open spec fn dec_intersection(s: Seq<u8>) -> Option<(Intersection, int)> {
    match dec_byte(s) {
        None => None,
        Some((tag, n1)) => if tag == 0 || tag == 1 {
            match dec_around(s.skip(n1)) {
                None => None,
                Some((current, n2)) => match dec_switch_state(s.skip(n1 + n2)) {
                    None => None,
                    Some((switch_state, n3)) => Some(
                        (
                            if tag == 0 {
                                Intersection::Crossroad { current, switch_state }
                            } else {
                                Intersection::TJunction { current, switch_state }
                            },
                            n1 + n2 + n3,
                        ),
                    ),
                },
            }
        } else if tag == 2 {
            Some((Intersection::Turn, n1))
        } else if tag == 3 {
            Some((Intersection::Straight, n1))
        } else if tag == 4 {
            Some((Intersection::End, n1))
        } else {
            None
        },
    }
}

pub proof fn lemma_intersection_round_trip(v: Intersection, rest: Seq<u8>)
    ensures
        dec_intersection(enc_intersection(v) + rest) == Some(
            (v, enc_intersection(v).len() as int),
        ),
{
    let s = enc_intersection(v) + rest;
    match v {
        Intersection::Crossroad { current, switch_state } => {
            let e2 = enc_around(current);
            let e3 = enc_switch_state(switch_state);
            assert(s =~= enc_byte(0) + (e2 + (e3 + rest)));
            lemma_byte_round_trip(0, e2 + (e3 + rest));
            lemma_drop_prefix(enc_byte(0), e2 + (e3 + rest));
            assert(s.skip(1) == e2 + (e3 + rest));
            lemma_around_round_trip(current, e3 + rest);
            assert(e2 + (e3 + rest) =~= enc_around(current) + (e3 + rest));
            lemma_drop_prefix(e2, e3 + rest);
            assert(s.skip(5) =~= (s.skip(1)).skip(4));
            lemma_switch_state_round_trip(switch_state, rest);
        },
        Intersection::TJunction { current, switch_state } => {
            let e2 = enc_around(current);
            let e3 = enc_switch_state(switch_state);
            assert(s =~= enc_byte(1) + (e2 + (e3 + rest)));
            lemma_byte_round_trip(1, e2 + (e3 + rest));
            lemma_drop_prefix(enc_byte(1), e2 + (e3 + rest));
            assert(s.skip(1) == e2 + (e3 + rest));
            lemma_around_round_trip(current, e3 + rest);
            lemma_drop_prefix(e2, e3 + rest);
            assert(s.skip(5) =~= (s.skip(1)).skip(4));
            lemma_switch_state_round_trip(switch_state, rest);
        },
        Intersection::Turn => {
            lemma_byte_round_trip(2, rest);
        },
        Intersection::Straight => {
            lemma_byte_round_trip(3, rest);
        },
        Intersection::End => {
            lemma_byte_round_trip(4, rest);
        },
    }
}

pub fn write_intersection(out: &mut Vec<u8>, v: &Intersection)
    ensures
        final(out)@ == old(out)@ + enc_intersection(*v),
{
    match v {
        Intersection::Crossroad { current, switch_state } => {
            write_byte(out, 0);
            write_around(out, *current);
            write_switch_state(out, *switch_state);
        },
        Intersection::TJunction { current, switch_state } => {
            write_byte(out, 1);
            write_around(out, *current);
            write_switch_state(out, *switch_state);
        },
        Intersection::Turn => {
            write_byte(out, 2);
        },
        Intersection::Straight => {
            write_byte(out, 3);
        },
        Intersection::End => {
            write_byte(out, 4);
        },
    }
    proof {
        assert(out@ =~= old(out)@ + enc_intersection(*v));
    }
}

pub fn read_intersection(buf: &Vec<u8>, pos: &mut usize) -> (r: Option<Intersection>)
    requires
        *old(pos) <= buf.len(),
    ensures
        *old(pos) <= *final(pos) <= buf.len(),
        match dec_intersection(buf@.skip(*old(pos) as int)) {
            None => r is None,
            Some((v, n)) => r == Some(v) && *final(pos) == *old(pos) + n && *final(pos)
                <= buf.len(),
        },
{
    let ghost s = buf@.skip(*old(pos) as int);
    let ghost p0 = *pos;
    let tag = match read_byte(buf, pos) {
        None => {
            return None;
        },
        Some(tag) => tag,
    };
    if tag == 0 || tag == 1 {
        proof {
            assert(buf@.skip(*pos as int) =~= s.skip(*pos - p0));
        }
        let current = match read_around(buf, pos) {
            None => {
                return None;
            },
            Some(v) => v,
        };
        proof {
            assert(buf@.skip(*pos as int) =~= s.skip(*pos - p0));
        }
        let switch_state = match read_switch_state(buf, pos) {
            None => {
                return None;
            },
            Some(v) => v,
        };
        if tag == 0 {
            Some(Intersection::Crossroad { current, switch_state })
        } else {
            Some(Intersection::TJunction { current, switch_state })
        }
    } else if tag == 2 {
        Some(Intersection::Turn)
    } else if tag == 3 {
        Some(Intersection::Straight)
    } else if tag == 4 {
        Some(Intersection::End)
    } else {
        None
    }
}


/// A matrix index on the wire: row then column.
pub open spec fn enc_index(v: (usize, usize)) -> Seq<u8> {
    enc_usize(v.0) + enc_usize(v.1)
}

pub open spec fn dec_index(s: Seq<u8>) -> Option<((usize, usize), int)> {
    match dec_usize(s) {
        None => None,
        Some((a, n1)) => match dec_usize(s.skip(n1)) {
            None => None,
            Some((b, n2)) => Some(((a, b), n1 + n2)),
        },
    }
}

pub proof fn lemma_index_round_trip(v: (usize, usize), rest: Seq<u8>)
    ensures
        dec_index(enc_index(v) + rest) == Some((v, 16int)),
        enc_index(v).len() == 16,
{
    let e1 = enc_usize(v.0);
    let e2 = enc_usize(v.1);
    assert(e1.len() == 8 && e2.len() == 8) by {
        lemma_enc_le_len(v.0 as nat, 8);
        lemma_enc_le_len(v.1 as nat, 8);
    }
    assert(enc_index(v) + rest =~= e1 + (e2 + rest));
    lemma_usize_round_trip(v.0, e2 + rest);
    lemma_drop_prefix(e1, e2 + rest);
    assert((enc_index(v) + rest).skip(8) == e2 + rest);
    lemma_usize_round_trip(v.1, rest);
}

pub fn write_index(out: &mut Vec<u8>, v: (usize, usize))
    ensures
        final(out)@ == old(out)@ + enc_index(v),
{
    write_usize(out, v.0);
    write_usize(out, v.1);
    proof {
        assert(out@ =~= old(out)@ + enc_index(v));
    }
}

pub fn read_index(buf: &Vec<u8>, pos: &mut usize) -> (r: Option<(usize, usize)>)
    requires
        *old(pos) <= buf.len(),
    ensures
        *old(pos) <= *final(pos) <= buf.len(),
        match dec_index(buf@.skip(*old(pos) as int)) {
            None => r is None,
            Some((v, n)) => r == Some(v) && *final(pos) == *old(pos) + n && *final(pos)
                <= buf.len(),
        },
{
    let ghost s = buf@.skip(*old(pos) as int);
    let ghost p0 = *pos;
    let a = match read_usize(buf, pos) {
        None => {
            return None;
        },
        Some(v) => v,
    };
    proof {
        assert(buf@.skip(*pos as int) =~= s.skip(*pos - p0));
    }
    let b = match read_usize(buf, pos) {
        None => {
            return None;
        },
        Some(v) => v,
    };
    Some((a, b))
}


/// The field bytes of a location, without the variant tag.
#[verifier::opaque]
pub open spec fn enc_loc_fields(v: crate::model::stateful::Location) -> Seq<u8> {
    match v {
        crate::model::stateful::Location::OnLane {
            road_direction,
            road_index,
            lane_direction,
            lane_index,
            about_to_turn,
            position,
        } => enc_axis(road_direction) + enc_index(road_index) + enc_lane_dir(lane_direction)
            + enc_usize(lane_index) + enc_rel_dir(about_to_turn) + enc_i64(position),
        crate::model::stateful::Location::ChangingLane {
            road_direction,
            road_index,
            lane_direction,
            from_lane_index,
            to_lane_index,
            position,
            lane_changed_proportion,
        } => enc_axis(road_direction) + enc_index(road_index) + enc_lane_dir(lane_direction)
            + enc_usize(from_lane_index) + enc_usize(to_lane_index) + enc_i64(position) + enc_i64(
            lane_changed_proportion,
        ),
        crate::model::stateful::Location::InIntersection {
            intersection_index,
            from_direction,
            from_lane_index,
            to_direction,
            to_lane_index,
            total_length,
            position,
        } => enc_index(intersection_index) + enc_abs_dir(from_direction) + enc_usize(
            from_lane_index,
        ) + enc_abs_dir(to_direction) + enc_usize(to_lane_index) + enc_i64(total_length) + enc_i64(
            position,
        ),
    }
}

/// A vehicle location on the wire: a variant tag, then the fields.
pub open spec fn spec_loc_tag(v: crate::model::stateful::Location) -> u8 {
    match v {
        crate::model::stateful::Location::OnLane { .. } => 0,
        crate::model::stateful::Location::ChangingLane { .. } => 1,
        crate::model::stateful::Location::InIntersection { .. } => 2,
    }
}

#[verifier::opaque]
pub open spec fn enc_location(v: crate::model::stateful::Location) -> Seq<u8> {
    enc_byte(spec_loc_tag(v)) + enc_loc_fields(v)
}

#[verifier::opaque]
pub open spec fn dec_location(s: Seq<u8>) -> Option<(crate::model::stateful::Location, int)> {
    match dec_byte(s) {
        None => None,
        Some((tag, n0)) => {
            let inner = if tag == 0 {
                dec_loc_on_lane(s.skip(n0))
            } else if tag == 1 {
                dec_loc_changing(s.skip(n0))
            } else if tag == 2 {
                dec_loc_inside(s.skip(n0))
            } else {
                None
            };
            match inner {
                None => None,
                Some((loc, n)) => Some((loc, n0 + n)),
            }
        },
    }
}

/// The fields of one location variant, read after the variant tag.
#[verifier::opaque]
pub open spec fn dec_loc_on_lane(s: Seq<u8>) -> Option<(crate::model::stateful::Location, int)> {
    match dec_axis(s.skip(0)) {
        None => None,
        Some((road_direction, n0)) =>         match dec_index(s.skip(n0)) {
            None => None,
            Some((road_index, n1)) =>             match dec_lane_dir(s.skip(n0 + n1)) {
                None => None,
                Some((lane_direction, n2)) =>                 match dec_usize(s.skip(n0 + n1 + n2)) {
                    None => None,
                    Some((lane_index, n3)) =>                     match dec_rel_dir(s.skip(n0 + n1 + n2 + n3)) {
                        None => None,
                        Some((about_to_turn, n4)) =>                         match dec_i64(s.skip(n0 + n1 + n2 + n3 + n4)) {
                            None => None,
                            Some((position, n5)) => Some(
                            (
                                crate::model::stateful::Location::OnLane {
                                    road_direction,
                                    road_index,
                                    lane_direction,
                                    lane_index,
                                    about_to_turn,
                                    position,
                                },
                                n0 + n1 + n2 + n3 + n4 + n5,
                            ),
                        ),
                        },
                    },
                },
            },
        },
    }
}

/// The fields of one location variant, read after the variant tag.
#[verifier::opaque]
pub open spec fn dec_loc_changing(s: Seq<u8>) -> Option<(crate::model::stateful::Location, int)> {
    match dec_axis(s.skip(0)) {
        None => None,
        Some((road_direction, n0)) =>         match dec_index(s.skip(n0)) {
            None => None,
            Some((road_index, n1)) =>             match dec_lane_dir(s.skip(n0 + n1)) {
                None => None,
                Some((lane_direction, n2)) =>                 match dec_usize(s.skip(n0 + n1 + n2)) {
                    None => None,
                    Some((from_lane_index, n3)) =>                     match dec_usize(s.skip(n0 + n1 + n2 + n3)) {
                        None => None,
                        Some((to_lane_index, n4)) =>                         match dec_i64(s.skip(n0 + n1 + n2 + n3 + n4)) {
                            None => None,
                            Some((position, n5)) =>                             match dec_i64(s.skip(n0 + n1 + n2 + n3 + n4 + n5)) {
                                None => None,
                                Some((lane_changed_proportion, n6)) => Some(
                                (
                                    crate::model::stateful::Location::ChangingLane {
                                        road_direction,
                                        road_index,
                                        lane_direction,
                                        from_lane_index,
                                        to_lane_index,
                                        position,
                                        lane_changed_proportion,
                                    },
                                    n0 + n1 + n2 + n3 + n4 + n5 + n6,
                                ),
                            ),
                            },
                        },
                    },
                },
            },
        },
    }
}

/// The fields of one location variant, read after the variant tag.
#[verifier::opaque]
pub open spec fn dec_loc_inside(s: Seq<u8>) -> Option<(crate::model::stateful::Location, int)> {
    match dec_index(s.skip(0)) {
        None => None,
        Some((intersection_index, n0)) =>         match dec_abs_dir(s.skip(n0)) {
            None => None,
            Some((from_direction, n1)) =>             match dec_usize(s.skip(n0 + n1)) {
                None => None,
                Some((from_lane_index, n2)) =>                 match dec_abs_dir(s.skip(n0 + n1 + n2)) {
                    None => None,
                    Some((to_direction, n3)) =>                     match dec_usize(s.skip(n0 + n1 + n2 + n3)) {
                        None => None,
                        Some((to_lane_index, n4)) =>                         match dec_i64(s.skip(n0 + n1 + n2 + n3 + n4)) {
                            None => None,
                            Some((total_length, n5)) =>                             match dec_i64(s.skip(n0 + n1 + n2 + n3 + n4 + n5)) {
                                None => None,
                                Some((position, n6)) => Some(
                                (
                                    crate::model::stateful::Location::InIntersection {
                                        intersection_index,
                                        from_direction,
                                        from_lane_index,
                                        to_direction,
                                        to_lane_index,
                                        total_length,
                                        position,
                                    },
                                    n0 + n1 + n2 + n3 + n4 + n5 + n6,
                                ),
                            ),
                            },
                        },
                    },
                },
            },
        },
    }
}

#[verifier::rlimit(100)]
#[verifier::spinoff_prover]
proof fn lemma_loc_on_lane_round_trip(v: crate::model::stateful::Location, rest: Seq<u8>)
    requires
        (v is OnLane),
    ensures
        dec_loc_on_lane(enc_loc_fields(v) + rest) == Some((v, 36int)),
        enc_loc_fields(v).len() == 36,
{
    reveal(enc_loc_fields);
    reveal(dec_loc_on_lane);
    match v {
        crate::model::stateful::Location::OnLane {
            road_direction,
            road_index,
            lane_direction,
            lane_index,
            about_to_turn,
            position,
        } => {
            let e1 = enc_axis(road_direction);
            let e2 = enc_index(road_index);
            let e3 = enc_lane_dir(lane_direction);
            let e4 = enc_usize(lane_index);
            let e5 = enc_rel_dir(about_to_turn);
            let e6 = enc_i64(position);
            let r6 = e6 + rest;
            let r5 = e5 + r6;
            let r4 = e4 + r5;
            let r3 = e3 + r4;
            let r2 = e2 + r3;
            let r1 = e1 + r2;
            assert(e2.len() == 16) by {
                lemma_index_round_trip(road_index, rest);
            }
            assert(e4.len() == 8) by {
                lemma_enc_le_len(lane_index as nat, 8);
            }
            assert(e6.len() == 9) by {
                lemma_enc_le_len(
                    if position >= 0 {
                        position as nat
                    } else {
                        (-(position + 1)) as nat
                    },
                    8,
                );
            }
            let f = enc_loc_fields(v) + rest;
            assert(f =~= r1);
            assert(f.skip(0int) =~= r1);
            lemma_axis_round_trip(road_direction, r2);
            lemma_drop_prefix(e1, r2);
            assert(f.skip(1int) =~= r2);
            lemma_index_round_trip(road_index, r3);
            lemma_drop_prefix(e2, r3);
            assert(f.skip(17int) =~= r3);
            lemma_lane_dir_round_trip(lane_direction, r4);
            lemma_drop_prefix(e3, r4);
            assert(f.skip(18int) =~= r4);
            lemma_usize_round_trip(lane_index, r5);
            lemma_drop_prefix(e4, r5);
            assert(f.skip(26int) =~= r5);
            lemma_rel_dir_round_trip(about_to_turn, r6);
            lemma_drop_prefix(e5, r6);
            assert(f.skip(27int) =~= r6);
            lemma_i64_round_trip(position, rest);
            lemma_drop_prefix(e6, rest);
        },
        _ => {
            assert(false);
        },
    }
}

#[verifier::rlimit(100)]
#[verifier::spinoff_prover]
proof fn lemma_loc_changing_round_trip(v: crate::model::stateful::Location, rest: Seq<u8>)
    requires
        (v is ChangingLane),
    ensures
        dec_loc_changing(enc_loc_fields(v) + rest) == Some((v, 52int)),
        enc_loc_fields(v).len() == 52,
{
    reveal(enc_loc_fields);
    reveal(dec_loc_changing);
    match v {
        crate::model::stateful::Location::ChangingLane {
            road_direction,
            road_index,
            lane_direction,
            from_lane_index,
            to_lane_index,
            position,
            lane_changed_proportion,
        } => {
            let e1 = enc_axis(road_direction);
            let e2 = enc_index(road_index);
            let e3 = enc_lane_dir(lane_direction);
            let e4 = enc_usize(from_lane_index);
            let e5 = enc_usize(to_lane_index);
            let e6 = enc_i64(position);
            let e7 = enc_i64(lane_changed_proportion);
            let r7 = e7 + rest;
            let r6 = e6 + r7;
            let r5 = e5 + r6;
            let r4 = e4 + r5;
            let r3 = e3 + r4;
            let r2 = e2 + r3;
            let r1 = e1 + r2;
            assert(e2.len() == 16) by {
                lemma_index_round_trip(road_index, rest);
            }
            assert(e4.len() == 8) by {
                lemma_enc_le_len(from_lane_index as nat, 8);
            }
            assert(e5.len() == 8) by {
                lemma_enc_le_len(to_lane_index as nat, 8);
            }
            assert(e6.len() == 9) by {
                lemma_enc_le_len(
                    if position >= 0 {
                        position as nat
                    } else {
                        (-(position + 1)) as nat
                    },
                    8,
                );
            }
            assert(e7.len() == 9) by {
                lemma_enc_le_len(
                    if lane_changed_proportion >= 0 {
                        lane_changed_proportion as nat
                    } else {
                        (-(lane_changed_proportion + 1)) as nat
                    },
                    8,
                );
            }
            let f = enc_loc_fields(v) + rest;
            assert(f =~= r1);
            assert(f.skip(0int) =~= r1);
            lemma_axis_round_trip(road_direction, r2);
            lemma_drop_prefix(e1, r2);
            assert(f.skip(1int) =~= r2);
            lemma_index_round_trip(road_index, r3);
            lemma_drop_prefix(e2, r3);
            assert(f.skip(17int) =~= r3);
            lemma_lane_dir_round_trip(lane_direction, r4);
            lemma_drop_prefix(e3, r4);
            assert(f.skip(18int) =~= r4);
            lemma_usize_round_trip(from_lane_index, r5);
            lemma_drop_prefix(e4, r5);
            assert(f.skip(26int) =~= r5);
            lemma_usize_round_trip(to_lane_index, r6);
            lemma_drop_prefix(e5, r6);
            assert(f.skip(34int) =~= r6);
            lemma_i64_round_trip(position, r7);
            lemma_drop_prefix(e6, r7);
            assert(f.skip(43int) =~= r7);
            lemma_i64_round_trip(lane_changed_proportion, rest);
            lemma_drop_prefix(e7, rest);
        },
        _ => {
            assert(false);
        },
    }
}

#[verifier::rlimit(100)]
#[verifier::spinoff_prover]
proof fn lemma_loc_inside_round_trip(v: crate::model::stateful::Location, rest: Seq<u8>)
    requires
        (v is InIntersection),
    ensures
        dec_loc_inside(enc_loc_fields(v) + rest) == Some((v, 52int)),
        enc_loc_fields(v).len() == 52,
{
    reveal(enc_loc_fields);
    reveal(dec_loc_inside);
    match v {
        crate::model::stateful::Location::InIntersection {
            intersection_index,
            from_direction,
            from_lane_index,
            to_direction,
            to_lane_index,
            total_length,
            position,
        } => {
            let e1 = enc_index(intersection_index);
            let e2 = enc_abs_dir(from_direction);
            let e3 = enc_usize(from_lane_index);
            let e4 = enc_abs_dir(to_direction);
            let e5 = enc_usize(to_lane_index);
            let e6 = enc_i64(total_length);
            let e7 = enc_i64(position);
            let r7 = e7 + rest;
            let r6 = e6 + r7;
            let r5 = e5 + r6;
            let r4 = e4 + r5;
            let r3 = e3 + r4;
            let r2 = e2 + r3;
            let r1 = e1 + r2;
            assert(e1.len() == 16) by {
                lemma_index_round_trip(intersection_index, rest);
            }
            assert(e3.len() == 8) by {
                lemma_enc_le_len(from_lane_index as nat, 8);
            }
            assert(e5.len() == 8) by {
                lemma_enc_le_len(to_lane_index as nat, 8);
            }
            assert(e6.len() == 9) by {
                lemma_enc_le_len(
                    if total_length >= 0 {
                        total_length as nat
                    } else {
                        (-(total_length + 1)) as nat
                    },
                    8,
                );
            }
            assert(e7.len() == 9) by {
                lemma_enc_le_len(
                    if position >= 0 {
                        position as nat
                    } else {
                        (-(position + 1)) as nat
                    },
                    8,
                );
            }
            let f = enc_loc_fields(v) + rest;
            assert(f =~= r1);
            assert(f.skip(0int) =~= r1);
            lemma_index_round_trip(intersection_index, r2);
            lemma_drop_prefix(e1, r2);
            assert(f.skip(16int) =~= r2);
            lemma_abs_dir_round_trip(from_direction, r3);
            lemma_drop_prefix(e2, r3);
            assert(f.skip(17int) =~= r3);
            lemma_usize_round_trip(from_lane_index, r4);
            lemma_drop_prefix(e3, r4);
            assert(f.skip(25int) =~= r4);
            lemma_abs_dir_round_trip(to_direction, r5);
            lemma_drop_prefix(e4, r5);
            assert(f.skip(26int) =~= r5);
            lemma_usize_round_trip(to_lane_index, r6);
            lemma_drop_prefix(e5, r6);
            assert(f.skip(34int) =~= r6);
            lemma_i64_round_trip(total_length, r7);
            lemma_drop_prefix(e6, r7);
            assert(f.skip(43int) =~= r7);
            lemma_i64_round_trip(position, rest);
            lemma_drop_prefix(e7, rest);
        },
        _ => {
            assert(false);
        },
    }
}

/// Decoding an encoded location gives it back.
pub proof fn lemma_location_round_trip(v: crate::model::stateful::Location, rest: Seq<u8>)
    ensures
        dec_location(enc_location(v) + rest) == Some((v, enc_location(v).len() as int)),
{
    reveal(enc_location);
    reveal(dec_location);
    let s = enc_location(v) + rest;
    let tag = spec_loc_tag(v);
    assert(s =~= enc_byte(tag) + (enc_loc_fields(v) + rest));
    lemma_byte_round_trip(tag, enc_loc_fields(v) + rest);
    lemma_drop_prefix(enc_byte(tag), enc_loc_fields(v) + rest);
    match v {
        crate::model::stateful::Location::OnLane { .. } => lemma_loc_on_lane_round_trip(v, rest),
        crate::model::stateful::Location::ChangingLane { .. } => lemma_loc_changing_round_trip(
            v,
            rest,
        ),
        crate::model::stateful::Location::InIntersection { .. } => lemma_loc_inside_round_trip(
            v,
            rest,
        ),
    }
}

#[verifier::rlimit(100)]
#[verifier::spinoff_prover]
pub fn write_location(out: &mut Vec<u8>, v: &crate::model::stateful::Location)
    ensures
        final(out)@ == old(out)@ + enc_location(*v),
{
    proof {
        reveal(enc_location);
        reveal(enc_loc_fields);
    }
    match v {
        crate::model::stateful::Location::OnLane {
            road_direction,
            road_index,
            lane_direction,
            lane_index,
            about_to_turn,
            position,
        } => {
            write_byte(out, 0);
            write_axis(out, *road_direction);
            write_index(out, *road_index);
            write_lane_dir(out, *lane_direction);
            write_usize(out, *lane_index);
            write_rel_dir(out, *about_to_turn);
            write_i64(out, *position);
        },
        crate::model::stateful::Location::ChangingLane {
            road_direction,
            road_index,
            lane_direction,
            from_lane_index,
            to_lane_index,
            position,
            lane_changed_proportion,
        } => {
            write_byte(out, 1);
            write_axis(out, *road_direction);
            write_index(out, *road_index);
            write_lane_dir(out, *lane_direction);
            write_usize(out, *from_lane_index);
            write_usize(out, *to_lane_index);
            write_i64(out, *position);
            write_i64(out, *lane_changed_proportion);
        },
        crate::model::stateful::Location::InIntersection {
            intersection_index,
            from_direction,
            from_lane_index,
            to_direction,
            to_lane_index,
            total_length,
            position,
        } => {
            write_byte(out, 2);
            write_index(out, *intersection_index);
            write_abs_dir(out, *from_direction);
            write_usize(out, *from_lane_index);
            write_abs_dir(out, *to_direction);
            write_usize(out, *to_lane_index);
            write_i64(out, *total_length);
            write_i64(out, *position);
        },
    }
    proof {
        assert(out@ =~= old(out)@ + enc_location(*v));
    }
}


pub fn read_location(buf: &Vec<u8>, pos: &mut usize) -> (r: Option<
    crate::model::stateful::Location,
>)
    requires
        *old(pos) <= buf.len(),
    ensures
        *old(pos) <= *final(pos) <= buf.len(),
        match dec_location(buf@.skip(*old(pos) as int)) {
            None => r is None,
            Some((v, n)) => r == Some(v) && *final(pos) == *old(pos) + n && *final(pos)
                <= buf.len(),
        },
{
    proof {
        reveal(dec_location);
    }
    let ghost s = buf@.skip(*old(pos) as int);
    let ghost p0 = *pos;
    let tag = match read_byte(buf, pos) {
        None => {
            return None;
        },
        Some(tag) => tag,
    };
    proof {
        assert(buf@.skip(*pos as int) =~= s.skip(1));
    }
    if tag == 0 {
        read_loc_on_lane(buf, pos)
    } else if tag == 1 {
        read_loc_changing(buf, pos)
    } else if tag == 2 {
        read_loc_inside(buf, pos)
    } else {
        None
    }
}

#[verifier::rlimit(100)]
#[verifier::spinoff_prover]
fn read_loc_on_lane(buf: &Vec<u8>, pos: &mut usize) -> (r: Option<
    crate::model::stateful::Location,
>)
    requires
        *old(pos) <= buf.len(),
    ensures
        *old(pos) <= *final(pos) <= buf.len(),
        match dec_loc_on_lane(buf@.skip(*old(pos) as int)) {
            None => r is None,
            Some((v, n)) => r == Some(v) && *final(pos) == *old(pos) + n && *final(pos)
                <= buf.len(),
        },
{
    proof {
        reveal(dec_loc_on_lane);
    }
    let ghost s = buf@.skip(*old(pos) as int);
    let ghost p0 = *pos;
    proof {
        assert(s.skip(0int) =~= s);
    }
    let road_direction = match read_axis(buf, pos) {
        None => {
            return None;
        },
        Some(v) => v,
    };
    proof {
        assert(buf@.skip(*pos as int) =~= s.skip(*pos - p0));
    }
    let road_index = match read_index(buf, pos) {
        None => {
            return None;
        },
        Some(v) => v,
    };
    proof {
        assert(buf@.skip(*pos as int) =~= s.skip(*pos - p0));
    }
    let lane_direction = match read_lane_dir(buf, pos) {
        None => {
            return None;
        },
        Some(v) => v,
    };
    proof {
        assert(buf@.skip(*pos as int) =~= s.skip(*pos - p0));
    }
    let lane_index = match read_usize(buf, pos) {
        None => {
            return None;
        },
        Some(v) => v,
    };
    proof {
        assert(buf@.skip(*pos as int) =~= s.skip(*pos - p0));
    }
    let about_to_turn = match read_rel_dir(buf, pos) {
        None => {
            return None;
        },
        Some(v) => v,
    };
    proof {
        assert(buf@.skip(*pos as int) =~= s.skip(*pos - p0));
    }
    let position = match read_i64(buf, pos) {
        None => {
            return None;
        },
        Some(v) => v,
    };
    Some(
        crate::model::stateful::Location::OnLane {
            road_direction,
            road_index,
            lane_direction,
            lane_index,
            about_to_turn,
            position,
        },
    )
}

#[verifier::rlimit(100)]
#[verifier::spinoff_prover]
fn read_loc_changing(buf: &Vec<u8>, pos: &mut usize) -> (r: Option<
    crate::model::stateful::Location,
>)
    requires
        *old(pos) <= buf.len(),
    ensures
        *old(pos) <= *final(pos) <= buf.len(),
        match dec_loc_changing(buf@.skip(*old(pos) as int)) {
            None => r is None,
            Some((v, n)) => r == Some(v) && *final(pos) == *old(pos) + n && *final(pos)
                <= buf.len(),
        },
{
    proof {
        reveal(dec_loc_changing);
    }
    let ghost s = buf@.skip(*old(pos) as int);
    let ghost p0 = *pos;
    proof {
        assert(s.skip(0int) =~= s);
    }
    let road_direction = match read_axis(buf, pos) {
        None => {
            return None;
        },
        Some(v) => v,
    };
    proof {
        assert(buf@.skip(*pos as int) =~= s.skip(*pos - p0));
    }
    let road_index = match read_index(buf, pos) {
        None => {
            return None;
        },
        Some(v) => v,
    };
    proof {
        assert(buf@.skip(*pos as int) =~= s.skip(*pos - p0));
    }
    let lane_direction = match read_lane_dir(buf, pos) {
        None => {
            return None;
        },
        Some(v) => v,
    };
    proof {
        assert(buf@.skip(*pos as int) =~= s.skip(*pos - p0));
    }
    let from_lane_index = match read_usize(buf, pos) {
        None => {
            return None;
        },
        Some(v) => v,
    };
    proof {
        assert(buf@.skip(*pos as int) =~= s.skip(*pos - p0));
    }
    let to_lane_index = match read_usize(buf, pos) {
        None => {
            return None;
        },
        Some(v) => v,
    };
    proof {
        assert(buf@.skip(*pos as int) =~= s.skip(*pos - p0));
    }
    let position = match read_i64(buf, pos) {
        None => {
            return None;
        },
        Some(v) => v,
    };
    proof {
        assert(buf@.skip(*pos as int) =~= s.skip(*pos - p0));
    }
    let lane_changed_proportion = match read_i64(buf, pos) {
        None => {
            return None;
        },
        Some(v) => v,
    };
    Some(
        crate::model::stateful::Location::ChangingLane {
            road_direction,
            road_index,
            lane_direction,
            from_lane_index,
            to_lane_index,
            position,
            lane_changed_proportion,
        },
    )
}

#[verifier::rlimit(100)]
#[verifier::spinoff_prover]
fn read_loc_inside(buf: &Vec<u8>, pos: &mut usize) -> (r: Option<
    crate::model::stateful::Location,
>)
    requires
        *old(pos) <= buf.len(),
    ensures
        *old(pos) <= *final(pos) <= buf.len(),
        match dec_loc_inside(buf@.skip(*old(pos) as int)) {
            None => r is None,
            Some((v, n)) => r == Some(v) && *final(pos) == *old(pos) + n && *final(pos)
                <= buf.len(),
        },
{
    proof {
        reveal(dec_loc_inside);
    }
    let ghost s = buf@.skip(*old(pos) as int);
    let ghost p0 = *pos;
    proof {
        assert(s.skip(0int) =~= s);
    }
    let intersection_index = match read_index(buf, pos) {
        None => {
            return None;
        },
        Some(v) => v,
    };
    proof {
        assert(buf@.skip(*pos as int) =~= s.skip(*pos - p0));
    }
    let from_direction = match read_abs_dir(buf, pos) {
        None => {
            return None;
        },
        Some(v) => v,
    };
    proof {
        assert(buf@.skip(*pos as int) =~= s.skip(*pos - p0));
    }
    let from_lane_index = match read_usize(buf, pos) {
        None => {
            return None;
        },
        Some(v) => v,
    };
    proof {
        assert(buf@.skip(*pos as int) =~= s.skip(*pos - p0));
    }
    let to_direction = match read_abs_dir(buf, pos) {
        None => {
            return None;
        },
        Some(v) => v,
    };
    proof {
        assert(buf@.skip(*pos as int) =~= s.skip(*pos - p0));
    }
    let to_lane_index = match read_usize(buf, pos) {
        None => {
            return None;
        },
        Some(v) => v,
    };
    proof {
        assert(buf@.skip(*pos as int) =~= s.skip(*pos - p0));
    }
    let total_length = match read_i64(buf, pos) {
        None => {
            return None;
        },
        Some(v) => v,
    };
    proof {
        assert(buf@.skip(*pos as int) =~= s.skip(*pos - p0));
    }
    let position = match read_i64(buf, pos) {
        None => {
            return None;
        },
        Some(v) => v,
    };
    Some(
        crate::model::stateful::Location::InIntersection {
            intersection_index,
            from_direction,
            from_lane_index,
            to_direction,
            to_lane_index,
            total_length,
            position,
        },
    )
}


/// A vehicle on the wire: its location, velocity and acceleration.
pub open spec fn enc_car(v: crate::model::stateful::Car) -> Seq<u8> {
    enc_location(v.location) + enc_i64(v.velocity) + enc_i64(v.acceleration)
}

pub open spec fn dec_car(s: Seq<u8>) -> Option<(crate::model::stateful::Car, int)> {
    match dec_location(s) {
        None => None,
        Some((location, n1)) => match dec_i64(s.skip(n1)) {
            None => None,
            Some((velocity, n2)) => match dec_i64(s.skip(n1 + n2)) {
                None => None,
                Some((acceleration, n3)) => Some(
                    (crate::model::stateful::Car { location, velocity, acceleration }, n1 + n2
                        + n3),
                ),
            },
        },
    }
}

pub proof fn lemma_car_round_trip(v: crate::model::stateful::Car, rest: Seq<u8>)
    ensures
        dec_car(enc_car(v) + rest) == Some((v, enc_car(v).len() as int)),
{
    let e1 = enc_location(v.location);
    let e2 = enc_i64(v.velocity);
    let e3 = enc_i64(v.acceleration);
    let s = enc_car(v) + rest;
    assert(s =~= e1 + (e2 + (e3 + rest)));
    lemma_location_round_trip(v.location, e2 + (e3 + rest));
    lemma_drop_prefix(e1, e2 + (e3 + rest));
    assert(e2.len() == 9 && e3.len() == 9) by {
        lemma_enc_le_len(
            if v.velocity >= 0 {
                v.velocity as nat
            } else {
                (-(v.velocity + 1)) as nat
            },
            8,
        );
        lemma_enc_le_len(
            if v.acceleration >= 0 {
                v.acceleration as nat
            } else {
                (-(v.acceleration + 1)) as nat
            },
            8,
        );
    }
    lemma_i64_round_trip(v.velocity, e3 + rest);
    lemma_drop_prefix(e2, e3 + rest);
    assert(s.skip(e1.len() as int + 9) =~= e3 + rest);
    lemma_i64_round_trip(v.acceleration, rest);
}

pub fn write_car(out: &mut Vec<u8>, v: &crate::model::stateful::Car)
    ensures
        final(out)@ == old(out)@ + enc_car(*v),
{
    write_location(out, &v.location);
    write_i64(out, v.velocity);
    write_i64(out, v.acceleration);
    proof {
        assert(out@ =~= old(out)@ + enc_car(*v));
    }
}

#[verifier::rlimit(100)]
#[verifier::spinoff_prover]
pub fn read_car(buf: &Vec<u8>, pos: &mut usize) -> (r: Option<crate::model::stateful::Car>)
    requires
        *old(pos) <= buf.len(),
    ensures
        *old(pos) <= *final(pos) <= buf.len(),
        match dec_car(buf@.skip(*old(pos) as int)) {
            None => r is None,
            Some((v, n)) => r == Some(v) && *final(pos) == *old(pos) + n && *final(pos)
                <= buf.len(),
        },
{
    let ghost s = buf@.skip(*old(pos) as int);
    let ghost p0 = *pos;
    let location = match read_location(buf, pos) {
        None => {
            return None;
        },
        Some(v) => v,
    };
    proof {
        assert(buf@.skip(*pos as int) =~= s.skip(*pos - p0));
    }
    let velocity = match read_i64(buf, pos) {
        None => {
            return None;
        },
        Some(v) => v,
    };
    proof {
        assert(buf@.skip(*pos as int) =~= s.skip(*pos - p0));
    }
    let acceleration = match read_i64(buf, pos) {
        None => {
            return None;
        },
        Some(v) => v,
    };
    Some(crate::model::stateful::Car { location, velocity, acceleration })
}

/// An optional car slot on the wire: an presence tag, then
/// the value if present.
pub open spec fn enc_opt_car(v: Option<crate::model::stateful::Car>) -> Seq<u8> {
    match v {
        None => enc_byte(0),
        Some(x) => enc_byte(1) + enc_car(x),
    }
}

pub open spec fn dec_opt_car(s: Seq<u8>) -> Option<(Option<crate::model::stateful::Car>, int)> {
    match dec_byte(s) {
        None => None,
        Some((tag, n0)) => if tag == 0 {
            Some((None, n0))
        } else if tag == 1 {
            match dec_car(s.skip(n0)) {
                None => None,
                Some((x, n1)) => Some((Some(x), n0 + n1)),
            }
        } else {
            None
        },
    }
}

pub proof fn lemma_opt_car_round_trip(v: Option<crate::model::stateful::Car>, rest: Seq<u8>)
    ensures
        dec_opt_car(enc_opt_car(v) + rest) == Some((v, enc_opt_car(v).len() as int)),
{
    match v {
        None => {
            lemma_byte_round_trip(0, rest);
        },
        Some(x) => {
            let s = enc_opt_car(v) + rest;
            assert(s =~= enc_byte(1) + (enc_car(x) + rest));
            lemma_byte_round_trip(1, enc_car(x) + rest);
            lemma_drop_prefix(enc_byte(1), enc_car(x) + rest);
            lemma_car_round_trip(x, rest);
        },
    }
}

pub fn write_opt_car(out: &mut Vec<u8>, v: &Option<crate::model::stateful::Car>)
    ensures
        final(out)@ == old(out)@ + enc_opt_car(*v),
{
    match v {
        None => {
            write_byte(out, 0);
        },
        Some(x) => {
            write_byte(out, 1);
            write_car(out, x);
        },
    }
    proof {
        assert(out@ =~= old(out)@ + enc_opt_car(*v));
    }
}

pub fn read_opt_car(buf: &Vec<u8>, pos: &mut usize) -> (r: Option<Option<crate::model::stateful::Car>>)
    requires
        *old(pos) <= buf.len(),
    ensures
        *old(pos) <= *final(pos) <= buf.len(),
        match dec_opt_car(buf@.skip(*old(pos) as int)) {
            None => r is None,
            Some((v, n)) => r == Some(v) && *final(pos) == *old(pos) + n && *final(pos)
                <= buf.len(),
        },
{
    let ghost s = buf@.skip(*old(pos) as int);
    let ghost p0 = *pos;
    let tag = match read_byte(buf, pos) {
        None => {
            return None;
        },
        Some(tag) => tag,
    };
    if tag == 0 {
        Some(None)
    } else if tag == 1 {
        proof {
            assert(buf@.skip(*pos as int) =~= s.skip(1));
        }
        match read_car(buf, pos) {
            None => None,
            Some(x) => Some(Some(x)),
        }
    } else {
        None
    }
}

/// A run of oc slots on the wire, one after another.
pub open spec fn enc_oc_items(vs: Seq<Option<crate::model::stateful::Car>>) -> Seq<u8>
    decreases vs.len(),
{
    if vs.len() == 0 {
        Seq::empty()
    } else {
        enc_opt_car(vs[0]) + enc_oc_items(vs.skip(1))
    }
}

pub open spec fn dec_oc_items(s: Seq<u8>, count: nat) -> Option<(Seq<Option<crate::model::stateful::Car>>, int)>
    decreases count,
{
    if count == 0 {
        Some((Seq::empty(), 0))
    } else {
        match dec_opt_car(s) {
            None => None,
            Some((v, n)) => match dec_oc_items(s.skip(n), (count - 1) as nat) {
                None => None,
                Some((vs, m)) => Some((seq![v] + vs, n + m)),
            },
        }
    }
}

#[verifier::rlimit(100)]
#[verifier::spinoff_prover]
pub proof fn lemma_oc_items_round_trip(vs: Seq<Option<crate::model::stateful::Car>>, rest: Seq<u8>)
    ensures
        dec_oc_items(enc_oc_items(vs) + rest, vs.len()) == Some((vs, enc_oc_items(vs).len() as int)),
    decreases vs.len(),
{
    if vs.len() == 0 {
        assert(enc_oc_items(vs) + rest =~= rest);
        assert(vs =~= Seq::<Option<crate::model::stateful::Car>>::empty());
    } else {
        let e0 = enc_opt_car(vs[0]);
        let etail = enc_oc_items(vs.skip(1));
        let s = enc_oc_items(vs) + rest;
        assert(s =~= e0 + (etail + rest));
        lemma_opt_car_round_trip(vs[0], etail + rest);
        lemma_drop_prefix(e0, etail + rest);
        assert(s.skip(e0.len() as int) == etail + rest);
        lemma_oc_items_round_trip(vs.skip(1), rest);
        assert(seq![vs[0]] + vs.skip(1) =~= vs);
    }
}

/// Appending one more slot appends its bytes.
#[verifier::rlimit(100)]
#[verifier::spinoff_prover]
pub proof fn lemma_oc_items_snoc(vs: Seq<Option<crate::model::stateful::Car>>, x: Option<crate::model::stateful::Car>)
    ensures
        enc_oc_items(vs.push(x)) == enc_oc_items(vs) + enc_opt_car(x),
    decreases vs.len(),
{
    reveal_with_fuel(enc_oc_items, 3);
    if vs.len() == 0 {
        assert(vs.push(x).skip(1) =~= Seq::<Option<crate::model::stateful::Car>>::empty());
        assert(vs.push(x)[0] == x);
        assert(enc_oc_items(vs.push(x)) =~= enc_oc_items(vs) + enc_opt_car(x));
    } else {
        assert(vs.push(x).skip(1) =~= vs.skip(1).push(x));
        assert(vs.push(x)[0] == vs[0]);
        lemma_oc_items_snoc(vs.skip(1), x);
        assert(enc_oc_items(vs.push(x)) == enc_opt_car(vs[0]) + enc_oc_items(vs.push(x).skip(1)));
        assert(enc_oc_items(vs) == enc_opt_car(vs[0]) + enc_oc_items(vs.skip(1)));
        assert(enc_opt_car(vs[0]) + (enc_oc_items(vs.skip(1)) + enc_opt_car(x)) =~= (enc_opt_car(vs[0])
            + enc_oc_items(vs.skip(1))) + enc_opt_car(x));
        assert(enc_oc_items(vs.push(x)) =~= enc_oc_items(vs) + enc_opt_car(x));
    }
}

pub fn write_oc_items(out: &mut Vec<u8>, vs: &Vec<Option<crate::model::stateful::Car>>)
    ensures
        final(out)@ == old(out)@ + enc_oc_items(vs@),
{
    let ghost orig = out@;
    let mut i: usize = 0;
    while i < vs.len()
        invariant
            i <= vs.len(),
            out@ == orig + enc_oc_items(vs@.take(i as int)),
        decreases vs.len() - i,
    {
        proof {
            lemma_oc_items_snoc(vs@.take(i as int), vs@[i as int]);
            assert(vs@.take(i as int).push(vs@[i as int]) =~= vs@.take(i + 1));
        }
        write_opt_car(out, &vs[i]);
        i = i + 1;
    }
    proof {
        assert(vs@.take(vs.len() as int) =~= vs@);
    }
}

#[verifier::rlimit(100)]
#[verifier::spinoff_prover]
#[verifier::loop_isolation(false)]
pub fn read_oc_items(buf: &Vec<u8>, pos: &mut usize, count: usize) -> (r: Option<
    Vec<Option<crate::model::stateful::Car>>,
>)
    requires
        *old(pos) <= buf.len(),
    ensures
        *old(pos) <= *final(pos) <= buf.len(),
        match dec_oc_items(buf@.skip(*old(pos) as int), count as nat) {
            None => r is None,
            Some((vs, n)) => r matches Some(rv) && rv@ == vs && *final(pos) == *old(pos) + n
                && *final(pos) <= buf.len(),
        },
{
    let ghost s0 = buf@.skip(*old(pos) as int);
    let ghost p0 = *pos;
    let mut r: Vec<Option<crate::model::stateful::Car>> = Vec::new();
    let mut i: usize = 0;
    while i < count
        invariant
            i <= count,
            p0 <= *pos <= buf.len(),
            s0 == buf@.skip(p0 as int),
            r.len() == i,
            dec_oc_items(s0, count as nat) == (match dec_oc_items(
                buf@.skip(*pos as int),
                (count - i) as nat,
            ) {
                None => None::<(Seq<Option<crate::model::stateful::Car>>, int)>,
                Some((vs, m)) => Some((r@ + vs, (*pos - p0) + m)),
            }),
        decreases count - i,
    {
        let ghost pos_before = *pos;
        let ghost r_before = r@;
        let ghost i_before = i;
        let v = match read_opt_car(buf, pos) {
            None => {
                return None;
            },
            Some(v) => v,
        };
        r.push(v);
        i = i + 1;
        proof {
            let rem = buf@.skip(pos_before as int);
            match dec_opt_car(rem) {
                None => {
                    assert(false);
                },
                Some((vv, n)) => {
                    assert(buf@.skip(*pos as int) =~= rem.skip(n));
                    match dec_oc_items(buf@.skip(*pos as int), (count - i) as nat) {
                        None => {},
                        Some((vs2, m2)) => {
                            assert(r_before + (seq![vv] + vs2) =~= r@ + vs2);
                        },
                    }
                },
            }
        }
    }
    proof {
        assert(r@ + Seq::<Option<crate::model::stateful::Car>>::empty() =~= r@);
    }
    Some(r)
}

/// The whole vehicle list on the wire: its length, then each slot.
pub open spec fn enc_cars(vs: Seq<Option<crate::model::stateful::Car>>) -> Seq<u8> {
    enc_usize(vs.len() as usize) + enc_oc_items(vs)
}

pub open spec fn dec_cars(s: Seq<u8>) -> Option<
    (Seq<Option<crate::model::stateful::Car>>, int),
> {
    match dec_usize(s) {
        None => None,
        Some((count, n1)) => match dec_oc_items(s.skip(n1), count as nat) {
            None => None,
            Some((vs, n2)) => Some((vs, n1 + n2)),
        },
    }
}

/// Round trip of the vehicle list: decoding an encoding gives the same
/// list back.
pub proof fn lemma_cars_round_trip(vs: Seq<Option<crate::model::stateful::Car>>, rest: Seq<u8>)
    requires
        vs.len() <= usize::MAX,
    ensures
        dec_cars(enc_cars(vs) + rest) == Some((vs, enc_cars(vs).len() as int)),
{
    let e1 = enc_usize(vs.len() as usize);
    let e2 = enc_oc_items(vs);
    let s = enc_cars(vs) + rest;
    assert(s =~= e1 + (e2 + rest));
    lemma_usize_round_trip(vs.len() as usize, e2 + rest);
    assert(e1.len() == 8) by {
        lemma_enc_le_len(vs.len() as nat, 8);
    }
    lemma_drop_prefix(e1, e2 + rest);
    assert(s.skip(8) =~= e2 + rest);
    lemma_oc_items_round_trip(vs, rest);
}

/// Encode the whole vehicle list.
pub fn encode_cars(vs: &Vec<Option<crate::model::stateful::Car>>) -> (r: Vec<u8>)
    ensures
        r@ == enc_cars(vs@),
{
    let mut out: Vec<u8> = Vec::new();
    write_usize(&mut out, vs.len());
    write_oc_items(&mut out, vs);
    proof {
        assert(out@ =~= enc_cars(vs@));
    }
    out
}

/// Decode a whole vehicle list, if the bytes hold one.
pub fn decode_cars(buf: &Vec<u8>) -> (r: Option<Vec<Option<crate::model::stateful::Car>>>)
    ensures
        match dec_cars(buf@) {
            None => r is None,
            Some((vs, n)) => r matches Some(rv) && rv@ == vs,
        },
{
    let mut pos: usize = 0;
    proof {
        assert(buf@.skip(0int) =~= buf@);
    }
    let count = match read_usize(buf, &mut pos) {
        None => {
            return None;
        },
        Some(v) => v,
    };
    proof {
        assert(buf@.skip(pos as int) =~= buf@.skip(8));
    }
    match read_oc_items(buf, &mut pos, count) {
        None => None,
        Some(rv) => Some(rv),
    }
}

/// An optional intersection slot on the wire: an presence tag, then
/// the value if present.
pub open spec fn enc_opt_intersection(v: Option<Intersection>) -> Seq<u8> {
    match v {
        None => enc_byte(0),
        Some(x) => enc_byte(1) + enc_intersection(x),
    }
}

pub open spec fn dec_opt_intersection(s: Seq<u8>) -> Option<(Option<Intersection>, int)> {
    match dec_byte(s) {
        None => None,
        Some((tag, n0)) => if tag == 0 {
            Some((None, n0))
        } else if tag == 1 {
            match dec_intersection(s.skip(n0)) {
                None => None,
                Some((x, n1)) => Some((Some(x), n0 + n1)),
            }
        } else {
            None
        },
    }
}

pub proof fn lemma_opt_intersection_round_trip(v: Option<Intersection>, rest: Seq<u8>)
    ensures
        dec_opt_intersection(enc_opt_intersection(v) + rest) == Some((v, enc_opt_intersection(v).len() as int)),
{
    match v {
        None => {
            lemma_byte_round_trip(0, rest);
        },
        Some(x) => {
            let s = enc_opt_intersection(v) + rest;
            assert(s =~= enc_byte(1) + (enc_intersection(x) + rest));
            lemma_byte_round_trip(1, enc_intersection(x) + rest);
            lemma_drop_prefix(enc_byte(1), enc_intersection(x) + rest);
            lemma_intersection_round_trip(x, rest);
        },
    }
}

pub fn write_opt_intersection(out: &mut Vec<u8>, v: &Option<Intersection>)
    ensures
        final(out)@ == old(out)@ + enc_opt_intersection(*v),
{
    match v {
        None => {
            write_byte(out, 0);
        },
        Some(x) => {
            write_byte(out, 1);
            write_intersection(out, x);
        },
    }
    proof {
        assert(out@ =~= old(out)@ + enc_opt_intersection(*v));
    }
}

pub fn read_opt_intersection(buf: &Vec<u8>, pos: &mut usize) -> (r: Option<Option<Intersection>>)
    requires
        *old(pos) <= buf.len(),
    ensures
        *old(pos) <= *final(pos) <= buf.len(),
        match dec_opt_intersection(buf@.skip(*old(pos) as int)) {
            None => r is None,
            Some((v, n)) => r == Some(v) && *final(pos) == *old(pos) + n && *final(pos)
                <= buf.len(),
        },
{
    let ghost s = buf@.skip(*old(pos) as int);
    let ghost p0 = *pos;
    let tag = match read_byte(buf, pos) {
        None => {
            return None;
        },
        Some(tag) => tag,
    };
    if tag == 0 {
        Some(None)
    } else if tag == 1 {
        proof {
            assert(buf@.skip(*pos as int) =~= s.skip(1));
        }
        match read_intersection(buf, pos) {
            None => None,
            Some(x) => Some(Some(x)),
        }
    } else {
        None
    }
}

/// A run of oi slots on the wire, one after another.
pub open spec fn enc_oi_items(vs: Seq<Option<Intersection>>) -> Seq<u8>
    decreases vs.len(),
{
    if vs.len() == 0 {
        Seq::empty()
    } else {
        enc_opt_intersection(vs[0]) + enc_oi_items(vs.skip(1))
    }
}

pub open spec fn dec_oi_items(s: Seq<u8>, count: nat) -> Option<(Seq<Option<Intersection>>, int)>
    decreases count,
{
    if count == 0 {
        Some((Seq::empty(), 0))
    } else {
        match dec_opt_intersection(s) {
            None => None,
            Some((v, n)) => match dec_oi_items(s.skip(n), (count - 1) as nat) {
                None => None,
                Some((vs, m)) => Some((seq![v] + vs, n + m)),
            },
        }
    }
}

#[verifier::rlimit(100)]
#[verifier::spinoff_prover]
pub proof fn lemma_oi_items_round_trip(vs: Seq<Option<Intersection>>, rest: Seq<u8>)
    ensures
        dec_oi_items(enc_oi_items(vs) + rest, vs.len()) == Some((vs, enc_oi_items(vs).len() as int)),
    decreases vs.len(),
{
    if vs.len() == 0 {
        assert(enc_oi_items(vs) + rest =~= rest);
        assert(vs =~= Seq::<Option<Intersection>>::empty());
    } else {
        let e0 = enc_opt_intersection(vs[0]);
        let etail = enc_oi_items(vs.skip(1));
        let s = enc_oi_items(vs) + rest;
        assert(s =~= e0 + (etail + rest));
        lemma_opt_intersection_round_trip(vs[0], etail + rest);
        lemma_drop_prefix(e0, etail + rest);
        assert(s.skip(e0.len() as int) == etail + rest);
        lemma_oi_items_round_trip(vs.skip(1), rest);
        assert(seq![vs[0]] + vs.skip(1) =~= vs);
    }
}

/// Appending one more slot appends its bytes.
#[verifier::rlimit(100)]
#[verifier::spinoff_prover]
pub proof fn lemma_oi_items_snoc(vs: Seq<Option<Intersection>>, x: Option<Intersection>)
    ensures
        enc_oi_items(vs.push(x)) == enc_oi_items(vs) + enc_opt_intersection(x),
    decreases vs.len(),
{
    reveal_with_fuel(enc_oi_items, 3);
    if vs.len() == 0 {
        assert(vs.push(x).skip(1) =~= Seq::<Option<Intersection>>::empty());
        assert(vs.push(x)[0] == x);
        assert(enc_oi_items(vs.push(x)) =~= enc_oi_items(vs) + enc_opt_intersection(x));
    } else {
        assert(vs.push(x).skip(1) =~= vs.skip(1).push(x));
        assert(vs.push(x)[0] == vs[0]);
        lemma_oi_items_snoc(vs.skip(1), x);
        assert(enc_oi_items(vs.push(x)) == enc_opt_intersection(vs[0]) + enc_oi_items(vs.push(x).skip(1)));
        assert(enc_oi_items(vs) == enc_opt_intersection(vs[0]) + enc_oi_items(vs.skip(1)));
        assert(enc_opt_intersection(vs[0]) + (enc_oi_items(vs.skip(1)) + enc_opt_intersection(x)) =~= (enc_opt_intersection(vs[0])
            + enc_oi_items(vs.skip(1))) + enc_opt_intersection(x));
        assert(enc_oi_items(vs.push(x)) =~= enc_oi_items(vs) + enc_opt_intersection(x));
    }
}

pub fn write_oi_items(out: &mut Vec<u8>, vs: &Vec<Option<Intersection>>)
    ensures
        final(out)@ == old(out)@ + enc_oi_items(vs@),
{
    let ghost orig = out@;
    let mut i: usize = 0;
    while i < vs.len()
        invariant
            i <= vs.len(),
            out@ == orig + enc_oi_items(vs@.take(i as int)),
        decreases vs.len() - i,
    {
        proof {
            lemma_oi_items_snoc(vs@.take(i as int), vs@[i as int]);
            assert(vs@.take(i as int).push(vs@[i as int]) =~= vs@.take(i + 1));
        }
        write_opt_intersection(out, &vs[i]);
        i = i + 1;
    }
    proof {
        assert(vs@.take(vs.len() as int) =~= vs@);
    }
}

#[verifier::rlimit(100)]
#[verifier::spinoff_prover]
#[verifier::loop_isolation(false)]
pub fn read_oi_items(buf: &Vec<u8>, pos: &mut usize, count: usize) -> (r: Option<
    Vec<Option<Intersection>>,
>)
    requires
        *old(pos) <= buf.len(),
    ensures
        *old(pos) <= *final(pos) <= buf.len(),
        match dec_oi_items(buf@.skip(*old(pos) as int), count as nat) {
            None => r is None,
            Some((vs, n)) => r matches Some(rv) && rv@ == vs && *final(pos) == *old(pos) + n
                && *final(pos) <= buf.len(),
        },
{
    let ghost s0 = buf@.skip(*old(pos) as int);
    let ghost p0 = *pos;
    let mut r: Vec<Option<Intersection>> = Vec::new();
    let mut i: usize = 0;
    while i < count
        invariant
            i <= count,
            p0 <= *pos <= buf.len(),
            s0 == buf@.skip(p0 as int),
            r.len() == i,
            dec_oi_items(s0, count as nat) == (match dec_oi_items(
                buf@.skip(*pos as int),
                (count - i) as nat,
            ) {
                None => None::<(Seq<Option<Intersection>>, int)>,
                Some((vs, m)) => Some((r@ + vs, (*pos - p0) + m)),
            }),
        decreases count - i,
    {
        let ghost pos_before = *pos;
        let ghost r_before = r@;
        let ghost i_before = i;
        let v = match read_opt_intersection(buf, pos) {
            None => {
                return None;
            },
            Some(v) => v,
        };
        r.push(v);
        i = i + 1;
        proof {
            let rem = buf@.skip(pos_before as int);
            match dec_opt_intersection(rem) {
                None => {
                    assert(false);
                },
                Some((vv, n)) => {
                    assert(buf@.skip(*pos as int) =~= rem.skip(n));
                    match dec_oi_items(buf@.skip(*pos as int), (count - i) as nat) {
                        None => {},
                        Some((vs2, m2)) => {
                            assert(r_before + (seq![vv] + vs2) =~= r@ + vs2);
                        },
                    }
                },
            }
        }
    }
    proof {
        assert(r@ + Seq::<Option<Intersection>>::empty() =~= r@);
    }
    Some(r)
}


/// The stateful city on the wire: the board shape, then every
/// intersection slot in row-major order.  The road matrices carry no
/// state, so their shapes are derived from the board shape.
pub open spec fn enc_city(c: &crate::model::stateful::City) -> Seq<u8> {
    enc_usize(c.board.intersections.shape.0) + enc_usize(c.board.intersections.shape.1)
        + enc_oi_items(c.board.intersections.storage@)
}

/// The raw parts read back from an encoded city: the shape and the
/// intersection slots.
pub open spec fn dec_city_raw(s: Seq<u8>) -> Option<
    ((usize, usize), Seq<Option<Intersection>>, int),
> {
    match dec_usize(s) {
        None => None,
        Some((m, n1)) => match dec_usize(s.skip(n1)) {
            None => None,
            Some((n, n2)) => if 1 <= m && 1 <= n && m * n <= usize::MAX {
                match dec_oi_items(s.skip(n1 + n2), (m * n) as nat) {
                    None => None,
                    Some((vs, n3)) => Some(((m, n), vs, n1 + n2 + n3)),
                }
            } else {
                None
            },
        },
    }
}

/// Round trip of the city: decoding an encoding gives the shape and
/// slots back.
pub proof fn lemma_city_round_trip(c: &crate::model::stateful::City, rest: Seq<u8>)
    requires
        c.board.wf(),
    ensures
        dec_city_raw(enc_city(c) + rest) == Some(
            (
                (c.board.intersections.shape.0, c.board.intersections.shape.1),
                c.board.intersections.storage@,
                enc_city(c).len() as int,
            ),
        ),
{
    let m = c.board.intersections.shape.0;
    let n = c.board.intersections.shape.1;
    let vs = c.board.intersections.storage@;
    let e1 = enc_usize(m);
    let e2 = enc_usize(n);
    let e3 = enc_oi_items(vs);
    let s = enc_city(c) + rest;
    assert(e1.len() == 8 && e2.len() == 8) by {
        lemma_enc_le_len(m as nat, 8);
        lemma_enc_le_len(n as nat, 8);
    }
    assert(s =~= e1 + (e2 + (e3 + rest)));
    lemma_usize_round_trip(m, e2 + (e3 + rest));
    lemma_drop_prefix(e1, e2 + (e3 + rest));
    lemma_usize_round_trip(n, e3 + rest);
    lemma_drop_prefix(e2, e3 + rest);
    assert(s.skip(16int) =~= e3 + rest);
    assert(vs.len() == m * n);
    lemma_oi_items_round_trip(vs, rest);
}

/// Encode the stateful city.
pub fn encode_city(c: &crate::model::stateful::City) -> (r: Vec<u8>)
    ensures
        r@ == enc_city(c),
{
    let mut out: Vec<u8> = Vec::new();
    let (m, n) = c.board.intersections.shape;
    write_usize(&mut out, m);
    write_usize(&mut out, n);
    write_oi_items(&mut out, &c.board.intersections.storage);
    proof {
        assert(out@ =~= enc_city(c));
    }
    out
}

/// Decode a stateful city, if the bytes hold one.  The decoded board is
/// well formed by construction.
pub fn decode_city(buf: &Vec<u8>) -> (r: Option<crate::model::stateful::City>)
    ensures
        match dec_city_raw(buf@) {
            None => r is None,
            Some((shape, vs, n)) => r matches Some(c) && c.board.wf()
                && c.board.intersections.shape == shape && c.board.intersections.storage@ == vs,
        },
{
    let mut pos: usize = 0;
    proof {
        assert(buf@.skip(0int) =~= buf@);
    }
    let m = match read_usize(buf, &mut pos) {
        None => {
            return None;
        },
        Some(v) => v,
    };
    proof {
        assert(buf@.skip(pos as int) =~= buf@.skip(8));
    }
    let n = match read_usize(buf, &mut pos) {
        None => {
            return None;
        },
        Some(v) => v,
    };
    if m < 1 || n < 1 || (m > usize::MAX / n) {
        proof {
            if m >= 1 && n >= 1 {
                vstd::arithmetic::div_mod::lemma_fundamental_div_mod(usize::MAX as int, n as int);
                assert(m > usize::MAX / n ==> m * n > usize::MAX) by (nonlinear_arith)
                    requires
                        n >= 1,
                        usize::MAX as int == n * ((usize::MAX as int) / (n as int)) + (
                        usize::MAX as int) % (n as int),
                        0 <= (usize::MAX as int) % (n as int) < n,
                ;
            }
        }
        return None;
    }
    proof {
        vstd::arithmetic::div_mod::lemma_fundamental_div_mod(usize::MAX as int, n as int);
        assert(m * n <= usize::MAX) by (nonlinear_arith)
            requires
                n >= 1,
                m <= usize::MAX / n,
                usize::MAX as int == n * ((usize::MAX as int) / (n as int)) + (
                usize::MAX as int) % (n as int),
                0 <= (usize::MAX as int) % (n as int) < n,
        ;
        assert(m * (n - 1) <= m * n && (m - 1) * n <= m * n) by (nonlinear_arith)
            requires
                m >= 1,
                n >= 1,
        ;
    }
    let count = m * n;
    proof {
        lemma_oi_items_len(buf@.skip(pos as int), count as nat);
        assert(buf@.skip(pos as int) =~= buf@.skip(16int));
    }
    let storage = match read_oi_items(buf, &mut pos, count) {
        None => {
            return None;
        },
        Some(v) => v,
    };
    let mut h_storage: Vec<()> = Vec::new();
    let h_count = m * (n - 1);
    let mut k: usize = 0;
    while k < h_count
        invariant
            k <= h_count,
            h_storage.len() == k,
        decreases h_count - k,
    {
        h_storage.push(());
        k = k + 1;
    }
    let mut v_storage: Vec<()> = Vec::new();
    let v_count = (m - 1) * n;
    let mut k2: usize = 0;
    while k2 < v_count
        invariant
            k2 <= v_count,
            v_storage.len() == k2,
        decreases v_count - k2,
    {
        v_storage.push(());
        k2 = k2 + 1;
    }
    Some(
        crate::model::stateful::City {
            board: crate::model::board::Board {
                intersections: crate::util::matrix::Matrix { shape: (m, n), storage },
                horizontal_roads: crate::util::matrix::Matrix {
                    shape: (m, n - 1),
                    storage: h_storage,
                },
                vertical_roads: crate::util::matrix::Matrix {
                    shape: (m - 1, n),
                    storage: v_storage,
                },
            },
        },
    )
}


/// A decoded run of slots has exactly the asked-for count.
pub proof fn lemma_oi_items_len(s: Seq<u8>, count: nat)
    ensures
        (match dec_oi_items(s, count) {
            None => true,
            Some((vs, n)) => vs.len() == count,
        }),
    decreases count,
{
    if count > 0 {
        match dec_opt_intersection(s) {
            None => {},
            Some((v, n)) => {
                lemma_oi_items_len(s.skip(n), (count - 1) as nat);
            },
        }
    }
}

/// A decoded vehicle run has exactly the asked-for count.
pub proof fn lemma_oc_items_len(s: Seq<u8>, count: nat)
    ensures
        (match dec_oc_items(s, count) {
            None => true,
            Some((vs, n)) => vs.len() == count,
        }),
    decreases count,
{
    if count > 0 {
        match dec_opt_car(s) {
            None => {},
            Some((v, n)) => {
                lemma_oc_items_len(s.skip(n), (count - 1) as nat);
            },
        }
    }
}


/// An optional tick length on the wire: the end-of-run sentinel is the
/// absent value.
pub open spec fn enc_opt_dt(v: Option<i64>) -> Seq<u8> {
    match v {
        None => enc_byte(0),
        Some(x) => enc_byte(1) + enc_i64(x),
    }
}

pub open spec fn dec_opt_dt(s: Seq<u8>) -> Option<(Option<i64>, int)> {
    match dec_byte(s) {
        None => None,
        Some((tag, n0)) => if tag == 0 {
            Some((None, n0))
        } else if tag == 1 {
            match dec_i64(s.skip(n0)) {
                None => None,
                Some((x, n1)) => Some((Some(x), n0 + n1)),
            }
        } else {
            None
        },
    }
}

pub proof fn lemma_opt_dt_round_trip(v: Option<i64>, rest: Seq<u8>)
    ensures
        dec_opt_dt(enc_opt_dt(v) + rest) == Some((v, enc_opt_dt(v).len() as int)),
{
    match v {
        None => {
            lemma_byte_round_trip(0, rest);
        },
        Some(x) => {
            let s = enc_opt_dt(v) + rest;
            assert(enc_i64(x).len() == 9) by {
                lemma_enc_le_len(
                    if x >= 0 {
                        x as nat
                    } else {
                        (-(x + 1)) as nat
                    },
                    8,
                );
            }
            assert(s =~= enc_byte(1) + (enc_i64(x) + rest));
            lemma_byte_round_trip(1, enc_i64(x) + rest);
            lemma_drop_prefix(enc_byte(1), enc_i64(x) + rest);
            lemma_i64_round_trip(x, rest);
        },
    }
}

/// Encode an optional tick length.
pub fn encode_opt_dt(v: &Option<i64>) -> (r: Vec<u8>)
    ensures
        r@ == enc_opt_dt(*v),
{
    let mut out: Vec<u8> = Vec::new();
    match v {
        None => {
            write_byte(&mut out, 0);
        },
        Some(x) => {
            write_byte(&mut out, 1);
            write_i64(&mut out, *x);
        },
    }
    proof {
        assert(out@ =~= enc_opt_dt(*v));
    }
    out
}

/// Decode an optional tick length, if the bytes hold one.
pub fn decode_opt_dt(buf: &Vec<u8>) -> (r: Option<Option<i64>>)
    ensures
        match dec_opt_dt(buf@) {
            None => r is None,
            Some((v, n)) => r == Some(v),
        },
{
    let mut pos: usize = 0;
    proof {
        assert(buf@.skip(0int) =~= buf@);
    }
    let tag = match read_byte(buf, &mut pos) {
        None => {
            return None;
        },
        Some(tag) => tag,
    };
    if tag == 0 {
        Some(None)
    } else if tag == 1 {
        proof {
            assert(buf@.skip(pos as int) =~= buf@.skip(1));
        }
        match read_i64(buf, &mut pos) {
            None => None,
            Some(x) => Some(Some(x)),
        }
    } else {
        None
    }
}


/// Bound on one encoded vehicle slot: a tag byte plus at most a location
/// of 54 bytes and two 9-byte quantities.
pub proof fn lemma_enc_opt_car_len_bound(c: Option<crate::model::stateful::Car>)
    ensures
        enc_opt_car(c).len() <= 73,
{
    match c {
        None => {},
        Some(car) => {
            reveal(enc_location);
            match car.location {
                crate::model::stateful::Location::OnLane { .. } => {
                    lemma_loc_on_lane_round_trip(car.location, Seq::empty());
                },
                crate::model::stateful::Location::ChangingLane { .. } => {
                    lemma_loc_changing_round_trip(car.location, Seq::empty());
                },
                crate::model::stateful::Location::InIntersection { .. } => {
                    lemma_loc_inside_round_trip(car.location, Seq::empty());
                },
            }
            assert(enc_location(car.location).len() <= 54);
            lemma_enc_le_len(
                if car.velocity >= 0 {
                    car.velocity as nat
                } else {
                    (-(car.velocity + 1)) as nat
                },
                8,
            );
            lemma_enc_le_len(
                if car.acceleration >= 0 {
                    car.acceleration as nat
                } else {
                    (-(car.acceleration + 1)) as nat
                },
                8,
            );
        },
    }
}

/// Bound on an encoded run of vehicle slots.
pub proof fn lemma_enc_oc_items_len_bound(vs: Seq<Option<crate::model::stateful::Car>>)
    ensures
        enc_oc_items(vs).len() <= 73 * vs.len(),
    decreases vs.len(),
{
    if vs.len() > 0 {
        lemma_enc_opt_car_len_bound(vs[0]);
        lemma_enc_oc_items_len_bound(vs.skip(1));
        assert(enc_oc_items(vs) == enc_opt_car(vs[0]) + enc_oc_items(vs.skip(1)));
        assert(enc_oc_items(vs).len() == enc_opt_car(vs[0]).len() + enc_oc_items(
            vs.skip(1),
        ).len());
        assert(73 * vs.len() == 73 * vs.skip(1).len() + 73) by (nonlinear_arith)
            requires
                vs.skip(1).len() == vs.len() - 1,
        ;
    }
}

/// Bound on a whole encoded vehicle list: the length prefix plus the
/// slots.
pub proof fn lemma_enc_cars_len_bound(vs: Seq<Option<crate::model::stateful::Car>>)
    requires
        vs.len() <= usize::MAX,
    ensures
        enc_cars(vs).len() <= 8 + 73 * vs.len(),
{
    lemma_enc_le_len((vs.len() as usize) as nat, 8);
    lemma_enc_oc_items_len_bound(vs);
}

} // verus!
