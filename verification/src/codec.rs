//! Byte-exact, versionless binary encoding of the persisted edit types: a
//! fixed-layout little-endian struct-of-fields form for `TimeRange` and
//! `Clip`, with a proved decode/encode round trip.

use vstd::prelude::*;

use crate::model::Clip;
use crate::model::ClipView;
use crate::model::TimeRange;

verus! {

/// 256 to the `n`.
pub open spec fn pow256(n: nat) -> int
    decreases n,
{
    if n == 0 {
        1
    } else {
        256 * pow256((n - 1) as nat)
    }
}

/// The `n` little-endian base-256 digits of `x`.
pub open spec fn le_bytes(x: int, n: nat) -> Seq<u8>
    decreases n,
{
    if n == 0 {
        Seq::empty()
    } else {
        seq![(x % 256) as u8] + le_bytes(x / 256, (n - 1) as nat)
    }
}

/// The value carried by a little-endian byte string.
pub open spec fn le_val(bs: Seq<u8>) -> int
    decreases bs.len(),
{
    if bs.len() == 0 {
        0
    } else {
        bs[0] + 256 * le_val(bs.drop_first())
    }
}

pub proof fn lemma_le_bytes_len(x: int, n: nat)
    ensures
        le_bytes(x, n).len() == n,
    decreases n,
{
    if n > 0 {
        lemma_le_bytes_len(x / 256, (n - 1) as nat);
    }
}

/// Reading back the digits of an in-range value gives the value.
pub proof fn lemma_le_val_le_bytes(x: int, n: nat)
    requires
        0 <= x < pow256(n),
    ensures
        le_val(le_bytes(x, n)) == x,
    decreases n,
{
    if n > 0 {
        assert(x / 256 < pow256((n - 1) as nat)) by {
            assert(pow256(n) == 256 * pow256((n - 1) as nat));
            assert(x < 256 * pow256((n - 1) as nat));
            assert(256 * (x / 256) <= x) by (nonlinear_arith);
            assert(x / 256 < pow256((n - 1) as nat)) by (nonlinear_arith)
                requires
                    256 * (x / 256) <= x,
                    x < 256 * pow256((n - 1) as nat),
            ;
        }
        lemma_le_val_le_bytes(x / 256, (n - 1) as nat);
        assert(le_bytes(x, n).drop_first() =~= le_bytes(x / 256, (n - 1) as nat));
        assert(le_val(le_bytes(x, n)) == x % 256 + 256 * (x / 256));
        assert(x % 256 + 256 * (x / 256) == x) by (nonlinear_arith);
    }
}

/// Every value read from `n` bytes is in range.
pub proof fn lemma_le_val_bound(bs: Seq<u8>)
    ensures
        0 <= le_val(bs) < pow256(bs.len()),
    decreases bs.len(),
{
    if bs.len() > 0 {
        lemma_le_val_bound(bs.drop_first());
        assert(le_val(bs) == bs[0] + 256 * le_val(bs.drop_first()));
        assert(256 * le_val(bs.drop_first()) <= 256 * (pow256((bs.len() - 1) as nat) - 1))
            by (nonlinear_arith)
            requires
                le_val(bs.drop_first()) <= pow256((bs.len() - 1) as nat) - 1,
        ;
        assert(256 * le_val(bs.drop_first()) >= 0) by (nonlinear_arith)
            requires
                le_val(bs.drop_first()) >= 0,
        ;
    }
}

/// Append the eight little-endian bytes of `x`.
fn push_u64_le(out: &mut Vec<u8>, x: u64)
    ensures
        final(out)@ == old(out)@ + le_bytes(x as int, 8),
{
    let x0 = x;
    let x1 = x0 / 256;
    let x2 = x1 / 256;
    let x3 = x2 / 256;
    let x4 = x3 / 256;
    let x5 = x4 / 256;
    let x6 = x5 / 256;
    let x7 = x6 / 256;
    out.push((x0 % 256) as u8);
    out.push((x1 % 256) as u8);
    out.push((x2 % 256) as u8);
    out.push((x3 % 256) as u8);
    out.push((x4 % 256) as u8);
    out.push((x5 % 256) as u8);
    out.push((x6 % 256) as u8);
    out.push((x7 % 256) as u8);
    proof {
        reveal_with_fuel(le_bytes, 9);
        assert(final(out)@ =~= old(out)@ + le_bytes(x as int, 8));
    }
}

/// Append the four little-endian bytes of `x`.
fn push_u32_le(out: &mut Vec<u8>, x: u32)
    ensures
        final(out)@ == old(out)@ + le_bytes(x as int, 4),
{
    let x0 = x;
    let x1 = x0 / 256;
    let x2 = x1 / 256;
    let x3 = x2 / 256;
    out.push((x0 % 256) as u8);
    out.push((x1 % 256) as u8);
    out.push((x2 % 256) as u8);
    out.push((x3 % 256) as u8);
    proof {
        reveal_with_fuel(le_bytes, 5);
        assert(final(out)@ =~= old(out)@ + le_bytes(x as int, 4));
    }
}

/// Read the eight-byte little-endian value at `at`.
fn read_u64_le(bytes: &Vec<u8>, at: usize) -> (x: u64)
    requires
        at + 8 <= bytes@.len(),
    ensures
        x as int == le_val(bytes@.subrange(at as int, at + 8)),
{
    // Bind the length so its machine bound is in scope for the indexing.
    let _n: usize = bytes.len();
    let mut x: u64 = bytes[at + 7] as u64;
    x = x * 256 + bytes[at + 6] as u64;
    x = x * 256 + bytes[at + 5] as u64;
    x = x * 256 + bytes[at + 4] as u64;
    x = x * 256 + bytes[at + 3] as u64;
    x = x * 256 + bytes[at + 2] as u64;
    x = x * 256 + bytes[at + 1] as u64;
    x = x * 256 + bytes[at] as u64;
    proof {
        reveal_with_fuel(le_val, 9);
        let s = bytes@.subrange(at as int, at + 8);
        assert(s.drop_first() =~= bytes@.subrange(at + 1, at + 8));
        assert(s.drop_first().drop_first() =~= bytes@.subrange(at + 2, at + 8));
        assert(s.drop_first().drop_first().drop_first() =~= bytes@.subrange(at + 3, at + 8));
        assert(s.drop_first().drop_first().drop_first().drop_first() =~= bytes@.subrange(
            at + 4,
            at + 8,
        ));
        assert(s.drop_first().drop_first().drop_first().drop_first().drop_first() =~= bytes@
            .subrange(at + 5, at + 8));
        assert(s.drop_first().drop_first().drop_first().drop_first().drop_first().drop_first()
            =~= bytes@.subrange(at + 6, at + 8));
        assert(s.drop_first().drop_first().drop_first().drop_first().drop_first().drop_first()
            .drop_first() =~= bytes@.subrange(at + 7, at + 8));
        assert(s.drop_first().drop_first().drop_first().drop_first().drop_first().drop_first()
            .drop_first().drop_first() =~= bytes@.subrange(at + 8, at + 8));
    }
    x
}

/// Read the four-byte little-endian value at `at`.
fn read_u32_le(bytes: &Vec<u8>, at: usize) -> (x: u32)
    requires
        at + 4 <= bytes@.len(),
    ensures
        x as int == le_val(bytes@.subrange(at as int, at + 4)),
{
    // Bind the length so its machine bound is in scope for the indexing.
    let _n: usize = bytes.len();
    let mut x: u32 = bytes[at + 3] as u32;
    x = x * 256 + bytes[at + 2] as u32;
    x = x * 256 + bytes[at + 1] as u32;
    x = x * 256 + bytes[at] as u32;
    proof {
        reveal_with_fuel(le_val, 5);
        let s = bytes@.subrange(at as int, at + 4);
        assert(s.drop_first() =~= bytes@.subrange(at + 1, at + 4));
        assert(s.drop_first().drop_first() =~= bytes@.subrange(at + 2, at + 4));
        assert(s.drop_first().drop_first().drop_first() =~= bytes@.subrange(at + 3, at + 4));
        assert(s.drop_first().drop_first().drop_first().drop_first() =~= bytes@.subrange(
            at + 4,
            at + 4,
        ));
    }
    x
}

/// The sixteen-byte fixed layout of a time range: start, then duration,
/// both little-endian.
pub open spec fn time_range_enc(r: TimeRange) -> Seq<u8> {
    le_bytes(r.start as int, 8) + le_bytes(r.duration as int, 8)
}

/// The one time range a sixteen-byte string decodes to; `None` for any
/// other length.
pub open spec fn spec_decode_time_range(bs: Seq<u8>) -> Option<TimeRange> {
    if bs.len() == 16 {
        Some(
            TimeRange {
                start: le_val(bs.subrange(0, 8)) as u64,
                duration: le_val(bs.subrange(8, 16)) as u64,
            },
        )
    } else {
        None
    }
}

/// Decoding an encoded time range gives back the range, for every range,
/// zero-duration ones included.
pub proof fn lemma_time_range_round_trip(r: TimeRange)
    ensures
        spec_decode_time_range(time_range_enc(r)) == Some(r),
{
    lemma_le_bytes_len(r.start as int, 8);
    lemma_le_bytes_len(r.duration as int, 8);
    let bs = time_range_enc(r);
    assert(pow256(8) == 0x1_0000_0000_0000_0000) by {
        reveal_with_fuel(pow256, 9);
    }
    assert(bs.subrange(0, 8) =~= le_bytes(r.start as int, 8));
    assert(bs.subrange(8, 16) =~= le_bytes(r.duration as int, 8));
    lemma_le_val_le_bytes(r.start as int, 8);
    lemma_le_val_le_bytes(r.duration as int, 8);
}

/// Encode a time range in its fixed sixteen-byte layout.
pub fn encode_time_range(r: &TimeRange) -> (out: Vec<u8>)
    ensures
        out@ == time_range_enc(*r),
{
    let mut out: Vec<u8> = Vec::new();
    push_u64_le(&mut out, r.start);
    push_u64_le(&mut out, r.duration);
    proof {
        assert(out@ =~= time_range_enc(*r));
    }
    out
}

/// Decode a time range from its fixed sixteen-byte layout; `None` exactly
/// when the length is not sixteen.
pub fn decode_time_range(bytes: &Vec<u8>) -> (r: Option<TimeRange>)
    ensures
        match r {
            Some(tr) => spec_decode_time_range(bytes@) == Some(tr),
            None => spec_decode_time_range(bytes@) is None,
        },
{
    if bytes.len() != 16 {
        return None;
    }
    let start = read_u64_le(bytes, 0);
    let duration = read_u64_le(bytes, 8);
    Some(TimeRange { start, duration })
}

/// A character's code point.
pub open spec fn char_code(c: char) -> int {
    c as int
}

/// True when `v` is a code point some `char` carries.
pub open spec fn is_char_code(v: int) -> bool {
    exists|c: char| #[trigger] char_code(c) == v
}

/// The one `char` with code point `v`, when `is_char_code(v)`.
pub open spec fn code_to_char(v: int) -> char {
    choose|c: char| char_code(c) == v
}

/// Relies on `char::from_u32`: `Some` exactly on the code points a `char`
/// can carry, giving the character with that code.
#[verifier::external_body]
fn char_from_u32(x: u32) -> (r: Option<char>)
    ensures
        match r {
            Some(c) => char_code(c) == x,
            None => !is_char_code(x as int),
        },
{
    char::from_u32(x)
}

/// Relies on `String::push`: appends the one character.
#[verifier::external_body]
fn push_char(s: &mut String, c: char)
    ensures
        final(s)@ == old(s)@.push(c),
{
    s.push(c);
}

/// A name's characters, each as the four little-endian bytes of its code
/// point.
pub open spec fn chars_enc(s: Seq<char>) -> Seq<u8>
    decreases s.len(),
{
    if s.len() == 0 {
        Seq::empty()
    } else {
        le_bytes(char_code(s[0]), 4) + chars_enc(s.drop_first())
    }
}

/// The one character sequence a byte string encodes, read four bytes at a
/// time; `None` on a ragged length or a value that is no code point.
pub open spec fn chars_dec(bs: Seq<u8>) -> Option<Seq<char>>
    decreases bs.len(),
{
    if bs.len() == 0 {
        Some(Seq::empty())
    } else if bs.len() < 4 {
        None
    } else if is_char_code(le_val(bs.subrange(0, 4))) {
        match chars_dec(bs.skip(4)) {
            Some(rest) => Some(seq![code_to_char(le_val(bs.subrange(0, 4)))] + rest),
            None => None,
        }
    } else {
        None
    }
}

pub proof fn lemma_chars_enc_len(s: Seq<char>)
    ensures
        chars_enc(s).len() == 4 * s.len(),
    decreases s.len(),
{
    if s.len() > 0 {
        lemma_le_bytes_len(char_code(s[0]), 4);
        lemma_chars_enc_len(s.drop_first());
    }
}

/// Encoding one character after a prefix appends its four bytes.
pub proof fn lemma_chars_enc_snoc(s: Seq<char>, c: char)
    ensures
        chars_enc(s.push(c)) == chars_enc(s) + le_bytes(char_code(c), 4),
    decreases s.len(),
{
    if s.len() == 0 {
        reveal_with_fuel(chars_enc, 2);
        assert(s.push(c)[0] == c);
        assert(s.push(c).drop_first() =~= Seq::<char>::empty());
        assert(chars_enc(s.push(c)) =~= chars_enc(s) + le_bytes(char_code(c), 4));
    } else {
        lemma_chars_enc_snoc(s.drop_first(), c);
        assert(s.push(c).drop_first() =~= s.drop_first().push(c));
        assert(s.push(c)[0] == s[0]);
        assert(chars_enc(s.push(c)) == le_bytes(char_code(s[0]), 4) + chars_enc(
            s.drop_first().push(c),
        ));
        assert(chars_enc(s.push(c)) =~= chars_enc(s) + le_bytes(char_code(c), 4));
    }
}

/// A code point fits four bytes.
proof fn lemma_char_code_bound(c: char)
    ensures
        0 <= char_code(c) <= 0x10FFFF,
{
}

/// One step of the four-byte character decode.
proof fn lemma_chars_dec_step(bs: Seq<u8>)
    requires
        bs.len() >= 4,
    ensures
        chars_dec(bs) == (if is_char_code(le_val(bs.subrange(0, 4))) {
            match chars_dec(bs.skip(4)) {
                Some(rest) => Some(seq![code_to_char(le_val(bs.subrange(0, 4)))] + rest),
                None => None::<Seq<char>>,
            }
        } else {
            None::<Seq<char>>
        }),
{
}

/// Decoding an encoded name gives back the name, character for character.
pub proof fn lemma_chars_round_trip(s: Seq<char>)
    ensures
        chars_dec(chars_enc(s)) == Some(s),
    decreases s.len(),
{
    if s.len() == 0 {
        assert(chars_enc(s).len() == 0);
    } else {
        let code = char_code(s[0]);
        lemma_char_code_bound(s[0]);
        let bs = chars_enc(s);
        lemma_le_bytes_len(code, 4);
        lemma_chars_enc_len(s);
        assert(bs.subrange(0, 4) =~= le_bytes(code, 4));
        assert(pow256(4) == 0x1_0000_0000) by {
            reveal_with_fuel(pow256, 5);
        }
        lemma_le_val_le_bytes(code, 4);
        assert(is_char_code(code));
        assert(code_to_char(code) == s[0]);
        assert(bs.skip(4) =~= chars_enc(s.drop_first()));
        lemma_chars_round_trip(s.drop_first());
        lemma_chars_dec_step(bs);
        assert(seq![s[0]] + s.drop_first() =~= s);
    }
}

/// The fixed layout of a clip: the sixteen identifier bytes, the source
/// and timeline ranges, the track index, then the name's length and its
/// code points, all little-endian.
pub open spec fn clip_enc(c: ClipView) -> Seq<u8> {
    c.asset_id + time_range_enc(c.source_range) + time_range_enc(c.timeline_range) + le_bytes(
        c.track_index as int,
        4,
    ) + le_bytes(c.name.len() as int, 8) + chars_enc(c.name)
}

/// The one clip a byte string decodes to under the fixed layout; `None`
/// when the length or a name group cannot be read back.
pub open spec fn spec_decode_clip(bs: Seq<u8>) -> Option<ClipView> {
    if bs.len() < 60 {
        None
    } else if bs.len() != 60 + 4 * le_val(bs.subrange(52, 60)) {
        None
    } else {
        match chars_dec(bs.skip(60)) {
            Some(name) => Some(
                ClipView {
                    asset_id: bs.subrange(0, 16),
                    source_range: TimeRange {
                        start: le_val(bs.subrange(16, 24)) as u64,
                        duration: le_val(bs.subrange(24, 32)) as u64,
                    },
                    timeline_range: TimeRange {
                        start: le_val(bs.subrange(32, 40)) as u64,
                        duration: le_val(bs.subrange(40, 48)) as u64,
                    },
                    track_index: le_val(bs.subrange(48, 52)) as u32,
                    name: name,
                },
            ),
            None => None,
        }
    }
}

/// Decoding an encoded clip gives back a clip equal in all fields, for
/// every clip whose identifier has its sixteen bytes and whose name length
/// fits the length field.
pub proof fn lemma_clip_round_trip(c: ClipView)
    requires
        c.asset_id.len() == 16,
        c.name.len() <= u64::MAX,
    ensures
        spec_decode_clip(clip_enc(c)) == Some(c),
{
    let bs = clip_enc(c);
    lemma_le_bytes_len(c.source_range.start as int, 8);
    lemma_le_bytes_len(c.source_range.duration as int, 8);
    lemma_le_bytes_len(c.timeline_range.start as int, 8);
    lemma_le_bytes_len(c.timeline_range.duration as int, 8);
    lemma_le_bytes_len(c.track_index as int, 4);
    lemma_le_bytes_len(c.name.len() as int, 8);
    lemma_chars_enc_len(c.name);
    assert(bs.len() == 60 + 4 * c.name.len());
    assert(pow256(4) == 0x1_0000_0000) by {
        reveal_with_fuel(pow256, 5);
    }
    assert(pow256(8) == 0x1_0000_0000_0000_0000) by {
        reveal_with_fuel(pow256, 9);
    }
    assert(bs.subrange(0, 16) =~= c.asset_id);
    assert(bs.subrange(16, 24) =~= le_bytes(c.source_range.start as int, 8));
    assert(bs.subrange(24, 32) =~= le_bytes(c.source_range.duration as int, 8));
    assert(bs.subrange(32, 40) =~= le_bytes(c.timeline_range.start as int, 8));
    assert(bs.subrange(40, 48) =~= le_bytes(c.timeline_range.duration as int, 8));
    assert(bs.subrange(48, 52) =~= le_bytes(c.track_index as int, 4));
    assert(bs.subrange(52, 60) =~= le_bytes(c.name.len() as int, 8));
    assert(bs.skip(60) =~= chars_enc(c.name));
    lemma_le_val_le_bytes(c.source_range.start as int, 8);
    lemma_le_val_le_bytes(c.source_range.duration as int, 8);
    lemma_le_val_le_bytes(c.timeline_range.start as int, 8);
    lemma_le_val_le_bytes(c.timeline_range.duration as int, 8);
    lemma_le_val_le_bytes(c.track_index as int, 4);
    lemma_le_val_le_bytes(c.name.len() as int, 8);
    lemma_chars_round_trip(c.name);
    assert(spec_decode_clip(bs) == Some(c));
}

/// Encode a clip in its fixed layout.
pub fn encode_clip(c: &Clip) -> (out: Vec<u8>)
    ensures
        out@ == clip_enc(c@),
{
    let mut out: Vec<u8> = Vec::new();
    let mut i: usize = 0;
    while i < 16
        invariant
            i <= 16,
            out@ =~= c.asset_id@.take(i as int),
        decreases 16 - i,
    {
        out.push(c.asset_id[i]);
        i = i + 1;
    }
    proof {
        assert(out@ =~= c@.asset_id);
    }
    push_u64_le(&mut out, c.source_range.start);
    push_u64_le(&mut out, c.source_range.duration);
    push_u64_le(&mut out, c.timeline_range.start);
    push_u64_le(&mut out, c.timeline_range.duration);
    push_u32_le(&mut out, c.track_index);
    let name_count = c.name.as_str().unicode_len();
    push_u64_le(&mut out, name_count as u64);
    let ghost header = out@;
    let mut k: usize = 0;
    while k < name_count
        invariant
            k <= name_count,
            name_count == c@.name.len(),
            out@ == header + chars_enc(c@.name.take(k as int)),
        decreases name_count - k,
    {
        let ch = c.name.as_str().get_char(k);
        push_u32_le(&mut out, ch as u32);
        proof {
            lemma_chars_enc_snoc(c@.name.take(k as int), ch);
            assert(c@.name.take(k as int).push(ch) =~= c@.name.take(k + 1 as int));
            assert(out@ =~= header + chars_enc(c@.name.take(k + 1 as int)));
        }
        k = k + 1;
    }
    proof {
        assert(c@.name.take(name_count as int) =~= c@.name);
        assert(out@ =~= clip_enc(c@));
    }
    out
}

/// Decode a clip from its fixed layout; `None` exactly when no clip
/// encodes to the given bytes.
pub fn decode_clip(bytes: &Vec<u8>) -> (r: Option<Clip>)
    ensures
        match r {
            Some(c) => spec_decode_clip(bytes@) == Some(c@),
            None => spec_decode_clip(bytes@) is None,
        },
{
    let n = bytes.len();
    if n < 60 {
        return None;
    }
    let name_len = read_u64_le(bytes, 52);
    if (n - 60) % 4 != 0 || ((n - 60) / 4) as u64 != name_len {
        proof {
            lemma_le_val_bound(bytes@.subrange(52, 60));
        }
        return None;
    }
    let groups = (n - 60) / 4;
    let source_range = TimeRange {
        start: read_u64_le(bytes, 16),
        duration: read_u64_le(bytes, 24),
    };
    let timeline_range = TimeRange {
        start: read_u64_le(bytes, 32),
        duration: read_u64_le(bytes, 40),
    };
    let track_index = read_u32_le(bytes, 48);
    let mut name = String::new();
    let mut k: usize = 0;
    while k < groups
        invariant
            k <= groups,
            n == bytes@.len(),
            n == 60 + 4 * groups,
            name@.len() == k,
            chars_dec(bytes@.skip(60)) == (match chars_dec(bytes@.skip(60 + 4 * k)) {
                Some(rest) => Some(name@ + rest),
                None => None::<Seq<char>>,
            }),
        decreases groups - k,
    {
        let x = read_u32_le(bytes, 60 + 4 * k);
        let ghost tail = bytes@.skip(60 + 4 * k as int);
        proof {
            assert(tail.subrange(0, 4) =~= bytes@.subrange(60 + 4 * k, 60 + 4 * k + 4));
            assert(tail.skip(4) =~= bytes@.skip(60 + 4 * (k + 1)));
            lemma_chars_dec_step(tail);
        }
        match char_from_u32(x) {
            Some(ch) => {
                proof {
                    assert(is_char_code(x as int));
                    assert(code_to_char(x as int) == ch);
                }
                push_char(&mut name, ch);
                proof {
                    assert(name@.drop_last() + seq![ch] =~= name@);
                    if chars_dec(bytes@.skip(60 + 4 * (k + 1))) is Some {
                        let rest = chars_dec(bytes@.skip(60 + 4 * (k + 1)))->Some_0;
                        assert(name@.drop_last() + (seq![ch] + rest) =~= name@ + rest);
                    }
                }
            },
            None => {
                proof {
                    assert(!is_char_code(x as int));
                }
                return None;
            },
        }
        k = k + 1;
    }
    proof {
        assert(bytes@.skip(60 + 4 * groups) =~= Seq::<u8>::empty());
        assert(chars_dec(bytes@.skip(60)) == Some(name@));
        lemma_le_val_bound(bytes@.subrange(16, 24));
        lemma_le_val_bound(bytes@.subrange(24, 32));
        lemma_le_val_bound(bytes@.subrange(32, 40));
        lemma_le_val_bound(bytes@.subrange(40, 48));
        lemma_le_val_bound(bytes@.subrange(48, 52));
        assert(pow256(4) == 0x1_0000_0000) by {
            reveal_with_fuel(pow256, 5);
        }
        assert(pow256(8) == 0x1_0000_0000_0000_0000) by {
            reveal_with_fuel(pow256, 9);
        }
    }
    let mut asset_id: [u8; 16] = [0u8; 16];
    let mut j: usize = 0;
    while j < 16
        invariant
            j <= 16,
            asset_id@.len() == 16,
            bytes@.len() >= 60,
            forall|i: int| 0 <= i < j ==> #[trigger] asset_id@[i] == bytes@[i],
        decreases 16 - j,
    {
        asset_id[j] = bytes[j];
        j = j + 1;
    }
    proof {
        assert(asset_id@ =~= bytes@.subrange(0, 16));
    }
    Some(Clip { asset_id, source_range, timeline_range, track_index, name })
}


} // verus!

