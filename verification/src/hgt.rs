//! SRTM HGT tiles: the canonical tile file name, its parser, and the decoding of
//! the raw big-endian samples.
//!
//! An HGT tile holds signed 16-bit big-endian samples, row-major, north to south
//! then west to east. Void cells are encoded as `-32768`. The grid size is inferred
//! from the byte count: 1201×1201 (SRTM3) or 3601×3601 (SRTM1).
use vstd::prelude::*;
use vstd::string::StringSliceAdditionalSpecFns;
use crate::text::{digit_char, decimal, pow10, push_char, push_padded_decimal, zero_pad};

verus! {

broadcast use vstd::utf8::is_ascii_chars_encode_utf8;

// ── tile name ──────────────────────────────────────────────────────────────

/// The magnitude of a signed degree.
pub open spec fn abs_int(v: int) -> int {
    if v < 0 { -v } else { v }
}

/// The canonical tile stem for a south-west corner, e.g. `S23W043`: hemisphere
/// letter, latitude zero-padded to two digits, hemisphere letter, longitude
/// zero-padded to three digits.
pub open spec fn hgt_stem(lat: int, lon: int) -> Seq<char> {
    seq![if lat < 0 { 'S' } else { 'N' }]
        + zero_pad(decimal(abs_int(lat) as nat), 2)
        + seq![if lon < 0 { 'W' } else { 'E' }]
        + zero_pad(decimal(abs_int(lon) as nat), 3)
}

/// The canonical SRTM HGT file name for a tile's SW corner (e.g. `S23W043.hgt`).
pub fn hgt_name(sw_lat: i32, sw_lon: i32) -> (r: String)
    requires
        sw_lat != i32::MIN,
        sw_lon != i32::MIN,
    ensures
        r@ == hgt_stem(sw_lat as int, sw_lon as int) + ".hgt"@,
{
    let (ns, lat) = if sw_lat < 0 {
        ('S', -sw_lat)
    } else {
        ('N', sw_lat)
    };
    let (ew, lon) = if sw_lon < 0 {
        ('W', -sw_lon)
    } else {
        ('E', sw_lon)
    };
    let mut s = String::new();
    push_char(&mut s, ns);
    push_padded_decimal(&mut s, lat as u32, 2);
    push_char(&mut s, ew);
    push_padded_decimal(&mut s, lon as u32, 3);
    s.append(".hgt");
    s
}

// ── tile name parser ───────────────────────────────────────────────────────

/// ASCII decimal digit.
pub open spec fn is_digit(b: u8) -> bool {
    48 <= b <= 57
}

/// Every byte is an ASCII digit.
pub open spec fn all_digits(b: Seq<u8>) -> bool {
    forall|i: int| 0 <= i < b.len() ==> is_digit(#[trigger] b[i])
}

/// The value of a run of ASCII digits, most significant first.
pub open spec fn digits_value(b: Seq<u8>) -> int
    decreases b.len(),
{
    if b.len() == 0 {
        0
    } else {
        10 * digits_value(b.drop_last()) + (b.last() - 48)
    }
}

/// What `str::parse::<i32>` yields for a short text (at most three bytes, so no
/// overflow): an optional `+`/`-` sign followed by at least one digit, nothing else.
pub open spec fn parse_short_int(b: Seq<u8>) -> Option<int> {
    if b.len() >= 1 && (b[0] == 43 || b[0] == 45) {
        let rest = b.drop_first();
        if rest.len() >= 1 && all_digits(rest) {
            Some(if b[0] == 45 { -digits_value(rest) } else { digits_value(rest) })
        } else {
            None
        }
    } else if b.len() >= 1 && all_digits(b) {
        Some(digits_value(b))
    } else {
        None
    }
}

/// Sign of a hemisphere letter: `pos`/`pos_lower` give `+1`, `neg`/`neg_lower` `-1`.
pub open spec fn hemisphere_sign(b: u8, pos: u8, pos_lower: u8, neg: u8, neg_lower: u8) -> Option<int> {
    if b == pos || b == pos_lower {
        Some(1)
    } else if b == neg || b == neg_lower {
        Some(-1)
    } else {
        None
    }
}

/// The SW corner `(lat, lon)` encoded in the bytes of a tile file stem: at least
/// seven bytes, `N`/`S` (either case), a two-byte latitude, `E`/`W` (either case), a
/// three-byte longitude; the rest of the stem is ignored.
pub open spec fn parse_hgt_stem(b: Seq<u8>) -> Option<(i32, i32)> {
    if b.len() < 7 {
        None
    } else {
        match (
            hemisphere_sign(b[0], 78, 110, 83, 115),
            parse_short_int(b.subrange(1, 3)),
            hemisphere_sign(b[3], 69, 101, 87, 119),
            parse_short_int(b.subrange(4, 7)),
        ) {
            (Some(s1), Some(v1), Some(s2), Some(v2)) => Some(((s1 * v1) as i32, (s2 * v2) as i32)),
            _ => None,
        }
    }
}

proof fn lemma_digits_value_bound(b: Seq<u8>)
    requires
        all_digits(b),
    ensures
        0 <= digits_value(b) < pow10(b.len()),
    decreases b.len(),
{
    if b.len() > 0 {
        let p = b.drop_last();
        assert(all_digits(p)) by {
            assert forall|i: int| 0 <= i < p.len() implies is_digit(#[trigger] p[i]) by {
                assert(p[i] == b[i]);
            }
        }
        lemma_digits_value_bound(p);
        assert(is_digit(b[b.len() - 1]));
        assert(pow10(b.len()) == 10 * pow10(p.len()));
    }
}

/// Parses the bytes `b[start..end]` (at most three) as `str::parse::<i32>` does.
fn parse_short_int_exec(b: &[u8], start: usize, end: usize) -> (r: Option<i32>)
    requires
        start <= end <= b@.len(),
        end - start <= 3,
    ensures
        r == (match parse_short_int(b@.subrange(start as int, end as int)) {
            Some(v) => Some(v as i32),
            None => None,
        }),
        r is Some ==> -999 <= r->Some_0 <= 999,
        parse_short_int(b@.subrange(start as int, end as int)) matches Some(v) ==> -999 <= v <= 999,
{
    let ghost s = b@.subrange(start as int, end as int);
    if start == end {
        return None;
    }
    let first = b[start];
    assert(s[0] == first);
    let negative = first == 45;
    let digits_start = if first == 43 || first == 45 { start + 1 } else { start };
    let ghost ds = b@.subrange(digits_start as int, end as int);
    proof {
        if first == 43 || first == 45 {
            assert(ds =~= s.drop_first());
        } else {
            assert(ds =~= s);
        }
    }
    if digits_start == end {
        assert(first == 43 || first == 45);
        assert(s.drop_first().len() == 0);
        assert(parse_short_int(s) is None);
        return None;
    }
    let mut value: i32 = 0;
    let mut i = digits_start;
    while i < end
        invariant
            digits_start <= i <= end <= b@.len(),
            end - digits_start <= 3,
            ds == b@.subrange(digits_start as int, end as int),
            s == b@.subrange(start as int, end as int),
            s.len() >= 1,
            s[0] == first,
            (first == 43 || first == 45) ==> ds == s.drop_first(),
            !(first == 43 || first == 45) ==> ds == s,
            all_digits(b@.subrange(digits_start as int, i as int)),
            value == digits_value(b@.subrange(digits_start as int, i as int)),
            0 <= value < pow10((i - digits_start) as nat),
        decreases end - i,
    {
        let c = b[i];
        if c < 48 || c > 57 {
            assert(ds[i - digits_start] == c);
            assert(!all_digits(ds));
            return None;
        }
        proof {
            let pre = b@.subrange(digits_start as int, i as int);
            let post = b@.subrange(digits_start as int, i + 1);
            assert(post.drop_last() =~= pre);
            assert(pow10((i + 1 - digits_start) as nat) == 10 * pow10((i - digits_start) as nat));
            assert(pow10(3) == 1000) by {
                reveal_with_fuel(pow10, 4);
            }
            assert(pow10((i - digits_start) as nat) <= 100) by {
                reveal_with_fuel(pow10, 3);
            }
            assert(all_digits(post)) by {
                assert forall|k: int| 0 <= k < post.len() implies is_digit(#[trigger] post[k]) by {
                    if k < pre.len() {
                        assert(post[k] == pre[k]);
                    }
                }
            }
        }
        value = value * 10 + (c - 48) as i32;
        i = i + 1;
    }
    assert(b@.subrange(digits_start as int, end as int) =~= ds);
    proof {
        assert(pow10(3) == 1000 && pow10(2) == 100 && pow10(1) == 10 && pow10(0) == 1) by {
            reveal_with_fuel(pow10, 4);
        }
        assert(value < 1000);
    }
    if negative {
        Some(-value)
    } else {
        Some(value)
    }
}

/// Sign of a hemisphere letter byte.
fn hemisphere_sign_exec(b: u8, pos: u8, pos_lower: u8, neg: u8, neg_lower: u8) -> (r: Option<i32>)
    ensures
        r == (match hemisphere_sign(b, pos, pos_lower, neg, neg_lower) {
            Some(v) => Some(v as i32),
            None => None,
        }),
{
    if b == pos || b == pos_lower {
        Some(1)
    } else if b == neg || b == neg_lower {
        Some(-1)
    } else {
        None
    }
}

/// Parses a tile file stem such as `S23W043` into its SW corner `(lat, lon)`;
/// `None` when it does not follow the HGT naming scheme.
pub fn parse_hgt_name(stem: &str) -> (r: Option<(i32, i32)>)
    ensures
        r == parse_hgt_stem(stem.spec_bytes()),
{
    let bytes = stem.as_bytes();
    if bytes.len() < 7 {
        return None;
    }
    let lat_sign = match hemisphere_sign_exec(bytes[0], 78, 110, 83, 115) {
        Some(s) => s,
        None => return None,
    };
    let lat = match parse_short_int_exec(bytes, 1, 3) {
        Some(v) => v,
        None => return None,
    };
    let lon_sign = match hemisphere_sign_exec(bytes[3], 69, 101, 87, 119) {
        Some(s) => s,
        None => return None,
    };
    let lon = match parse_short_int_exec(bytes, 4, 7) {
        Some(v) => v,
        None => return None,
    };
    assert(lat_sign == 1 || lat_sign == -1);
    assert(lon_sign == 1 || lon_sign == -1);
    assert(-999 <= lat <= 999 && -999 <= lon <= 999);
    Some((lat_sign * lat, lon_sign * lon))
}

} // verus!

verus! {

// ── name ↔ parser law ─────────────────────────────────────────────────────

/// The byte of each (ASCII) character.
pub open spec fn ascii_bytes(s: Seq<char>) -> Seq<u8> {
    Seq::new(s.len(), |i: int| s[i] as u8)
}

proof fn lemma_decimal_digits(n: nat)
    ensures
        is_ascii_chars_of(decimal(n)),
        all_digits(ascii_bytes(decimal(n))),
        digits_value(ascii_bytes(decimal(n))) == n,
    decreases n,
{
    let b = ascii_bytes(decimal(n));
    let d = (n % 10) as int;
    assert(digit_char(d) as u8 == (d + 48) as u8);
    if n < 10 {
        assert(b.drop_last() =~= Seq::<u8>::empty());
        assert(b.last() == (n + 48) as u8);
        assert(digits_value(b.drop_last()) == 0);
        assert(digits_value(b) == 10 * digits_value(b.drop_last()) + (b.last() - 48));
    } else {
        lemma_decimal_digits(n / 10);
        let p = ascii_bytes(decimal(n / 10));
        assert(b.drop_last() =~= p);
        assert(b.last() == (d + 48) as u8);
        assert(digits_value(b) == 10 * digits_value(b.drop_last()) + (b.last() - 48));
        assert(10 * (n / 10) + n % 10 == n);
        assert(all_digits(b)) by {
            assert forall|i: int| 0 <= i < b.len() implies is_digit(#[trigger] b[i]) by {
                if i < p.len() {
                    assert(b[i] == p[i]);
                }
            }
        }
    }
}

/// Every character is ASCII.
pub open spec fn is_ascii_chars_of(s: Seq<char>) -> bool {
    forall|i: int| 0 <= i < s.len() ==> '\0' <= #[trigger] s[i] <= '\u{7f}'
}

proof fn lemma_zeros_value(z: Seq<u8>, x: Seq<u8>)
    requires
        forall|i: int| 0 <= i < z.len() ==> #[trigger] z[i] == 48u8,
    ensures
        digits_value(z + x) == digits_value(x),
    decreases x.len(), z.len(),
{
    if x.len() == 0 {
        assert(z + x =~= z);
        if z.len() > 0 {
            lemma_zeros_value(z.drop_last(), x);
            assert(z.drop_last() + x =~= z.drop_last());
        }
    } else {
        lemma_zeros_value(z, x.drop_last());
        assert((z + x).drop_last() =~= z + x.drop_last());
    }
}

proof fn lemma_padded_digits(n: nat, w: nat)
    requires
        decimal(n).len() <= w,
    ensures
        zero_pad(decimal(n), w).len() == w,
        is_ascii_chars_of(zero_pad(decimal(n), w)),
        all_digits(ascii_bytes(zero_pad(decimal(n), w))),
        digits_value(ascii_bytes(zero_pad(decimal(n), w))) == n,
{
    lemma_decimal_digits(n);
    let d = decimal(n);
    let p = zero_pad(d, w);
    let b = ascii_bytes(p);
    let k = w - d.len();
    let z = Seq::new(k as nat, |i: int| 48u8);
    assert(b =~= z + ascii_bytes(d));
    lemma_zeros_value(z, ascii_bytes(d));
    let db = ascii_bytes(d);
    assert(all_digits(b)) by {
        assert forall|i: int| 0 <= i < b.len() implies is_digit(#[trigger] b[i]) by {
            if i >= k {
                assert(b[i] == db[i - k]);
            }
        }
    }
}

/// Parsing the stem of the canonical tile name gives back the SW corner, for every
/// corner whose latitude fits two digits and whose longitude fits three.
pub proof fn law_hgt_name_round_trip(lat: i32, lon: i32)
    requires
        -99 <= lat <= 99,
        -999 <= lon <= 999,
    ensures
        parse_hgt_stem(vstd::utf8::encode_utf8(hgt_stem(lat as int, lon as int))) == Some((lat, lon)),
{
    let alat = abs_int(lat as int) as nat;
    let alon = abs_int(lon as int) as nat;
    assert(pow10(2) == 100 && pow10(3) == 1000) by {
        reveal_with_fuel(pow10, 4);
    }
    crate::text::lemma_decimal_len_bound(alat, 2);
    crate::text::lemma_decimal_len_bound(alon, 3);
    lemma_padded_digits(alat, 2);
    lemma_padded_digits(alon, 3);
    let la = zero_pad(decimal(alat), 2);
    let lo = zero_pad(decimal(alon), 3);
    let ns = if lat < 0 { 'S' } else { 'N' };
    let ew = if lon < 0 { 'W' } else { 'E' };
    let stem = hgt_stem(lat as int, lon as int);
    assert(stem =~= seq![ns] + la + seq![ew] + lo);
    assert(stem.len() == 7);
    assert(vstd::utf8::is_ascii_chars(stem)) by {
        assert forall|i: int| 0 <= i < stem.len() implies '\0' <= #[trigger] stem[i] <= '\u{7f}' by {
            if 1 <= i < 3 {
                assert(stem[i] == la[i - 1]);
            } else if 4 <= i < 7 {
                assert(stem[i] == lo[i - 4]);
            }
        }
    }
    let b = vstd::utf8::encode_utf8(stem);
    assert(b =~= ascii_bytes(stem));
    assert(b.subrange(1, 3) =~= ascii_bytes(la));
    assert(b.subrange(4, 7) =~= ascii_bytes(lo));
    let bla = ascii_bytes(la);
    let blo = ascii_bytes(lo);
    assert(is_digit(bla[0]));
    assert(is_digit(blo[0]));
    assert(parse_short_int(bla) == Some(alat as int));
    assert(parse_short_int(blo) == Some(alon as int));
    assert(b[0] == (if lat < 0 { 83u8 } else { 78u8 }));
    assert(b[3] == (if lon < 0 { 87u8 } else { 69u8 }));
    let s1: int = if lat < 0 { -1 } else { 1 };
    let s2: int = if lon < 0 { -1 } else { 1 };
    assert(hemisphere_sign(b[0], 78, 110, 83, 115) == Some(s1));
    assert(hemisphere_sign(b[3], 69, 101, 87, 119) == Some(s2));
    assert(s1 * (alat as int) == lat as int);
    assert(s2 * (alon as int) == lon as int);
}

} // verus!

verus! {

// ── raw tile decoding ─────────────────────────────────────────────────────

/// Grid size of an SRTM3 (3 arc-second) tile.
pub const SRTM3_SIZE: usize = 1201;

/// Grid size of an SRTM1 (1 arc-second) tile.
pub const SRTM1_SIZE: usize = 3601;

/// The raw sample value that marks a void cell.
pub const VOID_SAMPLE: i16 = -32768;

/// The samples of a decoded HGT tile: `size × size`, row-major, north to south then
/// west to east; `None` marks a void cell.
pub struct HgtTile {
    /// Grid size (rows = cols): 1201 or 3601.
    pub size: usize,
    /// Row-major samples, `size * size` of them.
    pub samples: Vec<Option<i16>>,
}

/// Why a byte buffer is not an HGT tile.
#[derive(Debug, Clone, Copy, PartialEq, Eq, Structural)]
pub enum HgtError {
    /// The byte count is neither 2·1201² nor 2·3601²; carries the byte count.
    UnexpectedSize(usize),
}

/// The grid size implied by a byte count, if it is one of the two HGT sizes.
pub open spec fn hgt_grid_size(len: nat) -> Option<nat> {
    if len == 2 * 1201 * 1201 {
        Some(1201)
    } else if len == 2 * 3601 * 3601 {
        Some(3601)
    } else {
        None
    }
}

/// The signed 16-bit big-endian value of two bytes (`i16::from_be_bytes`).
pub open spec fn be_i16(hi: u8, lo: u8) -> int {
    let v = hi * 256 + lo;
    if v >= 32768 { v - 65536 } else { v }
}

/// One decoded sample: the big-endian value, or `None` for the void marker.
pub open spec fn hgt_sample(hi: u8, lo: u8) -> Option<i16> {
    if be_i16(hi, lo) == -32768 {
        None
    } else {
        Some(be_i16(hi, lo) as i16)
    }
}

/// The 16-bit two's-complement pattern of a sample, as an unsigned number.
pub open spec fn bit_pattern(v: i16) -> int {
    if v < 0 { v + 65536 } else { v as int }
}

/// A decoded sample is the signed value whose big-endian bytes are the two input
/// bytes: its 16-bit pattern has `hi` as high byte and `lo` as low byte. Only the
/// pattern `0x80 0x00` (-32768) is void.
pub proof fn law_sample_is_big_endian_value(hi: u8, lo: u8)
    ensures
        hgt_sample(hi, lo) is None <==> (hi == 0x80 && lo == 0),
        hgt_sample(hi, lo) matches Some(v) ==> bit_pattern(v) / 256 == hi && bit_pattern(v) % 256 == lo,
        hgt_sample(hi, lo) matches Some(v) ==> (hi < 0x80 <==> v >= 0),
{
    let u = hi * 256 + lo;
    assert(u / 256 == hi && u % 256 == lo) by (nonlinear_arith)
        requires
            u == hi * 256 + lo,
            0 <= lo < 256,
            0 <= hi,
    ;
    assert(u >= 32768 <==> hi >= 128) by (nonlinear_arith)
        requires
            u == hi * 256 + lo,
            0 <= lo < 256,
            0 <= hi,
    ;
    assert(u < 65536) by (nonlinear_arith)
        requires
            u == hi * 256 + lo,
            0 <= lo < 256,
            0 <= hi < 256,
    ;
    if u == 32768 {
        assert(hi == 128 && lo == 0);
    }
    if hi == 128 && lo == 0 {
        assert(u == 32768);
    }
}

fn decode_sample(hi: u8, lo: u8) -> (r: Option<i16>)
    ensures
        r == hgt_sample(hi, lo),
{
    let v: i32 = (hi as i32) * 256 + (lo as i32);
    let v: i32 = if v >= 32768 { v - 65536 } else { v };
    if v == -32768 {
        None
    } else {
        Some(v as i16)
    }
}

/// Decodes an SRTM HGT tile. Succeeds exactly when the byte count is 2·1201² or
/// 2·3601²; the grid size follows from it, and sample `i` is decoded from bytes
/// `2i` and `2i + 1`.
pub fn decode_hgt(bytes: &[u8]) -> (r: Result<HgtTile, HgtError>)
    ensures
        hgt_grid_size(bytes@.len()) is None ==> r == Err::<HgtTile, HgtError>(
            HgtError::UnexpectedSize(bytes@.len() as usize),
        ),
        hgt_grid_size(bytes@.len()) matches Some(n) ==> {
            &&& r is Ok
            &&& r->Ok_0.size == n
            &&& r->Ok_0.samples@.len() == n * n
            &&& forall|i: int|
                0 <= i < n * n ==> #[trigger] r->Ok_0.samples@[i] == hgt_sample(
                    bytes@[2 * i],
                    bytes@[2 * i + 1],
                )
            &&& forall|i: int|
                0 <= i < n * n ==> {
                    &&& (#[trigger] r->Ok_0.samples@[i] is None <==> (bytes@[2 * i] == 0x80 && bytes@[2 * i + 1] == 0))
                    &&& (r->Ok_0.samples@[i] matches Some(v) ==> bit_pattern(v) / 256 == bytes@[2 * i]
                        && bit_pattern(v) % 256 == bytes@[2 * i + 1])
                }
        },
{
    let len = bytes.len();
    let n: usize = if len == 2 * 1201 * 1201 {
        SRTM3_SIZE
    } else if len == 2 * 3601 * 3601 {
        SRTM1_SIZE
    } else {
        return Err(HgtError::UnexpectedSize(len));
    };
    let count = n * n;
    let mut samples: Vec<Option<i16>> = Vec::with_capacity(count);
    let mut i: usize = 0;
    while i < count
        invariant
            count == n * n,
            bytes@.len() == 2 * count,
            len == bytes@.len(),
            i <= count,
            samples@.len() == i,
            forall|k: int| 0 <= k < i ==> #[trigger] samples@[k] == hgt_sample(bytes@[2 * k], bytes@[2 * k + 1]),
        decreases count - i,
    {
        let s = decode_sample(bytes[2 * i], bytes[2 * i + 1]);
        samples.push(s);
        i = i + 1;
    }
    proof {
        assert forall|k: int| 0 <= k < count implies {
            &&& (#[trigger] samples@[k] is None <==> (bytes@[2 * k] == 0x80 && bytes@[2 * k + 1] == 0))
            &&& (samples@[k] matches Some(v) ==> bit_pattern(v) / 256 == bytes@[2 * k]
                && bit_pattern(v) % 256 == bytes@[2 * k + 1])
        } by {
            law_sample_is_big_endian_value(bytes@[2 * k], bytes@[2 * k + 1]);
        }
    }
    Ok(HgtTile { size: n, samples })
}

} // verus!
