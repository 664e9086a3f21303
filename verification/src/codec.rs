//! Conversion between one point and one geohash.

use vstd::prelude::*;
use vstd::string::*;
use crate::alphabet::{decode_symbol, is_symbol, lemma_symbol_value, symbol_text, symbol_value};
use crate::error::GeohashError;
use crate::grid::{
    all_symbols, bits_of_point, bits_of_text, bits_value, cell_of, chunk_value, geohash_of, text_of_bits,
    valid_coordinate, value_bit, world, Cell, Span, LAT_MAX, LAT_MIN, LAT_SPAN, LON_MAX, LON_MIN,
    LON_SPAN, MAX_LEN,
};

verus! {

/// A point: longitude `x` and latitude `y`, in units of 2^-32 degree.
#[derive(Clone, Copy, Debug, PartialEq, Eq, Structural)]
pub struct Coordinate {
    pub x: i64,
    pub y: i64,
}

/// What a geohash decodes to: the centre of its cell, and half the cell's
/// width along each axis.
#[derive(Clone, Copy, Debug, PartialEq, Eq, Structural)]
pub struct Decoded {
    pub center: Coordinate,
    pub lon_error: i64,
    pub lat_error: i64,
}

/// The centre and the error margins of a cell.
pub open spec fn decoded_of(cell: Cell) -> Decoded {
    Decoded {
        center: Coordinate { x: cell.lon.mid() as i64, y: cell.lat.mid() as i64 },
        lon_error: (cell.lon.width / 2) as i64,
        lat_error: (cell.lat.width / 2) as i64,
    }
}

/// What `encode` returns: a point outside the legal range is refused first,
/// then a length that is zero or above the maximum.
pub open spec fn encode_spec(lon: int, lat: int, len: nat) -> Result<Seq<char>, GeohashError> {
    if !valid_coordinate(lon, lat) {
        Err(GeohashError::InvalidCoordinate)
    } else if len == 0 || len > MAX_LEN {
        Err(GeohashError::InvalidLength)
    } else {
        Ok(geohash_of(lon, lat, len))
    }
}

/// What `decode` returns: an empty text is refused first, then one with a
/// character that is no symbol, wherever it stands, then one above the
/// maximum length.
pub open spec fn decode_spec(text: Seq<char>) -> Result<Decoded, GeohashError> {
    if text.len() == 0 {
        Err(GeohashError::EmptyInput)
    } else if !all_symbols(text) {
        Err(GeohashError::InvalidGeohashCharacter)
    } else if text.len() > MAX_LEN {
        Err(GeohashError::InvalidLength)
    } else {
        Ok(decoded_of(cell_of(bits_of_text(text))))
    }
}

/// Whether an encoding result is the one that `expected` describes.
pub open spec fn text_result_is(
    r: Result<String, GeohashError>,
    expected: Result<Seq<char>, GeohashError>,
) -> bool {
    match r {
        Ok(s) => expected == Ok::<Seq<char>, GeohashError>(s@),
        Err(e) => expected == Err::<Seq<char>, GeohashError>(e),
    }
}

/// The current cell of a bisection in progress.
#[derive(Clone, Copy)]
struct Bounds {
    lon_lo: i64,
    lon_width: u64,
    lat_lo: i64,
    lat_width: u64,
}

impl Bounds {
    spec fn cell(self) -> Cell {
        Cell {
            lon: Span { lo: self.lon_lo as int, width: self.lon_width as int },
            lat: Span { lo: self.lat_lo as int, width: self.lat_width as int },
        }
    }

    spec fn inside(self) -> bool {
        &&& LON_MIN <= self.lon_lo
        &&& self.lon_lo + self.lon_width <= LON_MAX
        &&& LAT_MIN <= self.lat_lo
        &&& self.lat_lo + self.lat_width <= LAT_MAX
    }

    fn whole() -> (b: Bounds)
        ensures
            b.cell() == world(),
            b.inside(),
    {
        Bounds { lon_lo: LON_MIN, lon_width: LON_SPAN, lat_lo: LAT_MIN, lat_width: LAT_SPAN }
    }

    fn side(self, index: usize, lon: i64, lat: i64) -> (upper: bool)
        requires
            self.inside(),
        ensures
            upper == self.cell().side(index as int, lon as int, lat as int),
    {
        if index % 2 == 0 {
            lon >= self.lon_lo + (self.lon_width / 2) as i64
        } else {
            lat >= self.lat_lo + (self.lat_width / 2) as i64
        }
    }

    fn split(self, index: usize, upper: bool) -> (b: Bounds)
        requires
            self.inside(),
        ensures
            b.cell() == self.cell().split(index as int, upper),
            b.inside(),
    {
        if index % 2 == 0 {
            let half: u64 = self.lon_width / 2;
            let lo: i64 = if upper { self.lon_lo + half as i64 } else { self.lon_lo };
            Bounds { lon_lo: lo, lon_width: half, lat_lo: self.lat_lo, lat_width: self.lat_width }
        } else {
            let half: u64 = self.lat_width / 2;
            let lo: i64 = if upper { self.lat_lo + half as i64 } else { self.lat_lo };
            Bounds { lon_lo: self.lon_lo, lon_width: self.lon_width, lat_lo: lo, lat_width: half }
        }
    }

    fn decoded(self) -> (d: Decoded)
        requires
            self.inside(),
        ensures
            d == decoded_of(self.cell()),
    {
        let lon_half: u64 = self.lon_width / 2;
        let lat_half: u64 = self.lat_width / 2;
        Decoded {
            center: Coordinate {
                x: self.lon_lo + lon_half as i64,
                y: self.lat_lo + lat_half as i64,
            },
            lon_error: lon_half as i64,
            lat_error: lat_half as i64,
        }
    }
}

/// The number spelled by some bits depends on those bits alone.
proof fn lemma_bits_value_local(a: Seq<bool>, b: Seq<bool>, start: int, count: nat)
    requires
        forall|t: int| start <= t < start + count ==> a[t] == b[t],
    ensures
        bits_value(a, start, count) == bits_value(b, start, count),
    decreases count,
{
    if count > 0 {
        lemma_bits_value_local(a, b, start, (count - 1) as nat);
    }
}

/// The largest number that `count` bits can spell, plus one.
spec fn bits_limit(count: int) -> int {
    if count <= 0 {
        1
    } else if count == 1 {
        2
    } else if count == 2 {
        4
    } else if count == 3 {
        8
    } else if count == 4 {
        16
    } else {
        32
    }
}

/// Bit `k` of the five-bit value `v`, counted from the highest.
fn bit_of(v: u8, k: usize) -> (b: bool)
    requires
        v < 32,
        k < 5,
    ensures
        b == value_bit(v as int, k as int),
{
    if k == 0 {
        v / 16 % 2 == 1
    } else if k == 1 {
        v / 8 % 2 == 1
    } else if k == 2 {
        v / 4 % 2 == 1
    } else if k == 3 {
        v / 2 % 2 == 1
    } else {
        v % 2 == 1
    }
}

/// Encodes a point as a geohash of `len` characters.
///
/// Starting from the whole world, bit `i` of the stream bisects the longitude
/// range where `i` is even and the latitude range where it is odd, and is set
/// where the point is at or above the midpoint. Every five bits give one symbol
/// of the alphabet. A point on the upper edge of the world falls in the last
/// cell.
pub fn encode(longitude: i64, latitude: i64, len: usize) -> (r: Result<String, GeohashError>)
    ensures
        text_result_is(r, encode_spec(longitude as int, latitude as int, len as nat)),
        r matches Ok(s) ==> s@.len() == len && all_symbols(s@),
{
    if longitude < LON_MIN || longitude > LON_MAX || latitude < LAT_MIN || latitude > LAT_MAX {
        return Err(GeohashError::InvalidCoordinate);
    }
    if len == 0 || len > MAX_LEN {
        return Err(GeohashError::InvalidLength);
    }
    let mut out = String::new();
    let mut bounds = Bounds::whole();
    let ghost mut bits: Seq<bool> = Seq::empty();
    let mut i: usize = 0;
    assert(out@ =~= text_of_bits(bits));
    while i < len
        invariant
            i <= len <= MAX_LEN,
            bits == bits_of_point(longitude as int, latitude as int, (5 * i) as nat),
            bits.len() == 5 * i,
            bounds.cell() == cell_of(bits),
            bounds.inside(),
            out@ == text_of_bits(bits),
            all_symbols(out@),
        decreases len - i,
    {
        let ghost done = bits;
        let mut value: u8 = 0;
        let mut k: usize = 0;
        while k < 5
            invariant
                k <= 5,
                i < len <= MAX_LEN,
                bits == bits_of_point(longitude as int, latitude as int, (5 * i + k) as nat),
                bits.len() == 5 * i + k,
                bounds.cell() == cell_of(bits),
                bounds.inside(),
                value == bits_value(bits, 5 * i, k as nat),
                0 <= value < bits_limit(k as int),
                done.len() == 5 * i,
                forall|t: int| 0 <= t < 5 * i ==> bits[t] == done[t],
            decreases 5 - k,
        {
            let index: usize = 5 * i + k;
            let upper = bounds.side(index, longitude, latitude);
            bounds = bounds.split(index, upper);
            proof {
                let before = bits;
                bits = bits.push(upper);
                assert(bits.drop_last() =~= before);
                lemma_bits_value_local(before, bits, 5 * i, k as nat);
            }
            value = 2 * value + if upper { 1u8 } else { 0u8 };
            k += 1;
        }
        let ghost before = out@;
        out.append(symbol_text(value));
        proof {
            lemma_symbol_value(value as int);
            assert forall|j: int| 0 <= j < i implies #[trigger] chunk_value(bits, j)
                == chunk_value(done, j) by {
                lemma_bits_value_local(bits, done, 5 * j, 5);
            }
            assert(out@ =~= text_of_bits(bits));
        }
        i += 1;
    }
    Ok(out)
}

/// Every symbol of the alphabet is an ASCII character.
proof fn lemma_symbols_are_ascii(c: char)
    requires
        is_symbol(c),
    ensures
        c <= '\u{7f}',
{
    reveal_strlit("0123456789bcdefghjkmnpqrstuvwxyz");
}

/// The value of the symbol at place `i` of an ASCII text, or `None` where the
/// character there is no symbol.
fn symbol_at(text: &str, i: usize) -> (r: Option<u8>)
    requires
        text.is_ascii(),
        i < text@.len(),
    ensures
        match r {
            Some(v) => v < 32 && is_symbol(text@[i as int]) && symbol_value(text@[i as int]) == v,
            None => !is_symbol(text@[i as int]),
        },
{
    let byte = text.get_ascii(i);
    assert(byte as char == text@[i as int]);
    decode_symbol(byte as char)
}

/// Decodes a geohash to the centre of its cell and the error margins.
///
/// Every character is held against the alphabet before the length is looked
/// at. The symbols are then read as a stream of five bits each, highest first;
/// the stream bisects the world as in `encode`, longitude on the even bits of
/// the whole stream. The margins are half the width of the final cell.
pub fn decode(geohash: &str) -> (r: Result<Decoded, GeohashError>)
    ensures
        r == decode_spec(geohash@),
{
    if geohash.is_empty() {
        return Err(GeohashError::EmptyInput);
    }
    if !geohash.is_ascii() {
        proof {
            if all_symbols(geohash@) {
                assert forall|j: int| 0 <= j < geohash@.len() implies '\0' <= #[trigger] geohash@[j]
                    <= '\u{7f}' by {
                    lemma_symbols_are_ascii(geohash@[j]);
                }
            }
        }
        return Err(GeohashError::InvalidGeohashCharacter);
    }
    let n = geohash.unicode_len();
    let mut seen: usize = 0;
    while seen < n
        invariant
            seen <= n,
            n == geohash@.len(),
            geohash.is_ascii(),
            forall|j: int| 0 <= j < seen ==> is_symbol(#[trigger] geohash@[j]),
        decreases n - seen,
    {
        if symbol_at(geohash, seen).is_none() {
            return Err(GeohashError::InvalidGeohashCharacter);
        }
        seen += 1;
    }
    if n > MAX_LEN {
        return Err(GeohashError::InvalidLength);
    }
    let ghost stream = bits_of_text(geohash@);
    let mut bounds = Bounds::whole();
    let ghost mut bits: Seq<bool> = Seq::empty();
    let mut i: usize = 0;
    while i < n
        invariant
            i <= n <= MAX_LEN,
            n == geohash@.len(),
            geohash.is_ascii(),
            all_symbols(geohash@),
            stream == bits_of_text(geohash@),
            bits.len() == 5 * i,
            forall|t: int| 0 <= t < bits.len() ==> bits[t] == stream[t],
            bounds.cell() == cell_of(bits),
            bounds.inside(),
        decreases n - i,
    {
        match symbol_at(geohash, i) {
            None => {
                assert(is_symbol(geohash@[i as int]));
                return Err(GeohashError::InvalidGeohashCharacter);
            },
            Some(v) => {
                let mut k: usize = 0;
                while k < 5
                    invariant
                        k <= 5,
                        i < n <= MAX_LEN,
                        n == geohash@.len(),
                        stream == bits_of_text(geohash@),
                        v < 32,
                        is_symbol(geohash@[i as int]),
                        v == symbol_value(geohash@[i as int]),
                        bits.len() == 5 * i + k,
                        forall|t: int| 0 <= t < bits.len() ==> bits[t] == stream[t],
                        bounds.cell() == cell_of(bits),
                        bounds.inside(),
                    decreases 5 - k,
                {
                    let upper = bit_of(v, k);
                    bounds = bounds.split(5 * i + k, upper);
                    proof {
                        let before = bits;
                        bits = bits.push(upper);
                        assert(bits.drop_last() =~= before);
                    }
                    k += 1;
                }
            },
        }
        i += 1;
    }
    proof {
        assert(bits =~= stream);
    }
    Ok(bounds.decoded())
}

} // verus!
