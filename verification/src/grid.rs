//! The mathematical model: bisection of the world into cells, and the bit
//! stream that names a cell.

use vstd::prelude::*;
use vstd::arithmetic::power2::{
    lemma2_to64, lemma2_to64_rest, lemma_pow2_adds, lemma_pow2_pos, lemma_pow2_unfold, pow2,
};
use crate::alphabet::{is_symbol, symbol, symbol_value};

verus! {

/// Fixed-point units in one degree: 2^32.
pub const UNITS_PER_DEGREE: i64 = 4294967296;

/// The smallest legal longitude, -180 degrees.
pub const LON_MIN: i64 = -773094113280;

/// The largest legal longitude, 180 degrees.
pub const LON_MAX: i64 = 773094113280;

/// The smallest legal latitude, -90 degrees.
pub const LAT_MIN: i64 = -386547056640;

/// The largest legal latitude, 90 degrees.
pub const LAT_MAX: i64 = 386547056640;

/// The width of the longitude axis, 360 degrees.
pub const LON_SPAN: u64 = 1546188226560;

/// The width of the latitude axis, 180 degrees.
pub const LAT_SPAN: u64 = 773094113280;

/// The longest geohash that is produced or read.
pub const MAX_LEN: usize = 12;

/// Whether the point lies in the legal range, bounds included.
pub open spec fn valid_coordinate(lon: int, lat: int) -> bool {
    LON_MIN <= lon <= LON_MAX && LAT_MIN <= lat <= LAT_MAX
}

/// The half-open interval from `lo` up to `lo + width` along one axis.
pub struct Span {
    pub lo: int,
    pub width: int,
}

impl Span {
    /// The point halfway along the interval.
    pub open spec fn mid(self) -> int {
        self.lo + self.width / 2
    }

    /// The upper half of the interval where `upper` holds, else the lower half.
    pub open spec fn half(self, upper: bool) -> Span {
        Span { lo: if upper { self.mid() } else { self.lo }, width: self.width / 2 }
    }

    /// Whether `v` lies in the interval; its upper end is let in, so that the
    /// largest legal coordinate has a cell.
    pub open spec fn holds(self, v: int) -> bool {
        self.lo <= v <= self.lo + self.width
    }

    /// Whether `v` lies in the half-open interval.
    pub open spec fn covers(self, v: int) -> bool {
        self.lo <= v < self.lo + self.width
    }

    /// Whether the interval lies within `outer`.
    pub open spec fn within(self, outer: Span) -> bool {
        outer.lo <= self.lo && self.lo + self.width <= outer.lo + outer.width
    }
}

/// A rectangle of the world: one interval per axis.
pub struct Cell {
    pub lon: Span,
    pub lat: Span,
}

impl Cell {
    /// The cell after one more bisection; bit `index` of the stream splits the
    /// longitude where `index` is even and the latitude where it is odd.
    pub open spec fn split(self, index: int, upper: bool) -> Cell {
        if index % 2 == 0 {
            Cell { lon: self.lon.half(upper), lat: self.lat }
        } else {
            Cell { lon: self.lon, lat: self.lat.half(upper) }
        }
    }

    /// The bit that bisection number `index` gives the point: whether it lies
    /// in the upper half.
    pub open spec fn side(self, index: int, lon: int, lat: int) -> bool {
        if index % 2 == 0 {
            lon >= self.lon.mid()
        } else {
            lat >= self.lat.mid()
        }
    }

    /// Whether the point lies in the cell, upper edges let in.
    pub open spec fn holds(self, lon: int, lat: int) -> bool {
        self.lon.holds(lon) && self.lat.holds(lat)
    }

    /// Whether the point lies in the half-open cell.
    pub open spec fn covers(self, lon: int, lat: int) -> bool {
        self.lon.covers(lon) && self.lat.covers(lat)
    }

    /// Whether the cell lies within `outer`.
    pub open spec fn within(self, outer: Cell) -> bool {
        self.lon.within(outer.lon) && self.lat.within(outer.lat)
    }
}

/// The whole legal range.
pub open spec fn world() -> Cell {
    Cell {
        lon: Span { lo: LON_MIN as int, width: LON_SPAN as int },
        lat: Span { lo: LAT_MIN as int, width: LAT_SPAN as int },
    }
}

/// The cell that a bit stream names: the world, bisected once per bit.
pub open spec fn cell_of(bits: Seq<bool>) -> Cell
    decreases bits.len(),
{
    if bits.len() == 0 {
        world()
    } else {
        cell_of(bits.drop_last()).split(bits.len() - 1, bits.last())
    }
}

/// The first `n` bits of the stream of a point: each bit says on which side of
/// the next bisection the point lies.
pub open spec fn bits_of_point(lon: int, lat: int, n: nat) -> Seq<bool>
    decreases n,
{
    if n == 0 {
        Seq::empty()
    } else {
        let before = bits_of_point(lon, lat, (n - 1) as nat);
        before.push(cell_of(before).side(n - 1, lon, lat))
    }
}

/// The number that `count` bits from position `start` on spell, first bit
/// highest.
pub open spec fn bits_value(bits: Seq<bool>, start: int, count: nat) -> int
    decreases count,
{
    if count == 0 {
        0
    } else {
        2 * bits_value(bits, start, (count - 1) as nat) + if bits[start + count - 1] {
            1int
        } else {
            0int
        }
    }
}

/// The five-bit value of chunk `j` of a bit stream.
pub open spec fn chunk_value(bits: Seq<bool>, j: int) -> int {
    bits_value(bits, 5 * j, 5)
}

/// The text of a bit stream: one symbol for every five bits.
pub open spec fn text_of_bits(bits: Seq<bool>) -> Seq<char> {
    Seq::new((bits.len() / 5) as nat, |j: int| symbol(chunk_value(bits, j)))
}

/// Bit `k` of the five-bit value `v`, counted from the highest.
pub open spec fn value_bit(v: int, k: int) -> bool {
    if k == 0 {
        v / 16 % 2 == 1
    } else if k == 1 {
        v / 8 % 2 == 1
    } else if k == 2 {
        v / 4 % 2 == 1
    } else if k == 3 {
        v / 2 % 2 == 1
    } else {
        v % 2 == 1
    }
}

/// The bit stream of a text: five bits for every symbol.
pub open spec fn bits_of_text(text: Seq<char>) -> Seq<bool> {
    Seq::new(5 * text.len(), |i: int| value_bit(symbol_value(text[i / 5]), i % 5))
}

/// Whether every character of the text is a symbol of the alphabet.
pub open spec fn all_symbols(text: Seq<char>) -> bool {
    forall|i: int| 0 <= i < text.len() ==> is_symbol(#[trigger] text[i])
}

/// The geohash of `len` characters of a point.
pub open spec fn geohash_of(lon: int, lat: int, len: nat) -> Seq<char> {
    text_of_bits(bits_of_point(lon, lat, 5 * len))
}

/// The width of an axis of width `factor * 2^exp` after `k` exact halvings.
pub open spec fn halved(factor: int, exp: nat, k: nat) -> int {
    factor * pow2((exp - k) as nat)
}

/// The number of longitude bisections among the first `n`.
pub open spec fn lon_splits(n: nat) -> nat {
    (n + 1) / 2
}

/// The number of latitude bisections among the first `n`.
pub open spec fn lat_splits(n: nat) -> nat {
    n / 2
}

/// Halving once more is exact as long as a factor of two is left.
pub proof fn lemma_halved_step(factor: int, exp: nat, k: nat)
    requires
        k < exp,
    ensures
        halved(factor, exp, k) / 2 == halved(factor, exp, k + 1),
        halved(factor, exp, k) % 2 == 0,
{
    lemma_pow2_unfold((exp - k) as nat);
    let p = pow2((exp - k - 1) as nat) as int;
    assert(factor * (2 * p) == 2 * (factor * p)) by (nonlinear_arith);
}

/// The axes of the world are 45 * 2^35 and 45 * 2^34 units wide.
pub proof fn lemma_world_widths()
    ensures
        LON_SPAN == halved(45, 35, 0),
        LAT_SPAN == halved(45, 34, 0),
{
    lemma2_to64();
    lemma2_to64_rest();
}

/// After `n` bits, with `n` at most sixty, each axis has been halved exactly,
/// and the cell lies inside the world.
pub proof fn lemma_cell_widths(bits: Seq<bool>)
    requires
        bits.len() <= 60,
    ensures
        cell_of(bits).lon.width == halved(45, 35, lon_splits(bits.len())),
        cell_of(bits).lat.width == halved(45, 34, lat_splits(bits.len())),
        cell_of(bits).lon.width > 0,
        cell_of(bits).lat.width > 0,
        cell_of(bits).lon.width % 32 == 0,
        cell_of(bits).lat.width % 16 == 0,
        LON_MIN <= cell_of(bits).lon.lo,
        cell_of(bits).lon.lo + cell_of(bits).lon.width <= LON_MAX,
        LAT_MIN <= cell_of(bits).lat.lo,
        cell_of(bits).lat.lo + cell_of(bits).lat.width <= LAT_MAX,
    decreases bits.len(),
{
    let n = bits.len();
    lemma_pow2_pos((35 - lon_splits(n)) as nat);
    lemma_pow2_pos((34 - lat_splits(n)) as nat);
    if n == 0 {
        lemma_world_widths();
    } else {
        let before = bits.drop_last();
        lemma_cell_widths(before);
        if (n - 1) % 2 == 0 {
            lemma_halved_step(45, 35, lon_splits(before.len()));
        } else {
            lemma_halved_step(45, 34, lat_splits(before.len()));
        }
    }
    lemma_low_factor(lon_splits(n), lat_splits(n));
}

/// With at most thirty halvings, sixteen and more divide what is left.
proof fn lemma_low_factor(a: nat, b: nat)
    requires
        a <= 30,
        b <= 30,
    ensures
        halved(45, 35, a) % 32 == 0,
        halved(45, 34, b) % 16 == 0,
{
    lemma_pow2_adds(5, (30 - a) as nat);
    lemma_pow2_adds(4, (30 - b) as nat);
    lemma2_to64();
    let p = pow2((30 - a) as nat) as int;
    let q = pow2((30 - b) as nat) as int;
    assert(45 * (32 * p) == 32 * (45 * p)) by (nonlinear_arith);
    assert(45 * (16 * q) == 16 * (45 * q)) by (nonlinear_arith);
}

} // verus!
