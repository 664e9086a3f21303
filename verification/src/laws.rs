//! What holds of the conversions for every input.

use vstd::prelude::*;
use crate::alphabet::{is_symbol, lemma_symbol_value, symbol, symbol_value};
use crate::batch::{center_spec, decoded_batch, encode_at, encoded_batch};
use crate::codec::{decode_spec, decoded_of, encode_spec, text_result_is, Coordinate, Decoded};
use crate::error::{BatchError, GeohashError};
use crate::grid::{
    all_symbols, bits_of_point, bits_of_text, bits_value, cell_of, chunk_value, geohash_of,
    lemma_cell_widths, text_of_bits, valid_coordinate, value_bit, Cell, LAT_MAX, LAT_MIN, LON_MAX,
    LON_MIN, MAX_LEN,
};

verus! {

/// The stream of a point has as many bits as were asked for.
pub proof fn lemma_bits_of_point_len(lon: int, lat: int, n: nat)
    ensures
        bits_of_point(lon, lat, n).len() == n,
    decreases n,
{
    if n > 0 {
        lemma_bits_of_point_len(lon, lat, (n - 1) as nat);
    }
}

/// Five bits spell a value below 32, and each bit can be read back from it.
pub proof fn lemma_chunk_bits(bits: Seq<bool>, j: int)
    ensures
        0 <= chunk_value(bits, j) < 32,
        forall|k: int| 0 <= k < 5 ==> value_bit(chunk_value(bits, j), k) == bits[5 * j + k],
{
    reveal_with_fuel(bits_value, 6);
}

/// Reading the text of a bit stream gives the stream back, and the text has
/// one symbol of the alphabet for every five bits.
pub proof fn lemma_text_of_bits(bits: Seq<bool>)
    requires
        bits.len() % 5 == 0,
    ensures
        text_of_bits(bits).len() == bits.len() / 5,
        all_symbols(text_of_bits(bits)),
        bits_of_text(text_of_bits(bits)) == bits,
{
    let text = text_of_bits(bits);
    assert forall|j: int| 0 <= j < text.len() implies is_symbol(#[trigger] text[j]) && symbol_value(
        text[j],
    ) == chunk_value(bits, j) by {
        lemma_chunk_bits(bits, j);
        lemma_symbol_value(chunk_value(bits, j));
    }
    assert forall|t: int| 0 <= t < bits.len() implies bits_of_text(text)[t] == bits[t] by {
        let j = t / 5;
        lemma_chunk_bits(bits, j);
        assert(is_symbol(text[j]));
    }
    assert(bits_of_text(text) =~= bits);
}

/// Every bisection keeps the point in the cell: the point lies in the cell
/// that its own bit stream names.
pub proof fn lemma_point_in_cell(lon: int, lat: int, n: nat)
    requires
        valid_coordinate(lon, lat),
        n <= 60,
    ensures
        cell_of(bits_of_point(lon, lat, n)).holds(lon, lat),
    decreases n,
{
    if n > 0 {
        let before = bits_of_point(lon, lat, (n - 1) as nat);
        lemma_point_in_cell(lon, lat, (n - 1) as nat);
        lemma_bits_of_point_len(lon, lat, (n - 1) as nat);
        lemma_cell_widths(before);
        let bits = bits_of_point(lon, lat, n);
        assert(bits.drop_last() =~= before);
    }
}

/// A text of one to twelve symbols decodes to the cell that its bits name.
pub proof fn lemma_decode_text_of_bits(bits: Seq<bool>)
    requires
        bits.len() % 5 == 0,
        5 <= bits.len() <= 60,
    ensures
        decode_spec(text_of_bits(bits)) == Ok::<Decoded, GeohashError>(decoded_of(cell_of(bits))),
{
    lemma_text_of_bits(bits);
}

/// In a cell of even widths inside the world, the centre is no further from
/// any point of the cell than the margins say.
pub proof fn lemma_center_margin(cell: Cell, lon: int, lat: int)
    requires
        cell.holds(lon, lat),
        cell.lon.width % 2 == 0,
        cell.lat.width % 2 == 0,
        cell.lon.width > 0,
        cell.lat.width > 0,
        LON_MIN <= cell.lon.lo,
        cell.lon.lo + cell.lon.width <= LON_MAX,
        LAT_MIN <= cell.lat.lo,
        cell.lat.lo + cell.lat.width <= LAT_MAX,
    ensures
        ({
            let d = decoded_of(cell);
            &&& -d.lon_error <= lon - d.center.x <= d.lon_error
            &&& -d.lat_error <= lat - d.center.y <= d.lat_error
        }),
{
}

/// A geohash has the length that was asked for, and each of its characters
/// is a symbol of the alphabet.
pub proof fn law_geohash_shape(lon: int, lat: int, len: nat)
    ensures
        geohash_of(lon, lat, len).len() == len,
        all_symbols(geohash_of(lon, lat, len)),
{
    lemma_bits_of_point_len(lon, lat, 5 * len);
    lemma_text_of_bits(bits_of_point(lon, lat, 5 * len));
}

/// Decoding the geohash of a legal point, at any length from one to the
/// maximum, succeeds, and the decoded centre differs from the point by no more
/// than the reported margin along each axis.
pub proof fn law_round_trip(lon: int, lat: int, len: nat)
    requires
        valid_coordinate(lon, lat),
        1 <= len <= MAX_LEN,
    ensures
        encode_spec(lon, lat, len) == Ok::<Seq<char>, GeohashError>(geohash_of(lon, lat, len)),
        decode_spec(geohash_of(lon, lat, len)) is Ok,
        ({
            let d = decode_spec(geohash_of(lon, lat, len))->Ok_0;
            &&& -d.lon_error <= lon - d.center.x <= d.lon_error
            &&& -d.lat_error <= lat - d.center.y <= d.lat_error
        }),
{
    let bits = bits_of_point(lon, lat, 5 * len);
    lemma_bits_of_point_len(lon, lat, 5 * len);
    lemma_decode_text_of_bits(bits);
    lemma_point_in_cell(lon, lat, 5 * len);
    lemma_cell_widths(bits);
    lemma_center_margin(cell_of(bits), lon, lat);
}

/// Two five-bit values with the same bits are the same value.
pub proof fn lemma_value_bits_decide(a: int, b: int)
    requires
        0 <= a < 32,
        0 <= b < 32,
        value_bit(a, 0) == value_bit(b, 0),
        value_bit(a, 1) == value_bit(b, 1),
        value_bit(a, 2) == value_bit(b, 2),
        value_bit(a, 3) == value_bit(b, 3),
        value_bit(a, 4) == value_bit(b, 4),
    ensures
        a == b,
{
}

/// The text of a bit stream read from a text over the alphabet is that text.
pub proof fn lemma_bits_of_text(text: Seq<char>)
    requires
        all_symbols(text),
    ensures
        bits_of_text(text).len() == 5 * text.len(),
        text_of_bits(bits_of_text(text)) == text,
{
    let bits = bits_of_text(text);
    assert forall|j: int| 0 <= j < text.len() implies symbol(chunk_value(bits, j)) == text[j] by {
        let v = symbol_value(text[j]);
        assert(is_symbol(text[j]));
        assert(0 <= v < 32 && symbol(v) == text[j]);
        assert forall|k: int| 0 <= k < 5 implies bits[5 * j + k] == value_bit(v, k) by {
            assert((5 * j + k) / 5 == j);
            assert((5 * j + k) % 5 == k);
        }
        lemma_chunk_bits(bits, j);
        lemma_value_bits_decide(chunk_value(bits, j), v);
    }
    assert(text_of_bits(bits) =~= text);
}

/// Each bisection stays inside the cell before it: the cell of a stream of at
/// most sixty bits lies within the cell of each of its prefixes.
pub proof fn lemma_cells_nest(bits: Seq<bool>, m: nat)
    requires
        m <= bits.len() <= 60,
    ensures
        cell_of(bits).within(cell_of(bits.subrange(0, m as int))),
    decreases bits.len() - m,
{
    if m == bits.len() {
        assert(bits.subrange(0, m as int) =~= bits);
    } else {
        let before = bits.drop_last();
        lemma_cells_nest(before, m);
        lemma_cell_widths(before);
        assert(before.subrange(0, m as int) =~= bits.subrange(0, m as int));
    }
}

/// A stream of at most sixty bits whose cell covers a point begins, at every
/// length, with the point's own stream.
pub proof fn lemma_prefix_is_stream(bits: Seq<bool>, lon: int, lat: int, m: nat)
    requires
        m <= bits.len() <= 60,
        cell_of(bits).covers(lon, lat),
    ensures
        bits.subrange(0, m as int) == bits_of_point(lon, lat, m),
    decreases m,
{
    if m == 0 {
        assert(bits.subrange(0, 0) =~= bits_of_point(lon, lat, 0));
    } else {
        let shorter = bits.subrange(0, m - 1);
        let longer = bits.subrange(0, m as int);
        lemma_prefix_is_stream(bits, lon, lat, (m - 1) as nat);
        lemma_cells_nest(bits, m);
        lemma_cell_widths(shorter);
        assert(longer.drop_last() =~= shorter);
        assert(longer.last() == bits[m - 1]);
        assert(cell_of(longer) == cell_of(shorter).split(m - 1, bits[m - 1]));
        assert(bits[m - 1] == cell_of(shorter).side(m - 1, lon, lat));
        assert(longer =~= shorter.push(bits[m - 1]));
    }
}

/// The geohash of a point is the only text of its length over the alphabet
/// whose cell covers the point.
pub proof fn law_geohash_is_the_covering_cell(text: Seq<char>, lon: int, lat: int)
    requires
        1 <= text.len() <= MAX_LEN,
        all_symbols(text),
        cell_of(bits_of_text(text)).covers(lon, lat),
    ensures
        text == geohash_of(lon, lat, text.len()),
{
    let bits = bits_of_text(text);
    lemma_bits_of_text(text);
    lemma_prefix_is_stream(bits, lon, lat, 5 * text.len());
    assert(bits.subrange(0, 5 * text.len() as int) =~= bits);
}

/// Encoding is a function of its inputs: two results of `encode` on the same
/// point and length succeed or fail together, with the same text or the same
/// failure.
pub proof fn law_encode_deterministic(
    lon: int,
    lat: int,
    len: nat,
    a: Result<String, GeohashError>,
    b: Result<String, GeohashError>,
)
    requires
        text_result_is(a, encode_spec(lon, lat, len)),
        text_result_is(b, encode_spec(lon, lat, len)),
    ensures
        a is Ok <==> b is Ok,
        a is Ok ==> a->Ok_0@ == b->Ok_0@,
        a is Err ==> a->Err_0 == b->Err_0,
{
}

/// `encode` succeeds exactly on a legal point with a length from one to the
/// maximum, and then gives a text of that length over the alphabet.
pub proof fn law_encode_total(lon: int, lat: int, len: nat)
    ensures
        encode_spec(lon, lat, len) is Ok <==> valid_coordinate(lon, lat) && 1 <= len <= MAX_LEN,
        encode_spec(lon, lat, len) is Ok ==> encode_spec(lon, lat, len)->Ok_0.len() == len
            && all_symbols(encode_spec(lon, lat, len)->Ok_0),
{
    law_geohash_shape(lon, lat, len);
}

/// The outcome of a batch encoding is fixed by its inputs: two outcomes of the
/// same batch, whatever the number of workers behind each, succeed or fail
/// together, with the same geohashes in the same order or with the same
/// failure at the same position.
pub proof fn law_encoded_batch_unique(
    lons: Seq<i64>,
    lats: Seq<i64>,
    len: nat,
    a: Result<Vec<String>, BatchError>,
    b: Result<Vec<String>, BatchError>,
)
    requires
        encoded_batch(lons, lats, len, a),
        encoded_batch(lons, lats, len, b),
    ensures
        a is Ok <==> b is Ok,
        a is Ok ==> a->Ok_0@.len() == b->Ok_0@.len() && forall|i: int|
            0 <= i < a->Ok_0@.len() ==> (#[trigger] a->Ok_0@[i])@ == b->Ok_0@[i]@,
        a is Err ==> a->Err_0 == b->Err_0,
{
    if lons.len() == lats.len() {
        if a is Ok && b is Err {
            assert(encode_at(lons, lats, len, b->Err_0.position->0 as int) is Ok);
        }
        if a is Err && b is Ok {
            assert(encode_at(lons, lats, len, a->Err_0.position->0 as int) is Ok);
        }
        if a is Err && b is Err {
            let i = a->Err_0.position->0;
            let k = b->Err_0.position->0;
            if i < k {
                assert(encode_at(lons, lats, len, i as int) is Ok);
            }
            if k < i {
                assert(encode_at(lons, lats, len, k as int) is Ok);
            }
        }
        if a is Ok && b is Ok {
            assert forall|i: int| 0 <= i < a->Ok_0@.len() implies (#[trigger] a->Ok_0@[i])@
                == b->Ok_0@[i]@ by {
                assert(encode_at(lons, lats, len, i) == Ok::<Seq<char>, GeohashError>(
                    a->Ok_0@[i]@,
                ));
                assert(encode_at(lons, lats, len, i) == Ok::<Seq<char>, GeohashError>(
                    b->Ok_0@[i]@,
                ));
            }
        }
    }
}

/// A batch encoding that succeeds holds, at every position, the geohash that
/// `encode` gives for the pair at that position.
pub proof fn law_encoded_batch_elements(
    lons: Seq<i64>,
    lats: Seq<i64>,
    len: nat,
    r: Result<Vec<String>, BatchError>,
    i: int,
)
    requires
        encoded_batch(lons, lats, len, r),
        r is Ok,
        0 <= i < lons.len(),
    ensures
        lons.len() == lats.len(),
        r->Ok_0@.len() == lons.len(),
        valid_coordinate(lons[i] as int, lats[i] as int),
        1 <= len <= MAX_LEN,
        r->Ok_0@[i]@ == geohash_of(lons[i] as int, lats[i] as int, len),
{
    assert(encode_at(lons, lats, len, i) == Ok::<Seq<char>, GeohashError>(r->Ok_0@[i]@));
}

/// A batch decoding that succeeds holds, at every position, the centre that
/// `decode` gives for the geohash at that position.
pub proof fn law_decoded_batch_elements(
    geohashes: Seq<String>,
    r: Result<Vec<Coordinate>, BatchError>,
    i: int,
)
    requires
        decoded_batch(geohashes, r),
        r is Ok,
        0 <= i < geohashes.len(),
    ensures
        r->Ok_0@.len() == geohashes.len(),
        decode_spec(geohashes[i]@) is Ok,
        r->Ok_0@[i] == decode_spec(geohashes[i]@)->Ok_0.center,
{
    assert(center_spec(geohashes[i]@) == Ok::<Coordinate, GeohashError>(r->Ok_0@[i]));
}

/// The outcome of a batch decoding is fixed by its input: two outcomes of the
/// same batch succeed or fail together, with the same points in the same order
/// or with the same failure at the same position.
pub proof fn law_decoded_batch_unique(
    geohashes: Seq<String>,
    a: Result<Vec<Coordinate>, BatchError>,
    b: Result<Vec<Coordinate>, BatchError>,
)
    requires
        decoded_batch(geohashes, a),
        decoded_batch(geohashes, b),
    ensures
        a is Ok <==> b is Ok,
        a is Ok ==> a->Ok_0@ == b->Ok_0@,
        a is Err ==> a->Err_0 == b->Err_0,
{
    if a is Ok && b is Err {
        assert(center_spec(geohashes[b->Err_0.position->0 as int]@) is Ok);
    }
    if a is Err && b is Ok {
        assert(center_spec(geohashes[a->Err_0.position->0 as int]@) is Ok);
    }
    if a is Err && b is Err {
        let i = a->Err_0.position->0;
        let k = b->Err_0.position->0;
        if i < k {
            assert(center_spec(geohashes[i as int]@) is Ok);
        }
        if k < i {
            assert(center_spec(geohashes[k as int]@) is Ok);
        }
    }
    if a is Ok && b is Ok {
        assert forall|i: int| 0 <= i < a->Ok_0@.len() implies a->Ok_0@[i] == b->Ok_0@[i] by {
            assert(center_spec(geohashes[i]@) == Ok::<Coordinate, GeohashError>(a->Ok_0@[i]));
            assert(center_spec(geohashes[i]@) == Ok::<Coordinate, GeohashError>(b->Ok_0@[i]));
        }
        assert(a->Ok_0@ =~= b->Ok_0@);
    }
}

} // verus!
