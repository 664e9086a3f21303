//! The base-32 alphabet of geohashes.

use vstd::prelude::*;

verus! {

/// The 32 symbols, in order of the value they stand for.
pub open spec fn alphabet() -> Seq<char> {
    "0123456789bcdefghjkmnpqrstuvwxyz"@
}

/// The symbol that stands for the five-bit value `v`.
pub open spec fn symbol(v: int) -> char
    recommends
        0 <= v < 32,
{
    alphabet()[v]
}

/// Whether `c` is one of the 32 symbols.
pub open spec fn is_symbol(c: char) -> bool {
    exists|v: int| 0 <= v < 32 && symbol(v) == c
}

/// The value that the symbol `c` stands for.
pub open spec fn symbol_value(c: char) -> int
    recommends
        is_symbol(c),
{
    choose|v: int| 0 <= v < 32 && symbol(v) == c
}

/// No two values share a symbol, so a symbol's value is the one it was made from.
pub proof fn lemma_symbol_value(v: int)
    requires
        0 <= v < 32,
    ensures
        is_symbol(symbol(v)),
        symbol_value(symbol(v)) == v,
{
    reveal_strlit("0123456789bcdefghjkmnpqrstuvwxyz");
    let w = symbol_value(symbol(v));
    assert(0 <= w < 32 && symbol(w) == symbol(v));
}

/// The one-character text of the symbol for `v`.
pub fn symbol_text(v: u8) -> (s: &'static str)
    requires
        v < 32,
    ensures
        s@ == seq![symbol(v as int)],
{
    let table = "0123456789bcdefghjkmnpqrstuvwxyz";
    proof {
        reveal_strlit("0123456789bcdefghjkmnpqrstuvwxyz");
        assert(table.is_ascii());
    }
    let s = table.substring_ascii(v as usize, v as usize + 1);
    assert(s@ =~= seq![symbol(v as int)]);
    s
}

/// The value of the symbol `c`, or `None` where `c` is no symbol.
pub fn decode_symbol(c: char) -> (r: Option<u8>)
    ensures
        match r {
            Some(v) => v < 32 && is_symbol(c) && symbol_value(c) == v,
            None => !is_symbol(c),
        },
{
    proof {
        reveal_strlit("0123456789bcdefghjkmnpqrstuvwxyz");
    }
    let u: u32 = c as u32;
    let r: Option<u8> = if 48 <= u && u <= 57 {
        Some((u - 48) as u8)
    } else if 98 <= u && u <= 104 {
        Some((u - 88) as u8)
    } else if 106 <= u && u <= 107 {
        Some((u - 89) as u8)
    } else if 109 <= u && u <= 110 {
        Some((u - 90) as u8)
    } else if 112 <= u && u <= 122 {
        Some((u - 91) as u8)
    } else {
        None
    };
    proof {
        match r {
            Some(v) => {
                assert(symbol(v as int) == c);
                lemma_symbol_value(v as int);
            },
            None => {
                assert forall|v: int| 0 <= v < 32 implies symbol(v) != c by {}
            },
        }
    }
    r
}

} // verus!
