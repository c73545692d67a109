//! The characters that fonts are baked with.

use vstd::prelude::*;

verus! {

/// The printable ASCII characters and DEL, `' '` (32) to 127, in order.
pub open spec fn ascii_chars() -> Seq<char> {
    Seq::new(96, |i: int| (32 + i) as char)
}

/// The upper half of Latin-1, U+00A0 to U+00FF, in order.
pub open spec fn latin1_chars() -> Seq<char> {
    Seq::new(96, |i: int| (0xa0 + i) as char)
}

/// The characters 32 to 127.
pub fn build_ascii_string() -> (r: Vec<char>)
    ensures
        r@ == ascii_chars(),
{
    let mut r: Vec<char> = Vec::new();
    let mut i: u8 = 32;
    while i < 128
        invariant
            32 <= i <= 128,
            r@ == ascii_chars().take(i - 32),
        decreases 128 - i,
    {
        r.push(i as char);
        i = i + 1;
        proof {
            assert(r@ =~= ascii_chars().take(i - 32));
        }
    }
    proof {
        assert(ascii_chars().take(96) =~= ascii_chars());
    }
    r
}

/// The characters U+00A0 to U+00FF: those that the two-byte UTF-8 sequences `c2 a0` to
/// `c2 bf` and `c3 80` to `c3 bf` encode.
pub fn build_latin1_string() -> (r: Vec<char>)
    ensures
        r@ == latin1_chars(),
{
    let mut r: Vec<char> = Vec::new();
    let mut i: u8 = 0xa0;
    while i <= 0xbf
        invariant
            0xa0 <= i <= 0xc0,
            r@ == latin1_chars().take(i - 0xa0),
        decreases 0xc0 - i,
    {
        r.push(i as char);
        i = i + 1;
        proof {
            assert(r@ =~= latin1_chars().take(i - 0xa0));
        }
    }
    let mut j: u8 = 0x80;
    while j <= 0xbf
        invariant
            0x80 <= j <= 0xc0,
            r@ == latin1_chars().take(j - 0x80 + 0x20),
        decreases 0xc0 - j,
    {
        r.push((j + 0x40) as char);
        j = j + 1;
        proof {
            assert(r@ =~= latin1_chars().take(j - 0x80 + 0x20));
        }
    }
    proof {
        assert(latin1_chars().take(96) =~= latin1_chars());
    }
    r
}

/// The ASCII characters, then the Latin-1 ones.
pub fn build_ascii_and_latin1_string() -> (r: Vec<char>)
    ensures
        r@ == ascii_chars() + latin1_chars(),
{
    let mut r = build_ascii_string();
    let mut l = build_latin1_string();
    r.append(&mut l);
    r
}

} // verus!
