//! Context and node identities: opaque 128-bit tokens, freshly drawn at
//! construction, with a fixed-width textual form used in selectors and in
//! inbound event tokens.

use vstd::prelude::*;

verus! {

/// Width in characters of the fixed textual form of an identity.
pub const ID_WIDTH: usize = 32;

/// Draws a fresh identity.
///
/// Relies on `uuid::Uuid::new_v4`, which returns a random (version 4) UUID;
/// nothing is promised of the value, which depends on the process's
/// randomness source. The call aborts only if the operating system's
/// randomness source itself fails.
#[verifier::external_body]
pub fn fresh_id() -> u128 {
    uuid::Uuid::new_v4().as_u128()
}

/// The lowercase hexadecimal digit character for `v`, which must lie below 16.
pub open spec fn spec_hex_digit(v: u128) -> char {
    if v == 0 { '0' } else if v == 1 { '1' } else if v == 2 { '2' } else if v == 3 { '3' }
    else if v == 4 { '4' } else if v == 5 { '5' } else if v == 6 { '6' } else if v == 7 { '7' }
    else if v == 8 { '8' } else if v == 9 { '9' } else if v == 10 { 'a' } else if v == 11 { 'b' }
    else if v == 12 { 'c' } else if v == 13 { 'd' } else if v == 14 { 'e' } else { 'f' }
}

/// The numeric value of a hexadecimal digit character, or `None` for any
/// other character.
pub open spec fn spec_hex_val(c: char) -> Option<u128> {
    if c == '0' { Some(0u128) } else if c == '1' { Some(1u128) } else if c == '2' { Some(2u128) }
    else if c == '3' { Some(3u128) } else if c == '4' { Some(4u128) } else if c == '5' { Some(5u128) }
    else if c == '6' { Some(6u128) } else if c == '7' { Some(7u128) } else if c == '8' { Some(8u128) }
    else if c == '9' { Some(9u128) } else if c == 'a' || c == 'A' { Some(10u128) }
    else if c == 'b' || c == 'B' { Some(11u128) } else if c == 'c' || c == 'C' { Some(12u128) }
    else if c == 'd' || c == 'D' { Some(13u128) } else if c == 'e' || c == 'E' { Some(14u128) }
    else if c == 'f' || c == 'F' { Some(15u128) } else { None }
}

/// The nibble of `id` rendered at text position `pos` (most significant
/// nibble first).
pub open spec fn spec_nibble(id: u128, pos: int) -> u128 {
    (id >> (((31 - pos) * 4) as u128)) & 0xf
}

/// The fixed-width textual form of an identity: 32 lowercase hexadecimal
/// digits, most significant first.
pub open spec fn spec_id_chars(id: u128) -> Seq<char> {
    Seq::new(32, |p: int| spec_hex_digit(spec_nibble(id, p)))
}

/// The value read from a full fixed-width identity text, folding digits from
/// the most significant end; `None` as soon as a non-digit appears.
pub open spec fn spec_parse_id(s: Seq<char>) -> Option<u128>
    decreases s.len(),
{
    if s.len() == 0 {
        Some(0u128)
    } else {
        match spec_parse_id(s.drop_last()) {
            None => None,
            Some(acc) => match spec_hex_val(s.last()) {
                None => None,
                Some(d) => Some((acc << 4u128) | d),
            },
        }
    }
}

fn hex_digit(v: u128) -> (r: char)
    requires
        v < 16,
    ensures
        r == spec_hex_digit(v),
{
    if v == 0 { '0' } else if v == 1 { '1' } else if v == 2 { '2' } else if v == 3 { '3' }
    else if v == 4 { '4' } else if v == 5 { '5' } else if v == 6 { '6' } else if v == 7 { '7' }
    else if v == 8 { '8' } else if v == 9 { '9' } else if v == 10 { 'a' } else if v == 11 { 'b' }
    else if v == 12 { 'c' } else if v == 13 { 'd' } else if v == 14 { 'e' } else { 'f' }
}

/// The lowercase hexadecimal digit character for a 32-bit value below 16.
pub fn hex_digit_u32(v: u32) -> (r: char)
    requires
        v < 16,
    ensures
        r == spec_hex_digit(v as u128),
{
    hex_digit(v as u128)
}

fn hex_val(c: char) -> (r: Option<u128>)
    ensures
        r == spec_hex_val(c),
{
    if c == '0' { Some(0u128) } else if c == '1' { Some(1u128) } else if c == '2' { Some(2u128) }
    else if c == '3' { Some(3u128) } else if c == '4' { Some(4u128) } else if c == '5' { Some(5u128) }
    else if c == '6' { Some(6u128) } else if c == '7' { Some(7u128) } else if c == '8' { Some(8u128) }
    else if c == '9' { Some(9u128) } else if c == 'a' || c == 'A' { Some(10u128) }
    else if c == 'b' || c == 'B' { Some(11u128) } else if c == 'c' || c == 'C' { Some(12u128) }
    else if c == 'd' || c == 'D' { Some(13u128) } else if c == 'e' || c == 'E' { Some(14u128) }
    else if c == 'f' || c == 'F' { Some(15u128) } else { None }
}

/// Renders an identity as its 32-character lowercase hexadecimal form.
pub fn id_chars(id: u128) -> (r: Vec<char>)
    ensures
        r@ == spec_id_chars(id),
{
    let mut out: Vec<char> = Vec::new();
    let mut i: usize = 0;
    while i < 32
        invariant
            i <= 32,
            out@.len() == i,
            forall|p: int| 0 <= p < i ==> out@[p] == spec_hex_digit(spec_nibble(id, p)),
        decreases 32 - i,
    {
        let shift: u128 = ((31 - i) * 4) as u128;
        let nib: u128 = (id >> shift) & 0xf;
        proof {
            assert(nib < 16) by (bit_vector)
                requires
                    nib == (id >> shift) & 0xf,
            ;
        }
        out.push(hex_digit(nib));
        i = i + 1;
    }
    proof {
        assert(out@ =~= spec_id_chars(id));
    }
    out
}

/// Reads an identity from exactly `ID_WIDTH` characters of hexadecimal text;
/// `None` if any character is not a hexadecimal digit or the length is wrong.
pub fn parse_id(s: &Vec<char>) -> (r: Option<u128>)
    ensures
        r == (if s@.len() == 32 {
            spec_parse_id(s@)
        } else {
            Option::<u128>::None
        }),
{
    if s.len() != 32 {
        return None;
    }
    let mut acc: u128 = 0;
    let mut i: usize = 0;
    while i < 32
        invariant
            i <= 32,
            s@.len() == 32,
            Some(acc) == spec_parse_id(s@.take(i as int)),
        decreases 32 - i,
    {
        let d = hex_val(s[i]);
        match d {
            None => {
                proof {
                    lemma_parse_prefix_none(s@, i as int);
                }
                return None;
            },
            Some(d) => {
                proof {
                    assert(s@.take(i + 1).drop_last() =~= s@.take(i as int));
                    assert(s@.take(i + 1).last() == s@[i as int]);
                }
                acc = (acc << 4u128) | d;
            },
        }
        i = i + 1;
    }
    proof {
        assert(s@.take(32) =~= s@);
    }
    Some(acc)
}

/// A non-digit anywhere in the text makes the whole read fail.
proof fn lemma_parse_prefix_none(s: Seq<char>, i: int)
    requires
        0 <= i < s.len(),
        spec_hex_val(s[i]) is None,
    ensures
        spec_parse_id(s) is None,
    decreases s.len(),
{
    if i == s.len() - 1 {
        assert(s.last() == s[i]);
    } else {
        lemma_parse_prefix_none(s.drop_last(), i);
    }
}

/// A hexadecimal digit character reads back as its value.
proof fn lemma_hex_digit_val(v: u128)
    requires
        v < 16,
    ensures
        spec_hex_val(spec_hex_digit(v)) == Some(v),
{
}

proof fn lemma_id_chars_parse_prefix(id: u128, k: int)
    requires
        0 <= k <= 32,
    ensures
        spec_parse_id(spec_id_chars(id).take(k)) == Some(id >> (((32 - k) * 4) as u128)),
    decreases k,
{
    let chars = spec_id_chars(id);
    if k == 0 {
        assert(chars.take(0) =~= Seq::<char>::empty());
        assert(id >> 128u128 == 0) by (bit_vector);
    } else {
        lemma_id_chars_parse_prefix(id, k - 1);
        assert(chars.take(k).drop_last() =~= chars.take(k - 1));
        assert(chars.take(k).last() == chars[k - 1]);
        let shl: u128 = ((32 - (k - 1)) * 4) as u128;
        let sh: u128 = ((32 - k) * 4) as u128;
        let nib = spec_nibble(id, k - 1);
        assert(nib == (id >> sh) & 0xf);
        assert(nib < 16 && ((id >> shl) << 4u128) | ((id >> sh) & 0xf) == id >> sh) by (bit_vector)
            requires
                nib == (id >> sh) & 0xf,
                shl == sh + 4,
                sh <= 124,
        ;
        lemma_hex_digit_val(nib);
    }
}

/// Round trip: the fixed-width textual form of an identity reads back as
/// exactly that identity.
pub proof fn lemma_id_round_trip(id: u128)
    ensures
        spec_parse_id(spec_id_chars(id)) == Some(id),
{
    lemma_id_chars_parse_prefix(id, 32);
    assert(spec_id_chars(id).take(32) =~= spec_id_chars(id));
    assert(id >> 0u128 == id) by (bit_vector);
}

} // verus!
