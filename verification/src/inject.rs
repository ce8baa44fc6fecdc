//! Preparing the injector's payload: the module path encoded in the target
//! system's wide-character convention, and the raw bytes written into the
//! target's address space. Allocating that memory and starting the remote
//! thread at the loader entry point are operating-system work done by the
//! surrounding application.

use vstd::prelude::*;
use vstd::string::StrSliceExecFns;

verus! {

/// The UTF-16 code units of one character: a single unit below 0x10000,
/// else a surrogate pair.
pub open spec fn utf16_units_of_char(c: char) -> Seq<u16> {
    let v = c as u32;
    if v < 0x10000 {
        seq![v as u16]
    } else {
        seq![(0xD800 + (v - 0x10000) / 0x400) as u16, (0xDC00 + (v - 0x10000) % 0x400) as u16]
    }
}

/// The UTF-16 code units of a character sequence, in order.
pub open spec fn utf16_units(s: Seq<char>) -> Seq<u16>
    decreases s.len(),
{
    if s.len() == 0 {
        Seq::empty()
    } else {
        utf16_units_of_char(s[0]) + utf16_units(s.drop_first())
    }
}

/// Appending one character extends a UTF-16 encoding on the right.
pub proof fn lemma_utf16_units_push(s: Seq<char>, c: char)
    ensures
        utf16_units(s.push(c)) == utf16_units(s) + utf16_units_of_char(c),
    decreases s.len(),
{
    if s.len() == 0 {
        assert(s.push(c).drop_first() =~= Seq::<char>::empty());
        assert(utf16_units(Seq::<char>::empty()) =~= Seq::<u16>::empty());
        assert(s.push(c)[0] == c);
        assert(utf16_units(s.push(c)) =~= utf16_units(s) + utf16_units_of_char(c));
    } else {
        assert(s.push(c).drop_first() =~= s.drop_first().push(c));
        lemma_utf16_units_push(s.drop_first(), c);
        assert(utf16_units(s.push(c)) =~= utf16_units(s) + utf16_units_of_char(c));
    }
}

/// Encodes a module path in the wide-character convention the target
/// system's loader expects.
pub fn encode_wide(path: &str) -> (r: Vec<u16>)
    ensures
        r@ == utf16_units(path@),
{
    let len = path.unicode_len();
    let mut r: Vec<u16> = Vec::new();
    let mut i: usize = 0;
    while i < len
        invariant
            i <= len,
            len == path@.len(),
            r@ == utf16_units(path@.take(i as int)),
        decreases len - i,
    {
        let c = path.get_char(i);
        let v = c as u32;
        if v < 0x10000 {
            r.push(v as u16);
        } else {
            r.push((0xD800 + (v - 0x10000) / 0x400) as u16);
            r.push((0xDC00 + (v - 0x10000) % 0x400) as u16);
        }
        proof {
            assert(path@.take(i + 1) =~= path@.take(i as int).push(path@[i as int]));
            lemma_utf16_units_push(path@.take(i as int), path@[i as int]);
            assert(r@ =~= utf16_units(path@.take(i + 1)));
        }
        i += 1;
    }
    proof {
        assert(path@.take(len as int) =~= path@);
    }
    r
}

/// The two little-endian bytes of one wide character.
pub open spec fn le_bytes_of_u16(v: u16) -> Seq<u8> {
    seq![(v % 256) as u8, (v / 256) as u8]
}

/// The bytes of a wide string as they are laid out in the target's memory.
pub open spec fn wide_bytes(s: Seq<u16>) -> Seq<u8>
    decreases s.len(),
{
    if s.len() == 0 {
        Seq::empty()
    } else {
        le_bytes_of_u16(s[0]) + wide_bytes(s.drop_first())
    }
}

/// Appending one unit extends the byte image on the right.
pub proof fn lemma_wide_bytes_push(s: Seq<u16>, v: u16)
    ensures
        wide_bytes(s.push(v)) == wide_bytes(s) + le_bytes_of_u16(v),
    decreases s.len(),
{
    if s.len() == 0 {
        assert(s.push(v).drop_first() =~= Seq::<u16>::empty());
        assert(wide_bytes(Seq::<u16>::empty()) =~= Seq::<u8>::empty());
        assert(s.push(v)[0] == v);
        assert(wide_bytes(s.push(v)) =~= wide_bytes(s) + le_bytes_of_u16(v));
    } else {
        assert(s.push(v).drop_first() =~= s.drop_first().push(v));
        lemma_wide_bytes_push(s.drop_first(), v);
        assert(wide_bytes(s.push(v)) =~= wide_bytes(s) + le_bytes_of_u16(v));
    }
}

/// The byte image takes two bytes per wide character.
pub proof fn lemma_wide_bytes_len(s: Seq<u16>)
    ensures
        wide_bytes(s).len() == 2 * s.len(),
    decreases s.len(),
{
    if s.len() > 0 {
        lemma_wide_bytes_len(s.drop_first());
    }
}

/// The payload written into the target's address space: the wide path,
/// byte for byte. The foreign allocation is sized exactly to these bytes.
pub fn injection_payload(wide: &Vec<u16>) -> (r: Vec<u8>)
    ensures
        r@ == wide_bytes(wide@),
        r@.len() == 2 * wide@.len(),
{
    let mut r: Vec<u8> = Vec::new();
    let mut i: usize = 0;
    while i < wide.len()
        invariant
            i <= wide@.len(),
            r@ == wide_bytes(wide@.take(i as int)),
        decreases wide@.len() - i,
    {
        let v = wide[i];
        r.push((v % 256) as u8);
        r.push((v / 256) as u8);
        proof {
            assert(wide@.take(i + 1) =~= wide@.take(i as int).push(wide@[i as int]));
            lemma_wide_bytes_push(wide@.take(i as int), wide@[i as int]);
            assert(r@ =~= wide_bytes(wide@.take(i + 1)));
        }
        i += 1;
    }
    proof {
        assert(wide@.take(wide@.len() as int) =~= wide@);
        lemma_wide_bytes_len(wide@);
    }
    r
}

} // verus!
