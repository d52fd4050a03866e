//! Text forms of network addresses.

use vstd::prelude::*;

use crate::seqs;
use crate::text;
use crate::wire;

verus! {

/// The decimal numerals of some bytes.
pub open spec fn decimal_parts(bytes: Seq<u8>) -> Seq<Seq<char>> {
    bytes.map_values(|b: u8| text::decimal(b as nat))
}

/// The hexadecimal numerals of the big-endian pairs of some bytes.
pub open spec fn hex_parts(bytes: Seq<u8>) -> Seq<Seq<char>> {
    Seq::new(bytes.len() / 2, |i: int| text::hex(wire::be16(bytes, 2 * i) as nat))
}

/// The dotted decimal form of an IPv4 address.
pub open spec fn dotted(bytes: Seq<u8>) -> Seq<char> {
    text::join(decimal_parts(bytes), "."@)
}

/// The colon-separated groups of an IPv6 address, each without leading zeros
/// and none left out.
pub open spec fn grouped(bytes: Seq<u8>) -> Seq<char> {
    text::join(hex_parts(bytes), ":"@)
}

/// The dotted decimal form of an IPv4 address.
pub fn dotted_text(bytes: &[u8]) -> (res: String)
    ensures
        res@ == dotted(bytes@),
{
    let mut parts: Vec<String> = Vec::new();
    let mut i: usize = 0;
    while i < bytes.len()
        invariant
            i <= bytes.len(),
            seqs::views(parts@) == decimal_parts(bytes@).take(i as int),
        decreases bytes.len() - i,
    {
        let ghost before = parts@;
        parts.push(text::decimal_text(bytes[i] as u64));
        proof {
            seqs::lemma_views_push(before, parts@.last());
        }
        assert(seqs::views(parts@) =~= decimal_parts(bytes@).take(i + 1));
        i = i + 1;
    }
    assert(decimal_parts(bytes@).take(i as int) =~= decimal_parts(bytes@));
    text::join_texts(&parts, ".")
}

/// The colon-separated groups of an IPv6 address.
pub fn grouped_text(bytes: &[u8]) -> (res: String)
    ensures
        res@ == grouped(bytes@),
{
    let mut parts: Vec<String> = Vec::new();
    let mut i: usize = 0;
    while i < bytes.len() / 2
        invariant
            i <= bytes.len() / 2,
            seqs::views(parts@) == hex_parts(bytes@).take(i as int),
        decreases bytes.len() - i,
    {
        let group: u16 = wire::read_be16(bytes, 2 * i);
        let ghost before = parts@;
        parts.push(text::hex_text(group as u64));
        proof {
            seqs::lemma_views_push(before, parts@.last());
        }
        assert(seqs::views(parts@) =~= hex_parts(bytes@).take(i + 1));
        i = i + 1;
    }
    assert(hex_parts(bytes@).take(i as int) =~= hex_parts(bytes@));
    text::join_texts(&parts, ":")
}

} // verus!
