//! How numbers, texts and tables stand in a frame.

use crate::properties::{distinct_keys, entry_map, has_key, key_index};
use vstd::prelude::*;
use vstd::utf8::encode_utf8;

verus! {

/// A number of two bytes, the high one first.
#[verifier::opaque]
pub open spec fn be16(n: int) -> Seq<u8> {
    seq![(n / 0x100 % 0x100) as u8, (n % 0x100) as u8]
}

/// A number of four bytes, the high one first.
#[verifier::opaque]
pub open spec fn be32(n: int) -> Seq<u8> {
    be16(n / 0x1_0000) + be16(n)
}

/// A number of eight bytes, the high one first.
#[verifier::opaque]
pub open spec fn be64(n: int) -> Seq<u8> {
    be32(n / 0x1_0000_0000) + be32(n)
}

/// A number of eight bytes that may be negative, in two's complement.
pub open spec fn signed64(n: i64) -> Seq<u8> {
    be64(if n < 0 {
        n + 0x1_0000_0000_0000_0000
    } else {
        n as int
    })
}

/// The number of two bytes at position `at`.
pub open spec fn be16_at(bytes: Seq<u8>, at: int) -> int {
    bytes[at] * 0x100 + bytes[at + 1]
}

/// The number of four bytes at position `at`.
pub open spec fn be32_at(bytes: Seq<u8>, at: int) -> int {
    be16_at(bytes, at) * 0x1_0000 + be16_at(bytes, at + 2)
}

/// The number of eight bytes at position `at`.
pub open spec fn be64_at(bytes: Seq<u8>, at: int) -> int {
    be32_at(bytes, at) * 0x1_0000_0000 + be32_at(bytes, at + 4)
}

/// A number that is written can be read back.
#[verifier::spinoff_prover]
pub proof fn law_numbers_are_read_back(before: Seq<u8>, n: u64, after: Seq<u8>)
    ensures
        n < 0x1_0000 ==> be16_at(before + be16(n as int) + after, before.len() as int) == n,
        n < 0x1_0000_0000 ==> be32_at(before + be32(n as int) + after, before.len() as int) == n,
        be64_at(before + be64(n as int) + after, before.len() as int) == n,
{
    reveal(be16);
    reveal(be32);
    reveal(be64);
    let at = before.len() as int;
    let two = before + be16(n as int) + after;
    assert(two[at] == be16(n as int)[0] && two[at + 1] == be16(n as int)[1]);
    lemma_read_four(before, n as int, after);
    let high = n as int / 0x1_0000_0000;
    assert(before + be64(n as int) + after =~= before + be32(high) + (be32(n as int) + after));
    assert(before + be64(n as int) + after =~= (before + be32(high)) + be32(n as int) + after);
    lemma_read_four(before, high, be32(n as int) + after);
    lemma_read_four(before + be32(high), n as int, after);
}

#[verifier::spinoff_prover]
proof fn lemma_four_digits(n: int)
    requires
        0 <= n,
    ensures
        ((n / 0x100_0000 % 0x100) * 0x100 + n / 0x1_0000 % 0x100) * 0x1_0000 + ((n / 0x100 % 0x100)
            * 0x100 + n % 0x100) == n % 0x1_0000_0000,
{
    let a = n / 0x100;
    let b = a / 0x100;
    let c = b / 0x100;
    let d = c / 0x100;
    let rest = ((c % 0x100) * 0x100 + b % 0x100) * 0x1_0000 + ((a % 0x100) * 0x100 + n % 0x100);
    assert(b == n / 0x1_0000);
    assert(c == n / 0x100_0000);
    assert(n == d * 0x1_0000_0000 + rest);
    assert(0 <= rest < 0x1_0000_0000);
    vstd::arithmetic::div_mod::lemma_fundamental_div_mod_converse(n, 0x1_0000_0000, d, rest);
}

#[verifier::spinoff_prover]
proof fn lemma_read_four(before: Seq<u8>, n: int, after: Seq<u8>)
    requires
        0 <= n,
    ensures
        be32_at(before + be32(n) + after, before.len() as int) == n % 0x1_0000_0000,
{
    let at = before.len() as int;
    let four = before + be32(n) + after;
    lemma_be32_bytes(n);
    lemma_four_digits(n);
    assert(four[at] == be32(n)[0] && four[at + 1] == be32(n)[1]);
    assert(four[at + 2] == be32(n)[2] && four[at + 3] == be32(n)[3]);
}

#[verifier::spinoff_prover]
proof fn lemma_be32_bytes(n: int)
    requires
        0 <= n,
    ensures
        be32(n)[0] == n / 0x100_0000 % 0x100,
        be32(n)[1] == n / 0x1_0000 % 0x100,
        be32(n)[2] == n / 0x100 % 0x100,
        be32(n)[3] == n % 0x100,
        be32(n).len() == 4,
{
    reveal(be16);
    reveal(be32);
}

/// The bytes of a text, after their number.
#[verifier::opaque]
pub open spec fn text(content: Seq<char>) -> Seq<u8> {
    be16(encode_utf8(content).len() as int) + encode_utf8(content)
}

/// A text that may be absent; if it is, it is written as an empty one.
pub open spec fn optional_text(content: Option<String>) -> Seq<u8> {
    match content {
        Some(string) => text(string@),
        None => be16(0),
    }
}

/// The texts of a list, one after the other.
pub open spec fn joined_texts(list: Seq<String>) -> Seq<u8>
    decreases list.len(),
{
    if list.len() == 0 {
        Seq::empty()
    } else {
        joined_texts(list.drop_last()) + text(list.last()@)
    }
}

/// The texts of a list, after their number.
pub open spec fn text_list(list: Seq<String>) -> Seq<u8> {
    be32(list.len() as int) + joined_texts(list)
}

/// The keys and values of a table, one after the other.
pub open spec fn joined_pairs(pairs: Seq<(Seq<char>, Seq<char>)>) -> Seq<u8>
    decreases pairs.len(),
{
    if pairs.len() == 0 {
        Seq::empty()
    } else {
        joined_pairs(pairs.drop_last()) + text(pairs.last().0) + text(pairs.last().1)
    }
}

/// The keys and values of a table, after their number.
pub open spec fn table(pairs: Seq<(Seq<char>, Seq<char>)>) -> Seq<u8> {
    be32(pairs.len() as int) + joined_pairs(pairs)
}

/// Whether the pairs are those of a map, each once, in some order.
pub open spec fn lists_map(
    pairs: Seq<(Seq<char>, Seq<char>)>,
    map: Map<Seq<char>, Seq<char>>,
) -> bool {
    &&& forall|i: int, j: int|
        0 <= i < j < pairs.len() ==> (#[trigger] pairs[i]).0 != (#[trigger] pairs[j]).0
    &&& forall|i: int|
        0 <= i < pairs.len() ==> map.contains_key((#[trigger] pairs[i]).0) && map[pairs[i].0]
            == pairs[i].1
    &&& forall|key: Seq<char>| #[trigger]
        map.contains_key(key) ==> exists|i: int| 0 <= i < pairs.len() && (#[trigger] pairs[i]).0 == key
}

/// Whether the bytes are those of a map, in some order.
#[verifier::opaque]
pub open spec fn is_table(map: Map<Seq<char>, Seq<char>>, bytes: Seq<u8>) -> bool {
    exists|pairs: Seq<(Seq<char>, Seq<char>)>| #[trigger] lists_map(pairs, map) && bytes == table(pairs)
}

/// The pairs of a list of entries.
pub open spec fn pairs_of(entries: Seq<(String, String)>) -> Seq<(Seq<char>, Seq<char>)> {
    entries.map_values(|entry: (String, String)| (entry.0@, entry.1@))
}

/// A list of entries with distinct keys lists the pairs of its map.
proof fn lemma_entries_list_map(entries: Seq<(String, String)>)
    requires
        distinct_keys(entries),
    ensures
        lists_map(pairs_of(entries), entry_map(entries)),
{
    let pairs = pairs_of(entries);
    let map = entry_map(entries);
    assert forall|i: int, j: int| 0 <= i < j < pairs.len() implies (#[trigger] pairs[i]).0 != (
    #[trigger] pairs[j]).0 by {
        assert(entries[i].0@ != entries[j].0@);
    }
    assert forall|i: int| 0 <= i < pairs.len() implies map.contains_key((#[trigger] pairs[i]).0)
        && map[pairs[i].0] == pairs[i].1 by {
        assert(entries[i].0@ == pairs[i].0);
        let j = key_index(entries, pairs[i].0);
        assert(has_key(entries, pairs[i].0));
        assert(entries[j].0@ == pairs[i].0);
        assert(i == j);
    }
    assert forall|key: Seq<char>| #[trigger] map.contains_key(key) implies exists|i: int|
        0 <= i < pairs.len() && (#[trigger] pairs[i]).0 == key by {
        let j = key_index(entries, key);
        assert(pairs[j].0 == key);
    }
}

/// The table of a list of entries with distinct keys is one of its map.
pub proof fn lemma_entries_are_table(entries: Seq<(String, String)>)
    requires
        distinct_keys(entries),
    ensures
        is_table(entry_map(entries), table(pairs_of(entries))),
{
    reveal(is_table);
    lemma_entries_list_map(entries);
}

proof fn lemma_remove_pair(pairs: Seq<(Seq<char>, Seq<char>)>, i: int)
    requires
        0 <= i < pairs.len(),
    ensures
        joined_pairs(pairs).len() == joined_pairs(pairs.remove(i)).len() + text(pairs[i].0).len() + text(
            pairs[i].1,
        ).len(),
    decreases pairs.len(),
{
    let last = pairs.len() - 1;
    if i == last {
        assert(pairs.remove(i) =~= pairs.drop_last());
    } else {
        lemma_remove_pair(pairs.drop_last(), i);
        assert(pairs.remove(i).drop_last() =~= pairs.drop_last().remove(i));
        assert(pairs.remove(i).last() == pairs.last());
    }
}

/// The sizes of numbers and texts.
pub proof fn lemma_sizes()
    ensures
        forall|n: int| #[trigger] be16(n).len() == 2,
        forall|n: int| #[trigger] be32(n).len() == 4,
        forall|n: int| #[trigger] be64(n).len() == 8,
        forall|content: Seq<char>| #[trigger] text(content).len() == 2 + encode_utf8(content).len(),
{
    reveal(be16);
    reveal(be32);
    reveal(be64);
    reveal(text);
}

/// All tables of a map have the same size.
pub proof fn lemma_table_sizes(map: Map<Seq<char>, Seq<char>>, first: Seq<u8>, second: Seq<u8>)
    requires
        is_table(map, first),
        is_table(map, second),
    ensures
        first.len() == second.len(),
{
    reveal(is_table);
    let a = choose|pairs: Seq<(Seq<char>, Seq<char>)>| #[trigger]
        lists_map(pairs, map) && first == table(pairs);
    let b = choose|pairs: Seq<(Seq<char>, Seq<char>)>| #[trigger]
        lists_map(pairs, map) && second == table(pairs);
    lemma_table_size(a, b, map);
}

proof fn lemma_table_size(
    first: Seq<(Seq<char>, Seq<char>)>,
    second: Seq<(Seq<char>, Seq<char>)>,
    map: Map<Seq<char>, Seq<char>>,
)
    requires
        lists_map(first, map),
        lists_map(second, map),
    ensures
        table(first).len() == table(second).len(),
    decreases first.len(),
{
    reveal(be16);
    reveal(be32);
    if first.len() == 0 {
        if second.len() > 0 {
            assert(map.contains_key(second[0].0));
        }
    } else {
        let pair = first.last();
        assert(first[first.len() - 1] == pair);
        assert(map.contains_key(pair.0));
        let i = choose|i: int| 0 <= i < second.len() && (#[trigger] second[i]).0 == pair.0;
        assert(second[i] == pair);
        lemma_listing_without(first, first.len() - 1, map);
        lemma_listing_without(second, i, map);
        lemma_remove_pair(first, first.len() - 1);
        lemma_remove_pair(second, i);
        lemma_table_size(first.remove(first.len() - 1), second.remove(i), map.remove(pair.0));
    }
}

proof fn lemma_listing_without(
    pairs: Seq<(Seq<char>, Seq<char>)>,
    i: int,
    map: Map<Seq<char>, Seq<char>>,
)
    requires
        lists_map(pairs, map),
        0 <= i < pairs.len(),
    ensures
        lists_map(pairs.remove(i), map.remove(pairs[i].0)),
{
    let rest = pairs.remove(i);
    let smaller = map.remove(pairs[i].0);
    assert forall|a: int, b: int| 0 <= a < b < rest.len() implies (#[trigger] rest[a]).0 != (
    #[trigger] rest[b]).0 by {
        let x = if a < i {
            a
        } else {
            a + 1
        };
        let y = if b < i {
            b
        } else {
            b + 1
        };
        assert(rest[a] == pairs[x] && rest[b] == pairs[y]);
    }
    assert forall|a: int| 0 <= a < rest.len() implies smaller.contains_key((#[trigger] rest[a]).0)
        && smaller[rest[a].0] == rest[a].1 by {
        let x = if a < i {
            a
        } else {
            a + 1
        };
        assert(rest[a] == pairs[x]);
        assert(pairs[x].0 != pairs[i].0);
    }
    assert forall|key: Seq<char>| #[trigger] smaller.contains_key(key) implies exists|a: int|
        0 <= a < rest.len() && (#[trigger] rest[a]).0 == key by {
        assert(map.contains_key(key));
        let x = choose|x: int| 0 <= x < pairs.len() && (#[trigger] pairs[x]).0 == key;
        let a = if x < i {
            x
        } else {
            x - 1
        };
        assert(rest[a] == pairs[x]);
    }
}

/// Returns the number of two bytes at position `at`.
pub fn read16(bytes: &[u8], at: usize) -> (n: u16)
    requires
        at + 2 <= bytes@.len(),
    ensures
        n == be16_at(bytes@, at as int),
{
    bytes[at] as u16 * 0x100 + bytes[at + 1] as u16
}

/// Returns the number of four bytes at position `at`.
pub fn read32(bytes: &[u8], at: usize) -> (n: u32)
    requires
        at + 4 <= bytes@.len(),
    ensures
        n == be32_at(bytes@, at as int),
{
    assert(bytes.len() == bytes@.len());
    read16(bytes, at) as u32 * 0x1_0000 + read16(bytes, at + 2) as u32
}

/// Returns the number of eight bytes at position `at`.
pub fn read64(bytes: &[u8], at: usize) -> (n: u64)
    requires
        at + 8 <= bytes@.len(),
    ensures
        n == be64_at(bytes@, at as int),
{
    assert(bytes.len() == bytes@.len());
    read32(bytes, at) as u64 * 0x1_0000_0000 + read32(bytes, at + 4) as u64
}

/// The high bytes of a number come first, where it is written and where it is read.
pub proof fn law_high_bytes_come_first(bytes: Seq<u8>, n: u64)
    ensures
        n < 0x1_0000 ==> be16(n as int)[0] * 0x100 + be16(n as int)[1] == n,
        be32(n as int) == be16(n as int / 0x1_0000) + be16(n as int),
        be64(n as int) == be32(n as int / 0x1_0000_0000) + be32(n as int),
        be16_at(bytes, 0) == bytes[0] * 0x100 + bytes[1],
        be32_at(bytes, 0) == bytes[0] * 0x100_0000 + bytes[1] * 0x1_0000 + bytes[2] * 0x100 + bytes[3],
{
    reveal(be16);
    reveal(be32);
    reveal(be64);
}

/// A number that may be negative can be read back: from the middle on, numbers stand for negative
/// ones.
pub proof fn law_signed_numbers_are_read_back(before: Seq<u8>, n: i64, after: Seq<u8>)
    ensures
        ({
            let read = be64_at(before + signed64(n) + after, before.len() as int);
            n == (if read < 0x8000_0000_0000_0000 {
                read
            } else {
                read - 0x1_0000_0000_0000_0000
            })
        }),
{
    let written: int = if n < 0 {
        n + 0x1_0000_0000_0000_0000
    } else {
        n as int
    };
    law_numbers_are_read_back(before, written as u64, after);
}

} // verus!
