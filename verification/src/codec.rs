//! The byte encoding of the values that a partition is made of.
//!
//! Integers are little-endian, a byte string carries its length in front, an
//! optional value a tag byte. Every reader states what it reads in terms of a
//! specification parser, and every specification parser reads back what the
//! matching writer wrote, wherever in a buffer it stands.

use vstd::bytes::*;
use vstd::prelude::*;
use vstd::slice::{slice_subrange, slice_to_vec};

verus! {

/// Whether `part` stands in `bytes` from `at` on.
pub open spec fn stands_at(bytes: Seq<u8>, at: int, part: Seq<u8>) -> bool {
    &&& 0 <= at
    &&& at + part.len() <= bytes.len()
    &&& bytes.subrange(at, at + part.len()) == part
}

/// Where `first + second` stands, `first` stands, and `second` behind it.
pub proof fn lemma_stands_at_split(bytes: Seq<u8>, at: int, first: Seq<u8>, second: Seq<u8>)
    requires
        stands_at(bytes, at, first + second),
    ensures
        stands_at(bytes, at, first),
        stands_at(bytes, at + first.len(), second),
{
    let whole = first + second;
    assert(bytes.subrange(at, at + first.len()) =~= whole.subrange(0, first.len() as int));
    assert(whole.subrange(0, first.len() as int) =~= first);
    assert(bytes.subrange(at + first.len(), at + first.len() + second.len()) =~= whole.subrange(
        first.len() as int,
        whole.len() as int,
    ));
    assert(whole.subrange(first.len() as int, whole.len() as int) =~= second);
}

/// A 64-bit integer: eight bytes, least significant first.
pub open spec fn encoded_u64(value: u64) -> Seq<u8> {
    spec_u64_to_le_bytes(value)
}

/// Reads a 64-bit integer at `at`: the value and the position behind it.
pub open spec fn parsed_u64(bytes: Seq<u8>, at: int) -> Option<(u64, int)> {
    if 0 <= at && at + 8 <= bytes.len() {
        Some((spec_u64_from_le_bytes(bytes.subrange(at, at + 8)), at + 8))
    } else {
        None
    }
}

/// A 64-bit integer is read back as it was written.
pub proof fn lemma_u64_round_trip(bytes: Seq<u8>, at: int, value: u64)
    requires
        stands_at(bytes, at, encoded_u64(value)),
    ensures
        encoded_u64(value).len() == 8,
        parsed_u64(bytes, at) == Some((value, at + 8)),
{
    lemma_auto_spec_u64_to_from_le_bytes();
}

/// Appends a 64-bit integer.
pub fn put_u64(out: &mut Vec<u8>, value: u64)
    ensures
        final(out)@ == old(out)@ + encoded_u64(value),
{
    let mut bytes = u64_to_le_bytes(value);
    out.append(&mut bytes);
}

/// Reads a 64-bit integer at `at`.
pub fn take_u64(bytes: &Vec<u8>, at: usize) -> (read: Option<(u64, usize)>)
    ensures
        match parsed_u64(bytes@, at as int) {
            Some((value, next)) => read == Some((value, next as usize)) && next <= bytes.len(),
            None => read is None,
        },
{
    if at > bytes.len() || bytes.len() - at < 8 {
        return None;
    }
    let slice = slice_subrange(bytes.as_slice(), at, at + 8);
    Some((u64_from_le_bytes(slice), at + 8))
}

/// A 32-bit integer: four bytes, least significant first.
pub open spec fn encoded_u32(value: u32) -> Seq<u8> {
    spec_u32_to_le_bytes(value)
}

/// Reads a 32-bit integer at `at`: the value and the position behind it.
pub open spec fn parsed_u32(bytes: Seq<u8>, at: int) -> Option<(u32, int)> {
    if 0 <= at && at + 4 <= bytes.len() {
        Some((spec_u32_from_le_bytes(bytes.subrange(at, at + 4)), at + 4))
    } else {
        None
    }
}

/// A 32-bit integer is read back as it was written.
pub proof fn lemma_u32_round_trip(bytes: Seq<u8>, at: int, value: u32)
    requires
        stands_at(bytes, at, encoded_u32(value)),
    ensures
        encoded_u32(value).len() == 4,
        parsed_u32(bytes, at) == Some((value, at + 4)),
{
    lemma_auto_spec_u32_to_from_le_bytes();
}

/// Appends a 32-bit integer.
pub fn put_u32(out: &mut Vec<u8>, value: u32)
    ensures
        final(out)@ == old(out)@ + encoded_u32(value),
{
    let mut bytes = u32_to_le_bytes(value);
    out.append(&mut bytes);
}

/// Reads a 32-bit integer at `at`.
pub fn take_u32(bytes: &Vec<u8>, at: usize) -> (read: Option<(u32, usize)>)
    ensures
        match parsed_u32(bytes@, at as int) {
            Some((value, next)) => read == Some((value, next as usize)) && next <= bytes.len(),
            None => read is None,
        },
{
    if at > bytes.len() || bytes.len() - at < 4 {
        return None;
    }
    let slice = slice_subrange(bytes.as_slice(), at, at + 4);
    Some((u32_from_le_bytes(slice), at + 4))
}

/// A truth value: one byte, 1 or 0.
pub open spec fn encoded_bool(value: bool) -> Seq<u8> {
    seq![if value { 1u8 } else { 0u8 }]
}

/// Reads a truth value at `at`. Any byte but 0 and 1 is malformed.
pub open spec fn parsed_bool(bytes: Seq<u8>, at: int) -> Option<(bool, int)> {
    if 0 <= at < bytes.len() && bytes[at] <= 1 {
        Some((bytes[at] == 1, at + 1))
    } else {
        None
    }
}

/// A truth value is read back as it was written.
pub proof fn lemma_bool_round_trip(bytes: Seq<u8>, at: int, value: bool)
    requires
        stands_at(bytes, at, encoded_bool(value)),
    ensures
        encoded_bool(value).len() == 1,
        parsed_bool(bytes, at) == Some((value, at + 1)),
{
    assert(bytes.subrange(at, at + 1)[0] == encoded_bool(value)[0]);
}

/// Appends a truth value.
pub fn put_bool(out: &mut Vec<u8>, value: bool)
    ensures
        final(out)@ == old(out)@ + encoded_bool(value),
{
    out.push(if value { 1 } else { 0 });
    assert(out@ =~= old(out)@ + encoded_bool(value));
}

/// Reads a truth value at `at`.
pub fn take_bool(bytes: &Vec<u8>, at: usize) -> (read: Option<(bool, usize)>)
    ensures
        match parsed_bool(bytes@, at as int) {
            Some((value, next)) => read == Some((value, next as usize)) && next <= bytes.len(),
            None => read is None,
        },
{
    if at >= bytes.len() || bytes[at] > 1 {
        return None;
    }
    Some((bytes[at] == 1, at + 1))
}

/// A byte string: its length as a 64-bit integer, then the bytes.
pub open spec fn encoded_blob(content: Seq<u8>) -> Seq<u8> {
    encoded_u64(content.len() as u64) + content
}

/// Reads a byte string at `at`. A length that reaches past the end of the
/// buffer is malformed.
pub open spec fn parsed_blob(bytes: Seq<u8>, at: int) -> Option<(Seq<u8>, int)> {
    match parsed_u64(bytes, at) {
        Some((length, start)) => if start + length <= bytes.len() {
            Some((bytes.subrange(start, start + length), start + length))
        } else {
            None
        },
        None => None,
    }
}

/// A byte string is read back as it was written.
pub proof fn lemma_blob_round_trip(bytes: Seq<u8>, at: int, content: Seq<u8>)
    requires
        content.len() <= u64::MAX,
        stands_at(bytes, at, encoded_blob(content)),
    ensures
        encoded_blob(content).len() == 8 + content.len(),
        parsed_blob(bytes, at) == Some((content, at + 8 + content.len())),
{
    lemma_stands_at_split(bytes, at, encoded_u64(content.len() as u64), content);
    lemma_u64_round_trip(bytes, at, content.len() as u64);
}

/// Appends a byte string.
pub fn put_blob(out: &mut Vec<u8>, content: &Vec<u8>)
    ensures
        final(out)@ == old(out)@ + encoded_blob(content@),
{
    put_u64(out, content.len() as u64);
    let mut copy = slice_to_vec(content.as_slice());
    out.append(&mut copy);
    assert(out@ =~= old(out)@ + encoded_blob(content@));
}

/// Reads a byte string at `at`.
pub fn take_blob(bytes: &Vec<u8>, at: usize) -> (read: Option<(Vec<u8>, usize)>)
    ensures
        match parsed_blob(bytes@, at as int) {
            Some((content, next)) => {
                &&& read matches Some(found)
                &&& found.0@ == content
                &&& found.1 == next
                &&& next <= bytes.len()
            },
            None => read is None,
        },
{
    let (length, start) = match take_u64(bytes, at) {
        Some(header) => header,
        None => {
            return None;
        },
    };
    if length > (bytes.len() - start) as u64 {
        return None;
    }
    let end = start + length as usize;
    let content = slice_to_vec(slice_subrange(bytes.as_slice(), start, end));
    Some((content, end))
}

/// An optional 32-bit integer: a tag byte, 1 with the integer behind it or 0
/// alone.
pub open spec fn encoded_option_u32(value: Option<u32>) -> Seq<u8> {
    match value {
        Some(inner) => encoded_bool(true) + encoded_u32(inner),
        None => encoded_bool(false),
    }
}

/// Reads an optional 32-bit integer at `at`.
pub open spec fn parsed_option_u32(bytes: Seq<u8>, at: int) -> Option<(Option<u32>, int)> {
    match parsed_bool(bytes, at) {
        Some((present, start)) => if present {
            match parsed_u32(bytes, start) {
                Some((inner, next)) => Some((Some(inner), next)),
                None => None,
            }
        } else {
            Some((None, start))
        },
        None => None,
    }
}

/// An optional 32-bit integer is read back as it was written.
pub proof fn lemma_option_u32_round_trip(bytes: Seq<u8>, at: int, value: Option<u32>)
    requires
        stands_at(bytes, at, encoded_option_u32(value)),
    ensures
        parsed_option_u32(bytes, at) == Some((value, at + encoded_option_u32(value).len())),
{
    match value {
        Some(inner) => {
            lemma_stands_at_split(bytes, at, encoded_bool(true), encoded_u32(inner));
            lemma_bool_round_trip(bytes, at, true);
            lemma_u32_round_trip(bytes, at + 1, inner);
        },
        None => {
            lemma_bool_round_trip(bytes, at, false);
        },
    }
}

/// Appends an optional 32-bit integer.
pub fn put_option_u32(out: &mut Vec<u8>, value: Option<u32>)
    ensures
        final(out)@ == old(out)@ + encoded_option_u32(value),
{
    match value {
        Some(inner) => {
            put_bool(out, true);
            put_u32(out, inner);
            assert(out@ =~= old(out)@ + encoded_option_u32(value));
        },
        None => {
            put_bool(out, false);
        },
    }
}

/// Reads an optional 32-bit integer at `at`.
pub fn take_option_u32(bytes: &Vec<u8>, at: usize) -> (read: Option<(Option<u32>, usize)>)
    ensures
        match parsed_option_u32(bytes@, at as int) {
            Some((value, next)) => read == Some((value, next as usize)) && next <= bytes.len(),
            None => read is None,
        },
{
    let (present, start) = match take_bool(bytes, at) {
        Some(tag) => tag,
        None => {
            return None;
        },
    };
    if present {
        match take_u32(bytes, start) {
            Some((inner, next)) => Some((Some(inner), next)),
            None => None,
        }
    } else {
        Some((None, start))
    }
}

/// The view of an optional byte string.
pub open spec fn option_blob_view(value: Option<Vec<u8>>) -> Option<Seq<u8>> {
    match value {
        Some(inner) => Some(inner@),
        None => None,
    }
}

/// An optional byte string: a tag byte, 1 with the byte string behind it or
/// 0 alone.
pub open spec fn encoded_option_blob(value: Option<Seq<u8>>) -> Seq<u8> {
    match value {
        Some(inner) => encoded_bool(true) + encoded_blob(inner),
        None => encoded_bool(false),
    }
}

/// Reads an optional byte string at `at`.
pub open spec fn parsed_option_blob(bytes: Seq<u8>, at: int) -> Option<(Option<Seq<u8>>, int)> {
    match parsed_bool(bytes, at) {
        Some((present, start)) => if present {
            match parsed_blob(bytes, start) {
                Some((inner, next)) => Some((Some(inner), next)),
                None => None,
            }
        } else {
            Some((None, start))
        },
        None => None,
    }
}

/// An optional byte string is read back as it was written.
pub proof fn lemma_option_blob_round_trip(bytes: Seq<u8>, at: int, value: Option<Seq<u8>>)
    requires
        value matches Some(inner) ==> inner.len() <= u64::MAX,
        stands_at(bytes, at, encoded_option_blob(value)),
    ensures
        parsed_option_blob(bytes, at) == Some((value, at + encoded_option_blob(value).len())),
{
    match value {
        Some(inner) => {
            lemma_stands_at_split(bytes, at, encoded_bool(true), encoded_blob(inner));
            lemma_bool_round_trip(bytes, at, true);
            lemma_blob_round_trip(bytes, at + 1, inner);
        },
        None => {
            lemma_bool_round_trip(bytes, at, false);
        },
    }
}

/// Appends an optional byte string.
pub fn put_option_blob(out: &mut Vec<u8>, value: &Option<Vec<u8>>)
    ensures
        final(out)@ == old(out)@ + encoded_option_blob(option_blob_view(*value)),
{
    match value {
        Some(inner) => {
            put_bool(out, true);
            put_blob(out, inner);
            assert(out@ =~= old(out)@ + encoded_option_blob(option_blob_view(*value)));
        },
        None => {
            put_bool(out, false);
        },
    }
}

/// Reads an optional byte string at `at`.
pub fn take_option_blob(bytes: &Vec<u8>, at: usize) -> (read: Option<(Option<Vec<u8>>, usize)>)
    ensures
        match parsed_option_blob(bytes@, at as int) {
            Some((value, next)) => {
                &&& read matches Some(found)
                &&& option_blob_view(found.0) == value
                &&& found.1 == next
                &&& next <= bytes.len()
            },
            None => read is None,
        },
{
    let (present, start) = match take_bool(bytes, at) {
        Some(tag) => tag,
        None => {
            return None;
        },
    };
    if present {
        match take_blob(bytes, start) {
            Some((inner, next)) => Some((Some(inner), next)),
            None => None,
        }
    } else {
        Some((None, start))
    }
}

/// A copy of a byte string.
pub fn copy_bytes(bytes: &Vec<u8>) -> (copy: Vec<u8>)
    ensures
        copy@ == bytes@,
{
    slice_to_vec(bytes.as_slice())
}

} // verus!
