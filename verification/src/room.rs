//! Room for the lengths that a binary announces.
//!
//! The `wasmparser` crate adds a length that a binary announces to an offset
//! before it holds the sum against the bytes that there are. Where an offset has
//! no more bits than a length, that sum need not be an offset. What is said here
//! is which binaries announce such a length, at a place where it is read.

use vstd::prelude::*;

verus! {

/// The `u32` that bytes start with in the LEB128 notation, and how many bytes it
/// takes, where it takes no more than `limit` of at most five.
pub open spec fn leading(data: Seq<u8>, limit: nat) -> Option<(nat, nat)>
    decreases limit,
{
    if data.len() == 0 || limit == 0 {
        None
    } else if data[0] < 128 {
        if limit == 1 && data[0] >= 16 {
            None
        } else {
            Some((data[0] as nat, 1))
        }
    } else {
        match leading(data.drop_first(), (limit - 1) as nat) {
            Some((n, count)) => Some(((data[0] - 128 + 128 * n) as nat, count + 1)),
            None => None,
        }
    }
}

/// The `u32` that bytes start with in the LEB128 notation, and how many bytes it
/// takes.
pub open spec fn leading_u32(data: Seq<u8>) -> Option<(nat, nat)> {
    leading(data, 5)
}

/// What numbers of at most so many bytes stay below.
spec fn bound(limit: nat) -> nat
    decreases limit,
{
    if limit <= 1 {
        16
    } else {
        128 * bound((limit - 1) as nat)
    }
}

/// Reads the number at `at`, in at most `limit` bytes.
fn read_leading(data: &[u8], at: usize, limit: usize) -> (r: Option<(u64, usize)>)
    requires
        at <= data@.len(),
        limit <= 5,
    ensures
        match (r, leading(data@.skip(at as int), limit as nat)) {
            (Some((n, count)), Some((number, bytes))) => {
                &&& n == number
                &&& count == bytes
                &&& n < bound(limit as nat)
                &&& 0 < count
                &&& at + count <= data@.len()
            },
            (None, None) => true,
            _ => false,
        },
    decreases limit,
{
    let ghost rest = data@.skip(at as int);
    if at == data.len() || limit == 0 {
        return None;
    }
    let byte = data[at];
    assert(rest[0] == byte);
    proof {
        assert(bound(5) == 0x1_0000_0000) by {
            reveal_with_fuel(bound, 5);
        }
        lemma_bound(limit as nat);
    }
    if byte < 128 {
        if limit == 1 && byte >= 16 {
            None
        } else {
            Some((byte as u64, 1))
        }
    } else {
        assert(rest.drop_first() =~= data@.skip(at + 1));
        match read_leading(data, at + 1, limit - 1) {
            Some((n, count)) => {
                proof {
                    lemma_bound((limit - 1) as nat);
                }
                Some(((byte - 128) as u64 + 128 * n, count + 1))
            },
            None => None,
        }
    }
}

/// What numbers stay below, where there are two bytes to take or more.
proof fn lemma_bound(limit: nat)
    requires
        limit <= 5,
    ensures
        16 <= bound(limit) <= 0x1_0000_0000,
        limit >= 2 ==> bound(limit) == 128 * bound((limit - 1) as nat),
        limit >= 2 ==> bound(limit) >= 2048,
{
    reveal_with_fuel(bound, 6);
}

/// Reads the number at `at`, and how many bytes it takes.
fn read_u32(data: &[u8], at: usize) -> (r: Option<(u32, usize)>)
    requires
        at <= data@.len(),
    ensures
        match (r, leading_u32(data@.skip(at as int))) {
            (Some((n, count)), Some((number, bytes))) => {
                &&& n == number
                &&& count == bytes
                &&& 0 < count
                &&& at + count <= data@.len()
            },
            (None, None) => true,
            _ => false,
        },
{
    proof {
        lemma_bound(5);
    }
    match read_leading(data, at, 5) {
        Some((n, count)) => Some((n as u32, count)),
        None => None,
    }
}

/// Whether the length that the next payload of a binary announces leaves room,
/// where `before` bytes have been consumed and `data` follows. While the bodies
/// of the code section are handed out, of which `bodies` are left, it is the
/// length of a body; otherwise it is that of a section, where the one before has
/// ended, at `end`.
pub open spec fn payload_fits(before: nat, data: Seq<u8>, bodies: nat, end: nat) -> bool {
    if before == 0 {
        true
    } else if bodies > 0 {
        leading_u32(data) matches Some((n, count)) ==> count + n <= usize::MAX
    } else if end != before || data.len() == 0 || data[0] >= 128 {
        true
    } else {
        leading_u32(data.skip(1)) matches Some((n, count)) ==> section_fits(
            before,
            data,
            1 + count,
            n,
        )
    }
}

/// Whether the length `n` of a section whose header takes `header` bytes leaves
/// room. Of custom, start, code, data count and module sections the end is
/// reckoned from the start of the binary, of code and module sections once the
/// number of items has been read; of all others it is reckoned from the start of
/// the section.
pub open spec fn section_fits(before: nat, data: Seq<u8>, header: nat, n: nat) -> bool {
    if data[0] == 10 || data[0] == 14 {
        leading_u32(data.skip(header as int)) is Some ==> before + header + n <= usize::MAX
    } else if data[0] == 0 || data[0] == 8 || data[0] == 12 {
        before + header + n <= usize::MAX
    } else {
        header + n <= usize::MAX
    }
}

/// Whether a length leaves room behind an offset.
fn has_room(offset: usize, n: u32) -> (r: bool)
    ensures
        r == (offset + n <= usize::MAX),
{
    n as usize <= usize::MAX - offset
}

/// Whether the length that the payload at `position` announces leaves room.
pub fn payload_has_room(bytes: &[u8], position: usize, bodies: u32, end: usize) -> (r: bool)
    requires
        position <= bytes@.len(),
    ensures
        r == payload_fits(
            position as nat,
            bytes@.skip(position as int),
            bodies as nat,
            end as nat,
        ),
{
    let ghost data = bytes@.skip(position as int);
    if position == 0 {
        return true;
    }
    if bodies > 0 {
        return match read_u32(bytes, position) {
            Some((n, count)) => has_room(count, n),
            None => true,
        };
    }
    if end != position || position == bytes.len() {
        return true;
    }
    let id = bytes[position];
    assert(data[0] == id);
    if id >= 128 {
        return true;
    }
    assert(data.skip(1) =~= bytes@.skip(position + 1));
    match read_u32(bytes, position + 1) {
        Some((n, count)) => {
            let header = 1 + count;
            assert(data.skip(header as int) =~= bytes@.skip(position + header));
            if id == 10 || id == 14 {
                match read_u32(bytes, position + header) {
                    Some(_) => has_room(position + header, n),
                    None => true,
                }
            } else if id == 0 || id == 8 || id == 12 {
                has_room(position + header, n)
            } else {
                has_room(header, n)
            }
        },
        None => true,
    }
}

/// Where a number in the LEB128 notation that starts at `at` ends, where it
/// takes no more than `limit` bytes.
pub open spec fn number_end(data: Seq<u8>, at: nat, limit: nat) -> Option<nat>
    decreases limit,
{
    if at >= data.len() || limit == 0 {
        None
    } else if data[at as int] < 128 {
        Some(at + 1)
    } else {
        number_end(data, at + 1, (limit - 1) as nat)
    }
}

/// Where the offset of a data segment ends that starts at `at`, where it is a
/// constant or the value of a global.
pub open spec fn offset_end(data: Seq<u8>, at: nat) -> Option<nat> {
    if at < data.len() && (data[at as int] == 0x41 || data[at as int] == 0x23) {
        match number_end(data, at + 1, 5) {
            Some(end) if end < data.len() && data[end as int] == 0x0b => Some(end + 1),
            _ => None,
        }
    } else {
        None
    }
}

/// Where the length of the data segment at `at` stands, whose flags are the
/// given ones and take `count` bytes: behind the offset, and that behind the
/// index of a memory, where it has them.
pub open spec fn length_offset(data: Seq<u8>, at: nat, flags: nat, count: nat) -> Option<nat> {
    if flags == 1 {
        Some(at + count)
    } else if flags == 0 {
        offset_end(data, at + count)
    } else {
        match leading_u32(data.skip((at + count) as int)) {
            Some((_, bytes)) => offset_end(data, at + count + bytes),
            None => None,
        }
    }
}

/// Whether every number from `at` on leaves room, wherever it starts.
pub open spec fn numbers_fit(data: Seq<u8>, at: nat) -> bool {
    forall|i: int|
        #![trigger data.skip(i)]
        at <= i < data.len() ==> (leading_u32(data.skip(i)) matches Some((n, count)) ==> i + count
            + n <= usize::MAX)
}

/// Whether the lengths of so many data segments from `at` on leave room, up to
/// the first one that is malformed or reaches past the end of the section. Where
/// the offset of a segment is neither a constant nor the value of a global, its
/// length may stand anywhere behind.
pub open spec fn segments_fit(data: Seq<u8>, at: nat, left: nat) -> bool
    decreases left,
{
    if left == 0 {
        true
    } else {
        match leading_u32(data.skip(at as int)) {
            None => true,
            Some((flags, count)) => flags > 2 || match length_offset(data, at, flags, count) {
                None => numbers_fit(data, at),
                Some(position) => match leading_u32(data.skip(position as int)) {
                    None => true,
                    Some((n, bytes)) => {
                        let end = position + bytes + n;
                        &&& end <= usize::MAX
                        &&& end <= data.len() ==> segments_fit(data, end, (left - 1) as nat)
                    },
                },
            },
        }
    }
}

/// Whether the lengths that a data section with the given contents announces
/// leave room.
pub open spec fn data_fits(contents: Seq<u8>) -> bool {
    leading_u32(contents) matches Some((left, count)) ==> segments_fit(contents, count, left)
}

/// Where a number in the LEB128 notation that starts at `at` ends.
fn find_number_end(data: &[u8], at: usize, limit: usize) -> (r: Option<usize>)
    requires
        at <= data@.len(),
    ensures
        match (r, number_end(data@, at as nat, limit as nat)) {
            (Some(end), Some(position)) => end == position && end <= data@.len(),
            (None, None) => true,
            _ => false,
        },
    decreases limit,
{
    if at == data.len() || limit == 0 {
        None
    } else if data[at] < 128 {
        Some(at + 1)
    } else {
        find_number_end(data, at + 1, limit - 1)
    }
}

/// Where the offset of a data segment ends.
fn find_offset_end(data: &[u8], at: usize) -> (r: Option<usize>)
    requires
        at <= data@.len(),
    ensures
        match (r, offset_end(data@, at as nat)) {
            (Some(end), Some(position)) => end == position && end <= data@.len(),
            (None, None) => true,
            _ => false,
        },
{
    if at < data.len() && (data[at] == 0x41 || data[at] == 0x23) {
        match find_number_end(data, at + 1, 5) {
            Some(end) => {
                if end < data.len() && data[end] == 0x0b {
                    Some(end + 1)
                } else {
                    None
                }
            },
            None => None,
        }
    } else {
        None
    }
}

/// Where the length of a data segment stands.
fn find_length(data: &[u8], at: usize, flags: u32, count: usize) -> (r: Option<usize>)
    requires
        at + count <= data@.len(),
    ensures
        match (r, length_offset(data@, at as nat, flags as nat, count as nat)) {
            (Some(end), Some(position)) => end == position && end <= data@.len(),
            (None, None) => true,
            _ => false,
        },
{
    let len = data.len();
    assert(at + count <= len);
    if flags == 1 {
        Some(at + count)
    } else if flags == 0 {
        find_offset_end(data, at + count)
    } else {
        match read_u32(data, at + count) {
            Some((_, bytes)) => {
                assert(at + count + bytes <= len);
                find_offset_end(data, at + count + bytes)
            },
            None => None,
        }
    }
}

/// Whether every number from `at` on leaves room.
fn numbers_have_room(data: &[u8], at: usize) -> (r: bool)
    requires
        at <= data@.len(),
    ensures
        r == numbers_fit(data@, at as nat),
{
    for i in at..data.len()
        invariant
            at <= data@.len(),
            forall|j: int|
                #![trigger data@.skip(j)]
                at <= j < i ==> (leading_u32(data@.skip(j)) matches Some((n, count)) ==> j + count
                    + n <= usize::MAX),
    {
        if let Some((n, count)) = read_u32(data, i) {
            if !has_room(i + count, n) {
                return false;
            }
        }
    }
    true
}

/// Whether the lengths that a data section announces leave room.
pub fn data_has_room(contents: &[u8]) -> (r: bool)
    ensures
        r == data_fits(contents@),
{
    let len = contents.len();
    assert(contents@.skip(0) =~= contents@);
    let (mut left, mut at) = match read_u32(contents, 0) {
        Some((left, count)) => (left, count),
        None => return true,
    };
    while left > 0
        invariant
            at <= len == contents@.len(),
            data_fits(contents@) == segments_fit(contents@, at as nat, left as nat),
        decreases left,
    {
        let (flags, count) = match read_u32(contents, at) {
            Some(number) => number,
            None => return true,
        };
        if flags > 2 {
            return true;
        }
        let position = match find_length(contents, at, flags, count) {
            Some(position) => position,
            None => return numbers_have_room(contents, at),
        };
        let (n, bytes) = match read_u32(contents, position) {
            Some(number) => number,
            None => return true,
        };
        assert(position + bytes <= len);
        let start = position + bytes;
        if !has_room(start, n) {
            return false;
        }
        if n as usize > len - start {
            return true;
        }
        at = start + n as usize;
        left = left - 1;
    }
    true
}

/// Whether all numbers in bytes, wherever they start, leave room behind the first
/// `len` of them.
pub open spec fn small_numbers(data: Seq<u8>, len: nat) -> bool {
    forall|i: int|
        #![trigger data.skip(i)]
        0 <= i <= data.len() ==> (leading_u32(data.skip(i)) matches Some((n, _)) ==> len + n
            <= usize::MAX)
}

/// A number is a `u32`, and is made of some of the bytes.
pub proof fn lemma_leading(data: Seq<u8>, limit: nat)
    requires
        limit <= 5,
    ensures
        leading(data, limit) matches Some((n, count)) ==> n <= u32::MAX && 0 < count <= data.len(),
{
    lemma_leading_bound(data, limit);
    lemma_bound(limit);
}

/// What a number of at most so many bytes stays below.
proof fn lemma_leading_bound(data: Seq<u8>, limit: nat)
    requires
        limit <= 5,
    ensures
        leading(data, limit) matches Some((n, count)) ==> n < bound(limit) && 0 < count
            <= data.len(),
    decreases limit,
{
    lemma_bound(limit);
    if limit > 0 && data.len() > 0 {
        lemma_leading_bound(data.drop_first(), (limit - 1) as nat);
    }
}

/// A number stays the same with more bytes behind it.
proof fn lemma_leading_prefix(data: Seq<u8>, more: Seq<u8>, limit: nat)
    requires
        data.len() <= more.len(),
        more.take(data.len() as int) == data,
        leading(data, limit) is Some,
    ensures
        leading(more, limit) == leading(data, limit),
    decreases limit,
{
    assert(more[0] == more.take(data.len() as int)[0]);
    if data[0] >= 128 {
        let fewer = data.drop_first();
        assert(more.drop_first().take(fewer.len() as int) =~= fewer);
        lemma_leading_prefix(fewer, more.drop_first(), (limit - 1) as nat);
    }
}

/// The numbers in part of some bytes are numbers in the bytes.
pub proof fn lemma_small_numbers_part(data: Seq<u8>, start: int, end: int, len: nat)
    requires
        small_numbers(data, len),
        0 <= start <= end <= data.len(),
    ensures
        small_numbers(data.subrange(start, end), len),
{
    let part = data.subrange(start, end);
    assert forall|i: int|
        #![trigger part.skip(i)]
        0 <= i <= part.len() implies (leading_u32(part.skip(i)) matches Some((n, _)) ==> len + n
        <= usize::MAX) by {
        if leading_u32(part.skip(i)) is Some {
            let rest = data.skip(start + i);
            assert(rest.take(part.skip(i).len() as int) =~= part.skip(i));
            lemma_leading_prefix(part.skip(i), rest, 5);
        }
    }
}

/// Where a number ends.
proof fn lemma_number_end(data: Seq<u8>, at: nat, limit: nat)
    ensures
        number_end(data, at, limit) matches Some(end) ==> at < end <= data.len(),
    decreases limit,
{
    if limit > 0 {
        lemma_number_end(data, at + 1, (limit - 1) as nat);
    }
}

/// Small numbers leave room in data segments.
proof fn lemma_segments_fit(data: Seq<u8>, at: nat, left: nat, len: nat)
    requires
        small_numbers(data, len),
        data.len() <= len,
        at <= data.len(),
    ensures
        segments_fit(data, at, left),
    decreases left,
{
    if left > 0 {
        lemma_leading(data.skip(at as int), 5);
        if let Some((flags, count)) = leading_u32(data.skip(at as int)) {
            lemma_number_end(data, at + count + 1, 5);
            lemma_leading(data.skip((at + count) as int), 5);
            if let Some((_, bytes)) = leading_u32(data.skip((at + count) as int)) {
                lemma_number_end(data, at + count + bytes + 1, 5);
            }
            match length_offset(data, at, flags, count) {
                None => {
                    assert forall|i: int|
                        #![trigger data.skip(i)]
                        at <= i < data.len() implies (leading_u32(data.skip(i)) matches Some(
                        (n, count),
                    ) ==> i + count + n <= usize::MAX) by {
                        lemma_leading(data.skip(i), 5);
                    }
                },
                Some(position) => {
                    if flags <= 2 {
                        assert(position <= data.len());
                        lemma_leading(data.skip(position as int), 5);
                        if let Some((n, bytes)) = leading_u32(data.skip(position as int)) {
                            let end = position + bytes + n;
                            if end <= data.len() {
                                lemma_segments_fit(data, end, (left - 1) as nat, len);
                            }
                        }
                    }
                },
            }
        }
    }
}

/// Small numbers leave room in a data section.
pub proof fn lemma_data_fits(contents: Seq<u8>, len: nat)
    requires
        small_numbers(contents, len),
        contents.len() <= len,
    ensures
        data_fits(contents),
{
    lemma_leading(contents, 5);
    if let Some((left, count)) = leading_u32(contents) {
        lemma_segments_fit(contents, count, left, len);
    }
}

/// Small numbers leave room in a payload.
pub proof fn lemma_payload_fits(bytes: Seq<u8>, position: nat, bodies: nat, end: nat)
    requires
        small_numbers(bytes, bytes.len()),
        position <= bytes.len(),
    ensures
        payload_fits(position, bytes.skip(position as int), bodies, end),
{
    let data = bytes.skip(position as int);
    lemma_leading(data, 5);
    if data.len() > 0 {
        assert(data.skip(1) =~= bytes.skip(position as int + 1));
        lemma_leading(data.skip(1), 5);
    }
}

} // verus!
