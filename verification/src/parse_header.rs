//! Finding and decoding one response header in a buffer.

use crate::ascii::{CR, LF};
use crate::response_flags::{
    flags_from, sized_flags_view, value_header, ResponseFlags, ResponseFlagsView,
};
use vstd::prelude::*;

verus! {

/// The letter `A` in a tag.
pub const TAG_A: u8 = 0x41;

/// The letter `D` in a tag.
pub const TAG_D: u8 = 0x44;

/// The letter `E` in a tag.
pub const TAG_E: u8 = 0x45;

/// The letter `F` in a tag.
pub const TAG_F: u8 = 0x46;

/// The letter `H` in a tag.
pub const TAG_H: u8 = 0x48;

/// The letter `K` in a tag.
pub const TAG_K: u8 = 0x4b;

/// The letter `M` in a tag.
pub const TAG_M: u8 = 0x4d;

/// The letter `N` in a tag.
pub const TAG_N: u8 = 0x4e;

/// The letter `O` in a tag.
pub const TAG_O: u8 = 0x4f;

/// The letter `S` in a tag.
pub const TAG_S: u8 = 0x53;

/// The letter `V` in a tag.
pub const TAG_V: u8 = 0x56;

/// The letter `X` in a tag.
pub const TAG_X: u8 = 0x58;

/// What kind of response a header announces.
#[derive(Debug, Clone, Copy, PartialEq, Eq, Structural)]
pub enum ResponseType {
    /// `VA`: a value follows the header.
    Value,
    /// `HD` or `OK`: the command succeeded.
    Success,
    /// `NS`: the item was not stored.
    NotStored,
    /// `EX`: the item exists with another CAS token.
    Conflict,
    /// `EN` or `NF`: the item was not found.
    Miss,
    /// `MN`: the reply to a no-op.
    Noop,
    /// Any other tag.
    Unrecognized,
}

/// The kind of response that the two bytes of a tag stand for.
pub open spec fn tag_type(first: u8, second: u8) -> ResponseType {
    if first == TAG_V && second == TAG_A {
        ResponseType::Value
    } else if (first == TAG_H && second == TAG_D) || (first == TAG_O && second == TAG_K) {
        ResponseType::Success
    } else if first == TAG_N && second == TAG_S {
        ResponseType::NotStored
    } else if first == TAG_E && second == TAG_X {
        ResponseType::Conflict
    } else if (first == TAG_E && second == TAG_N) || (first == TAG_N && second == TAG_F) {
        ResponseType::Miss
    } else if first == TAG_M && second == TAG_N {
        ResponseType::Noop
    } else {
        ResponseType::Unrecognized
    }
}

/// The index of the first line terminator (CR, then LF) in `s`, or the length
/// of `s` where it holds none.
pub open spec fn first_terminator(s: Seq<u8>) -> nat
    decreases s.len(),
{
    if s.len() < 2 {
        s.len()
    } else if s[0] == CR && s[1] == LF {
        0
    } else {
        1 + first_terminator(s.drop_first())
    }
}

/// `s` holds a line terminator.
pub open spec fn has_terminator(s: Seq<u8>) -> bool {
    first_terminator(s) + 2 <= s.len()
}

/// What a header line says, the line taken without its terminator and with at
/// least the two bytes of its tag: the kind of response, the size of the value
/// and the flags. A value header without a size, and a header with an unknown
/// tag, say nothing.
pub open spec fn header_content(line: Seq<u8>) -> (
    Option<ResponseType>,
    Option<u32>,
    Option<ResponseFlagsView>,
) {
    match tag_type(line[0], line[1]) {
        ResponseType::Value => match value_header(line) {
            Some((size, flags)) => (Some(ResponseType::Value), Some(size), Some(flags)),
            None => (None, None, None),
        },
        ResponseType::Success => (Some(ResponseType::Success), None, Some(flags_from(line, 3))),
        ResponseType::Unrecognized => (None, None, None),
        other => (Some(other), None, None),
    }
}

/// Where the window of a call ends: at `end`, or at the end of `data` where
/// `end` lies behind it.
pub open spec fn window_end(data: Seq<u8>, end: int) -> int {
    if end < data.len() {
        end
    } else {
        data.len() as int
    }
}

/// The header that stands at `start` in the window of `data` that ends at
/// `end`: the index behind its terminator, and what it says. `None` where the
/// window is shorter than four bytes or holds no terminator behind the tag.
pub open spec fn header_at(data: Seq<u8>, start: int, end: int) -> Option<
    (int, Option<ResponseType>, Option<u32>, Option<ResponseFlagsView>),
> {
    let stop = window_end(data, end);
    if start < 0 || stop - start < 4 {
        None
    } else {
        let behind_tag = data.subrange(start + 2, stop);
        if !has_terminator(behind_tag) {
            None
        } else {
            let line_end = start + 2 + first_terminator(behind_tag);
            let content = header_content(data.subrange(start, line_end));
            Some((line_end + 2, content.0, content.1, content.2))
        }
    }
}

/// The mathematical value of a parsed header.
pub open spec fn parsed_view(
    parsed: Option<(usize, Option<ResponseType>, Option<u32>, Option<ResponseFlags>)>,
) -> Option<(int, Option<ResponseType>, Option<u32>, Option<ResponseFlagsView>)> {
    match parsed {
        Some((next, response_type, size, flags)) => Some(
            (
                next as int,
                response_type,
                size,
                match flags {
                    Some(f) => Some(f@),
                    None => None,
                },
            ),
        ),
        None => None,
    }
}

/// The kind of response that the two bytes of a tag stand for.
pub fn classify_tag(first: u8, second: u8) -> (kind: ResponseType)
    ensures
        kind == tag_type(first, second),
{
    if first == TAG_V && second == TAG_A {
        ResponseType::Value
    } else if (first == TAG_H && second == TAG_D) || (first == TAG_O && second == TAG_K) {
        ResponseType::Success
    } else if first == TAG_N && second == TAG_S {
        ResponseType::NotStored
    } else if first == TAG_E && second == TAG_X {
        ResponseType::Conflict
    } else if (first == TAG_E && second == TAG_N) || (first == TAG_N && second == TAG_F) {
        ResponseType::Miss
    } else if first == TAG_M && second == TAG_N {
        ResponseType::Noop
    } else {
        ResponseType::Unrecognized
    }
}

/// Parses the header that stands at `start` in `data`, reading no further
/// than `end` (or the end of `data`).
///
/// `None` says that the header is incomplete: the window is shorter than four
/// bytes, or no line terminator stands in it behind the tag. Otherwise the
/// result holds the index behind the terminator, the kind of response (absent
/// for an unknown tag and for a value header without a size), the size of the
/// value (for a value header) and the flags (for a value or success header).
pub fn impl_parse_header(data: &[u8], start: usize, end: usize) -> (parsed: Option<
    (usize, Option<ResponseType>, Option<u32>, Option<ResponseFlags>),
>)
    ensures
        parsed_view(parsed) == header_at(data@, start as int, end as int),
        data@.len() < 4 ==> parsed is None,
        parsed matches Some(found) ==> start + 4 <= found.0 <= data@.len() && found.0 <= end
            && found.1 != Some(ResponseType::Unrecognized),
{
    let stop = if end < data.len() {
        end
    } else {
        data.len()
    };
    if stop < start || stop - start < 4 {
        return None;
    }
    let ghost behind_tag = data@.subrange(start + 2, stop as int);
    let mut n = start + 2;
    while n < stop - 1
        invariant
            stop == window_end(data@, end as int),
            start + 4 <= stop,
            start + 2 <= n <= stop - 1,
            behind_tag == data@.subrange(start + 2, stop as int),
            first_terminator(behind_tag) == (n - start - 2) + first_terminator(
                data@.subrange(n as int, stop as int),
            ),
        decreases stop - n,
    {
        proof {
            let rest = data@.subrange(n as int, stop as int);
            assert(rest[0] == data@[n as int]);
            assert(rest[1] == data@[n + 1]);
            assert(rest.drop_first() =~= data@.subrange(n + 1, stop as int));
        }
        if data[n] == CR && data[n + 1] == LF {
            let endl_pos = n + 2;
            let line = &data[start..n];
            proof {
                assert(line@[0] == data@[start as int]);
                assert(line@[1] == data@[start + 1]);
            }
            match classify_tag(data[start], data[start + 1]) {
                ResponseType::Value => {
                    match ResponseFlags::from_value_header(line) {
                        Some((size, flags)) => {
                            return Some(
                                (endl_pos, Some(ResponseType::Value), Some(size), Some(flags)),
                            );
                        },
                        None => {
                            return Some((endl_pos, None, None, None));
                        },
                    }
                },
                ResponseType::Success => {
                    let flags = ResponseFlags::from_success_header(line);
                    return Some((endl_pos, Some(ResponseType::Success), None, Some(flags)));
                },
                ResponseType::NotStored => {
                    return Some((endl_pos, Some(ResponseType::NotStored), None, None));
                },
                ResponseType::Conflict => {
                    return Some((endl_pos, Some(ResponseType::Conflict), None, None));
                },
                ResponseType::Miss => {
                    return Some((endl_pos, Some(ResponseType::Miss), None, None));
                },
                ResponseType::Noop => {
                    return Some((endl_pos, Some(ResponseType::Noop), None, None));
                },
                ResponseType::Unrecognized => {
                    return Some((endl_pos, None, None, None));
                },
            }
        }
        n += 1;
    }
    proof {
        assert(data@.subrange(n as int, stop as int).len() == 1);
    }
    None
}

/// `line` is one complete header: at least a tag and a terminator, and no
/// terminator behind the tag before the one that ends it.
pub open spec fn is_header_line(line: Seq<u8>) -> bool {
    line.len() >= 4 && first_terminator(line.skip(2)) == line.len() - 4
}

/// The bytes of `lines`, one line behind the other.
pub open spec fn joined(lines: Seq<Seq<u8>>) -> Seq<u8>
    decreases lines.len(),
{
    if lines.len() == 0 {
        Seq::empty()
    } else {
        joined(lines.drop_last()) + lines.last()
    }
}

/// A parsed header with its cursor moved forward by `by`.
pub open spec fn shifted(
    header: Option<(int, Option<ResponseType>, Option<u32>, Option<ResponseFlagsView>)>,
    by: int,
) -> Option<(int, Option<ResponseType>, Option<u32>, Option<ResponseFlagsView>)> {
    match header {
        Some((next, response_type, size, flags)) => Some((next + by, response_type, size, flags)),
        None => None,
    }
}

/// Where the cursor stands after `calls` headers were parsed one after the
/// other, the first at `start` and each further one at the cursor that the
/// one before returned. `None` where one of them is incomplete.
pub open spec fn cursor_after(data: Seq<u8>, start: int, end: int, calls: nat) -> Option<int>
    decreases calls,
{
    if calls == 0 {
        Some(start)
    } else {
        match header_at(data, start, end) {
            Some((next, _, _, _)) => cursor_after(data, next, end, (calls - 1) as nat),
            None => None,
        }
    }
}

/// A terminator found in `s` is still the first one when more bytes follow.
proof fn lemma_first_terminator_prefix(s: Seq<u8>, more: Seq<u8>)
    requires
        has_terminator(s),
    ensures
        first_terminator(s + more) == first_terminator(s),
    decreases s.len(),
{
    let both = s + more;
    assert(s.len() >= 2);
    assert(both[0] == s[0] && both[1] == s[1]);
    if !(s[0] == CR && s[1] == LF) {
        assert(both.drop_first() =~= s.drop_first() + more);
        lemma_first_terminator_prefix(s.drop_first(), more);
    }
}

/// A header is parsed alike alone and inside a stream.
///
/// Where `line` is a complete header that stands in a buffer behind the bytes
/// `before` and in front of the bytes `after`, and the window reaches at least
/// to the end of the line, parsing at the start of the line gives what parsing
/// the line alone gives, with the cursor right behind the line.
pub proof fn lemma_header_in_stream(before: Seq<u8>, line: Seq<u8>, after: Seq<u8>, end: int)
    requires
        is_header_line(line),
        before.len() + line.len() <= end,
    ensures
        header_at(line, 0, line.len() as int) matches Some(alone) && alone.0 == line.len(),
        header_at(before + line + after, before.len() as int, end) == shifted(
            header_at(line, 0, line.len() as int),
            before.len() as int,
        ),
{
    let data = before + line + after;
    let at = before.len() as int;
    let stop = window_end(data, end);
    let tail = line.skip(2);
    assert(line.subrange(2, line.len() as int) =~= tail);
    assert(has_terminator(tail));
    let more = data.subrange(at + line.len(), stop);
    assert(data.subrange(at + 2, stop) =~= tail + more);
    lemma_first_terminator_prefix(tail, more);
    assert(data.subrange(at, at + line.len() - 2) =~= line.subrange(0, line.len() - 2));
}

/// Headers that stand one behind the other are consumed one per call.
///
/// Where every one of `lines` is a complete header and the buffer holds them
/// one behind the other, `calls` successive parses from the start of the
/// buffer, each at the cursor that the one before returned, end right behind
/// the first `calls` lines. Each call moves the cursor forward, so no two
/// read the same header; as many calls as there are lines end at the end of
/// the buffer, where no further header is found.
pub proof fn lemma_pipelined_headers(lines: Seq<Seq<u8>>, calls: nat)
    requires
        forall|i: int| 0 <= i < lines.len() ==> is_header_line(#[trigger] lines[i]),
        calls <= lines.len(),
    ensures
        cursor_after(joined(lines), 0, joined(lines).len() as int, calls) == Some(
            joined(lines.take(calls as int)).len() as int,
        ),
        calls < lines.len() ==> joined(lines.take(calls as int)).len() < joined(
            lines.take(calls as int + 1),
        ).len() <= joined(lines).len(),
        joined(lines.take(lines.len() as int)) == joined(lines),
        header_at(joined(lines), joined(lines).len() as int, joined(lines).len() as int) is None,
{
    assert(lines.take(lines.len() as int) =~= lines);
    lemma_cursor_walk(lines, 0, calls);
    assert(lines.take(0) =~= Seq::<Seq<u8>>::empty());
    if calls < lines.len() {
        lemma_joined_split(lines, calls as int);
        lemma_joined_split(lines, calls as int + 1);
        assert(lines.take(calls as int + 1).drop_last() =~= lines.take(calls as int));
    }
}

/// The bytes of `lines` are those of its first `k` lines, then those of the rest.
proof fn lemma_joined_split(lines: Seq<Seq<u8>>, k: int)
    requires
        0 <= k <= lines.len(),
    ensures
        joined(lines) == joined(lines.take(k)) + joined(lines.skip(k)),
    decreases lines.len(),
{
    if k == lines.len() {
        assert(lines.take(k) =~= lines);
        assert(lines.skip(k) =~= Seq::<Seq<u8>>::empty());
        assert(joined(lines) + joined(lines.skip(k)) =~= joined(lines));
    } else {
        let shorter = lines.drop_last();
        lemma_joined_split(shorter, k);
        assert(shorter.take(k) =~= lines.take(k));
        assert(lines.skip(k).drop_last() =~= shorter.skip(k));
        assert(lines.skip(k).last() == lines.last());
        assert(joined(lines) =~= joined(lines.take(k)) + joined(lines.skip(k)));
    }
}

/// From behind the first `done` lines, `calls` further parses end behind the
/// first `done + calls` lines.
proof fn lemma_cursor_walk(lines: Seq<Seq<u8>>, done: nat, calls: nat)
    requires
        forall|i: int| 0 <= i < lines.len() ==> is_header_line(#[trigger] lines[i]),
        done + calls <= lines.len(),
    ensures
        cursor_after(
            joined(lines),
            joined(lines.take(done as int)).len() as int,
            joined(lines).len() as int,
            calls,
        ) == Some(joined(lines.take((done + calls) as int)).len() as int),
    decreases calls,
{
    if calls > 0 {
        let before = joined(lines.take(done as int));
        let line = lines[done as int];
        let upto = lines.take(done as int + 1);
        let after = joined(lines.skip(done as int + 1));
        assert(upto.drop_last() =~= lines.take(done as int));
        assert(upto.last() == line);
        assert(joined(upto) == before + line);
        lemma_joined_split(lines, done as int + 1);
        assert(joined(lines) == before + line + after);
        assert(is_header_line(line));
        lemma_header_in_stream(before, line, after, joined(lines).len() as int);
        lemma_cursor_walk(lines, done + 1, (calls - 1) as nat);
    }
}

} // verus!
