//! The flags of a response header, and the scanner that decodes them.

use crate::ascii::{MINUS, ONE, SPACE, ZERO};
use crate::bytes::same_bytes;
use crate::decimal::{
    digit_run_len, i32_from_radix_10_checked, leading_number, lemma_digit_run_bounded,
    u32_from_radix_10_checked,
};
use vstd::prelude::*;
use vstd::slice::slice_to_vec;

verus! {

/// Flag letter `c`: the CAS token, an unsigned number.
pub const FLAG_CAS_TOKEN: u8 = 0x63;

/// Flag letter `h`: whether the item was fetched before, `1` or `0`.
pub const FLAG_FETCHED: u8 = 0x68;

/// Flag letter `l`: seconds since the last access, an unsigned number.
pub const FLAG_LAST_ACCESS: u8 = 0x6c;

/// Flag letter `t`: the remaining time to live, a number.
pub const FLAG_TTL: u8 = 0x74;

/// Flag letter `f`: the client flag, an unsigned number.
pub const FLAG_CLIENT_FLAG: u8 = 0x66;

/// Flag letter `W`: this client won the right to recache.
pub const FLAG_WIN: u8 = 0x57;

/// Flag letter `Z`: another client won the right to recache.
pub const FLAG_LOST: u8 = 0x5a;

/// Flag letter `X`: the item is stale.
pub const FLAG_STALE: u8 = 0x58;

/// Flag letter `s`: the size of the value, an unsigned number.
pub const FLAG_SIZE: u8 = 0x73;

/// Flag letter `O`: the opaque bytes of the request, sent back as they were.
pub const FLAG_OPAQUE: u8 = 0x4f;

/// The optional attributes that a response header may carry.
#[derive(Debug, Clone)]
pub struct ResponseFlags {
    pub cas_token: Option<u32>,
    pub fetched: Option<bool>,
    pub last_access: Option<u32>,
    pub ttl: Option<i32>,
    pub client_flag: Option<u32>,
    pub win: Option<bool>,
    pub stale: bool,
    pub size: Option<u32>,
    pub opaque: Option<Vec<u8>>,
}

/// The mathematical value of a [`ResponseFlags`].
pub struct ResponseFlagsView {
    pub cas_token: Option<u32>,
    pub fetched: Option<bool>,
    pub last_access: Option<u32>,
    pub ttl: Option<i32>,
    pub client_flag: Option<u32>,
    pub win: Option<bool>,
    pub stale: bool,
    pub size: Option<u32>,
    pub opaque: Option<Seq<u8>>,
}

impl View for ResponseFlags {
    type V = ResponseFlagsView;

    open spec fn view(&self) -> ResponseFlagsView {
        ResponseFlagsView {
            cas_token: self.cas_token,
            fetched: self.fetched,
            last_access: self.last_access,
            ttl: self.ttl,
            client_flag: self.client_flag,
            win: self.win,
            stale: self.stale,
            size: self.size,
            opaque: match self.opaque {
                Some(bytes) => Some(bytes@),
                None => None,
            },
        }
    }
}

/// The flags of a header that carries none: every field absent, not stale.
pub open spec fn no_flags() -> ResponseFlagsView {
    ResponseFlagsView {
        cas_token: None,
        fetched: None,
        last_access: None,
        ttl: None,
        client_flag: None,
        win: None,
        stale: false,
        size: None,
        opaque: None,
    }
}

/// How many bytes stand at the front of `s` before the first space (all of
/// them where `s` holds no space).
pub open spec fn space_or_end(s: Seq<u8>) -> nat
    decreases s.len(),
{
    if s.len() == 0 || s[0] == SPACE {
        0
    } else {
        1 + space_or_end(s.drop_first())
    }
}

/// An unsigned number token whose value bytes start `v`: how many bytes it
/// takes, and the number. Without a digit, or with a number above `u32::MAX`,
/// the token is malformed: it runs to the next space and yields nothing.
pub open spec fn u32_token(v: Seq<u8>) -> (nat, Option<u32>) {
    if digit_run_len(v) > 0 && leading_number(v) <= u32::MAX {
        (digit_run_len(v), Some(leading_number(v) as u32))
    } else {
        (space_or_end(v), None)
    }
}

/// The ttl token whose value bytes start `v`. A `-` in the second value byte
/// stands for "no ttl" and gives -1 over two bytes. Otherwise the token is a
/// run of digits, malformed where there is none or the number is above
/// `i32::MAX`.
pub open spec fn ttl_token(v: Seq<u8>) -> (nat, Option<i32>) {
    if v.len() > 1 && v[1] == MINUS {
        (2, Some(-1i32))
    } else if digit_run_len(v) > 0 && leading_number(v) <= i32::MAX {
        (digit_run_len(v), Some(leading_number(v) as i32))
    } else {
        (space_or_end(v), None)
    }
}

/// The fetched token whose value bytes start `v`: `1` is true, `0` is false,
/// anything else says nothing.
pub open spec fn fetched_token(v: Seq<u8>) -> Option<bool> {
    if v.len() > 0 && v[0] == ONE {
        Some(true)
    } else if v.len() > 0 && v[0] == ZERO {
        Some(false)
    } else {
        None
    }
}

/// The effect of one token: `letter` is its flag letter, `v` the bytes behind
/// the letter up to the end of the header, `acc` the flags decoded so far. The
/// result is the number of bytes of `v` that belong to the token, and the flags
/// after it. A malformed or unknown token leaves the flags as they were.
pub open spec fn token_effect(letter: u8, v: Seq<u8>, acc: ResponseFlagsView) -> (
    nat,
    ResponseFlagsView,
) {
    if letter == FLAG_CAS_TOKEN {
        (
            u32_token(v).0,
            match u32_token(v).1 {
                Some(n) => ResponseFlagsView { cas_token: Some(n), ..acc },
                None => acc,
            },
        )
    } else if letter == FLAG_FETCHED {
        (
            1,
            match fetched_token(v) {
                Some(b) => ResponseFlagsView { fetched: Some(b), ..acc },
                None => acc,
            },
        )
    } else if letter == FLAG_LAST_ACCESS {
        (
            u32_token(v).0,
            match u32_token(v).1 {
                Some(n) => ResponseFlagsView { last_access: Some(n), ..acc },
                None => acc,
            },
        )
    } else if letter == FLAG_TTL {
        (
            ttl_token(v).0,
            match ttl_token(v).1 {
                Some(n) => ResponseFlagsView { ttl: Some(n), ..acc },
                None => acc,
            },
        )
    } else if letter == FLAG_CLIENT_FLAG {
        (
            u32_token(v).0,
            match u32_token(v).1 {
                Some(n) => ResponseFlagsView { client_flag: Some(n), ..acc },
                None => acc,
            },
        )
    } else if letter == FLAG_WIN {
        (0, ResponseFlagsView { win: Some(true), ..acc })
    } else if letter == FLAG_LOST {
        (0, ResponseFlagsView { win: Some(false), ..acc })
    } else if letter == FLAG_STALE {
        (0, ResponseFlagsView { stale: true, ..acc })
    } else if letter == FLAG_SIZE {
        (
            u32_token(v).0,
            match u32_token(v).1 {
                Some(n) => ResponseFlagsView { size: Some(n), ..acc },
                None => acc,
            },
        )
    } else if letter == FLAG_OPAQUE {
        (
            space_or_end(v),
            ResponseFlagsView { opaque: Some(v.take(space_or_end(v) as int)), ..acc },
        )
    } else {
        (space_or_end(v), acc)
    }
}

/// Decodes the flag tokens in `s` from left to right, starting from the flags
/// `acc`. A space is skipped. Any other byte is a flag letter: its token is
/// decoded by [`token_effect`], and the byte behind the token (the separator)
/// is passed over unread.
pub open spec fn decode_flags(s: Seq<u8>, acc: ResponseFlagsView) -> ResponseFlagsView
    decreases s.len(),
{
    if s.len() == 0 {
        acc
    } else if s[0] == SPACE {
        decode_flags(s.drop_first(), acc)
    } else {
        let v = s.drop_first();
        let (used, next) = token_effect(s[0], v, acc);
        let k = if used + 1 <= v.len() {
            (used + 1) as int
        } else {
            v.len() as int
        };
        decode_flags(v.skip(k), next)
    }
}

/// The flags that `header` holds from index `start` on (none where `start` is
/// at or behind its end).
pub open spec fn flags_from(header: Seq<u8>, start: int) -> ResponseFlagsView {
    if 0 <= start <= header.len() {
        decode_flags(header.skip(start), no_flags())
    } else {
        no_flags()
    }
}

/// What a value header holds: the size of the value, written in digits from
/// the fourth byte on, and the flags behind the size. `None` where the header
/// has no fourth byte, where no digit stands there, or where the size is
/// above `u32::MAX`.
pub open spec fn value_header(header: Seq<u8>) -> Option<(u32, ResponseFlagsView)> {
    if header.len() < 4 {
        None
    } else if digit_run_len(header.skip(3)) == 0 || leading_number(header.skip(3)) > u32::MAX {
        None
    } else {
        Some(
            (
                leading_number(header.skip(3)) as u32,
                flags_from(header, (3 + digit_run_len(header.skip(3))) as int),
            ),
        )
    }
}

/// The mathematical value of a decoded value header.
pub open spec fn sized_flags_view(r: Option<(u32, ResponseFlags)>) -> Option<
    (u32, ResponseFlagsView),
> {
    match r {
        Some((size, flags)) => Some((size, flags@)),
        None => None,
    }
}

/// `space_or_end` stops at the first space: it stays within `s`, no byte
/// before it is a space, and the byte at it, if there is one, is a space.
pub proof fn lemma_space_or_end(s: Seq<u8>)
    ensures
        space_or_end(s) <= s.len(),
        forall|i: int| 0 <= i < space_or_end(s) ==> #[trigger] s[i] != SPACE,
        space_or_end(s) < s.len() ==> s[space_or_end(s) as int] == SPACE,
    decreases s.len(),
{
    if s.len() == 0 || s[0] == SPACE {
    } else {
        let t = s.drop_first();
        lemma_space_or_end(t);
        assert forall|i: int| 0 <= i < space_or_end(s) implies #[trigger] s[i] != SPACE by {
            if i > 0 {
                assert(s[i] == t[i - 1]);
            }
        }
        assert(space_or_end(s) < s.len() ==> s[space_or_end(s) as int] == t[space_or_end(t) as int]);
    }
}

/// The index of the first space in `header` at or behind `start`, or the
/// length of `header` where there is none. A `start` behind the end comes back
/// unchanged.
pub fn find_space_or_end(header: &[u8], start: usize) -> (n: usize)
    ensures
        start <= header@.len() ==> n == start + space_or_end(header@.skip(start as int)),
        start > header@.len() ==> n == start,
        start <= n,
        n <= header@.len() || n == start,
        forall|i: int| start <= i < n ==> #[trigger] header@[i] != SPACE,
        n < header@.len() ==> header@[n as int] == SPACE,
{
    let len = header.len();
    if start >= len {
        proof {
            if start == len {
                assert(header@.skip(start as int).len() == 0);
            }
        }
        return start;
    }
    let mut n = start;
    while n < len && header[n] != SPACE
        invariant
            len == header@.len(),
            start <= n <= len,
            space_or_end(header@.skip(start as int)) == (n - start) + space_or_end(
                header@.skip(n as int),
            ),
        decreases len - n,
    {
        proof {
            assert(header@.skip(n as int).drop_first() =~= header@.skip(n + 1));
        }
        n += 1;
    }
    proof {
        let tail = header@.skip(start as int);
        if n < len {
            assert(header@.skip(n as int)[0] == SPACE);
        } else {
            assert(header@.skip(n as int).len() == 0);
        }
        lemma_space_or_end(tail);
        assert forall|i: int| start <= i < n implies #[trigger] header@[i] != SPACE by {
            assert(header@[i] == tail[i - start]);
        }
    }
    n
}

/// Decodes an unsigned number token whose value bytes start at index `n`:
/// the number, if the token is well formed, and the index behind the token.
fn take_u32(header: &[u8], n: usize) -> (r: (Option<u32>, usize))
    requires
        n <= header@.len(),
    ensures
        r.0 == u32_token(header@.skip(n as int)).1,
        r.1 == n + u32_token(header@.skip(n as int)).0,
        r.1 <= header@.len(),
{
    let len = header.len();
    let (value, used) = u32_from_radix_10_checked(&header[n..len]);
    proof {
        assert(header@.subrange(n as int, len as int) =~= header@.skip(n as int));
        lemma_digit_run_bounded(header@.skip(n as int));
    }
    match value {
        Some(number) if used > 0 => (Some(number), n + used),
        _ => (None, find_space_or_end(header, n)),
    }
}

/// Decodes a ttl token whose value bytes start at index `n`: the ttl, if the
/// token is well formed, and the index behind the token.
fn take_ttl(header: &[u8], n: usize) -> (r: (Option<i32>, usize))
    requires
        n <= header@.len(),
    ensures
        r.0 == ttl_token(header@.skip(n as int)).1,
        r.1 == n + ttl_token(header@.skip(n as int)).0,
        r.1 <= header@.len(),
{
    let len = header.len();
    if len - n > 1 && header[n + 1] == MINUS {
        return (Some(-1), n + 2);
    }
    let (value, used) = i32_from_radix_10_checked(&header[n..len]);
    proof {
        assert(header@.subrange(n as int, len as int) =~= header@.skip(n as int));
        lemma_digit_run_bounded(header@.skip(n as int));
    }
    match value {
        Some(number) if used > 0 => (Some(number), n + used),
        _ => (None, find_space_or_end(header, n)),
    }
}

impl ResponseFlags {
    /// Flags with the given fields; `stale` counts as false where it is absent.
    pub fn new(
        cas_token: Option<u32>,
        fetched: Option<bool>,
        last_access: Option<u32>,
        ttl: Option<i32>,
        client_flag: Option<u32>,
        win: Option<bool>,
        stale: Option<bool>,
        size: Option<u32>,
        opaque: Option<Vec<u8>>,
    ) -> (flags: Self)
        ensures
            flags.cas_token == cas_token,
            flags.fetched == fetched,
            flags.last_access == last_access,
            flags.ttl == ttl,
            flags.client_flag == client_flag,
            flags.win == win,
            flags.stale == (stale == Some(true)),
            flags.size == size,
            flags.opaque == opaque,
    {
        let stale = match stale {
            Some(value) => value,
            None => false,
        };
        ResponseFlags {
            cas_token,
            fetched,
            last_access,
            ttl,
            client_flag,
            win,
            stale,
            size,
            opaque,
        }
    }

    /// Decodes the flags of a success header (`HD` or `OK`): they start behind
    /// the two bytes of the tag and one separator.
    pub fn from_success_header(header: &[u8]) -> (flags: Self)
        ensures
            flags@ == flags_from(header@, 3),
    {
        ResponseFlags::parse_flags(header, 3)
    }

    /// Decodes a value header (`VA`): the size of the value, which starts at
    /// the fourth byte, and the flags behind it. `None` where no digit stands
    /// there or the size is above `u32::MAX`.
    pub fn from_value_header(header: &[u8]) -> (r: Option<(u32, Self)>)
        ensures
            sized_flags_view(r) == value_header(header@),
    {
        let size_start: usize = 3;
        if header.len() < size_start + 1 {
            return None;
        }
        let (size, used) = u32_from_radix_10_checked(&header[size_start..header.len()]);
        proof {
            assert(header@.subrange(3, header@.len() as int) =~= header@.skip(3));
            lemma_digit_run_bounded(header@.skip(3));
        }
        match size {
            Some(size) if used > 0 => {
                let flags = ResponseFlags::parse_flags(header, size_start + used);
                Some((size, flags))
            },
            _ => None,
        }
    }

    /// Decodes the flags that `header` holds from index `start` on. Never
    /// fails: a token that is malformed or unknown is passed over and leaves
    /// its field as it was.
    pub fn parse_flags(header: &[u8], start: usize) -> (flags: Self)
        ensures
            flags@ == flags_from(header@, start as int),
    {
        let len = header.len();
        let mut flags = ResponseFlags {
            cas_token: None,
            fetched: None,
            last_access: None,
            ttl: None,
            client_flag: None,
            win: None,
            stale: false,
            size: None,
            opaque: None,
        };
        if start >= len {
            proof {
                if start == len {
                    assert(header@.skip(start as int).len() == 0);
                }
            }
            return flags;
        }
        let mut n = start;
        while n < len
            invariant
                len == header@.len(),
                start <= n <= len,
                decode_flags(header@.skip(start as int), no_flags()) == decode_flags(
                    header@.skip(n as int),
                    flags@,
                ),
            decreases len - n,
        {
            let flag = header[n];
            let ghost s = header@.skip(n as int);
            let ghost before = flags@;
            // Move past the flag letter.
            n += 1;
            let ghost v = header@.skip(n as int);
            proof {
                assert(s.drop_first() =~= v);
                assert(s[0] == flag);
            }
            if flag != SPACE {
                let ghost letter_end = n;
                if flag == FLAG_CAS_TOKEN {
                    let (value, next) = take_u32(header, n);
                    if let Some(number) = value {
                        flags.cas_token = Some(number);
                    }
                    n = next;
                } else if flag == FLAG_FETCHED {
                    if n < len {
                        if header[n] == ONE {
                            flags.fetched = Some(true);
                        } else if header[n] == ZERO {
                            flags.fetched = Some(false);
                        }
                        n += 1;
                    }
                } else if flag == FLAG_LAST_ACCESS {
                    let (value, next) = take_u32(header, n);
                    if let Some(number) = value {
                        flags.last_access = Some(number);
                    }
                    n = next;
                } else if flag == FLAG_TTL {
                    let (value, next) = take_ttl(header, n);
                    if let Some(number) = value {
                        flags.ttl = Some(number);
                    }
                    n = next;
                } else if flag == FLAG_CLIENT_FLAG {
                    let (value, next) = take_u32(header, n);
                    if let Some(number) = value {
                        flags.client_flag = Some(number);
                    }
                    n = next;
                } else if flag == FLAG_WIN {
                    flags.win = Some(true);
                } else if flag == FLAG_LOST {
                    flags.win = Some(false);
                } else if flag == FLAG_STALE {
                    flags.stale = true;
                } else if flag == FLAG_SIZE {
                    let (value, next) = take_u32(header, n);
                    if let Some(number) = value {
                        flags.size = Some(number);
                    }
                    n = next;
                } else if flag == FLAG_OPAQUE {
                    let value_start = n;
                    n = find_space_or_end(header, value_start);
                    flags.opaque = Some(slice_to_vec(&header[value_start..n]));
                    proof {
                        assert(header@.subrange(value_start as int, n as int) =~= v.take(
                            space_or_end(v) as int,
                        ));
                    }
                } else {
                    // An unknown flag is passed over.
                    n = find_space_or_end(header, n);
                }
                // The byte behind a token is its separator.
                if n < len {
                    n += 1;
                }
                proof {
                    let (used, next) = token_effect(flag, v, before);
                    let k = if used + 1 <= v.len() {
                        (used + 1) as int
                    } else {
                        v.len() as int
                    };
                    assert(flags@ == next);
                    assert(n == letter_end + k);
                    assert(v.skip(k) =~= header@.skip(n as int));
                }
            }
        }
        proof {
            assert(header@.skip(n as int).len() == 0);
        }
        flags
    }
}

impl PartialEq for ResponseFlags {
    /// Two values are equal where all their fields are.
    fn eq(&self, other: &Self) -> (equal: bool) {
        let same_opaque = match (&self.opaque, &other.opaque) {
            (Some(a), Some(b)) => same_bytes(a.as_slice(), b.as_slice()),
            (None, None) => true,
            _ => false,
        };
        self.cas_token == other.cas_token && self.fetched == other.fetched && self.last_access
            == other.last_access && self.ttl == other.ttl && self.client_flag == other.client_flag
            && self.win == other.win && self.stale == other.stale && self.size == other.size
            && same_opaque
    }
}

impl vstd::std_specs::cmp::PartialEqSpecImpl for ResponseFlags {
    open spec fn obeys_eq_spec() -> bool {
        true
    }

    open spec fn eq_spec(&self, other: &Self) -> bool {
        self@ == other@
    }
}

impl Eq for ResponseFlags {

}

} // verus!
