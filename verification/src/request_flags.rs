//! The flags of a request, and their rendering as the flag suffix of a
//! command line.

use crate::ascii::SPACE;
use crate::bytes::{push_all, same_bytes};
use crate::decimal::{decimal_digits, push_decimal};
use vstd::prelude::*;

verus! {

/// Letter `q`: the server sends no reply.
pub const LETTER_NO_REPLY: u8 = 0x71;

/// Letter `f`: return the client flag.
pub const LETTER_RETURN_CLIENT_FLAG: u8 = 0x66;

/// Letter `c`: return the CAS token.
pub const LETTER_RETURN_CAS_TOKEN: u8 = 0x63;

/// Letter `v`: return the value.
pub const LETTER_RETURN_VALUE: u8 = 0x76;

/// Letter `t`: return the remaining time to live.
pub const LETTER_RETURN_TTL: u8 = 0x74;

/// Letter `s`: return the size of the value.
pub const LETTER_RETURN_SIZE: u8 = 0x73;

/// Letter `l`: return the time since the last access.
pub const LETTER_RETURN_LAST_ACCESS: u8 = 0x6c;

/// Letter `h`: return whether the item was fetched before.
pub const LETTER_RETURN_FETCHED: u8 = 0x68;

/// Letter `k`: return the key.
pub const LETTER_RETURN_KEY: u8 = 0x6b;

/// Letter `u`: do not update the LRU.
pub const LETTER_NO_UPDATE_LRU: u8 = 0x75;

/// Letter `I`: mark the item stale.
pub const LETTER_MARK_STALE: u8 = 0x49;

/// Letter `T`: the time to live to set.
pub const LETTER_CACHE_TTL: u8 = 0x54;

/// Letter `R`: the time to live under which a hit wins the recache.
pub const LETTER_RECACHE_TTL: u8 = 0x52;

/// Letter `N`: the time to live of the stub created on a miss.
pub const LETTER_VIVIFY_ON_MISS_TTL: u8 = 0x4e;

/// Letter `F`: the client flag to set.
pub const LETTER_CLIENT_FLAG: u8 = 0x46;

/// Letter `J`: the initial value of an arithmetic command.
pub const LETTER_MA_INITIAL_VALUE: u8 = 0x4a;

/// Letter `D`: the delta of an arithmetic command.
pub const LETTER_MA_DELTA_VALUE: u8 = 0x44;

/// Letter `C`: the CAS token to compare with.
pub const LETTER_CAS_TOKEN: u8 = 0x43;

/// Letter `O`: opaque bytes that the server sends back.
pub const LETTER_OPAQUE: u8 = 0x4f;

/// Letter `M`: the mode of the command.
pub const LETTER_MODE: u8 = 0x4d;

/// The number of flags a request can carry.
pub const REQUEST_FLAG_COUNT: usize = 20;

/// The optional attributes of a request. A field that is `false` or `None` is
/// left out of the command line.
#[derive(Debug, Clone)]
pub struct RequestFlags {
    pub no_reply: bool,
    pub return_client_flag: bool,
    pub return_cas_token: bool,
    pub return_value: bool,
    pub return_ttl: bool,
    pub return_size: bool,
    pub return_last_access: bool,
    pub return_fetched: bool,
    pub return_key: bool,
    pub no_update_lru: bool,
    pub mark_stale: bool,
    pub cache_ttl: Option<u32>,
    pub recache_ttl: Option<u32>,
    pub vivify_on_miss_ttl: Option<u32>,
    pub client_flag: Option<u32>,
    pub ma_initial_value: Option<u32>,
    pub ma_delta_value: Option<u32>,
    pub cas_token: Option<u32>,
    pub opaque: Option<Vec<u8>>,
    pub mode: Option<u8>,
}

/// The mathematical value of a [`RequestFlags`].
pub struct RequestFlagsView {
    pub no_reply: bool,
    pub return_client_flag: bool,
    pub return_cas_token: bool,
    pub return_value: bool,
    pub return_ttl: bool,
    pub return_size: bool,
    pub return_last_access: bool,
    pub return_fetched: bool,
    pub return_key: bool,
    pub no_update_lru: bool,
    pub mark_stale: bool,
    pub cache_ttl: Option<u32>,
    pub recache_ttl: Option<u32>,
    pub vivify_on_miss_ttl: Option<u32>,
    pub client_flag: Option<u32>,
    pub ma_initial_value: Option<u32>,
    pub ma_delta_value: Option<u32>,
    pub cas_token: Option<u32>,
    pub opaque: Option<Seq<u8>>,
    pub mode: Option<u8>,
}

impl View for RequestFlags {
    type V = RequestFlagsView;

    open spec fn view(&self) -> RequestFlagsView {
        RequestFlagsView {
            no_reply: self.no_reply,
            return_client_flag: self.return_client_flag,
            return_cas_token: self.return_cas_token,
            return_value: self.return_value,
            return_ttl: self.return_ttl,
            return_size: self.return_size,
            return_last_access: self.return_last_access,
            return_fetched: self.return_fetched,
            return_key: self.return_key,
            no_update_lru: self.no_update_lru,
            mark_stale: self.mark_stale,
            cache_ttl: self.cache_ttl,
            recache_ttl: self.recache_ttl,
            vivify_on_miss_ttl: self.vivify_on_miss_ttl,
            client_flag: self.client_flag,
            ma_initial_value: self.ma_initial_value,
            ma_delta_value: self.ma_delta_value,
            cas_token: self.cas_token,
            opaque: match self.opaque {
                Some(bytes) => Some(bytes@),
                None => None,
            },
            mode: self.mode,
        }
    }
}

/// The token of a flag without a value: a space and the letter where the flag
/// is set, nothing where it is not.
pub open spec fn switch_token(set: bool, letter: u8) -> Seq<u8> {
    if set {
        seq![SPACE, letter]
    } else {
        Seq::empty()
    }
}

/// The token of a numeric flag: a space, the letter and the decimal digits of
/// the number; nothing where the number is absent.
pub open spec fn number_token(value: Option<u32>, letter: u8) -> Seq<u8> {
    match value {
        Some(n) => seq![SPACE, letter] + decimal_digits(n as nat),
        None => Seq::empty(),
    }
}

/// The token of a flag that carries bytes: a space, the letter and the bytes
/// as they are; nothing where they are absent.
pub open spec fn blob_token(value: Option<Seq<u8>>, letter: u8) -> Seq<u8> {
    match value {
        Some(bytes) => seq![SPACE, letter] + bytes,
        None => Seq::empty(),
    }
}

/// The token of a flag whose value is one byte: a space, the letter and that
/// byte itself, not its decimal digits; nothing where it is absent.
pub open spec fn byte_token(value: Option<u8>, letter: u8) -> Seq<u8> {
    match value {
        Some(b) => seq![SPACE, letter, b],
        None => Seq::empty(),
    }
}

/// The token of the flag that stands at place `i` of the wire order: the
/// flags without a value first, then those with one.
pub open spec fn request_token(f: RequestFlagsView, i: int) -> Seq<u8> {
    if i == 0 {
        switch_token(f.no_reply, LETTER_NO_REPLY)
    } else if i == 1 {
        switch_token(f.return_client_flag, LETTER_RETURN_CLIENT_FLAG)
    } else if i == 2 {
        switch_token(f.return_cas_token, LETTER_RETURN_CAS_TOKEN)
    } else if i == 3 {
        switch_token(f.return_value, LETTER_RETURN_VALUE)
    } else if i == 4 {
        switch_token(f.return_ttl, LETTER_RETURN_TTL)
    } else if i == 5 {
        switch_token(f.return_size, LETTER_RETURN_SIZE)
    } else if i == 6 {
        switch_token(f.return_last_access, LETTER_RETURN_LAST_ACCESS)
    } else if i == 7 {
        switch_token(f.return_fetched, LETTER_RETURN_FETCHED)
    } else if i == 8 {
        switch_token(f.return_key, LETTER_RETURN_KEY)
    } else if i == 9 {
        switch_token(f.no_update_lru, LETTER_NO_UPDATE_LRU)
    } else if i == 10 {
        switch_token(f.mark_stale, LETTER_MARK_STALE)
    } else if i == 11 {
        number_token(f.cache_ttl, LETTER_CACHE_TTL)
    } else if i == 12 {
        number_token(f.recache_ttl, LETTER_RECACHE_TTL)
    } else if i == 13 {
        number_token(f.vivify_on_miss_ttl, LETTER_VIVIFY_ON_MISS_TTL)
    } else if i == 14 {
        number_token(f.client_flag, LETTER_CLIENT_FLAG)
    } else if i == 15 {
        number_token(f.ma_initial_value, LETTER_MA_INITIAL_VALUE)
    } else if i == 16 {
        number_token(f.ma_delta_value, LETTER_MA_DELTA_VALUE)
    } else if i == 17 {
        number_token(f.cas_token, LETTER_CAS_TOKEN)
    } else if i == 18 {
        blob_token(f.opaque, LETTER_OPAQUE)
    } else if i == 19 {
        byte_token(f.mode, LETTER_MODE)
    } else {
        Seq::empty()
    }
}

/// The tokens of the flags from place `i` of the wire order on, one behind
/// the other.
pub open spec fn suffix_from(f: RequestFlagsView, i: int) -> Seq<u8>
    decreases REQUEST_FLAG_COUNT - i,
{
    if 0 <= i < REQUEST_FLAG_COUNT {
        request_token(f, i) + suffix_from(f, i + 1)
    } else {
        Seq::empty()
    }
}

/// The flag suffix of a command line: the tokens of all flags that are set,
/// in wire order, each with a space before it.
pub open spec fn flag_suffix(f: RequestFlagsView) -> Seq<u8> {
    suffix_from(f, 0)
}

/// Writing the token at place `i` behind `written` leaves the tokens from
/// place `i + 1` on to write.
proof fn lemma_token_written(f: RequestFlagsView, i: int, written: Seq<u8>)
    requires
        0 <= i < REQUEST_FLAG_COUNT,
    ensures
        written + suffix_from(f, i) == (written + request_token(f, i)) + suffix_from(f, i + 1),
{
    assert(written + (request_token(f, i) + suffix_from(f, i + 1)) =~= (written + request_token(
        f,
        i,
    )) + suffix_from(f, i + 1));
}

/// Appends the token of a flag without a value.
fn push_switch(buf: &mut Vec<u8>, set: bool, letter: u8)
    ensures
        final(buf)@ == old(buf)@ + switch_token(set, letter),
{
    if set {
        buf.push(SPACE);
        buf.push(letter);
    }
    proof {
        assert(buf@ =~= old(buf)@ + switch_token(set, letter));
    }
}

/// Appends the token of a numeric flag.
fn push_number(buf: &mut Vec<u8>, value: Option<u32>, letter: u8)
    ensures
        final(buf)@ == old(buf)@ + number_token(value, letter),
{
    if let Some(n) = value {
        buf.push(SPACE);
        buf.push(letter);
        push_decimal(buf, n);
    }
    proof {
        assert(buf@ =~= old(buf)@ + number_token(value, letter));
    }
}

impl RequestFlags {
    /// Flags with the given fields.
    pub fn new(
        no_reply: bool,
        return_client_flag: bool,
        return_cas_token: bool,
        return_value: bool,
        return_ttl: bool,
        return_size: bool,
        return_last_access: bool,
        return_fetched: bool,
        return_key: bool,
        no_update_lru: bool,
        mark_stale: bool,
        cache_ttl: Option<u32>,
        recache_ttl: Option<u32>,
        vivify_on_miss_ttl: Option<u32>,
        client_flag: Option<u32>,
        ma_initial_value: Option<u32>,
        ma_delta_value: Option<u32>,
        cas_token: Option<u32>,
        opaque: Option<Vec<u8>>,
        mode: Option<u8>,
    ) -> (flags: Self)
        ensures
            flags == (RequestFlags {
                no_reply,
                return_client_flag,
                return_cas_token,
                return_value,
                return_ttl,
                return_size,
                return_last_access,
                return_fetched,
                return_key,
                no_update_lru,
                mark_stale,
                cache_ttl,
                recache_ttl,
                vivify_on_miss_ttl,
                client_flag,
                ma_initial_value,
                ma_delta_value,
                cas_token,
                opaque,
                mode,
            }),
    {
        RequestFlags {
            no_reply,
            return_client_flag,
            return_cas_token,
            return_value,
            return_ttl,
            return_size,
            return_last_access,
            return_fetched,
            return_key,
            no_update_lru,
            mark_stale,
            cache_ttl,
            recache_ttl,
            vivify_on_miss_ttl,
            client_flag,
            ma_initial_value,
            ma_delta_value,
            cas_token,
            opaque,
            mode,
        }
    }

    /// Appends the token of the flag at place `place` of the wire order.
    fn push_token(&self, buf: &mut Vec<u8>, place: usize)
        requires
            place < REQUEST_FLAG_COUNT,
        ensures
            final(buf)@ == old(buf)@ + request_token(self@, place as int),
    {
        if place == 0 {
            push_switch(buf, self.no_reply, LETTER_NO_REPLY);
        } else if place == 1 {
            push_switch(buf, self.return_client_flag, LETTER_RETURN_CLIENT_FLAG);
        } else if place == 2 {
            push_switch(buf, self.return_cas_token, LETTER_RETURN_CAS_TOKEN);
        } else if place == 3 {
            push_switch(buf, self.return_value, LETTER_RETURN_VALUE);
        } else if place == 4 {
            push_switch(buf, self.return_ttl, LETTER_RETURN_TTL);
        } else if place == 5 {
            push_switch(buf, self.return_size, LETTER_RETURN_SIZE);
        } else if place == 6 {
            push_switch(buf, self.return_last_access, LETTER_RETURN_LAST_ACCESS);
        } else if place == 7 {
            push_switch(buf, self.return_fetched, LETTER_RETURN_FETCHED);
        } else if place == 8 {
            push_switch(buf, self.return_key, LETTER_RETURN_KEY);
        } else if place == 9 {
            push_switch(buf, self.no_update_lru, LETTER_NO_UPDATE_LRU);
        } else if place == 10 {
            push_switch(buf, self.mark_stale, LETTER_MARK_STALE);
        } else if place == 11 {
            push_number(buf, self.cache_ttl, LETTER_CACHE_TTL);
        } else if place == 12 {
            push_number(buf, self.recache_ttl, LETTER_RECACHE_TTL);
        } else if place == 13 {
            push_number(buf, self.vivify_on_miss_ttl, LETTER_VIVIFY_ON_MISS_TTL);
        } else if place == 14 {
            push_number(buf, self.client_flag, LETTER_CLIENT_FLAG);
        } else if place == 15 {
            push_number(buf, self.ma_initial_value, LETTER_MA_INITIAL_VALUE);
        } else if place == 16 {
            push_number(buf, self.ma_delta_value, LETTER_MA_DELTA_VALUE);
        } else if place == 17 {
            push_number(buf, self.cas_token, LETTER_CAS_TOKEN);
        } else if place == 18 {
            if let Some(bytes) = &self.opaque {
                buf.push(SPACE);
                buf.push(LETTER_OPAQUE);
                push_all(buf, bytes.as_slice());
            }
            proof {
                assert(buf@ =~= old(buf)@ + blob_token(self@.opaque, LETTER_OPAQUE));
            }
        } else {
            if let Some(mode) = self.mode {
                buf.push(SPACE);
                buf.push(LETTER_MODE);
                buf.push(mode);
            }
            proof {
                assert(buf@ =~= old(buf)@ + byte_token(self@.mode, LETTER_MODE));
            }
        }
    }

    /// Appends the flag suffix to `buf`: one token for each flag that is set,
    /// in wire order, each with a space before it and none behind the last.
    pub fn push_bytes(&self, buf: &mut Vec<u8>)
        ensures
            final(buf)@ == old(buf)@ + flag_suffix(self@),
    {
        let mut place: usize = 0;
        while place < REQUEST_FLAG_COUNT
            invariant
                place <= REQUEST_FLAG_COUNT,
                old(buf)@ + flag_suffix(self@) == buf@ + suffix_from(self@, place as int),
            decreases REQUEST_FLAG_COUNT - place,
        {
            proof {
                lemma_token_written(self@, place as int, buf@);
            }
            self.push_token(buf, place);
            place += 1;
        }
        proof {
            assert(buf@ + suffix_from(self@, place as int) =~= buf@);
        }
    }
}

impl PartialEq for RequestFlags {
    /// Two values are equal where all their fields are.
    fn eq(&self, other: &Self) -> (equal: bool) {
        let same_opaque = match (&self.opaque, &other.opaque) {
            (Some(a), Some(b)) => same_bytes(a.as_slice(), b.as_slice()),
            (None, None) => true,
            _ => false,
        };
        same_opaque && self.no_reply == other.no_reply && self.return_client_flag == other.return_client_flag && self.return_cas_token == other.return_cas_token && self.return_value == other.return_value && self.return_ttl == other.return_ttl && self.return_size == other.return_size && self.return_last_access == other.return_last_access && self.return_fetched == other.return_fetched && self.return_key == other.return_key && self.no_update_lru == other.no_update_lru && self.mark_stale == other.mark_stale && self.cache_ttl == other.cache_ttl && self.recache_ttl == other.recache_ttl && self.vivify_on_miss_ttl == other.vivify_on_miss_ttl && self.client_flag == other.client_flag && self.ma_initial_value == other.ma_initial_value && self.ma_delta_value == other.ma_delta_value && self.cas_token == other.cas_token && self.mode == other.mode
    }
}

impl vstd::std_specs::cmp::PartialEqSpecImpl for RequestFlags {
    open spec fn obeys_eq_spec() -> bool {
        true
    }

    open spec fn eq_spec(&self, other: &Self) -> bool {
        self@ == other@
    }
}

impl Eq for RequestFlags {

}

} // verus!
