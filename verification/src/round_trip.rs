//! What the response decoder makes of the flag suffix of a request.
//!
//! The two grammars share letters. A flag that a request sends without a
//! value (`c`, `t`, `f`, `s`, `l`, `h`) is read by the decoder as a token whose
//! value is missing, and leaves its field absent; the request's own letters
//! are unknown to the decoder and passed over. Only the opaque bytes carry a
//! value under the same letter in both, and they come back as they were sent.

use crate::ascii::{MINUS, SPACE};
use crate::decimal::{
    all_digits, decimal_digits, digit_run_len, is_digit, lemma_decimal_digits_are_digits,
    lemma_decimal_round_trip,
};
use crate::request_flags::{
    flag_suffix, request_token, suffix_from, RequestFlagsView, LETTER_CACHE_TTL, LETTER_CAS_TOKEN,
    LETTER_CLIENT_FLAG, LETTER_MARK_STALE, LETTER_MA_DELTA_VALUE, LETTER_MA_INITIAL_VALUE,
    LETTER_MODE, LETTER_NO_REPLY, LETTER_NO_UPDATE_LRU, LETTER_OPAQUE, LETTER_RECACHE_TTL,
    LETTER_RETURN_CAS_TOKEN, LETTER_RETURN_CLIENT_FLAG, LETTER_RETURN_FETCHED,
    LETTER_RETURN_KEY, LETTER_RETURN_LAST_ACCESS, LETTER_RETURN_SIZE, LETTER_RETURN_TTL,
    LETTER_RETURN_VALUE, LETTER_VIVIFY_ON_MISS_TTL, REQUEST_FLAG_COUNT,
};
use crate::response_flags::{
    decode_flags, flags_from, no_flags, space_or_end, token_effect, ttl_token, u32_token,
    ResponseFlagsView,
    FLAG_CAS_TOKEN, FLAG_CLIENT_FLAG, FLAG_FETCHED, FLAG_LAST_ACCESS, FLAG_LOST, FLAG_OPAQUE,
    FLAG_SIZE, FLAG_STALE, FLAG_TTL, FLAG_WIN,
};
use vstd::prelude::*;

verus! {

/// No byte of `s` is a space.
pub open spec fn has_no_space(s: Seq<u8>) -> bool {
    forall|i: int| 0 <= i < s.len() ==> #[trigger] s[i] != SPACE
}

/// No flag stands between `h` and the opaque bytes in the suffix of `f`.
pub open spec fn nothing_behind_fetched(f: RequestFlagsView) -> bool {
    &&& !f.return_key
    &&& !f.no_update_lru
    &&& !f.mark_stale
    &&& f.cache_ttl is None
    &&& f.recache_ttl is None
    &&& f.vivify_on_miss_ttl is None
    &&& f.client_flag is None
    &&& f.ma_initial_value is None
    &&& f.ma_delta_value is None
    &&& f.cas_token is None
}

/// `b` alone is a token that changes the decoded flags.
pub open spec fn reads_as_flag(b: u8) -> bool {
    b == FLAG_WIN || b == FLAG_LOST || b == FLAG_STALE || b == FLAG_OPAQUE
}

/// The suffix of `f` can be decoded token by token.
///
/// Opaque bytes with a space in them would end their token early. And the
/// decoder takes the byte behind `h` for a value and the next for a
/// separator, so the token behind `h` loses its letter: that is harmless for
/// a flag without a value and for a number, but it must not be the opaque
/// token, nor a mode whose byte reads as a flag of its own.
pub open spec fn decodes_by_tokens(f: RequestFlagsView) -> bool {
    &&& f.opaque matches Some(bytes) ==> has_no_space(bytes)
    &&& f.return_fetched && nothing_behind_fetched(f) ==> {
        &&& f.opaque is None
        &&& f.mode matches Some(m) ==> !reads_as_flag(m)
    }
}

/// What the decoder recovers from the suffix of `f`: the opaque bytes, and
/// nothing else.
pub open spec fn recovered(f: RequestFlagsView) -> ResponseFlagsView {
    ResponseFlagsView { opaque: f.opaque, ..no_flags() }
}

/// `x` is a letter of the response grammar.
spec fn is_response_letter(x: u8) -> bool {
    ||| x == FLAG_CAS_TOKEN
    ||| x == FLAG_FETCHED
    ||| x == FLAG_LAST_ACCESS
    ||| x == FLAG_TTL
    ||| x == FLAG_CLIENT_FLAG
    ||| x == FLAG_WIN
    ||| x == FLAG_LOST
    ||| x == FLAG_STALE
    ||| x == FLAG_SIZE
    ||| x == FLAG_OPAQUE
}

/// `s` is empty, or starts with a space and a byte that is neither a space
/// nor a minus sign.
spec fn starts_like_token(s: Seq<u8>) -> bool {
    s.len() == 0 || (s.len() >= 2 && s[0] == SPACE && s[1] != SPACE && s[1] != MINUS)
}

/// From place `i` on, the flags seen so far gain the opaque bytes, if those
/// are still to come.
spec fn gained(f: RequestFlagsView, i: int, acc: ResponseFlagsView) -> ResponseFlagsView {
    if i <= 18 && f.opaque is Some {
        ResponseFlagsView { opaque: f.opaque, ..acc }
    } else {
        acc
    }
}

/// The first token at or behind place `i` can lose its letter without harm.
spec fn letter_may_go(f: RequestFlagsView, i: int) -> bool
    decreases REQUEST_FLAG_COUNT - i,
{
    if i < 0 || i >= REQUEST_FLAG_COUNT {
        true
    } else if request_token(f, i).len() == 0 {
        letter_may_go(f, i + 1)
    } else if i == 18 {
        false
    } else if i == 19 {
        f.mode matches Some(m) && !reads_as_flag(m)
    } else {
        true
    }
}

/// A space in front is skipped.
proof fn lemma_leading_space(s: Seq<u8>, acc: ResponseFlagsView)
    ensures
        decode_flags(seq![SPACE] + s, acc) == decode_flags(s, acc),
{
    assert((seq![SPACE] + s).drop_first() =~= s);
}

/// A word without a space ends where a space, or nothing, follows it.
proof fn lemma_space_or_end_of_word(w: Seq<u8>, rest: Seq<u8>)
    requires
        has_no_space(w),
        rest.len() == 0 || rest[0] == SPACE,
    ensures
        space_or_end(w + rest) == w.len(),
    decreases w.len(),
{
    if w.len() == 0 {
        assert(w + rest =~= rest);
    } else {
        assert((w + rest)[0] == w[0]);
        assert((w + rest).drop_first() =~= w.drop_first() + rest);
        lemma_space_or_end_of_word(w.drop_first(), rest);
    }
}

/// A token with a letter that the decoder does not know is passed over.
proof fn lemma_unknown_token(x: u8, w: Seq<u8>, rest: Seq<u8>, acc: ResponseFlagsView)
    requires
        x != SPACE,
        !is_response_letter(x),
        has_no_space(w),
        rest.len() == 0 || rest[0] == SPACE,
    ensures
        decode_flags(seq![x] + w + rest, acc) == decode_flags(rest, acc),
{
    let s = seq![x] + w + rest;
    let v = w + rest;
    assert(s[0] == x);
    assert(s.drop_first() =~= v);
    lemma_space_or_end_of_word(w, rest);
    assert(token_effect(x, v, acc) == (w.len(), acc));
    if rest.len() == 0 {
        assert(v.skip(w.len() as int) =~= rest);
    } else {
        assert(v.skip(w.len() as int + 1) =~= rest.drop_first());
    }
}

/// A number letter of the decoder without a value behind it changes nothing.
proof fn lemma_letter_without_value(x: u8, rest: Seq<u8>, acc: ResponseFlagsView)
    requires
        x == FLAG_CAS_TOKEN || x == FLAG_LAST_ACCESS || x == FLAG_CLIENT_FLAG || x == FLAG_SIZE
            || x == FLAG_TTL,
        starts_like_token(rest),
    ensures
        decode_flags(seq![x] + rest, acc) == decode_flags(rest, acc),
{
    let s = seq![x] + rest;
    assert(s[0] == x);
    assert(s.drop_first() =~= rest);
    assert(digit_run_len(rest) == 0);
    assert(space_or_end(rest) == 0);
    assert(token_effect(x, rest, acc) == (0nat, acc));
    if rest.len() == 0 {
        assert(rest.skip(0) =~= rest);
    } else {
        assert(rest.skip(1) =~= rest.drop_first());
    }
}

/// The letter `h` without a value takes the two bytes behind it and changes
/// nothing.
proof fn lemma_fetched_without_value(rest: Seq<u8>, acc: ResponseFlagsView)
    requires
        starts_like_token(rest),
    ensures
        decode_flags(seq![FLAG_FETCHED] + rest, acc) == if rest.len() == 0 {
            acc
        } else {
            decode_flags(rest.skip(2), acc)
        },
{
    let s = seq![FLAG_FETCHED] + rest;
    assert(s[0] == FLAG_FETCHED);
    assert(s.drop_first() =~= rest);
    assert(token_effect(FLAG_FETCHED, rest, acc) == (1nat, acc));
    if rest.len() == 0 {
        assert(rest.skip(0) =~= rest);
        assert(decode_flags(rest, acc) == acc);
    }
}

/// The opaque token gives its bytes.
proof fn lemma_opaque_token(bytes: Seq<u8>, rest: Seq<u8>, acc: ResponseFlagsView)
    requires
        has_no_space(bytes),
        rest.len() == 0 || rest[0] == SPACE,
    ensures
        decode_flags(seq![FLAG_OPAQUE] + bytes + rest, acc) == decode_flags(
            rest,
            ResponseFlagsView { opaque: Some(bytes), ..acc },
        ),
{
    let s = seq![FLAG_OPAQUE] + bytes + rest;
    let v = bytes + rest;
    assert(s[0] == FLAG_OPAQUE);
    assert(s.drop_first() =~= v);
    lemma_space_or_end_of_word(bytes, rest);
    assert(v.take(bytes.len() as int) =~= bytes);
    if rest.len() == 0 {
        assert(v.skip(bytes.len() as int) =~= rest);
    } else {
        assert(v.skip(bytes.len() as int + 1) =~= rest.drop_first());
    }
}

/// The mode token, the last of the suffix, is passed over whatever its byte.
proof fn lemma_mode_token(m: u8, acc: ResponseFlagsView)
    ensures
        decode_flags(seq![LETTER_MODE, m], acc) == acc,
{
    let s = seq![LETTER_MODE, m];
    let v = seq![m];
    assert(s.drop_first() =~= v);
    assert(v.drop_first() =~= Seq::<u8>::empty());
    assert(space_or_end(v.drop_first()) == 0);
    assert(v.skip(1) =~= Seq::<u8>::empty());
    assert(decode_flags(v.skip(1), acc) == acc);
}

/// A lone byte that does not read as a flag changes nothing.
proof fn lemma_lone_byte(m: u8, acc: ResponseFlagsView)
    requires
        !reads_as_flag(m),
    ensures
        decode_flags(seq![m], acc) == acc,
{
    let s = seq![m];
    let v = s.drop_first();
    assert(v =~= Seq::<u8>::empty());
    assert(digit_run_len(v) == 0);
    assert(space_or_end(v) == 0);
    assert(v.skip(0) =~= v);
    assert(decode_flags(v, acc) == acc);
    if m != SPACE {
        assert(token_effect(m, v, acc).1 == acc);
    }
}

/// What is left of the suffix at any place is empty or starts like a token.
proof fn lemma_suffix_shape(f: RequestFlagsView, i: int)
    requires
        0 <= i <= REQUEST_FLAG_COUNT,
    ensures
        starts_like_token(suffix_from(f, i)),
    decreases REQUEST_FLAG_COUNT - i,
{
    if i < REQUEST_FLAG_COUNT {
        lemma_suffix_shape(f, i + 1);
        let token = request_token(f, i);
        let rest = suffix_from(f, i + 1);
        if token.len() == 0 {
            assert(token + rest =~= rest);
        } else {
            assert(token.len() >= 2 && token[0] == SPACE && token[1] != SPACE && token[1] != MINUS);
            assert((token + rest)[0] == token[0]);
            assert((token + rest)[1] == token[1]);
        }
    }
}

/// The letter of the flag at place `i` of the wire order.
spec fn place_letter(i: int) -> u8 {
    if i == 0 {
        LETTER_NO_REPLY
    } else if i == 1 {
        LETTER_RETURN_CLIENT_FLAG
    } else if i == 2 {
        LETTER_RETURN_CAS_TOKEN
    } else if i == 3 {
        LETTER_RETURN_VALUE
    } else if i == 4 {
        LETTER_RETURN_TTL
    } else if i == 5 {
        LETTER_RETURN_SIZE
    } else if i == 6 {
        LETTER_RETURN_LAST_ACCESS
    } else if i == 7 {
        LETTER_RETURN_FETCHED
    } else if i == 8 {
        LETTER_RETURN_KEY
    } else if i == 9 {
        LETTER_NO_UPDATE_LRU
    } else if i == 10 {
        LETTER_MARK_STALE
    } else if i == 11 {
        LETTER_CACHE_TTL
    } else if i == 12 {
        LETTER_RECACHE_TTL
    } else if i == 13 {
        LETTER_VIVIFY_ON_MISS_TTL
    } else if i == 14 {
        LETTER_CLIENT_FLAG
    } else if i == 15 {
        LETTER_MA_INITIAL_VALUE
    } else if i == 16 {
        LETTER_MA_DELTA_VALUE
    } else if i == 17 {
        LETTER_CAS_TOKEN
    } else if i == 18 {
        LETTER_OPAQUE
    } else {
        LETTER_MODE
    }
}

/// The number that the flag at place `i` carries, for the places of numbers.
spec fn place_number(f: RequestFlagsView, i: int) -> Option<u32> {
    if i == 11 {
        f.cache_ttl
    } else if i == 12 {
        f.recache_ttl
    } else if i == 13 {
        f.vivify_on_miss_ttl
    } else if i == 14 {
        f.client_flag
    } else if i == 15 {
        f.ma_initial_value
    } else if i == 16 {
        f.ma_delta_value
    } else {
        f.cas_token
    }
}

/// The value bytes of the token at place `i`, where the flag is set.
spec fn place_body(f: RequestFlagsView, i: int) -> Seq<u8> {
    if i <= 10 {
        Seq::empty()
    } else if i <= 17 {
        decimal_digits(place_number(f, i)->0 as nat)
    } else if i == 18 {
        f.opaque->0
    } else {
        seq![f.mode->0]
    }
}

/// A token of the suffix is a space, the letter of its place and its value.
proof fn lemma_token_parts(f: RequestFlagsView, i: int)
    requires
        0 <= i < REQUEST_FLAG_COUNT,
        request_token(f, i).len() > 0,
    ensures
        request_token(f, i) == seq![SPACE] + (seq![place_letter(i)] + place_body(f, i)),
        11 <= i <= 17 ==> place_body(f, i).len() > 0 && all_digits(place_body(f, i)),
        i == 18 ==> f.opaque is Some,
        i == 19 ==> f.mode is Some,
{
    if 11 <= i <= 17 {
        lemma_decimal_digits_are_digits(place_number(f, i)->0 as nat);
    }
    assert(request_token(f, i) =~= seq![SPACE] + (seq![place_letter(i)] + place_body(f, i)));
}

/// The first token of what is left of the suffix at place `i` comes off.
proof fn lemma_suffix_parts(f: RequestFlagsView, i: int)
    requires
        0 <= i < REQUEST_FLAG_COUNT,
    ensures
        starts_like_token(suffix_from(f, i + 1)),
        request_token(f, i).len() == 0 ==> suffix_from(f, i) == suffix_from(f, i + 1),
        request_token(f, i).len() > 0 ==> suffix_from(f, i) == seq![SPACE] + (seq![
            place_letter(i),
        ] + place_body(f, i) + suffix_from(f, i + 1)) && suffix_from(f, i).skip(2) == place_body(
            f,
            i,
        ) + suffix_from(f, i + 1),
{
    lemma_suffix_shape(f, i + 1);
    let token = request_token(f, i);
    let rest = suffix_from(f, i + 1);
    if token.len() == 0 {
        assert(token + rest =~= rest);
    } else {
        lemma_token_parts(f, i);
        let tail = seq![place_letter(i)] + place_body(f, i);
        assert(token + rest =~= seq![SPACE] + (tail + rest));
        assert((token + rest).skip(2) =~= place_body(f, i) + rest);
    }
}

/// Where nothing is left of the suffix at place `i`, no opaque bytes are to
/// come.
proof fn lemma_nothing_left(f: RequestFlagsView, i: int)
    requires
        0 <= i <= 18,
        suffix_from(f, i).len() == 0,
    ensures
        f.opaque is None,
    decreases 18 - i,
{
    if i < 18 {
        lemma_nothing_left(f, i + 1);
    }
}

/// Digits hold no space.
proof fn lemma_digits_have_no_space(s: Seq<u8>)
    requires
        all_digits(s),
    ensures
        has_no_space(s),
{
}

/// Decoding what is left of the suffix at place `i` adds the opaque bytes, if
/// they are still to come, and nothing else.
proof fn lemma_decode_from(f: RequestFlagsView, i: int, acc: ResponseFlagsView)
    requires
        0 <= i <= REQUEST_FLAG_COUNT,
        f.opaque matches Some(bytes) ==> has_no_space(bytes),
        i <= 7 && f.return_fetched ==> letter_may_go(f, 8),
    ensures
        decode_flags(suffix_from(f, i), acc) == gained(f, i, acc),
    decreases REQUEST_FLAG_COUNT - i, 1nat,
{
    if i < REQUEST_FLAG_COUNT {
        let rest = suffix_from(f, i + 1);
        lemma_suffix_parts(f, i);
        if request_token(f, i).len() == 0 {
            lemma_decode_from(f, i + 1, acc);
        } else {
            lemma_token_parts(f, i);
            let letter = place_letter(i);
            let body = place_body(f, i);
            lemma_leading_space(seq![letter] + body + rest, acc);
            if i == 18 {
                lemma_opaque_token(body, rest, acc);
                lemma_decode_from(f, i + 1, ResponseFlagsView { opaque: Some(body), ..acc });
            } else if i == 19 {
                assert(seq![letter] + body + rest =~= seq![LETTER_MODE, f.mode->0]);
                lemma_mode_token(f.mode->0, acc);
            } else if i == 7 {
                assert(seq![letter] + body + rest =~= seq![FLAG_FETCHED] + rest);
                lemma_fetched_without_value(rest, acc);
                if rest.len() > 0 {
                    lemma_decode_behind_letter(f, 8, acc);
                } else {
                    lemma_nothing_left(f, 8);
                }
            } else if i == 1 || i == 2 || i == 4 || i == 5 || i == 6 {
                assert(seq![letter] + body + rest =~= seq![letter] + rest);
                lemma_letter_without_value(letter, rest, acc);
                lemma_decode_from(f, i + 1, acc);
            } else {
                if i >= 11 {
                    lemma_digits_have_no_space(body);
                }
                lemma_unknown_token(letter, body, rest, acc);
                lemma_decode_from(f, i + 1, acc);
            }
        }
    }
}

/// Decoding what is left of the suffix at place `i` without the space and the
/// letter of its first token gives the same as decoding all of it, where that
/// letter may go.
proof fn lemma_decode_behind_letter(f: RequestFlagsView, i: int, acc: ResponseFlagsView)
    requires
        8 <= i <= REQUEST_FLAG_COUNT,
        f.opaque matches Some(bytes) ==> has_no_space(bytes),
        letter_may_go(f, i),
        suffix_from(f, i).len() > 0,
    ensures
        decode_flags(suffix_from(f, i).skip(2), acc) == gained(f, i, acc),
    decreases REQUEST_FLAG_COUNT - i, 0nat,
{
    let rest = suffix_from(f, i + 1);
    lemma_suffix_parts(f, i);
    if request_token(f, i).len() == 0 {
        lemma_decode_behind_letter(f, i + 1, acc);
    } else {
        lemma_token_parts(f, i);
        let body = place_body(f, i);
        if i == 19 {
            assert(body + rest =~= seq![f.mode->0]);
            lemma_lone_byte(f.mode->0, acc);
        } else if i >= 11 {
            let first = body[0];
            lemma_digits_have_no_space(body);
            assert(body + rest =~= seq![first] + body.skip(1) + rest);
            lemma_unknown_token(first, body.skip(1), rest, acc);
            lemma_decode_from(f, i + 1, acc);
        } else {
            assert(body + rest =~= rest);
            lemma_decode_from(f, i + 1, acc);
        }
    }
}

/// Where `h` is sent and the suffix can be decoded token by token, the token
/// behind `h` can lose its letter.
proof fn lemma_behind_fetched(f: RequestFlagsView)
    requires
        decodes_by_tokens(f),
        f.return_fetched,
    ensures
        letter_may_go(f, 8),
{
    reveal_with_fuel(letter_may_go, 14);
}

/// Decoding the flags that a request serialized recovers its opaque bytes.
///
/// Where the flag suffix of `f` stands at the end of `head` and can be decoded
/// token by token, the response decoder, started behind `head`, finds the
/// opaque bytes of `f` as they were sent, or none where `f` has none, and
/// leaves every other field absent.
pub proof fn lemma_request_flags_round_trip(head: Seq<u8>, f: RequestFlagsView)
    requires
        decodes_by_tokens(f),
    ensures
        flags_from(head + flag_suffix(f), head.len() as int) == recovered(f),
{
    assert((head + flag_suffix(f)).skip(head.len() as int) =~= flag_suffix(f));
    if f.return_fetched {
        lemma_behind_fetched(f);
    }
    lemma_decode_from(f, 0, no_flags());
}

/// An unsigned number is decoded as it was written.
///
/// Where the decimal digits of `n` stand behind a number letter of the
/// response grammar, and what follows does not go on with a digit, the token
/// is those digits and its value is `n`.
pub proof fn lemma_number_token_round_trip(n: u32, rest: Seq<u8>)
    requires
        rest.len() == 0 || !is_digit(rest[0]),
    ensures
        u32_token(decimal_digits(n as nat) + rest) == (
            decimal_digits(n as nat).len(),
            Some(n),
        ),
{
    lemma_decimal_round_trip(n as nat, rest);
    lemma_decimal_digits_are_digits(n as nat);
}

/// A ttl that is not negative is decoded as it was written.
///
/// Where the decimal digits of `n` stand behind the ttl letter, and what
/// follows goes on neither with a digit nor with a minus sign, the token is
/// those digits and its value is `n`.
pub proof fn lemma_ttl_token_round_trip(n: i32, rest: Seq<u8>)
    requires
        n >= 0,
        rest.len() == 0 || (!is_digit(rest[0]) && rest[0] != MINUS),
    ensures
        ttl_token(decimal_digits(n as nat) + rest) == (decimal_digits(n as nat).len(), Some(n)),
{
    lemma_decimal_round_trip(n as nat, rest);
    lemma_decimal_digits_are_digits(n as nat);
    let digits = decimal_digits(n as nat);
    let v = digits + rest;
    if v.len() > 1 {
        if digits.len() > 1 {
            assert(v[1] == digits[1]);
            assert(is_digit(digits[1]));
        } else {
            assert(v[1] == rest[0]);
        }
    }
}

} // verus!
