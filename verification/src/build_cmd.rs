//! Building the line of a command.

use crate::ascii::{CR, LF, SPACE, TILDE};
use crate::bytes::push_all;
use crate::decimal::{decimal_digits, push_decimal};
use crate::encoding::{base64_encode, base64_standard, is_base64_byte};
use crate::request_flags::{flag_suffix, RequestFlags};
use vstd::prelude::*;

verus! {

/// A key that is sent as it is must be shorter than this.
pub const MAX_KEY_LEN: usize = 250;

/// A key that is sent in base64 must be shorter than this, so that its text
/// stays under [`MAX_KEY_LEN`].
pub const MAX_BIN_KEY_LEN: usize = 187;

/// The letter `S` that stands before the size in the older format.
pub const LEGACY_SIZE_MARK: u8 = 0x53;

/// The letter `b` that tells the server to decode the key from base64.
pub const BINARY_KEY_MARK: u8 = 0x62;

/// `b` cannot stand in a key as it is: a space, a control byte, or a byte
/// above the printable ASCII range.
pub open spec fn is_binary_byte(b: u8) -> bool {
    b <= SPACE || b > TILDE
}

/// `key` holds a byte that cannot be sent as it is.
pub open spec fn is_binary_key(key: Seq<u8>) -> bool {
    exists|i: int| 0 <= i < key.len() && is_binary_byte(#[trigger] key[i])
}

/// `key` is at or above the limit of its kind.
pub open spec fn key_too_long(key: Seq<u8>) -> bool {
    key.len() >= MAX_KEY_LEN || (is_binary_key(key) && key.len() >= MAX_BIN_KEY_LEN)
}

/// The key as it stands in the line: in base64 where it is binary, else as it is.
pub open spec fn key_field(key: Seq<u8>) -> Seq<u8> {
    if is_binary_key(key) {
        base64_standard(key)
    } else {
        key
    }
}

/// The size as it stands in the line: a space, the mark of the older format
/// where that is asked for, and the decimal digits; nothing without a size.
pub open spec fn size_field(size: Option<u32>, legacy_size_format: bool) -> Seq<u8> {
    match size {
        Some(n) => seq![SPACE] + (if legacy_size_format {
            seq![LEGACY_SIZE_MARK]
        } else {
            Seq::empty()
        }) + decimal_digits(n as nat),
        None => Seq::empty(),
    }
}

/// The mark that follows a key sent in base64; nothing for any other key.
pub open spec fn binary_key_field(binary: bool) -> Seq<u8> {
    if binary {
        seq![SPACE, BINARY_KEY_MARK]
    } else {
        Seq::empty()
    }
}

/// The flag suffix of the request flags, nothing where there are none.
pub open spec fn flags_field(request_flags: Option<&RequestFlags>) -> Seq<u8> {
    match request_flags {
        Some(flags) => flag_suffix(flags@),
        None => Seq::empty(),
    }
}

/// The line of a command whose key stands in it as `wire_key`: the command,
/// a space, the key, the size, the mark of a binary key, the flags, and the
/// line terminator.
pub open spec fn line_with_key(
    cmd: Seq<u8>,
    wire_key: Seq<u8>,
    binary: bool,
    size: Option<u32>,
    request_flags: Option<&RequestFlags>,
    legacy_size_format: bool,
) -> Seq<u8> {
    cmd + seq![SPACE] + wire_key + size_field(size, legacy_size_format) + binary_key_field(binary)
        + flags_field(request_flags) + seq![CR, LF]
}

/// The line of a command on `key`: a binary key stands in it in base64 and
/// with its mark, any other key as it is.
pub open spec fn command_line(
    cmd: Seq<u8>,
    key: Seq<u8>,
    size: Option<u32>,
    request_flags: Option<&RequestFlags>,
    legacy_size_format: bool,
) -> Seq<u8> {
    line_with_key(
        cmd,
        key_field(key),
        is_binary_key(key),
        size,
        request_flags,
        legacy_size_format,
    )
}

/// The bytes of a line that was built, `None` where none was.
pub open spec fn line_bytes(line: Option<Vec<u8>>) -> Option<Seq<u8>> {
    match line {
        Some(bytes) => Some(bytes@),
        None => None,
    }
}

/// Whether `key` holds a byte that cannot be sent as it is.
pub fn has_binary_byte(key: &[u8]) -> (binary: bool)
    ensures
        binary == is_binary_key(key@),
{
    let mut i: usize = 0;
    while i < key.len()
        invariant
            i <= key@.len(),
            forall|j: int| 0 <= j < i ==> !is_binary_byte(#[trigger] key@[j]),
        decreases key@.len() - i,
    {
        let c = key[i];
        if c <= SPACE || c > TILDE {
            assert(is_binary_byte(key@[i as int]));
            return true;
        }
        i += 1;
    }
    false
}

/// Writes the line of a command whose key stands in it as `wire_key`;
/// `binary` says whether that is the base64 text of a binary key.
pub fn write_command(
    cmd: &[u8],
    wire_key: &[u8],
    binary: bool,
    size: Option<u32>,
    request_flags: Option<&RequestFlags>,
    legacy_size_format: bool,
) -> (line: Vec<u8>)
    ensures
        line@ == line_with_key(cmd@, wire_key@, binary, size, request_flags, legacy_size_format),
{
    let mut buf: Vec<u8> = Vec::new();

    push_all(&mut buf, cmd);
    buf.push(SPACE);
    push_all(&mut buf, wire_key);
    assert(buf@ =~= cmd@ + seq![SPACE] + wire_key@);

    if let Some(size) = size {
        buf.push(SPACE);
        if legacy_size_format {
            buf.push(LEGACY_SIZE_MARK);
        }
        push_decimal(&mut buf, size);
    }
    assert(buf@ =~= cmd@ + seq![SPACE] + wire_key@ + size_field(size, legacy_size_format));

    if binary {
        // The mark makes the server decode the key and store it as binary.
        buf.push(SPACE);
        buf.push(BINARY_KEY_MARK);
    }
    assert(buf@ =~= cmd@ + seq![SPACE] + wire_key@ + size_field(size, legacy_size_format)
        + binary_key_field(binary));

    if let Some(flags) = request_flags {
        flags.push_bytes(&mut buf);
    }
    assert(buf@ =~= cmd@ + seq![SPACE] + wire_key@ + size_field(size, legacy_size_format)
        + binary_key_field(binary) + flags_field(request_flags));
    buf.push(CR);
    buf.push(LF);
    assert(buf@ =~= line_with_key(
        cmd@,
        wire_key@,
        binary,
        size,
        request_flags,
        legacy_size_format,
    ));
    buf
}

/// Builds the line of the command `cmd` on `key`.
///
/// Fails, with `None`, exactly where the key is too long for its kind. This
/// is the only failure. A key with a byte that cannot be sent as it is goes
/// out in base64, followed by the mark `b`; any other key goes out as it is,
/// without the mark. The key as sent is shorter than [`MAX_KEY_LEN`] and
/// holds no binary byte.
pub fn impl_build_cmd(
    cmd: &[u8],
    key: &[u8],
    size: Option<u32>,
    request_flags: Option<&RequestFlags>,
    legacy_size_format: bool,
) -> (line: Option<Vec<u8>>)
    ensures
        line is None <==> key_too_long(key@),
        !key_too_long(key@) ==> line_bytes(line) == Some(
            command_line(cmd@, key@, size, request_flags, legacy_size_format),
        ),
        !is_binary_key(key@) && key@.len() < MAX_KEY_LEN ==> line_bytes(line) == Some(
            cmd@ + seq![SPACE] + key@ + size_field(size, legacy_size_format) + flags_field(
                request_flags,
            ) + seq![CR, LF],
        ),
        is_binary_key(key@) && key@.len() < MAX_BIN_KEY_LEN ==> line_bytes(line) == Some(
            cmd@ + seq![SPACE] + base64_standard(key@) + size_field(size, legacy_size_format)
                + seq![SPACE, BINARY_KEY_MARK] + flags_field(request_flags) + seq![CR, LF],
        ),
        line is Some ==> key_field(key@).len() < MAX_KEY_LEN && !is_binary_key(key_field(key@)),
{
    if key.len() >= MAX_KEY_LEN {
        return None;
    }
    let binary = has_binary_byte(key);
    if binary && key.len() >= MAX_BIN_KEY_LEN {
        return None;
    }
    if binary {
        // A key with spaces or binary bytes is sent in base64.
        let text = base64_encode(key);
        proof {
            assert forall|i: int| 0 <= i < text@.len() implies !is_binary_byte(
                #[trigger] text@[i],
            ) by {
                assert(is_base64_byte(text@[i]));
            }
        }
        Some(write_command(cmd, text.as_slice(), true, size, request_flags, legacy_size_format))
    } else {
        // Any other key is sent as it is.
        let line = write_command(cmd, key, false, size, request_flags, legacy_size_format);
        proof {
            assert(line@ =~= cmd@ + seq![SPACE] + key@ + size_field(size, legacy_size_format)
                + flags_field(request_flags) + seq![CR, LF]);
        }
        Some(line)
    }
}

} // verus!
