//! Codec for the memcached meta protocol: builds command lines and decodes
//! response headers, with every function's behaviour stated and proved.

pub mod ascii;
pub mod build_cmd;
pub mod bytes;
pub mod decimal;
pub mod encoding;
pub mod parse_header;
pub mod request_flags;
pub mod response_flags;
pub mod round_trip;

pub use build_cmd::impl_build_cmd;
pub use parse_header::{impl_parse_header, ResponseType};
pub use request_flags::RequestFlags;
pub use response_flags::ResponseFlags;
