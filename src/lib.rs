//! Classic hex-dump rendering: offset, grouped hexadecimal bytes and a
//! printable-ASCII sidebar, one line per window of at most sixteen bytes.

pub mod hex;
pub mod line;
pub mod stream;

pub use line::{dump_line, FormatError, HEX_AREA_WIDTH, NON_PRINTABLE_CHAR, SEPARATOR_DWORD, WINDOW_SIZE};
pub use stream::{Dumper, CHUNK_SIZE};
