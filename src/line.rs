//! One line of the dump: the offset, the bytes in hexadecimal grouped by
//! four, padded to a fixed column, then the printable-ASCII sidebar.
use vstd::prelude::*;

use crate::hex::{hex_text, lemma_hex_text_len, pow16, push_hex};

verus! {

/// The most bytes one line shows.
pub const WINDOW_SIZE: usize = 16;

/// The column at which the sidebar starts: the offset field and the byte
/// groups are padded with spaces up to it.
pub const HEX_AREA_WIDTH: usize = 59;

/// The number of digits the offset field is padded to.
pub const OFFSET_DIGITS: u64 = 8;

/// The character set before the first byte of each group of four but the
/// first one.
pub const SEPARATOR_DWORD: char = ' ';

/// What the sidebar shows for a byte outside printable ASCII.
pub const NON_PRINTABLE_CHAR: char = ' ';

/// Why a line could not be formatted.
#[derive(Clone, Copy, Debug, PartialEq, Eq)]
pub enum FormatError {
    /// The window held more than `WINDOW_SIZE` bytes.
    OversizedWindow,
}

/// The character before the byte at index `i` of a window.
pub open spec fn separator(i: int) -> char {
    if i > 0 && i % 4 == 0 {
        SEPARATOR_DWORD
    } else {
        ' '
    }
}

/// The separator and two uppercase digits of the byte at index `i`.
pub open spec fn byte_group(i: int, b: u8) -> Seq<char> {
    seq![separator(i)] + hex_text(b as nat, 2, true)
}

/// The byte groups of a whole window, in order.
pub open spec fn byte_groups(w: Seq<u8>) -> Seq<char>
    decreases w.len(),
{
    if w.len() == 0 {
        Seq::empty()
    } else {
        byte_groups(w.drop_last()) + byte_group(w.len() - 1, w.last())
    }
}

/// Printable ASCII, space included.
pub open spec fn is_shown(b: u8) -> bool {
    0x20 <= b <= 0x7e
}

/// The sidebar character of one byte.
pub open spec fn sidebar_char(b: u8) -> char {
    if is_shown(b) {
        b as char
    } else {
        NON_PRINTABLE_CHAR
    }
}

/// The sidebar of a window: one character per byte.
pub open spec fn sidebar(w: Seq<u8>) -> Seq<char> {
    w.map_values(|b: u8| sidebar_char(b))
}

/// The offset in uppercase hexadecimal, at least eight digits, and a colon.
pub open spec fn offset_field(offset: nat) -> Seq<char> {
    hex_text(offset, OFFSET_DIGITS as nat, true).push(':')
}

/// Everything left of the sidebar, before padding.
pub open spec fn hex_area(w: Seq<u8>, offset: nat) -> Seq<char> {
    offset_field(offset) + byte_groups(w)
}

/// `s` with spaces added at the end up to `width` characters.
pub open spec fn pad_right(s: Seq<char>, width: nat) -> Seq<char> {
    if s.len() >= width {
        s
    } else {
        s + Seq::new((width - s.len()) as nat, |i: int| ' ')
    }
}

/// The line shown for window `w` found at `offset` in the stream.
pub open spec fn formatted_line(w: Seq<u8>, offset: nat) -> Seq<char> {
    pad_right(hex_area(w, offset), HEX_AREA_WIDTH as nat) + sidebar(w)
}

/// Relies on std's `String: FromIterator<&char>`: the string holds the
/// given characters, in order.
#[verifier::external_body]
pub(crate) fn chars_to_string(chars: &Vec<char>) -> (s: String)
    ensures
        s@ == chars@,
{
    String::from_iter(chars)
}

/// The line for the bytes `data[start..end]`, found at `offset`.
pub(crate) fn format_window(data: &[u8], start: usize, end: usize, offset: usize) -> (line: String)
    requires
        start <= end <= data@.len(),
        end - start <= WINDOW_SIZE,
    ensures
        line@ == formatted_line(data@.subrange(start as int, end as int), offset as nat),
{
    let ghost window = data@.subrange(start as int, end as int);
    let mut text: Vec<char> = Vec::new();
    push_hex(&mut text, offset as u64, OFFSET_DIGITS, true);
    text.push(':');
    let mut ascii: Vec<char> = Vec::new();
    let mut i: usize = start;
    while i < end
        invariant
            start <= i <= end <= data@.len(),
            text@ == offset_field(offset as nat) + byte_groups(data@.subrange(start as int, i as int)),
            ascii@ == sidebar(data@.subrange(start as int, i as int)),
        decreases end - i,
    {
        let b: u8 = data[i];
        let k: usize = i - start;
        if k > 0 && k % 4 == 0 {
            text.push(SEPARATOR_DWORD);
        } else {
            text.push(' ');
        }
        push_hex(&mut text, b as u64, 2, true);
        if 0x20 <= b && b <= 0x7e {
            ascii.push(b as char);
        } else {
            ascii.push(NON_PRINTABLE_CHAR);
        }
        proof {
            let next = data@.subrange(start as int, i + 1);
            assert(next.drop_last() =~= data@.subrange(start as int, i as int));
            assert(next.last() == b);
            assert(sidebar(next) =~= sidebar(data@.subrange(start as int, i as int)).push(sidebar_char(b)));
        }
        i = i + 1;
    }
    let ghost area = text@;
    assert(area == hex_area(window, offset as nat));
    while text.len() < HEX_AREA_WIDTH
        invariant
            area.len() <= text@.len(),
            text@.len() <= area.len() || text@.len() <= HEX_AREA_WIDTH,
            text@.subrange(0, area.len() as int) == area,
            forall|j: int| area.len() <= j < text@.len() ==> text@[j] == ' ',
        decreases HEX_AREA_WIDTH - text@.len(),
    {
        text.push(' ');
    }
    assert(text@ =~= pad_right(area, HEX_AREA_WIDTH as nat));
    text.append(&mut ascii);
    chars_to_string(&text)
}

/// Formats one window of at most `WINDOW_SIZE` bytes found at `offset`.
/// A longer window is refused and nothing is formatted.
pub fn dump_line(data: &[u8], offset: usize) -> (r: Result<String, FormatError>)
    ensures
        match r {
            Ok(line) => data@.len() <= WINDOW_SIZE && line@ == formatted_line(data@, offset as nat),
            Err(e) => data@.len() > WINDOW_SIZE && e == FormatError::OversizedWindow,
        },
{
    if data.len() > WINDOW_SIZE {
        return Err(FormatError::OversizedWindow);
    }
    let line = format_window(data, 0, data.len(), offset);
    assert(data@.subrange(0, data@.len() as int) =~= data@);
    Ok(line)
}


/// Each byte takes three characters of the hex area.
pub proof fn lemma_byte_groups_len(w: Seq<u8>)
    ensures
        byte_groups(w).len() == 3 * w.len(),
    decreases w.len(),
{
    if w.len() > 0 {
        lemma_byte_groups_len(w.drop_last());
        reveal_with_fuel(pow16, 3);
        lemma_hex_text_len(w.last() as nat, 2, true);
    }
}

/// The sidebar holds exactly one character per byte of the window and ends
/// every line, whatever the window and the offset.
pub proof fn lemma_sidebar_ends_line(w: Seq<u8>, offset: nat)
    ensures
        sidebar(w).len() == w.len(),
        formatted_line(w, offset).len() >= w.len(),
        formatted_line(w, offset).subrange(
            formatted_line(w, offset).len() - w.len(),
            formatted_line(w, offset).len() as int,
        ) == sidebar(w),
{
    let line = formatted_line(w, offset);
    let head = pad_right(hex_area(w, offset), HEX_AREA_WIDTH as nat);
    assert(line.subrange(head.len() as int, line.len() as int) =~= sidebar(w));
}

/// For a window of one to sixteen bytes at an offset that fits in eight
/// digits, the offset field is eight digits and a colon at the start of the
/// line, and the sidebar starts at column `HEX_AREA_WIDTH`.
pub proof fn lemma_line_layout(w: Seq<u8>, offset: nat)
    requires
        1 <= w.len() <= WINDOW_SIZE,
        offset < 0x1_0000_0000,
    ensures
        offset_field(offset).len() == 9,
        offset_field(offset)[8] == ':',
        formatted_line(w, offset).len() == HEX_AREA_WIDTH + w.len(),
        formatted_line(w, offset).subrange(0, 9) == offset_field(offset),
        formatted_line(w, offset).subrange(HEX_AREA_WIDTH as int, HEX_AREA_WIDTH + w.len())
            == sidebar(w),
{
    reveal_with_fuel(pow16, 9);
    assert(pow16(8) == 0x1_0000_0000);
    lemma_hex_text_len(offset, 8, true);
    lemma_byte_groups_len(w);
    let area = hex_area(w, offset);
    assert(area.len() <= HEX_AREA_WIDTH);
    let head = pad_right(area, HEX_AREA_WIDTH as nat);
    assert(head.len() == HEX_AREA_WIDTH);
    let line = formatted_line(w, offset);
    assert(line.subrange(0, 9) =~= offset_field(offset));
    assert(line.subrange(HEX_AREA_WIDTH as int, HEX_AREA_WIDTH + w.len()) =~= sidebar(w));
}

} // verus!
