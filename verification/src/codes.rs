//! The control sequences of the output device, byte for byte.

use vstd::prelude::*;

verus! {

/// The escape byte that starts every control sequence.
pub const ESC: u8 = 0x1B;

/// Line feed.
pub const LF: u8 = 0x0A;

/// Space.
pub const SPACE: u8 = 0x20;

/// `ESC E`
pub open spec fn bold_on() -> Seq<u8> {
    seq![ESC, 0x45u8]
}

/// `ESC F`
pub open spec fn bold_off() -> Seq<u8> {
    seq![ESC, 0x46u8]
}

/// `ESC 4`
pub open spec fn italic_on() -> Seq<u8> {
    seq![ESC, 0x34u8]
}

/// `ESC 5`
pub open spec fn italic_off() -> Seq<u8> {
    seq![ESC, 0x35u8]
}

/// `ESC - 1`
pub open spec fn underline_on() -> Seq<u8> {
    seq![ESC, 0x2Du8, 0x31u8]
}

/// `ESC - 0`
pub open spec fn underline_off() -> Seq<u8> {
    seq![ESC, 0x2Du8, 0x30u8]
}

/// `ESC W 1`
pub open spec fn double_height_on() -> Seq<u8> {
    seq![ESC, 0x57u8, 0x31u8]
}

/// `ESC W 0`
pub open spec fn double_height_off() -> Seq<u8> {
    seq![ESC, 0x57u8, 0x30u8]
}

/// `ESC w 1`
pub open spec fn double_width_on() -> Seq<u8> {
    seq![ESC, 0x77u8, 0x31u8]
}

/// `ESC w 0`
pub open spec fn double_width_off() -> Seq<u8> {
    seq![ESC, 0x77u8, 0x30u8]
}

/// What opens a top-level header: a blank line, then bold, double width and
/// double height.
pub open spec fn top_header_open() -> Seq<u8> {
    seq![LF, LF] + bold_on() + double_width_on() + double_height_on()
}

/// What closes a top-level header: the three faces off, then a line feed.
pub open spec fn top_header_close() -> Seq<u8> {
    bold_off() + double_width_off() + double_height_off() + seq![LF]
}

/// What opens a lower-level header: a blank line, then double width.
pub open spec fn lower_header_open() -> Seq<u8> {
    seq![LF, LF] + double_width_on()
}

/// What closes a lower-level header: double width off, then a line feed.
pub open spec fn lower_header_close() -> Seq<u8> {
    double_width_off() + seq![LF]
}

pub const NOTHING: [u8; 0] = [];

pub const BOLD_ON: [u8; 2] = [0x1B, 0x45];

pub const BOLD_OFF: [u8; 2] = [0x1B, 0x46];

pub const ITALIC_ON: [u8; 2] = [0x1B, 0x34];

pub const ITALIC_OFF: [u8; 2] = [0x1B, 0x35];

pub const UNDERLINE_ON: [u8; 3] = [0x1B, 0x2D, 0x31];

pub const UNDERLINE_OFF: [u8; 3] = [0x1B, 0x2D, 0x30];

pub const TOP_HEADER_OPEN: [u8; 10] = [0x0A, 0x0A, 0x1B, 0x45, 0x1B, 0x77, 0x31, 0x1B, 0x57, 0x31];

pub const TOP_HEADER_CLOSE: [u8; 9] = [0x1B, 0x46, 0x1B, 0x77, 0x30, 0x1B, 0x57, 0x30, 0x0A];

pub const LOWER_HEADER_OPEN: [u8; 5] = [0x0A, 0x0A, 0x1B, 0x77, 0x31];

pub const LOWER_HEADER_CLOSE: [u8; 4] = [0x1B, 0x77, 0x30, 0x0A];

/// The byte tables hold exactly the sequences that the functions above give.
pub proof fn lemma_tables_hold_the_codes()
    ensures
        NOTHING@ == Seq::<u8>::empty(),
        BOLD_ON@ == bold_on(),
        BOLD_OFF@ == bold_off(),
        ITALIC_ON@ == italic_on(),
        ITALIC_OFF@ == italic_off(),
        UNDERLINE_ON@ == underline_on(),
        UNDERLINE_OFF@ == underline_off(),
        TOP_HEADER_OPEN@ == top_header_open(),
        TOP_HEADER_CLOSE@ == top_header_close(),
        LOWER_HEADER_OPEN@ == lower_header_open(),
        LOWER_HEADER_CLOSE@ == lower_header_close(),
{
    assert(NOTHING@ =~= Seq::<u8>::empty());
    assert(BOLD_ON@ =~= bold_on());
    assert(BOLD_OFF@ =~= bold_off());
    assert(ITALIC_ON@ =~= italic_on());
    assert(ITALIC_OFF@ =~= italic_off());
    assert(UNDERLINE_ON@ =~= underline_on());
    assert(UNDERLINE_OFF@ =~= underline_off());
    assert(TOP_HEADER_OPEN@ =~= top_header_open());
    assert(TOP_HEADER_CLOSE@ =~= top_header_close());
    assert(LOWER_HEADER_OPEN@ =~= lower_header_open());
    assert(LOWER_HEADER_CLOSE@ =~= lower_header_close());
}

} // verus!
