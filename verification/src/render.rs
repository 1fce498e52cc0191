//! The renderer: five independent toggles and the bytes that each token emits.

use crate::codes::{
    bold_off, bold_on, italic_off, italic_on, lemma_tables_hold_the_codes, lower_header_close,
    lower_header_open, top_header_close, top_header_open, underline_off, underline_on, BOLD_OFF,
    BOLD_ON, ITALIC_OFF, ITALIC_ON, LF, LOWER_HEADER_CLOSE, LOWER_HEADER_OPEN, NOTHING, SPACE,
    TOP_HEADER_CLOSE, TOP_HEADER_OPEN, UNDERLINE_OFF, UNDERLINE_ON,
};
use crate::token::{Lexeme, Token};
use vstd::prelude::*;

verus! {

/// The formatting environments that are open in the output at some moment.
///
/// The five flags are independent of each other: they are toggles, not a stack.
#[derive(Clone, Copy, Debug, PartialEq, Eq, Structural)]
pub struct State {
    pub top_header: bool,
    pub lower_header: bool,
    pub bold: bool,
    pub italic: bool,
    pub underline: bool,
}

impl State {
    /// The state at the start of a conversion: nothing is open.
    pub open spec fn fresh() -> State {
        State {
            top_header: false,
            lower_header: false,
            bold: false,
            italic: false,
            underline: false,
        }
    }

    /// The state with both header environments closed.
    pub open spec fn headers_closed(self) -> State {
        State { top_header: false, lower_header: false, ..self }
    }
}

impl Default for State {
    fn default() -> (s: State)
        ensures
            s == State::fresh(),
    {
        State { top_header: false, lower_header: false, bold: false, italic: false, underline: false }
    }
}

/// The bytes that close whichever header environments are open, the top-level
/// one first.
pub open spec fn header_closers(st: State) -> Seq<u8> {
    (if st.top_header {
        top_header_close()
    } else {
        Seq::<u8>::empty()
    }) + (if st.lower_header {
        lower_header_close()
    } else {
        Seq::<u8>::empty()
    })
}

/// The bytes of a line break in state `st`: the header closers, then a line
/// feed for a paragraph break and a space for anything else.
pub open spec fn line_break(st: State, variant: Token) -> Seq<u8> {
    header_closers(st).push(if variant == Token::ActiveNewline { LF } else { SPACE })
}

/// The bytes that a token appends to the output when it arrives in state `st`
/// having matched `text`.
pub open spec fn emitted(st: State, token: Token, text: Seq<u8>) -> Seq<u8> {
    match token {
        Token::Bold => if st.bold { bold_off() } else { bold_on() },
        Token::Italic => if st.italic { italic_off() } else { italic_on() },
        Token::Underline => if st.underline { underline_off() } else { underline_on() },
        Token::TopHeader => if st.top_header { Seq::<u8>::empty() } else { top_header_open() },
        Token::LowerHeader => if st.lower_header { Seq::<u8>::empty() } else { lower_header_open() },
        Token::Tag => Seq::<u8>::empty(),
        Token::RemovableNewline | Token::ActiveNewline => line_break(st, token),
        Token::Text | Token::UnorderedList | Token::Link | Token::Codeblock => text,
    }
}

/// The state in which a token leaves the renderer when it arrives in state `st`.
pub open spec fn next_state(st: State, token: Token) -> State {
    match token {
        Token::Bold => State { bold: !st.bold, ..st },
        Token::Italic => State { italic: !st.italic, ..st },
        Token::Underline => State { underline: !st.underline, ..st },
        Token::TopHeader => State { top_header: true, ..st },
        Token::LowerHeader => State { lower_header: true, ..st },
        Token::RemovableNewline | Token::ActiveNewline => st.headers_closed(),
        Token::Tag | Token::Text | Token::UnorderedList | Token::Link | Token::Codeblock => st,
    }
}

/// The bytes that a sequence of tokens emits, consumed left to right from
/// state `st`.
pub open spec fn render(st: State, lexemes: Seq<Lexeme>) -> Seq<u8>
    decreases lexemes.len(),
{
    if lexemes.len() == 0 {
        Seq::<u8>::empty()
    } else {
        emitted(st, lexemes[0].token, lexemes[0].text) + render(
            next_state(st, lexemes[0].token),
            lexemes.drop_first(),
        )
    }
}

/// The state after a sequence of tokens, consumed left to right from state `st`.
pub open spec fn state_after(st: State, lexemes: Seq<Lexeme>) -> State
    decreases lexemes.len(),
{
    if lexemes.len() == 0 {
        st
    } else {
        state_after(next_state(st, lexemes[0].token), lexemes.drop_first())
    }
}

/// Toggles bold and returns the code for the transition made.
pub fn wrap_bold(state: &mut State) -> (res: &'static [u8])
    ensures
        res@ == if old(state).bold { bold_off() } else { bold_on() },
        *final(state) == (State { bold: !old(state).bold, ..*old(state) }),
{
    proof {
        lemma_tables_hold_the_codes();
    }
    let res: &'static [u8] = if !state.bold { &BOLD_ON } else { &BOLD_OFF };
    state.bold = !state.bold;
    res
}

/// Toggles italic and returns the code for the transition made.
pub fn wrap_italic(state: &mut State) -> (res: &'static [u8])
    ensures
        res@ == if old(state).italic { italic_off() } else { italic_on() },
        *final(state) == (State { italic: !old(state).italic, ..*old(state) }),
{
    proof {
        lemma_tables_hold_the_codes();
    }
    let res: &'static [u8] = if !state.italic { &ITALIC_ON } else { &ITALIC_OFF };
    state.italic = !state.italic;
    res
}

/// Toggles underline and returns the code for the transition made.
pub fn wrap_underline(state: &mut State) -> (res: &'static [u8])
    ensures
        res@ == if old(state).underline { underline_off() } else { underline_on() },
        *final(state) == (State { underline: !old(state).underline, ..*old(state) }),
{
    proof {
        lemma_tables_hold_the_codes();
    }
    let res: &'static [u8] = if !state.underline { &UNDERLINE_ON } else { &UNDERLINE_OFF };
    state.underline = !state.underline;
    res
}

/// Opens the top-level header unless it is open already.
pub fn open_top_header(state: &mut State) -> (res: &'static [u8])
    ensures
        res@ == if old(state).top_header { Seq::<u8>::empty() } else { top_header_open() },
        *final(state) == (State { top_header: true, ..*old(state) }),
{
    proof {
        lemma_tables_hold_the_codes();
    }
    if !state.top_header {
        state.top_header = true;
        &TOP_HEADER_OPEN
    } else {
        &NOTHING
    }
}

/// Closes the top-level header if it is open.
pub fn close_top_header(state: &mut State) -> (res: &'static [u8])
    ensures
        res@ == if old(state).top_header { top_header_close() } else { Seq::<u8>::empty() },
        *final(state) == (State { top_header: false, ..*old(state) }),
{
    proof {
        lemma_tables_hold_the_codes();
    }
    if !state.top_header {
        &NOTHING
    } else {
        state.top_header = false;
        &TOP_HEADER_CLOSE
    }
}

/// Opens the lower-level header unless it is open already.
pub fn open_lower_header(state: &mut State) -> (res: &'static [u8])
    ensures
        res@ == if old(state).lower_header { Seq::<u8>::empty() } else { lower_header_open() },
        *final(state) == (State { lower_header: true, ..*old(state) }),
{
    proof {
        lemma_tables_hold_the_codes();
    }
    if !state.lower_header {
        state.lower_header = true;
        &LOWER_HEADER_OPEN
    } else {
        &NOTHING
    }
}

/// Closes the lower-level header if it is open.
pub fn close_lower_header(state: &mut State) -> (res: &'static [u8])
    ensures
        res@ == if old(state).lower_header { lower_header_close() } else { Seq::<u8>::empty() },
        *final(state) == (State { lower_header: false, ..*old(state) }),
{
    proof {
        lemma_tables_hold_the_codes();
    }
    if !state.lower_header {
        &NOTHING
    } else {
        state.lower_header = false;
        &LOWER_HEADER_CLOSE
    }
}

/// Appends `bytes` to `out`.
fn append_bytes(out: &mut Vec<u8>, bytes: &[u8])
    ensures
        final(out)@ == old(out)@ + bytes@,
{
    out.extend_from_slice(bytes);
    assert(out@ =~= old(out)@ + bytes@);
}

/// Renders a line break: closes both header environments, whichever kind of
/// line break it is, then gives a line feed for a paragraph break and a space
/// otherwise.
pub fn new_line(state: &mut State, variant: Token) -> (res: Vec<u8>)
    ensures
        res@ == line_break(*old(state), variant),
        *final(state) == old(state).headers_closed(),
{
    let mut res = Vec::<u8>::new();

    append_bytes(&mut res, close_top_header(state));
    append_bytes(&mut res, close_lower_header(state));

    if matches!(variant, Token::ActiveNewline) {
        res.push(LF);
    } else {
        res.push(SPACE);
    }
    assert(res@ =~= line_break(*old(state), variant));

    res
}

/// Consumes one token: appends to `out` what it emits in the present state
/// and moves the state on. `text` is what the token matched in the input.
pub fn render_token(state: &mut State, token: Token, text: &[u8], out: &mut Vec<u8>)
    ensures
        final(out)@ == old(out)@ + emitted(*old(state), token, text@),
        *final(state) == next_state(*old(state), token),
{
    match token {
        Token::Bold => append_bytes(out, wrap_bold(state)),
        Token::Italic => append_bytes(out, wrap_italic(state)),
        Token::Underline => append_bytes(out, wrap_underline(state)),
        Token::TopHeader => append_bytes(out, open_top_header(state)),
        Token::LowerHeader => append_bytes(out, open_lower_header(state)),
        Token::RemovableNewline => {
            let mut bytes = new_line(state, Token::RemovableNewline);
            out.append(&mut bytes);
        },
        Token::ActiveNewline => {
            let mut bytes = new_line(state, Token::ActiveNewline);
            out.append(&mut bytes);
        },
        Token::Tag => {
            assert(out@ =~= old(out)@ + Seq::<u8>::empty());
        },
        _ => append_bytes(out, text),
    }
}

} // verus!
