//! The conversion itself: tokenizer, then renderer, then one line feed.

use crate::codes::LF;
use crate::lexer::{lex, Lexer};
use crate::render::{render, render_token, State};
use vstd::prelude::*;
use vstd::string::StringSliceAdditionalSpecFns;

verus! {

/// The output for the input bytes `s`: what the tokens of `s` emit from the
/// fresh state, and one line feed after it.
pub open spec fn transpile(s: Seq<u8>) -> Seq<u8> {
    render(State::fresh(), lex(s)).push(LF)
}

/// Converts markdown text to the byte stream for the output device.
pub fn transpile_markdown(input: &str) -> (res: Vec<u8>)
    ensures
        res@ == transpile(input.spec_bytes()),
{
    let mut lex = Lexer::new(input.as_bytes());
    let mut state = State::default();

    let mut res = Vec::<u8>::new();
    loop
        invariant
            lex.source() == input.spec_bytes(),
            res@ + render(state, lex.remaining()) == render(
                State::fresh(),
                crate::lexer::lex(input.spec_bytes()),
            ),
        ensures
            res@ == render(State::fresh(), crate::lexer::lex(input.spec_bytes())),
        decreases lex.remaining().len(),
    {
        let ghost before = res@;
        let ghost rest = lex.remaining();
        let ghost st = state;
        match lex.next() {
            Some((token, text)) => {
                render_token(&mut state, token, text, &mut res);
                assert(res@ + render(state, lex.remaining()) =~= before + render(st, rest));
            },
            None => {
                assert(before + render(st, rest) =~= before);
                break ;
            },
        }
    }
    res.push(LF);

    res
}

} // verus!
