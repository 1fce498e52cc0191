//! What holds of the renderer and of whole conversions, proved from the
//! definitions.

use crate::codes::{bold_off, bold_on, LF, SPACE};
use crate::grammar::{
    is_text_byte, longest_match, star_free, stars, BACKTICK, MINUS, OPEN_BRACE, OPEN_BRACKET, PLUS,
};
use crate::lexer::{
    bold_marker, lemma_lex_leading_stars, lemma_lex_trailing_stars, lemma_lex_unfolds, lex,
    lex_from,
};
use crate::scan::lemma_run_end_is;
use crate::render::{emitted, line_break, next_state, render, state_after, State};
use crate::token::{Lexeme, Token};
use crate::transpile::transpile;
use vstd::prelude::*;

verus! {

/// No token of `lexemes` is a bold marker.
pub open spec fn no_bold(lexemes: Seq<Lexeme>) -> bool {
    forall|k: int| 0 <= k < lexemes.len() ==> (#[trigger] lexemes[k]).token != Token::Bold
}

/// A tag is inert: in every state, and whatever it matched, it emits no byte
/// and leaves the state as it was.
pub proof fn law_tag_is_inert(st: State, text: Seq<u8>)
    ensures
        emitted(st, Token::Tag, text) == Seq::<u8>::empty(),
        next_state(st, Token::Tag) == st,
{
}

/// A tag anywhere in a sequence of tokens can be taken out: the bytes emitted
/// and the state reached are the same without it.
pub proof fn law_tag_can_be_removed(st: State, lexemes: Seq<Lexeme>, k: int)
    requires
        0 <= k < lexemes.len(),
        lexemes[k].token == Token::Tag,
    ensures
        render(st, lexemes.remove(k)) == render(st, lexemes),
        state_after(st, lexemes.remove(k)) == state_after(st, lexemes),
    decreases k,
{
    if k == 0 {
        assert(lexemes.remove(0) =~= lexemes.drop_first());
        assert(Seq::<u8>::empty() + render(st, lexemes.drop_first()) =~= render(
            st,
            lexemes.drop_first(),
        ));
    } else {
        let next = next_state(st, lexemes[0].token);
        law_tag_can_be_removed(next, lexemes.drop_first(), k - 1);
        assert(lexemes.remove(k).drop_first() =~= lexemes.drop_first().remove(k - 1));
        assert(lexemes.remove(k)[0] == lexemes[0]);
    }
}

/// With no header open, a lone line feed renders as one space, with no code
/// before it, and changes nothing in the state.
pub proof fn law_lone_line_feed_is_a_space(st: State)
    requires
        !st.top_header,
        !st.lower_header,
    ensures
        line_break(st, Token::RemovableNewline) == seq![SPACE],
        next_state(st, Token::RemovableNewline) == st,
{
    assert(line_break(st, Token::RemovableNewline) =~= seq![SPACE]);
}

/// With no header open, a paragraph break renders as one line feed, with no
/// code before it, and changes nothing in the state.
pub proof fn law_paragraph_break_is_a_line_feed(st: State)
    requires
        !st.top_header,
        !st.lower_header,
    ensures
        line_break(st, Token::ActiveNewline) == seq![LF],
        next_state(st, Token::ActiveNewline) == st,
{
    assert(line_break(st, Token::ActiveNewline) =~= seq![LF]);
}

/// Every conversion ends with exactly one line feed of its own: the output
/// is what the tokens emit, whatever that is, and one line feed after it.
/// The output for the empty input is that line feed alone.
pub proof fn law_trailing_line_feed(s: Seq<u8>)
    ensures
        transpile(s).len() == render(State::fresh(), lex(s)).len() + 1,
        transpile(s).last() == LF,
        transpile(s).drop_last() == render(State::fresh(), lex(s)),
        transpile(Seq::<u8>::empty()) == seq![LF],
{
    assert(transpile(s).drop_last() =~= render(State::fresh(), lex(s)));
    assert(transpile(Seq::<u8>::empty()) =~= seq![LF]);
}

/// A single token renders as what it emits, and leaves its next state.
pub proof fn law_render_one(st: State, lexeme: Lexeme)
    ensures
        render(st, seq![lexeme]) == emitted(st, lexeme.token, lexeme.text),
        state_after(st, seq![lexeme]) == next_state(st, lexeme.token),
{
    let one = seq![lexeme];
    let next = next_state(st, lexeme.token);
    assert(one.drop_first() =~= Seq::<Lexeme>::empty());
    assert(render(next, one.drop_first()) =~= Seq::<u8>::empty());
    assert(state_after(next, one.drop_first()) == next);
    assert(emitted(st, lexeme.token, lexeme.text) + Seq::<u8>::empty() =~= emitted(
        st,
        lexeme.token,
        lexeme.text,
    ));
}

/// Rendering goes token by token: a sequence cut in two renders as the first
/// part, then the second part from the state that the first part leaves.
pub proof fn law_render_splits(st: State, a: Seq<Lexeme>, b: Seq<Lexeme>)
    ensures
        render(st, a + b) == render(st, a) + render(state_after(st, a), b),
        state_after(st, a + b) == state_after(state_after(st, a), b),
    decreases a.len(),
{
    if a.len() == 0 {
        assert(a + b =~= b);
        assert(Seq::<u8>::empty() + render(st, b) =~= render(st, b));
    } else {
        let next = next_state(st, a[0].token);
        law_render_splits(next, a.drop_first(), b);
        assert((a + b).drop_first() =~= a.drop_first() + b);
        assert((a + b)[0] == a[0]);
        let head = emitted(st, a[0].token, a[0].text);
        assert(head + (render(next, a.drop_first()) + render(state_after(st, a), b)) =~= (head
            + render(next, a.drop_first())) + render(state_after(st, a), b));
    }
}

/// The bold flag matters to bold markers only: tokens among which there is
/// none emit the same bytes whether bold is on or off, and leave the flag as
/// they found it.
pub proof fn law_bold_flag_is_private(st: State, lexemes: Seq<Lexeme>)
    requires
        no_bold(lexemes),
    ensures
        render(State { bold: !st.bold, ..st }, lexemes) == render(st, lexemes),
        state_after(State { bold: !st.bold, ..st }, lexemes) == (State {
            bold: !state_after(st, lexemes).bold,
            ..state_after(st, lexemes)
        }),
        state_after(st, lexemes).bold == st.bold,
    decreases lexemes.len(),
{
    if lexemes.len() > 0 {
        let flipped = State { bold: !st.bold, ..st };
        let head = lexemes[0];
        assert(head.token != Token::Bold);
        let rest = lexemes.drop_first();
        assert(no_bold(rest)) by {
            assert forall|k: int| 0 <= k < rest.len() implies (#[trigger] rest[k]).token
                != Token::Bold by {
                assert(rest[k] == lexemes[k + 1]);
            }
        }
        let next = next_state(st, head.token);
        assert(next_state(flipped, head.token) == (State { bold: !next.bold, ..next }));
        law_bold_flag_is_private(next, rest);
    }
}

/// A balanced pair of bold markers brackets what stands between them: from a
/// state in which bold is off, a bold marker, tokens among which there is no
/// bold marker, and a second bold marker emit bold-on, what the tokens
/// between emit on their own, and bold-off; the state reached is the one that
/// the tokens between reach on their own.
pub proof fn law_bold_pair_brackets_tokens(
    st: State,
    open: Lexeme,
    between: Seq<Lexeme>,
    close: Lexeme,
)
    requires
        !st.bold,
        open.token == Token::Bold,
        close.token == Token::Bold,
        no_bold(between),
    ensures
        render(st, seq![open] + between + seq![close]) == bold_on() + render(st, between)
            + bold_off(),
        state_after(st, seq![open] + between + seq![close]) == state_after(st, between),
{
    let on = State { bold: true, ..st };
    assert(on == (State { bold: !st.bold, ..st }));
    law_bold_flag_is_private(st, between);
    let after = state_after(on, between);
    assert(after.bold);

    law_render_splits(st, seq![open] + between, seq![close]);
    law_render_splits(st, seq![open], between);

    law_render_one(st, open);
    law_render_one(after, close);
}

/// A balanced pair of `**` brackets the conversion of what stands between.
///
/// Where the interior `x` holds no bold marker of its own, and the `**`
/// behind it is read as a marker, the output for `**x**` is bold-on, the
/// output for `x` without its closing line feed, bold-off, and the closing
/// line feed.
pub proof fn law_bold_pair_brackets_interior(x: Seq<u8>)
    requires
        no_bold(lex(x)),
        lex(x + stars()) == lex(x).push(bold_marker()),
    ensures
        transpile(stars() + x + stars()) == bold_on() + render(State::fresh(), lex(x))
            + bold_off() + seq![LF],
        transpile(stars() + x + stars()) == bold_on() + transpile(x).drop_last() + bold_off()
            + seq![LF],
{
    let st = State::fresh();
    let between = lex(x);
    assert(stars() + x + stars() =~= stars() + (x + stars()));
    lemma_lex_leading_stars(x + stars());
    assert(seq![bold_marker()] + between.push(bold_marker()) =~= seq![bold_marker()] + between
        + seq![bold_marker()]);
    law_bold_pair_brackets_tokens(st, bold_marker(), between, bold_marker());
    law_trailing_line_feed(x);
    let body = bold_on() + render(st, between) + bold_off();
    assert(body.push(LF) =~= body + seq![LF]);
}

/// An interior without any `*` is always bracketed: for every such `x`, the
/// output for `**x**` is bold-on, the output for `x` without its closing
/// line feed, bold-off, and the closing line feed.
pub proof fn law_bold_pair_around_star_free_interior(x: Seq<u8>)
    requires
        star_free(x),
    ensures
        transpile(stars() + x + stars()) == bold_on() + transpile(x).drop_last() + bold_off()
            + seq![LF],
{
    lemma_lex_trailing_stars(x, 0);
    law_bold_pair_brackets_interior(x);
}

/// A byte that no rule but the one for text can start from: a text byte other
/// than `{`, `[`, `-`, `+` and the backtick.
pub open spec fn is_plain_byte(b: u8) -> bool {
    is_text_byte(b) && b != OPEN_BRACE && b != OPEN_BRACKET && b != MINUS && b != PLUS && b
        != BACKTICK
}

/// Plain text from index `i` on, in any state, renders as itself.
proof fn lemma_plain_text_renders_as_itself(st: State, s: Seq<u8>, i: int)
    requires
        0 <= i <= s.len(),
        forall|k: int| 0 <= k < s.len() ==> is_plain_byte(#[trigger] s[k]),
    ensures
        render(st, lex_from(s, i)) == s.subrange(i, s.len() as int),
    decreases s.len() - i,
{
    if i < s.len() {
        lemma_lex_unfolds(s, i);
        assert(is_plain_byte(s[i]));
        if i + 1 < s.len() {
            assert(is_plain_byte(s[i + 1]));
        }
        assert(longest_match(s, i) == Some((Token::Text, 1int)));
        let head = Lexeme { token: Token::Text, text: s.subrange(i, i + 1) };
        let rest = lex_from(s, i + 1);
        lemma_plain_text_renders_as_itself(st, s, i + 1);
        assert((seq![head] + rest).drop_first() =~= rest);
        assert(s.subrange(i, i + 1) + s.subrange(i + 1, s.len() as int) =~= s.subrange(
            i,
            s.len() as int,
        ));
    } else {
        assert(s.subrange(i, s.len() as int) =~= Seq::<u8>::empty());
    }
}

/// Text without markup passes through unchanged: where every byte of the
/// input is plain, the output is the input and the closing line feed.
pub proof fn law_plain_text_passes_through(s: Seq<u8>)
    requires
        forall|k: int| 0 <= k < s.len() ==> is_plain_byte(#[trigger] s[k]),
    ensures
        transpile(s) == s.push(LF),
{
    lemma_plain_text_renders_as_itself(State::fresh(), s, 0);
    assert(s.subrange(0, s.len() as int) =~= s);
}

/// One line feed as the whole input gives a space and the closing line feed.
pub proof fn law_lone_line_feed_input()
    ensures
        transpile(seq![LF]) == seq![SPACE, LF],
{
    let s = seq![LF];
    lemma_run_end_is(s, 0, 1, LF);
    assert(longest_match(s, 0) == Some((Token::RemovableNewline, 1int)));
    assert(lex_from(s, 1) =~= Seq::<Lexeme>::empty());
    let only = Lexeme { token: Token::RemovableNewline, text: s.subrange(0, 1) };
    assert(lex(s) =~= seq![only]);
    law_render_one(State::fresh(), only);
    law_lone_line_feed_is_a_space(State::fresh());
    assert(transpile(s) =~= seq![SPACE, LF]);
}

/// Two or more line feeds as the whole input, however many, give one line
/// feed and the closing line feed.
pub proof fn law_line_feeds_input(s: Seq<u8>)
    requires
        s.len() >= 2,
        forall|k: int| 0 <= k < s.len() ==> s[k] == LF,
    ensures
        transpile(s) == seq![LF, LF],
{
    let n = s.len() as int;
    lemma_run_end_is(s, 0, n, LF);
    assert(s[0] == LF);
    assert(s[1] == LF);
    assert(LF != BACKTICK);
    assert(longest_match(s, 0) == Some((Token::ActiveNewline, n)));
    assert(lex_from(s, n) =~= Seq::<Lexeme>::empty());
    let only = Lexeme { token: Token::ActiveNewline, text: s.subrange(0, n) };
    assert(lex(s) =~= seq![only]);
    law_render_one(State::fresh(), only);
    law_paragraph_break_is_a_line_feed(State::fresh());
    assert(transpile(s) =~= seq![LF, LF]);
}

} // verus!
