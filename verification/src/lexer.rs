//! The tokenizer: a pull-based reader that hands out one token at a time.

use crate::codes::{LF, SPACE};
use crate::grammar::{
    codeblock_len, fence_at, lemma_longest_match_before_stars, lemma_longest_match_shift,
    lemma_special_lengths, link_len, list_len, longest_match, star_free, stars, tag_len,
    theorem_longest_match, BACKTICK, CLOSE_BRACE, CLOSE_BRACKET, CLOSE_PAREN, CR, FF, HASH, MINUS,
    OPEN_BRACE, OPEN_BRACKET, OPEN_PAREN, PLUS, STAR, TAB, UNDERSCORE,
};
use crate::scan::{find_first_of, find_last, skip_run};
use crate::token::{Lexeme, Token};
use vstd::prelude::*;
use vstd::slice::slice_subrange;

verus! {

/// The tokens of `s` from index `i` on, in order: at each index the longest
/// match is taken and the scan goes on behind it; an index at which no rule
/// matches is passed over.
pub open spec fn lex_from(s: Seq<u8>, i: int) -> Seq<Lexeme>
    decreases s.len() - i,
{
    if i < 0 || i >= s.len() {
        Seq::<Lexeme>::empty()
    } else {
        match longest_match(s, i) {
            Some((token, n)) => if 1 <= n <= s.len() - i {
                seq![Lexeme { token, text: s.subrange(i, i + n) }] + lex_from(s, i + n)
            } else {
                Seq::<Lexeme>::empty()
            },
            None => lex_from(s, i + 1),
        }
    }
}

/// The tokens of `s`.
pub open spec fn lex(s: Seq<u8>) -> Seq<Lexeme> {
    lex_from(s, 0)
}

/// The scan never stalls and never leaves the input: at every index, the
/// tokens from there on are the longest match and the tokens behind it, or,
/// where nothing matches, the tokens from the next index on.
pub proof fn lemma_lex_unfolds(s: Seq<u8>, i: int)
    requires
        0 <= i < s.len(),
    ensures
        lex_from(s, i) == match longest_match(s, i) {
            Some((token, n)) => seq![Lexeme { token, text: s.subrange(i, i + n) }] + lex_from(
                s,
                i + n,
            ),
            None => lex_from(s, i + 1),
        },
        longest_match(s, i) matches Some((token, n)) ==> 1 <= n <= s.len() - i,
{
    theorem_longest_match(s, i);
}

/// The bold marker as the tokenizer hands it out.
pub open spec fn bold_marker() -> Lexeme {
    Lexeme { token: Token::Bold, text: stars() }
}

/// Tokens depend on nothing before them: behind any prefix `p`, the tokens of
/// `s` from an index on are what they are in `s` alone.
pub proof fn lemma_lex_shift(p: Seq<u8>, s: Seq<u8>, i: int)
    requires
        0 <= i <= s.len(),
    ensures
        lex_from(p + s, p.len() + i) == lex_from(s, i),
    decreases s.len() - i,
{
    if i < s.len() {
        lemma_longest_match_shift(p, s, i);
        theorem_longest_match(s, i);
        match longest_match(s, i) {
            Some((token, n)) => {
                lemma_lex_shift(p, s, i + n);
                assert((p + s).subrange(p.len() + i, p.len() + i + n) =~= s.subrange(i, i + n));
            },
            None => {
                lemma_lex_shift(p, s, i + 1);
            },
        }
    }
}

/// An input that starts with `**` starts with a bold marker, and goes on with
/// the tokens of the rest.
pub proof fn lemma_lex_leading_stars(s: Seq<u8>)
    ensures
        lex(stars() + s) == seq![bold_marker()] + lex(s),
{
    let t = stars() + s;
    assert(t[0] == STAR);
    assert(t[1] == STAR);
    assert(longest_match(t, 0) == Some((Token::Bold, 2int)));
    assert(t.subrange(0, 2) =~= stars());
    lemma_lex_shift(stars(), s, 0);
}

/// In text without `*`, a `**` that follows the text is a bold marker after
/// the tokens of the text, none of which is a bold marker.
pub proof fn lemma_lex_trailing_stars(y: Seq<u8>, i: int)
    requires
        star_free(y),
        0 <= i <= y.len(),
    ensures
        lex_from(y + stars(), i) == lex_from(y, i).push(bold_marker()),
        forall|k: int|
            0 <= k < lex_from(y, i).len() ==> (#[trigger] lex_from(y, i)[k]).token != Token::Bold,
    decreases y.len() - i,
{
    let t = y + stars();
    if i < y.len() {
        lemma_longest_match_before_stars(y, i);
        theorem_longest_match(y, i);
        assert(y[i] != STAR);
        match longest_match(y, i) {
            Some((token, n)) => {
                lemma_lex_trailing_stars(y, i + n);
                assert(t.subrange(i, i + n) =~= y.subrange(i, i + n));
                let head = Lexeme { token, text: y.subrange(i, i + n) };
                let rest = lex_from(y, i + n);
                assert((seq![head] + rest).push(bold_marker()) =~= seq![head] + rest.push(
                    bold_marker(),
                ));
                assert(token != Token::Bold);
                assert forall|k: int| 0 <= k < lex_from(y, i).len() implies (#[trigger] lex_from(
                    y,
                    i,
                )[k]).token != Token::Bold by {
                    if k > 0 {
                        assert(lex_from(y, i)[k] == rest[k - 1]);
                    }
                }
            },
            None => {
                lemma_lex_trailing_stars(y, i + 1);
            },
        }
    } else {
        lemma_lex_shift(y, stars(), 0);
        let q = stars();
        assert(q[0] == STAR);
        assert(q[1] == STAR);
        assert(longest_match(q, 0) == Some((Token::Bold, 2int)));
        assert(q.subrange(0, 2) =~= q);
        assert(lex_from(q, 2) =~= Seq::<Lexeme>::empty());
        assert(lex_from(q, 0) =~= seq![bold_marker()]);
        assert(lex_from(y, i) =~= Seq::<Lexeme>::empty());
        assert(Seq::<Lexeme>::empty().push(bold_marker()) =~= seq![bold_marker()]);
    }
}

/// Whether three backticks stand at `j`.
fn has_fence(input: &[u8], j: usize) -> (r: bool)
    requires
        j <= input.len(),
    ensures
        r == fence_at(input@, j as int),
{
    input.len() - j >= 3 && input[j] == BACKTICK && input[j + 1] == BACKTICK && input[j + 2]
        == BACKTICK
}

/// The length of the tag at `pos`, or 0.
fn tag_length(input: &[u8], pos: usize) -> (n: usize)
    requires
        pos < input.len(),
    ensures
        n == tag_len(input@, pos as int),
{
    let j: usize = if input[pos] == SPACE { pos + 1 } else { pos };
    if j < input.len() && input[j] == OPEN_BRACE {
        let e = find_first_of(input, j + 1, LF, LF);
        match find_last(input, j + 1, e, CLOSE_BRACE) {
            Some(r) => r + 1 - pos,
            None => 0,
        }
    } else {
        0
    }
}

/// The length of the list item at `pos`, or 0.
fn list_length(input: &[u8], pos: usize) -> (n: usize)
    requires
        pos < input.len(),
    ensures
        n == list_len(input@, pos as int),
{
    let b = input[pos];
    if (b == MINUS || b == STAR || b == PLUS) && pos + 1 < input.len() && input[pos + 1] == SPACE {
        let e = find_first_of(input, pos + 2, LF, LF);
        if pos + 2 < e && e < input.len() {
            e + 1 - pos
        } else {
            0
        }
    } else {
        0
    }
}

/// The length of the link at `pos`, or 0.
fn link_length(input: &[u8], pos: usize) -> (n: usize)
    requires
        pos < input.len(),
    ensures
        n == link_len(input@, pos as int),
{
    if input[pos] == OPEN_BRACKET {
        let m = find_first_of(input, pos + 1, OPEN_BRACKET, CLOSE_BRACKET);
        if pos + 1 < m && input.len() - m > 1 && input[m] == CLOSE_BRACKET && input[m + 1]
            == OPEN_PAREN {
            let e = find_first_of(input, m + 2, OPEN_PAREN, CLOSE_PAREN);
            if m + 2 < e && e < input.len() && input[e] == CLOSE_PAREN {
                e + 1 - pos
            } else {
                0
            }
        } else {
            0
        }
    } else {
        0
    }
}

/// The length of the code block at `pos`, or 0.
fn codeblock_length(input: &[u8], pos: usize) -> (n: usize)
    requires
        pos < input.len(),
    ensures
        n == codeblock_len(input@, pos as int),
{
    let j: usize = if input[pos] == LF { pos + 1 } else { pos };
    if has_fence(input, j) {
        let c = find_first_of(input, j + 3, BACKTICK, BACKTICK);
        if has_fence(input, c) {
            if input.len() - c > 3 && input[c + 3] == LF {
                c + 4 - pos
            } else {
                c + 3 - pos
            }
        } else {
            0
        }
    } else {
        0
    }
}

/// The token at index `pos` of the input, with its length in bytes: the
/// longest match of any rule there. `None` where no rule matches.
pub fn token_at(input: &[u8], pos: usize) -> (res: Option<(Token, usize)>)
    requires
        pos < input.len(),
    ensures
        match res {
            Some((t, n)) => longest_match(input@, pos as int) == Some((t, n as int)) && 1 <= n
                <= input.len() - pos,
            None => longest_match(input@, pos as int) is None,
        },
{
    proof {
        lemma_special_lengths(input@, pos as int);
    }
    let b = input[pos];
    if b == STAR {
        let n = list_length(input, pos);
        if n > 0 {
            Some((Token::UnorderedList, n))
        } else if pos + 1 < input.len() && input[pos + 1] == STAR {
            Some((Token::Bold, 2))
        } else {
            Some((Token::Italic, 1))
        }
    } else if b == UNDERSCORE {
        if pos + 1 < input.len() && input[pos + 1] == UNDERSCORE {
            Some((Token::Underline, 2))
        } else {
            None
        }
    } else if b == HASH {
        let h = skip_run(input, pos, HASH);
        let e = skip_run(input, h, SPACE);
        if h == pos + 1 {
            Some((Token::TopHeader, e - pos))
        } else {
            Some((Token::LowerHeader, e - pos))
        }
    } else if b == LF {
        let n = codeblock_length(input, pos);
        if n > 0 {
            Some((Token::Codeblock, n))
        } else {
            let e = skip_run(input, pos, LF);
            if e - pos >= 2 {
                Some((Token::ActiveNewline, e - pos))
            } else {
                Some((Token::RemovableNewline, 1))
            }
        }
    } else if b == SPACE || b == OPEN_BRACE {
        let n = tag_length(input, pos);
        if n > 0 {
            Some((Token::Tag, n))
        } else {
            Some((Token::Text, 1))
        }
    } else if b == MINUS || b == PLUS {
        let n = list_length(input, pos);
        if n > 0 {
            Some((Token::UnorderedList, n))
        } else {
            Some((Token::Text, 1))
        }
    } else if b == OPEN_BRACKET {
        let n = link_length(input, pos);
        if n > 0 {
            Some((Token::Link, n))
        } else {
            Some((Token::Text, 1))
        }
    } else if b == BACKTICK {
        let n = codeblock_length(input, pos);
        if n > 0 {
            Some((Token::Codeblock, n))
        } else {
            Some((Token::Text, 1))
        }
    } else if b == OPEN_PAREN || b == CLOSE_PAREN || b == CR || b == TAB || b == FF {
        None
    } else {
        Some((Token::Text, 1))
    }
}

/// A reader over one input that hands out its tokens in order, one per call.
///
/// A lexer is made for one conversion and used up by it: it cannot go back.
pub struct Lexer<'a> {
    input: &'a [u8],
    pos: usize,
}

impl<'a> Lexer<'a> {
    /// The input that the lexer reads.
    pub closed spec fn source(&self) -> Seq<u8> {
        self.input@
    }

    /// The index of the first byte that the lexer has not read yet.
    pub closed spec fn position(&self) -> int {
        self.pos as int
    }

    /// The position is within the input or at its end.
    #[verifier::type_invariant]
    spec fn within_input(&self) -> bool {
        self.pos <= self.input@.len()
    }

    /// The tokens that the lexer has yet to hand out.
    pub open spec fn remaining(&self) -> Seq<Lexeme> {
        lex_from(self.source(), self.position())
    }

    /// A lexer at the start of `input`.
    pub fn new(input: &'a [u8]) -> (lexer: Self)
        ensures
            lexer.source() == input@,
            lexer.position() == 0,
    {
        Lexer { input, pos: 0 }
    }

    /// Hands out the next token with the bytes that it matched, passing over
    /// any bytes before it at which no rule matches; `None` when the input
    /// holds no further token.
    pub fn next(&mut self) -> (res: Option<(Token, &'a [u8])>)
        ensures
            final(self).source() == old(self).source(),
            match res {
                Some((token, text)) => {
                    &&& old(self).remaining().len() > 0
                    &&& old(self).remaining()[0] == (Lexeme { token, text: text@ })
                    &&& final(self).remaining() == old(self).remaining().drop_first()
                    &&& text@.len() >= 1
                },
                None => {
                    &&& old(self).remaining().len() == 0
                    &&& final(self).position() == final(self).source().len()
                },
            },
    {
        proof {
            use_type_invariant(&*self);
        }
        while self.pos < self.input.len()
            invariant
                self.pos <= self.input.len(),
                self.input@ == old(self).input@,
                old(self).pos <= self.pos,
                lex_from(self.input@, self.pos as int) == lex_from(
                    old(self).input@,
                    old(self).pos as int,
                ),
            decreases self.input.len() - self.pos,
        {
            match token_at(self.input, self.pos) {
                Some((token, n)) => {
                    let start = self.pos;
                    let text = slice_subrange(self.input, start, start + n);
                    self.pos = start + n;
                    proof {
                        let rest = lex_from(self.input@, start + n);
                        let first = Lexeme { token, text: text@ };
                        assert(lex_from(self.input@, start as int) == seq![first] + rest);
                        assert((seq![first] + rest).drop_first() =~= rest);
                    }
                    return Some((token, text));
                },
                None => {
                    self.pos = self.pos + 1;
                },
            }
        }
        None
    }
}

} // verus!
