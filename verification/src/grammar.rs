//! The lexical grammar: what each rule matches, and which match wins.
//!
//! The grammar is stated twice. `matches_rule` says of any stretch of the
//! input whether it is a match of a rule, in the manner of a regular
//! expression. `longest_match` computes the one match that the tokenizer
//! takes at a position. `theorem_longest_match` proves that the second is the
//! longest of the first, and that no two rules tie for it.
//!
//! The grammar reads bytes. Every byte of the markup is ASCII, so in UTF-8
//! text no rule can split a character from the ones around it other than
//! `Text`, which takes a character one byte at a time.

use crate::codes::{LF, SPACE};
use crate::scan::{
    all_are, first_of, last_of, lemma_first_of, lemma_first_of_is, lemma_first_of_shift,
    lemma_last_of, lemma_last_of_is, lemma_last_of_shift, lemma_run_end, lemma_run_end_covers,
    lemma_run_end_is, lemma_run_end_shift, none_is, run_end,
};
use crate::token::Token;
use vstd::prelude::*;

verus! {

/// `*`
pub const STAR: u8 = 0x2A;

/// `_`
pub const UNDERSCORE: u8 = 0x5F;

/// `#`
pub const HASH: u8 = 0x23;

/// `{`
pub const OPEN_BRACE: u8 = 0x7B;

/// `}`
pub const CLOSE_BRACE: u8 = 0x7D;

/// `[`
pub const OPEN_BRACKET: u8 = 0x5B;

/// `]`
pub const CLOSE_BRACKET: u8 = 0x5D;

/// `(`
pub const OPEN_PAREN: u8 = 0x28;

/// `)`
pub const CLOSE_PAREN: u8 = 0x29;

/// `` ` ``
pub const BACKTICK: u8 = 0x60;

/// `-`
pub const MINUS: u8 = 0x2D;

/// `+`
pub const PLUS: u8 = 0x2B;

/// Carriage return.
pub const CR: u8 = 0x0D;

/// Horizontal tab.
pub const TAB: u8 = 0x09;

/// Form feed.
pub const FF: u8 = 0x0C;

/// The bold marker, `**`.
pub open spec fn stars() -> Seq<u8> {
    seq![STAR, STAR]
}

/// No byte of `s` is `*`.
pub open spec fn star_free(s: Seq<u8>) -> bool {
    forall|k: int| 0 <= k < s.len() ==> s[k] != STAR
}

/// A byte that is text when it stands alone: any but the two parentheses,
/// `*`, `_`, `#`, line feed, carriage return, tab and form feed.
pub open spec fn is_text_byte(b: u8) -> bool {
    b != OPEN_PAREN && b != CLOSE_PAREN && b != STAR && b != UNDERSCORE && b != HASH && b != LF
        && b != CR && b != TAB && b != FF
}

/// A byte that can start a list item: `-`, `*` or `+`.
pub open spec fn is_list_marker(b: u8) -> bool {
    b == MINUS || b == STAR || b == PLUS
}

/// Three backticks stand at `j`.
pub open spec fn fence_at(s: Seq<u8>, j: int) -> bool {
    0 <= j && j + 3 <= s.len() && s[j] == BACKTICK && s[j + 1] == BACKTICK && s[j + 2] == BACKTICK
}

/// `s[i..i+n]` is `k` hashes followed by spaces only.
pub open spec fn header_split(s: Seq<u8>, i: int, n: int, k: int) -> bool {
    1 <= k <= n && all_are(s, i, i + k, HASH) && all_are(s, i + k, i + n, SPACE)
}

/// `s[i..i+n]` is a link whose label ends before `m`, where `](` stands.
pub open spec fn link_split(s: Seq<u8>, i: int, n: int, m: int) -> bool {
    &&& i + 1 < m
    &&& m + 2 < i + n - 1
    &&& s[i] == OPEN_BRACKET
    &&& none_is(s, i + 1, m, OPEN_BRACKET, CLOSE_BRACKET)
    &&& s[m] == CLOSE_BRACKET
    &&& s[m + 1] == OPEN_PAREN
    &&& none_is(s, m + 2, i + n - 1, OPEN_PAREN, CLOSE_PAREN)
    &&& s[i + n - 1] == CLOSE_PAREN
}

/// Whether the `n` bytes of `s` from index `i` on are a match of the rule for
/// `token`.
pub open spec fn matches_rule(token: Token, s: Seq<u8>, i: int, n: int) -> bool {
    &&& 0 <= i
    &&& 1 <= n
    &&& i + n <= s.len()
    &&& match token {
        // `**`
        Token::Bold => n == 2 && s[i] == STAR && s[i + 1] == STAR,
        // `*`
        Token::Italic => n == 1 && s[i] == STAR,
        // `__`
        Token::Underline => n == 2 && s[i] == UNDERSCORE && s[i + 1] == UNDERSCORE,
        // one `#`, then any number of spaces
        Token::TopHeader => header_split(s, i, n, 1),
        // two or more `#`, then any number of spaces
        Token::LowerHeader => exists|k: int| 2 <= k && #[trigger] header_split(s, i, n, k),
        // an optional space, `{`, anything but a line feed, `}`
        Token::Tag => {
            let j = if s[i] == SPACE { i + 1 } else { i };
            j < i + n - 1 && s[j] == OPEN_BRACE && s[i + n - 1] == CLOSE_BRACE && none_is(
                s,
                j + 1,
                i + n - 1,
                LF,
                LF,
            )
        },
        // one line feed
        Token::RemovableNewline => n == 1 && s[i] == LF,
        // two or more line feeds
        Token::ActiveNewline => n >= 2 && all_are(s, i, i + n, LF),
        // one text byte
        Token::Text => n == 1 && is_text_byte(s[i]),
        // a marker, a space, one or more bytes other than a line feed, a line feed
        Token::UnorderedList => n >= 4 && is_list_marker(s[i]) && s[i + 1] == SPACE && s[i + n
            - 1] == LF && none_is(s, i + 2, i + n - 1, LF, LF),
        // `[`, a label without brackets, `](`, a target without parentheses, `)`
        Token::Link => exists|m: int| #[trigger] link_split(s, i, n, m),
        // an optional line feed, a fence, anything but a backtick, a fence,
        // an optional line feed
        Token::Codeblock => {
            let j = if s[i] == LF { i + 1 } else { i };
            let e = if s[i + n - 1] == LF { i + n - 1 } else { i + n };
            j + 6 <= e && fence_at(s, j) && fence_at(s, e - 3) && none_is(
                s,
                j + 3,
                e - 3,
                BACKTICK,
                BACKTICK,
            )
        },
    }
}

/// The length of the header marker at `i`: the hashes and the spaces after them.
pub open spec fn header_len(s: Seq<u8>, i: int) -> int {
    run_end(s, run_end(s, i, HASH), SPACE) - i
}

/// The length of the longest tag at `i`, which ends with the last `}` of the
/// line; 0 if there is no tag.
pub open spec fn tag_len(s: Seq<u8>, i: int) -> int {
    let j = if s[i] == SPACE { i + 1 } else { i };
    if j < s.len() && s[j] == OPEN_BRACE {
        let r = last_of(s, j + 1, first_of(s, j + 1, LF, LF), CLOSE_BRACE);
        if r > j {
            r + 1 - i
        } else {
            0
        }
    } else {
        0
    }
}

/// The length of the list item at `i`; 0 if there is none.
pub open spec fn list_len(s: Seq<u8>, i: int) -> int {
    if is_list_marker(s[i]) && i + 1 < s.len() && s[i + 1] == SPACE {
        let e = first_of(s, i + 2, LF, LF);
        if i + 2 < e && e < s.len() {
            e + 1 - i
        } else {
            0
        }
    } else {
        0
    }
}

/// The length of the link at `i`; 0 if there is none.
pub open spec fn link_len(s: Seq<u8>, i: int) -> int {
    if s[i] == OPEN_BRACKET {
        let m = first_of(s, i + 1, OPEN_BRACKET, CLOSE_BRACKET);
        if i + 1 < m && m + 1 < s.len() && s[m] == CLOSE_BRACKET && s[m + 1] == OPEN_PAREN {
            let e = first_of(s, m + 2, OPEN_PAREN, CLOSE_PAREN);
            if m + 2 < e && e < s.len() && s[e] == CLOSE_PAREN {
                e + 1 - i
            } else {
                0
            }
        } else {
            0
        }
    } else {
        0
    }
}

/// The length of the longest code block at `i`; 0 if there is none.
pub open spec fn codeblock_len(s: Seq<u8>, i: int) -> int {
    let j = if s[i] == LF { i + 1 } else { i };
    if fence_at(s, j) {
        let c = first_of(s, j + 3, BACKTICK, BACKTICK);
        if fence_at(s, c) {
            if c + 3 < s.len() && s[c + 3] == LF {
                c + 4 - i
            } else {
                c + 3 - i
            }
        } else {
            0
        }
    } else {
        0
    }
}

/// The token that the tokenizer takes at index `i` of `s`, with its length;
/// `None` where no rule matches there.
pub open spec fn longest_match(s: Seq<u8>, i: int) -> Option<(Token, int)> {
    let b = s[i];
    if b == STAR {
        if list_len(s, i) > 0 {
            Some((Token::UnorderedList, list_len(s, i)))
        } else if i + 1 < s.len() && s[i + 1] == STAR {
            Some((Token::Bold, 2))
        } else {
            Some((Token::Italic, 1))
        }
    } else if b == UNDERSCORE {
        if i + 1 < s.len() && s[i + 1] == UNDERSCORE {
            Some((Token::Underline, 2))
        } else {
            None
        }
    } else if b == HASH {
        if run_end(s, i, HASH) == i + 1 {
            Some((Token::TopHeader, header_len(s, i)))
        } else {
            Some((Token::LowerHeader, header_len(s, i)))
        }
    } else if b == LF {
        if codeblock_len(s, i) > 0 {
            Some((Token::Codeblock, codeblock_len(s, i)))
        } else if run_end(s, i, LF) >= i + 2 {
            Some((Token::ActiveNewline, run_end(s, i, LF) - i))
        } else {
            Some((Token::RemovableNewline, 1))
        }
    } else if b == SPACE || b == OPEN_BRACE {
        if tag_len(s, i) > 0 {
            Some((Token::Tag, tag_len(s, i)))
        } else {
            Some((Token::Text, 1))
        }
    } else if b == MINUS || b == PLUS {
        if list_len(s, i) > 0 {
            Some((Token::UnorderedList, list_len(s, i)))
        } else {
            Some((Token::Text, 1))
        }
    } else if b == OPEN_BRACKET {
        if link_len(s, i) > 0 {
            Some((Token::Link, link_len(s, i)))
        } else {
            Some((Token::Text, 1))
        }
    } else if b == BACKTICK {
        if codeblock_len(s, i) > 0 {
            Some((Token::Codeblock, codeblock_len(s, i)))
        } else {
            Some((Token::Text, 1))
        }
    } else if is_text_byte(b) {
        Some((Token::Text, 1))
    } else {
        None
    }
}

/// The special forms are longer than one byte and end within the input.
pub proof fn lemma_special_lengths(s: Seq<u8>, i: int)
    requires
        0 <= i < s.len(),
    ensures
        tag_len(s, i) == 0 || 2 <= tag_len(s, i) <= s.len() - i,
        list_len(s, i) == 0 || 4 <= list_len(s, i) <= s.len() - i,
        link_len(s, i) == 0 || 6 <= link_len(s, i) <= s.len() - i,
        codeblock_len(s, i) == 0 || 6 <= codeblock_len(s, i) <= s.len() - i,
        s[i] == HASH ==> 1 <= header_len(s, i) <= s.len() - i,
        s[i] == LF ==> 1 <= run_end(s, i, LF) - i <= s.len() - i,
{
    let j = if s[i] == SPACE { i + 1 } else { i };
    if j < s.len() {
        lemma_first_of(s, j + 1, LF, LF);
        lemma_last_of(s, j + 1, first_of(s, j + 1, LF, LF), CLOSE_BRACE);
    }
    if i + 1 < s.len() {
        lemma_first_of(s, i + 2, LF, LF);
    }
    let m = first_of(s, i + 1, OPEN_BRACKET, CLOSE_BRACKET);
    lemma_first_of(s, i + 1, OPEN_BRACKET, CLOSE_BRACKET);
    if m + 1 < s.len() {
        lemma_first_of(s, m + 2, OPEN_PAREN, CLOSE_PAREN);
    }
    let f = if s[i] == LF { i + 1 } else { i };
    if fence_at(s, f) {
        lemma_first_of(s, f + 3, BACKTICK, BACKTICK);
    }
    lemma_run_end(s, i, HASH);
    lemma_run_end(s, run_end(s, i, HASH), SPACE);
    lemma_run_end(s, i, LF);
}

/// What `longest_match` gives at `i` is a match of the rule for its token.
pub proof fn lemma_longest_is_match(s: Seq<u8>, i: int)
    requires
        0 <= i < s.len(),
    ensures
        longest_match(s, i) matches Some((t, n)) ==> matches_rule(t, s, i, n),
{
    lemma_special_lengths(s, i);
    let b = s[i];
    if b == HASH {
        let h = run_end(s, i, HASH);
        let n = header_len(s, i);
        lemma_run_end(s, i, HASH);
        lemma_run_end(s, h, SPACE);
        assert(h >= i + 1);
        assert(header_split(s, i, n, h - i));
    } else if b == LF && codeblock_len(s, i) == 0 {
        lemma_run_end(s, i, LF);
    } else if (b == SPACE || b == OPEN_BRACE) && tag_len(s, i) > 0 {
        let j = if s[i] == SPACE { i + 1 } else { i };
        let e = first_of(s, j + 1, LF, LF);
        lemma_first_of(s, j + 1, LF, LF);
        lemma_last_of(s, j + 1, e, CLOSE_BRACE);
    } else if is_list_marker(b) && list_len(s, i) > 0 {
        lemma_first_of(s, i + 2, LF, LF);
    } else if b == OPEN_BRACKET && link_len(s, i) > 0 {
        let m = first_of(s, i + 1, OPEN_BRACKET, CLOSE_BRACKET);
        lemma_first_of(s, i + 1, OPEN_BRACKET, CLOSE_BRACKET);
        lemma_first_of(s, m + 2, OPEN_PAREN, CLOSE_PAREN);
        assert(link_split(s, i, link_len(s, i), m));
    } else if (b == LF || b == BACKTICK) && codeblock_len(s, i) > 0 {
        let j = if s[i] == LF { i + 1 } else { i };
        lemma_first_of(s, j + 3, BACKTICK, BACKTICK);
    }
}

/// No match at `i` is longer than what `longest_match` gives there, and a
/// match of the same length is of the same token.
pub proof fn lemma_no_longer_match(s: Seq<u8>, i: int, t2: Token, n2: int)
    requires
        matches_rule(t2, s, i, n2),
    ensures
        longest_match(s, i) matches Some((t, n)) && (n2 < n || (n2 == n && t2 == t)),
{
    lemma_special_lengths(s, i);
    match t2 {
        Token::Bold => {},
        Token::Italic => {},
        Token::Underline => {},
        Token::TopHeader => {
            let h = run_end(s, i, HASH);
            lemma_run_end(s, i, HASH);
            lemma_run_end(s, h, SPACE);
            if n2 >= 2 {
                assert(s[i + 1] == SPACE);
                assert(h == i + 1);
                lemma_run_end_covers(s, h, i + n2, SPACE);
            }
        },
        Token::LowerHeader => {
            let k = choose|k: int| 2 <= k && #[trigger] header_split(s, i, n2, k);
            let h = run_end(s, i, HASH);
            lemma_run_end(s, i, HASH);
            lemma_run_end(s, h, SPACE);
            lemma_run_end_covers(s, i, i + k, HASH);
            if k < n2 {
                assert(s[i + k] == SPACE);
                assert(h == i + k);
                lemma_run_end_covers(s, h, i + n2, SPACE);
            }
        },
        Token::Tag => {
            let j = if s[i] == SPACE { i + 1 } else { i };
            let e = first_of(s, j + 1, LF, LF);
            lemma_first_of(s, j + 1, LF, LF);
            lemma_last_of(s, j + 1, e, CLOSE_BRACE);
            assert(e >= i + n2) by {
                if e < i + n2 {
                    assert(s[e] == LF);
                }
            }
        },
        Token::RemovableNewline => {},
        Token::ActiveNewline => {
            assert(s[i] == LF);
            assert(s[i + 1] == LF);
            lemma_run_end_covers(s, i, i + n2, LF);
        },
        Token::Text => {},
        Token::UnorderedList => {
            lemma_first_of_is(s, i + 2, i + n2 - 1, LF, LF);
        },
        Token::Link => {
            let m = choose|m: int| #[trigger] link_split(s, i, n2, m);
            lemma_first_of_is(s, i + 1, m, OPEN_BRACKET, CLOSE_BRACKET);
            lemma_first_of_is(s, m + 2, i + n2 - 1, OPEN_PAREN, CLOSE_PAREN);
        },
        Token::Codeblock => {
            let j = if s[i] == LF { i + 1 } else { i };
            let e = if s[i + n2 - 1] == LF { i + n2 - 1 } else { i + n2 };
            lemma_first_of_is(s, j + 3, e - 3, BACKTICK, BACKTICK);
        },
    }
}

/// The tokenizer takes the longest match, and the rules never tie.
///
/// At every index of the input, what `longest_match` gives is a match of some
/// rule; every other match that starts there is strictly shorter; and where
/// `longest_match` gives nothing, no rule matches anything there.
pub proof fn theorem_longest_match(s: Seq<u8>, i: int)
    requires
        0 <= i < s.len(),
    ensures
        match longest_match(s, i) {
            Some((t, n)) => {
                &&& matches_rule(t, s, i, n)
                &&& forall|t2: Token, n2: int| #[trigger]
                    matches_rule(t2, s, i, n2) ==> n2 < n || (n2 == n && t2 == t)
            },
            None => forall|t2: Token, n2: int| !#[trigger] matches_rule(t2, s, i, n2),
        },
{
    lemma_longest_is_match(s, i);
    assert forall|t2: Token, n2: int| #[trigger] matches_rule(t2, s, i, n2) implies (longest_match(
        s,
        i,
    ) matches Some((t, n)) && (n2 < n || (n2 == n && t2 == t))) by {
        lemma_no_longer_match(s, i, t2, n2);
    }
}

/// The token at an index depends on nothing before the index: behind any
/// prefix `p`, the longest match at an index of `s` is what it is in `s` alone.
pub proof fn lemma_longest_match_shift(p: Seq<u8>, s: Seq<u8>, i: int)
    requires
        0 <= i < s.len(),
    ensures
        longest_match(p + s, p.len() + i) == longest_match(s, i),
{
    let t = p + s;
    let d = p.len() as int;
    assert forall|k: int| 0 <= k < s.len() implies #[trigger] t[d + k] == s[k] by {}
    assert(t[d + i] == s[i]);
    if i + 1 < s.len() {
        assert(t[d + (i + 1)] == s[i + 1]);
    }
    // Headers and line feeds.
    lemma_run_end(s, i, HASH);
    lemma_run_end_shift(p, s, i, HASH);
    lemma_run_end_shift(p, s, run_end(s, i, HASH), SPACE);
    lemma_run_end_shift(p, s, i, LF);
    // Tags.
    let j = if s[i] == SPACE { i + 1 } else { i };
    if j < s.len() {
        assert(t[d + j] == s[j]);
        lemma_first_of(s, j + 1, LF, LF);
        lemma_first_of_shift(p, s, j + 1, LF, LF);
        lemma_last_of_shift(p, s, j + 1, first_of(s, j + 1, LF, LF), CLOSE_BRACE);
    }
    assert(tag_len(t, d + i) == tag_len(s, i));
    // List items.
    if i + 1 < s.len() {
        lemma_first_of_shift(p, s, i + 2, LF, LF);
    }
    assert(list_len(t, d + i) == list_len(s, i));
    // Links.
    let m = first_of(s, i + 1, OPEN_BRACKET, CLOSE_BRACKET);
    lemma_first_of(s, i + 1, OPEN_BRACKET, CLOSE_BRACKET);
    lemma_first_of_shift(p, s, i + 1, OPEN_BRACKET, CLOSE_BRACKET);
    if m + 1 < s.len() {
        assert(t[d + m] == s[m]);
        assert(t[d + (m + 1)] == s[m + 1]);
        lemma_first_of(s, m + 2, OPEN_PAREN, CLOSE_PAREN);
        lemma_first_of_shift(p, s, m + 2, OPEN_PAREN, CLOSE_PAREN);
        let e = first_of(s, m + 2, OPEN_PAREN, CLOSE_PAREN);
        if e < s.len() {
            assert(t[d + e] == s[e]);
        }
    }
    assert(link_len(t, d + i) == link_len(s, i));
    // Code blocks.
    let f = if s[i] == LF { i + 1 } else { i };
    lemma_fence_shift(p, s, f);
    if fence_at(s, f) {
        let c = first_of(s, f + 3, BACKTICK, BACKTICK);
        lemma_first_of(s, f + 3, BACKTICK, BACKTICK);
        lemma_first_of_shift(p, s, f + 3, BACKTICK, BACKTICK);
        lemma_fence_shift(p, s, c);
        if c + 3 < s.len() {
            assert(t[d + (c + 3)] == s[c + 3]);
        }
    }
    assert(codeblock_len(t, d + i) == codeblock_len(s, i));
}

/// A forward scan for bytes other than `*`, in text without `*` that a bold
/// marker follows, stops where it stops without the marker, or at the very
/// end where it finds nothing in the text.
proof fn lemma_first_of_before_stars(y: Seq<u8>, i: int, a: u8, b: u8)
    requires
        0 <= i <= y.len(),
        a != STAR,
        b != STAR,
    ensures
        first_of(y + stars(), i, a, b) == if first_of(y, i, a, b) < y.len() {
            first_of(y, i, a, b)
        } else {
            (y + stars()).len() as int
        },
{
    let t = y + stars();
    let len = y.len() as int;
    let e = first_of(y, i, a, b);
    lemma_first_of(y, i, a, b);
    assert forall|k: int| 0 <= k < len implies #[trigger] t[k] == y[k] by {}
    assert(t[len] == STAR);
    assert(t[len + 1] == STAR);
    if e < len {
        assert(t[e] == y[e]);
        lemma_first_of_is(t, i, e, a, b);
    } else {
        lemma_first_of_is(t, i, len + 2, a, b);
    }
}

/// A fence in text that a bold marker follows is a fence in the text.
proof fn lemma_fence_before_stars(y: Seq<u8>, j: int)
    requires
        0 <= j,
    ensures
        fence_at(y + stars(), j) == fence_at(y, j),
{
    let t = y + stars();
    if j + 3 <= y.len() {
        assert(t[j] == y[j]);
        assert(t[j + 1] == y[j + 1]);
        assert(t[j + 2] == y[j + 2]);
    } else if j + 3 <= t.len() {
        assert(t[j + 2] == STAR);
    }
}

/// In text without `*`, a bold marker that follows the text changes no token
/// of it: the longest match at every index of the text is what it is without
/// the marker.
pub proof fn lemma_longest_match_before_stars(y: Seq<u8>, i: int)
    requires
        star_free(y),
        0 <= i < y.len(),
    ensures
        longest_match(y + stars(), i) == longest_match(y, i),
{
    let t = y + stars();
    let len = y.len() as int;
    assert forall|k: int| 0 <= k < len implies #[trigger] t[k] == y[k] by {}
    assert(t[len] == STAR);
    assert(t[len + 1] == STAR);
    assert(t[i] == y[i]);
    assert(y[i] != STAR);
    if i + 1 < len {
        assert(t[i + 1] == y[i + 1]);
    }
    // Headers and line feeds.
    let h = run_end(y, i, HASH);
    lemma_run_end(y, i, HASH);
    lemma_run_end_is(t, i, h, HASH);
    let hs = run_end(y, h, SPACE);
    lemma_run_end(y, h, SPACE);
    lemma_run_end_is(t, h, hs, SPACE);
    let nl = run_end(y, i, LF);
    lemma_run_end(y, i, LF);
    lemma_run_end_is(t, i, nl, LF);
    // Tags.
    let j = if y[i] == SPACE { i + 1 } else { i };
    if j < len {
        assert(t[j] == y[j]);
        let e = first_of(y, j + 1, LF, LF);
        lemma_first_of(y, j + 1, LF, LF);
        lemma_first_of_before_stars(y, j + 1, LF, LF);
        let r = last_of(y, j + 1, e, CLOSE_BRACE);
        lemma_last_of(y, j + 1, e, CLOSE_BRACE);
        if r >= j + 1 {
            assert(t[r] == y[r]);
        }
        assert forall|k: int| r < k < first_of(t, j + 1, LF, LF) implies t[k] != CLOSE_BRACE by {
            if k < len {
                assert(t[k] == y[k]);
            }
        }
        lemma_last_of_is(t, j + 1, first_of(t, j + 1, LF, LF), r, CLOSE_BRACE);
    }
    assert(tag_len(t, i) == tag_len(y, i));
    // List items.
    if i + 1 < len {
        lemma_first_of_before_stars(y, i + 2, LF, LF);
    }
    assert(list_len(t, i) == list_len(y, i));
    // Links.
    let m = first_of(y, i + 1, OPEN_BRACKET, CLOSE_BRACKET);
    lemma_first_of(y, i + 1, OPEN_BRACKET, CLOSE_BRACKET);
    lemma_first_of_before_stars(y, i + 1, OPEN_BRACKET, CLOSE_BRACKET);
    if m + 1 < len {
        assert(t[m] == y[m]);
        assert(t[m + 1] == y[m + 1]);
        let e = first_of(y, m + 2, OPEN_PAREN, CLOSE_PAREN);
        lemma_first_of(y, m + 2, OPEN_PAREN, CLOSE_PAREN);
        lemma_first_of_before_stars(y, m + 2, OPEN_PAREN, CLOSE_PAREN);
        if e < len {
            assert(t[e] == y[e]);
        }
    } else if m < len {
        assert(t[m] == y[m]);
    }
    assert(link_len(t, i) == link_len(y, i));
    // Code blocks.
    let f = if y[i] == LF { i + 1 } else { i };
    lemma_fence_before_stars(y, f);
    if fence_at(y, f) {
        let c = first_of(y, f + 3, BACKTICK, BACKTICK);
        lemma_first_of(y, f + 3, BACKTICK, BACKTICK);
        lemma_first_of_before_stars(y, f + 3, BACKTICK, BACKTICK);
        lemma_fence_before_stars(y, c);
        if fence_at(y, c) {
            if c + 3 < len {
                assert(t[c + 3] == y[c + 3]);
            }
        } else if c >= len {
            assert(!fence_at(t, len + 2));
        }
    }
    assert(codeblock_len(t, i) == codeblock_len(y, i));
}

/// A fence behind a prefix is a fence without the prefix.
proof fn lemma_fence_shift(p: Seq<u8>, s: Seq<u8>, j: int)
    requires
        0 <= j,
    ensures
        fence_at(p + s, p.len() + j) == fence_at(s, j),
{
    if j + 3 <= s.len() {
        assert((p + s)[p.len() + j] == s[j]);
        assert((p + s)[p.len() + j + 1] == s[j + 1]);
        assert((p + s)[p.len() + j + 2] == s[j + 2]);
    }
}

} // verus!
