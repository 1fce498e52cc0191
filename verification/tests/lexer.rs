use md_escp::lexer::{token_at, Lexer};
use md_escp::scan::{find_first_of, find_last, skip_run};
use md_escp::Token;

fn tokens(input: &str) -> Vec<(Token, String)> {
    let mut lexer = Lexer::new(input.as_bytes());
    let mut found = Vec::new();
    while let Some((token, text)) = lexer.next() {
        found.push((token, String::from_utf8_lossy(text).into_owned()));
    }
    found
}

fn pair(token: Token, text: &str) -> (Token, String) {
    (token, text.to_string())
}

#[test]
fn find_first_of_stops_at_either_byte() {
    assert_eq!(find_first_of(b"abc(d)", 0, b'(', b')'), 3);
    assert_eq!(find_first_of(b"abc(d)", 4, b'(', b')'), 5);
    assert_eq!(find_first_of(b"abc", 1, b'(', b')'), 3);
    assert_eq!(find_first_of(b"abc", 3, b'a', b'a'), 3);
    assert_eq!(find_first_of(b"", 0, b'a', b'b'), 0);
}

#[test]
fn skip_run_passes_the_run() {
    assert_eq!(skip_run(b"###  x", 0, b'#'), 3);
    assert_eq!(skip_run(b"###  x", 3, b' '), 5);
    assert_eq!(skip_run(b"###  x", 5, b' '), 5);
    assert_eq!(skip_run(b"##", 0, b'#'), 2);
    assert_eq!(skip_run(b"##", 2, b'#'), 2);
}

#[test]
fn find_last_gives_the_last_in_range() {
    assert_eq!(find_last(b"{a}b}c", 1, 6, b'}'), Some(4));
    assert_eq!(find_last(b"{a}b}c", 1, 4, b'}'), Some(2));
    assert_eq!(find_last(b"{a}b}c", 1, 2, b'}'), None);
    assert_eq!(find_last(b"{a}b}c", 3, 3, b'}'), None);
}

#[test]
fn stars_lex_by_length() {
    assert_eq!(token_at(b"**a", 0), Some((Token::Bold, 2)));
    assert_eq!(token_at(b"*a", 0), Some((Token::Italic, 1)));
    assert_eq!(token_at(b"*", 0), Some((Token::Italic, 1)));
    assert_eq!(token_at(b"***", 0), Some((Token::Bold, 2)));
    assert_eq!(token_at(b"***", 2), Some((Token::Italic, 1)));
    assert_eq!(token_at(b"* a\n", 0), Some((Token::UnorderedList, 4)));
    assert_eq!(token_at(b"* a", 0), Some((Token::Italic, 1)));
    assert_eq!(token_at(b"* \n", 0), Some((Token::Italic, 1)));
}

#[test]
fn underscores_need_a_pair() {
    assert_eq!(token_at(b"__a", 0), Some((Token::Underline, 2)));
    assert_eq!(token_at(b"_a", 0), None);
    assert_eq!(token_at(b"_", 0), None);
    assert_eq!(token_at(b"___", 2), None);
}

#[test]
fn hashes_lex_by_run() {
    assert_eq!(token_at(b"#", 0), Some((Token::TopHeader, 1)));
    assert_eq!(token_at(b"# x", 0), Some((Token::TopHeader, 2)));
    assert_eq!(token_at(b"#   x", 0), Some((Token::TopHeader, 4)));
    assert_eq!(token_at(b"#x", 0), Some((Token::TopHeader, 1)));
    assert_eq!(token_at(b"##", 0), Some((Token::LowerHeader, 2)));
    assert_eq!(token_at(b"## x", 0), Some((Token::LowerHeader, 3)));
    assert_eq!(token_at(b"#####  x", 0), Some((Token::LowerHeader, 7)));
    assert_eq!(token_at(b"## # x", 0), Some((Token::LowerHeader, 3)));
    assert_eq!(token_at(b"## # x", 3), Some((Token::TopHeader, 2)));
}

#[test]
fn line_feeds_lex_by_run() {
    assert_eq!(token_at(b"\n", 0), Some((Token::RemovableNewline, 1)));
    assert_eq!(token_at(b"\na", 0), Some((Token::RemovableNewline, 1)));
    assert_eq!(token_at(b"\n\n", 0), Some((Token::ActiveNewline, 2)));
    assert_eq!(token_at(b"\n\n\n\na", 0), Some((Token::ActiveNewline, 4)));
    assert_eq!(token_at(b"\n```a```", 0), Some((Token::Codeblock, 8)));
    assert_eq!(token_at(b"\n\n```a```", 0), Some((Token::ActiveNewline, 2)));
    assert_eq!(token_at(b"\n``a```", 0), Some((Token::RemovableNewline, 1)));
}

#[test]
fn tags_end_at_the_last_brace_of_the_line() {
    assert_eq!(token_at(b"{}", 0), Some((Token::Tag, 2)));
    assert_eq!(token_at(b"{#id}", 0), Some((Token::Tag, 5)));
    assert_eq!(token_at(b" {#id} x", 0), Some((Token::Tag, 6)));
    assert_eq!(token_at(b"{a}b}c", 0), Some((Token::Tag, 5)));
    assert_eq!(token_at(b"{a}\nb}", 0), Some((Token::Tag, 3)));
    assert_eq!(token_at(b"{a\n}", 0), Some((Token::Text, 1)));
    assert_eq!(token_at(b"{a", 0), Some((Token::Text, 1)));
    assert_eq!(token_at(b" a", 0), Some((Token::Text, 1)));
    assert_eq!(token_at(b" ", 0), Some((Token::Text, 1)));
    assert_eq!(token_at(b"  {a}", 0), Some((Token::Text, 1)));
    assert_eq!(token_at(b"  {a}", 1), Some((Token::Tag, 4)));
}

#[test]
fn list_items_run_to_the_line_feed() {
    assert_eq!(token_at(b"- a\n", 0), Some((Token::UnorderedList, 4)));
    assert_eq!(token_at(b"+ item one\nrest", 0), Some((Token::UnorderedList, 11)));
    assert_eq!(token_at(b"- \n", 0), Some((Token::Text, 1)));
    assert_eq!(token_at(b"-a\n", 0), Some((Token::Text, 1)));
    assert_eq!(token_at(b"- a", 0), Some((Token::Text, 1)));
    assert_eq!(token_at(b"x - a\n", 2), Some((Token::UnorderedList, 4)));
}

#[test]
fn links_need_label_and_target() {
    assert_eq!(token_at(b"[a](b)", 0), Some((Token::Link, 6)));
    assert_eq!(token_at(b"[a b](c d) e", 0), Some((Token::Link, 10)));
    assert_eq!(token_at(b"[a\nb](c\nd)", 0), Some((Token::Link, 10)));
    assert_eq!(token_at(b"[](b)", 0), Some((Token::Text, 1)));
    assert_eq!(token_at(b"[a]()", 0), Some((Token::Text, 1)));
    assert_eq!(token_at(b"[a] (b)", 0), Some((Token::Text, 1)));
    assert_eq!(token_at(b"[a[b](c)", 0), Some((Token::Text, 1)));
    assert_eq!(token_at(b"[a[b](c)", 2), Some((Token::Link, 6)));
    assert_eq!(token_at(b"[a](b(c)", 0), Some((Token::Text, 1)));
    assert_eq!(token_at(b"[a](b", 0), Some((Token::Text, 1)));
    assert_eq!(token_at(b"[", 0), Some((Token::Text, 1)));
}

#[test]
fn codeblocks_need_both_fences() {
    assert_eq!(token_at(b"``````", 0), Some((Token::Codeblock, 6)));
    assert_eq!(token_at(b"```a```", 0), Some((Token::Codeblock, 7)));
    assert_eq!(token_at(b"```a```\n", 0), Some((Token::Codeblock, 8)));
    assert_eq!(token_at(b"```a```\n\n", 0), Some((Token::Codeblock, 8)));
    assert_eq!(token_at(b"```a\nb```x", 0), Some((Token::Codeblock, 9)));
    assert_eq!(token_at(b"```a``", 0), Some((Token::Text, 1)));
    assert_eq!(token_at(b"```a`b```", 0), Some((Token::Text, 1)));
    assert_eq!(token_at(b"````a```", 0), Some((Token::Text, 1)));
    assert_eq!(token_at(b"````a```", 1), Some((Token::Codeblock, 7)));
    assert_eq!(token_at(b"`", 0), Some((Token::Text, 1)));
}

#[test]
fn other_bytes_are_text_or_nothing() {
    assert_eq!(token_at(b"a", 0), Some((Token::Text, 1)));
    assert_eq!(token_at(b"}", 0), Some((Token::Text, 1)));
    assert_eq!(token_at(b"]", 0), Some((Token::Text, 1)));
    assert_eq!(token_at(b"\\", 0), Some((Token::Text, 1)));
    assert_eq!(token_at("\u{e9}".as_bytes(), 0), Some((Token::Text, 1)));
    assert_eq!(token_at("\u{e9}".as_bytes(), 1), Some((Token::Text, 1)));
    assert_eq!(token_at(b"\x00", 0), Some((Token::Text, 1)));
    assert_eq!(token_at(b"(", 0), None);
    assert_eq!(token_at(b")", 0), None);
    assert_eq!(token_at(b"\r", 0), None);
    assert_eq!(token_at(b"\t", 0), None);
    assert_eq!(token_at(b"\x0C", 0), None);
}

#[test]
fn lexer_hands_out_tokens_in_order() {
    assert_eq!(
        tokens("# Hi **x**\n\n- a\n{t}"),
        vec![
            pair(Token::TopHeader, "# "),
            pair(Token::Text, "H"),
            pair(Token::Text, "i"),
            pair(Token::Text, " "),
            pair(Token::Bold, "**"),
            pair(Token::Text, "x"),
            pair(Token::Bold, "**"),
            pair(Token::ActiveNewline, "\n\n"),
            pair(Token::UnorderedList, "- a\n"),
            pair(Token::Tag, "{t}"),
        ]
    );
}

#[test]
fn lexer_passes_over_unmatched_bytes() {
    assert_eq!(
        tokens("(a)_\t__"),
        vec![pair(Token::Text, "a"), pair(Token::Underline, "__")]
    );
    assert_eq!(tokens("()\r"), vec![]);
    assert_eq!(tokens(""), vec![]);
}

#[test]
fn lexer_stays_at_the_end() {
    let mut lexer = Lexer::new(b"a");

    assert_eq!(lexer.next(), Some((Token::Text, &b"a"[..])));
    assert_eq!(lexer.next(), None);
    assert_eq!(lexer.next(), None);
}
