use md_escp::render::{
    close_lower_header, close_top_header, open_lower_header, open_top_header, wrap_bold,
    wrap_italic, wrap_underline,
};
use md_escp::{new_line, render_token, State, Token};

fn all_states() -> Vec<State> {
    let mut v = Vec::new();
    for bits in 0u8..32 {
        v.push(State {
            top_header: bits & 1 != 0,
            lower_header: bits & 2 != 0,
            bold: bits & 4 != 0,
            italic: bits & 8 != 0,
            underline: bits & 16 != 0,
        });
    }
    v
}

#[test]
fn default_state_has_nothing_open() {
    let state = State::default();

    assert!(!state.top_header);
    assert!(!state.lower_header);
    assert!(!state.bold);
    assert!(!state.italic);
    assert!(!state.underline);
}

#[test]
fn wrap_bold_alternates() {
    let mut state = State::default();

    assert_eq!(wrap_bold(&mut state), b"\x1BE");
    assert!(state.bold);
    assert_eq!(wrap_bold(&mut state), b"\x1BF");
    assert!(!state.bold);
    assert_eq!(state, State::default());
}

#[test]
fn wrap_italic_alternates() {
    let mut state = State::default();

    assert_eq!(wrap_italic(&mut state), b"\x1B4");
    assert!(state.italic);
    assert_eq!(wrap_italic(&mut state), b"\x1B5");
    assert_eq!(state, State::default());
}

#[test]
fn wrap_underline_alternates() {
    let mut state = State::default();

    assert_eq!(wrap_underline(&mut state), b"\x1B-1");
    assert!(state.underline);
    assert_eq!(wrap_underline(&mut state), b"\x1B-0");
    assert_eq!(state, State::default());
}

#[test]
fn top_header_opens_once_and_closes_once() {
    let mut state = State::default();

    assert_eq!(close_top_header(&mut state), b"");
    assert_eq!(open_top_header(&mut state), b"\n\n\x1BE\x1Bw1\x1BW1");
    assert!(state.top_header);
    assert!(!state.bold);
    assert_eq!(open_top_header(&mut state), b"");
    assert!(state.top_header);
    assert_eq!(close_top_header(&mut state), b"\x1BF\x1Bw0\x1BW0\n");
    assert_eq!(close_top_header(&mut state), b"");
    assert_eq!(state, State::default());
}

#[test]
fn lower_header_opens_once_and_closes_once() {
    let mut state = State::default();

    assert_eq!(close_lower_header(&mut state), b"");
    assert_eq!(open_lower_header(&mut state), b"\n\n\x1Bw1");
    assert!(state.lower_header);
    assert_eq!(open_lower_header(&mut state), b"");
    assert_eq!(close_lower_header(&mut state), b"\x1Bw0\n");
    assert_eq!(close_lower_header(&mut state), b"");
    assert_eq!(state, State::default());
}

#[test]
fn new_line_closes_open_headers() {
    let mut state = State { top_header: true, bold: true, ..State::default() };
    assert_eq!(new_line(&mut state, Token::RemovableNewline), b"\x1BF\x1Bw0\x1BW0\n ");
    assert_eq!(state, State { bold: true, ..State::default() });

    let mut state = State { lower_header: true, ..State::default() };
    assert_eq!(new_line(&mut state, Token::ActiveNewline), b"\x1Bw0\n\n");
    assert_eq!(state, State::default());

    let mut state = State { top_header: true, lower_header: true, ..State::default() };
    assert_eq!(
        new_line(&mut state, Token::ActiveNewline),
        b"\x1BF\x1Bw0\x1BW0\n\x1Bw0\n\n"
    );
    assert_eq!(state, State::default());
}

#[test]
fn new_line_leaves_the_toggles_alone() {
    for before in all_states() {
        let mut state = before;
        let bytes = new_line(&mut state, Token::RemovableNewline);
        assert_eq!(state, State { top_header: false, lower_header: false, ..before });
        assert_eq!(bytes.last(), Some(&b' '));
        if !before.top_header && !before.lower_header {
            assert_eq!(bytes, b" ");
            let mut state = before;
            assert_eq!(new_line(&mut state, Token::ActiveNewline), b"\n");
        }
    }
}

#[test]
fn new_line_gives_a_space_for_any_other_token() {
    let mut state = State::default();

    assert_eq!(new_line(&mut state, Token::Text), b" ");
    assert_eq!(new_line(&mut state, Token::Bold), b" ");
}

#[test]
fn tag_changes_nothing() {
    for before in all_states() {
        let mut state = before;
        let mut out = b"kept".to_vec();
        render_token(&mut state, Token::Tag, b" {#anything}", &mut out);
        assert_eq!(state, before);
        assert_eq!(out, b"kept");
    }
}

#[test]
fn literal_tokens_append_their_text() {
    for token in [Token::Text, Token::UnorderedList, Token::Link, Token::Codeblock] {
        let mut state = State { italic: true, ..State::default() };
        let mut out = b"a".to_vec();
        render_token(&mut state, token, b"[x](y)", &mut out);
        assert_eq!(out, b"a[x](y)");
        assert_eq!(state, State { italic: true, ..State::default() });
    }
}

#[test]
fn marker_tokens_ignore_their_text() {
    let mut state = State::default();
    let mut out = Vec::new();

    render_token(&mut state, Token::Bold, b"**", &mut out);
    render_token(&mut state, Token::Italic, b"*", &mut out);
    render_token(&mut state, Token::Underline, b"__", &mut out);
    render_token(&mut state, Token::LowerHeader, b"## ", &mut out);
    render_token(&mut state, Token::TopHeader, b"# ", &mut out);
    assert_eq!(out, b"\x1BE\x1B4\x1B-1\n\n\x1Bw1\n\n\x1BE\x1Bw1\x1BW1");
    assert_eq!(
        state,
        State { top_header: true, lower_header: true, bold: true, italic: true, underline: true }
    );

    render_token(&mut state, Token::RemovableNewline, b"\n", &mut out);
    assert!(out.ends_with(b"\x1BF\x1Bw0\x1BW0\n\x1Bw0\n "));
    render_token(&mut state, Token::ActiveNewline, b"\n\n", &mut out);
    assert!(out.ends_with(b"\x1Bw0\n \n"));
    assert_eq!(
        state,
        State { top_header: false, lower_header: false, bold: true, italic: true, underline: true }
    );
}
