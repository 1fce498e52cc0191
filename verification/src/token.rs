use vstd::prelude::*;

verus! {

/// The classes of lexical unit that the tokenizer tells apart.
#[derive(Clone, Copy, Debug, PartialEq, Eq, Structural)]
pub enum Token {
    /// `**`
    Bold,
    /// `*`
    Italic,
    /// `__`
    Underline,
    /// One `#` and the spaces after it.
    TopHeader,
    /// Two or more `#` and the spaces after them.
    LowerHeader,
    /// An annotation in braces, such as ` {#id}`, with the space before it if
    /// there is one. It runs to the last `}` of its line, wherever in the
    /// line it stands, and is never rendered.
    Tag,
    /// A line feed that stands alone.
    RemovableNewline,
    /// Two or more line feeds: a paragraph break.
    ActiveNewline,
    /// One byte of literal text. A character of several bytes is as many
    /// such tokens in a row.
    Text,
    /// A list marker (`-`, `*` or `+`), a space, and the rest of the line with
    /// its line feed. The marker counts wherever it stands, not only where a
    /// line begins.
    UnorderedList,
    /// `[label](target)`
    Link,
    /// A block fenced by triple backticks.
    Codeblock,
}

/// A token together with the bytes of the input that it matched: the unit
/// that the tokenizer hands to the renderer, as contracts see it.
pub struct Lexeme {
    pub token: Token,
    pub text: Seq<u8>,
}

} // verus!
