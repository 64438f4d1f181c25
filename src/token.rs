use vstd::prelude::*;

verus! {

/// One event of a markdown document's event stream, as the rewriter sees it.
///
/// Fenced code block boundaries and text runs carry their strings; every other
/// event is carried through untouched as an `Other` payload.
pub enum Token<E> {
    /// Start of a code block, with its info string (the language label).
    CodeStart(String),
    /// End of a code block, with its info string.
    CodeEnd(String),
    /// A run of literal text.
    Text(String),
    /// Raw HTML, emitted verbatim.
    Html(String),
    /// Any other event, passed through unchanged.
    Other(E),
}

/// The mathematical value of a [`Token`]: its strings as character sequences.
pub enum TokenView<E> {
    CodeStart(Seq<char>),
    CodeEnd(Seq<char>),
    Text(Seq<char>),
    Html(Seq<char>),
    Other(E),
}

impl<E> View for Token<E> {
    type V = TokenView<E>;

    open spec fn view(&self) -> TokenView<E> {
        match self {
            Token::CodeStart(s) => TokenView::CodeStart(s@),
            Token::CodeEnd(s) => TokenView::CodeEnd(s@),
            Token::Text(s) => TokenView::Text(s@),
            Token::Html(s) => TokenView::Html(s@),
            Token::Other(e) => TokenView::Other(*e),
        }
    }
}

/// The views of a sequence of tokens.
pub open spec fn views<E>(ts: Seq<Token<E>>) -> Seq<TokenView<E>> {
    ts.map_values(|t: Token<E>| t@)
}

/// Forgets the payloads of `Other` tokens, keeping everything the rewriter reads.
pub open spec fn shape<E>(t: TokenView<E>) -> TokenView<()> {
    match t {
        TokenView::CodeStart(s) => TokenView::CodeStart(s),
        TokenView::CodeEnd(s) => TokenView::CodeEnd(s),
        TokenView::Text(s) => TokenView::Text(s),
        TokenView::Html(s) => TokenView::Html(s),
        TokenView::Other(_) => TokenView::Other(()),
    }
}

pub open spec fn shapes<E>(ts: Seq<TokenView<E>>) -> Seq<TokenView<()>> {
    ts.map_values(|t: TokenView<E>| shape(t))
}

/// Why a document could not be rewritten.
#[derive(Debug, Clone, Copy, PartialEq, Eq, Structural)]
pub enum MermaidError {
    /// A `mermaid` code block was closed by the end of a block with another label.
    InternalConsistencyFault,
    /// The rewritten event stream could not be written back as markdown.
    SerializationError,
}

} // verus!
