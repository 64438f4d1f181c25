use vstd::prelude::*;
use pulldown_cmark::{Event, Options, Parser, Tag};
use pulldown_cmark_to_cmark::fmt::cmark;
use crate::rewrite::{lemma_only_fault, lemma_rewrite_shapes, rewrite_tokens, rewritten};
use crate::token::{shapes, views, MermaidError, Token, TokenView};

verus! {

#[verifier::external_type_specification]
#[verifier::external_body]
pub struct ExEvent<'a>(Event<'a>);

#[verifier::external_type_specification]
#[verifier::external_body]
pub struct ExFmtError(std::fmt::Error);

/// An event of pulldown-cmark other than a text run or a code block boundary:
/// what the parser hands on as a `Token::Other`. Only the parser makes one, so
/// a text run always reaches the writer as a `Token::Text`.
pub struct Passed<'a>(Event<'a>);

/// Some text run of `ts` is empty.
pub open spec fn has_empty_run<E>(ts: Seq<TokenView<E>>) -> bool {
    exists|i: int| 0 <= i < ts.len() && ts[i] == TokenView::<E>::Text(Seq::empty())
}

/// The markdown extensions enabled when a document is read.
///
/// The writer renders whatever events it is given, so the dialect of the output
/// is the dialect that the document was read in: a table read without the
/// table extension is written back as plain text.
#[derive(Debug, Clone, Copy, PartialEq, Eq, Structural)]
pub struct Extensions {
    pub tables: bool,
    pub footnotes: bool,
    pub strikethrough: bool,
    pub tasklists: bool,
}

impl Extensions {
    /// The extensions that mdbook itself enables: all four.
    pub open spec fn spec_mdbook() -> Extensions {
        Extensions { tables: true, footnotes: true, strikethrough: true, tasklists: true }
    }

    /// The extensions that mdbook itself enables.
    pub fn mdbook() -> (r: Extensions)
        ensures
            r == Extensions::spec_mdbook(),
    {
        Extensions { tables: true, footnotes: true, strikethrough: true, tasklists: true }
    }
}

/// The tokens that pulldown-cmark reads from `text` with the extensions `ext`
/// enabled, with the payloads of `Other` tokens forgotten.
pub uninterp spec fn markdown_tokens(text: Seq<char>, ext: Extensions) -> Seq<TokenView<()>>;

/// Relies on pulldown_cmark::Parser::new_ext: the events of `text` under the
/// given options, which depend on the text and the options alone.
/// Code block boundaries and text runs become their own tokens, with the info
/// string or text copied out; every other event is kept as it is.
#[verifier::external_body]
fn parse_markdown<'a>(text: &'a str, ext: Extensions) -> (r: Vec<Token<Passed<'a>>>)
    ensures
        shapes(views(r@)) == markdown_tokens(text@, ext),
{
    let mut opts = Options::empty();
    opts.set(Options::ENABLE_TABLES, ext.tables);
    opts.set(Options::ENABLE_FOOTNOTES, ext.footnotes);
    opts.set(Options::ENABLE_STRIKETHROUGH, ext.strikethrough);
    opts.set(Options::ENABLE_TASKLISTS, ext.tasklists);
    Parser::new_ext(text, opts).map(|e| match e {
        Event::Start(Tag::CodeBlock(l)) => Token::CodeStart(l.to_string()),
        Event::End(Tag::CodeBlock(l)) => Token::CodeEnd(l.to_string()),
        Event::Text(t) => Token::Text(t.to_string()),
        e => Token::Other(Passed(e)),
    }).collect()
}

/// The markdown text that pulldown-cmark-to-cmark writes for the events of
/// `tokens`.
pub uninterp spec fn markdown_text(tokens: Seq<TokenView<Passed>>) -> Seq<char>;

/// Relies on pulldown_cmark_to_cmark::fmt::cmark: writes the events back as
/// markdown into a `String`; the text depends on the events alone. It fails
/// only where the buffer fails, which a `String` never does. An empty text run
/// as the first text of a table header cell would make it subtract one from a
/// length of zero. Cell boundaries travel inside `Passed` events, out of sight
/// here, so no empty text run is admitted at all.
#[verifier::external_body]
fn write_markdown<'a>(tokens: Vec<Token<Passed<'a>>>) -> (r: Result<String, std::fmt::Error>)
    requires
        !has_empty_run(views(tokens@)),
    ensures
        r is Ok,
        r->Ok_0@ == markdown_text(views(tokens@)),
{
    let events = tokens.into_iter().map(|t| match t {
        Token::CodeStart(l) => Event::Start(Tag::CodeBlock(l.into())),
        Token::CodeEnd(l) => Event::End(Tag::CodeBlock(l.into())),
        Token::Text(s) => Event::Text(s.into()),
        Token::Html(s) => Event::Html(s.into()),
        Token::Other(Passed(e)) => e,
    });
    let mut buf = String::new();
    cmark(events, &mut buf, None).map(|_| buf)
}

/// Reads the markdown document `content` with mdbook's extensions and rewrites
/// its token stream: each fenced `mermaid` block becomes one raw HTML token
/// holding the block's text.
pub fn rewrite_markdown<'a>(content: &'a str) -> (r: Result<Vec<Token<Passed<'a>>>, MermaidError>)
    ensures
        match r {
            Ok(out) => rewritten(markdown_tokens(content@, Extensions::spec_mdbook())) == Ok::<
                _,
                MermaidError,
            >(shapes(views(out@))),
            Err(e) => rewritten(markdown_tokens(content@, Extensions::spec_mdbook())) == Err::<
                Seq<TokenView<()>>,
                _,
            >(e),
        },
{
    let tokens = parse_markdown(content, Extensions::mdbook());
    proof {
        lemma_rewrite_shapes(views(tokens@));
    }
    rewrite_tokens(tokens)
}

/// The outcome of writing a rewritten document back as markdown: the text, or
/// `SerializationError` when the writer failed.
pub fn written_result(w: Result<String, std::fmt::Error>) -> (r: Result<String, MermaidError>)
    ensures
        match w {
            Ok(text) => r == Ok::<_, MermaidError>(text),
            Err(_) => r == Err::<String, _>(MermaidError::SerializationError),
        },
{
    match w {
        Ok(text) => Ok(text),
        Err(_) => Err(MermaidError::SerializationError),
    }
}

/// Whether some text run of `tokens` is empty.
fn find_empty_run<E>(tokens: &Vec<Token<E>>) -> (r: bool)
    ensures
        r == has_empty_run(views(tokens@)),
{
    let mut i: usize = 0;
    while i < tokens.len()
        invariant
            i <= tokens.len(),
            forall|j: int| 0 <= j < i ==> views(tokens@)[j] != TokenView::<E>::Text(Seq::empty()),
        decreases tokens.len() - i,
    {
        if let Token::Text(s) = &tokens[i] {
            if s.as_str().is_empty() {
                assert(s@ =~= Seq::<char>::empty());
                assert(views(tokens@)[i as int] == TokenView::<E>::Text(Seq::empty()));
                return true;
            }
            assert(s@.len() != 0);
        }
        i = i + 1;
    }
    false
}

/// Rewrites the markdown document `content`: each fenced `mermaid` block becomes
/// a raw `<pre class="mermaid">` element holding the block's text, and the
/// document is written back as markdown.
///
/// The call fails with `InternalConsistencyFault` exactly when the document's
/// token stream closes a `mermaid` block with the end of a block of another
/// label, and with `SerializationError` exactly when the rewritten stream holds
/// an empty text run: the writer panics on one that is the first text of a table
/// header cell, and cell boundaries are not visible in the stream. Otherwise it
/// succeeds with the writer's text for the rewritten stream.
pub fn add_mermaid(content: &str) -> (r: Result<String, MermaidError>)
    ensures
        match rewritten(markdown_tokens(content@, Extensions::spec_mdbook())) {
            Ok(out) => if has_empty_run(out) {
                r == Err::<String, _>(MermaidError::SerializationError)
            } else {
                r is Ok
            },
            Err(e) => r == Err::<String, _>(e) && e == MermaidError::InternalConsistencyFault,
        },
        r is Ok ==> exists|toks: Seq<TokenView<Passed>>|
            rewritten(markdown_tokens(content@, Extensions::spec_mdbook())) == Ok::<
                _,
                MermaidError,
            >(shapes(toks)) && r->Ok_0@ == markdown_text(toks),
{
    proof {
        lemma_only_fault(markdown_tokens(content@, Extensions::spec_mdbook()));
    }
    match rewrite_markdown(content) {
        Ok(out) => {
            proof {
                lemma_empty_run_shapes(views(out@));
            }
            if find_empty_run(&out) {
                Err(MermaidError::SerializationError)
            } else {
                let ghost toks = views(out@);
                let r = written_result(write_markdown(out));
                assert(rewritten(markdown_tokens(content@, Extensions::spec_mdbook())) == Ok::<
                    _,
                    MermaidError,
                >(shapes(toks)) && r->Ok_0@ == markdown_text(toks));
                r
            }
        },
        Err(e) => Err(e),
    }
}

/// Forgetting the payloads of `Other` tokens keeps every text run.
proof fn lemma_empty_run_shapes<E>(ts: Seq<TokenView<E>>)
    ensures
        has_empty_run(shapes(ts)) == has_empty_run(ts),
{
    if has_empty_run(ts) {
        let i = choose|i: int| 0 <= i < ts.len() && ts[i] == TokenView::<E>::Text(Seq::empty());
        assert(shapes(ts)[i] == TokenView::<()>::Text(Seq::empty()));
    }
    if has_empty_run(shapes(ts)) {
        let i = choose|i: int| 0 <= i < shapes(ts).len() && shapes(ts)[i] == TokenView::<()>::Text(
            Seq::empty(),
        );
        assert(ts[i] == TokenView::<E>::Text(Seq::empty()));
    }
}

} // verus!
