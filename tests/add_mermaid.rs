use mdbook_mermaid::{
    add_mermaid, rewrite_markdown, rewrite_tokens, written_result, Extensions, Mermaid, MermaidError, Token,
};

#[test]
fn adds_mermaid() {
    let content = "# Chapter\n\n```mermaid\ngraph TD\nA --> B\n```\n\nText\n";
    let expected = "# Chapter\n\n<pre class=\"mermaid\">graph TD\nA --> B\n</pre>\n\nText";
    assert_eq!(expected, add_mermaid(content).unwrap());
}

#[test]
fn leaves_tables_untouched() {
    let content = "# Heading\n\n| Head 1 | Head 2 |\n|--------|--------|\n| Row 1  | Row 2  |\n";
    let expected = "# Heading\n\n|Head 1|Head 2|\n|------|------|\n|Row 1|Row 2|";
    assert_eq!(expected, add_mermaid(content).unwrap());
}

#[test]
fn other_fences_are_kept() {
    let content = "```python\nprint(1)\n```\n";
    let out = add_mermaid(content).unwrap();
    assert!(out.contains("```python"));
    assert!(out.contains("print(1)"));
    assert!(!out.contains("<pre"));
}

#[test]
fn other_extensions_survive() {
    let content = "~~gone~~ and a note[^1]\n\n[^1]: The note.\n\n- [x] done\n- [ ] todo\n";
    let out = add_mermaid(content).unwrap();
    assert!(out.contains("~~gone~~"));
    assert!(out.contains("[^1]"));
    assert!(out.contains("[x]"));
    assert!(out.contains("[ ]"));
    assert!(!out.contains("<pre"));
}

#[test]
fn two_diagrams_in_one_chapter() {
    let content = "```mermaid\nA\n```\n\nmiddle\n\n```mermaid\nB\n```\n";
    let out = add_mermaid(content).unwrap();
    assert!(out.contains("<pre class=\"mermaid\">A\n</pre>"));
    assert!(out.contains("<pre class=\"mermaid\">B\n</pre>"));
    assert!(out.contains("middle"));
    assert!(!out.contains("```"));
}

#[test]
fn empty_chapter() {
    assert_eq!("", add_mermaid("").unwrap());
}

fn start(l: &str) -> Token<u8> {
    Token::CodeStart(l.to_string())
}

fn end(l: &str) -> Token<u8> {
    Token::CodeEnd(l.to_string())
}

fn text(s: &str) -> Token<u8> {
    Token::Text(s.to_string())
}

fn html_of(t: &Token<u8>) -> Option<&str> {
    match t {
        Token::Html(s) => Some(s.as_str()),
        _ => None,
    }
}

#[test]
fn block_becomes_pre_element() {
    let out = rewrite_tokens(vec![Token::Other(1), start("mermaid"), text("a\n"), text("b\n"), end("mermaid"), Token::Other(2)]).unwrap();
    assert_eq!(out.len(), 3);
    assert!(matches!(out[0], Token::Other(1)));
    assert_eq!(html_of(&out[1]), Some("<pre class=\"mermaid\">a\nb\n</pre>\n\n"));
    assert!(matches!(out[2], Token::Other(2)));
}

#[test]
fn blocks_do_not_share_text() {
    let out = rewrite_tokens(vec![
        start("mermaid"), text("one"), end("mermaid"),
        Token::Other(7),
        start("mermaid"), text("two"), end("mermaid"),
    ]).unwrap();
    assert_eq!(out.len(), 3);
    assert_eq!(html_of(&out[0]), Some("<pre class=\"mermaid\">one</pre>\n\n"));
    assert!(matches!(out[1], Token::Other(7)));
    assert_eq!(html_of(&out[2]), Some("<pre class=\"mermaid\">two</pre>\n\n"));
}

#[test]
fn empty_block_gives_empty_pre() {
    let out = rewrite_tokens(vec![start("mermaid"), end("mermaid")]).unwrap();
    assert_eq!(out.len(), 1);
    assert_eq!(html_of(&out[0]), Some("<pre class=\"mermaid\"></pre>\n\n"));
}

#[test]
fn foreign_block_passes_through() {
    let out = rewrite_tokens(vec![start("python"), text("x = 1\n"), end("python")]).unwrap();
    assert_eq!(out.len(), 3);
    assert!(matches!(&out[0], Token::CodeStart(l) if l == "python"));
    assert!(matches!(&out[1], Token::Text(t) if t == "x = 1\n"));
    assert!(matches!(&out[2], Token::CodeEnd(l) if l == "python"));
}

#[test]
fn mismatched_end_is_a_fault() {
    let r = rewrite_tokens(vec![start("mermaid"), text("A"), end("python"), Token::Other(3)]);
    assert!(matches!(r, Err(MermaidError::InternalConsistencyFault)));
}

#[test]
fn unclosed_block_is_dropped() {
    let out = rewrite_tokens(vec![Token::Other(1), start("mermaid"), text("lost")]).unwrap();
    assert_eq!(out.len(), 1);
    assert!(matches!(out[0], Token::Other(1)));
}

#[test]
fn other_events_inside_block_pass_through() {
    let out = rewrite_tokens(vec![start("mermaid"), Token::Other(9), text("t"), end("mermaid")]).unwrap();
    assert_eq!(out.len(), 2);
    assert!(matches!(out[0], Token::Other(9)));
    assert_eq!(html_of(&out[1]), Some("<pre class=\"mermaid\">t</pre>\n\n"));
}

#[test]
fn plugin_name_and_renderer() {
    let m = Mermaid;
    assert_eq!(m.name(), "mermaid");
    assert!(m.supports_renderer("html"));
    assert!(!m.supports_renderer("epub"));
    assert!(!m.supports_renderer(""));
}

#[test]
fn mdbook_extensions_all_on() {
    let e = Extensions::mdbook();
    assert!(e.tables && e.footnotes && e.strikethrough && e.tasklists);
}

#[test]
fn parsed_document_gets_one_pre_token() {
    let out = rewrite_markdown("# Chapter\n\n```mermaid\ngraph TD\nA --> B\n```\n\nText\n").unwrap();
    let htmls: Vec<&str> = out
        .iter()
        .filter_map(|t| match t {
            Token::Html(s) => Some(s.as_str()),
            _ => None,
        })
        .collect();
    assert_eq!(htmls, vec!["<pre class=\"mermaid\">graph TD\nA --> B\n</pre>\n\n"]);
    assert!(!out.iter().any(|t| matches!(t, Token::CodeStart(_) | Token::CodeEnd(_))));
}

#[test]
fn parsed_python_block_keeps_its_fences() {
    let out = rewrite_markdown("```python\nprint(1)\n```\n").unwrap();
    assert!(matches!(&out[0], Token::CodeStart(l) if l == "python"));
    assert!(out.iter().any(|t| matches!(t, Token::Text(s) if s == "print(1)\n")));
    assert!(matches!(out.last(), Some(Token::CodeEnd(l)) if l == "python"));
}

#[test]
fn writer_failure_is_a_serialization_error() {
    assert_eq!(written_result(Err(std::fmt::Error)), Err(MermaidError::SerializationError));
    assert_eq!(written_result(Ok("a".to_string())), Ok("a".to_string()));
}

#[test]
fn empty_header_cell_does_not_panic() {
    let r = add_mermaid("|  | b |\n|---|---|\n| 1 | 2 |\n");
    let out = r.unwrap();
    assert!(out.contains("|b|"));
    assert!(out.contains("|1|2|"));
}
