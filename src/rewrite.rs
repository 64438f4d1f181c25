use vstd::prelude::*;
use crate::token::{shape, shapes, views, MermaidError, Token, TokenView};

verus! {

/// The info string of the code blocks that are rewritten.
pub open spec fn target_label() -> Seq<char> {
    "mermaid"@
}

/// The raw HTML that replaces a target block whose text is `body`.
pub open spec fn diagram_html(body: Seq<char>) -> Seq<char> {
    "<pre class=\"mermaid\">"@ + body + "</pre>\n\n"@
}

/// The state of the rewriter after a prefix of the stream: the tokens emitted so
/// far, and the text gathered so far when inside a target block (`None` outside).
pub type ScanState<E> = (Seq<TokenView<E>>, Option<Seq<char>>);

/// One transition of the rewriter.
pub open spec fn step<E>(st: ScanState<E>, t: TokenView<E>) -> Result<ScanState<E>, MermaidError> {
    let (out, inside) = st;
    match t {
        TokenView::CodeStart(label) => if label == target_label() {
            Ok((out, Some(Seq::empty())))
        } else {
            Ok((out.push(t), inside))
        },
        _ => match inside {
            None => Ok((out.push(t), None)),
            Some(acc) => match t {
                TokenView::Text(s) => Ok((out, Some(acc + s))),
                TokenView::CodeEnd(label) => if label == target_label() {
                    Ok((out.push(TokenView::Html(diagram_html(acc))), None))
                } else {
                    Err(MermaidError::InternalConsistencyFault)
                },
                _ => Ok((out.push(t), Some(acc))),
            },
        },
    }
}

/// The rewriter's state after the whole of `ts`, or the fault that stopped it.
pub open spec fn scan<E>(ts: Seq<TokenView<E>>) -> Result<ScanState<E>, MermaidError>
    decreases ts.len(),
{
    if ts.len() == 0 {
        Ok((Seq::empty(), None))
    } else {
        match scan(ts.drop_last()) {
            Ok(st) => step(st, ts.last()),
            Err(e) => Err(e),
        }
    }
}

/// What rewriting the token stream `ts` yields.
pub open spec fn rewritten<E>(ts: Seq<TokenView<E>>) -> Result<Seq<TokenView<E>>, MermaidError> {
    match scan(ts) {
        Ok(st) => Ok(st.0),
        Err(e) => Err(e),
    }
}

/// A fault on a prefix of the stream is the fault of the whole stream.
pub proof fn lemma_fault_persists<E>(ts: Seq<TokenView<E>>, n: int)
    requires
        0 <= n <= ts.len(),
        scan(ts.take(n)) is Err,
    ensures
        scan(ts) == scan(ts.take(n)),
    decreases ts.len() - n,
{
    if n == ts.len() {
        assert(ts.take(n) =~= ts);
    } else {
        assert(ts.take(n + 1).drop_last() =~= ts.take(n));
        lemma_fault_persists(ts, n + 1);
    }
}

/// The rewriter reads only the shape of each token: forgetting the payloads of
/// `Other` tokens before rewriting is forgetting them after.
pub proof fn lemma_rewrite_shapes<E>(ts: Seq<TokenView<E>>)
    ensures
        scan(shapes(ts)) == match scan(ts) {
            Ok(st) => Ok::<ScanState<()>, MermaidError>((shapes(st.0), st.1)),
            Err(e) => Err(e),
        },
        rewritten(shapes(ts)) is Err <==> rewritten(ts) is Err,
    decreases ts.len(),
{
    if ts.len() > 0 {
        assert(shapes(ts).drop_last() =~= shapes(ts.drop_last()));
        lemma_rewrite_shapes(ts.drop_last());
        if let Ok(st) = scan(ts.drop_last()) {
            let t = ts.last();
            assert(shapes(st.0.push(t)) =~= shapes(st.0).push(shape(t)));
            if let Some(acc) = st.1 {
                assert(shapes(st.0.push(TokenView::Html(diagram_html(acc)))) =~= shapes(st.0).push(
                    TokenView::Html(diagram_html(acc)),
                ));
            }
        }
    } else {
        assert(shapes(ts) =~= Seq::<TokenView<()>>::empty());
        assert(shapes(Seq::<TokenView<E>>::empty()) =~= Seq::<TokenView<()>>::empty());
    }
}

/// The only way a rewrite fails is a target block closed under another label.
pub proof fn lemma_only_fault<E>(ts: Seq<TokenView<E>>)
    ensures
        scan(ts) is Err ==> scan(ts) == Err::<ScanState<E>, _>(MermaidError::InternalConsistencyFault),
        rewritten(ts) is Err ==> rewritten(ts) == Err::<Seq<TokenView<E>>, _>(MermaidError::InternalConsistencyFault),
    decreases ts.len(),
{
    if ts.len() > 0 {
        lemma_only_fault(ts.drop_last());
    }
}

fn emit<E>(out: &mut Vec<Token<E>>, t: Token<E>)
    ensures
        views(final(out)@) == views(old(out)@).push(t@),
{
    let ghost tv = t@;
    out.push(t);
    assert(views(out@) =~= views(old(out)@).push(tv));
}

fn is_target(label: &String) -> (r: bool)
    ensures
        r == (label@ == target_label()),
{
    let target = String::from_str("mermaid");
    label.eq(&target)
}

fn diagram(body: &String) -> (r: String)
    ensures
        r@ == diagram_html(body@),
{
    let mut html = String::from_str("<pre class=\"mermaid\">");
    html.append(body.as_str());
    html.append("</pre>\n\n");
    html
}

/// Replaces each fenced `mermaid` block of the stream by one raw HTML token
/// holding the block's text; every other token is kept, in order.
pub fn rewrite_tokens<E>(tokens: Vec<Token<E>>) -> (r: Result<Vec<Token<E>>, MermaidError>)
    ensures
        match r {
            Ok(out) => rewritten(views(tokens@)) == Ok::<_, MermaidError>(views(out@)),
            Err(e) => rewritten(views(tokens@)) == Err::<Seq<TokenView<E>>, _>(e),
        },
{
    let ghost all = views(tokens@);
    let mut out: Vec<Token<E>> = Vec::new();
    let mut acc = String::new();
    let mut inside = false;
    assert(views(out@) =~= Seq::<TokenView<E>>::empty());
    assert(all.take(0) =~= Seq::<TokenView<E>>::empty());
    for t in it: tokens
        invariant
            it.seq() == tokens@,
            all == views(tokens@),
            scan(all.take(it.index() as int)) == Ok::<_, MermaidError>(
                (views(out@), if inside { Some(acc@) } else { None }),
            ),
    {
        let ghost i = it.index() as int;
        assert(all.take(i + 1).drop_last() =~= all.take(i));
        assert(all.take(i + 1).last() == t@);
        match t {
            Token::CodeStart(label) => {
                if is_target(&label) {
                    inside = true;
                    acc = String::new();
                } else {
                    emit(&mut out, Token::CodeStart(label));
                }
            },
            Token::Text(s) => {
                if inside {
                    acc.append(s.as_str());
                } else {
                    emit(&mut out, Token::Text(s));
                }
            },
            Token::CodeEnd(label) => {
                if !inside {
                    emit(&mut out, Token::CodeEnd(label));
                } else if is_target(&label) {
                    emit(&mut out, Token::Html(diagram(&acc)));
                    inside = false;
                    acc = String::new();
                } else {
                    proof {
                        lemma_fault_persists(all, i + 1);
                    }
                    return Err(MermaidError::InternalConsistencyFault);
                }
            },
            other => {
                emit(&mut out, other);
            },
        }
    }
    assert(all.take(all.len() as int) =~= all);
    Ok(out)
}

} // verus!
