use vstd::prelude::*;
use crate::rewrite::{diagram_html, lemma_fault_persists, rewritten, scan, target_label};
use crate::markdown::{markdown_tokens, Extensions};
use crate::token::{MermaidError, TokenView};

verus! {

/// No token of `ts` opens a block labelled with the target label.
pub open spec fn no_target_start<E>(ts: Seq<TokenView<E>>) -> bool {
    forall|i: int| 0 <= i < ts.len() ==> ts[i] != TokenView::<E>::CodeStart(target_label())
}

/// The rewriter, having read `p`, stands outside any target block, having
/// emitted `out`.
pub open spec fn outside_after<E>(p: Seq<TokenView<E>>, out: Seq<TokenView<E>>) -> bool {
    scan(p) == Ok::<_, MermaidError>((out, None::<Seq<char>>))
}

/// Text tokens, one for each run of `bodies`.
pub open spec fn texts<E>(bodies: Seq<Seq<char>>) -> Seq<TokenView<E>> {
    bodies.map_values(|s: Seq<char>| TokenView::<E>::Text(s))
}

/// The runs of `bodies` joined end to end.
pub open spec fn joined(bodies: Seq<Seq<char>>) -> Seq<char>
    decreases bodies.len(),
{
    if bodies.len() == 0 {
        Seq::empty()
    } else {
        joined(bodies.drop_last()) + bodies.last()
    }
}

/// A fenced block labelled with the target label whose text runs are `bodies`.
pub open spec fn target_block<E>(bodies: Seq<Seq<char>>) -> Seq<TokenView<E>> {
    seq![TokenView::<E>::CodeStart(target_label())] + texts(bodies) + seq![
        TokenView::<E>::CodeEnd(target_label()),
    ]
}

/// The target blocks of `docs`, one after another.
pub open spec fn target_blocks<E>(docs: Seq<Seq<Seq<char>>>) -> Seq<TokenView<E>>
    decreases docs.len(),
{
    if docs.len() == 0 {
        Seq::empty()
    } else {
        target_blocks(docs.drop_last()) + target_block(docs.last())
    }
}

/// The raw HTML tokens that replace the blocks of `docs`, one for each.
pub open spec fn diagrams<E>(docs: Seq<Seq<Seq<char>>>) -> Seq<TokenView<E>> {
    docs.map_values(|b: Seq<Seq<char>>| TokenView::<E>::Html(diagram_html(joined(b))))
}

/// From outside any target block, tokens that open no target block are emitted
/// unchanged and leave the rewriter outside.
pub proof fn lemma_passthrough<E>(p: Seq<TokenView<E>>, out: Seq<TokenView<E>>, b: Seq<TokenView<E>>)
    requires
        outside_after(p, out),
        no_target_start(b),
    ensures
        outside_after(p + b, out + b),
    decreases b.len(),
{
    if b.len() == 0 {
        assert(p + b =~= p);
        assert(out + b =~= out);
    } else {
        assert((p + b).drop_last() =~= p + b.drop_last());
        lemma_passthrough(p, out, b.drop_last());
        assert((out + b.drop_last()).push(b.last()) =~= out + b);
        assert(b.last() == b[b.len() - 1]);
    }
}

/// A document with no block labelled with the target label is rewritten to
/// itself, token for token.
pub proof fn lemma_untouched_without_target<E>(ts: Seq<TokenView<E>>)
    requires
        no_target_start(ts),
    ensures
        rewritten(ts) == Ok::<_, MermaidError>(ts),
{
    let e = Seq::<TokenView<E>>::empty();
    lemma_passthrough(e, e, ts);
    assert(e + ts =~= ts);
}

/// A fenced block of another label is emitted unchanged, fences included,
/// whatever its content and wherever it stands outside a target block.
pub proof fn lemma_foreign_block_passes<E>(
    p: Seq<TokenView<E>>,
    out: Seq<TokenView<E>>,
    label: Seq<char>,
    content: Seq<TokenView<E>>,
)
    requires
        outside_after(p, out),
        label != target_label(),
        no_target_start(content),
    ensures
        ({
            let block = seq![TokenView::<E>::CodeStart(label)] + content + seq![
                TokenView::<E>::CodeEnd(label),
            ];
            outside_after(p + block, out + block)
        }),
{
    let block = seq![TokenView::<E>::CodeStart(label)] + content + seq![
        TokenView::<E>::CodeEnd(label),
    ];
    assert forall|i: int| 0 <= i < block.len() implies block[i] != TokenView::<E>::CodeStart(
        target_label(),
    ) by {
        if 1 <= i < block.len() - 1 {
            assert(block[i] == content[i - 1]);
        }
    }
    lemma_passthrough(p, out, block);
}

/// Inside a target block opened after `p`, the text runs are gathered, in order,
/// and nothing is emitted.
proof fn lemma_gather<E>(p: Seq<TokenView<E>>, out: Seq<TokenView<E>>, bodies: Seq<Seq<char>>)
    requires
        outside_after(p, out),
    ensures
        scan(p + seq![TokenView::<E>::CodeStart(target_label())] + texts::<E>(bodies)) == Ok::<
            _,
            MermaidError,
        >((out, Some(joined(bodies)))),
    decreases bodies.len(),
{
    let open = p + seq![TokenView::<E>::CodeStart(target_label())];
    if bodies.len() == 0 {
        assert(open + texts::<E>(bodies) =~= open);
        assert(open.drop_last() =~= p);
    } else {
        lemma_gather(p, out, bodies.drop_last());
        assert((open + texts::<E>(bodies)).drop_last() =~= open + texts::<E>(bodies.drop_last()));
    }
}

/// A target block after `p` becomes exactly one raw HTML token holding the
/// block's own text, and leaves the rewriter outside again.
pub proof fn lemma_target_block<E>(p: Seq<TokenView<E>>, out: Seq<TokenView<E>>, bodies: Seq<Seq<char>>)
    requires
        outside_after(p, out),
    ensures
        outside_after(
            p + target_block::<E>(bodies),
            out.push(TokenView::<E>::Html(diagram_html(joined(bodies)))),
        ),
{
    lemma_gather(p, out, bodies);
    let inner = p + seq![TokenView::<E>::CodeStart(target_label())] + texts::<E>(bodies);
    assert((p + target_block::<E>(bodies)).drop_last() =~= inner);
}

/// Consecutive target blocks are replaced independently: each by one raw HTML
/// token holding its own text and nothing of the others.
pub proof fn lemma_target_blocks<E>(docs: Seq<Seq<Seq<char>>>)
    ensures
        rewritten(target_blocks::<E>(docs)) == Ok::<_, MermaidError>(diagrams::<E>(docs)),
    decreases docs.len(),
{
    if docs.len() == 0 {
        assert(diagrams::<E>(docs) =~= Seq::<TokenView<E>>::empty());
    } else {
        lemma_target_blocks::<E>(docs.drop_last());
        let prev = target_blocks::<E>(docs.drop_last());
        lemma_target_block(prev, diagrams::<E>(docs.drop_last()), docs.last());
        assert(diagrams::<E>(docs.drop_last()).push(
            TokenView::<E>::Html(diagram_html(joined(docs.last()))),
        ) =~= diagrams::<E>(docs));
    }
}

/// A target block closed by the end of a block with another label makes the
/// whole rewrite fail with `InternalConsistencyFault`, whatever follows.
pub proof fn lemma_mismatched_end_faults<E>(
    p: Seq<TokenView<E>>,
    out: Seq<TokenView<E>>,
    bodies: Seq<Seq<char>>,
    label: Seq<char>,
    rest: Seq<TokenView<E>>,
)
    requires
        outside_after(p, out),
        label != target_label(),
    ensures
        rewritten(
            p + seq![TokenView::<E>::CodeStart(target_label())] + texts::<E>(bodies) + seq![
                TokenView::<E>::CodeEnd(label),
            ] + rest,
        ) == Err::<Seq<TokenView<E>>, _>(MermaidError::InternalConsistencyFault),
{
    lemma_gather(p, out, bodies);
    let inner = p + seq![TokenView::<E>::CodeStart(target_label())] + texts::<E>(bodies);
    let closed = inner + seq![TokenView::<E>::CodeEnd(label)];
    assert(closed.drop_last() =~= inner);
    let all = closed + rest;
    assert(all.take(closed.len() as int) =~= closed);
    lemma_fault_persists(all, closed.len() as int);
}

/// Non-target content followed by a target block, for each pair of `docs`, one
/// after another.
pub open spec fn gapped_blocks<E>(docs: Seq<(Seq<TokenView<E>>, Seq<Seq<char>>)>) -> Seq<TokenView<E>>
    decreases docs.len(),
{
    if docs.len() == 0 {
        Seq::empty()
    } else {
        gapped_blocks(docs.drop_last()) + docs.last().0 + target_block(docs.last().1)
    }
}

/// What the rewriter emits for `gapped_blocks(docs)`: the non-target content as
/// it stands, each block replaced by one raw HTML token of its own text.
pub open spec fn gapped_diagrams<E>(docs: Seq<(Seq<TokenView<E>>, Seq<Seq<char>>)>) -> Seq<TokenView<E>>
    decreases docs.len(),
{
    if docs.len() == 0 {
        Seq::empty()
    } else {
        (gapped_diagrams(docs.drop_last()) + docs.last().0).push(
            TokenView::<E>::Html(diagram_html(joined(docs.last().1))),
        )
    }
}

/// A document of any number of target blocks, with any content that opens no
/// target block between them, is rewritten with each block replaced by one raw
/// HTML token holding that block's text alone, and all else kept in place.
pub proof fn lemma_gapped_blocks<E>(docs: Seq<(Seq<TokenView<E>>, Seq<Seq<char>>)>)
    requires
        forall|i: int| 0 <= i < docs.len() ==> no_target_start(#[trigger] docs[i].0),
    ensures
        outside_after(gapped_blocks(docs), gapped_diagrams(docs)),
        rewritten(gapped_blocks(docs)) == Ok::<_, MermaidError>(gapped_diagrams(docs)),
    decreases docs.len(),
{
    if docs.len() == 0 {
    } else {
        let prev = docs.drop_last();
        assert forall|i: int| 0 <= i < prev.len() implies no_target_start(#[trigger] prev[i].0) by {
            assert(prev[i] == docs[i]);
        }
        lemma_gapped_blocks(prev);
        let (gap, bodies) = docs.last();
        assert(no_target_start(docs[docs.len() - 1].0));
        lemma_passthrough(gapped_blocks(prev), gapped_diagrams(prev), gap);
        lemma_target_block(gapped_blocks(prev) + gap, gapped_diagrams(prev) + gap, bodies);
    }
}

/// A document in which pulldown-cmark finds no block labelled with the target
/// label is handed to the writer as it was parsed: by `add_mermaid`'s contract
/// its text is then the writer's text for a stream of the parsed shape.
pub proof fn lemma_untouched_document(content: Seq<char>)
    requires
        no_target_start(markdown_tokens(content, Extensions::spec_mdbook())),
    ensures
        rewritten(markdown_tokens(content, Extensions::spec_mdbook())) == Ok::<_, MermaidError>(
            markdown_tokens(content, Extensions::spec_mdbook()),
        ),
{
    lemma_untouched_without_target(markdown_tokens(content, Extensions::spec_mdbook()));
}

} // verus!
