//! The content of a task as styled lines.
use vstd::prelude::*;

use crate::content::{
    block_views, content_blocks, fence, law_text_has_a_line, law_unfenced_content_is_text,
    law_untagged_code_is_kept, render_text_lines, split_content_blocks, text_lines, BlockView,
    ContentBlock,
};
use crate::style::{append_lines, line_views, Line, SpanView};
use crate::syntax::{
    code_lines, render_code_block, shown_code, shown_code_line, SyntaxResources,
};
use crate::text::{find, lemma_find, lemma_split, lines, occurs_at, split};

verus! {

/// The lines of a block.
pub open spec fn block_lines(
    block: BlockView,
    resources: SyntaxResources,
    wrap_cols: int,
) -> Seq<Seq<SpanView>> {
    match block {
        BlockView::Text(text) => text_lines(split(text, '\n'), 0, wrap_cols, resources.ui_theme),
        BlockView::Code { language, code } => shown_code(resources, language, code),
    }
}

/// The lines of several blocks, one after another.
pub open spec fn blocks_lines(
    blocks: Seq<BlockView>,
    resources: SyntaxResources,
    wrap_cols: int,
) -> Seq<Seq<SpanView>>
    decreases blocks.len(),
{
    if blocks.len() == 0 {
        Seq::empty()
    } else {
        blocks_lines(blocks.drop_last(), resources, wrap_cols) + block_lines(
            blocks.last(),
            resources,
            wrap_cols,
        )
    }
}

/// The lines of a content; a blank one where there are none.
pub open spec fn content_lines(
    content: Seq<char>,
    resources: SyntaxResources,
    wrap_cols: int,
) -> Seq<Seq<SpanView>> {
    let lines = blocks_lines(content_blocks(content), resources, wrap_cols);
    if lines.len() == 0 {
        seq![Seq::<SpanView>::empty()]
    } else {
        lines
    }
}

/// The lines of a content: text wrapped, tables laid out, code highlighted.
pub fn render_content_lines(
    content: &str,
    syntax_resources: &SyntaxResources,
    wrap_cols: usize,
) -> (r: Vec<Line>)
    requires
        syntax_resources.wf(),
    ensures
        line_views(r@) == content_lines(content@, *syntax_resources, wrap_cols as int),
{
    let theme = syntax_resources.ui_theme;
    let blocks = split_content_blocks(content);
    let ghost views = content_blocks(content@);
    let mut rendered: Vec<Line> = Vec::new();
    let mut i: usize = 0;
    assert(views.take(0) =~= Seq::empty());
    assert(line_views(rendered@) =~= Seq::empty());
    while i < blocks.len()
        invariant
            i <= blocks@.len(),
            syntax_resources.wf(),
            theme == syntax_resources.ui_theme,
            block_views(blocks@) == views,
            line_views(rendered@) == blocks_lines(
                views.take(i as int),
                *syntax_resources,
                wrap_cols as int,
            ),
        decreases blocks@.len() - i,
    {
        assert(views[i as int] == blocks@[i as int]@);
        assert(views.take(i + 1).drop_last() =~= views.take(i as int));
        let more = match &blocks[i] {
            ContentBlock::Text(text) => render_text_lines(text.as_str(), wrap_cols, theme),
            ContentBlock::Code { language, code } => render_code_block(
                code.as_str(),
                language.as_str(),
                syntax_resources,
            ),
        };
        append_lines(&mut rendered, more);
        i = i + 1;
    }
    assert(views.len() == blocks@.len());
    assert(views.take(blocks@.len() as int) =~= views);
    if rendered.len() == 0 {
        assert(line_views(rendered@) =~= Seq::empty());
        rendered.push(Line::empty());
        assert(line_views(rendered@) =~= seq![Seq::<SpanView>::empty()]);
    }
    rendered
}

/// Content without a fence is shown as the lines of its text.
pub proof fn law_unfenced_content_is_shown_as_text(
    content: Seq<char>,
    resources: SyntaxResources,
    wrap_cols: int,
)
    requires
        content.len() > 0,
        forall|i: int| !occurs_at(content, fence(), i),
    ensures
        content_lines(content, resources, wrap_cols) == text_lines(
            split(content, '\n'),
            0,
            wrap_cols,
            resources.ui_theme,
        ),
{
    law_unfenced_content_is_text(content);
    lemma_split(content, '\n');
    law_text_has_a_line(split(content, '\n'), 0, wrap_cols, resources.ui_theme);
    let blocks = seq![BlockView::Text(content)];
    assert(blocks.drop_last() =~= Seq::empty());
    assert(blocks.last() == BlockView::Text(content));
    reveal_with_fuel(blocks_lines, 2);
    assert(blocks_lines(blocks, resources, wrap_cols) =~= block_lines(
        BlockView::Text(content),
        resources,
        wrap_cols,
    ));
}

/// Fenced code that names no language is shown line by line, all of it.
pub proof fn law_untagged_code_is_shown(
    code: Seq<char>,
    resources: SyntaxResources,
    wrap_cols: int,
)
    requires
        code.len() > 0,
        code[0] != '\n',
        code.last() != '\n',
        find(seq!['\n'] + code + seq!['\n'] + fence(), fence()) == Some(code.len() as int + 2),
    ensures
        ({
            let shown = content_lines(
                fence() + seq!['\n'] + code + seq!['\n'] + fence(),
                resources,
                wrap_cols,
            );
            &&& shown.len() == lines(code).len()
            &&& forall|i: int|
                0 <= i < shown.len() ==> #[trigger] shown[i] == shown_code_line(
                    resources,
                    Seq::empty(),
                    lines(code),
                    i,
                )
        }),
{
    law_untagged_code_is_kept(code);
    let block = BlockView::Code { language: Seq::empty(), code };
    let blocks = seq![block];
    assert(blocks.drop_last() =~= Seq::empty());
    reveal_with_fuel(blocks_lines, 2);
    assert(blocks_lines(blocks, resources, wrap_cols) =~= block_lines(block, resources, wrap_cols));
    assert(code_lines(code) == lines(code));
    lemma_split(code.drop_last(), '\n');
    assert(split(code, '\n').last().last() == code.last());
    assert(lines(code).len() > 0);
}

/// Blocks are shown one below the other: the lines of the first ones, and then
/// those of the others.
pub proof fn law_blocks_are_shown_in_turn(
    a: Seq<BlockView>,
    b: Seq<BlockView>,
    resources: SyntaxResources,
    wrap_cols: int,
)
    ensures
        blocks_lines(a + b, resources, wrap_cols) == blocks_lines(a, resources, wrap_cols)
            + blocks_lines(b, resources, wrap_cols),
        b.len() == 1 ==> blocks_lines(b, resources, wrap_cols) == match b[0] {
            BlockView::Text(text) => text_lines(
                split(text, '\n'),
                0,
                wrap_cols,
                resources.ui_theme,
            ),
            BlockView::Code { language, code } => shown_code(resources, language, code),
        },
    decreases b.len(),
{
    if b.len() == 0 {
        assert(a + b =~= a);
        assert(blocks_lines(a, resources, wrap_cols) + blocks_lines(b, resources, wrap_cols)
            =~= blocks_lines(a, resources, wrap_cols));
    } else {
        assert((a + b).drop_last() =~= a + b.drop_last());
        law_blocks_are_shown_in_turn(a, b.drop_last(), resources, wrap_cols);
        assert(blocks_lines(a + b, resources, wrap_cols) =~= blocks_lines(a, resources, wrap_cols)
            + blocks_lines(b, resources, wrap_cols));
        if b.len() == 1 {
            assert(b.drop_last() =~= Seq::empty());
            assert(blocks_lines(b.drop_last(), resources, wrap_cols) =~= Seq::empty());
            assert(b.last() == b[0]);
            assert(blocks_lines(b, resources, wrap_cols) =~= block_lines(
                b[0],
                resources,
                wrap_cols,
            ));
        }
    }
}

/// Content is never shown as nothing: where there is none, there is a blank line.
pub proof fn law_content_has_a_line(
    content: Seq<char>,
    resources: SyntaxResources,
    wrap_cols: int,
)
    ensures
        content_lines(content, resources, wrap_cols).len() > 0,
        content.len() == 0 ==> content_lines(content, resources, wrap_cols) == seq![
            Seq::<SpanView>::empty(),
        ],
{
    if content.len() == 0 {
        lemma_find(content, fence());
        assert(content_blocks(content) =~= Seq::empty());
        assert(blocks_lines(content_blocks(content), resources, wrap_cols).len() == 0);
    }
}

} // verus!
