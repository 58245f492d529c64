//! The content of a task: text, tables and fenced code.
use vstd::prelude::*;

use crate::forms::{is_label, labels_in, law_labels_round_trip};
use crate::inline::{inline_tokens, render_inline_lines_wrapped, wrapped};
use crate::style::{append_lines, line_views, Line, SpanView, UiTheme};
use crate::table::{
    lemma_table_at, parse_table, render_table, row_cells, rows_from, strs, table_at, table_lines,
};
use crate::text::{
    begins_with, chars_of, find, find_from, is_space, is_whitespace, join, join_texts,
    law_join_split, law_lines_round_trip, law_trim_takes_the_ends_alone, lemma_find, lemma_split,
    lemma_trimmed_by, lines, lines_of, occurs, occurs_at, repeat_char, repeated, split, split_text,
    text_of, texts, trim, trim_by, trimmed, trimmed_by, trimmed_end, trimmed_start, without_return,
    CharClass,
};

verus! {

/// A stretch of content as mathematics sees it.
pub enum BlockView {
    Text(Seq<char>),
    Code { language: Seq<char>, code: Seq<char> },
}

/// A stretch of content: text, or fenced code in a language.
#[derive(Debug, PartialEq, Eq)]
pub enum ContentBlock {
    Text(String),
    Code { language: String, code: String },
}

impl View for ContentBlock {
    type V = BlockView;

    open spec fn view(&self) -> BlockView {
        match self {
            ContentBlock::Text(text) => BlockView::Text(text@),
            ContentBlock::Code { language, code } => BlockView::Code {
                language: language@,
                code: code@,
            },
        }
    }
}

/// The views of several blocks.
pub open spec fn block_views(v: Seq<ContentBlock>) -> Seq<BlockView> {
    v.map_values(|b: ContentBlock| b@)
}

/// What opens and closes code.
pub open spec fn fence() -> Seq<char> {
    seq!['`', '`', '`']
}

/// Where the first whitespace stands.
pub open spec fn space_index(s: Seq<char>) -> Option<int>
    decreases s.len(),
{
    if s.len() == 0 {
        None
    } else if is_space(s[0]) {
        Some(0)
    } else {
        match space_index(s.drop_first()) {
            Some(i) => Some(i + 1),
            None => None,
        }
    }
}

/// The first word of `s`; nothing where there is none.
pub open spec fn first_word(s: Seq<char>) -> Seq<char> {
    let rest = trimmed_start(s, CharClass::Whitespace);
    match space_index(rest) {
        Some(i) => rest.take(i),
        None => rest,
    }
}

/// The language and the code of what stands between fences. The language is the
/// first word behind the opening fence; on a single line, the first of several
/// words. Where a line end follows the fence at once, no language is named and
/// all the lines are code; a single line is trimmed.
pub open spec fn fence_body(fenced: Seq<char>) -> (Seq<char>, Seq<char>) {
    if fenced.len() > 0 && fenced[0] == '\n' {
        let rest = fenced.drop_first();
        (
            Seq::empty(),
            if find(rest, seq!['\n']) is None {
                trimmed(rest)
            } else {
                trimmed_by(rest, CharClass::Only('\n'))
            },
        )
    } else {
        match find(fenced, seq!['\n']) {
            Some(n) => (
                first_word(fenced.take(n)),
                trimmed_by(fenced.skip(n + 1), CharClass::Only('\n')),
            ),
            None => match space_index(trimmed(fenced)) {
                Some(k) => (trimmed(fenced).take(k), trimmed(trimmed(fenced).skip(k + 1))),
                None => (Seq::empty(), trimmed(fenced)),
            },
        }
    }
}

/// A block of code.
pub open spec fn code_block(fenced: Seq<char>) -> BlockView {
    BlockView::Code { language: fence_body(fenced).0, code: fence_body(fenced).1 }
}

/// A block of text; none for no text.
pub open spec fn text_block(text: Seq<char>) -> Seq<BlockView> {
    if text.len() == 0 {
        Seq::empty()
    } else {
        seq![BlockView::Text(text)]
    }
}

/// The blocks of a content: what stands between two fences is code, and what
/// follows a fence that is never closed.
pub open spec fn content_blocks(s: Seq<char>) -> Seq<BlockView>
    decreases s.len(),
    via content_blocks_shrinks
{
    match find(s, fence()) {
        None => text_block(s),
        Some(opening) => {
            let after = s.skip(opening + 3);
            match find(after, fence()) {
                None => text_block(s.take(opening)).push(code_block(after)),
                Some(closing) => text_block(s.take(opening)).push(code_block(after.take(closing)))
                    + content_blocks(after.skip(closing + 3)),
            }
        },
    }
}

#[via_fn]
proof fn content_blocks_shrinks(s: Seq<char>) {
    lemma_find(s, fence());
    if let Some(opening) = find(s, fence()) {
        lemma_find(s.skip(opening + 3), fence());
    }
}

fn find_space(v: &Vec<char>, from: usize, to: usize) -> (r: Option<usize>)
    requires
        from <= to <= v@.len(),
    ensures
        match r {
            Some(i) => from <= i < to && space_index(v@.subrange(from as int, to as int)) == Some(
                i - from,
            ),
            None => space_index(v@.subrange(from as int, to as int)) is None,
        },
{
    let mut i: usize = from;
    while i < to
        invariant
            from <= i <= to <= v@.len(),
            space_index(v@.subrange(from as int, to as int)) == (match space_index(
                v@.subrange(i as int, to as int),
            ) {
                Some(k) => Some(k + (i - from)),
                None => None,
            }),
        decreases to - i,
    {
        let ghost rest = v@.subrange(i as int, to as int);
        assert(rest.drop_first() =~= v@.subrange(i + 1, to as int));
        assert(rest[0] == v@[i as int]);
        if is_whitespace(v[i]) {
            return Some(i);
        }
        i = i + 1;
    }
    None
}

fn first_word_of(s: &str) -> (r: String)
    ensures
        r@ == first_word(s@),
{
    let v = chars_of(s);
    let mut start: usize = 0;
    let len: usize = v.len();
    assert(v@.subrange(0, len as int) =~= s@);
    while start < len && is_whitespace(v[start])
        invariant
            start <= len,
            len == v@.len(),
            trimmed_start(s@, CharClass::Whitespace) == trimmed_start(
                v@.subrange(start as int, len as int),
                CharClass::Whitespace,
            ),
        decreases len - start,
    {
        assert(v@.subrange(start as int, len as int).drop_first() =~= v@.subrange(
            start + 1,
            len as int,
        ));
        start = start + 1;
    }
    let ghost rest = v@.subrange(start as int, len as int);
    assert(trimmed_start(rest, CharClass::Whitespace) == rest);
    match find_space(&v, start, len) {
        Some(end) => {
            assert(rest.take(end - start) =~= v@.subrange(start as int, end as int));
            text_of(&v, start, end)
        },
        None => text_of(&v, start, len),
    }
}

/// The language and the code of what stands between fences.
pub fn parse_fence_body(fenced: &str) -> (r: (String, String))
    ensures
        (r.0@, r.1@) == fence_body(fenced@),
{
    let v = chars_of(fenced);
    let newline: Vec<char> = vec!['\n'];
    assert(newline@ =~= seq!['\n']);
    if v.len() > 0 && v[0] == '\n' {
        let rest = text_of(&v, 1, v.len());
        let none = String::new();
        assert(rest@ =~= fenced@.drop_first());
        assert(v@.skip(1) =~= rest@);
        assert(none@ =~= Seq::empty());
        let code = if find_from(&v, &newline, 1).is_none() {
            trim(rest.as_str())
        } else {
            trim_by(rest.as_str(), CharClass::Only('\n'))
        };
        return (none, code);
    }
    assert(v@.skip(0) =~= fenced@);
    match find_from(&v, &newline, 0) {
        Some(n) => {
            let first_line = text_of(&v, 0, n);
            let rest = text_of(&v, n + 1, v.len());
            assert(first_line@ =~= fenced@.take(n as int));
            assert(rest@ =~= fenced@.skip(n + 1));
            (first_word_of(first_line.as_str()), trim_by(rest.as_str(), CharClass::Only('\n')))
        },
        None => {
            let line = trim(fenced);
            let w = chars_of(line.as_str());
            assert(w@.subrange(0, w@.len() as int) =~= line@);
            match find_space(&w, 0, w.len()) {
                Some(k) => {
                    let language = text_of(&w, 0, k);
                    let rest = text_of(&w, k + 1, w.len());
                    assert(language@ =~= line@.take(k as int));
                    assert(rest@ =~= line@.skip(k + 1));
                    (language, trim(rest.as_str()))
                },
                None => {
                    let none = String::new();
                    assert(none@ =~= Seq::empty());
                    (none, line)
                },
            }
        },
    }
}

fn push_block(blocks: &mut Vec<ContentBlock>, block: ContentBlock)
    ensures
        block_views(final(blocks)@) == block_views(old(blocks)@).push(block@),
{
    let ghost before = block_views(blocks@);
    blocks.push(block);
    assert(block_views(blocks@) =~= before.push(block@));
}

fn push_text(blocks: &mut Vec<ContentBlock>, v: &Vec<char>, from: usize, to: usize)
    requires
        from <= to <= v@.len(),
    ensures
        block_views(final(blocks)@) == block_views(old(blocks)@) + text_block(
            v@.subrange(from as int, to as int),
        ),
{
    if from < to {
        let text = text_of(v, from, to);
        push_block(blocks, ContentBlock::Text(text));
    }
    assert(block_views(blocks@) =~= block_views(old(blocks)@) + text_block(
        v@.subrange(from as int, to as int),
    ));
}

fn push_code(blocks: &mut Vec<ContentBlock>, v: &Vec<char>, from: usize, to: usize)
    requires
        from <= to <= v@.len(),
    ensures
        block_views(final(blocks)@) == block_views(old(blocks)@).push(
            code_block(v@.subrange(from as int, to as int)),
        ),
{
    let fenced = text_of(v, from, to);
    let (language, code) = parse_fence_body(fenced.as_str());
    push_block(blocks, ContentBlock::Code { language, code });
}

/// The blocks of a content.
pub fn split_content_blocks(content: &str) -> (r: Vec<ContentBlock>)
    ensures
        block_views(r@) == content_blocks(content@),
{
    let v = chars_of(content);
    let mark: Vec<char> = vec!['`', '`', '`'];
    assert(mark@ =~= fence());
    let len: usize = v.len();
    let mut blocks: Vec<ContentBlock> = Vec::new();
    let mut at: usize = 0;
    assert(v@.skip(0) =~= v@);
    assert(block_views(blocks@) + content_blocks(v@) =~= content_blocks(v@));
    loop
        invariant
            v@ == content@,
            mark@ == fence(),
            len == v@.len(),
            at <= len,
            block_views(blocks@) + content_blocks(v@.skip(at as int)) == content_blocks(content@),
        decreases len - at,
    {
        let ghost rest = v@.skip(at as int);
        let ghost before = block_views(blocks@);
        match find_from(&v, &mark, at) {
            None => {
                assert(v@.subrange(at as int, len as int) =~= rest);
                push_text(&mut blocks, &v, at, len);
                return blocks;
            },
            Some(opening) => {
                let start: usize = opening + 3;
                let ghost after = rest.skip(opening - at + 3);
                assert(after =~= v@.skip(start as int));
                assert(rest.take(opening - at) =~= v@.subrange(at as int, opening as int));
                push_text(&mut blocks, &v, at, opening);
                match find_from(&v, &mark, start) {
                    None => {
                        assert(v@.subrange(start as int, len as int) =~= after);
                        push_code(&mut blocks, &v, start, len);
                        assert(block_views(blocks@) =~= before + text_block(
                            rest.take(opening - at),
                        ).push(code_block(after)));
                        return blocks;
                    },
                    Some(closing) => {
                        let next: usize = closing + 3;
                        assert(after.take(closing - start) =~= v@.subrange(
                            start as int,
                            closing as int,
                        ));
                        assert(after.skip(closing - start + 3) =~= v@.skip(next as int));
                        push_code(&mut blocks, &v, start, closing);
                        assert(block_views(blocks@) + content_blocks(v@.skip(next as int))
                            =~= before + (text_block(rest.take(opening - at)).push(
                            code_block(after.take(closing - start)),
                        ) + content_blocks(v@.skip(next as int))));
                        at = next;
                    },
                }
            },
        }
    }
}

/// Content without a fence is text as it stands.
pub proof fn law_unfenced_content_is_text(s: Seq<char>)
    requires
        s.len() > 0,
        forall|i: int| !occurs_at(s, fence(), i),
    ensures
        content_blocks(s) == seq![BlockView::Text(s)],
{
    lemma_find(s, fence());
}

/// What stands between the first two fences is code, what stands before them is
/// text, and what follows is read on its own.
pub proof fn law_fenced_content_is_code(before: Seq<char>, body: Seq<char>, after: Seq<char>)
    requires
        find(before + fence(), fence()) == Some(before.len() as int),
        find(body + fence(), fence()) == Some(body.len() as int),
    ensures
        content_blocks(before + fence() + body + fence() + after) == text_block(before).push(
            code_block(body),
        ) + content_blocks(after),
{
    let s = before + fence() + body + fence() + after;
    lemma_find_extended(before + fence(), body + fence() + after, fence());
    assert((before + fence()) + (body + fence() + after) =~= s);
    assert(s.take(before.len() as int) =~= before);
    let rest = s.skip(before.len() as int + 3);
    lemma_find_extended(body + fence(), after, fence());
    assert((body + fence()) + after =~= rest);
    assert(rest.take(body.len() as int) =~= body);
    assert(rest.skip(body.len() as int + 3) =~= after);
}

/// Fenced code that names no language keeps all its lines.
pub proof fn law_untagged_code_is_kept(code: Seq<char>)
    requires
        code.len() > 0,
        code[0] != '\n',
        code.last() != '\n',
        find(seq!['\n'] + code + seq!['\n'] + fence(), fence()) == Some(code.len() as int + 2),
    ensures
        content_blocks(fence() + seq!['\n'] + code + seq!['\n'] + fence()) == seq![
            BlockView::Code { language: Seq::empty(), code },
        ],
{
    let none = Seq::<char>::empty();
    let body = seq!['\n'] + code + seq!['\n'];
    let class = CharClass::Only('\n');
    assert(none + fence() =~= fence());
    assert(fence().subrange(0, 3) =~= fence());
    assert(find(fence(), fence()) == Some(0int));
    law_fenced_content_is_code(none, body, none);
    assert(none + fence() + body + fence() + none =~= fence() + seq!['\n'] + code + seq!['\n']
        + fence());
    let inside = code.push('\n');
    assert(body.drop_first() =~= inside);
    lemma_find(inside, seq!['\n']);
    assert(inside.subrange(code.len() as int, code.len() as int + 1) =~= seq!['\n']);
    assert(occurs_at(inside, seq!['\n'], code.len() as int));
    assert(trimmed_start(inside, class) == inside);
    assert(inside.drop_last() =~= code);
    assert(trimmed_end(code, class) == code);
    assert(trimmed_by(inside, class) == code);
    lemma_find(none, fence());
    assert(content_blocks(none) =~= Seq::empty());
    assert(text_block(none).push(code_block(body)) + content_blocks(none) =~= seq![
        BlockView::Code { language: none, code },
    ]);
}

/// What is found first in a text is found first in a longer one.
pub proof fn lemma_find_extended(s: Seq<char>, more: Seq<char>, pat: Seq<char>)
    requires
        find(s, pat) is Some,
    ensures
        find(s + more, pat) == find(s, pat),
{
    let i = find(s, pat)->0;
    lemma_find(s, pat);
    lemma_find(s + more, pat);
    assert((s + more).subrange(i, i + pat.len()) =~= s.subrange(i, i + pat.len()));
    assert(occurs_at(s + more, pat, i));
    let j = find(s + more, pat)->0;
    assert(j <= i);
    if j < i {
        assert((s + more).subrange(j, j + pat.len()) =~= s.subrange(j, j + pat.len()));
        assert(occurs_at(s, pat, j));
    }
}

/// The lines of text from line `index` on: tables as tables, other lines wrapped.
pub open spec fn text_lines(
    text: Seq<Seq<char>>,
    index: int,
    wrap_cols: int,
    theme: UiTheme,
) -> Seq<Seq<SpanView>>
    decreases text.len() - index,
    via text_lines_shrinks
{
    if index >= text.len() {
        Seq::empty()
    } else {
        match table_at(text, index) {
            Some((table, next)) => table_lines(table, theme) + text_lines(
                text,
                next,
                wrap_cols,
                theme,
            ),
            None => wrapped(inline_tokens(text[index], theme), wrap_cols) + text_lines(
                text,
                index + 1,
                wrap_cols,
                theme,
            ),
        }
    }
}

#[via_fn]
proof fn text_lines_shrinks(text: Seq<Seq<char>>, index: int, wrap_cols: int, theme: UiTheme) {
    lemma_table_at(text, index);
}

/// Every text is shown on at least a line.
pub proof fn law_text_has_a_line(text: Seq<Seq<char>>, index: int, wrap_cols: int, theme: UiTheme)
    requires
        index < text.len(),
    ensures
        text_lines(text, index, wrap_cols, theme).len() > 0,
{
    if let Some((table, next)) = table_at(text, index) {
        assert(table.len() > 0);
        assert(table_lines(table, theme).len() > 0);
    } else {
        assert(wrapped(inline_tokens(text[index], theme), wrap_cols).len() > 0);
    }
}

fn str_refs(v: &Vec<String>) -> (r: Vec<&str>)
    ensures
        strs(r@) == texts(v@),
{
    let mut out: Vec<&str> = Vec::new();
    let mut i: usize = 0;
    while i < v.len()
        invariant
            i <= v@.len(),
            out@.len() == i,
            forall|k: int| 0 <= k < i ==> (#[trigger] out@[k])@ == v@[k]@,
        decreases v@.len() - i,
    {
        out.push(v[i].as_str());
        i = i + 1;
    }
    assert(strs(out@) =~= texts(v@));
    out
}

/// The lines of a text: tables as tables, other lines wrapped.
pub fn render_text_lines(text: &str, wrap_cols: usize, theme: UiTheme) -> (r: Vec<Line>)
    ensures
        line_views(r@) == text_lines(split(text@, '\n'), 0, wrap_cols as int, theme),
{
    let parts = split_text(text, '\n');
    let lines = str_refs(&parts);
    let ghost all = split(text@, '\n');
    let len: usize = lines.len();
    assert(strs(lines@).len() == len);
    let mut rendered: Vec<Line> = Vec::new();
    let mut index: usize = 0;
    assert(line_views(rendered@) + text_lines(all, 0, wrap_cols as int, theme) =~= text_lines(
        all,
        0,
        wrap_cols as int,
        theme,
    ));
    while index < len
        invariant
            index <= len,
            len == lines@.len(),
            strs(lines@) == all,
            all == split(text@, '\n'),
            line_views(rendered@) + text_lines(all, index as int, wrap_cols as int, theme)
                == text_lines(all, 0, wrap_cols as int, theme),
        decreases len - index,
    {
        let ghost before = line_views(rendered@);
        match parse_table(lines.as_slice(), index) {
            Some((table, next)) => {
                let more = render_table(table, theme);
                let ghost added = line_views(more@);
                append_lines(&mut rendered, more);
                assert((before + added) + text_lines(all, next as int, wrap_cols as int, theme)
                    =~= before + (added + text_lines(all, next as int, wrap_cols as int, theme)));
                index = next;
            },
            None => {
                assert(all[index as int] == lines@[index as int]@);
                let more = render_inline_lines_wrapped(lines[index], wrap_cols, theme);
                let ghost added = line_views(more@);
                append_lines(&mut rendered, more);
                assert((before + added) + text_lines(all, index + 1, wrap_cols as int, theme)
                    =~= before + (added + text_lines(all, index + 1, wrap_cols as int, theme)));
                index = index + 1;
            },
        }
    }
    assert(all.len() == len);
    assert(line_views(rendered@) + text_lines(all, index as int, wrap_cols as int, theme)
        =~= line_views(rendered@));
    rendered
}

/// `s` without its pairs of stars.
pub open spec fn without_bold(s: Seq<char>) -> Seq<char>
    decreases s.len(),
{
    if s.len() == 0 {
        Seq::empty()
    } else if begins_with(s, seq!['*', '*']) {
        without_bold(s.skip(2))
    } else {
        seq![s[0]] + without_bold(s.drop_first())
    }
}

/// `s` without underscores and backticks.
pub open spec fn without_marks(s: Seq<char>) -> Seq<char>
    decreases s.len(),
{
    if s.len() == 0 {
        Seq::empty()
    } else if s.last() == '_' || s.last() == '`' {
        without_marks(s.drop_last())
    } else {
        without_marks(s.drop_last()).push(s.last())
    }
}

/// The lines that an excerpt shows, trimmed: neither blank ones nor fences.
pub open spec fn excerpt_lines(all: Seq<Seq<char>>) -> Seq<Seq<char>>
    decreases all.len(),
{
    if all.len() == 0 {
        Seq::empty()
    } else {
        let before = excerpt_lines(all.drop_last());
        let line = trimmed(all.last());
        if line.len() > 0 && !begins_with(line, fence()) {
            before.push(line)
        } else {
            before
        }
    }
}

/// Content on one line, without marks.
pub open spec fn cleaned(content: Seq<char>) -> Seq<char> {
    without_marks(without_bold(join(excerpt_lines(lines(content)), seq![' '])))
}

/// The beginning of a content, on one line and without marks: at most
/// `max_chars` characters, with dots where more follows.
pub open spec fn excerpt(content: Seq<char>, max_chars: int) -> Seq<char> {
    let text = cleaned(content);
    if text.len() == 0 {
        seq!['-']
    } else if text.len() <= max_chars {
        text
    } else {
        text.take(
            if max_chars >= 3 {
                max_chars - 3
            } else {
                0
            },
        ) + repeated('.', 3)
    }
}

fn remove_bold(s: &str) -> (r: String)
    ensures
        r@ == without_bold(s@),
{
    let v = chars_of(s);
    let mark: Vec<char> = vec!['*', '*'];
    assert(mark@ =~= seq!['*', '*']);
    let len: usize = v.len();
    let mut out = String::new();
    let mut i: usize = 0;
    assert(v@.skip(0) =~= s@);
    assert(out@ + without_bold(s@) =~= without_bold(s@));
    while i < len
        invariant
            i <= len,
            len == v@.len(),
            mark@ == seq!['*', '*'],
            out@ + without_bold(v@.skip(i as int)) == without_bold(s@),
        decreases len - i,
    {
        let ghost rest = v@.skip(i as int);
        let ghost before = out@;
        if occurs(&v, &mark, i) {
            assert(rest.subrange(0, 2) =~= v@.subrange(i as int, i + 2));
            assert(rest.skip(2) =~= v@.skip(i + 2));
            i = i + 2;
        } else {
            out.push(v[i]);
            assert(rest.drop_first() =~= v@.skip(i + 1));
            assert(before + (seq![rest[0]] + without_bold(v@.skip(i + 1))) =~= out@ + without_bold(
                v@.skip(i + 1),
            ));
            i = i + 1;
        }
    }
    assert(out@ + without_bold(v@.skip(i as int)) =~= out@);
    out
}

fn remove_marks(s: &str) -> (r: String)
    ensures
        r@ == without_marks(s@),
{
    let mut out = String::new();
    assert(s@.take(0) =~= Seq::empty());
    assert(out@ =~= Seq::empty());
    for ch in it: s.chars()
        invariant
            it.seq() == s@,
            out@ == without_marks(s@.take(it.index())),
    {
        assert(s@.take(it.index() + 1).drop_last() =~= s@.take(it.index()));
        if ch != '_' && ch != '`' {
            out.push(ch);
        }
    }
    assert(s@.take(s@.len() as int) =~= s@);
    out
}

fn shown_excerpt_lines(content: &str) -> (r: Vec<String>)
    ensures
        texts(r@) == excerpt_lines(lines(content@)),
{
    let parts = lines_of(content);
    let mark: Vec<char> = vec!['`', '`', '`'];
    assert(mark@ =~= fence());
    let ghost all = lines(content@);
    let mut kept: Vec<String> = Vec::new();
    let mut i: usize = 0;
    assert(all.take(0) =~= Seq::empty());
    assert(texts(kept@) =~= Seq::empty());
    while i < parts.len()
        invariant
            i <= parts@.len(),
            mark@ == fence(),
            texts(parts@) == all,
            texts(kept@) == excerpt_lines(all.take(i as int)),
        decreases parts@.len() - i,
    {
        assert(all[i as int] == parts@[i as int]@);
        assert(all.take(i + 1).drop_last() =~= all.take(i as int));
        let line = trim(parts[i].as_str());
        let v = chars_of(line.as_str());
        assert(v@.skip(0) =~= v@);
        if v.len() > 0 && !occurs(&v, &mark, 0) {
            let ghost before = texts(kept@);
            let ghost text = line@;
            kept.push(line);
            assert(texts(kept@) =~= before.push(text));
        }
        i = i + 1;
    }
    assert(all.len() == parts@.len());
    assert(all.take(parts@.len() as int) =~= all);
    kept
}

/// The beginning of a content, on one line and without marks.
pub fn content_excerpt(content: &str, max_chars: usize) -> (r: String)
    ensures
        r@ == excerpt(content@, max_chars as int),
{
    let kept = shown_excerpt_lines(content);
    let mut blank = String::new();
    blank.push(' ');
    assert(blank@ =~= seq![' ']);
    let joined = join_texts(kept.as_slice(), blank.as_str());
    let plain = remove_bold(joined.as_str());
    let text = remove_marks(plain.as_str());
    let v = chars_of(text.as_str());
    let len: usize = v.len();
    if len == 0 {
        let mut dash = String::new();
        dash.push('-');
        assert(dash@ =~= seq!['-']);
        return dash;
    }
    if len <= max_chars {
        return text;
    }
    let keep: usize = if max_chars >= 3 {
        max_chars - 3
    } else {
        0
    };
    let mut out = text_of(&v, 0, keep);
    assert(out@ =~= text@.take(keep as int));
    let dots = repeat_char('.', 3);
    out.append(dots.as_str());
    out
}

/// An excerpt is never empty, and no longer than asked for, dots aside.
pub proof fn law_excerpt_len(content: Seq<char>, max_chars: int)
    requires
        max_chars >= 0,
    ensures
        0 < excerpt(content, max_chars).len(),
        excerpt(content, max_chars).len() <= max_chars || excerpt(content, max_chars).len() <= 3,
{
}

proof fn lemma_without_marks(s: Seq<char>)
    ensures
        !without_marks(s).contains('_'),
        !without_marks(s).contains('`'),
    decreases s.len(),
{
    if s.len() > 0 {
        let before = without_marks(s.drop_last());
        lemma_without_marks(s.drop_last());
        assert forall|c: char| c == '_' || c == '`' implies !#[trigger] without_marks(s).contains(
            c,
        ) by {
            if without_marks(s).contains(c) {
                let i = choose|i: int| 0 <= i < without_marks(s).len() && without_marks(s)[i] == c;
                if i < before.len() {
                    assert(before[i] == c);
                    assert(before.contains(c));
                }
            }
        }
    }
}

/// An excerpt shows neither underscores nor backticks.
pub proof fn law_excerpt_has_no_marks(content: Seq<char>, max_chars: int)
    requires
        max_chars >= 0,
    ensures
        !excerpt(content, max_chars).contains('_'),
        !excerpt(content, max_chars).contains('`'),
{
    let text = cleaned(content);
    lemma_without_marks(without_bold(join(excerpt_lines(lines(content)), seq![' '])));
    let shown = excerpt(content, max_chars);
    assert forall|i: int| 0 <= i < shown.len() implies shown[i] != '_' && shown[i] != '`' by {
        if text.len() > 0 && shown[i] != '.' {
            assert(shown[i] == text[i]);
            assert(text.contains(text[i]));
        }
    }
}

spec fn lacks(s: Seq<char>, c: char) -> bool {
    forall|i: int| 0 <= i < s.len() ==> s[i] != c
}

/// How much room lines take, each with what separates it from the next.
spec fn weight(parts: Seq<Seq<char>>) -> int
    decreases parts.len(),
{
    if parts.len() == 0 {
        0
    } else {
        weight(parts.drop_last()) + parts.last().len() + 1
    }
}

proof fn lemma_join(parts: Seq<Seq<char>>, sep: char)
    ensures
        parts.len() == 0 ==> join(parts, seq![sep]).len() == 0,
        parts.len() > 0 ==> join(parts, seq![sep]).len() + 1 == weight(parts),
        forall|c: char|
            c != sep && (forall|i: int| 0 <= i < parts.len() ==> lacks(#[trigger] parts[i], c))
                ==> #[trigger] lacks(join(parts, seq![sep]), c),
    decreases parts.len(),
{
    if parts.len() > 0 {
        let front = parts.drop_last();
        lemma_join(front, sep);
        assert(front.len() == 0 ==> weight(front) == 0);
        assert forall|c: char|
            c != sep && (forall|i: int| 0 <= i < parts.len() ==> lacks(
                #[trigger] parts[i],
                c,
            )) implies #[trigger] lacks(join(parts, seq![sep]), c) by {
            assert forall|i: int| 0 <= i < front.len() implies lacks(#[trigger] front[i], c) by {
                assert(lacks(parts[i], c));
            }
            assert(lacks(join(front, seq![sep]), c));
            assert(lacks(parts[parts.len() - 1], c));
        }
    }
}

proof fn lemma_weight(a: Seq<Seq<char>>, b: Seq<Seq<char>>)
    requires
        a.len() <= b.len(),
        forall|i: int| 0 <= i < a.len() ==> (#[trigger] a[i]).len() <= b[i].len(),
    ensures
        weight(a) <= weight(b),
    decreases b.len(),
{
    if a.len() < b.len() {
        lemma_weight(a, b.drop_last());
    } else if b.len() > 0 {
        assert(a.last().len() <= b.last().len());
        lemma_weight(a.drop_last(), b.drop_last());
    }
}

proof fn lemma_excerpt_lines(all: Seq<Seq<char>>, c: char)
    requires
        forall|i: int| 0 <= i < all.len() ==> lacks(#[trigger] all[i], c),
    ensures
        weight(excerpt_lines(all)) <= weight(all),
        forall|i: int|
            0 <= i < excerpt_lines(all).len() ==> lacks(#[trigger] excerpt_lines(all)[i], c),
    decreases all.len(),
{
    if all.len() > 0 {
        let front = all.drop_last();
        assert forall|i: int| 0 <= i < front.len() implies lacks(#[trigger] front[i], c) by {
            assert(lacks(all[i], c));
        }
        lemma_excerpt_lines(front, c);
        let before = excerpt_lines(front);
        let line = trimmed(all.last());
        assert(lacks(all[all.len() - 1], c));
        lemma_trimmed_by(all.last(), CharClass::Whitespace);
        assert(before.push(line).drop_last() =~= before);
        assert(weight(before.push(line)) == weight(before) + line.len() + 1);
    }
}

proof fn lemma_lines(s: Seq<char>)
    ensures
        weight(lines(s)) <= s.len() + 1,
        forall|i: int| 0 <= i < lines(s).len() ==> lacks(#[trigger] lines(s)[i], '\n'),
{
    let parts = split(s, '\n');
    lemma_split(s, '\n');
    law_join_split(s, '\n');
    lemma_join(parts, '\n');
    lemma_weight(lines(s), parts);
    assert forall|i: int| 0 <= i < lines(s).len() implies lacks(#[trigger] lines(s)[i], '\n') by {
        assert(!parts[i].contains('\n'));
        assert forall|k: int| 0 <= k < lines(s)[i].len() implies lines(s)[i][k] != '\n' by {
            assert(lines(s)[i][k] == parts[i][k]);
        }
    }
}

proof fn lemma_without_bold(s: Seq<char>, c: char)
    ensures
        without_bold(s).len() <= s.len(),
        lacks(s, c) ==> lacks(without_bold(s), c),
    decreases s.len(),
{
    if s.len() > 0 {
        if begins_with(s, seq!['*', '*']) {
            lemma_without_bold(s.skip(2), c);
        } else {
            lemma_without_bold(s.drop_first(), c);
        }
    }
}

proof fn lemma_without_marks_shortens(s: Seq<char>, c: char)
    ensures
        without_marks(s).len() <= s.len(),
        lacks(s, c) ==> lacks(without_marks(s), c),
    decreases s.len(),
{
    if s.len() > 0 {
        lemma_without_marks_shortens(s.drop_last(), c);
    }
}

proof fn lemma_cleaned(content: Seq<char>)
    ensures
        cleaned(content).len() <= content.len(),
        lacks(cleaned(content), '\n'),
{
    let kept = excerpt_lines(lines(content));
    let joined = join(kept, seq![' ']);
    lemma_lines(content);
    lemma_excerpt_lines(lines(content), '\n');
    lemma_join(kept, ' ');
    assert(lacks(joined, '\n'));
    lemma_without_bold(joined, '\n');
    lemma_without_marks_shortens(without_bold(joined), '\n');
}

proof fn lemma_nothing_to_show(all: Seq<Seq<char>>)
    requires
        forall|i: int|
            0 <= i < all.len() ==> trimmed(#[trigger] all[i]).len() == 0 || begins_with(
                trimmed(all[i]),
                fence(),
            ),
    ensures
        excerpt_lines(all) == Seq::<Seq<char>>::empty(),
    decreases all.len(),
{
    if all.len() > 0 {
        let front = all.drop_last();
        assert forall|i: int| 0 <= i < front.len() implies trimmed(#[trigger] front[i]).len() == 0
            || begins_with(trimmed(front[i]), fence()) by {
            assert(front[i] == all[i]);
        }
        lemma_nothing_to_show(front);
        assert(all[all.len() - 1] == all.last());
    }
}

/// An excerpt is the excerpt of all the content where that fits, and else its
/// beginning with dots behind it, which fits. `all` is room for the whole.
pub proof fn law_excerpt_is_a_beginning(content: Seq<char>, max_chars: int, all: int)
    requires
        max_chars >= 3,
        all >= content.len(),
    ensures
        ({
            let shown = excerpt(content, max_chars);
            let full = excerpt(content, all);
            &&& full.len() <= max_chars ==> shown == full
            &&& full.len() > max_chars ==> shown == full.take(max_chars - 3) + repeated('.', 3)
            &&& 1 <= shown.len() <= max_chars
        }),
{
    lemma_cleaned(content);
}

/// An excerpt is on one line.
pub proof fn law_excerpt_is_one_line(content: Seq<char>, max_chars: int)
    requires
        max_chars >= 0,
    ensures
        !excerpt(content, max_chars).contains('\n'),
{
    lemma_cleaned(content);
    let text = cleaned(content);
    let shown = excerpt(content, max_chars);
    assert forall|i: int| 0 <= i < shown.len() implies shown[i] != '\n' by {
        if text.len() > 0 && shown[i] != '.' {
            assert(shown[i] == text[i]);
        }
    }
}

/// The excerpt of a content of blank lines and fences alone is a dash.
pub proof fn law_excerpt_of_nothing(content: Seq<char>, max_chars: int)
    requires
        forall|i: int|
            0 <= i < lines(content).len() ==> trimmed(#[trigger] lines(content)[i]).len() == 0
                || begins_with(trimmed(lines(content)[i]), fence()),
    ensures
        excerpt(content, max_chars) == seq!['-'],
{
    lemma_nothing_to_show(lines(content));
    let joined = join(excerpt_lines(lines(content)), seq![' ']);
    lemma_join(excerpt_lines(lines(content)), ' ');
    lemma_without_bold(joined, '-');
    lemma_without_marks_shortens(without_bold(joined), '-');
}

/// Labels with commas between them; a dash for none.
pub open spec fn labels_text(labels: Seq<Seq<char>>) -> Seq<char> {
    if labels.len() == 0 {
        "-"@
    } else {
        join(labels, ", "@)
    }
}

/// Labels with commas between them; a dash for none.
pub fn format_labels(labels: &[String]) -> (r: String)
    ensures
        r@ == labels_text(texts(labels@)),
{
    if labels.len() == 0 {
        "-".to_owned()
    } else {
        join_texts(labels, ", ")
    }
}

proof fn lemma_rows_behind(text: Seq<Seq<char>>, by: int, from: int)
    requires
        0 <= by <= from,
        by <= text.len(),
    ensures
        rows_from(text, from) == rows_from(text.skip(by), from - by),
    decreases text.len() - from,
{
    if from < text.len() && row_cells(text[from]) is Some {
        lemma_rows_behind(text, by, from + 1);
    }
}

proof fn lemma_text_lines_behind(
    text: Seq<Seq<char>>,
    by: int,
    index: int,
    wrap_cols: int,
    theme: UiTheme,
)
    requires
        0 <= by <= index,
        by <= text.len(),
    ensures
        text_lines(text, index, wrap_cols, theme) == text_lines(
            text.skip(by),
            index - by,
            wrap_cols,
            theme,
        ),
    decreases text.len() - index,
{
    if index < text.len() {
        lemma_rows_behind(text, by, index + 2);
        lemma_table_at(text, index);
        match table_at(text, index) {
            Some((table, next)) => {
                assert(table_at(text.skip(by), index - by) == Some((table, next - by)));
                lemma_text_lines_behind(text, by, next, wrap_cols, theme);
            },
            None => {
                assert(table_at(text.skip(by), index - by) is None);
                lemma_text_lines_behind(text, by, index + 1, wrap_cols, theme);
            },
        }
    }
}

/// Text is shown in turn: a line without a bar wrapped, and then what follows it;
/// a table with its rows, and then what follows that.
pub proof fn law_text_is_shown_in_turn(
    text: Seq<Seq<char>>,
    wrap_cols: int,
    theme: UiTheme,
)
    requires
        text.len() > 0,
    ensures
        !text[0].contains('|') ==> text_lines(text, 0, wrap_cols, theme) == wrapped(
            inline_tokens(text[0], theme),
            wrap_cols,
        ) + text_lines(text.skip(1), 0, wrap_cols, theme),
        table_at(text, 0) matches Some((table, next)) ==> text_lines(text, 0, wrap_cols, theme)
            == table_lines(table, theme) + text_lines(text.skip(next), 0, wrap_cols, theme),
{
    lemma_table_at(text, 0);
    if !text[0].contains('|') {
        let from = law_trim_takes_the_ends_alone(text[0], CharClass::Whitespace);
        let kept = trimmed(text[0]);
        assert(!kept.contains('|')) by {
            if kept.contains('|') {
                let i = choose|i: int| 0 <= i < kept.len() && kept[i] == '|';
                assert(text[0][from + i] == '|');
            }
        }
        assert(row_cells(text[0]) is None);
        lemma_text_lines_behind(text, 1, 1, wrap_cols, theme);
    } else if let Some((table, next)) = table_at(text, 0) {
        lemma_text_lines_behind(text, next, next, wrap_cols, theme);
    }
}

proof fn lemma_no_space(s: Seq<char>)
    requires
        forall|i: int| 0 <= i < s.len() ==> !is_space(#[trigger] s[i]),
    ensures
        space_index(s) is None,
    decreases s.len(),
{
    if s.len() > 0 {
        assert(!is_space(s[0]));
        assert forall|i: int| 0 <= i < s.drop_first().len() implies !is_space(
            #[trigger] s.drop_first()[i],
        ) by {
            assert(!is_space(s[i + 1]));
        }
        lemma_no_space(s.drop_first());
    }
}

proof fn lemma_first_space(word: Seq<char>, rest: Seq<char>)
    requires
        forall|i: int| 0 <= i < word.len() ==> !is_space(#[trigger] word[i]),
        rest.len() > 0,
        is_space(rest[0]),
    ensures
        space_index(word + rest) == Some(word.len() as int),
    decreases word.len(),
{
    if word.len() > 0 {
        assert(!is_space(word[0]));
        assert forall|i: int| 0 <= i < word.drop_first().len() implies !is_space(
            #[trigger] word.drop_first()[i],
        ) by {
            assert(!is_space(word[i + 1]));
        }
        lemma_first_space(word.drop_first(), rest);
        assert((word + rest).drop_first() =~= word.drop_first() + rest);
    } else {
        assert(word + rest =~= rest);
    }
}

proof fn lemma_no_line_end(s: Seq<char>)
    requires
        !s.contains('\n'),
    ensures
        find(s, seq!['\n']) is None,
        find(s.push('\n'), seq!['\n']) == Some(s.len() as int),
{
    let end = seq!['\n'];
    lemma_find(s, end);
    assert forall|j: int| !occurs_at(s, end, j) by {
        if occurs_at(s, end, j) {
            assert(s.subrange(j, j + 1)[0] == s[j]);
            assert(s.contains(s[j]));
        }
    }
    let longer = s.push('\n');
    lemma_find(longer, end);
    assert(longer.subrange(s.len() as int, s.len() as int + 1) =~= end);
    assert(occurs_at(longer, end, s.len() as int));
    let j = find(longer, end)->0;
    if j < s.len() {
        assert(longer.subrange(j, j + 1)[0] == s[j]);
        assert(s.contains(s[j]));
    }
}

proof fn lemma_word(word: Seq<char>)
    requires
        word.len() > 0,
        forall|i: int| 0 <= i < word.len() ==> !is_space(#[trigger] word[i]),
    ensures
        !word.contains('\n'),
        word[0] != '\n',
        space_index(word) is None,
        trimmed(word) == word,
        first_word(word) == word,
{
    if word.contains('\n') {
        let i = choose|i: int| 0 <= i < word.len() && word[i] == '\n';
        assert(!is_space(word[i]));
    }
    assert(!is_space(word[0]) && !is_space(word[word.len() - 1]));
    assert(word.contains(word[0]));
    lemma_no_space(word);
    lemma_ends_kept(word, CharClass::Whitespace);
}

proof fn lemma_ends_kept(s: Seq<char>, class: CharClass)
    requires
        s.len() > 0,
        !class.has(s[0]),
        !class.has(s.last()),
    ensures
        trimmed_start(s, class) == s,
        trimmed_by(s, class) == s,
{
}

/// A word behind the opening fence is the language of the lines of code that
/// follow.
pub proof fn law_fence_names_the_language(language: Seq<char>, code: Seq<char>)
    requires
        language.len() > 0,
        forall|i: int| 0 <= i < language.len() ==> !is_space(#[trigger] language[i]),
        code.len() > 0,
        code[0] != '\n',
        code.last() != '\n',
    ensures
        code_block(language + seq!['\n'] + code + seq!['\n']) == (BlockView::Code {
            language,
            code,
        }),
{
    let feed = CharClass::Only('\n');
    let body = language + seq!['\n'] + code + seq!['\n'];
    let n = language.len() as int;
    lemma_word(language);
    lemma_no_line_end(language);
    lemma_find_extended(language.push('\n'), code.push('\n'), seq!['\n']);
    assert(language.push('\n') + code.push('\n') =~= body);
    assert(body.take(n) =~= language);
    assert(body[0] == language[0]);
    let inside = code.push('\n');
    assert(body.skip(n + 1) =~= inside);
    assert(inside[0] == code[0]);
    assert(trimmed_start(inside, feed) == inside);
    assert(inside.drop_last() =~= code);
    assert(trimmed_end(code, feed) == code);
    assert(trimmed_by(inside, feed) == code);
}

/// The first of several words between fences on one line is the language, and
/// what follows it is the code; a word alone is code without a language.
pub proof fn law_one_line_of_code(language: Seq<char>, code: Seq<char>)
    requires
        language.len() > 0,
        forall|i: int| 0 <= i < language.len() ==> !is_space(#[trigger] language[i]),
        code.len() > 0,
        !code.contains('\n'),
        !is_space(code[0]),
        !is_space(code.last()),
    ensures
        code_block(language + seq![' '] + code) == (BlockView::Code { language, code }),
        code_block(language) == (BlockView::Code { language: Seq::empty(), code: language }),
{
    let white = CharClass::Whitespace;
    let body = language + seq![' '] + code;
    let n = language.len() as int;
    lemma_word(language);
    lemma_no_line_end(language);
    assert(!body.contains('\n')) by {
        if body.contains('\n') {
            let j = choose|j: int| 0 <= j < body.len() && body[j] == '\n';
            if j < n {
                assert(language.contains(language[j]));
            } else if j > n {
                assert(code.contains(code[j - n - 1]));
            }
        }
    }
    lemma_no_line_end(body);
    assert(!is_space(language[0]));
    assert(body[0] == language[0]);
    assert(body.last() == code.last());
    lemma_ends_kept(body, white);
    lemma_ends_kept(code, white);
    lemma_first_space(language, seq![' '] + code);
    assert(language + (seq![' '] + code) =~= body);
    assert(body.take(n) =~= language);
    assert(body.skip(n + 1) =~= code);
}

/// Whether a line holds nothing but plain text: no blanks around it, no marks and
/// no line end.
pub open spec fn is_plain_line(line: Seq<char>) -> bool {
    &&& line.len() > 0 && !is_space(line[0]) && !is_space(line.last())
    &&& !line.contains('*') && !line.contains('_') && !line.contains('`') && !line.contains('\n')
}

proof fn lemma_lacks(s: Seq<char>, c: char)
    requires
        !s.contains(c),
    ensures
        lacks(s, c),
{
    assert forall|i: int| 0 <= i < s.len() implies s[i] != c by {
        assert(s.contains(s[i]));
    }
}

proof fn lemma_nothing_bold(s: Seq<char>)
    requires
        lacks(s, '*'),
    ensures
        without_bold(s) == s,
    decreases s.len(),
{
    if s.len() > 0 {
        assert(!begins_with(s, seq!['*', '*'])) by {
            if begins_with(s, seq!['*', '*']) {
                assert(s.subrange(0, 2)[0] == s[0]);
            }
        }
        lemma_nothing_bold(s.drop_first());
        assert(seq![s[0]] + s.drop_first() =~= s);
    } else {
        assert(s =~= Seq::empty());
    }
}

proof fn lemma_nothing_marked(s: Seq<char>)
    requires
        lacks(s, '_'),
        lacks(s, '`'),
    ensures
        without_marks(s) == s,
    decreases s.len(),
{
    if s.len() > 0 {
        assert(s[s.len() - 1] == s.last());
        lemma_nothing_marked(s.drop_last());
        assert(s.drop_last().push(s.last()) =~= s);
    } else {
        assert(s =~= Seq::empty());
    }
}

proof fn lemma_plain_lines_kept(parts: Seq<Seq<char>>)
    requires
        forall|i: int| 0 <= i < parts.len() ==> is_plain_line(#[trigger] parts[i]),
    ensures
        excerpt_lines(parts) == parts,
    decreases parts.len(),
{
    if parts.len() > 0 {
        let front = parts.drop_last();
        let line = parts[parts.len() - 1];
        assert forall|i: int| 0 <= i < front.len() implies is_plain_line(#[trigger] front[i]) by {
            assert(is_plain_line(parts[i]));
        }
        lemma_plain_lines_kept(front);
        assert(is_plain_line(line));
        lemma_ends_kept(line, CharClass::Whitespace);
        assert(!begins_with(line, fence())) by {
            if begins_with(line, fence()) {
                assert(line.subrange(0, 3)[0] == line[0]);
                assert(line.contains('`'));
            }
        }
        assert(front.push(line) =~= parts);
    } else {
        assert(parts =~= Seq::empty());
    }
}

/// An excerpt shows all the lines of plain text, one behind the other with a
/// blank between them, where there is room.
pub proof fn law_excerpt_shows_all_lines(parts: Seq<Seq<char>>, max_chars: int)
    requires
        parts.len() > 0,
        forall|i: int| 0 <= i < parts.len() ==> is_plain_line(#[trigger] parts[i]),
        join(parts, seq![' ']).len() <= max_chars,
    ensures
        excerpt(join(parts, seq!['\n']), max_chars) == join(parts, seq![' ']),
{
    let text = join(parts, seq![' ']);
    assert forall|i: int| 0 <= i < parts.len() implies !(#[trigger] parts[i]).contains('\n')
        && without_return(parts[i]) == parts[i] by {
        assert(is_plain_line(parts[i]));
    }
    assert(is_plain_line(parts[parts.len() - 1]));
    law_lines_round_trip(parts);
    lemma_plain_lines_kept(parts);
    lemma_join(parts, ' ');
    assert forall|i: int| 0 <= i < parts.len() implies lacks(#[trigger] parts[i], '*') && lacks(
        parts[i],
        '_',
    ) && lacks(parts[i], '`') by {
        assert(is_plain_line(parts[i]));
        lemma_lacks(parts[i], '*');
        lemma_lacks(parts[i], '_');
        lemma_lacks(parts[i], '`');
    }
    assert(lacks(text, '*') && lacks(text, '_') && lacks(text, '`'));
    lemma_nothing_bold(text);
    lemma_nothing_marked(text);
    assert(text.len() > 0) by {
        lemma_weight(seq![parts[0]], parts);
        assert(seq![parts[0]].drop_last() =~= Seq::empty());
        assert(weight(Seq::<Seq<char>>::empty()) == 0);
        assert(weight(seq![parts[0]]) == parts[0].len() + 1);
        assert(is_plain_line(parts[0]));
    }
}

proof fn lemma_bold_behind(plain: Seq<char>, rest: Seq<char>)
    requires
        lacks(plain, '*'),
    ensures
        without_bold(plain + rest) == plain + without_bold(rest),
    decreases plain.len(),
{
    if plain.len() > 0 {
        let s = plain + rest;
        assert(!begins_with(s, seq!['*', '*'])) by {
            if begins_with(s, seq!['*', '*']) {
                assert(s.subrange(0, 2)[0] == plain[0]);
            }
        }
        assert(s.drop_first() =~= plain.drop_first() + rest);
        lemma_bold_behind(plain.drop_first(), rest);
        assert(seq![s[0]] + (plain.drop_first() + without_bold(rest)) =~= plain + without_bold(
            rest,
        ));
    } else {
        assert(plain + rest =~= rest);
        assert(plain + without_bold(rest) =~= without_bold(rest));
    }
}

/// Marks are left out of a text, and nothing else is: what stands before a mark,
/// between two and behind them stays as it is.
pub proof fn law_marks_alone_are_left_out(before: Seq<char>, text: Seq<char>, after: Seq<char>)
    requires
        !before.contains('*') && !before.contains('_') && !before.contains('`'),
        !text.contains('*') && !text.contains('_') && !text.contains('`'),
        !after.contains('*') && !after.contains('_') && !after.contains('`'),
    ensures
        without_bold(before + seq!['*', '*'] + text + seq!['*', '*'] + after) == before + text
            + after,
        without_marks(before + seq!['_'] + text + seq!['_'] + after) == before + text + after,
        without_marks(before + seq!['`'] + text + seq!['`'] + after) == before + text + after,
{
    let bold = seq!['*', '*'];
    lemma_lacks(before, '*');
    lemma_lacks(text, '*');
    lemma_lacks(after, '*');
    let inner = bold + (text + (bold + after));
    assert(before + bold + text + bold + after =~= before + inner);
    lemma_bold_behind(before, inner);
    assert(inner.subrange(0, 2) =~= bold);
    assert(inner.skip(2) =~= text + (bold + after));
    lemma_bold_behind(text, bold + after);
    assert((bold + after).subrange(0, 2) =~= bold);
    assert((bold + after).skip(2) =~= after);
    lemma_nothing_bold(after);
    assert(before + (text + after) =~= before + text + after);
    lemma_mark_left_out(before, text, after, '_');
    lemma_mark_left_out(before, text, after, '`');
}

proof fn lemma_marks_of_both(a: Seq<char>, b: Seq<char>)
    ensures
        without_marks(a + b) == without_marks(a) + without_marks(b),
    decreases b.len(),
{
    if b.len() == 0 {
        assert(a + b =~= a);
        assert(without_marks(a) + without_marks(b) =~= without_marks(a));
    } else {
        assert((a + b).drop_last() =~= a + b.drop_last());
        lemma_marks_of_both(a, b.drop_last());
        assert(without_marks(a + b) =~= without_marks(a) + without_marks(b));
    }
}

proof fn lemma_mark_left_out(before: Seq<char>, text: Seq<char>, after: Seq<char>, mark: char)
    requires
        mark == '_' || mark == '`',
        !before.contains('_') && !before.contains('`'),
        !text.contains('_') && !text.contains('`'),
        !after.contains('_') && !after.contains('`'),
    ensures
        without_marks(before + seq![mark] + text + seq![mark] + after) == before + text + after,
{
    let m = seq![mark];
    lemma_lacks(before, '_');
    lemma_lacks(before, '`');
    lemma_lacks(text, '_');
    lemma_lacks(text, '`');
    lemma_lacks(after, '_');
    lemma_lacks(after, '`');
    lemma_nothing_marked(before);
    lemma_nothing_marked(text);
    lemma_nothing_marked(after);
    lemma_marks_of_both(before, m);
    lemma_marks_of_both(before + m, text);
    lemma_marks_of_both(before + m + text, m);
    lemma_marks_of_both(before + m + text + m, after);
    assert(m.drop_last() =~= Seq::empty());
    assert(without_marks(m.drop_last()) =~= Seq::empty());
    assert(without_marks(m) =~= Seq::empty());
    assert(before + Seq::<char>::empty() + text + Seq::<char>::empty() + after =~= before + text
        + after);
}

/// Labels that are shown can be told apart again; where there are none, a dash is
/// shown.
pub proof fn law_shown_labels(labels: Seq<Seq<char>>)
    requires
        forall|i: int| 0 <= i < labels.len() ==> is_label(#[trigger] labels[i]),
    ensures
        labels.len() == 0 ==> labels_text(labels) == "-"@,
        labels.len() > 0 ==> labels_in(split(labels_text(labels), ',')) == labels,
{
    if labels.len() > 0 {
        law_labels_round_trip(labels);
    }
}

/// Code whose fence is not closed goes on to the end.
pub proof fn law_unclosed_fence(before: Seq<char>, body: Seq<char>)
    requires
        find(before + fence(), fence()) == Some(before.len() as int),
        find(body, fence()) is None,
    ensures
        content_blocks(before + fence() + body) == text_block(before).push(code_block(body)),
{
    let s = before + fence() + body;
    lemma_find_extended(before + fence(), body, fence());
    assert(s.take(before.len() as int) =~= before);
    assert(s.skip(before.len() as int + 3) =~= body);
}

/// Of several words behind the opening fence the first is the language, and the
/// others are neither that nor code.
pub proof fn law_first_word_names_the_language(
    language: Seq<char>,
    more: Seq<char>,
    code: Seq<char>,
)
    requires
        language.len() > 0,
        forall|i: int| 0 <= i < language.len() ==> !is_space(#[trigger] language[i]),
        !more.contains('\n'),
        code.len() > 0,
        code[0] != '\n',
        code.last() != '\n',
    ensures
        code_block(language + seq![' '] + more + seq!['\n'] + code + seq!['\n']) == (
        BlockView::Code { language, code }),
{
    let feed = CharClass::Only('\n');
    let white = CharClass::Whitespace;
    let head = language + seq![' '] + more;
    let body = head + seq!['\n'] + code + seq!['\n'];
    let n = head.len() as int;
    lemma_word(language);
    assert(!head.contains('\n')) by {
        if head.contains('\n') {
            let j = choose|j: int| 0 <= j < head.len() && head[j] == '\n';
            if j < language.len() {
                assert(language.contains(language[j]));
            } else if j > language.len() {
                assert(more.contains(more[j - language.len() - 1]));
            }
        }
    }
    lemma_no_line_end(head);
    lemma_find_extended(head.push('\n'), code.push('\n'), seq!['\n']);
    assert(head.push('\n') + code.push('\n') =~= body);
    assert(body.take(n) =~= head);
    assert(body[0] == language[0]);
    assert(head[0] == language[0]);
    assert(!is_space(language[0]));
    assert(trimmed_start(head, white) == head);
    lemma_first_space(language, seq![' '] + more);
    assert(language + (seq![' '] + more) =~= head);
    assert(head.take(language.len() as int) =~= language);
    let inside = code.push('\n');
    assert(body.skip(n + 1) =~= inside);
    assert(inside[0] == code[0]);
    assert(trimmed_start(inside, feed) == inside);
    assert(inside.drop_last() =~= code);
    assert(trimmed_end(code, feed) == code);
    assert(trimmed_by(inside, feed) == code);
}

} // verus!
