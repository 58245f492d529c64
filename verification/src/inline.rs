//! Inline markup: bold, italic and code within a line, and the wrapping of a
//! line to a number of columns.
use vstd::prelude::*;
use vstd::utf8::encode_utf8;

use crate::content::lemma_find_extended;
use crate::style::{
    lemma_line_text_push, line_text, line_views, raw_span, span_views, Line, Span, SpanView, Style,
    UiTheme,
};
use crate::text::{
    begins_with, chars_of, find, find_from, is_space, is_whitespace, lemma_find, occurs, occurs_at,
    text_of, texts,
};

verus! {

/// A stretch of a line in one style, as mathematics sees it.
pub struct TokenView {
    pub text: Seq<char>,
    pub style: Style,
    pub atomic: bool,
}

/// A stretch of a line in one style. An atomic one is never wrapped within.
#[derive(Debug)]
pub struct InlineToken {
    pub text: String,
    pub style: Style,
    pub atomic: bool,
}

impl View for InlineToken {
    type V = TokenView;

    open spec fn view(&self) -> TokenView {
        TokenView { text: self.text@, style: self.style, atomic: self.atomic }
    }
}

/// The views of several tokens.
pub open spec fn token_views(v: Seq<InlineToken>) -> Seq<TokenView> {
    v.map_values(|t: InlineToken| t@)
}

pub open spec fn bold_mark() -> Seq<char> {
    seq!['*', '*']
}

pub open spec fn code_mark() -> Seq<char> {
    seq!['`']
}

pub open spec fn italic_mark() -> Seq<char> {
    seq!['_']
}

/// The text between the mark that `s` begins with and the next such mark, if both are there.
pub open spec fn marked(s: Seq<char>, mark: Seq<char>) -> Option<Seq<char>> {
    if begins_with(s, mark) {
        match find(s.skip(mark.len() as int), mark) {
            Some(end) => Some(s.subrange(mark.len() as int, mark.len() + end)),
            None => None,
        }
    } else {
        None
    }
}

/// The smaller of two optional positions.
pub open spec fn nearer(a: Option<int>, b: Option<int>) -> Option<int> {
    match (a, b) {
        (Some(x), Some(y)) => Some(if x <= y {
            x
        } else {
            y
        }),
        (Some(x), None) => Some(x),
        (None, _) => b,
    }
}

/// Where the first mark of any kind stands in `s`.
pub open spec fn next_mark(s: Seq<char>) -> Option<int> {
    nearer(nearer(find(s, bold_mark()), find(s, code_mark())), find(s, italic_mark()))
}

/// How much of `s` is plain text: up to the next mark, or one character where
/// `s` begins with a mark that opens nothing.
pub open spec fn plain_len(s: Seq<char>) -> int {
    match next_mark(s) {
        Some(n) => if n == 0 {
            1
        } else {
            n
        },
        None => s.len() as int,
    }
}

/// The tokens of a line: `**bold**`, `` `code` ``, `_italic_`, and plain text between.
pub open spec fn inline_tokens(s: Seq<char>, theme: UiTheme) -> Seq<TokenView>
    decreases s.len(),
    via inline_tokens_shrinks
{
    if s.len() == 0 {
        Seq::empty()
    } else if marked(s, bold_mark()) is Some {
        let text = marked(s, bold_mark())->0;
        seq![TokenView { text, style: Style::bold_style(), atomic: false }] + inline_tokens(
            s.skip((text.len() + 4) as int),
            theme,
        )
    } else if marked(s, code_mark()) is Some {
        let text = marked(s, code_mark())->0;
        seq![TokenView { text, style: Style::colored(theme.inline_code), atomic: true }]
            + inline_tokens(s.skip((text.len() + 2) as int), theme)
    } else if marked(s, italic_mark()) is Some {
        let text = marked(s, italic_mark())->0;
        seq![TokenView { text, style: Style::italic_style(), atomic: false }] + inline_tokens(
            s.skip((text.len() + 2) as int),
            theme,
        )
    } else {
        let n = plain_len(s);
        seq![TokenView { text: s.take(n), style: Style::plain_style(), atomic: false }]
            + inline_tokens(s.skip(n), theme)
    }
}

#[via_fn]
proof fn inline_tokens_shrinks(s: Seq<char>, theme: UiTheme) {
    lemma_marked(s, bold_mark());
    lemma_marked(s, code_mark());
    lemma_marked(s, italic_mark());
    lemma_plain_len(s);
}

proof fn lemma_marked(s: Seq<char>, mark: Seq<char>)
    requires
        mark.len() > 0,
    ensures
        marked(s, mark) matches Some(text) ==> text.len() + 2 * mark.len() <= s.len(),
{
    if begins_with(s, mark) {
        lemma_find(s.skip(mark.len() as int), mark);
    }
}

proof fn lemma_plain_len(s: Seq<char>)
    ensures
        s.len() > 0 ==> 0 < plain_len(s) <= s.len(),
        match next_mark(s) {
            Some(n) => 0 <= n < s.len(),
            None => true,
        },
{
    lemma_find(s, bold_mark());
    lemma_find(s, code_mark());
    lemma_find(s, italic_mark());
}

fn nearer_of(a: Option<usize>, b: Option<usize>) -> (r: Option<usize>)
    ensures
        match (a, b) {
            (Some(x), Some(y)) => r == Some(if x <= y {
                x
            } else {
                y
            }),
            (Some(x), None) => r == a,
            (None, _) => r == b,
        },
{
    match a {
        Some(x) => match b {
            Some(y) => if x <= y {
                Some(x)
            } else {
                Some(y)
            },
            None => Some(x),
        },
        None => b,
    }
}

/// Where the first mark stands in `v` at or after `from`.
fn next_mark_from(v: &Vec<char>, from: usize) -> (r: Option<usize>)
    requires
        from <= v@.len(),
    ensures
        match r {
            Some(i) => from <= i < v@.len() && next_mark(v@.skip(from as int)) == Some(i - from),
            None => next_mark(v@.skip(from as int)) is None,
        },
{
    let bold: Vec<char> = vec!['*', '*'];
    let code: Vec<char> = vec!['`'];
    let italic: Vec<char> = vec!['_'];
    assert(bold@ =~= bold_mark());
    assert(code@ =~= code_mark());
    assert(italic@ =~= italic_mark());
    nearer_of(
        nearer_of(find_from(v, &bold, from), find_from(v, &code, from)),
        find_from(v, &italic, from),
    )
}

/// Where the first mark stands in the bytes of `input`.
pub fn next_marker_index(input: &str) -> (r: Option<usize>)
    ensures
        match r {
            Some(i) => next_mark(input@) matches Some(n) && i == encode_utf8(input@.take(n)).len(),
            None => next_mark(input@) is None,
        },
{
    let v = chars_of(input);
    assert(v@.skip(0) =~= v@);
    match next_mark_from(&v, 0) {
        Some(n) => {
            let before = text_of(&v, 0, n);
            assert(before@ =~= input@.take(n as int));
            Some(before.as_str().as_bytes().len())
        },
        None => None,
    }
}

/// The bounds in `v` of the text between the mark at `from` and the next such mark.
fn marked_bounds(v: &Vec<char>, mark: &Vec<char>, from: usize) -> (r: Option<(usize, usize)>)
    requires
        from <= v@.len(),
        mark@.len() > 0,
    ensures
        match r {
            Some((start, end)) => {
                &&& start == from + mark@.len()
                &&& start <= end
                &&& end + mark@.len() <= v@.len()
                &&& marked(v@.skip(from as int), mark@) == Some(
                    v@.subrange(start as int, end as int),
                )
            },
            None => marked(v@.skip(from as int), mark@) is None,
        },
{
    if !occurs(v, mark, from) {
        return None;
    }
    let len: usize = v.len();
    assert(from + mark@.len() <= len);
    let start: usize = from + mark.len();
    let ghost s = v@.skip(from as int);
    assert(s.skip(mark@.len() as int) =~= v@.skip(start as int));
    match find_from(v, mark, start) {
        Some(end) => {
            assert(s.subrange(mark@.len() as int, end - from) =~= v@.subrange(
                start as int,
                end as int,
            ));
            Some((start, end))
        },
        None => None,
    }
}

/// The tokens of a line.
pub fn parse_inline_tokens(line: &str, theme: UiTheme) -> (r: Vec<InlineToken>)
    ensures
        token_views(r@) == inline_tokens(line@, theme),
{
    let v = chars_of(line);
    let bold: Vec<char> = vec!['*', '*'];
    let code: Vec<char> = vec!['`'];
    let italic: Vec<char> = vec!['_'];
    assert(bold@ =~= bold_mark());
    assert(code@ =~= code_mark());
    assert(italic@ =~= italic_mark());
    let mut tokens: Vec<InlineToken> = Vec::new();
    let mut at: usize = 0;
    assert(v@.skip(0) =~= v@);
    assert(token_views(tokens@) + inline_tokens(v@, theme) =~= inline_tokens(v@, theme));
    while at < v.len()
        invariant
            at <= v@.len(),
            v@ == line@,
            bold@ == bold_mark(),
            code@ == code_mark(),
            italic@ == italic_mark(),
            token_views(tokens@) + inline_tokens(v@.skip(at as int), theme) == inline_tokens(
                line@,
                theme,
            ),
        decreases v@.len() - at,
    {
        let ghost rest = v@.skip(at as int);
        let ghost before = token_views(tokens@);
        proof {
            lemma_plain_len(rest);
        }
        let (token, next): (InlineToken, usize) = match marked_bounds(&v, &bold, at) {
            Some((start, end)) => {
                assert(v@.skip(end + 2) =~= rest.skip(end - start + 4));
                (
                    InlineToken {
                        text: text_of(&v, start, end),
                        style: Style::bold(),
                        atomic: false,
                    },
                    end + 2,
                )
            },
            None => match marked_bounds(&v, &code, at) {
                Some((start, end)) => {
                    assert(v@.skip(end + 1) =~= rest.skip(end - start + 2));
                    (
                        InlineToken {
                            text: text_of(&v, start, end),
                            style: Style::fg(theme.inline_code),
                            atomic: true,
                        },
                        end + 1,
                    )
                },
                None => match marked_bounds(&v, &italic, at) {
                    Some((start, end)) => {
                        assert(v@.skip(end + 1) =~= rest.skip(end - start + 2));
                        (
                            InlineToken {
                                text: text_of(&v, start, end),
                                style: Style::italic(),
                                atomic: false,
                            },
                            end + 1,
                        )
                    },
                    None => {
                        let next: usize = match next_mark_from(&v, at) {
                            Some(n) => if n == at {
                                at + 1
                            } else {
                                n
                            },
                            None => v.len(),
                        };
                        assert(next - at == plain_len(rest));
                        assert(v@.subrange(at as int, next as int) =~= rest.take(next - at));
                        assert(v@.skip(next as int) =~= rest.skip(next - at));
                        (
                            InlineToken {
                                text: text_of(&v, at, next),
                                style: Style::plain(),
                                atomic: false,
                            },
                            next,
                        )
                    },
                },
            },
        };
        assert(inline_tokens(rest, theme) =~= seq![token@] + inline_tokens(
            v@.skip(next as int),
            theme,
        ));
        tokens.push(token);
        assert(token_views(tokens@) =~= before.push(token@));
        assert(before.push(token@) + inline_tokens(v@.skip(next as int), theme) =~= before + (
        seq![token@] + inline_tokens(v@.skip(next as int), theme)));
        at = next;
    }
    assert(token_views(tokens@) + inline_tokens(v@.skip(at as int), theme) =~= token_views(
        tokens@,
    ));
    tokens
}

/// The maximal runs of `s` that are all whitespace or hold none.
pub open spec fn runs(s: Seq<char>) -> Seq<Seq<char>>
    decreases s.len(),
{
    if s.len() == 0 {
        Seq::empty()
    } else {
        let before = runs(s.drop_last());
        let c = s.last();
        if before.len() > 0 && is_space(before.last().last()) == is_space(c) {
            before.drop_last().push(before.last().push(c))
        } else {
            before.push(seq![c])
        }
    }
}

/// The concatenation of several texts.
pub open spec fn concat(parts: Seq<Seq<char>>) -> Seq<char>
    decreases parts.len(),
{
    if parts.len() == 0 {
        Seq::empty()
    } else {
        concat(parts.drop_last()) + parts.last()
    }
}

/// Whether all characters of `s` are whitespace.
pub open spec fn all_space(s: Seq<char>) -> bool {
    forall|i: int| 0 <= i < s.len() ==> is_space(#[trigger] s[i])
}

/// Whether no character of `s` is whitespace.
pub open spec fn no_space(s: Seq<char>) -> bool {
    forall|i: int| 0 <= i < s.len() ==> !is_space(#[trigger] s[i])
}

/// The runs of a text make up the text; each is whitespace or a word, and the
/// two alternate.
pub proof fn law_runs(s: Seq<char>)
    ensures
        concat(runs(s)) == s,
        forall|i: int|
            #![trigger runs(s)[i]]
            0 <= i < runs(s).len() ==> runs(s)[i].len() > 0 && (all_space(runs(s)[i]) || no_space(
                runs(s)[i],
            )),
        forall|i: int|
            #![trigger runs(s)[i]]
            0 < i < runs(s).len() ==> all_space(runs(s)[i - 1]) != all_space(runs(s)[i]),
    decreases s.len(),
{
    if s.len() > 0 {
        let before = runs(s.drop_last());
        let c = s.last();
        let now = runs(s);
        law_runs(s.drop_last());
        assert(s =~= s.drop_last().push(c));
        if before.len() > 0 && is_space(before.last().last()) == is_space(c) {
            let last = before.last();
            assert(last == before[before.len() - 1]);
            assert(now.drop_last() =~= before.drop_last());
            assert(now.last() == last.push(c));
            assert(concat(before) == concat(before.drop_last()) + last);
            assert(concat(now) =~= concat(before).push(c));
            if all_space(last) {
                assert(is_space(last[last.len() - 1]));
                assert(all_space(last.push(c)));
            } else {
                assert(!is_space(last[last.len() - 1]));
                assert(no_space(last.push(c)));
                assert(!is_space(last.push(c)[0]));
                assert(!all_space(last.push(c)));
            }
            assert forall|i: int| #![trigger now[i]] 0 <= i < now.len() implies now[i].len() > 0
                && (all_space(now[i]) || no_space(now[i])) by {
                if i < before.len() - 1 {
                    assert(now[i] == before[i]);
                }
            }
            assert forall|i: int| #![trigger now[i]] 0 < i < now.len() implies all_space(now[i - 1])
                != all_space(now[i]) by {
                assert(all_space(before[i - 1]) != all_space(before[i]));
                assert(now[i - 1] == before[i - 1]);
                if i < before.len() - 1 {
                    assert(now[i] == before[i]);
                }
            }
        } else {
            assert(now.drop_last() =~= before);
            assert(concat(now) =~= concat(before).push(c));
            assert(seq![c][0] == c);
            assert(all_space(seq![c]) == is_space(c));
            assert(no_space(seq![c]) == !is_space(c));
            if before.len() > 0 {
                let last = before[before.len() - 1];
                assert(last.last() == last[last.len() - 1]);
                assert(all_space(last) == is_space(last.last()));
            }
            assert forall|i: int| #![trigger now[i]] 0 <= i < now.len() implies now[i].len() > 0
                && (all_space(now[i]) || no_space(now[i])) by {
                if i < before.len() {
                    assert(now[i] == before[i]);
                }
            }
            assert forall|i: int| #![trigger now[i]] 0 < i < now.len() implies all_space(now[i - 1])
                != all_space(now[i]) by {
                assert(now[i - 1] == before[i - 1]);
                if i < before.len() {
                    assert(now[i] == before[i]);
                }
            }
        }
    }
}

/// Splits `text` where words and whitespace meet.
pub fn split_words_and_spaces(text: &str) -> (r: Vec<String>)
    ensures
        texts(r@) == runs(text@),
{
    let mut parts: Vec<String> = Vec::new();
    let mut current = String::new();
    let mut spaces = false;
    let mut started = false;
    proof {
        assert(text@.take(0) =~= Seq::empty());
        assert(texts(parts@) =~= Seq::empty());
    }
    for ch in it: text.chars()
        invariant
            it.seq() == text@,
            started == (it.index() > 0),
            !started ==> runs(text@.take(it.index())) == Seq::<Seq<char>>::empty() && texts(parts@)
                == Seq::<Seq<char>>::empty() && current@ == Seq::<char>::empty(),
            started ==> current@.len() > 0 && is_space(current@.last()) == spaces && runs(
                text@.take(it.index()),
            ) == texts(parts@).push(current@),
    {
        let ghost i = it.index();
        assert(text@.take(i + 1).drop_last() =~= text@.take(i));
        assert(text@.take(i + 1).last() == ch);
        let space = is_whitespace(ch);
        if started && space == spaces {
            assert(texts(parts@).push(current@).drop_last() =~= texts(parts@));
            current.push(ch);
        } else {
            let ghost before = texts(parts@);
            if started {
                let ghost old_current = current@;
                parts.push(current);
                assert(texts(parts@) =~= before.push(old_current));
            }
            current = String::new();
            current.push(ch);
            assert(current@ =~= seq![ch]);
            spaces = space;
            started = true;
        }
    }
    assert(text@.take(text@.len() as int) =~= text@);
    if started {
        let ghost before = texts(parts@);
        let ghost last = current@;
        parts.push(current);
        assert(texts(parts@) =~= before.push(last));
    }
    parts
}

/// A word to be placed on a line; `spaced` where whitespace stands before it.
pub struct WordView {
    pub text: Seq<char>,
    pub style: Style,
    pub spaced: bool,
}

/// The words of a text, and whether whitespace follows the last of them.
pub struct Words {
    pub words: Seq<WordView>,
    pub pending: bool,
}

impl Words {
    /// One word more.
    pub open spec fn with_word(self, text: Seq<char>, style: Style) -> Words {
        Words {
            words: self.words.push(WordView { text, style, spaced: self.pending }),
            pending: false,
        }
    }

    /// The words of several runs more.
    pub open spec fn with_runs(self, parts: Seq<Seq<char>>, style: Style) -> Words
        decreases parts.len(),
    {
        if parts.len() == 0 {
            self
        } else {
            let before = self.with_runs(parts.drop_last(), style);
            if all_space(parts.last()) {
                Words { pending: true, ..before }
            } else {
                before.with_word(parts.last(), style)
            }
        }
    }
}

/// The words of several tokens. An atomic token is one word.
pub open spec fn words_of(tokens: Seq<TokenView>) -> Words
    decreases tokens.len(),
{
    if tokens.len() == 0 {
        Words { words: Seq::empty(), pending: false }
    } else {
        let before = words_of(tokens.drop_last());
        let token = tokens.last();
        if token.atomic {
            before.with_word(token.text, token.style)
        } else {
            before.with_runs(runs(token.text), token.style)
        }
    }
}

/// The number of columns that a line takes.
pub open spec fn line_width(spans: Seq<SpanView>) -> nat {
    line_text(spans).len()
}

/// Lines that are full, and the line that is being filled.
pub struct Filled {
    pub full: Seq<Seq<SpanView>>,
    pub current: Seq<SpanView>,
}

impl Filled {
    /// Places a word: on the line being filled where that is blank or has room
    /// for it, else on a new line.
    pub open spec fn with_word(self, word: WordView, width: int) -> Filled {
        let used = line_width(self.current);
        let span = SpanView { content: word.text, style: word.style };
        let gap: int = if word.spaced && used > 0 {
            1
        } else {
            0
        };
        if used > 0 && used + gap + word.text.len() > width {
            Filled { full: self.full.push(self.current), current: seq![span] }
        } else if gap > 0 {
            Filled { full: self.full, current: self.current.push(raw_span(seq![' '])).push(span) }
        } else {
            Filled { full: self.full, current: self.current.push(span) }
        }
    }
}

/// What has been filled after several words.
pub open spec fn filled(words: Seq<WordView>, width: int) -> Filled
    decreases words.len(),
{
    if words.len() == 0 {
        Filled { full: Seq::empty(), current: Seq::empty() }
    } else {
        filled(words.drop_last(), width).with_word(words.last(), width)
    }
}

/// The lines that several tokens fill. There is always a line.
pub open spec fn wrapped(tokens: Seq<TokenView>, width: int) -> Seq<Seq<SpanView>> {
    let f = filled(words_of(tokens).words, width);
    if f.current.len() > 0 || f.full.len() == 0 {
        f.full.push(f.current)
    } else {
        f.full
    }
}

/// Places a word on the line being filled, or on a new line.
fn push_wrapped_word(
    lines: &mut Vec<Line>,
    current: &mut Vec<Span>,
    current_width: &mut usize,
    pending_space: &mut bool,
    word: String,
    style: Style,
    width: usize,
)
    requires
        *old(current_width) == line_width(span_views(old(current)@)),
    ensures
        (Filled { full: line_views(final(lines)@), current: span_views(final(current)@) }) == (
        Filled {
            full: line_views(old(lines)@),
            current: span_views(old(current)@),
        }).with_word(WordView { text: word@, style, spaced: *old(pending_space) }, width as int),
        *final(current_width) == line_width(span_views(final(current)@)),
        *final(pending_space) == false,
{
    let word_width: usize = word.as_str().unicode_len();
    let gap: bool = *pending_space && *current_width > 0;
    let ghost spans = span_views(current@);
    let ghost full = line_views(lines@);
    let ghost span = SpanView { content: word@, style };
    let room: usize = if *current_width <= width {
        width - *current_width
    } else {
        0
    };
    if *current_width > 0 && (*current_width > width || word_width > room || (gap && word_width
        == room)) {
        let mut line: Vec<Span> = Vec::new();
        std::mem::swap(&mut line, current);
        lines.push(Line { spans: line });
        current.push(Span::styled(word, style));
        *current_width = word_width;
        assert(line_views(lines@) =~= full.push(spans));
        assert(span_views(current@) =~= seq![span]);
        proof {
            lemma_line_text_push(Seq::empty(), span);
            assert(Seq::<SpanView>::empty().push(span) =~= seq![span]);
        }
    } else if gap {
        let mut space = String::new();
        space.push(' ');
        assert(space@ =~= seq![' ']);
        let ghost spaced = spans.push(raw_span(seq![' ']));
        current.push(Span::raw(space));
        current.push(Span::styled(word, style));
        *current_width = *current_width + 1 + word_width;
        assert(span_views(current@) =~= spaced.push(span));
        proof {
            lemma_line_text_push(spans, raw_span(seq![' ']));
            lemma_line_text_push(spaced, span);
        }
    } else {
        current.push(Span::styled(word, style));
        *current_width = *current_width + word_width;
        assert(span_views(current@) =~= spans.push(span));
        proof {
            lemma_line_text_push(spans, span);
        }
    }
    *pending_space = false;
}

fn is_all_space(text: &str) -> (r: bool)
    ensures
        r == all_space(text@),
{
    for ch in it: text.chars()
        invariant
            it.seq() == text@,
            forall|i: int| 0 <= i < it.index() ==> is_space(#[trigger] text@[i]),
    {
        if !is_whitespace(ch) {
            assert(!is_space(text@[it.index()]));
            return false;
        }
    }
    true
}

/// Fills lines of `width` columns with the words of `tokens`.
pub fn wrap_inline_tokens(tokens: Vec<InlineToken>, width: usize) -> (r: Vec<Line>)
    ensures
        line_views(r@) == wrapped(token_views(tokens@), width as int),
{
    let mut lines: Vec<Line> = Vec::new();
    let mut current: Vec<Span> = Vec::new();
    let mut current_width: usize = 0;
    let mut pending_space = false;
    let ghost views = token_views(tokens@);
    let ghost mut placed: Words = Words { words: Seq::empty(), pending: false };
    proof {
        assert(views.take(0) =~= Seq::empty());
        assert(line_views(lines@) =~= Seq::empty());
        assert(span_views(current@) =~= Seq::empty());
    }
    let mut i: usize = 0;
    while i < tokens.len()
        invariant
            i <= tokens@.len(),
            views == token_views(tokens@),
            placed == words_of(views.take(i as int)),
            filled(placed.words, width as int) == (Filled {
                full: line_views(lines@),
                current: span_views(current@),
            }),
            current_width == line_width(span_views(current@)),
            pending_space == (placed.pending && current_width > 0),
        decreases tokens@.len() - i,
    {
        let token = &tokens[i];
        assert(views.take(i + 1).drop_last() =~= views.take(i as int));
        assert(views.take(i + 1).last() == token@);
        if token.atomic {
            let ghost before = placed;
            proof {
                placed = before.with_word(token.text@, token.style);
                assert(placed.words.drop_last() =~= before.words);
            }
            push_wrapped_word(
                &mut lines,
                &mut current,
                &mut current_width,
                &mut pending_space,
                token.text.clone(),
                token.style,
                width,
            );
        } else {
            let parts = split_words_and_spaces(token.text.as_str());
            let ghost start = placed;
            let ghost run_views = texts(parts@);
            assert(run_views.take(0) =~= Seq::empty());
            let mut j: usize = 0;
            while j < parts.len()
                invariant
                    j <= parts@.len(),
                    run_views == texts(parts@),
                    placed == start.with_runs(run_views.take(j as int), token.style),
                    filled(placed.words, width as int) == (Filled {
                        full: line_views(lines@),
                        current: span_views(current@),
                    }),
                    current_width == line_width(span_views(current@)),
                    pending_space == (placed.pending && current_width > 0),
                decreases parts@.len() - j,
            {
                assert(run_views.take(j + 1).drop_last() =~= run_views.take(j as int));
                assert(run_views.take(j + 1).last() == parts@[j as int]@);
                let ghost before = placed;
                if is_all_space(parts[j].as_str()) {
                    if current_width > 0 {
                        pending_space = true;
                    }
                    proof {
                        placed = Words { pending: true, ..before };
                    }
                } else {
                    proof {
                        placed = before.with_word(parts@[j as int]@, token.style);
                        assert(placed.words.drop_last() =~= before.words);
                    }
                    push_wrapped_word(
                        &mut lines,
                        &mut current,
                        &mut current_width,
                        &mut pending_space,
                        parts[j].clone(),
                        token.style,
                        width,
                    );
                }
                j = j + 1;
            }
            assert(run_views.take(parts@.len() as int) =~= run_views);
        }
        i = i + 1;
    }
    assert(views.take(tokens@.len() as int) =~= views);
    if current.len() > 0 || lines.len() == 0 {
        let ghost full = line_views(lines@);
        let ghost spans = span_views(current@);
        lines.push(Line { spans: current });
        assert(line_views(lines@) =~= full.push(spans));
    }
    lines
}

/// The lines that a text of one line fills.
pub fn render_inline_lines_wrapped(line: &str, width: usize, theme: UiTheme) -> (r: Vec<Line>)
    ensures
        line_views(r@) == wrapped(inline_tokens(line@, theme), width as int),
{
    wrap_inline_tokens(parse_inline_tokens(line, theme), width)
}

/// Whether a line keeps to `width`, or holds nothing but one word longer than that.
pub open spec fn fits(line: Seq<SpanView>, width: int) -> bool {
    ||| line_width(line) <= width
    ||| line.len() > 0 && line.last().content.len() > width && line_text(line)
        == line.last().content
}

proof fn lemma_filled_fits(words: Seq<WordView>, width: int)
    requires
        width >= 0,
    ensures
        forall|i: int|
            0 <= i < filled(words, width).full.len() ==> fits(
                #[trigger] filled(words, width).full[i],
                width,
            ),
        fits(filled(words, width).current, width),
    decreases words.len(),
{
    if words.len() > 0 {
        let before = filled(words.drop_last(), width);
        let word = words.last();
        let span = SpanView { content: word.text, style: word.style };
        let space = raw_span(seq![' ']);
        lemma_filled_fits(words.drop_last(), width);
        lemma_line_text_push(Seq::empty(), span);
        assert(Seq::<SpanView>::empty().push(span) =~= seq![span]);
        lemma_line_text_push(before.current, span);
        lemma_line_text_push(before.current, space);
        lemma_line_text_push(before.current.push(space), span);
        let after = filled(words, width);
        if line_width(before.current) == 0 {
            assert(line_text(before.current) =~= Seq::empty());
            assert(line_text(before.current.push(span)) =~= span.content);
        }
        assert(Seq::<char>::empty() + span.content =~= span.content);
        assert forall|i: int| 0 <= i < after.full.len() implies fits(
            #[trigger] after.full[i],
            width,
        ) by {
            if i < before.full.len() {
                assert(after.full[i] == before.full[i]);
            }
        }
    }
}

/// A wrapped line is never wider than asked for, unless it holds nothing but
/// one word that is.
pub proof fn law_wrapped_lines_fit(tokens: Seq<TokenView>, width: int, i: int)
    requires
        width >= 0,
        0 <= i < wrapped(tokens, width).len(),
    ensures
        fits(wrapped(tokens, width)[i], width),
{
    lemma_filled_fits(words_of(tokens).words, width);
    let f = filled(words_of(tokens).words, width);
    if i < f.full.len() {
        assert(wrapped(tokens, width)[i] == f.full[i]);
    }
}

/// What is left of `s` without its whitespace.
pub open spec fn visible(s: Seq<char>) -> Seq<char>
    decreases s.len(),
{
    if s.len() == 0 {
        Seq::empty()
    } else if is_space(s.last()) {
        visible(s.drop_last())
    } else {
        visible(s.drop_last()).push(s.last())
    }
}

proof fn lemma_visible_concat(a: Seq<char>, b: Seq<char>)
    ensures
        visible(a + b) == visible(a) + visible(b),
    decreases b.len(),
{
    if b.len() == 0 {
        assert(a + b =~= a);
        assert(visible(a) + visible(b) =~= visible(a));
    } else {
        assert((a + b).drop_last() =~= a + b.drop_last());
        assert((a + b).last() == b.last());
        lemma_visible_concat(a, b.drop_last());
        assert(visible(a + b) =~= visible(a) + visible(b));
    }
}

proof fn lemma_visible_space(s: Seq<char>)
    requires
        all_space(s),
    ensures
        visible(s) == Seq::<char>::empty(),
    decreases s.len(),
{
    if s.len() > 0 {
        assert(is_space(s[s.len() - 1]));
        assert forall|i: int| 0 <= i < s.drop_last().len() implies is_space(
            #[trigger] s.drop_last()[i],
        ) by {
            assert(is_space(s[i]));
        }
        lemma_visible_space(s.drop_last());
    }
}

/// What can be seen of several lines, one after another.
pub open spec fn visible_lines(lines: Seq<Seq<SpanView>>) -> Seq<char>
    decreases lines.len(),
{
    if lines.len() == 0 {
        Seq::empty()
    } else {
        visible_lines(lines.drop_last()) + visible(line_text(lines.last()))
    }
}

/// What can be seen of several tokens, one after another.
pub open spec fn visible_tokens(tokens: Seq<TokenView>) -> Seq<char>
    decreases tokens.len(),
{
    if tokens.len() == 0 {
        Seq::empty()
    } else {
        visible_tokens(tokens.drop_last()) + visible(tokens.last().text)
    }
}

spec fn visible_words(words: Seq<WordView>) -> Seq<char>
    decreases words.len(),
{
    if words.len() == 0 {
        Seq::empty()
    } else {
        visible_words(words.drop_last()) + visible(words.last().text)
    }
}

proof fn lemma_with_word_visible(w: Words, text: Seq<char>, style: Style)
    ensures
        visible_words(w.with_word(text, style).words) == visible_words(w.words) + visible(text),
{
    assert(w.with_word(text, style).words.drop_last() =~= w.words);
}

proof fn lemma_with_runs_visible(w: Words, parts: Seq<Seq<char>>, style: Style)
    ensures
        visible_words(w.with_runs(parts, style).words) == visible_words(w.words) + visible(
            concat(parts),
        ),
    decreases parts.len(),
{
    if parts.len() == 0 {
        assert(visible(concat(parts)) =~= Seq::empty());
        assert(visible_words(w.words) + visible(concat(parts)) =~= visible_words(w.words));
    } else {
        let before = w.with_runs(parts.drop_last(), style);
        lemma_with_runs_visible(w, parts.drop_last(), style);
        lemma_visible_concat(concat(parts.drop_last()), parts.last());
        if all_space(parts.last()) {
            lemma_visible_space(parts.last());
            assert(visible(concat(parts)) =~= visible(concat(parts.drop_last())));
        } else {
            lemma_with_word_visible(before, parts.last(), style);
            assert(visible_words(w.words) + visible(concat(parts.drop_last())) + visible(
                parts.last(),
            ) =~= visible_words(w.words) + visible(concat(parts)));
        }
    }
}

proof fn lemma_words_visible(tokens: Seq<TokenView>)
    ensures
        visible_words(words_of(tokens).words) == visible_tokens(tokens),
    decreases tokens.len(),
{
    if tokens.len() > 0 {
        let before = words_of(tokens.drop_last());
        let token = tokens.last();
        lemma_words_visible(tokens.drop_last());
        if token.atomic {
            lemma_with_word_visible(before, token.text, token.style);
        } else {
            law_runs(token.text);
            lemma_with_runs_visible(before, runs(token.text), token.style);
        }
    }
}

spec fn visible_filled(f: Filled) -> Seq<char> {
    visible_lines(f.full) + visible(line_text(f.current))
}

proof fn lemma_filled_visible(words: Seq<WordView>, width: int)
    ensures
        visible_filled(filled(words, width)) == visible_words(words),
    decreases words.len(),
{
    if words.len() == 0 {
        assert(visible_filled(filled(words, width)) =~= Seq::empty());
    } else {
        let before = filled(words.drop_last(), width);
        let after = filled(words, width);
        let word = words.last();
        let span = SpanView { content: word.text, style: word.style };
        let space = raw_span(seq![' ']);
        let seen = visible(line_text(before.current));
        lemma_filled_visible(words.drop_last(), width);
        lemma_line_text_push(Seq::empty(), span);
        assert(Seq::<SpanView>::empty().push(span) =~= seq![span]);
        lemma_line_text_push(before.current, span);
        lemma_line_text_push(before.current, space);
        lemma_line_text_push(before.current.push(space), span);
        lemma_visible_concat(line_text(before.current), span.content);
        lemma_visible_concat(line_text(before.current), space.content);
        lemma_visible_concat(line_text(before.current) + space.content, span.content);
        assert(all_space(space.content));
        lemma_visible_space(space.content);
        assert(Seq::<char>::empty() + span.content =~= span.content);
        assert(seen + Seq::empty() =~= seen);
        if after.full.len() > before.full.len() {
            assert(after.full.drop_last() =~= before.full);
            assert(visible_filled(after) =~= visible_filled(before) + visible(word.text));
        } else {
            assert(visible_lines(before.full) + (seen + visible(word.text)) =~= visible_filled(
                before,
            ) + visible(word.text));
        }
    }
}

/// Wrapping changes whitespace alone: the visible characters of the tokens
/// stand on the lines, all of them, in their order.
pub proof fn law_wrapping_keeps_visible_text(tokens: Seq<TokenView>, width: int)
    ensures
        visible_lines(wrapped(tokens, width)) == visible_tokens(tokens),
{
    let f = filled(words_of(tokens).words, width);
    lemma_words_visible(tokens);
    lemma_filled_visible(words_of(tokens).words, width);
    if f.current.len() > 0 || f.full.len() == 0 {
        assert(f.full.push(f.current).drop_last() =~= f.full);
    } else {
        assert(visible(line_text(f.current)) =~= Seq::empty());
        assert(visible_filled(f) =~= visible_lines(f.full));
    }
}

/// A visible character of a text, its style, and whether whitespace stands right
/// before it.
pub type Glyph = (char, Style, bool);

/// The visible characters of a stretch of text in one style; `after` where
/// whitespace stands before the stretch.
pub open spec fn glyphs(text: Seq<char>, style: Style, after: bool) -> Seq<Glyph>
    decreases text.len(),
{
    if text.len() == 0 {
        Seq::empty()
    } else {
        let before = glyphs(text.drop_last(), style, after);
        if is_space(text.last()) {
            before
        } else {
            before.push((text.last(), style, ends_blank(text.drop_last(), after)))
        }
    }
}

/// Whether a text ends in whitespace; `after` where whitespace stands before it.
pub open spec fn ends_blank(text: Seq<char>, after: bool) -> bool {
    if text.len() == 0 {
        after
    } else {
        is_space(text.last())
    }
}

/// Whether several stretches of text end in whitespace.
pub open spec fn spans_end_blank(spans: Seq<SpanView>) -> bool
    decreases spans.len(),
{
    if spans.len() == 0 {
        false
    } else {
        ends_blank(spans.last().content, spans_end_blank(spans.drop_last()))
    }
}

/// The visible characters of several stretches of text, one after another.
pub open spec fn span_glyphs(spans: Seq<SpanView>) -> Seq<Glyph>
    decreases spans.len(),
{
    if spans.len() == 0 {
        Seq::empty()
    } else {
        span_glyphs(spans.drop_last()) + glyphs(
            spans.last().content,
            spans.last().style,
            spans_end_blank(spans.drop_last()),
        )
    }
}

/// The stretches of text that tokens are.
pub open spec fn token_spans(tokens: Seq<TokenView>) -> Seq<SpanView> {
    tokens.map_values(|t: TokenView| SpanView { content: t.text, style: t.style })
}

/// How many visible characters stand on several lines.
pub open spec fn glyph_count(lines: Seq<Seq<SpanView>>) -> int
    decreases lines.len(),
{
    if lines.len() == 0 {
        0
    } else {
        glyph_count(lines.drop_last()) + span_glyphs(lines.last()).len()
    }
}

proof fn lemma_glyphs_concat(a: Seq<char>, b: Seq<char>, style: Style, after: bool)
    ensures
        glyphs(a + b, style, after) == glyphs(a, style, after) + glyphs(
            b,
            style,
            ends_blank(a, after),
        ),
        ends_blank(a + b, after) == ends_blank(b, ends_blank(a, after)),
    decreases b.len(),
{
    if b.len() == 0 {
        assert(a + b =~= a);
        assert(glyphs(a, style, after) + Seq::<Glyph>::empty() =~= glyphs(a, style, after));
    } else {
        assert((a + b).drop_last() =~= a + b.drop_last());
        assert((a + b).last() == b.last());
        lemma_glyphs_concat(a, b.drop_last(), style, after);
        let behind = ends_blank(a, after);
        let front = glyphs(b.drop_last(), style, behind);
        let last = (b.last(), style, ends_blank(b.drop_last(), behind));
        if is_space(b.last()) {
            assert(glyphs(b, style, behind) == front);
        } else {
            assert(glyphs(b, style, behind) == front.push(last));
            assert(glyphs(a + b, style, after) == glyphs(a + b.drop_last(), style, after).push(
                last,
            ));
        }
        assert(glyphs(a + b, style, after) =~= glyphs(a, style, after) + glyphs(
            b,
            style,
            ends_blank(a, after),
        ));
    }
}

proof fn lemma_glyphs_of_space(s: Seq<char>, style: Style, after: bool)
    requires
        all_space(s),
    ensures
        glyphs(s, style, after) == Seq::<Glyph>::empty(),
        s.len() > 0 ==> ends_blank(s, after),
    decreases s.len(),
{
    if s.len() > 0 {
        assert(is_space(s[s.len() - 1]));
        assert forall|i: int| 0 <= i < s.drop_last().len() implies is_space(
            #[trigger] s.drop_last()[i],
        ) by {
            assert(is_space(s[i]));
        }
        lemma_glyphs_of_space(s.drop_last(), style, after);
    }
}

/// What stands before a text tells on its first visible character alone, and on
/// that only where it begins the text.
proof fn lemma_glyphs_after(text: Seq<char>, style: Style, a: bool, b: bool)
    ensures
        glyphs(text, style, a).len() == glyphs(text, style, b).len(),
        glyphs(text, style, a).len() > 0 ==> text.len() > 0,
        forall|i: int|
            #![trigger glyphs(text, style, a)[i]]
            0 <= i < glyphs(text, style, a).len() ==> glyphs(text, style, a)[i].0 == glyphs(
                text,
                style,
                b,
            )[i].0 && glyphs(text, style, a)[i].1 == style && glyphs(text, style, b)[i].1
                == style && (i > 0 ==> glyphs(text, style, a)[i].2 == glyphs(
                text,
                style,
                b,
            )[i].2),
        text.len() > 0 && !is_space(text[0]) ==> glyphs(text, style, a).len() > 0 && glyphs(
            text,
            style,
            a,
        )[0].2 == a,
    decreases text.len(),
{
    if text.len() > 0 {
        let front = text.drop_last();
        lemma_glyphs_after(front, style, a, b);
        let ga = glyphs(text, style, a);
        let gb = glyphs(text, style, b);
        let fa = glyphs(front, style, a);
        let fb = glyphs(front, style, b);
        if front.len() > 0 {
            assert(front[0] == text[0]);
        }
        if front.len() > 0 && fa.len() == 0 && !is_space(text.last()) {
            assert(ga[0].2 == ends_blank(front, a));
        }
        assert forall|i: int| #![trigger ga[i]] 0 <= i < ga.len() implies ga[i].0 == gb[i].0
            && ga[i].1 == style && gb[i].1 == style && (i > 0 ==> ga[i].2
            == gb[i].2) by {
            if i < fa.len() {
                assert(fa[i] == ga[i]);
                assert(fb[i] == gb[i]);
            } else if i > 0 {
                assert(front.len() > 0);
            }
        }
    }
}

proof fn lemma_span_glyphs_push(spans: Seq<SpanView>, span: SpanView)
    ensures
        span_glyphs(spans.push(span)) == span_glyphs(spans) + glyphs(
            span.content,
            span.style,
            spans_end_blank(spans),
        ),
        spans_end_blank(spans.push(span)) == ends_blank(span.content, spans_end_blank(spans)),
{
    assert(spans.push(span).drop_last() =~= spans);
}

spec fn words_end_blank(words: Seq<WordView>) -> bool
    decreases words.len(),
{
    if words.len() == 0 {
        false
    } else {
        ends_blank(
            words.last().text,
            words.last().spaced || words_end_blank(words.drop_last()),
        )
    }
}

spec fn word_glyphs(words: Seq<WordView>) -> Seq<Glyph>
    decreases words.len(),
{
    if words.len() == 0 {
        Seq::empty()
    } else {
        word_glyphs(words.drop_last()) + glyphs(
            words.last().text,
            words.last().style,
            words.last().spaced || words_end_blank(words.drop_last()),
        )
    }
}

spec fn blank_behind(w: Words) -> bool {
    w.pending || words_end_blank(w.words)
}

proof fn lemma_with_word_glyphs(w: Words, text: Seq<char>, style: Style)
    ensures
        word_glyphs(w.with_word(text, style).words) == word_glyphs(w.words) + glyphs(
            text,
            style,
            blank_behind(w),
        ),
        blank_behind(w.with_word(text, style)) == ends_blank(text, blank_behind(w)),
{
    assert(w.with_word(text, style).words.drop_last() =~= w.words);
}

proof fn lemma_with_runs_glyphs(w: Words, parts: Seq<Seq<char>>, style: Style)
    requires
        forall|i: int|
            #![trigger parts[i]]
            0 <= i < parts.len() ==> parts[i].len() > 0 && (all_space(parts[i]) || no_space(
                parts[i],
            )),
    ensures
        word_glyphs(w.with_runs(parts, style).words) == word_glyphs(w.words) + glyphs(
            concat(parts),
            style,
            blank_behind(w),
        ),
        blank_behind(w.with_runs(parts, style)) == ends_blank(concat(parts), blank_behind(w)),
    decreases parts.len(),
{
    if parts.len() == 0 {
        assert(word_glyphs(w.words) + Seq::<Glyph>::empty() =~= word_glyphs(w.words));
    } else {
        let front = parts.drop_last();
        let last = parts.last();
        let before = w.with_runs(front, style);
        assert(parts[parts.len() - 1] == last);
        assert forall|i: int| #![trigger front[i]] 0 <= i < front.len() implies front[i].len() > 0
            && (all_space(front[i]) || no_space(front[i])) by {
            assert(front[i] == parts[i]);
        }
        lemma_with_runs_glyphs(w, front, style);
        lemma_glyphs_concat(concat(front), last, style, blank_behind(w));
        if all_space(last) {
            lemma_glyphs_of_space(last, style, ends_blank(concat(front), blank_behind(w)));
            assert(glyphs(concat(front), style, blank_behind(w)) + Seq::<Glyph>::empty()
                =~= glyphs(concat(front), style, blank_behind(w)));
        } else {
            lemma_with_word_glyphs(before, last, style);
            assert(word_glyphs(w.words) + glyphs(concat(front), style, blank_behind(w)) + glyphs(
                last,
                style,
                blank_behind(before),
            ) =~= word_glyphs(w.words) + glyphs(concat(parts), style, blank_behind(w)));
        }
    }
}

proof fn lemma_words_glyphs(tokens: Seq<TokenView>)
    ensures
        word_glyphs(words_of(tokens).words) == span_glyphs(token_spans(tokens)),
        blank_behind(words_of(tokens)) == spans_end_blank(token_spans(tokens)),
    decreases tokens.len(),
{
    if tokens.len() > 0 {
        let front = tokens.drop_last();
        let before = words_of(front);
        let token = tokens.last();
        lemma_words_glyphs(front);
        assert(token_spans(tokens).drop_last() =~= token_spans(front));
        if token.atomic {
            lemma_with_word_glyphs(before, token.text, token.style);
        } else {
            law_runs(token.text);
            lemma_with_runs_glyphs(before, runs(token.text), token.style);
        }
    }
}

/// Whether a line shows a stretch of a text's visible characters from one of
/// them on, with whitespace where that has it, but for before the first.
#[verifier::opaque]
spec fn shows_from(line: Seq<SpanView>, all: Seq<Glyph>, from: int) -> bool {
    let shown = span_glyphs(line);
    &&& 0 <= from
    &&& from + shown.len() <= all.len()
    &&& forall|i: int|
        #![trigger shown[i]]
        0 <= i < shown.len() ==> shown[i].0 == all[from + i].0 && shown[i].1 == all[from
            + i].1 && (i > 0 ==> shown[i].2 == all[from + i].2)
}

proof fn lemma_shows_more(line: Seq<SpanView>, all: Seq<Glyph>, more: Seq<Glyph>, from: int)
    requires
        shows_from(line, all, from),
    ensures
        shows_from(line, all + more, from),
{
    reveal(shows_from);
    let shown = span_glyphs(line);
    assert forall|i: int| #![trigger shown[i]] 0 <= i < shown.len() implies shown[i].0 == (all
        + more)[from + i].0 && shown[i].1 == (all + more)[from + i].1 && (i > 0
        ==> shown[i].2 == (all + more)[from + i].2) by {
        assert((all + more)[from + i] == all[from + i]);
    }
}

proof fn lemma_glyph_count_push(lines: Seq<Seq<SpanView>>, line: Seq<SpanView>)
    ensures
        glyph_count(lines.push(line)) == glyph_count(lines) + span_glyphs(line).len(),
{
    assert(lines.push(line).drop_last() =~= lines);
}

/// Whether a line that follows others holds a word first which the line before
/// it had no room for.
spec fn had_no_room(
    before: Seq<SpanView>,
    line: Seq<SpanView>,
    word: WordView,
    width: int,
) -> bool {
    &&& line.len() > 0
    &&& line[0] == (SpanView { content: word.text, style: word.style })
    &&& line_width(before) > 0
    &&& line_width(before) + (if word.spaced {
        1int
    } else {
        0
    }) + word.text.len() > width
}

/// What holds of the lines that words have filled, of the one being filled too.
spec fn fills(lines: Seq<Seq<SpanView>>, words: Seq<WordView>, width: int) -> bool {
    &&& forall|l: int|
        0 <= l < lines.len() ==> shows_from(
            #[trigger] lines[l],
            word_glyphs(words),
            glyph_count(lines.take(l)),
        )
    &&& glyph_count(lines) == word_glyphs(words).len()
    &&& forall|l: int| 0 < l < lines.len() ==> #[trigger] begins_where_needed(lines, words, width, l)
}

/// Whether line `l` begins with a word that the line before it had no room for.
spec fn begins_where_needed(
    lines: Seq<Seq<SpanView>>,
    words: Seq<WordView>,
    width: int,
    l: int,
) -> bool {
    exists|w: int| #[trigger] begins_with_word(lines, words, width, l, w)
}

spec fn begins_with_word(
    lines: Seq<Seq<SpanView>>,
    words: Seq<WordView>,
    width: int,
    l: int,
    w: int,
) -> bool {
    &&& 0 <= w < words.len()
    &&& had_no_room(lines[l - 1], lines[l], words[w], width)
    &&& glyph_count(lines.take(l)) == word_glyphs(words.take(w)).len()
}

spec fn all_lines(f: Filled) -> Seq<Seq<SpanView>> {
    f.full.push(f.current)
}

proof fn lemma_line_begun(line: Seq<SpanView>)
    ensures
        span_glyphs(line).len() > 0 ==> line_width(line) > 0,
    decreases line.len(),
{
    if line.len() > 0 {
        lemma_line_begun(line.drop_last());
        let last = line.last();
        lemma_glyphs_after(last.content, last.style, spans_end_blank(line.drop_last()), false);
    }
}

/// A word on a new line.
proof fn lemma_shown_first(word: WordView, behind: bool, known: Seq<Glyph>)
    ensures
        ({
            let line = seq![SpanView { content: word.text, style: word.style }];
            let more = glyphs(word.text, word.style, word.spaced || behind);
            &&& shows_from(line, known + more, known.len() as int)
            &&& span_glyphs(line).len() == more.len()
            &&& span_glyphs(line).len() > 0 ==> spans_end_blank(line) == ends_blank(
                word.text,
                word.spaced || behind,
            )
        }),
{
    reveal(shows_from);
    let span = SpanView { content: word.text, style: word.style };
    let line = seq![span];
    let more = glyphs(word.text, word.style, word.spaced || behind);
    let shown = glyphs(word.text, word.style, false);
    lemma_span_glyphs_push(Seq::empty(), span);
    assert(Seq::<SpanView>::empty().push(span) =~= line);
    assert(span_glyphs(line) =~= shown);
    lemma_glyphs_after(word.text, word.style, false, word.spaced || behind);
    assert forall|i: int| #![trigger span_glyphs(line)[i]] 0 <= i < span_glyphs(
        line,
    ).len() implies span_glyphs(line)[i].0 == (known + more)[known.len() + i].0 && span_glyphs(
        line,
    )[i].1 == (known + more)[known.len() + i].1 && (i > 0 ==> span_glyphs(line)[i].2 == (known
        + more)[known.len() + i].2) by {
        assert((known + more)[known.len() + i] == more[i]);
        assert(shown[i].0 == more[i].0);
    }
}

/// A word behind others on a line, with a blank before it where it has one.
proof fn lemma_shown_behind(
    line: Seq<SpanView>,
    word: WordView,
    behind: bool,
    known: Seq<Glyph>,
    from: int,
)
    requires
        shows_from(line, known, from),
        known.len() == from + span_glyphs(line).len(),
        span_glyphs(line).len() > 0 ==> spans_end_blank(line) == behind,
    ensures
        ({
            let span = SpanView { content: word.text, style: word.style };
            let longer = if word.spaced && line_width(line) > 0 {
                line.push(raw_span(seq![' '])).push(span)
            } else {
                line.push(span)
            };
            let more = glyphs(word.text, word.style, word.spaced || behind);
            &&& shows_from(longer, known + more, from)
            &&& span_glyphs(longer).len() == span_glyphs(line).len() + more.len()
            &&& span_glyphs(longer).len() > 0 ==> spans_end_blank(longer) == ends_blank(
                word.text,
                word.spaced || behind,
            )
        }),
{
    reveal(shows_from);
    let span = SpanView { content: word.text, style: word.style };
    let space = raw_span(seq![' ']);
    let gap = word.spaced && line_width(line) > 0;
    let longer = if gap {
        line.push(space).push(span)
    } else {
        line.push(span)
    };
    let more = glyphs(word.text, word.style, word.spaced || behind);
    let begun = span_glyphs(line);
    let blank = gap || spans_end_blank(line);
    let shown = glyphs(word.text, word.style, blank);
    lemma_line_begun(line);
    lemma_span_glyphs_push(line, span);
    lemma_span_glyphs_push(line, space);
    lemma_span_glyphs_push(line.push(space), span);
    assert(all_space(space.content));
    lemma_glyphs_of_space(space.content, space.style, spans_end_blank(line));
    assert(begun + Seq::<Glyph>::empty() =~= begun);
    assert(span_glyphs(longer) == begun + shown);
    assert(spans_end_blank(longer) == ends_blank(word.text, blank));
    lemma_glyphs_after(word.text, word.style, blank, word.spaced || behind);
    if begun.len() > 0 {
        assert(blank == (word.spaced || behind));
    }
    assert forall|i: int| #![trigger span_glyphs(longer)[i]] 0 <= i < span_glyphs(
        longer,
    ).len() implies span_glyphs(longer)[i].0 == (known + more)[from + i].0 && span_glyphs(
        longer,
    )[i].1 == (known + more)[from + i].1 && (i > 0 ==> span_glyphs(longer)[i].2 == (known
        + more)[from + i].2) by {
        if i < begun.len() {
            assert(span_glyphs(longer)[i] == begun[i]);
            assert((known + more)[from + i] == known[from + i]);
        } else {
            let k = i - begun.len();
            assert(span_glyphs(longer)[i] == shown[k]);
            assert((known + more)[from + i] == more[k]);
            assert(shown[k].0 == more[k].0);
        }
    }
}

proof fn lemma_shows_still(
    old_lines: Seq<Seq<SpanView>>,
    lines: Seq<Seq<SpanView>>,
    front: Seq<WordView>,
    words: Seq<WordView>,
    l: int,
)
    requires
        words.len() > 0,
        front == words.drop_last(),
        0 <= l < old_lines.len() <= lines.len(),
        forall|k: int| 0 <= k <= l ==> #[trigger] lines[k] == old_lines[k],
        shows_from(old_lines[l], word_glyphs(front), glyph_count(old_lines.take(l))),
    ensures
        shows_from(lines[l], word_glyphs(words), glyph_count(lines.take(l))),
{
    let word = words.last();
    let more = glyphs(word.text, word.style, word.spaced || words_end_blank(front));
    assert(lines.take(l) =~= old_lines.take(l));
    lemma_shows_more(old_lines[l], word_glyphs(front), more, glyph_count(old_lines.take(l)));
}

/// Lines keep what holds of them when one word more is placed on the last.
proof fn lemma_fills_on(
    full: Seq<Seq<SpanView>>,
    current: Seq<SpanView>,
    longer: Seq<SpanView>,
    front: Seq<WordView>,
    words: Seq<WordView>,
    width: int,
)
    requires
        words.len() > 0,
        front == words.drop_last(),
        fills(full.push(current), front, width),
        longer.len() > 0,
        current.len() > 0 ==> longer[0] == current[0],
        shows_from(longer, word_glyphs(words), glyph_count(full)),
        glyph_count(full.push(longer)) == word_glyphs(words).len(),
    ensures
        fills(full.push(longer), words, width),
{
    let old_lines = full.push(current);
    let lines = full.push(longer);
    let last = full.len() as int;
    assert forall|l: int| 0 <= l < lines.len() implies shows_from(
        #[trigger] lines[l],
        word_glyphs(words),
        glyph_count(lines.take(l)),
    ) by {
        if l < last {
            assert(shows_from(old_lines[l], word_glyphs(front), glyph_count(old_lines.take(l))));
            lemma_shows_still(old_lines, lines, front, words, l);
        } else {
            assert(lines.take(l) =~= full);
        }
    }
    assert forall|l: int| 0 < l < lines.len() implies #[trigger] begins_where_needed(
        lines,
        words,
        width,
        l,
    ) by {
        assert(begins_where_needed(old_lines, front, width, l));
        lemma_begins_still(old_lines, lines, front, words, width, l);
    }
}

/// Lines keep what holds of them when one word more is placed on a new line.
proof fn lemma_fills_new(
    old_lines: Seq<Seq<SpanView>>,
    line: Seq<SpanView>,
    front: Seq<WordView>,
    words: Seq<WordView>,
    width: int,
)
    requires
        words.len() > 0,
        front == words.drop_last(),
        old_lines.len() > 0,
        fills(old_lines, front, width),
        had_no_room(old_lines.last(), line, words.last(), width),
        shows_from(line, word_glyphs(words), glyph_count(old_lines)),
        glyph_count(old_lines.push(line)) == word_glyphs(words).len(),
    ensures
        fills(old_lines.push(line), words, width),
{
    let lines = old_lines.push(line);
    let last = old_lines.len() as int;
    assert forall|l: int| 0 <= l < lines.len() implies shows_from(
        #[trigger] lines[l],
        word_glyphs(words),
        glyph_count(lines.take(l)),
    ) by {
        if l < last {
            assert(shows_from(old_lines[l], word_glyphs(front), glyph_count(old_lines.take(l))));
            lemma_shows_still(old_lines, lines, front, words, l);
        } else {
            assert(lines.take(l) =~= old_lines);
        }
    }
    assert forall|l: int| 0 < l < lines.len() implies #[trigger] begins_where_needed(
        lines,
        words,
        width,
        l,
    ) by {
        if l < last {
            assert(begins_where_needed(old_lines, front, width, l));
            lemma_begins_still(old_lines, lines, front, words, width, l);
        } else {
            let w = words.len() - 1;
            assert(words.take(w) =~= front);
            assert(lines.take(l) =~= old_lines);
            assert(begins_with_word(lines, words, width, l, w));
        }
    }
}

proof fn lemma_begins_still(
    old_lines: Seq<Seq<SpanView>>,
    lines: Seq<Seq<SpanView>>,
    front: Seq<WordView>,
    words: Seq<WordView>,
    width: int,
    l: int,
)
    requires
        words.len() > 0,
        front == words.drop_last(),
        0 < l < old_lines.len() <= lines.len(),
        forall|k: int| 0 <= k < l ==> #[trigger] lines[k] == old_lines[k],
        old_lines[l].len() > 0 ==> lines[l].len() > 0 && lines[l][0] == old_lines[l][0],
        begins_where_needed(old_lines, front, width, l),
    ensures
        begins_where_needed(lines, words, width, l),
{
    let w = choose|w: int| #[trigger] begins_with_word(old_lines, front, width, l, w);
    assert(begins_with_word(old_lines, front, width, l, w));
    assert(words[w] == front[w]);
    assert(words.take(w) =~= front.take(w));
    assert(lines.take(l) =~= old_lines.take(l));
    assert(lines[l - 1] == old_lines[l - 1]);
    assert(begins_with_word(lines, words, width, l, w));
}

proof fn lemma_filled(words: Seq<WordView>, width: int)
    ensures
        fills(all_lines(filled(words, width)), words, width),
        span_glyphs(filled(words, width).current).len() > 0 ==> spans_end_blank(
            filled(words, width).current,
        ) == words_end_blank(words),
    decreases words.len(),
{
    if words.len() == 0 {
        let f = filled(words, width);
        let lines = all_lines(f);
        assert(lines.take(0) =~= Seq::empty());
        assert(lines.drop_last() =~= Seq::empty());
        assert(glyph_count(Seq::<Seq<SpanView>>::empty()) == 0);
        assert(glyph_count(lines) == 0);
        reveal(shows_from);
    } else {
        let front = words.drop_last();
        let word = words.last();
        lemma_filled(front, width);
        let before = filled(front, width);
        let after = filled(words, width);
        let old_lines = all_lines(before);
        let lines = all_lines(after);
        let behind = words_end_blank(front);
        let known = word_glyphs(front);
        let from = glyph_count(before.full);
        lemma_glyph_count_push(before.full, before.current);
        lemma_glyph_count_push(after.full, after.current);
        assert(old_lines.take(before.full.len() as int) =~= before.full);
        assert(old_lines[before.full.len() as int] == before.current);
        assert(old_lines.drop_last() =~= before.full);
        assert(lines.drop_last() =~= after.full);
        if after.full.len() > before.full.len() {
            assert(after.full =~= old_lines);
            lemma_shown_first(word, behind, known);
            lemma_fills_new(old_lines, after.current, front, words, width);
        } else {
            assert(after.full == before.full);
            lemma_shown_behind(before.current, word, behind, known, from);
            lemma_fills_on(before.full, before.current, after.current, front, words, width);
        }
    }
}

proof fn lemma_wrapped_lines(tokens: Seq<TokenView>, width: int)
    ensures
        fills(wrapped(tokens, width), words_of(tokens).words, width),
        word_glyphs(words_of(tokens).words) == span_glyphs(token_spans(tokens)),
{
    let words = words_of(tokens).words;
    let f = filled(words, width);
    lemma_words_glyphs(tokens);
    lemma_filled(words, width);
    let lines = all_lines(f);
    if f.current.len() == 0 && f.full.len() > 0 {
        assert(lines[lines.len() - 1] == f.current);
        assert(begins_where_needed(lines, words, width, lines.len() - 1));
        assert(false);
    }
}

/// Wrapping joins no words and parts none: the visible characters of the tokens
/// stand on the lines, all of them, in their order and in their styles, and two
/// of them that follow one another on a line have whitespace between them just
/// where they have it in the tokens.
pub proof fn law_wrapping_joins_no_words(tokens: Seq<TokenView>, width: int, l: int, i: int)
    requires
        0 <= l < wrapped(tokens, width).len(),
        0 <= i < span_glyphs(wrapped(tokens, width)[l]).len(),
    ensures
        ({
            let lines = wrapped(tokens, width);
            let shown = span_glyphs(lines[l])[i];
            let all = span_glyphs(token_spans(tokens));
            let at = glyph_count(lines.take(l)) + i;
            &&& glyph_count(lines) == all.len()
            &&& 0 <= at < all.len()
            &&& shown.0 == all[at].0
            &&& shown.1 == all[at].1
            &&& i > 0 ==> shown.2 == all[at].2
        }),
{
    lemma_wrapped_lines(tokens, width);
    reveal(shows_from);
    let lines = wrapped(tokens, width);
    assert(shows_from(
        lines[l],
        word_glyphs(words_of(tokens).words),
        glyph_count(lines.take(l)),
    ));
}

/// A line is broken only where it must be: the first word of the next one, with
/// the blank before it that the tokens have there, had no room on it.
pub proof fn law_lines_are_filled(tokens: Seq<TokenView>, width: int, l: int)
    requires
        0 < l < wrapped(tokens, width).len(),
    ensures
        ({
            let lines = wrapped(tokens, width);
            let all = span_glyphs(token_spans(tokens));
            let at = glyph_count(lines.take(l));
            let word = lines[l][0].content;
            &&& lines[l].len() > 0
            &&& line_width(lines[l - 1]) > 0
            &&& line_width(lines[l - 1]) + 1 + word.len() > width
            &&& word.len() > 0 && !is_space(word[0]) && !all[at].2 ==> line_width(lines[l - 1])
                + word.len() > width
        }),
{
    lemma_wrapped_lines(tokens, width);
    let lines = wrapped(tokens, width);
    let words = words_of(tokens).words;
    assert(begins_where_needed(lines, words, width, l));
    let w = choose|w: int| #[trigger] begins_with_word(lines, words, width, l, w);
    assert(begins_with_word(lines, words, width, l, w));
    let word = words[w];
    if word.text.len() > 0 && !is_space(word.text[0]) {
        let part = word_part(words, w);
        lemma_word_at(words, w);
        lemma_glyphs_after(
            word.text,
            word.style,
            word.spaced || words_end_blank(words.take(w)),
            false,
        );
        assert(part[0].2 == (word.spaced || words_end_blank(words.take(w))));
        assert(word_glyphs(words)[word_glyphs(words.take(w)).len() as int + 0] == part[0]);
    }
}

spec fn word_part(words: Seq<WordView>, w: int) -> Seq<Glyph> {
    glyphs(words[w].text, words[w].style, words[w].spaced || words_end_blank(words.take(w)))
}

proof fn lemma_word_at(words: Seq<WordView>, w: int)
    requires
        0 <= w < words.len(),
    ensures
        ({
            let from = word_glyphs(words.take(w)).len();
            &&& from + word_part(words, w).len() <= word_glyphs(words).len()
            &&& forall|k: int|
                0 <= k < word_part(words, w).len() ==> word_glyphs(words)[from + k]
                    == #[trigger] word_part(words, w)[k]
        }),
    decreases words.len(),
{
    let front = words.drop_last();
    if w < front.len() {
        lemma_word_at(front, w);
        assert(front[w] == words[w]);
        assert(front.take(w) =~= words.take(w));
        assert(word_part(front, w) == word_part(words, w));
        let from = word_glyphs(words.take(w)).len();
        assert forall|k: int| 0 <= k < word_part(words, w).len() implies word_glyphs(words)[from
            + k] == #[trigger] word_part(words, w)[k] by {
            assert(word_glyphs(front)[from + k] == word_part(front, w)[k]);
        }
    } else {
        assert(words.take(w) =~= front);
        assert(words[w] == words.last());
        assert(word_glyphs(words) == word_glyphs(front) + word_part(words, w));
    }
}

/// Whether blanks in a text stand single, and between other characters.
pub open spec fn is_tidy(text: Seq<char>) -> bool {
    forall|i: int|
        #![trigger text[i]]
        0 <= i < text.len() && is_space(text[i]) ==> text[i] == ' ' && 0 < i < text.len() - 1
            && !is_space(text[i - 1]) && !is_space(text[i + 1])
}

spec fn is_solid(word: WordView) -> bool {
    word.text.len() > 0 && no_space(word.text)
}

proof fn lemma_words_solid(tokens: Seq<TokenView>)
    requires
        forall|i: int|
            0 <= i < tokens.len() && (#[trigger] tokens[i]).atomic ==> tokens[i].text.len() > 0
                && no_space(tokens[i].text),
    ensures
        forall|i: int|
            0 <= i < words_of(tokens).words.len() ==> is_solid(#[trigger] words_of(tokens).words[i]),
    decreases tokens.len(),
{
    if tokens.len() > 0 {
        let front = tokens.drop_last();
        assert forall|i: int| 0 <= i < front.len() && (#[trigger] front[i]).atomic implies front[
        i].text.len() > 0 && no_space(front[i].text) by {
            assert(front[i] == tokens[i]);
        }
        lemma_words_solid(front);
        let token = tokens.last();
        assert(tokens[tokens.len() - 1] == token);
        if !token.atomic {
            law_runs(token.text);
            lemma_runs_solid(words_of(front), runs(token.text), token.style);
        }
    }
}

proof fn lemma_runs_solid(w: Words, parts: Seq<Seq<char>>, style: Style)
    requires
        forall|i: int| 0 <= i < w.words.len() ==> is_solid(#[trigger] w.words[i]),
        forall|i: int|
            #![trigger parts[i]]
            0 <= i < parts.len() ==> parts[i].len() > 0 && (all_space(parts[i]) || no_space(
                parts[i],
            )),
    ensures
        forall|i: int|
            0 <= i < w.with_runs(parts, style).words.len() ==> is_solid(
                #[trigger] w.with_runs(parts, style).words[i],
            ),
    decreases parts.len(),
{
    if parts.len() > 0 {
        let front = parts.drop_last();
        assert forall|i: int| #![trigger front[i]] 0 <= i < front.len() implies front[i].len() > 0
            && (all_space(front[i]) || no_space(front[i])) by {
            assert(front[i] == parts[i]);
        }
        let last = parts.last();
        assert(parts[parts.len() - 1] == last);
        lemma_runs_solid(w, front, style);
        let before = w.with_runs(front, style);
        let after = w.with_runs(parts, style);
        assert forall|i: int| 0 <= i < after.words.len() implies is_solid(
            #[trigger] after.words[i],
        ) by {
            if i < before.words.len() {
                assert(after.words[i] == before.words[i]);
            } else {
                assert(after.words[i].text == last);
            }
        }
    }
}

proof fn lemma_filled_tidy(words: Seq<WordView>, width: int)
    requires
        forall|i: int| 0 <= i < words.len() ==> is_solid(#[trigger] words[i]),
    ensures
        forall|l: int|
            0 <= l < filled(words, width).full.len() ==> is_tidy(
                line_text(#[trigger] filled(words, width).full[l]),
            ),
        is_tidy(line_text(filled(words, width).current)),
    decreases words.len(),
{
    if words.len() > 0 {
        let front = words.drop_last();
        let word = words.last();
        assert(words[words.len() - 1] == word);
        assert forall|i: int| 0 <= i < front.len() implies is_solid(#[trigger] front[i]) by {
            assert(front[i] == words[i]);
        }
        lemma_filled_tidy(front, width);
        let before = filled(front, width);
        let after = filled(words, width);
        let span = SpanView { content: word.text, style: word.style };
        let space = raw_span(seq![' ']);
        let text = line_text(before.current);
        lemma_line_text_push(Seq::empty(), span);
        assert(Seq::<SpanView>::empty().push(span) =~= seq![span]);
        assert(Seq::<char>::empty() + span.content =~= span.content);
        lemma_line_text_push(before.current, span);
        lemma_line_text_push(before.current, space);
        lemma_line_text_push(before.current.push(space), span);
        let now = line_text(after.current);
        if text.len() > 0 {
            assert(!is_space(text[text.len() - 1]));
        }
        assert(!is_space(word.text[0]));
        assert forall|i: int| #![trigger now[i]] 0 <= i < now.len() && is_space(now[i]) implies now[
        i] == ' ' && 0 < i < now.len() - 1 && !is_space(now[i - 1]) && !is_space(now[i + 1]) by {
            let start = now.len() - word.text.len();
            if i >= start {
                assert(now[i] == word.text[i - start]);
                assert(false);
            } else if i < text.len() {
                assert(now[i] == text[i]);
                assert(now[i + 1] == text[i + 1]);
                assert(now[i - 1] == text[i - 1]);
            } else {
                assert(now[i + 1] == word.text[0]);
                assert(now[i - 1] == text[i - 1]);
            }
        }
        assert forall|l: int| 0 <= l < after.full.len() implies is_tidy(
            line_text(#[trigger] after.full[l]),
        ) by {
            if l < before.full.len() {
                assert(after.full[l] == before.full[l]);
            }
        }
    }
}

/// Words on a line have one blank between them where they have whitespace there
/// in the tokens, and a line neither begins nor ends with a blank; only code may
/// hold other whitespace, which is shown as it stands.
pub proof fn law_wrapped_lines_are_tidy(tokens: Seq<TokenView>, width: int, l: int)
    requires
        0 <= l < wrapped(tokens, width).len(),
        forall|i: int|
            0 <= i < tokens.len() && (#[trigger] tokens[i]).atomic ==> tokens[i].text.len() > 0
                && no_space(tokens[i].text),
    ensures
        is_tidy(line_text(wrapped(tokens, width)[l])),
{
    lemma_words_solid(tokens);
    lemma_filled_tidy(words_of(tokens).words, width);
    let f = filled(words_of(tokens).words, width);
    if l < f.full.len() {
        assert(wrapped(tokens, width)[l] == f.full[l]);
    }
}

/// Whether a stretch of text stands on one of several lines, undivided.
pub open spec fn stands_on(lines: Seq<Seq<SpanView>>, span: SpanView) -> bool {
    exists|l: int, k: int|
        0 <= l < lines.len() && 0 <= k < lines[l].len() && #[trigger] lines[l][k] == span
}

proof fn lemma_stands_on(lines: Seq<Seq<SpanView>>, l: int, k: int, span: SpanView)
    requires
        0 <= l < lines.len(),
        0 <= k < lines[l].len(),
        lines[l][k] == span,
    ensures
        stands_on(lines, span),
{
}

proof fn lemma_word_stands(words: Seq<WordView>, width: int, w: int)
    requires
        0 <= w < words.len(),
    ensures
        stands_on(
            all_lines(filled(words, width)),
            SpanView { content: words[w].text, style: words[w].style },
        ),
    decreases words.len(),
{
    let front = words.drop_last();
    let before = filled(front, width);
    let after = filled(words, width);
    let span = SpanView { content: words[w].text, style: words[w].style };
    let lines = all_lines(after);
    if w < front.len() {
        lemma_word_stands(front, width, w);
        assert(front[w] == words[w]);
        let old_lines = all_lines(before);
        let (l, k) = choose|l: int, k: int|
            0 <= l < old_lines.len() && 0 <= k < old_lines[l].len() && #[trigger] old_lines[l][k]
                == span;
        if l < before.full.len() {
            assert(lines[l] == old_lines[l]);
        } else {
            assert(old_lines[l] == before.current);
            assert(lines[l][k] == old_lines[l][k]);
        }
        lemma_stands_on(lines, l, k, span);
    } else {
        assert(words[w] == words.last());
        let l = lines.len() - 1;
        assert(lines[l] == after.current);
        lemma_stands_on(lines, l, after.current.len() - 1, span);
    }
}

proof fn lemma_words_grow(w: Words, parts: Seq<Seq<char>>, style: Style, k: int)
    requires
        0 <= k < w.words.len(),
    ensures
        w.with_runs(parts, style).words.len() >= w.words.len(),
        w.with_runs(parts, style).words[k] == w.words[k],
    decreases parts.len(),
{
    if parts.len() > 0 {
        lemma_words_grow(w, parts.drop_last(), style, k);
    }
}

proof fn lemma_run_is_a_word(w: Words, parts: Seq<Seq<char>>, style: Style, j: int) -> (k: int)
    requires
        0 <= j < parts.len(),
        !all_space(parts[j]),
    ensures
        0 <= k < w.with_runs(parts, style).words.len(),
        w.with_runs(parts, style).words[k].text == parts[j],
        w.with_runs(parts, style).words[k].style == style,
    decreases parts.len(),
{
    let front = parts.drop_last();
    if j < front.len() {
        assert(front[j] == parts[j]);
        lemma_run_is_a_word(w, front, style, j)
    } else {
        assert(parts[j] == parts.last());
        w.with_runs(front, style).words.len() as int
    }
}

proof fn lemma_token_words(tokens: Seq<TokenView>, t: int, j: int) -> (k: int)
    requires
        0 <= t < tokens.len(),
        !tokens[t].atomic ==> 0 <= j < runs(tokens[t].text).len() && !all_space(
            runs(tokens[t].text)[j],
        ),
    ensures
        0 <= k < words_of(tokens).words.len(),
        words_of(tokens).words[k].style == tokens[t].style,
        tokens[t].atomic ==> words_of(tokens).words[k].text == tokens[t].text,
        !tokens[t].atomic ==> words_of(tokens).words[k].text == runs(tokens[t].text)[j],
    decreases tokens.len(),
{
    let front = tokens.drop_last();
    let before = words_of(front);
    let token = tokens.last();
    if t < front.len() {
        assert(front[t] == tokens[t]);
        let k = lemma_token_words(front, t, j);
        if !token.atomic {
            lemma_words_grow(before, runs(token.text), token.style, k);
        }
        k
    } else {
        assert(tokens[t] == token);
        if token.atomic {
            before.words.len() as int
        } else {
            lemma_run_is_a_word(before, runs(token.text), token.style, j)
        }
    }
}

/// No word is divided between lines, and no code: each stands on a line as it
/// is, in its style.
pub proof fn law_words_are_kept_whole(tokens: Seq<TokenView>, width: int, t: int, j: int)
    requires
        0 <= t < tokens.len(),
        !tokens[t].atomic ==> 0 <= j < runs(tokens[t].text).len() && !all_space(
            runs(tokens[t].text)[j],
        ),
    ensures
        stands_on(
            wrapped(tokens, width),
            SpanView {
                content: if tokens[t].atomic {
                    tokens[t].text
                } else {
                    runs(tokens[t].text)[j]
                },
                style: tokens[t].style,
            },
        ),
{
    let words = words_of(tokens).words;
    let k = lemma_token_words(tokens, t, j);
    lemma_word_stands(words, width, k);
    lemma_filled(words, width);
    let f = filled(words, width);
    let lines = all_lines(f);
    if f.current.len() == 0 && f.full.len() > 0 {
        assert(lines[lines.len() - 1] == f.current);
        assert(begins_where_needed(lines, words, width, lines.len() - 1));
    }
}

/// A line without marks is a single plain token.
pub proof fn law_plain_text_is_one_token(s: Seq<char>, theme: UiTheme)
    requires
        s.len() > 0,
        next_mark(s) is None,
    ensures
        inline_tokens(s, theme) == seq![
            TokenView { text: s, style: Style::plain_style(), atomic: false },
        ],
{
    lemma_find(s, bold_mark());
    lemma_find(s, code_mark());
    lemma_find(s, italic_mark());
    assert(s.take(s.len() as int) =~= s);
    assert(s.skip(s.len() as int) =~= Seq::empty());
    assert(!begins_with(s, bold_mark()));
    assert(!begins_with(s, code_mark()));
    assert(!begins_with(s, italic_mark()));
    reveal_with_fuel(inline_tokens, 2);
    assert(inline_tokens(s, theme) =~= seq![
        TokenView { text: s, style: Style::plain_style(), atomic: false },
    ]);
}

proof fn lemma_marked_stretch(text: Seq<char>, mark: Seq<char>, after: Seq<char>)
    requires
        mark.len() > 0,
        find(text + mark, mark) == Some(text.len() as int),
    ensures
        marked(mark + text + mark + after, mark) == Some(text),
        (mark + text + mark + after).skip((text.len() + 2 * mark.len()) as int) == after,
{
    let s = mark + text + mark + after;
    let rest = s.skip(mark.len() as int);
    lemma_find_extended(text + mark, after, mark);
    assert(rest =~= text + mark + after);
    assert(s.subrange(0, mark.len() as int) =~= mark);
    assert(s.subrange(mark.len() as int, (mark.len() + text.len()) as int) =~= text);
    assert(s.skip((text.len() + 2 * mark.len()) as int) =~= after);
}

/// Text between two marks of a kind is a token in the style of that kind, without
/// the marks, and the rest of the line is read on its own. Code stays in one
/// piece.
pub proof fn law_marks_style_the_text_between(text: Seq<char>, after: Seq<char>, theme: UiTheme)
    ensures
        find(text + seq!['*', '*'], seq!['*', '*']) == Some(text.len() as int) ==> inline_tokens(
            seq!['*', '*'] + text + seq!['*', '*'] + after,
            theme,
        ) == seq![TokenView { text, style: Style::bold_style(), atomic: false }] + inline_tokens(
            after,
            theme,
        ),
        !text.contains('`') ==> inline_tokens(seq!['`'] + text + seq!['`'] + after, theme) == seq![
            TokenView { text, style: Style::colored(theme.inline_code), atomic: true },
        ] + inline_tokens(after, theme),
        !text.contains('_') ==> inline_tokens(seq!['_'] + text + seq!['_'] + after, theme) == seq![
            TokenView { text, style: Style::italic_style(), atomic: false },
        ] + inline_tokens(after, theme),
{
    if find(text + bold_mark(), bold_mark()) == Some(text.len() as int) {
        lemma_marked_stretch(text, bold_mark(), after);
    }
    if !text.contains('`') {
        let s = code_mark() + text + code_mark() + after;
        lemma_find_single(text, '`');
        lemma_marked_stretch(text, code_mark(), after);
        assert(s[0] == '`');
        assert(!begins_with(s, bold_mark())) by {
            assert(bold_mark()[0] == '*');
            if begins_with(s, bold_mark()) {
                assert(s.subrange(0, 2)[0] == s[0]);
            }
        }
    }
    if !text.contains('_') {
        let s = italic_mark() + text + italic_mark() + after;
        lemma_find_single(text, '_');
        lemma_marked_stretch(text, italic_mark(), after);
        assert(s[0] == '_');
        assert(!begins_with(s, bold_mark())) by {
            assert(bold_mark()[0] == '*');
            if begins_with(s, bold_mark()) {
                assert(s.subrange(0, 2)[0] == s[0]);
            }
        }
        assert(!begins_with(s, code_mark())) by {
            assert(code_mark()[0] == '`');
            if begins_with(s, code_mark()) {
                assert(s.subrange(0, 1)[0] == s[0]);
            }
        }
    }
}

proof fn lemma_find_single(text: Seq<char>, c: char)
    requires
        !text.contains(c),
    ensures
        find(text + seq![c], seq![c]) == Some(text.len() as int),
{
    let s = text + seq![c];
    lemma_find(s, seq![c]);
    assert(s.subrange(text.len() as int, text.len() as int + 1) =~= seq![c]);
    assert(occurs_at(s, seq![c], text.len() as int));
    let i = find(s, seq![c])->0;
    if i < text.len() {
        assert(s.subrange(i, i + 1)[0] == s[i]);
        assert(text[i] == c);
    }
}

/// Text before the first mark is plain, and the rest of the line is read on its
/// own.
pub proof fn law_text_before_marks_is_plain(before: Seq<char>, rest: Seq<char>, theme: UiTheme)
    requires
        before.len() > 0,
        next_mark(before + rest) == Some(before.len() as int),
    ensures
        inline_tokens(before + rest, theme) == seq![
            TokenView { text: before, style: Style::plain_style(), atomic: false },
        ] + inline_tokens(rest, theme),
{
    let s = before + rest;
    lemma_find(s, bold_mark());
    lemma_find(s, code_mark());
    lemma_find(s, italic_mark());
    assert(!begins_with(s, bold_mark()));
    assert(!begins_with(s, code_mark()));
    assert(!begins_with(s, italic_mark()));
    assert(s.take(before.len() as int) =~= before);
    assert(s.skip(before.len() as int) =~= rest);
}

/// What stands on either side of a token where a line is written: nothing for
/// plain text.
pub open spec fn mark_of(token: TokenView) -> Seq<char> {
    if token.atomic {
        seq!['`']
    } else if token.style == Style::bold_style() {
        seq!['*', '*']
    } else if token.style == Style::italic_style() {
        seq!['_']
    } else {
        Seq::empty()
    }
}

/// A line as it is written, from its tokens.
pub open spec fn written(tokens: Seq<TokenView>) -> Seq<char>
    decreases tokens.len(),
{
    if tokens.len() == 0 {
        Seq::empty()
    } else {
        let token = tokens[0];
        mark_of(token) + token.text + mark_of(token) + written(tokens.drop_first())
    }
}

proof fn lemma_written(token: TokenView, rest: Seq<TokenView>)
    ensures
        written(seq![token] + rest) == mark_of(token) + token.text + mark_of(token) + written(rest),
{
    assert((seq![token] + rest).drop_first() =~= rest);
}

proof fn lemma_marked_parts(s: Seq<char>, mark: Seq<char>)
    requires
        mark.len() > 0,
        marked(s, mark) is Some,
    ensures
        ({
            let text = marked(s, mark)->0;
            s == mark + text + mark + s.skip((text.len() + 2 * mark.len()) as int)
        }),
{
    let n = mark.len() as int;
    let rest = s.skip(n);
    lemma_find(rest, mark);
    let text = marked(s, mark)->0;
    let end = text.len() as int;
    assert(s.subrange(0, n) == mark);
    assert(rest.subrange(end, end + n) == mark);
    assert(rest.subrange(end, end + n) =~= s.subrange(n + end, n + end + n));
    assert(s =~= s.subrange(0, n) + text + s.subrange(n + end, n + end + n) + s.skip(
        end + 2 * n,
    ));
}

/// Nothing of a line is lost or made up: its tokens, written with their marks one
/// behind the other, are the line.
pub proof fn law_tokens_are_the_line(s: Seq<char>, theme: UiTheme)
    ensures
        written(inline_tokens(s, theme)) == s,
    decreases s.len(),
{
    if s.len() == 0 {
        assert(s =~= Seq::empty());
    } else if marked(s, bold_mark()) is Some {
        let text = marked(s, bold_mark())->0;
        let rest = s.skip((text.len() + 4) as int);
        lemma_marked(s, bold_mark());
        lemma_marked_parts(s, bold_mark());
        law_tokens_are_the_line(rest, theme);
        lemma_written(
            TokenView { text, style: Style::bold_style(), atomic: false },
            inline_tokens(rest, theme),
        );
    } else if marked(s, code_mark()) is Some {
        let text = marked(s, code_mark())->0;
        let rest = s.skip((text.len() + 2) as int);
        lemma_marked(s, code_mark());
        lemma_marked_parts(s, code_mark());
        law_tokens_are_the_line(rest, theme);
        lemma_written(
            TokenView { text, style: Style::colored(theme.inline_code), atomic: true },
            inline_tokens(rest, theme),
        );
    } else if marked(s, italic_mark()) is Some {
        let text = marked(s, italic_mark())->0;
        let rest = s.skip((text.len() + 2) as int);
        lemma_marked(s, italic_mark());
        lemma_marked_parts(s, italic_mark());
        law_tokens_are_the_line(rest, theme);
        lemma_written(
            TokenView { text, style: Style::italic_style(), atomic: false },
            inline_tokens(rest, theme),
        );
    } else {
        let n = plain_len(s);
        let rest = s.skip(n);
        let token = TokenView { text: s.take(n), style: Style::plain_style(), atomic: false };
        lemma_plain_len(s);
        law_tokens_are_the_line(rest, theme);
        lemma_written(token, inline_tokens(rest, theme));
        assert(mark_of(token) + token.text + mark_of(token) + rest =~= s);
    }
}

/// A mark that is not closed is plain text by itself, and hides nothing behind it:
/// the rest of the line is read on its own.
pub proof fn law_unclosed_mark_is_plain(mark: char, rest: Seq<char>, theme: UiTheme)
    requires
        mark == '_' || mark == '`',
        !rest.contains(mark),
    ensures
        inline_tokens(seq![mark] + rest, theme) == seq![
            TokenView { text: seq![mark], style: Style::plain_style(), atomic: false },
        ] + inline_tokens(rest, theme),
{
    let s = seq![mark] + rest;
    let m = seq![mark];
    assert(s.skip(1) =~= rest);
    assert(s.take(1) =~= m);
    assert(s.subrange(0, 1) =~= m);
    lemma_find(rest, m);
    assert(find(rest, m) is None) by {
        if let Some(i) = find(rest, m) {
            assert(rest.subrange(i, i + 1)[0] == rest[i]);
            assert(rest.contains(rest[i]));
        }
    }
    assert(marked(s, m) is None);
    assert(!begins_with(s, bold_mark())) by {
        if begins_with(s, bold_mark()) {
            assert(s.subrange(0, 2)[0] == s[0]);
        }
    }
    assert forall|other: Seq<char>|
        other == code_mark() || other == italic_mark() implies other == m || !#[trigger] begins_with(
        s,
        other,
    ) by {
        if begins_with(s, other) {
            assert(s.subrange(0, 1)[0] == s[0]);
            assert(other =~= m);
        }
    }
    assert(marked(s, code_mark()) is None);
    assert(marked(s, italic_mark()) is None);
    lemma_find(s, m);
    assert(occurs_at(s, m, 0));
    assert(find(s, m) == Some(0int));
    lemma_find(s, bold_mark());
    lemma_find(s, code_mark());
    lemma_find(s, italic_mark());
    assert(next_mark(s) == Some(0int));
}

} // verus!
