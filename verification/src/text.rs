//! Text as a sequence of characters: trimming, splitting, joining, searching
//! and the decimal form of a number.
use vstd::prelude::*;

verus! {

/// `String::push` of the standard library, as its documentation has it: the
/// given character is appended to the end of the string.
pub assume_specification[ String::push ](s: &mut String, ch: char)
    ensures
        final(s)@ == old(s)@.push(ch),
;

/// The lower-case form of a text: what `str::to_lowercase` of the standard
/// library makes of it.
pub uninterp spec fn lowercase(s: Seq<char>) -> Seq<char>;

/// `str::to_lowercase` of the standard library, which follows the Unicode
/// tables of lower-case mappings. The contract gives the result a name and
/// says no more of it.
#[verifier::external_body]
pub(crate) fn to_lowercase(s: &str) -> (r: String)
    ensures
        r@ == lowercase(s@),
{
    s.to_lowercase()
}

/// The views of several strings.
pub open spec fn texts(v: Seq<String>) -> Seq<Seq<char>> {
    v.map_values(|s: String| s@)
}

/// The view of an optional string.
pub open spec fn text_opt(v: Option<String>) -> Option<Seq<char>> {
    match v {
        Some(s) => Some(s@),
        None => None,
    }
}

/// Whether a character has Unicode's White_Space property.
pub open spec fn is_space(c: char) -> bool {
    let n = c as u32;
    ||| 0x9 <= n <= 0xd
    ||| n == 0x20
    ||| n == 0x85
    ||| n == 0xa0
    ||| n == 0x1680
    ||| 0x2000 <= n <= 0x200a
    ||| n == 0x2028
    ||| n == 0x2029
    ||| n == 0x202f
    ||| n == 0x205f
    ||| n == 0x3000
}

/// Tests a character for Unicode's White_Space property.
pub fn is_whitespace(c: char) -> (r: bool)
    ensures
        r == is_space(c),
{
    let n: u32 = c as u32;
    (0x9 <= n && n <= 0xd) || n == 0x20 || n == 0x85 || n == 0xa0 || n == 0x1680 || (0x2000 <= n
        && n <= 0x200a) || n == 0x2028 || n == 0x2029 || n == 0x202f || n == 0x205f || n == 0x3000
}

/// A set of characters to trim by.
#[derive(Debug, Clone, Copy)]
pub enum CharClass {
    /// Every white-space character.
    Whitespace,
    /// One character alone.
    Only(char),
}

impl CharClass {
    /// Membership.
    pub open spec fn has(self, c: char) -> bool {
        match self {
            CharClass::Whitespace => is_space(c),
            CharClass::Only(only) => c == only,
        }
    }

    /// Tests membership.
    pub fn contains(self, c: char) -> (r: bool)
        ensures
            r == self.has(c),
    {
        match self {
            CharClass::Whitespace => is_whitespace(c),
            CharClass::Only(only) => c == only,
        }
    }
}

/// `s` without its longest prefix of characters of `class`.
pub open spec fn trimmed_start(s: Seq<char>, class: CharClass) -> Seq<char>
    decreases s.len(),
{
    if s.len() > 0 && class.has(s[0]) {
        trimmed_start(s.drop_first(), class)
    } else {
        s
    }
}

/// `s` without its longest suffix of characters of `class`.
pub open spec fn trimmed_end(s: Seq<char>, class: CharClass) -> Seq<char>
    decreases s.len(),
{
    if s.len() > 0 && class.has(s.last()) {
        trimmed_end(s.drop_last(), class)
    } else {
        s
    }
}

/// `s` without the characters of `class` at either end.
pub open spec fn trimmed_by(s: Seq<char>, class: CharClass) -> Seq<char> {
    trimmed_end(trimmed_start(s, class), class)
}

/// `s` without white space at either end.
pub open spec fn trimmed(s: Seq<char>) -> Seq<char> {
    trimmed_by(s, CharClass::Whitespace)
}

/// A text with no character of `class` at either end.
pub open spec fn is_trimmed_by(s: Seq<char>, class: CharClass) -> bool {
    s.len() > 0 ==> !class.has(s[0]) && !class.has(s.last())
}

/// A text with no white space at either end.
pub open spec fn is_trimmed(s: Seq<char>) -> bool {
    is_trimmed_by(s, CharClass::Whitespace)
}

proof fn lemma_trimmed_start(s: Seq<char>, class: CharClass)
    ensures
        trimmed_start(s, class).len() <= s.len(),
        trimmed_start(s, class) == s.skip(s.len() - trimmed_start(s, class).len()),
        trimmed_start(s, class).len() > 0 ==> !class.has(trimmed_start(s, class)[0]),
    decreases s.len(),
{
    if s.len() > 0 && class.has(s[0]) {
        lemma_trimmed_start(s.drop_first(), class);
        let n = trimmed_start(s, class).len();
        assert(s.drop_first().skip(s.len() - 1 - n) =~= s.skip(s.len() - n));
    } else {
        assert(s.skip(0) =~= s);
    }
}

proof fn lemma_trimmed_end(s: Seq<char>, class: CharClass)
    ensures
        trimmed_end(s, class).len() <= s.len(),
        trimmed_end(s, class) == s.take(trimmed_end(s, class).len() as int),
        trimmed_end(s, class).len() > 0 ==> !class.has(trimmed_end(s, class).last()),
    decreases s.len(),
{
    if s.len() > 0 && class.has(s.last()) {
        lemma_trimmed_end(s.drop_last(), class);
        let n = trimmed_end(s, class).len() as int;
        assert(s.drop_last().take(n) =~= s.take(n));
    } else {
        assert(s.take(s.len() as int) =~= s);
    }
}

/// Trimming leaves no character of the class at either end and takes nothing
/// from the middle.
pub proof fn lemma_trimmed_by(s: Seq<char>, class: CharClass)
    ensures
        is_trimmed_by(trimmed_by(s, class), class),
        exists|from: int, to: int|
            0 <= from <= to <= s.len() && trimmed_by(s, class) == #[trigger] s.subrange(from, to),
{
    let a = trimmed_start(s, class);
    let b = trimmed_end(a, class);
    lemma_trimmed_start(s, class);
    lemma_trimmed_end(a, class);
    let from = s.len() - a.len();
    assert(b =~= s.subrange(from, from + b.len()));
    if b.len() > 0 {
        assert(b[0] == a[0]);
    }
}

/// A text that is trimmed already is left as it is.
pub proof fn lemma_trimmed_fixed(s: Seq<char>, class: CharClass)
    requires
        is_trimmed_by(s, class),
    ensures
        trimmed_by(s, class) == s,
{
}

/// Trimming twice is trimming once.
pub proof fn law_trim_idempotent(s: Seq<char>, class: CharClass)
    ensures
        trimmed_by(trimmed_by(s, class), class) == trimmed_by(s, class),
{
    lemma_trimmed_by(s, class);
}

/// The characters of `s`, in order.
pub fn chars_of(s: &str) -> (r: Vec<char>)
    ensures
        r@ == s@,
{
    let mut out: Vec<char> = Vec::new();
    for ch in it: s.chars()
        invariant
            out@ == s@.take(it.index()),
            it.seq() == s@,
    {
        out.push(ch);
        assert(s@.take(it.index() + 1) =~= s@.take(it.index()).push(ch));
    }
    assert(s@.take(s@.len() as int) =~= s@);
    out
}

/// The text of `v[from..to]`.
pub fn text_of(v: &Vec<char>, from: usize, to: usize) -> (r: String)
    requires
        from <= to <= v@.len(),
    ensures
        r@ == v@.subrange(from as int, to as int),
{
    let mut out = String::new();
    let mut i: usize = from;
    while i < to
        invariant
            from <= i <= to <= v@.len(),
            out@ == v@.subrange(from as int, i as int),
        decreases to - i,
    {
        out.push(v[i]);
        assert(v@.subrange(from as int, i + 1) =~= v@.subrange(from as int, i as int).push(
            v@[i as int],
        ));
        i = i + 1;
    }
    out
}

/// The bounds of `v[from..to]` without the characters of `class` at either end.
pub fn trim_bounds(v: &Vec<char>, from: usize, to: usize, class: CharClass) -> (r: (usize, usize))
    requires
        from <= to <= v@.len(),
    ensures
        from <= r.0 <= r.1 <= to,
        v@.subrange(r.0 as int, r.1 as int) == trimmed_by(
            v@.subrange(from as int, to as int),
            class,
        ),
{
    let mut start: usize = from;
    while start < to && class.contains(v[start])
        invariant
            from <= start <= to <= v@.len(),
            trimmed_start(v@.subrange(from as int, to as int), class) == trimmed_start(
                v@.subrange(start as int, to as int),
                class,
            ),
        decreases to - start,
    {
        assert(v@.subrange(start as int, to as int).drop_first() =~= v@.subrange(
            start + 1,
            to as int,
        ));
        start = start + 1;
    }
    let ghost kept = v@.subrange(start as int, to as int);
    assert(trimmed_start(v@.subrange(from as int, to as int), class) == kept);
    let mut end: usize = to;
    while end > start && class.contains(v[end - 1])
        invariant
            from <= start <= end <= to <= v@.len(),
            trimmed_end(kept, class) == trimmed_end(
                v@.subrange(start as int, end as int),
                class,
            ),
        decreases end,
    {
        assert(v@.subrange(start as int, end as int).drop_last() =~= v@.subrange(
            start as int,
            end - 1,
        ));
        end = end - 1;
    }
    (start, end)
}

/// `s` without the characters of `class` at either end.
pub fn trim_by(s: &str, class: CharClass) -> (r: String)
    ensures
        r@ == trimmed_by(s@, class),
{
    let v = chars_of(s);
    let (from, to) = trim_bounds(&v, 0, v.len(), class);
    assert(v@.subrange(0, v@.len() as int) =~= v@);
    text_of(&v, from, to)
}

/// `s` without the characters of `class` at its end.
pub fn trim_end_by(s: &str, class: CharClass) -> (r: String)
    ensures
        r@ == trimmed_end(s@, class),
{
    let v = chars_of(s);
    let mut end: usize = v.len();
    assert(v@.subrange(0, end as int) =~= s@);
    while end > 0 && class.contains(v[end - 1])
        invariant
            end <= v@.len(),
            trimmed_end(s@, class) == trimmed_end(v@.subrange(0, end as int), class),
        decreases end,
    {
        assert(v@.subrange(0, end as int).drop_last() =~= v@.subrange(0, end - 1));
        end = end - 1;
    }
    text_of(&v, 0, end)
}

/// `s` without white space at either end.
pub fn trim(s: &str) -> (r: String)
    ensures
        r@ == trimmed(s@),
{
    trim_by(s, CharClass::Whitespace)
}

/// The parts of `s` between the occurrences of `sep`; always at least one.
pub open spec fn split(s: Seq<char>, sep: char) -> Seq<Seq<char>>
    decreases s.len(),
{
    if s.len() == 0 {
        seq![Seq::<char>::empty()]
    } else {
        let before = split(s.drop_last(), sep);
        if s.last() == sep {
            before.push(Seq::empty())
        } else {
            before.update(before.len() - 1, before.last().push(s.last()))
        }
    }
}

/// `parts` one after the other, with `sep` between them.
pub open spec fn join(parts: Seq<Seq<char>>, sep: Seq<char>) -> Seq<char>
    decreases parts.len(),
{
    if parts.len() == 0 {
        Seq::empty()
    } else if parts.len() == 1 {
        parts[0]
    } else {
        join(parts.drop_last(), sep) + sep + parts.last()
    }
}

/// Splitting gives at least one part, and no part holds the separator.
pub proof fn lemma_split(s: Seq<char>, sep: char)
    ensures
        split(s, sep).len() >= 1,
        forall|i: int|
            0 <= i < split(s, sep).len() ==> !(#[trigger] split(s, sep)[i]).contains(sep),
    decreases s.len(),
{
    if s.len() > 0 {
        lemma_split(s.drop_last(), sep);
        let before = split(s.drop_last(), sep);
        let parts = split(s, sep);
        assert forall|i: int| 0 <= i < parts.len() implies !(#[trigger] parts[i]).contains(sep) by {
            if s.last() != sep && i == before.len() - 1 {
                assert forall|k: int| 0 <= k < parts[i].len() implies parts[i][k] != sep by {
                    if k < before[i].len() {
                        assert(before[i].contains(before[i][k]));
                    }
                }
            } else if i < before.len() {
                assert(parts[i] == before[i]);
            }
        }
    }
}

/// Joining with the separator undoes splitting by it.
pub proof fn law_join_split(s: Seq<char>, sep: char)
    ensures
        join(split(s, sep), seq![sep]) == s,
    decreases s.len(),
{
    lemma_split(s, sep);
    if s.len() > 0 {
        let before = split(s.drop_last(), sep);
        lemma_split(s.drop_last(), sep);
        law_join_split(s.drop_last(), sep);
        let parts = split(s, sep);
        if s.last() == sep {
            assert(parts.drop_last() =~= before);
            assert(join(parts, seq![sep]) =~= s.drop_last().push(sep));
            assert(s.drop_last().push(sep) =~= s);
        } else {
            assert(s.drop_last().push(s.last()) =~= s);
            if before.len() > 1 {
                assert(parts.drop_last() =~= before.drop_last());
                assert(join(parts, seq![sep]) =~= join(before, seq![sep]).push(s.last()));
            }
        }
    }
}

/// Splitting a text that begins with a part free of the separator.
proof fn lemma_split_append(a: Seq<char>, b: Seq<char>, sep: char)
    requires
        !b.contains(sep),
    ensures
        split(a.push(sep) + b, sep) == split(a, sep).push(b),
        split(b, sep) == seq![b],
    decreases b.len(),
{
    let whole = a.push(sep) + b;
    if b.len() == 0 {
        assert(whole =~= a.push(sep));
        assert(whole.drop_last() =~= a);
        assert(b =~= Seq::<char>::empty());
    } else {
        let shorter = b.drop_last();
        assert forall|k: int| 0 <= k < shorter.len() implies shorter[k] != sep by {
            assert(b.contains(b[k]));
        }
        assert(b.contains(b.last()));
        lemma_split_append(a, shorter, sep);
        assert(whole.drop_last() =~= a.push(sep) + shorter);
        assert(shorter.push(b.last()) =~= b);
        assert(split(whole, sep) =~= split(a, sep).push(b));
        assert(split(b, sep) =~= seq![b]);
    }
}

/// Splitting by a separator undoes joining with it, where no part holds it.
pub proof fn law_split_join(parts: Seq<Seq<char>>, sep: char)
    requires
        parts.len() > 0,
        forall|i: int| 0 <= i < parts.len() ==> !(#[trigger] parts[i]).contains(sep),
    ensures
        split(join(parts, seq![sep]), sep) == parts,
    decreases parts.len(),
{
    let last = parts.last();
    if parts.len() == 1 {
        lemma_split_append(Seq::empty(), last, sep);
        assert(seq![last] =~= parts);
    } else {
        let front = parts.drop_last();
        assert forall|i: int| 0 <= i < front.len() implies !(#[trigger] front[i]).contains(sep) by {
            assert(front[i] == parts[i]);
        }
        law_split_join(front, sep);
        let a = join(front, seq![sep]);
        assert(a + seq![sep] + last =~= a.push(sep) + last);
        lemma_split_append(a, last, sep);
        assert(front.push(last) =~= parts);
    }
}

/// The parts of `s` between the occurrences of `sep`.
pub fn split_text(s: &str, sep: char) -> (r: Vec<String>)
    ensures
        texts(r@) == split(s@, sep),
{
    let mut parts: Vec<String> = Vec::new();
    let mut current = String::new();
    for ch in it: s.chars()
        invariant
            texts(parts@).push(current@) =~= split(s@.take(it.index()), sep),
            it.seq() == s@,
    {
        let ghost before = s@.take(it.index());
        let ghost after = s@.take(it.index() + 1);
        assert(after.drop_last() =~= before);
        assert(after.last() == ch);
        if ch == sep {
            let ghost old_parts = texts(parts@);
            let ghost finished = current@;
            parts.push(current);
            assert(texts(parts@) =~= old_parts.push(finished));
            current = String::new();
        } else {
            current.push(ch);
        }
    }
    let ghost old_parts = texts(parts@);
    let ghost finished = current@;
    parts.push(current);
    assert(texts(parts@) =~= old_parts.push(finished));
    assert(s@.take(s@.len() as int) =~= s@);
    parts
}

/// `parts` one after the other, with `sep` between them.
pub fn join_texts(parts: &[String], sep: &str) -> (r: String)
    ensures
        r@ == join(texts(parts@), sep@),
{
    let mut out = String::new();
    let mut i: usize = 0;
    while i < parts.len()
        invariant
            i <= parts@.len(),
            out@ =~= join(texts(parts@).take(i as int), sep@),
        decreases parts@.len() - i,
    {
        let ghost before = texts(parts@).take(i as int);
        let ghost after = texts(parts@).take(i + 1);
        assert(after.drop_last() =~= before);
        if i > 0 {
            out.append(sep);
        }
        out.append(parts[i].as_str());
        i = i + 1;
    }
    assert(texts(parts@).take(parts@.len() as int) =~= texts(parts@));
    out
}

/// A copy of several strings.
pub fn clone_texts(v: &Vec<String>) -> (r: Vec<String>)
    ensures
        texts(r@) == texts(v@),
{
    let mut out: Vec<String> = Vec::new();
    let mut i: usize = 0;
    while i < v.len()
        invariant
            i <= v@.len(),
            texts(out@) =~= texts(v@).take(i as int),
        decreases v@.len() - i,
    {
        let ghost before = texts(out@);
        out.push(v[i].clone());
        assert(texts(out@) =~= before.push(v@[i as int]@));
        i = i + 1;
    }
    out
}

/// A copy of an optional string.
pub fn clone_text_opt(v: &Option<String>) -> (r: Option<String>)
    ensures
        text_opt(r) == text_opt(*v),
{
    match v {
        Some(s) => Some(s.clone()),
        None => None,
    }
}

/// Whether two texts are the same.
pub fn same_text(a: &str, b: &str) -> (r: bool)
    ensures
        r == (a@ == b@),
{
    let left = chars_of(a);
    let right = chars_of(b);
    if left.len() != right.len() {
        return false;
    }
    let mut i: usize = 0;
    while i < left.len()
        invariant
            i <= left@.len(),
            left@ == a@,
            right@ == b@,
            left@.len() == right@.len(),
            forall|k: int| 0 <= k < i ==> left@[k] == right@[k],
        decreases left@.len() - i,
    {
        if left[i] != right[i] {
            return false;
        }
        i = i + 1;
    }
    assert(left@ =~= right@);
    true
}

/// `line` without one carriage return at its end.
pub open spec fn without_return(line: Seq<char>) -> Seq<char> {
    if line.len() > 0 && line.last() == '\r' {
        line.drop_last()
    } else {
        line
    }
}

/// The lines of `s`: a line ends at a line feed or at a carriage return and a
/// line feed, and the last line need not end.
pub open spec fn lines(s: Seq<char>) -> Seq<Seq<char>> {
    let parts = split(s, '\n');
    let ended = parts.drop_last().map_values(|line: Seq<char>| without_return(line));
    if parts.last().len() == 0 {
        ended
    } else {
        ended.push(parts.last())
    }
}

/// The lines of `s`.
pub fn lines_of(s: &str) -> (r: Vec<String>)
    ensures
        texts(r@) == lines(s@),
{
    let parts = split_text(s, '\n');
    proof {
        lemma_split(s@, '\n');
    }
    let ghost split_parts = split(s@, '\n');
    let ghost ended = split_parts.drop_last().map_values(|line: Seq<char>| without_return(line));
    let mut out: Vec<String> = Vec::new();
    let mut i: usize = 0;
    while i < parts.len() - 1
        invariant
            i < parts@.len(),
            texts(parts@) == split_parts,
            ended == split_parts.drop_last().map_values(|line: Seq<char>| without_return(line)),
            texts(out@) =~= ended.take(i as int),
        decreases parts@.len() - i,
    {
        let line = chars_of(parts[i].as_str());
        assert(line@ == split_parts[i as int]);
        let ghost before = texts(out@);
        let kept = if line.len() > 0 && line[line.len() - 1] == '\r' {
            text_of(&line, 0, line.len() - 1)
        } else {
            text_of(&line, 0, line.len())
        };
        assert(kept@ =~= without_return(line@));
        out.push(kept);
        assert(texts(out@) =~= before.push(kept@));
        i = i + 1;
    }
    assert(ended.take(i as int) =~= ended);
    let last = chars_of(parts[i].as_str());
    assert(last@ == split_parts.last());
    if last.len() > 0 {
        let ghost before = texts(out@);
        let line = text_of(&last, 0, last.len());
        assert(line@ =~= last@);
        out.push(line);
        assert(texts(out@) =~= before.push(line@));
    }
    out
}

/// Whether `pat` stands in `s` at `i`.
pub open spec fn occurs_at(s: Seq<char>, pat: Seq<char>, i: int) -> bool {
    0 <= i && i + pat.len() <= s.len() && s.subrange(i, i + pat.len()) == pat
}

/// Whether `pat` stands anywhere in `s`.
pub open spec fn has_part(s: Seq<char>, pat: Seq<char>) -> bool {
    exists|i: int| occurs_at(s, pat, i)
}

/// Whether `s` begins with `pat`.
pub open spec fn begins_with(s: Seq<char>, pat: Seq<char>) -> bool {
    occurs_at(s, pat, 0)
}

/// Where `pat` first stands in `s`.
pub open spec fn find(s: Seq<char>, pat: Seq<char>) -> Option<int>
    decreases s.len(),
{
    if begins_with(s, pat) {
        Some(0)
    } else if s.len() == 0 {
        None
    } else {
        match find(s.drop_first(), pat) {
            Some(i) => Some(i + 1),
            None => None,
        }
    }
}

/// `find` gives the first occurrence, and finds one if there is one.
pub proof fn lemma_find(s: Seq<char>, pat: Seq<char>)
    ensures
        match find(s, pat) {
            Some(i) => occurs_at(s, pat, i) && forall|j: int| 0 <= j < i ==> !occurs_at(s, pat, j),
            None => forall|j: int| !occurs_at(s, pat, j),
        },
    decreases s.len(),
{
    if !begins_with(s, pat) && s.len() > 0 {
        let rest = s.drop_first();
        lemma_find(rest, pat);
        assert forall|j: int| #[trigger] occurs_at(s, pat, j) implies j >= 1 && occurs_at(
            rest,
            pat,
            j - 1,
        ) by {
            assert(rest.subrange(j - 1, j - 1 + pat.len()) =~= s.subrange(j, j + pat.len()));
        }
        if let Some(i) = find(rest, pat) {
            assert(rest.subrange(i, i + pat.len()) =~= s.subrange(i + 1, i + 1 + pat.len()));
        }
    }
}

/// Whether `pat` stands in `v` at `i`.
pub fn occurs(v: &Vec<char>, pat: &Vec<char>, i: usize) -> (r: bool)
    requires
        i <= v@.len(),
    ensures
        r == occurs_at(v@, pat@, i as int),
        r == begins_with(v@.skip(i as int), pat@),
{
    proof {
        let rest = v@.skip(i as int);
        if i + pat@.len() <= v@.len() {
            assert(rest.subrange(0, pat@.len() as int) =~= v@.subrange(i as int, i + pat@.len()));
        }
    }
    let len: usize = v.len();
    if len - i < pat.len() {
        return false;
    }
    let mut k: usize = 0;
    while k < pat.len()
        invariant
            k <= pat@.len(),
            len == v@.len(),
            i + pat@.len() <= len,
            forall|j: int| 0 <= j < k ==> v@[i + j] == pat@[j],
        decreases pat@.len() - k,
    {
        if v[i + k] != pat[k] {
            assert(v@.subrange(i as int, i + pat@.len())[k as int] != pat@[k as int]);
            return false;
        }
        k = k + 1;
    }
    assert(v@.subrange(i as int, i + pat@.len()) =~= pat@);
    true
}

/// Where `pat` first stands in `v` at or after `from`.
pub fn find_from(v: &Vec<char>, pat: &Vec<char>, from: usize) -> (r: Option<usize>)
    requires
        from <= v@.len(),
    ensures
        match r {
            Some(i) => from <= i && i + pat@.len() <= v@.len() && find(v@.skip(from as int), pat@)
                == Some(i - from),
            None => find(v@.skip(from as int), pat@) is None,
        },
{
    let mut i: usize = from;
    loop
        invariant
            from <= i <= v@.len(),
            match find(v@.skip(i as int), pat@) {
                Some(k) => find(v@.skip(from as int), pat@) == Some(k + i - from),
                None => find(v@.skip(from as int), pat@) is None,
            },
        decreases v@.len() - i,
    {
        if occurs(v, pat, i) {
            return Some(i);
        }
        if i == v.len() {
            return None;
        }
        assert(v@.skip(i as int).drop_first() =~= v@.skip(i + 1));
        i = i + 1;
    }
}

/// Whether `pat` stands anywhere in `s`.
pub fn contains_text(s: &str, pat: &str) -> (r: bool)
    ensures
        r == has_part(s@, pat@),
{
    let v = chars_of(s);
    let p = chars_of(pat);
    proof {
        assert(v@.skip(0) =~= v@);
        lemma_find(v@, p@);
    }
    match find_from(&v, &p, 0) {
        Some(i) => {
            assert(occurs_at(s@, pat@, i as int));
            true
        },
        None => false,
    }
}

/// Whether `c` stands in `s`.
pub fn contains_char(s: &str, c: char) -> (r: bool)
    ensures
        r == s@.contains(c),
{
    let v = chars_of(s);
    let mut i: usize = 0;
    while i < v.len()
        invariant
            i <= v@.len(),
            v@ == s@,
            forall|k: int| 0 <= k < i ==> v@[k] != c,
        decreases v@.len() - i,
    {
        if v[i] == c {
            assert(s@[i as int] == c);
            return true;
        }
        i = i + 1;
    }
    false
}

/// `count` times the character `c`.
pub open spec fn repeated(c: char, count: nat) -> Seq<char> {
    Seq::new(count, |i: int| c)
}

/// `count` times the character `c`.
pub fn repeat_char(c: char, count: usize) -> (r: String)
    ensures
        r@ == repeated(c, count as nat),
{
    let mut out = String::new();
    let mut i: usize = 0;
    while i < count
        invariant
            i <= count,
            out@ =~= repeated(c, i as nat),
        decreases count - i,
    {
        out.push(c);
        i = i + 1;
    }
    out
}

/// The decimal digit of value `d`.
pub open spec fn digit_char(d: nat) -> char {
    (('0' as u32) + d) as char
}

/// The decimal form of `n`, without leading zeros.
pub open spec fn decimal(n: nat) -> Seq<char>
    decreases n,
{
    if n < 10 {
        seq![digit_char(n)]
    } else {
        decimal(n / 10).push(digit_char(n % 10))
    }
}

fn digit(d: usize) -> (r: char)
    requires
        d < 10,
    ensures
        r == digit_char(d as nat),
{
    match d {
        0 => '0',
        1 => '1',
        2 => '2',
        3 => '3',
        4 => '4',
        5 => '5',
        6 => '6',
        7 => '7',
        8 => '8',
        _ => '9',
    }
}

/// The decimal form of `n`, without leading zeros.
pub fn decimal_text(n: usize) -> (r: String)
    ensures
        r@ == decimal(n as nat),
    decreases n,
{
    let mut out = if n < 10 {
        String::new()
    } else {
        decimal_text(n / 10)
    };
    out.push(digit(n % 10));
    assert(n < 10 ==> out@ =~= decimal(n as nat));
    out
}

/// One text and another behind it.
pub fn concat_text(a: &str, b: &str) -> (r: String)
    ensures
        r@ == a@ + b@,
{
    let mut text = a.to_owned();
    text.append(b);
    text
}

/// Trimming takes nothing but what it should away: what is left stands in the
/// text, with characters of the class alone before and behind it, and begins and
/// ends with others.
pub proof fn law_trim_takes_the_ends_alone(s: Seq<char>, class: CharClass) -> (from: int)
    ensures
        ({
            let left = trimmed_by(s, class);
            &&& 0 <= from && from + left.len() <= s.len()
            &&& left == s.subrange(from, from + left.len())
            &&& forall|i: int| 0 <= i < from ==> class.has(#[trigger] s[i])
            &&& left.len() > 0 ==> forall|i: int|
                from + left.len() <= i < s.len() ==> class.has(#[trigger] s[i])
            &&& left.len() == 0 ==> forall|i: int| 0 <= i < s.len() ==> class.has(#[trigger] s[i])
            &&& left.len() > 0 ==> !class.has(left[0]) && !class.has(left.last())
        }),
{
    let a = trimmed_start(s, class);
    let left = trimmed_end(a, class);
    lemma_trimmed_start(s, class);
    lemma_trimmed_end(a, class);
    lemma_trimmed_start_takes(s, class);
    lemma_trimmed_end_takes(a, class);
    lemma_trimmed_by(s, class);
    let from = s.len() - a.len();
    assert(left =~= s.subrange(from, from + left.len()));
    assert forall|i: int| from + left.len() <= i < s.len() implies class.has(#[trigger] s[i]) by {
        assert(a[i - from] == s[i]);
    }
    from
}

proof fn lemma_trimmed_start_takes(s: Seq<char>, class: CharClass)
    ensures
        forall|i: int|
            0 <= i < s.len() - trimmed_start(s, class).len() ==> class.has(#[trigger] s[i]),
    decreases s.len(),
{
    if s.len() > 0 && class.has(s[0]) {
        lemma_trimmed_start_takes(s.drop_first(), class);
        assert forall|i: int| 0 <= i < s.len() - trimmed_start(s, class).len() implies class.has(
            #[trigger] s[i],
        ) by {
            if i > 0 {
                assert(s.drop_first()[i - 1] == s[i]);
            }
        }
    }
}

proof fn lemma_trimmed_end_takes(s: Seq<char>, class: CharClass)
    ensures
        forall|i: int| trimmed_end(s, class).len() <= i < s.len() ==> class.has(#[trigger] s[i]),
    decreases s.len(),
{
    if s.len() > 0 && class.has(s.last()) {
        lemma_trimmed_end_takes(s.drop_last(), class);
        assert forall|i: int| trimmed_end(s, class).len() <= i < s.len() implies class.has(
            #[trigger] s[i],
        ) by {
            if i < s.len() - 1 {
                assert(s.drop_last()[i] == s[i]);
            }
        }
    }
}

/// The number that decimal digits state.
pub open spec fn number_in(s: Seq<char>) -> int
    decreases s.len(),
{
    if s.len() == 0 {
        0
    } else {
        10 * number_in(s.drop_last()) + (s.last() as int - '0' as int)
    }
}

/// The decimal form of a number states it, in digits alone and without zeros
/// before it.
pub proof fn law_decimal(n: nat)
    ensures
        number_in(decimal(n)) == n,
        decimal(n).len() > 0,
        forall|i: int| 0 <= i < decimal(n).len() ==> '0' <= #[trigger] decimal(n)[i] <= '9',
        n > 0 ==> decimal(n)[0] != '0',
    decreases n,
{
    let last = digit_char(n % 10);
    if n < 10 {
        let one = seq![digit_char(n)];
        assert(one.drop_last() =~= Seq::empty());
        assert(number_in(one.drop_last()) == 0);
        assert(one.last() == digit_char(n));
    } else {
        let front = decimal(n / 10);
        law_decimal(n / 10);
        assert(decimal(n).drop_last() =~= front);
        assert forall|i: int| 0 <= i < decimal(n).len() implies '0' <= #[trigger] decimal(n)[i]
            <= '9' by {
            if i < front.len() {
                assert(decimal(n)[i] == front[i]);
            }
        }
        assert(decimal(n)[0] == front[0]);
    }
}

/// Lines that are written with line ends between them are read as the same
/// lines, and a line end behind the last one adds none.
pub proof fn law_lines_round_trip(parts: Seq<Seq<char>>)
    requires
        parts.len() > 0,
        forall|i: int|
            0 <= i < parts.len() ==> !(#[trigger] parts[i]).contains('\n') && without_return(
                parts[i],
            ) == parts[i],
        parts.last().len() > 0,
    ensures
        lines(join(parts, seq!['\n'])) == parts,
        lines(join(parts, seq!['\n']).push('\n')) == parts,
{
    let text = join(parts, seq!['\n']);
    law_split_join(parts, '\n');
    assert(lines(text) =~= parts) by {
        assert forall|i: int| 0 <= i < parts.len() implies lines(text)[i] == parts[i] by {
            assert(without_return(parts[i]) == parts[i]);
        }
    }
    let ended = text.push('\n');
    assert(ended.drop_last() =~= text);
    assert(split(ended, '\n') == parts.push(Seq::empty()));
    assert(parts.push(Seq::empty()).drop_last() =~= parts);
    assert(lines(ended) =~= parts) by {
        assert forall|i: int| 0 <= i < parts.len() implies lines(ended)[i] == parts[i] by {
            assert(without_return(parts[i]) == parts[i]);
        }
    }
}

/// A carriage return before a line end belongs to the end, and one at the end of
/// a text that does not end its line does not.
pub proof fn law_carriage_returns(s: Seq<char>)
    requires
        !s.contains('\n'),
        s.len() == 0 || s.last() != '\r',
    ensures
        lines(s.push('\r').push('\n')) == seq![s],
        lines(s.push('\n')) == seq![s],
        lines(s.push('\r')) == seq![s.push('\r')],
{
    let returned = s.push('\r');
    assert(!returned.contains('\n')) by {
        if returned.contains('\n') {
            let i = choose|i: int| 0 <= i < returned.len() && returned[i] == '\n';
            assert(s[i] == '\n');
        }
    }
    law_split_join(seq![s], '\n');
    law_split_join(seq![returned], '\n');
    assert(split(s, '\n') == seq![s]);
    assert(split(returned, '\n') == seq![returned]);
    assert(s.push('\n').drop_last() =~= s);
    assert(returned.push('\n').drop_last() =~= returned);
    let none = Seq::<char>::empty();
    assert(seq![s].push(none).drop_last() =~= seq![s]);
    assert(seq![returned].push(none).drop_last() =~= seq![returned]);
    assert(returned.drop_last() =~= s);
    assert(lines(s.push('\n')) =~= seq![s]);
    assert(lines(returned.push('\n')) =~= seq![s]);
    assert(lines(returned) =~= seq![returned]);
}

} // verus!
