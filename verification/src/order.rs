//! Sorting by texts.
use vstd::prelude::*;
use vstd::set_lib::{lemma_int_range, lemma_subset_equality, set_int_range};

use crate::text::chars_of;

verus! {

/// Whether `a` stands before `b` in the order of a dictionary, character by character.
pub open spec fn text_before(a: Seq<char>, b: Seq<char>) -> bool
    decreases a.len(),
{
    if b.len() == 0 {
        false
    } else if a.len() == 0 {
        true
    } else if a[0] == b[0] {
        text_before(a.drop_first(), b.drop_first())
    } else {
        a[0] < b[0]
    }
}

/// What entries are sorted by: a first text, and a second where the first ones are equal.
pub struct SortKeyView {
    pub first: Seq<char>,
    pub second: Seq<char>,
}

/// What entries are sorted by.
pub struct SortKey {
    pub first: String,
    pub second: String,
}

impl View for SortKey {
    type V = SortKeyView;

    open spec fn view(&self) -> SortKeyView {
        SortKeyView { first: self.first@, second: self.second@ }
    }
}

/// The views of several keys.
pub open spec fn key_views(v: Seq<SortKey>) -> Seq<SortKeyView> {
    v.map_values(|k: SortKey| k@)
}

/// Whether one key stands before another.
pub open spec fn key_before(a: SortKeyView, b: SortKeyView) -> bool {
    text_before(a.first, b.first) || (a.first == b.first && text_before(a.second, b.second))
}

/// Whether the entries at `i` and `j` stand in the right order: by their keys,
/// and as they came where those are equal.
pub open spec fn in_order(keys: Seq<SortKeyView>, i: int, j: int) -> bool {
    key_before(keys[i], keys[j]) || (keys[i] == keys[j] && i < j)
}

/// Whether `order` lists the entries by their keys: each once, equal ones as they came.
pub open spec fn is_sort_order(keys: Seq<SortKeyView>, order: Seq<int>) -> bool {
    &&& order.len() == keys.len()
    &&& order.no_duplicates()
    &&& forall|p: int| 0 <= p < order.len() ==> 0 <= #[trigger] order[p] < keys.len()
    &&& forall|p: int, q: int|
        0 <= p < q < order.len() ==> in_order(keys, #[trigger] order[p], #[trigger] order[q])
}

proof fn lemma_text_total(a: Seq<char>, b: Seq<char>)
    ensures
        text_before(a, b) || text_before(b, a) || a == b,
        !(text_before(a, b) && text_before(b, a)),
        !text_before(a, a),
    decreases a.len(),
{
    if a.len() > 0 {
        lemma_text_total(a.drop_first(), a.drop_first());
    }
    if a.len() > 0 && b.len() > 0 && a[0] == b[0] {
        lemma_text_total(a.drop_first(), b.drop_first());
        if a.drop_first() == b.drop_first() {
            assert(a =~= seq![a[0]] + a.drop_first());
            assert(b =~= seq![b[0]] + b.drop_first());
        }
    } else if a.len() == 0 && b.len() == 0 {
        assert(a =~= b);
    }
}

proof fn lemma_text_transitive(a: Seq<char>, b: Seq<char>, c: Seq<char>)
    requires
        text_before(a, b),
        text_before(b, c),
    ensures
        text_before(a, c),
    decreases a.len(),
{
    if a.len() > 0 && a[0] == b[0] && b[0] == c[0] {
        lemma_text_transitive(a.drop_first(), b.drop_first(), c.drop_first());
    }
}

proof fn lemma_key_total(a: SortKeyView, b: SortKeyView)
    ensures
        key_before(a, b) || key_before(b, a) || a == b,
        !(key_before(a, b) && key_before(b, a)),
        !key_before(a, a),
{
    lemma_text_total(a.first, b.first);
    lemma_text_total(a.second, b.second);
    lemma_text_total(a.first, a.first);
    lemma_text_total(a.second, a.second);
}

proof fn lemma_key_transitive(a: SortKeyView, b: SortKeyView, c: SortKeyView)
    requires
        key_before(a, b),
        key_before(b, c),
    ensures
        key_before(a, c),
{
    if text_before(a.first, b.first) && text_before(b.first, c.first) {
        lemma_text_transitive(a.first, b.first, c.first);
    }
    if text_before(a.second, b.second) && text_before(b.second, c.second) {
        lemma_text_transitive(a.second, b.second, c.second);
    }
}

/// The order of sorted entries is settled by their keys: there is no other.
pub proof fn law_sort_order_is_unique(keys: Seq<SortKeyView>, a: Seq<int>, b: Seq<int>, p: int)
    requires
        is_sort_order(keys, a),
        is_sort_order(keys, b),
        0 <= p < a.len(),
    ensures
        a[p] == b[p],
    decreases p,
{
    assert forall|q: int| 0 <= q < p implies a[q] == b[q] by {
        law_sort_order_is_unique(keys, a, b, q);
    }
    if a[p] != b[p] {
        lemma_listed(keys, b, a[p]);
        lemma_listed(keys, a, b[p]);
        let i = choose|i: int| 0 <= i < b.len() && b[i] == a[p];
        let j = choose|j: int| 0 <= j < a.len() && a[j] == b[p];
        if i < p {
            assert(a[i] == a[p]);
        }
        if j < p {
            assert(b[j] == b[p]);
        }
        assert(in_order(keys, b[p], b[i]));
        assert(in_order(keys, a[p], a[j]));
        lemma_key_total(keys[a[p]], keys[b[p]]);
        lemma_key_total(keys[a[p]], keys[a[p]]);
    }
}

proof fn lemma_listed(keys: Seq<SortKeyView>, order: Seq<int>, entry: int)
    requires
        is_sort_order(keys, order),
        0 <= entry < keys.len(),
    ensures
        exists|p: int| 0 <= p < order.len() && #[trigger] order[p] == entry,
{
    let all = Set::new(|i: int| 0 <= i < keys.len());
    let listed = order.to_set();
    vstd::set_lib::lemma_int_range(0, keys.len() as int);
    assert(all =~= vstd::set_lib::set_int_range(0, keys.len() as int));
    order.unique_seq_to_set();
    assert(listed.subset_of(all)) by {
        assert forall|i: int| listed.contains(i) implies all.contains(i) by {
            let p = choose|p: int| 0 <= p < order.len() && order[p] == i;
            assert(0 <= order[p] < keys.len());
        }
    }
    vstd::set_lib::lemma_len_subset(listed, all);
    vstd::set_lib::lemma_subset_equality(listed, all);
    assert(listed.contains(entry));
}

/// Whether `a` stands before `b` in the order of a dictionary.
pub fn is_text_before(a: &str, b: &str) -> (r: bool)
    ensures
        r == text_before(a@, b@),
{
    let v = chars_of(a);
    let w = chars_of(b);
    let mut i: usize = 0;
    assert(v@.skip(0) =~= a@);
    assert(w@.skip(0) =~= b@);
    while i < v.len() && i < w.len()
        invariant
            i <= v@.len(),
            i <= w@.len(),
            text_before(a@, b@) == text_before(v@.skip(i as int), w@.skip(i as int)),
        decreases v@.len() - i,
    {
        assert(v@.skip(i as int).drop_first() =~= v@.skip(i + 1));
        assert(w@.skip(i as int).drop_first() =~= w@.skip(i + 1));
        if v[i] != w[i] {
            return v[i] < w[i];
        }
        i = i + 1;
    }
    i < w.len()
}

fn is_key_before(a: &SortKey, b: &SortKey) -> (r: bool)
    ensures
        r == key_before(a@, b@),
{
    if is_text_before(a.first.as_str(), b.first.as_str()) {
        return true;
    }
    let other = is_text_before(b.first.as_str(), a.first.as_str());
    proof {
        lemma_text_total(a.first@, b.first@);
        lemma_text_total(b.first@, b.first@);
    }
    !other && is_text_before(a.second.as_str(), b.second.as_str())
}

/// The numbers of a list.
pub open spec fn ints(v: Seq<usize>) -> Seq<int> {
    v.map_values(|n: usize| n as int)
}

/// Lists the entries by their keys: each once, equal ones as they came.
pub fn sorted_order(keys: &Vec<SortKey>) -> (r: Vec<usize>)
    ensures
        is_sort_order(key_views(keys@), ints(r@)),
{
    let ghost views = key_views(keys@);
    let mut order: Vec<usize> = Vec::new();
    let mut i: usize = 0;
    assert(views.take(0) =~= Seq::empty());
    while i < keys.len()
        invariant
            i <= keys@.len(),
            views == key_views(keys@),
            is_sort_order(views.take(i as int), ints(order@)),
        decreases keys@.len() - i,
    {
        let ghost before = order@;
        let ghost old_ints = ints(before);
        let ghost old_views = views.take(i as int);
        assert forall|p: int| 0 <= p < before.len() implies #[trigger] before[p] < i by {
            assert(old_ints[p] == before[p]);
        }
        let mut place: usize = order.len();
        while place > 0 && is_key_before(&keys[i], &keys[order[place - 1]])
            invariant
                i < keys@.len(),
                place <= order@.len(),
                order@ == before,
                views == key_views(keys@),
                forall|p: int| 0 <= p < before.len() ==> #[trigger] before[p] < i,
                forall|p: int|
                    place <= p < before.len() ==> key_before(
                        views[i as int],
                        views[(#[trigger] before[p]) as int],
                    ),
            decreases place,
        {
            assert(views[i as int] == keys@[i as int]@);
            assert(views[before[place - 1] as int] == keys@[before[place - 1] as int]@);
            place = place - 1;
        }
        if place > 0 {
            assert(before[place - 1] < i);
            assert(views[i as int] == keys@[i as int]@);
            assert(views[before[place - 1] as int] == keys@[before[place - 1] as int]@);
        }
        order.insert(place, i);
        proof {
            let now = ints(order@);
            let new_views = views.take(i + 1);
            assert(now =~= old_ints.insert(place as int, i as int));
            assert forall|p: int| 0 <= p < now.len() implies 0 <= #[trigger] now[p]
                < new_views.len() by {
                if p < place {
                    assert(now[p] == before[p]);
                } else if p > place {
                    assert(now[p] == before[p - 1]);
                }
            }
            assert forall|p: int, q: int| 0 <= p < q < now.len() implies in_order(
                new_views,
                #[trigger] now[p],
                #[trigger] now[q],
            ) by {
                let e = if p < place {
                    p
                } else {
                    p - 1
                };
                let f = if q < place {
                    q
                } else {
                    q - 1
                };
                if p != place && q != place {
                    assert(in_order(old_views, old_ints[e], old_ints[f]));
                    assert(old_views[old_ints[e]] == new_views[now[p]]);
                    assert(old_views[old_ints[f]] == new_views[now[q]]);
                } else if p == place {
                    assert(now[q] == before[q - 1]);
                    assert(key_before(views[i as int], views[before[q - 1] as int]));
                } else {
                    let last = before[place - 1] as int;
                    assert(now[p] == before[p]);
                    lemma_key_total(views[i as int], views[last]);
                    if p < place - 1 {
                        assert(in_order(old_views, old_ints[p], old_ints[place - 1]));
                        assert(old_views[old_ints[p]] == views[before[p] as int]);
                        assert(old_views[old_ints[place - 1]] == views[last]);
                        if key_before(views[before[p] as int], views[last]) && key_before(
                            views[last],
                            views[i as int],
                        ) {
                            lemma_key_transitive(
                                views[before[p] as int],
                                views[last],
                                views[i as int],
                            );
                        }
                    }
                }
            }
            assert(now.no_duplicates()) by {
                assert forall|p: int, q: int|
                    0 <= p < now.len() && 0 <= q < now.len() && p != q implies now[p] != now[q] by {
                    let e = if p < place {
                        p
                    } else {
                        p - 1
                    };
                    let f = if q < place {
                        q
                    } else {
                        q - 1
                    };
                    if p != place && q != place {
                        assert(old_ints[e] != old_ints[f]);
                    } else if p == place {
                        assert(before[f] < i);
                    } else {
                        assert(before[e] < i);
                    }
                }
            }
        }
        i = i + 1;
    }
    assert(views.take(keys@.len() as int) =~= views);
    order
}

/// Texts are in the order of a dictionary: the first character in which they
/// differ decides, and a text stands before those that it begins.
pub proof fn law_text_order(
    common: Seq<char>,
    a: Seq<char>,
    b: Seq<char>,
)
    ensures
        a.len() > 0 && b.len() > 0 && a[0] != b[0] ==> text_before(common + a, common + b) == (a[0]
            < b[0]),
        b.len() > 0 ==> text_before(common, common + b) && !text_before(common + b, common),
        !text_before(common, common),
    decreases common.len(),
{
    if common.len() > 0 {
        law_text_order(common.drop_first(), a, b);
        assert((common + a).drop_first() =~= common.drop_first() + a);
        assert((common + b).drop_first() =~= common.drop_first() + b);
    } else {
        assert(common + a =~= a);
        assert(common + b =~= b);
    }
}

/// Sorting loses nothing: every entry has a place in the order.
pub proof fn law_sort_order_has_all(keys: Seq<SortKeyView>, order: Seq<int>, i: int)
    requires
        is_sort_order(keys, order),
        0 <= i < keys.len(),
    ensures
        order.contains(i),
{
    let places = order.to_set();
    let all = set_int_range(0, keys.len() as int);
    order.unique_seq_to_set();
    lemma_int_range(0, keys.len() as int);
    assert(places.subset_of(all)) by {
        assert forall|k: int| places.contains(k) implies all.contains(k) by {
            let p = choose|p: int| 0 <= p < order.len() && order[p] == k;
            assert(0 <= order[p] < keys.len());
        }
    }
    lemma_subset_equality(places, all);
    assert(all.contains(i));
    assert(places.contains(i));
}

} // verus!
