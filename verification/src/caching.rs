//! The keys under which answers are kept.
use crate::json::{json_text, Json};
use crate::post::Fields;
use crate::text::{chars_of, contains, join, joined, occurs_at, push_item};
use vstd::prelude::*;
use vstd::string::*;

verus! {

/// Whether a text comes before another one, or is it: by the first character in
/// which they differ.
pub open spec fn text_le(a: Seq<char>, b: Seq<char>) -> bool
    decreases a.len(),
{
    if a.len() == 0 {
        true
    } else if b.len() == 0 {
        false
    } else if a[0] != b[0] {
        a[0] < b[0]
    } else {
        text_le(a.skip(1), b.skip(1))
    }
}

/// Whether a text comes before another one, or is it.
pub fn comes_before(a: &str, b: &str) -> (r: bool)
    ensures
        r == text_le(a@, b@),
{
    let x = chars_of(a);
    let y = chars_of(b);
    let mut i: usize = 0;
    assert(x@.skip(0) =~= x@);
    assert(y@.skip(0) =~= y@);
    while i < x.len() && i < y.len()
        invariant
            i <= x@.len(),
            i <= y@.len(),
            x@ == a@,
            y@ == b@,
            text_le(x@, y@) == text_le(x@.skip(i as int), y@.skip(i as int)),
        decreases x.len() - i,
    {
        if x[i] != y[i] {
            return x[i] < y[i];
        }
        assert(x@.skip(i as int).skip(1) =~= x@.skip(i + 1));
        assert(y@.skip(i as int).skip(1) =~= y@.skip(i + 1));
        i += 1;
    }
    i == x.len()
}

/// A sorted list with a text put in its place: before the first that does not
/// come before it.
pub open spec fn inserted_text(list: Seq<Seq<char>>, s: Seq<char>) -> Seq<Seq<char>>
    decreases list.len(),
{
    if list.len() == 0 {
        seq![s]
    } else if text_le(list.last(), s) {
        list.push(s)
    } else {
        inserted_text(list.drop_last(), s).push(list.last())
    }
}

/// A list of texts in their order.
pub open spec fn sorted_texts(list: Seq<Seq<char>>) -> Seq<Seq<char>>
    decreases list.len(),
{
    if list.len() == 0 {
        list
    } else {
        inserted_text(sorted_texts(list.drop_last()), list.last())
    }
}

fn insert_text(list: &mut Vec<String>, s: String)
    ensures
        final(list).deep_view() == inserted_text(old(list).deep_view(), s@),
{
    let ghost all = list.deep_view();
    let n: usize = list.len();
    let mut i: usize = n;
    assert(all.take(n as int) =~= all);
    assert(all.skip(n as int) =~= Seq::<Seq<char>>::empty());
    assert(inserted_text(all, s@) + Seq::<Seq<char>>::empty() =~= inserted_text(all, s@));
    while 0 < i && !comes_before(list[i - 1].as_str(), s.as_str())
        invariant
            i <= n,
            n == list@.len(),
            all == list.deep_view(),
            inserted_text(all, s@) == inserted_text(all.take(i as int), s@) + all.skip(i as int),
        decreases i,
    {
        assert(all.take(i as int).last() == list@[i - 1]@);
        assert(all.take(i as int).drop_last() =~= all.take(i - 1));
        assert(inserted_text(all.take(i - 1), s@).push(all[i - 1]) + all.skip(i as int)
            =~= inserted_text(all.take(i - 1), s@) + all.skip(i - 1));
        i -= 1;
    }
    if i > 0 {
        assert(all.take(i as int).last() == list@[i - 1]@);
    }
    assert(inserted_text(all.take(i as int), s@) =~= all.take(i as int).push(s@));
    list.insert(i, s);
    assert(list.deep_view() =~= all.take(i as int).push(s@) + all.skip(i as int));
}

/// A list of texts in their order.
pub fn sort_texts(list: &Vec<String>) -> (r: Vec<String>)
    ensures
        r.deep_view() == sorted_texts(list.deep_view()),
{
    let ghost all = list.deep_view();
    let mut out: Vec<String> = Vec::new();
    let mut i: usize = 0;
    assert(out.deep_view() =~= sorted_texts(all.take(0)));
    while i < list.len()
        invariant
            i <= list@.len(),
            all == list.deep_view(),
            out.deep_view() == sorted_texts(all.take(i as int)),
        decreases list.len() - i,
    {
        assert(all.take(i + 1).drop_last() =~= all.take(i as int));
        assert(all[i as int] == list@[i as int]@);
        insert_text(&mut out, list[i].clone());
        i += 1;
    }
    assert(all.take(all.len() as int) =~= all);
    out
}

/// The parameters of a request, each with its value.
pub open spec fn assignments(params: Fields) -> Seq<Seq<char>> {
    Seq::new(params.len(), |i: int| params[i].0 + "="@ + json_text(params[i].1))
}

/// The part of a key that stands for the parameters of a request. It does not
/// depend on their order.
pub open spec fn key_suffix(params: Fields) -> Seq<char> {
    join(sorted_texts(assignments(params)), "&"@)
}

/// The part of a key that stands for the parameters of a request.
pub fn build_key_suffix(params: &Vec<(String, Json)>) -> (r: String)
    ensures
        r@ == key_suffix(params.deep_view()),
{
    let ghost all = assignments(params.deep_view());
    let mut parts: Vec<String> = Vec::new();
    let mut i: usize = 0;
    while i < params.len()
        invariant
            i <= params@.len(),
            all == assignments(params.deep_view()),
            parts.deep_view() == all.take(i as int),
        decreases params.len() - i,
    {
        let mut part = params[i].0.clone();
        part.append("=");
        part.append(params[i].1.text().as_str());
        push_item(&mut parts, part);
        i += 1;
        assert(all.take(i as int) =~= all.take(i - 1).push(all[i - 1]));
    }
    assert(all.take(params@.len() as int) =~= all);
    let sorted = sort_texts(&parts);
    joined(&sorted, "&")
}

/// The key under which the answer to a request is kept.
pub open spec fn cache_key(prefix: Seq<char>, suffix: Seq<char>) -> Seq<char> {
    if suffix.len() == 0 {
        prefix
    } else {
        prefix + ":"@ + suffix
    }
}

/// The key under which the answer to a request is kept.
pub fn build_cache_key(prefix: &str, suffix: &str) -> (r: String)
    ensures
        r@ == cache_key(prefix@, suffix@),
{
    let mut out = prefix.to_owned();
    if !suffix.is_empty() {
        out.append(":");
        out.append(suffix);
    }
    out
}

// ---------------------------------------------------------------------------
// Laws
// ---------------------------------------------------------------------------

proof fn lemma_le_total(a: Seq<char>, b: Seq<char>)
    ensures
        text_le(a, b) || text_le(b, a),
        text_le(a, b) && text_le(b, a) ==> a == b,
    decreases a.len(),
{
    if a.len() > 0 && b.len() > 0 && a[0] == b[0] {
        lemma_le_total(a.skip(1), b.skip(1));
        if a.skip(1) == b.skip(1) {
            assert(a =~= seq![a[0]] + a.skip(1));
            assert(b =~= seq![b[0]] + b.skip(1));
        }
    } else if a.len() == 0 && b.len() == 0 {
        assert(a =~= b);
    }
}

proof fn lemma_le_transitive(a: Seq<char>, b: Seq<char>, c: Seq<char>)
    requires
        text_le(a, b),
        text_le(b, c),
    ensures
        text_le(a, c),
    decreases a.len(),
{
    if a.len() > 0 && b.len() > 0 && c.len() > 0 && a[0] == b[0] && b[0] == c[0] {
        lemma_le_transitive(a.skip(1), b.skip(1), c.skip(1));
    }
}

/// Whether a list of texts is in order.
pub open spec fn in_order(list: Seq<Seq<char>>) -> bool {
    forall|i: int, j: int| 0 <= i < j < list.len() ==> text_le(#[trigger] list[i], #[trigger] list[j])
}

proof fn lemma_inserted(list: Seq<Seq<char>>, s: Seq<char>)
    ensures
        in_order(list) ==> in_order(inserted_text(list, s)),
        inserted_text(list, s).to_multiset() == list.to_multiset().insert(s),
    decreases list.len(),
{
    broadcast use vstd::seq_lib::group_to_multiset_ensures;

    if list.len() == 0 {
        assert(seq![s] =~= list.push(s));
    } else if text_le(list.last(), s) {
        let out = list.push(s);
        if in_order(list) {
            assert forall|i: int, j: int| 0 <= i < j < out.len() implies text_le(
                #[trigger] out[i],
                #[trigger] out[j],
            ) by {
                if j == list.len() && i < list.len() - 1 {
                    assert(text_le(list[i], list[list.len() - 1]));
                    lemma_le_transitive(list[i], list.last(), s);
                } else if j < list.len() {
                    assert(text_le(list[i], list[j]));
                }
            }
        }
    } else {
        let head = list.drop_last();
        lemma_inserted(head, s);
        let mid = inserted_text(head, s);
        let out = mid.push(list.last());
        lemma_le_total(list.last(), s);
        assert(list =~= head.push(list.last()));
        assert(out.to_multiset() =~= list.to_multiset().insert(s));
        if in_order(list) {
            assert(in_order(head)) by {
                assert forall|i: int, j: int| 0 <= i < j < head.len() implies text_le(
                    #[trigger] head[i],
                    #[trigger] head[j],
                ) by {
                    assert(text_le(list[i], list[j]));
                }
            }
            assert forall|i: int, j: int| 0 <= i < j < out.len() implies text_le(
                #[trigger] out[i],
                #[trigger] out[j],
            ) by {
                if j < mid.len() {
                    assert(text_le(mid[i], mid[j]));
                } else {
                    assert(mid.to_multiset().contains(mid[i]));
                    assert(head.to_multiset().insert(s).contains(mid[i]));
                    if mid[i] != s {
                        assert(head.to_multiset().contains(mid[i]));
                        assert(head.contains(mid[i]));
                        let k = choose|k: int| 0 <= k < head.len() && head[k] == mid[i];
                        assert(text_le(list[k], list[list.len() - 1]));
                    }
                }
            }
        }
    }
}

proof fn lemma_sorted(list: Seq<Seq<char>>)
    ensures
        in_order(sorted_texts(list)),
        sorted_texts(list).to_multiset() == list.to_multiset(),
    decreases list.len(),
{
    broadcast use vstd::seq_lib::group_to_multiset_ensures;

    if list.len() > 0 {
        lemma_sorted(list.drop_last());
        lemma_inserted(sorted_texts(list.drop_last()), list.last());
        assert(list =~= list.drop_last().push(list.last()));
    }
}

proof fn lemma_order_is_unique(a: Seq<Seq<char>>, b: Seq<Seq<char>>)
    requires
        in_order(a),
        in_order(b),
        a.to_multiset() == b.to_multiset(),
    ensures
        a == b,
    decreases a.len(),
{
    broadcast use vstd::seq_lib::group_to_multiset_ensures;

    assert(a.to_multiset().len() == a.len());
    assert(b.to_multiset().len() == b.len());
    if a.len() > 0 {
        let x = a.last();
        let y = b.last();
        assert(b.to_multiset().contains(x)) by {
            assert(a.to_multiset().contains(a[a.len() - 1]));
        }
        assert(a.to_multiset().contains(y)) by {
            assert(b.to_multiset().contains(b[b.len() - 1]));
        }
        assert(b.contains(x));
        assert(a.contains(y));
        let i = choose|i: int| 0 <= i < b.len() && b[i] == x;
        let j = choose|j: int| 0 <= j < a.len() && a[j] == y;
        if i < b.len() - 1 {
            assert(text_le(b[i], b[b.len() - 1]));
        } else {
            lemma_le_total(x, x);
        }
        if j < a.len() - 1 {
            assert(text_le(a[j], a[a.len() - 1]));
        } else {
            lemma_le_total(y, y);
        }
        assert(x == y) by {
            if x != y {
                lemma_le_total(x, y);
            }
        }
        let p = a.drop_last();
        let q = b.drop_last();
        assert(a =~= p.push(x));
        assert(b =~= q.push(x));
        assert(p.to_multiset() =~= q.to_multiset()) by {
            assert(a.to_multiset() == p.to_multiset().insert(x));
            assert(b.to_multiset() == q.to_multiset().insert(x));
            assert forall|e: Seq<char>| p.to_multiset().count(e) == q.to_multiset().count(e) by {
                assert(p.to_multiset().insert(x).count(e) == q.to_multiset().insert(x).count(e));
            }
        }
        assert(in_order(p)) by {
            assert forall|i: int, j: int| 0 <= i < j < p.len() implies text_le(
                #[trigger] p[i],
                #[trigger] p[j],
            ) by {
                assert(text_le(a[i], a[j]));
            }
        }
        assert(in_order(q)) by {
            assert forall|i: int, j: int| 0 <= i < j < q.len() implies text_le(
                #[trigger] q[i],
                #[trigger] q[j],
            ) by {
                assert(text_le(b[i], b[j]));
            }
        }
        lemma_order_is_unique(p, q);
    } else {
        assert(a =~= b);
    }
}

/// Sorting puts texts in order, and neither loses nor adds one.
pub proof fn law_sorting_sorts(list: Seq<Seq<char>>)
    ensures
        in_order(sorted_texts(list)),
        sorted_texts(list).to_multiset() == list.to_multiset(),
{
    lemma_sorted(list);
}

/// The key of an answer does not depend on the order of the parameters: requests
/// with the same parameters share their answer.
pub proof fn law_keys_ignore_order(a: Fields, b: Fields)
    requires
        assignments(a).to_multiset() == assignments(b).to_multiset(),
    ensures
        key_suffix(a) == key_suffix(b),
{
    lemma_sorted(assignments(a));
    lemma_sorted(assignments(b));
    lemma_order_is_unique(sorted_texts(assignments(a)), sorted_texts(assignments(b)));
}

proof fn lemma_part_in_join(parts: Seq<Seq<char>>, sep: Seq<char>, k: int)
    requires
        0 <= k < parts.len(),
    ensures
        contains(join(parts, sep), parts[k]),
    decreases parts.len(),
{
    let all = join(parts, sep);
    if parts.len() == 1 {
        assert(all.subrange(0, all.len() as int) =~= parts[0]);
        assert(occurs_at(all, parts[k], 0));
    } else {
        let before = join(parts.drop_last(), sep);
        if k < parts.len() - 1 {
            lemma_part_in_join(parts.drop_last(), sep, k);
            assert(parts.drop_last()[k] == parts[k]);
            let i = choose|i: int| occurs_at(before, parts[k], i);
            assert(all.subrange(i, i + parts[k].len()) =~= before.subrange(i, i + parts[k].len()));
            assert(occurs_at(all, parts[k], i));
        } else {
            let i = (before + sep).len() as int;
            assert(all.subrange(i, i + parts[k].len()) =~= parts[k]);
            assert(occurs_at(all, parts[k], i));
        }
    }
}

/// The key of an answer names every parameter with its value: answers to requests that
/// differ in one are not mistaken for each other unless their keys hold both.
pub proof fn law_keys_name_every_parameter(params: Fields, i: int)
    requires
        0 <= i < params.len(),
    ensures
        contains(key_suffix(params), params[i].0 + "="@ + json_text(params[i].1)),
{
    let list = assignments(params);
    let sorted = sorted_texts(list);
    let text = params[i].0 + "="@ + json_text(params[i].1);
    lemma_sorted(list);
    list.to_multiset_ensures();
    sorted.to_multiset_ensures();
    assert(list[i] == text);
    assert(list.contains(text));
    assert(sorted.to_multiset().count(text) > 0);
    assert(sorted.contains(text));
    let k = choose|k: int| 0 <= k < sorted.len() && sorted[k] == text;
    lemma_part_in_join(sorted, "&"@, k);
}

/// A key under a prefix tells its suffix: other parameters have another key.
pub proof fn law_keys_tell_their_suffix(prefix: Seq<char>, a: Seq<char>, b: Seq<char>)
    requires
        cache_key(prefix, a) == cache_key(prefix, b),
    ensures
        a == b,
{
    reveal_strlit(":");
    let n = (prefix + ":"@).len() as int;
    if a.len() > 0 && b.len() > 0 {
        assert(cache_key(prefix, a).skip(n) =~= a);
        assert(cache_key(prefix, b).skip(n) =~= b);
    } else {
        assert(cache_key(prefix, a).len() == cache_key(prefix, b).len());
        assert(a =~= b);
    }
}

} // verus!
