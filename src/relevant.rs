//! The relevant list: incomplete items, newest created first, followed by the
//! items completed within the last day, newest completed first.
use crate::Todo;
use vstd::multiset::Multiset;
use vstd::prelude::*;

verus! {

/// Seconds in the window within which a completed item stays relevant.
pub const DAY_SECONDS: i64 = 86400;

/// The item has not been completed.
pub open spec fn is_incomplete(t: Todo) -> bool {
    t.completed_at is None
}

/// The item was completed within the last day, as seen at `now`.
pub open spec fn is_recent(t: Todo, now: i64) -> bool {
    match t.completed_at {
        Some(c) => c > now - DAY_SECONDS,
        None => false,
    }
}

/// `is_incomplete`, as a predicate to filter by.
pub open spec fn incomplete_pred() -> spec_fn(Todo) -> bool {
    |t: Todo| is_incomplete(t)
}

/// `is_recent` at `now`, as a predicate to filter by.
pub open spec fn recent_pred(now: i64) -> spec_fn(Todo) -> bool {
    |t: Todo| is_recent(t, now)
}

/// The key by which a section is ordered: the creation time for the incomplete
/// section, the completion time for the completed one.
pub open spec fn sort_key(t: Todo, by_completion: bool) -> int {
    if by_completion {
        match t.completed_at {
            Some(c) => c as int,
            None => 0,
        }
    } else {
        t.created_at as int
    }
}

/// Places `x` in front of the first item of `s` whose key is not larger.
pub open spec fn insert_desc(x: Todo, s: Seq<Todo>, by_completion: bool) -> Seq<Todo>
    decreases s.len(),
{
    if s.len() == 0 {
        seq![x]
    } else if sort_key(s[0], by_completion) <= sort_key(x, by_completion) {
        seq![x] + s
    } else {
        seq![s[0]] + insert_desc(x, s.drop_first(), by_completion)
    }
}

/// `s` ordered by descending key; of two items with the same key, the one
/// that comes later in `s` comes first.
pub open spec fn sort_desc(s: Seq<Todo>, by_completion: bool) -> Seq<Todo>
    decreases s.len(),
{
    if s.len() == 0 {
        Seq::empty()
    } else {
        insert_desc(s.last(), sort_desc(s.drop_last(), by_completion), by_completion)
    }
}

/// The relevant list of the stored items `s`, as seen at `now`.
pub open spec fn relevant_of(s: Seq<Todo>, now: i64) -> Seq<Todo> {
    sort_desc(s.filter(incomplete_pred()), false) + sort_desc(s.filter(recent_pred(now)), true)
}

/// A sequence ordered by descending key.
pub open spec fn is_sorted_desc(s: Seq<Todo>, by_completion: bool) -> bool {
    forall|i: int, j: int|
        0 <= i < j < s.len() ==> sort_key(s[i], by_completion) >= sort_key(s[j], by_completion)
}

fn key_of(t: &Todo, by_completion: bool) -> (r: i64)
    ensures
        r as int == sort_key(*t, by_completion),
{
    if by_completion {
        match t.completed_at {
            Some(c) => c,
            None => 0,
        }
    } else {
        t.created_at
    }
}

/// Inserts `x` into `sorted` as `insert_desc` says.
fn insert_sorted(sorted: Vec<Todo>, x: Todo, by_completion: bool) -> (r: Vec<Todo>)
    ensures
        r@ == insert_desc(x, sorted@, by_completion),
{
    let kx = key_of(&x, by_completion);
    let mut pos: usize = 0;
    while pos < sorted.len() && key_of(&sorted[pos], by_completion) > kx
        invariant
            0 <= pos <= sorted@.len(),
            kx as int == sort_key(x, by_completion),
            forall|k: int| 0 <= k < pos ==> sort_key(#[trigger] sorted@[k], by_completion) > kx,
        decreases sorted@.len() - pos,
    {
        pos = pos + 1;
    }
    proof {
        lemma_insert_desc_at(x, sorted@, by_completion, pos as int);
    }
    let mut r = sorted;
    r.insert(pos, x);
    r
}

/// `insert_desc` puts `x` at the first position whose key is not larger.
proof fn lemma_insert_desc_at(x: Todo, s: Seq<Todo>, b: bool, pos: int)
    requires
        0 <= pos <= s.len(),
        forall|k: int| 0 <= k < pos ==> sort_key(#[trigger] s[k], b) > sort_key(x, b),
        pos < s.len() ==> sort_key(s[pos], b) <= sort_key(x, b),
    ensures
        insert_desc(x, s, b) == s.insert(pos, x),
    decreases pos,
{
    if s.len() == 0 {
        assert(s.insert(pos, x) =~= seq![x]);
    } else if pos == 0 {
        assert(s.insert(pos, x) =~= seq![x] + s);
    } else {
        let t = s.drop_first();
        assert forall|k: int| 0 <= k < pos - 1 implies sort_key(#[trigger] t[k], b) > sort_key(x, b) by {
            assert(t[k] == s[k + 1]);
        }
        lemma_insert_desc_at(x, t, b, pos - 1);
        assert(s.insert(pos, x) =~= seq![s[0]] + t.insert(pos - 1, x));
    }
}

/// Orders `items` by descending key, as `sort_desc` says.
fn sort_section(items: Vec<Todo>, by_completion: bool) -> (r: Vec<Todo>)
    ensures
        r@ == sort_desc(items@, by_completion),
{
    let ghost orig = items@;
    let total = items.len();
    let mut rest = items;
    let mut acc: Vec<Todo> = Vec::new();
    let mut k: usize = 0;
    while rest.len() > 0
        invariant
            0 <= k <= total,
            total == orig.len(),
            rest@ == orig.subrange(k as int, orig.len() as int),
            acc@ == sort_desc(orig.subrange(0, k as int), by_completion),
        decreases rest@.len(),
    {
        let x = rest.remove(0);
        proof {
            let pre = orig.subrange(0, k as int + 1);
            assert(pre.drop_last() =~= orig.subrange(0, k as int));
            assert(pre.last() == x);
        }
        acc = insert_sorted(acc, x, by_completion);
        k = k + 1;
        assert(rest@ =~= orig.subrange(k as int, orig.len() as int));
    }
    assert(orig.subrange(0, k as int) =~= orig);
    acc
}

/// `s.push(x)` keeps or drops `x` as the predicate says.
proof fn lemma_filter_push(s: Seq<Todo>, x: Todo, p: spec_fn(Todo) -> bool)
    ensures
        s.push(x).filter(p) == (if p(x) {
            s.filter(p).push(x)
        } else {
            s.filter(p)
        }),
{
    reveal(Seq::filter);
    assert(s.push(x).drop_last() =~= s);
}

/// The relevant list of the stored items `items`, as seen at `now`.
pub fn relevant_list(items: Vec<Todo>, now: i64) -> (r: Vec<Todo>)
    ensures
        r@ == relevant_of(items@, now),
{
    let ghost orig = items@;
    let total = items.len();
    let mut rest = items;
    let mut incomplete: Vec<Todo> = Vec::new();
    let mut recent: Vec<Todo> = Vec::new();
    let mut k: usize = 0;
    while rest.len() > 0
        invariant
            0 <= k <= total,
            total == orig.len(),
            rest@ == orig.subrange(k as int, orig.len() as int),
            incomplete@ == orig.subrange(0, k as int).filter(incomplete_pred()),
            recent@ == orig.subrange(0, k as int).filter(recent_pred(now)),
        decreases rest@.len(),
    {
        let x = rest.remove(0);
        proof {
            let pre = orig.subrange(0, k as int);
            assert(orig.subrange(0, k as int + 1) =~= pre.push(x));
            lemma_filter_push(pre, x, incomplete_pred());
            lemma_filter_push(pre, x, recent_pred(now));
        }
        k = k + 1;
        assert(rest@ =~= orig.subrange(k as int, orig.len() as int));
        match x.completed_at {
            None => {
                incomplete.push(x);
            },
            Some(c) => {
                if c as i128 > now as i128 - DAY_SECONDS as i128 {
                    recent.push(x);
                }
            },
        }
    }
    assert(orig.subrange(0, k as int) =~= orig);
    let mut r = sort_section(incomplete, false);
    let mut tail = sort_section(recent, true);
    r.append(&mut tail);
    r
}

/// The filtered pairs and quadruple that the ordering law speaks of.
proof fn lemma_filter_four(a: Todo, b: Todo, c: Todo, d: Todo, p: spec_fn(Todo) -> bool)
    ensures
        seq![a, b, c, d].filter(p) == {
            let s0 = Seq::<Todo>::empty();
            let s1 = if p(a) { s0.push(a) } else { s0 };
            let s2 = if p(b) { s1.push(b) } else { s1 };
            let s3 = if p(c) { s2.push(c) } else { s2 };
            if p(d) { s3.push(d) } else { s3 }
        },
{
    reveal(Seq::filter);
    let e = Seq::<Todo>::empty();
    assert(e.filter(p) =~= e);
    assert(seq![a] =~= e.push(a));
    assert(seq![a, b] =~= seq![a].push(b));
    assert(seq![a, b, c] =~= seq![a, b].push(c));
    assert(seq![a, b, c, d] =~= seq![a, b, c].push(d));
    lemma_filter_push(e, a, p);
    lemma_filter_push(seq![a], b, p);
    lemma_filter_push(seq![a, b], c, p);
    lemma_filter_push(seq![a, b, c], d, p);
}

/// Two items in stored order come out with the later one first when its key
/// is at least as large.
proof fn lemma_sort_two(x: Todo, y: Todo, b: bool)
    requires
        sort_key(x, b) <= sort_key(y, b),
    ensures
        sort_desc(seq![x, y], b) == seq![y, x],
{
    let s = seq![x, y];
    assert(s.drop_last() =~= seq![x]);
    assert(seq![x].drop_last() =~= Seq::<Todo>::empty());
    assert(sort_desc(Seq::<Todo>::empty(), b) =~= Seq::<Todo>::empty());
    assert(insert_desc(x, Seq::<Todo>::empty(), b) =~= seq![x]);
    assert(sort_desc(seq![x], b) =~= seq![x]);
    assert(insert_desc(y, seq![x], b) =~= seq![y, x]);
}

/// Ordering law for items stored in the order `a`, `b`, `c`, `d`: with `a`
/// created no later than `b`, both incomplete, and `c` completed no later than
/// `d`, both within the last day, the relevant list is exactly `b`, `a`, `d`,
/// `c`. Equal times are allowed here, since the stored order breaks the tie.
pub proof fn lemma_relevant_order_of_four(a: Todo, b: Todo, c: Todo, d: Todo, now: i64)
    requires
        a.completed_at is None,
        b.completed_at is None,
        a.created_at <= b.created_at,
        is_recent(c, now),
        is_recent(d, now),
        c.completed_at.unwrap() <= d.completed_at.unwrap(),
    ensures
        relevant_of(seq![a, b, c, d], now) == seq![b, a, d, c],
{
    lemma_filter_four(a, b, c, d, incomplete_pred());
    lemma_filter_four(a, b, c, d, recent_pred(now));
    assert(seq![a, b, c, d].filter(incomplete_pred()) =~= seq![a, b]);
    assert(seq![a, b, c, d].filter(recent_pred(now)) =~= seq![c, d]);
    lemma_sort_two(a, b, false);
    lemma_sort_two(c, d, true);
    assert(seq![b, a] + seq![d, c] =~= seq![b, a, d, c]);
}

/// Every key of `sort_desc(s)` is bounded by a bound on the keys of `s`.
proof fn lemma_sort_keys_bounded(s: Seq<Todo>, b: bool, k: int)
    requires
        forall|i: int| 0 <= i < s.len() ==> sort_key(#[trigger] s[i], b) <= k,
    ensures
        forall|i: int|
            0 <= i < sort_desc(s, b).len() ==> sort_key(#[trigger] sort_desc(s, b)[i], b) <= k,
    decreases s.len(),
{
    if s.len() > 0 {
        let t = s.drop_last();
        assert forall|i: int| 0 <= i < t.len() implies sort_key(#[trigger] t[i], b) <= k by {
            assert(t[i] == s[i]);
        }
        lemma_sort_keys_bounded(t, b, k);
        lemma_insert_keys_bounded(s.last(), sort_desc(t, b), b, k);
    }
}

proof fn lemma_insert_keys_bounded(x: Todo, s: Seq<Todo>, b: bool, k: int)
    requires
        sort_key(x, b) <= k,
        forall|i: int| 0 <= i < s.len() ==> sort_key(#[trigger] s[i], b) <= k,
    ensures
        forall|i: int|
            0 <= i < insert_desc(x, s, b).len() ==> sort_key(#[trigger] insert_desc(x, s, b)[i], b)
                <= k,
    decreases s.len(),
{
    let r = insert_desc(x, s, b);
    if s.len() == 0 {
        assert(r =~= seq![x]);
    } else if sort_key(s[0], b) <= sort_key(x, b) {
        assert forall|i: int| 0 <= i < r.len() implies sort_key(#[trigger] r[i], b) <= k by {
            if i > 0 {
                assert(r[i] == s[i - 1]);
            }
        }
    } else {
        let t = s.drop_first();
        assert forall|i: int| 0 <= i < t.len() implies sort_key(#[trigger] t[i], b) <= k by {
            assert(t[i] == s[i + 1]);
        }
        lemma_insert_keys_bounded(x, t, b, k);
        let rt = insert_desc(x, t, b);
        assert forall|i: int| 0 <= i < r.len() implies sort_key(#[trigger] r[i], b) <= k by {
            if i > 0 {
                assert(r[i] == rt[i - 1]);
            }
        }
    }
}

/// A bound on the keys of `s` bounds the keys of what a filter keeps.
proof fn lemma_filter_keys_bounded(s: Seq<Todo>, p: spec_fn(Todo) -> bool, b: bool, k: int)
    requires
        forall|i: int| 0 <= i < s.len() ==> sort_key(#[trigger] s[i], b) <= k,
    ensures
        forall|i: int|
            0 <= i < s.filter(p).len() ==> sort_key(#[trigger] s.filter(p)[i], b) <= k,
    decreases s.len(),
{
    reveal(Seq::filter);
    if s.len() > 0 {
        let t = s.drop_last();
        assert forall|i: int| 0 <= i < t.len() implies sort_key(#[trigger] t[i], b) <= k by {
            assert(t[i] == s[i]);
        }
        lemma_filter_keys_bounded(t, p, b, k);
        let ft = t.filter(p);
        let fs = s.filter(p);
        assert(s.last() == s[s.len() - 1]);
        assert(fs == if p(s.last()) { ft.push(s.last()) } else { ft });
        assert forall|i: int| 0 <= i < fs.len() implies sort_key(#[trigger] fs[i], b) <= k by {
            if i < ft.len() {
                assert(fs[i] == ft[i]);
            }
        }
    } else {
        assert(s.filter(p) =~= s);
    }
}

/// Adding an incomplete item created no earlier than every stored item puts
/// it at the front of the relevant list and leaves the rest as it was.
pub proof fn lemma_relevant_after_add(s: Seq<Todo>, x: Todo, now: i64)
    requires
        x.completed_at is None,
        forall|i: int| 0 <= i < s.len() ==> (#[trigger] s[i]).created_at <= x.created_at,
    ensures
        relevant_of(s.push(x), now) == seq![x] + relevant_of(s, now),
{
    let inc = s.filter(incomplete_pred());
    lemma_filter_push(s, x, incomplete_pred());
    lemma_filter_push(s, x, recent_pred(now));
    assert forall|i: int| 0 <= i < s.len() implies sort_key(#[trigger] s[i], false)
        <= x.created_at by {}
    lemma_filter_keys_bounded(s, incomplete_pred(), false, x.created_at as int);
    lemma_sort_keys_bounded(inc, false, x.created_at as int);
    assert(inc.push(x).drop_last() =~= inc);
    let sorted = sort_desc(inc, false);
    if sorted.len() > 0 {
        assert(sort_key(sorted[0], false) <= sort_key(x, false));
    }
    assert(insert_desc(x, sorted, false) =~= seq![x] + sorted);
    assert(seq![x] + relevant_of(s, now) =~= seq![x] + sorted + sort_desc(
        s.filter(recent_pred(now)),
        true,
    ));
}

/// Inserting into a sorted sequence keeps it sorted and adds `x` to its items.
proof fn lemma_insert_desc_sorted(x: Todo, s: Seq<Todo>, b: bool)
    requires
        is_sorted_desc(s, b),
    ensures
        is_sorted_desc(insert_desc(x, s, b), b),
        insert_desc(x, s, b).to_multiset() == s.to_multiset().insert(x),
    decreases s.len(),
{
    broadcast use vstd::seq_lib::group_to_multiset_ensures;

    let r = insert_desc(x, s, b);
    if s.len() == 0 {
        assert(r =~= Seq::<Todo>::empty().push(x));
        assert(Seq::<Todo>::empty().to_multiset() =~= Multiset::empty());
    } else if sort_key(s[0], b) <= sort_key(x, b) {
        assert(r =~= seq![x] + s);
        assert forall|i: int, j: int| 0 <= i < j < r.len() implies sort_key(r[i], b) >= sort_key(
            r[j],
            b,
        ) by {
            if i > 0 {
                assert(r[i] == s[i - 1]);
            }
            assert(r[j] == s[j - 1]);
        }
        vstd::seq_lib::lemma_multiset_commutative(seq![x], s);
        assert(seq![x] =~= Seq::<Todo>::empty().push(x));
        assert(Seq::<Todo>::empty().to_multiset() =~= Multiset::empty());
        assert(r.to_multiset() =~= s.to_multiset().insert(x));
    } else {
        let t = s.drop_first();
        assert(is_sorted_desc(t, b)) by {
            assert forall|i: int, j: int| 0 <= i < j < t.len() implies sort_key(t[i], b)
                >= sort_key(t[j], b) by {
                assert(t[i] == s[i + 1]);
                assert(t[j] == s[j + 1]);
            }
        }
        lemma_insert_desc_sorted(x, t, b);
        let rt = insert_desc(x, t, b);
        assert(r =~= seq![s[0]] + rt);
        assert forall|i: int, j: int| 0 <= i < j < r.len() implies sort_key(r[i], b) >= sort_key(
            r[j],
            b,
        ) by {
            assert(r[j] == rt[j - 1]);
            if i > 0 {
                assert(r[i] == rt[i - 1]);
            } else {
                // rt holds the items of t and x, each of a key not above s[0]'s.
                assert(rt.to_multiset().count(rt[j - 1]) > 0);
                assert(rt.to_multiset().contains(rt[j - 1]));
                if rt[j - 1] != x {
                    assert(t.to_multiset().contains(rt[j - 1]));
                    assert(t.contains(rt[j - 1]));
                    let k = choose|k: int| 0 <= k < t.len() && t[k] == rt[j - 1];
                    assert(t[k] == s[k + 1]);
                }
            }
        }
        vstd::seq_lib::lemma_multiset_commutative(seq![s[0]], rt);
        vstd::seq_lib::lemma_multiset_commutative(seq![s[0]], t);
        assert(seq![s[0]] + t =~= s);
        assert(seq![s[0]] =~= Seq::<Todo>::empty().push(s[0]));
        assert(Seq::<Todo>::empty().to_multiset() =~= Multiset::empty());
        assert(r.to_multiset() =~= s.to_multiset().insert(x));
    }
}

/// `sort_desc` orders by descending key and keeps exactly the items it is given.
pub proof fn lemma_sort_desc_sorted(s: Seq<Todo>, b: bool)
    ensures
        is_sorted_desc(sort_desc(s, b), b),
        sort_desc(s, b).to_multiset() == s.to_multiset(),
    decreases s.len(),
{
    broadcast use vstd::seq_lib::group_to_multiset_ensures;

    if s.len() == 0 {
        assert(s.to_multiset() =~= Multiset::empty());
        assert(sort_desc(s, b).to_multiset() =~= Multiset::empty());
    } else {
        lemma_sort_desc_sorted(s.drop_last(), b);
        lemma_insert_desc_sorted(s.last(), sort_desc(s.drop_last(), b), b);
        assert(s.drop_last().push(s.last()) =~= s);
    }
}

/// The relevant list is the incomplete items, newest created first, followed
/// by the items completed within the last day, newest completed first: each
/// section holds exactly the stored items of its kind.
pub proof fn lemma_relevant_sections(s: Seq<Todo>, now: i64)
    ensures
        ({
            let inc = sort_desc(s.filter(incomplete_pred()), false);
            let rec = sort_desc(s.filter(recent_pred(now)), true);
            &&& relevant_of(s, now) == inc + rec
            &&& is_sorted_desc(inc, false)
            &&& is_sorted_desc(rec, true)
            &&& inc.to_multiset() == s.filter(incomplete_pred()).to_multiset()
            &&& rec.to_multiset() == s.filter(recent_pred(now)).to_multiset()
            &&& forall|i: int| 0 <= i < inc.len() ==> is_incomplete(#[trigger] inc[i])
            &&& forall|i: int| 0 <= i < rec.len() ==> is_recent(#[trigger] rec[i], now)
        }),
{
    broadcast use vstd::seq_lib::group_to_multiset_ensures;
    broadcast use vstd::seq_lib::group_filter_ensures;

    let fi = s.filter(incomplete_pred());
    let fr = s.filter(recent_pred(now));
    lemma_sort_desc_sorted(fi, false);
    lemma_sort_desc_sorted(fr, true);
    let inc = sort_desc(fi, false);
    let rec = sort_desc(fr, true);
    assert forall|i: int| 0 <= i < inc.len() implies is_incomplete(#[trigger] inc[i]) by {
        assert(inc.to_multiset().contains(inc[i]));
        assert(fi.contains(inc[i]));
        let k = choose|k: int| 0 <= k < fi.len() && fi[k] == inc[i];
        assert(incomplete_pred()(fi[k]));
    }
    assert forall|i: int| 0 <= i < rec.len() implies is_recent(#[trigger] rec[i], now) by {
        assert(rec.to_multiset().contains(rec[i]));
        assert(fr.contains(rec[i]));
        let k = choose|k: int| 0 <= k < fr.len() && fr[k] == rec[i];
        assert(recent_pred(now)(fr[k]));
    }
}

/// How many times a filter keeps `x`: as often as `s` holds it, if `p(x)`.
proof fn lemma_filter_count(s: Seq<Todo>, p: spec_fn(Todo) -> bool, x: Todo)
    ensures
        s.filter(p).to_multiset().count(x) == if p(x) {
            s.to_multiset().count(x)
        } else {
            0
        },
    decreases s.len(),
{
    broadcast use vstd::seq_lib::group_to_multiset_ensures;

    if s.len() == 0 {
        reveal(Seq::filter);
        assert(s.filter(p) =~= s);
        assert(s.to_multiset() =~= Multiset::empty());
    } else {
        let t = s.drop_last();
        lemma_filter_count(t, p, x);
        lemma_filter_push(t, s.last(), p);
        assert(t.push(s.last()) =~= s);
    }
}

/// How many times the four items hold `x`.
proof fn lemma_count_four(a: Todo, b: Todo, c: Todo, d: Todo, x: Todo)
    ensures
        seq![a, b, c, d].to_multiset().count(x) == (if x == a { 1int } else { 0int }) + (if x
            == b { 1int } else { 0int }) + (if x == c { 1int } else { 0int }) + (if x == d {
            1int
        } else {
            0int
        }),
{
    broadcast use vstd::seq_lib::group_to_multiset_ensures;

    let e = Seq::<Todo>::empty();
    assert(e.to_multiset() =~= Multiset::empty());
    assert(seq![a] =~= e.push(a));
    assert(seq![a, b] =~= seq![a].push(b));
    assert(seq![a, b, c] =~= seq![a, b].push(c));
    assert(seq![a, b, c, d] =~= seq![a, b, c].push(d));
}

/// A sorted sequence that holds `lo` and `hi` once each and nothing else, with
/// `hi` of the larger key, is `hi` followed by `lo`.
proof fn lemma_sorted_pair(t: Seq<Todo>, lo: Todo, hi: Todo, b: bool)
    requires
        is_sorted_desc(t, b),
        sort_key(lo, b) < sort_key(hi, b),
        forall|x: Todo|
            #[trigger] t.to_multiset().count(x) == (if x == lo { 1int } else { 0int }) + (if x
                == hi { 1int } else { 0int }),
    ensures
        t == seq![hi, lo],
{
    broadcast use vstd::seq_lib::group_to_multiset_ensures;

    let e = Seq::<Todo>::empty();
    assert(e.to_multiset() =~= Multiset::empty());
    assert(seq![lo] =~= e.push(lo));
    assert(seq![lo, hi] =~= seq![lo].push(hi));
    assert(t.to_multiset() =~= seq![lo, hi].to_multiset());
    assert(seq![lo, hi].len() == seq![lo, hi].to_multiset().len());
    assert(t.len() == t.to_multiset().len());
    assert(t.len() == 2);
    assert(t.to_multiset().count(lo) > 0);
    assert(t.to_multiset().count(hi) > 0);
    assert(t.contains(lo));
    assert(t.contains(hi));
    assert(t.to_multiset().count(t[0]) > 0);
    assert(t.to_multiset().count(t[1]) > 0);
    assert(t[0] == lo || t[0] == hi);
    assert(t[1] == lo || t[1] == hi);
    assert(sort_key(t[0], b) >= sort_key(t[1], b));
    assert(t =~= seq![hi, lo]);
}

/// Ordering law, whatever the order in which the store holds the items: with
/// `a` created before `b`, both incomplete, and `c` completed before `d`, both
/// within the last day, a store holding exactly `a`, `b`, `c`, `d` has the
/// relevant list `b`, `a`, `d`, `c`.
pub proof fn lemma_relevant_order_of_four_any_storage(
    a: Todo,
    b: Todo,
    c: Todo,
    d: Todo,
    s: Seq<Todo>,
    now: i64,
)
    requires
        a.completed_at is None,
        b.completed_at is None,
        a.created_at < b.created_at,
        is_recent(c, now),
        is_recent(d, now),
        c.completed_at.unwrap() < d.completed_at.unwrap(),
        s.to_multiset() == seq![a, b, c, d].to_multiset(),
    ensures
        relevant_of(s, now) == seq![b, a, d, c],
{
    lemma_relevant_sections(s, now);
    let inc = sort_desc(s.filter(incomplete_pred()), false);
    let rec = sort_desc(s.filter(recent_pred(now)), true);
    assert forall|x: Todo|
        #[trigger] inc.to_multiset().count(x) == (if x == a { 1int } else { 0int }) + (if x
            == b { 1int } else { 0int }) by {
        lemma_filter_count(s, incomplete_pred(), x);
        lemma_count_four(a, b, c, d, x);
    }
    assert forall|x: Todo|
        #[trigger] rec.to_multiset().count(x) == (if x == c { 1int } else { 0int }) + (if x
            == d { 1int } else { 0int }) by {
        lemma_filter_count(s, recent_pred(now), x);
        lemma_count_four(a, b, c, d, x);
    }
    lemma_sorted_pair(inc, a, b, false);
    lemma_sorted_pair(rec, c, d, true);
    assert(seq![b, a] + seq![d, c] =~= seq![b, a, d, c]);
}

} // verus!
