//! Ranking: deduplication, preselection, scoring, a stable sort and the limit.

use vstd::prelude::*;
use crate::fuzzy::{fuzzy_match, fuzzy_score};
use crate::item::{Item, reversed};
use crate::pos::{Position, Range};

verus! {

/// The most candidates that one request returns.
pub const COMPLETION_LIMIT: usize = 50;

/// Some item of `s` carries the label `l`.
pub open spec fn has_label(s: Seq<Item>, l: Seq<char>) -> bool {
    exists|k: int| 0 <= k < s.len() && (#[trigger] s[k]).label@ == l
}

/// No two items of `s` carry the same label.
pub open spec fn labels_unique(s: Seq<Item>) -> bool {
    forall|a: int, b: int| 0 <= a < b < s.len() ==> (#[trigger] s[a]).label@ != (#[trigger] s[b]).label@
}

/// `s` with each item whose label came earlier dropped: the first of each label stays.
pub open spec fn dedup_spec(s: Seq<Item>) -> Seq<Item>
    decreases s.len(),
{
    if s.len() == 0 {
        s
    } else {
        let prev = s.drop_last();
        if has_label(prev, s.last().label@) {
            dedup_spec(prev)
        } else {
            dedup_spec(prev).push(s.last())
        }
    }
}

pub proof fn lemma_dedup_labels(s: Seq<Item>, l: Seq<char>)
    ensures
        has_label(dedup_spec(s), l) == has_label(s, l),
    decreases s.len(),
{
    if s.len() > 0 {
        let prev = s.drop_last();
        lemma_dedup_labels(prev, l);
        let d = dedup_spec(prev);
        if has_label(s, l) && !has_label(prev, l) {
            assert(s.last().label@ == l) by {
                let k = choose|k: int| 0 <= k < s.len() && (#[trigger] s[k]).label@ == l;
                if k < prev.len() {
                    assert(prev[k] == s[k]);
                }
            }
        }
        if has_label(prev, l) {
            let k = choose|k: int| 0 <= k < prev.len() && (#[trigger] prev[k]).label@ == l;
            assert(s[k] == prev[k]);
        }
        if !has_label(prev, s.last().label@) {
            let e = d.push(s.last());
            assert(e[d.len() as int] == s.last());
            if has_label(d, l) {
                let k = choose|k: int| 0 <= k < d.len() && (#[trigger] d[k]).label@ == l;
                assert(e[k] == d[k]);
            }
            if has_label(e, l) && !has_label(d, l) {
                let k = choose|k: int| 0 <= k < e.len() && (#[trigger] e[k]).label@ == l;
                if k < d.len() {
                    assert(e[k] == d[k]);
                }
            }
        }
    }
}

pub proof fn lemma_dedup_unique(s: Seq<Item>)
    ensures
        labels_unique(dedup_spec(s)),
    decreases s.len(),
{
    if s.len() > 0 {
        let prev = s.drop_last();
        lemma_dedup_unique(prev);
        lemma_dedup_labels(prev, s.last().label@);
        let d = dedup_spec(prev);
        if !has_label(prev, s.last().label@) {
            let e = d.push(s.last());
            assert forall|a: int, b: int| 0 <= a < b < e.len() implies (#[trigger] e[a]).label@ != (#[trigger] e[b]).label@ by {
                if b == d.len() {
                    assert(e[a] == d[a]);
                } else {
                    assert(e[a] == d[a]);
                    assert(e[b] == d[b]);
                }
            }
        }
    }
}

pub proof fn lemma_dedup_of_unique(s: Seq<Item>)
    requires
        labels_unique(s),
    ensures
        dedup_spec(s) == s,
    decreases s.len(),
{
    if s.len() > 0 {
        let prev = s.drop_last();
        assert(labels_unique(prev)) by {
            assert forall|a: int, b: int| 0 <= a < b < prev.len() implies (#[trigger] prev[a]).label@ != (#[trigger] prev[b]).label@ by {
                assert(prev[a] == s[a] && prev[b] == s[b]);
            }
        }
        lemma_dedup_of_unique(prev);
        if has_label(prev, s.last().label@) {
            let k = choose|k: int| 0 <= k < prev.len() && (#[trigger] prev[k]).label@ == s.last().label@;
            assert(prev[k] == s[k]);
            assert(s[k].label@ != s[s.len() - 1].label@);
        }
        assert(prev.push(s.last()) =~= s);
    }
}

/// Deduplicating twice gives what deduplicating once gives.
pub proof fn lemma_dedup_idempotent(s: Seq<Item>)
    ensures
        dedup_spec(dedup_spec(s)) == dedup_spec(s),
{
    lemma_dedup_unique(s);
    lemma_dedup_of_unique(dedup_spec(s));
}

/// Of candidates that share a label (two bibliographies defining one key),
/// deduplication keeps the first and only it.
pub proof fn lemma_dedup_keeps_first(s: Seq<Item>, i: int)
    requires
        0 <= i < s.len(),
        forall|k: int| 0 <= k < i ==> (#[trigger] s[k]).label@ != s[i].label@,
    ensures
        dedup_spec(s).contains(s[i]),
        forall|k: int| 0 <= k < dedup_spec(s).len() && (#[trigger] dedup_spec(s)[k]).label@ == s[i].label@
            ==> dedup_spec(s)[k] == s[i],
    decreases s.len(),
{
    let prev = s.drop_last();
    let d = dedup_spec(prev);
    let l = s[i].label@;
    if i == s.len() - 1 {
        assert(!has_label(prev, l)) by {
            if has_label(prev, l) {
                let k = choose|k: int| 0 <= k < prev.len() && (#[trigger] prev[k]).label@ == l;
                assert(prev[k] == s[k]);
            }
        }
        lemma_dedup_labels(prev, l);
        let e = d.push(s[i]);
        assert(e[d.len() as int] == s[i]);
        assert forall|k: int| 0 <= k < e.len() && (#[trigger] e[k]).label@ == l implies e[k] == s[i] by {
            if k < d.len() {
                assert(e[k] == d[k]);
                assert(has_label(d, l));
            }
        }
    } else {
        assert forall|k: int| 0 <= k < i implies (#[trigger] prev[k]).label@ != prev[i].label@ by {
            assert(prev[k] == s[k]);
        }
        assert(prev[i] == s[i]);
        lemma_dedup_keeps_first(prev, i);
        if !has_label(prev, s.last().label@) {
            assert(has_label(prev, l));
            let e = d.push(s.last());
            let j = choose|j: int| 0 <= j < d.len() && d[j] == s[i];
            assert(e[j] == s[i]);
            assert forall|k: int| 0 <= k < e.len() && (#[trigger] e[k]).label@ == l implies e[k] == s[i] by {
                if k < d.len() {
                    assert(e[k] == d[k]);
                }
            }
        }
    }
}

pub proof fn lemma_dedup_members(s: Seq<Item>)
    ensures
        forall|k: int| 0 <= k < dedup_spec(s).len() ==> exists|m: int| 0 <= m < s.len() && #[trigger] dedup_spec(s)[k] == s[m],
    decreases s.len(),
{
    if s.len() > 0 {
        let prev = s.drop_last();
        lemma_dedup_members(prev);
        let d = dedup_spec(prev);
        assert forall|k: int| 0 <= k < dedup_spec(s).len() implies exists|m: int| 0 <= m < s.len() && #[trigger] dedup_spec(s)[k] == s[m] by {
            if k < d.len() {
                assert(dedup_spec(s)[k] == d[k]);
                let m = choose|m: int| 0 <= m < prev.len() && d[k] == prev[m];
                assert(s[m] == prev[m]);
            } else {
                assert(dedup_spec(s)[k] == s[s.len() - 1]);
            }
        }
    }
}

pub proof fn lemma_survivors_members(s: Seq<Item>, pattern: Seq<char>)
    ensures
        forall|k: int| 0 <= k < survivors(s, pattern).len()
            ==> exists|m: int| 0 <= m < s.len() && #[trigger] survivors(s, pattern)[k].range == s[m].range,
    decreases s.len(),
{
    if s.len() > 0 {
        let prev = s.drop_last();
        lemma_survivors_members(prev, pattern);
        let sp = survivors(prev, pattern);
        assert forall|k: int| 0 <= k < survivors(s, pattern).len()
            implies exists|m: int| 0 <= m < s.len() && #[trigger] survivors(s, pattern)[k].range == s[m].range by {
            if k < sp.len() {
                assert(survivors(s, pattern)[k] == sp[k]);
                let m = choose|m: int| 0 <= m < prev.len() && sp[k].range == prev[m].range;
                assert(s[m] == prev[m]);
            } else {
                assert(survivors(s, pattern)[k].range == s[s.len() - 1].range);
            }
        }
    }
}

fn contains_label(v: &Vec<Item>, l: &String) -> (r: bool)
    ensures
        r == has_label(v@, l@),
{
    let mut i: usize = 0;
    while i < v.len()
        invariant
            i <= v.len(),
            forall|k: int| 0 <= k < i ==> (#[trigger] v@[k]).label@ != l@,
        decreases v.len() - i,
    {
        if v[i].label == *l {
            return true;
        }
        i += 1;
    }
    false
}

/// Keeps the first candidate of each label, in order.
pub fn dedup(items: Vec<Item>) -> (r: Vec<Item>)
    ensures
        r@ == dedup_spec(items@),
        labels_unique(r@),
{
    let ghost orig = items@;
    let n = items.len();
    let mut rest = reversed(items);
    let mut out: Vec<Item> = Vec::new();
    let mut i: usize = 0;
    assert(orig.take(0) =~= Seq::<Item>::empty());
    while i < n
        invariant
            n == orig.len(),
            i <= n,
            rest.len() == n - i,
            forall|k: int| 0 <= k < rest.len() ==> rest@[k] == orig[n - 1 - k],
            out@ == dedup_spec(orig.take(i as int)),
        decreases n - i,
    {
        let x = rest.pop().unwrap();
        assert(x == orig[i as int]);
        let ghost prev = orig.take(i as int);
        assert(orig.take(i + 1).drop_last() =~= prev);
        assert(orig.take(i + 1).last() == x);
        proof { lemma_dedup_labels(prev, x.label@); }
        if !contains_label(&out, &x.label) {
            out.push(x);
        }
        i += 1;
    }
    assert(orig.take(n as int) =~= orig);
    proof { lemma_dedup_unique(orig); }
    out
}

/// An environment of a document: the names that its `\begin` and its `\end`
/// give, the nodes of those two commands, its span, and the argument group of
/// its `\end`.
#[derive(Clone, Debug)]
pub struct EnvironmentInfo {
    pub name: Option<String>,
    pub end_name: Option<String>,
    pub begin_node: usize,
    pub end_node: usize,
    pub range: Range,
    pub end_argument: Range,
    pub end_argument_closed: bool,
}

/// The cursor stands in the name slot of the environment's `\end`.
pub open spec fn in_end_argument(e: EnvironmentInfo, p: Position) -> bool {
    e.end_argument.spec_contains_exclusive(p) || (!e.end_argument_closed && e.end_argument.spec_contains(p))
}

/// Some environment names `l` and has the cursor in its `\end` name slot.
pub open spec fn preselects(envs: Seq<EnvironmentInfo>, p: Position, l: Seq<char>) -> bool {
    exists|k: int| 0 <= k < envs.len() && in_end_argument(#[trigger] envs[k], p) && names_environment(envs[k], l)
}

pub open spec fn names_environment(e: EnvironmentInfo, l: Seq<char>) -> bool {
    match e.name {
        Some(n) => n@ == l,
        None => false,
    }
}

pub open spec fn preselected(it: Item, envs: Seq<EnvironmentInfo>, p: Position) -> Item {
    Item { preselect: it.preselect || preselects(envs, p, it.label@), ..it }
}

fn preselects_exec(envs: &Vec<EnvironmentInfo>, p: Position, l: &String) -> (r: bool)
    ensures
        r == preselects(envs@, p, l@),
{
    let mut k: usize = 0;
    while k < envs.len()
        invariant
            k <= envs.len(),
            forall|j: int| 0 <= j < k ==> !(in_end_argument(#[trigger] envs@[j], p) && names_environment(envs@[j], l@)),
        decreases envs.len() - k,
    {
        let e = &envs[k];
        let inside = e.end_argument.contains_exclusive(p) || (!e.end_argument_closed && e.end_argument.contains(p));
        if inside {
            if let Some(n) = &e.name {
                if *n == *l {
                    return true;
                }
            }
        }
        k += 1;
    }
    false
}

/// Marks as preselected each candidate named like an environment whose `\end`
/// name slot holds the cursor.
pub fn preselect(items: Vec<Item>, envs: &Vec<EnvironmentInfo>, p: Position) -> (r: Vec<Item>)
    ensures
        r.len() == items.len(),
        forall|k: int| 0 <= k < r.len() ==> r@[k] == preselected(#[trigger] items@[k], envs@, p),
{
    let ghost orig = items@;
    let n = items.len();
    let mut rest = reversed(items);
    let mut out: Vec<Item> = Vec::new();
    while out.len() < n
        invariant
            n == orig.len(),
            out.len() <= n,
            rest.len() == n - out.len(),
            forall|k: int| 0 <= k < rest.len() ==> rest@[k] == orig[n - 1 - k],
            forall|k: int| 0 <= k < out.len() ==> out@[k] == preselected(#[trigger] orig[k], envs@, p),
        decreases n - out.len(),
    {
        let mut x = rest.pop().unwrap();
        if preselects_exec(envs, p, &x.label) {
            x.preselect = true;
        }
        out.push(x);
    }
    out
}

pub open spec fn scored(it: Item, pattern: Seq<char>) -> Item {
    Item { score: fuzzy_score(it.text@, pattern), ..it }
}

/// The candidates that the current word matches, each with its score.
pub open spec fn survivors(s: Seq<Item>, pattern: Seq<char>) -> Seq<Item>
    decreases s.len(),
{
    if s.len() == 0 {
        Seq::empty()
    } else {
        let prev = survivors(s.drop_last(), pattern);
        let x = scored(s.last(), pattern);
        if x.score is Some {
            prev.push(x)
        } else {
            prev
        }
    }
}

/// Scores each candidate against the current word and drops those it rejects.
pub fn score_and_filter(items: Vec<Item>, pattern: &str) -> (r: Vec<Item>)
    ensures
        r@ == survivors(items@, pattern@),
        forall|k: int| 0 <= k < r.len() ==> (#[trigger] r@[k]).score is Some,
{
    let ghost orig = items@;
    let n = items.len();
    let mut rest = reversed(items);
    let mut out: Vec<Item> = Vec::new();
    let mut i: usize = 0;
    assert(orig.take(0) =~= Seq::<Item>::empty());
    while i < n
        invariant
            n == orig.len(),
            i <= n,
            rest.len() == n - i,
            forall|k: int| 0 <= k < rest.len() ==> rest@[k] == orig[n - 1 - k],
            out@ == survivors(orig.take(i as int), pattern@),
            forall|k: int| 0 <= k < out.len() ==> (#[trigger] out@[k]).score is Some,
        decreases n - i,
    {
        let mut x = rest.pop().unwrap();
        assert(orig.take(i + 1).drop_last() =~= orig.take(i as int));
        assert(orig.take(i + 1).last() == orig[i as int]);
        x.score = fuzzy_match(x.text.as_str(), pattern);
        if x.score.is_some() {
            out.push(x);
        }
        i += 1;
    }
    assert(orig.take(n as int) =~= orig);
    out
}

/// `a` may stand before `b`: preselected first, then by descending score.
pub open spec fn rank_le(a: Item, b: Item) -> bool {
    (a.preselect && !b.preselect) || (a.preselect == b.preselect && score_value(a) >= score_value(b))
}

pub open spec fn score_value(a: Item) -> int {
    match a.score {
        Some(v) => v as int,
        None => i64::MIN as int + 1,
    }
}

pub open spec fn rank_sorted(s: Seq<Item>) -> bool {
    forall|a: int, b: int| 0 <= a < b < s.len() ==> rank_le(#[trigger] s[a], #[trigger] s[b])
}

/// `x` placed after the last item of the sorted `s` that may stand before it.
pub open spec fn insert_ranked(s: Seq<Item>, x: Item) -> Seq<Item>
    decreases s.len(),
{
    if s.len() == 0 {
        seq![x]
    } else if rank_le(s.last(), x) {
        s.push(x)
    } else {
        insert_ranked(s.drop_last(), x).push(s.last())
    }
}

/// Stable insertion sort by `rank_le`: items of equal rank keep their order.
pub open spec fn sort_ranked(s: Seq<Item>) -> Seq<Item>
    decreases s.len(),
{
    if s.len() == 0 {
        s
    } else {
        insert_ranked(sort_ranked(s.drop_last()), s.last())
    }
}

proof fn lemma_insert_at(s: Seq<Item>, x: Item, j: int)
    requires
        0 <= j <= s.len(),
        j == 0 || rank_le(s[j - 1], x),
        forall|k: int| j <= k < s.len() ==> !rank_le(#[trigger] s[k], x),
    ensures
        insert_ranked(s, x) == s.insert(j, x),
    decreases s.len(),
{
    if s.len() == 0 {
        assert(s.insert(j, x) =~= seq![x]);
    } else if rank_le(s.last(), x) {
        assert(j == s.len());
        assert(s.insert(j, x) =~= s.push(x));
    } else {
        let prev = s.drop_last();
        lemma_insert_at(prev, x, j);
        assert(prev.insert(j, x).push(s.last()) =~= s.insert(j, x));
    }
}

proof fn lemma_insert_sorted(s: Seq<Item>, x: Item, j: int)
    requires
        rank_sorted(s),
        0 <= j <= s.len(),
        j == 0 || rank_le(s[j - 1], x),
        forall|k: int| j <= k < s.len() ==> !rank_le(#[trigger] s[k], x),
    ensures
        rank_sorted(s.insert(j, x)),
{
    let t = s.insert(j, x);
    assert forall|a: int, b: int| 0 <= a < b < t.len() implies rank_le(#[trigger] t[a], #[trigger] t[b]) by {
        if a < j && b == j {
            assert(rank_le(s[a], s[j - 1]) || a == j - 1);
        } else if a == j && b > j {
            assert(t[b] == s[b - 1]);
            assert(!rank_le(s[b - 1], x));
        } else if a < j && b > j {
            assert(t[b] == s[b - 1]);
        } else if b < j {
        } else {
            assert(t[a] == s[a - 1]);
            assert(t[b] == s[b - 1]);
        }
    }
}

proof fn lemma_survivors_unique(s: Seq<Item>, pattern: Seq<char>)
    requires
        labels_unique(s),
    ensures
        labels_unique(survivors(s, pattern)),
        forall|l: Seq<char>| has_label(survivors(s, pattern), l) ==> has_label(s, l),
    decreases s.len(),
{
    if s.len() > 0 {
        let prev = s.drop_last();
        assert(labels_unique(prev)) by {
            assert forall|a: int, b: int| 0 <= a < b < prev.len() implies (#[trigger] prev[a]).label@ != (#[trigger] prev[b]).label@ by {
                assert(prev[a] == s[a] && prev[b] == s[b]);
            }
        }
        lemma_survivors_unique(prev, pattern);
        let sp = survivors(prev, pattern);
        let x = scored(s.last(), pattern);
        assert forall|l: Seq<char>| has_label(sp, l) implies has_label(s, l) by {
            assert(has_label(prev, l));
            let k = choose|k: int| 0 <= k < prev.len() && (#[trigger] prev[k]).label@ == l;
            assert(s[k] == prev[k]);
        }
        if x.score is Some {
            let e = sp.push(x);
            assert(!has_label(sp, x.label@)) by {
                if has_label(sp, x.label@) {
                    assert(has_label(prev, x.label@));
                    let k = choose|k: int| 0 <= k < prev.len() && (#[trigger] prev[k]).label@ == x.label@;
                    assert(s[k] == prev[k]);
                    assert(s[k].label@ != s[s.len() - 1].label@);
                }
            }
            assert forall|a: int, b: int| 0 <= a < b < e.len() implies (#[trigger] e[a]).label@ != (#[trigger] e[b]).label@ by {
                assert(e[a] == sp[a]);
                if b < sp.len() {
                    assert(e[b] == sp[b]);
                }
            }
            assert forall|l: Seq<char>| has_label(e, l) implies has_label(s, l) by {
                let k = choose|k: int| 0 <= k < e.len() && (#[trigger] e[k]).label@ == l;
                if k < sp.len() {
                    assert(e[k] == sp[k]);
                    assert(has_label(sp, l));
                } else {
                    assert(s[s.len() - 1].label@ == l);
                }
            }
        }
    }
}

fn rank_le_exec(a: &Item, b: &Item) -> (r: bool)
    ensures
        r == rank_le(*a, *b),
{
    let sa: i64 = match a.score { Some(v) => v, None => i64::MIN + 1 };
    let sb: i64 = match b.score { Some(v) => v, None => i64::MIN + 1 };
    (a.preselect && !b.preselect) || (a.preselect == b.preselect && sa >= sb)
}

/// Sorts preselected candidates first, then by descending score; a stable sort,
/// so candidates of equal rank keep the order in which they were produced.
pub fn sort_items(items: Vec<Item>) -> (r: Vec<Item>)
    ensures
        r@ == sort_ranked(items@),
        rank_sorted(r@),
        r.len() == items.len(),
        forall|k: int| 0 <= k < r.len() ==> exists|m: int| 0 <= m < items.len() && #[trigger] r@[k] == #[trigger] items@[m],
        labels_unique(items@) ==> labels_unique(r@),
{
    let ghost orig = items@;
    let n = items.len();
    let mut rest = reversed(items);
    let mut out: Vec<Item> = Vec::new();
    let mut i: usize = 0;
    assert(orig.take(0) =~= Seq::<Item>::empty());
    while i < n
        invariant
            n == orig.len(),
            i <= n,
            rest.len() == n - i,
            forall|k: int| 0 <= k < rest.len() ==> rest@[k] == orig[n - 1 - k],
            out@ == sort_ranked(orig.take(i as int)),
            rank_sorted(out@),
            out.len() == i,
            forall|k: int| 0 <= k < out.len() ==> exists|m: int| 0 <= m < i && #[trigger] out@[k] == #[trigger] orig[m],
            labels_unique(orig) ==> labels_unique(out@),
        decreases n - i,
    {
        let x = rest.pop().unwrap();
        assert(orig.take(i + 1).drop_last() =~= orig.take(i as int));
        assert(orig.take(i + 1).last() == orig[i as int]);
        let mut j = out.len();
        while j > 0 && !rank_le_exec(&out[j - 1], &x)
            invariant
                j <= out.len(),
                forall|k: int| j <= k < out.len() ==> !rank_le(#[trigger] out@[k], x),
            decreases j,
        {
            j -= 1;
        }
        proof {
            lemma_insert_at(out@, x, j as int);
            lemma_insert_sorted(out@, x, j as int);
        }
        let ghost before = out@;
        out.insert(j, x);
        proof {
            assert forall|k: int| 0 <= k < out.len() implies exists|m: int| 0 <= m < i + 1 && #[trigger] out@[k] == #[trigger] orig[m] by {
                if k < j {
                    assert(out@[k] == before[k]);
                    let m = choose|m: int| 0 <= m < i && before[k] == #[trigger] orig[m];
                    assert(out@[k] == orig[m]);
                } else if k == j {
                    assert(out@[k] == orig[i as int]);
                } else {
                    assert(out@[k] == before[k - 1]);
                    let m = choose|m: int| 0 <= m < i && before[k - 1] == #[trigger] orig[m];
                    assert(out@[k] == orig[m]);
                }
            }
            if labels_unique(orig) {
                assert forall|a: int, b: int| 0 <= a < b < out.len() implies (#[trigger] out@[a]).label@ != (#[trigger] out@[b]).label@ by {
                    let ia = if a < j { a } else if a == j { -1 } else { a - 1 };
                    let ib = if b < j { b } else if b == j { -1 } else { b - 1 };
                    if ia >= 0 && ib >= 0 {
                        assert(out@[a] == before[ia] && out@[b] == before[ib]);
                    } else if ia < 0 {
                        assert(out@[b] == before[ib]);
                        let m = choose|m: int| 0 <= m < i && before[ib] == #[trigger] orig[m];
                        assert(orig[m].label@ != orig[i as int].label@);
                    } else {
                        assert(out@[a] == before[ia]);
                        let m = choose|m: int| 0 <= m < i && before[ia] == #[trigger] orig[m];
                        assert(orig[m].label@ != orig[i as int].label@);
                    }
                }
            }
        }
        i += 1;
    }
    assert(orig.take(n as int) =~= orig);
    out
}

/// The first `COMPLETION_LIMIT` items of `s`.
pub open spec fn limited(s: Seq<Item>) -> Seq<Item> {
    if s.len() <= COMPLETION_LIMIT {
        s
    } else {
        s.take(COMPLETION_LIMIT as int)
    }
}

/// The whole ranking: deduplicate, preselect, score against the current word,
/// drop what it rejects, sort, and keep the first `COMPLETION_LIMIT`.
pub open spec fn ranked(s: Seq<Item>, envs: Seq<EnvironmentInfo>, p: Position, pattern: Seq<char>) -> Seq<Item> {
    let d = dedup_spec(s);
    let marked = Seq::new(d.len(), |k: int| preselected(d[k], envs, p));
    limited(sort_ranked(survivors(marked, pattern)))
}

/// Ranks the merged candidates of all generators into the final list.
pub fn rank(items: Vec<Item>, envs: &Vec<EnvironmentInfo>, p: Position, pattern: &str) -> (r: Vec<Item>)
    ensures
        r@ == ranked(items@, envs@, p, pattern@),
        rank_sorted(r@),
        labels_unique(r@),
        r.len() <= COMPLETION_LIMIT,
        forall|k: int| 0 <= k < r.len() ==> (#[trigger] r@[k]).score is Some,
        forall|k: int| 0 <= k < r.len() ==> exists|m: int| 0 <= m < items.len() && #[trigger] r@[k].range == items@[m].range,
{
    let d = dedup(items);
    let ghost dd = d@;
    let m = preselect(d, envs, p);
    assert(m@ =~= Seq::new(dd.len(), |k: int| preselected(dd[k], envs@, p)));
    let s = score_and_filter(m, pattern);
    let ghost ss = s@;
    proof {
        lemma_dedup_unique(items@);
        assert(labels_unique(m@)) by {
            assert forall|a: int, b: int| 0 <= a < b < m@.len() implies (#[trigger] m@[a]).label@ != (#[trigger] m@[b]).label@ by {
                assert(m@[a].label == dd[a].label && m@[b].label == dd[b].label);
            }
        }
        lemma_survivors_unique(m@, pattern@);
    }
    let mut o = sort_items(s);
    let ghost oo = o@;
    assert forall|k: int| 0 <= k < oo.len() implies (#[trigger] oo[k]).score is Some by {
        let m = choose|m: int| 0 <= m < ss.len() && oo[k] == #[trigger] ss[m];
    }
    proof {
        lemma_dedup_members(items@);
        lemma_survivors_members(m@, pattern@);
        assert forall|k: int| 0 <= k < oo.len() implies exists|j: int| 0 <= j < items.len() && #[trigger] oo[k].range == items@[j].range by {
            let a = choose|a: int| 0 <= a < ss.len() && #[trigger] oo[k] == #[trigger] ss[a];
            let b = choose|b: int| 0 <= b < m@.len() && #[trigger] survivors(m@, pattern@)[a].range == m@[b].range;
            assert(m@[b].range == dd[b].range);
            let c = choose|c: int| 0 <= c < items.len() && #[trigger] dedup_spec(items@)[b] == items@[c];
        }
    }
    if o.len() > COMPLETION_LIMIT {
        o.truncate(COMPLETION_LIMIT);
        assert(o@ =~= oo.take(COMPLETION_LIMIT as int));
    }
    o
}

proof fn lemma_insert_ranked_index(t: Seq<Item>, x: Item) -> (j: int)
    ensures
        0 <= j <= t.len(),
        j == 0 || rank_le(t[j - 1], x),
        forall|k: int| j <= k < t.len() ==> !rank_le(#[trigger] t[k], x),
    decreases t.len(),
{
    if t.len() == 0 {
        0
    } else if rank_le(t.last(), x) {
        t.len() as int
    } else {
        let prev = t.drop_last();
        let j = lemma_insert_ranked_index(prev, x);
        assert forall|k: int| j <= k < t.len() implies !rank_le(#[trigger] t[k], x) by {
            if k < prev.len() {
                assert(t[k] == prev[k]);
            }
        }
        j
    }
}

proof fn lemma_sort_ranked_sorted(s: Seq<Item>)
    ensures
        rank_sorted(sort_ranked(s)),
        sort_ranked(s).len() == s.len(),
    decreases s.len(),
{
    if s.len() > 0 {
        let t = sort_ranked(s.drop_last());
        lemma_sort_ranked_sorted(s.drop_last());
        let j = lemma_insert_ranked_index(t, s.last());
        lemma_insert_at(t, s.last(), j);
        lemma_insert_sorted(t, s.last(), j);
    }
}

proof fn lemma_survivors_len(a: Seq<Item>, b: Seq<Item>, pattern: Seq<char>)
    requires
        a.len() == b.len(),
        forall|k: int| 0 <= k < a.len() ==> (#[trigger] a[k]).text == b[k].text,
    ensures
        survivors(a, pattern).len() == survivors(b, pattern).len(),
    decreases a.len(),
{
    if a.len() > 0 {
        assert forall|k: int| 0 <= k < a.drop_last().len() implies (#[trigger] a.drop_last()[k]).text == b.drop_last()[k].text by {
            assert(a[k].text == b[k].text);
        }
        lemma_survivors_len(a.drop_last(), b.drop_last(), pattern);
        assert(a[a.len() - 1].text == b[b.len() - 1].text);
    }
}

proof fn lemma_ranked_sorted(s: Seq<Item>, envs: Seq<EnvironmentInfo>, p: Position, pattern: Seq<char>)
    ensures
        rank_sorted(ranked(s, envs, p, pattern)),
{
    let d = dedup_spec(s);
    let marked = Seq::new(d.len(), |k: int| preselected(d[k], envs, p));
    let t = sort_ranked(survivors(marked, pattern));
    lemma_sort_ranked_sorted(survivors(marked, pattern));
    if t.len() > COMPLETION_LIMIT {
        let u = t.take(COMPLETION_LIMIT as int);
        assert forall|a: int, b: int| 0 <= a < b < u.len() implies rank_le(#[trigger] u[a], #[trigger] u[b]) by {
            assert(u[a] == t[a] && u[b] == t[b]);
        }
    }
}

/// Among ranked candidates that are not preselected, one with a higher score
/// comes before one with a lower score.
pub proof fn lemma_higher_score_first(
    s: Seq<Item>,
    envs: Seq<EnvironmentInfo>,
    p: Position,
    pattern: Seq<char>,
    a: int,
    b: int,
)
    requires
        0 <= a < ranked(s, envs, p, pattern).len(),
        0 <= b < ranked(s, envs, p, pattern).len(),
        !ranked(s, envs, p, pattern)[a].preselect,
        !ranked(s, envs, p, pattern)[b].preselect,
        score_value(ranked(s, envs, p, pattern)[a]) > score_value(ranked(s, envs, p, pattern)[b]),
    ensures
        a < b,
{
    lemma_ranked_sorted(s, envs, p, pattern);
    let r = ranked(s, envs, p, pattern);
    if b < a {
        assert(rank_le(r[b], r[a]));
    }
}

/// Every preselected candidate comes before every candidate that is not,
/// whatever their scores.
pub proof fn lemma_preselected_first(
    s: Seq<Item>,
    envs: Seq<EnvironmentInfo>,
    p: Position,
    pattern: Seq<char>,
    a: int,
    b: int,
)
    requires
        0 <= a < ranked(s, envs, p, pattern).len(),
        0 <= b < ranked(s, envs, p, pattern).len(),
        ranked(s, envs, p, pattern)[a].preselect,
        !ranked(s, envs, p, pattern)[b].preselect,
    ensures
        a < b,
{
    lemma_ranked_sorted(s, envs, p, pattern);
    let r = ranked(s, envs, p, pattern);
    if b < a {
        assert(rank_le(r[b], r[a]));
    }
}

/// The final list holds the first `COMPLETION_LIMIT` of the deduplicated
/// candidates that the current word matches, or all of them where they are fewer.
pub proof fn lemma_ranked_len(s: Seq<Item>, envs: Seq<EnvironmentInfo>, p: Position, pattern: Seq<char>)
    ensures
        ranked(s, envs, p, pattern).len() == (if survivors(dedup_spec(s), pattern).len() <= COMPLETION_LIMIT {
            survivors(dedup_spec(s), pattern).len()
        } else {
            COMPLETION_LIMIT as nat
        }),
        ranked(s, envs, p, pattern).len() <= COMPLETION_LIMIT,
{
    let d = dedup_spec(s);
    let marked = Seq::new(d.len(), |k: int| preselected(d[k], envs, p));
    lemma_survivors_len(marked, d, pattern);
    lemma_sort_ranked_sorted(survivors(marked, pattern));
}

} // verus!
