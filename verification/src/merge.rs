//! Folding filter answers into one list without repeated `url` values.

use vstd::prelude::*;
use crate::record::{records, url_name, url_of, Embryo, Props};

verus! {

/// Whether some record of `acc` carries the `url` value `u`.
pub open spec fn seen(acc: Seq<Props>, u: Seq<char>) -> bool {
    exists|i: int| 0 <= i < acc.len() && url_of(#[trigger] acc[i]) == Some(u)
}

/// Whether `e` is dropped when it arrives after `acc`: it has a `url` and
/// that value is already present.
pub open spec fn repeats(acc: Seq<Props>, e: Props) -> bool {
    match url_of(e) {
        Some(u) => seen(acc, u),
        None => false,
    }
}

/// `acc` after the arrival of `e`: the first record with a given `url`
/// stays, later ones are dropped, and records without `url` are all kept.
pub open spec fn absorb(acc: Seq<Props>, e: Props) -> Seq<Props> {
    if repeats(acc, e) {
        acc
    } else {
        acc.push(e)
    }
}

/// `acc` after the arrival of the records of `incoming`, first to last.
pub open spec fn merge(acc: Seq<Props>, incoming: Seq<Props>) -> Seq<Props>
    decreases incoming.len(),
{
    if incoming.len() == 0 {
        acc
    } else {
        absorb(merge(acc, incoming.drop_last()), incoming.last())
    }
}

/// No two records of `s` carry the same `url` value.
pub open spec fn urls_distinct(s: Seq<Props>) -> bool {
    forall|i: int, j: int|
        0 <= i < j < s.len() && url_of(#[trigger] s[i]) is Some ==> url_of(s[i]) != url_of(
            #[trigger] s[j],
        )
}

/// Merging never touches what was there: the accumulated records stay
/// first, unchanged and in their order.
pub proof fn lemma_merge_extends(acc: Seq<Props>, incoming: Seq<Props>)
    ensures
        acc.len() <= merge(acc, incoming).len() <= acc.len() + incoming.len(),
        merge(acc, incoming).take(acc.len() as int) == acc,
    decreases incoming.len(),
{
    if incoming.len() == 0 {
        assert(acc.take(acc.len() as int) =~= acc);
    } else {
        lemma_merge_extends(acc, incoming.drop_last());
        let m = merge(acc, incoming.drop_last());
        assert(absorb(m, incoming.last()).take(acc.len() as int) =~= m.take(acc.len() as int));
    }
}

/// Folding two batches one after the other is folding their concatenation.
pub proof fn lemma_merge_concat(acc: Seq<Props>, first: Seq<Props>, second: Seq<Props>)
    ensures
        merge(merge(acc, first), second) == merge(acc, first + second),
    decreases second.len(),
{
    if second.len() == 0 {
        assert(first + second =~= first);
    } else {
        lemma_merge_concat(acc, first, second.drop_last());
        assert((first + second).drop_last() =~= first + second.drop_last());
        assert((first + second).last() == second.last());
    }
}

/// One survivor per `url`: if no `url` value occurs twice before a merge,
/// none occurs twice after it.
pub proof fn lemma_merge_urls_distinct(acc: Seq<Props>, incoming: Seq<Props>)
    requires
        urls_distinct(acc),
    ensures
        urls_distinct(merge(acc, incoming)),
    decreases incoming.len(),
{
    if incoming.len() > 0 {
        lemma_merge_urls_distinct(acc, incoming.drop_last());
        let m = merge(acc, incoming.drop_last());
        let e = incoming.last();
        if !repeats(m, e) {
            let r = m.push(e);
            assert forall|i: int, j: int|
                0 <= i < j < r.len() && url_of(#[trigger] r[i]) is Some implies url_of(r[i])
                != url_of(#[trigger] r[j]) by {
                if j == m.len() {
                    assert(r[i] == m[i]);
                    if url_of(r[i]) == url_of(e) {
                        assert(seen(m, url_of(e).unwrap()));
                    }
                } else {
                    assert(r[i] == m[i] && r[j] == m[j]);
                }
            }
        }
    }
}

/// Nothing is invented and nothing is lost: every merged record was
/// accumulated or arrived, every `url` value that was accumulated or
/// arrived is present afterwards, and every arriving record without `url`
/// is kept.
pub proof fn lemma_merge_sources(acc: Seq<Props>, incoming: Seq<Props>)
    ensures
        forall|e: Props| #[trigger]
            merge(acc, incoming).contains(e) ==> acc.contains(e) || incoming.contains(e),
        forall|e: Props| #[trigger] acc.contains(e) ==> merge(acc, incoming).contains(e),
        forall|e: Props| #[trigger]
            incoming.contains(e) && url_of(e) is None ==> merge(acc, incoming).contains(e),
        forall|u: Seq<char>| #[trigger]
            seen(merge(acc, incoming), u) <==> seen(acc, u) || seen(incoming, u),
    decreases incoming.len(),
{
    let out = merge(acc, incoming);
    if incoming.len() == 0 {
        assert forall|u: Seq<char>| !seen(incoming, u) by {}
    } else {
        let front = incoming.drop_last();
        let e = incoming.last();
        let m = merge(acc, front);
        lemma_merge_sources(acc, front);
        assert(incoming =~= front.push(e));
        assert forall|x: Props| #[trigger] out.contains(x) implies acc.contains(x)
            || incoming.contains(x) by {
            let k = choose|k: int| 0 <= k < out.len() && out[k] == x;
            if k < m.len() {
                assert(m.contains(x));
                if front.contains(x) {
                    let q = choose|q: int| 0 <= q < front.len() && front[q] == x;
                    assert(incoming[q] == x);
                }
            } else {
                assert(incoming[incoming.len() - 1] == x);
            }
        }
        assert forall|x: Props| #[trigger] acc.contains(x) implies out.contains(x) by {
            assert(m.contains(x));
            let k = choose|k: int| 0 <= k < m.len() && m[k] == x;
            assert(out[k] == x);
        }
        assert forall|x: Props| #[trigger]
            incoming.contains(x) && url_of(x) is None implies out.contains(x) by {
            let q = choose|q: int| 0 <= q < incoming.len() && incoming[q] == x;
            if q < front.len() {
                assert(front[q] == x);
                assert(front.contains(x));
                assert(m.contains(x));
                let k = choose|k: int| 0 <= k < m.len() && m[k] == x;
                assert(out[k] == x);
            } else {
                assert(out[m.len() as int] == x);
            }
        }
        assert forall|u: Seq<char>| #[trigger]
            seen(out, u) <==> seen(acc, u) || seen(incoming, u) by {
            if seen(out, u) {
                let k = choose|k: int| 0 <= k < out.len() && url_of(#[trigger] out[k]) == Some(u);
                if k < m.len() {
                    assert(m[k] == out[k]);
                    assert(seen(m, u));
                    if seen(front, u) {
                        let q = choose|q: int|
                            0 <= q < front.len() && url_of(#[trigger] front[q]) == Some(u);
                        assert(incoming[q] == front[q]);
                    }
                } else {
                    assert(url_of(incoming[incoming.len() - 1]) == Some(u));
                }
            }
            if seen(acc, u) || seen(front, u) {
                assert(seen(m, u));
                let k = choose|k: int| 0 <= k < m.len() && url_of(#[trigger] m[k]) == Some(u);
                assert(out[k] == m[k]);
            }
            if seen(incoming, u) && !seen(front, u) && !seen(acc, u) {
                let q = choose|q: int|
                    0 <= q < incoming.len() && url_of(#[trigger] incoming[q]) == Some(u);
                if q < front.len() {
                    assert(front[q] == incoming[q]);
                    assert(false);
                }
                assert(url_of(e) == Some(u));
                assert(!seen(m, u));
                assert(out[m.len() as int] == e);
            }
        }
    }
}

/// Two answers that share one `url`: from `[a, b]` and then `[b2, c]`,
/// where `b` and `b2` carry the same `url` and the three `url` values
/// differ, the merge is `[a, b, c]`, with `b` in its first version.
pub proof fn lemma_merge_two_answers(a: Props, b: Props, b2: Props, c: Props)
    requires
        url_of(a) is Some,
        url_of(b) is Some,
        url_of(c) is Some,
        url_of(b2) == url_of(b),
        url_of(a) != url_of(b),
        url_of(a) != url_of(c),
        url_of(b) != url_of(c),
    ensures
        merge(merge(Seq::empty(), seq![a, b]), seq![b2, c]) == seq![a, b, c],
{
    let none = Seq::<Props>::empty();
    assert(seq![a, b].drop_last() =~= seq![a]);
    assert(seq![a].drop_last() =~= none);
    assert(merge(none, none) == none);
    assert(merge(none, seq![a]) =~= seq![a]);
    assert(!seen(seq![a], url_of(b).unwrap()));
    assert(merge(none, seq![a, b]) =~= seq![a, b]);
    let ab = seq![a, b];
    assert(seq![b2, c].drop_last() =~= seq![b2]);
    assert(seq![b2].drop_last() =~= none);
    assert(merge(ab, none) == ab);
    assert(url_of(ab[1]) == url_of(b2));
    assert(seen(ab, url_of(b2).unwrap()));
    assert(merge(ab, seq![b2]) == ab);
    assert(!seen(ab, url_of(c).unwrap()));
    assert(merge(ab, seq![b2, c]) =~= seq![a, b, c]);
}

/// `v` back to front, so that popping hands its items out front to back.
pub(crate) fn reversed<T>(v: Vec<T>) -> (r: Vec<T>)
    ensures
        r@.len() == v@.len(),
        forall|k: int| 0 <= k < r@.len() ==> #[trigger] r@[k] == v@[v@.len() - 1 - k],
{
    let ghost given = v@;
    let mut rest = v;
    let mut r: Vec<T> = Vec::new();
    while rest.len() > 0
        invariant
            rest@.len() + r@.len() == given.len(),
            forall|k: int| 0 <= k < rest@.len() ==> #[trigger] rest@[k] == given[k],
            forall|k: int| 0 <= k < r@.len() ==> #[trigger] r@[k] == given[given.len() - 1 - k],
        decreases rest@.len(),
    {
        match rest.pop() {
            Some(e) => {
                r.push(e);
            },
            None => {},
        }
    }
    r
}

fn has_url(list: &Vec<Embryo>, name: &String, u: &String) -> (b: bool)
    requires
        name@ == url_name(),
    ensures
        b == seen(records(list@), u@),
{
    let mut i: usize = 0;
    while i < list.len()
        invariant
            i <= list@.len(),
            name@ == url_name(),
            forall|j: int| 0 <= j < i ==> url_of(#[trigger] records(list@)[j]) != Some(u@),
        decreases list@.len() - i,
    {
        match list[i].url_by(name) {
            Some(v) => {
                if *v == *u {
                    assert(url_of(records(list@)[i as int]) == Some(u@));
                    return true;
                }
            },
            None => {},
        }
        i = i + 1;
    }
    false
}

fn absorb_by(list: &mut Vec<Embryo>, e: Embryo, name: &String) -> (kept: bool)
    requires
        name@ == url_name(),
    ensures
        records(final(list)@) == absorb(records(old(list)@), e@),
        kept == !repeats(records(old(list)@), e@),
{
    let dropped = match e.url_by(name) {
        Some(u) => has_url(list, name, u),
        None => false,
    };
    if dropped {
        false
    } else {
        let ghost before = records(list@);
        list.push(e);
        assert(records(list@) =~= before.push(e@));
        true
    }
}

/// Appends `e` to `list` unless it repeats a `url` that `list` already
/// holds. Returns whether `e` was kept.
pub fn absorb_embryo(list: &mut Vec<Embryo>, e: Embryo) -> (kept: bool)
    ensures
        records(final(list)@) == absorb(records(old(list)@), e@),
        kept == !repeats(records(old(list)@), e@),
{
    let name: String = "url".to_owned();
    absorb_by(list, e, &name)
}

/// Folds `incoming` into `list` in order: a record is appended unless its
/// `url` value is already present, so the first record seen with a given
/// `url` is the one that survives.
pub fn merge_into(list: &mut Vec<Embryo>, incoming: Vec<Embryo>)
    ensures
        records(final(list)@) == merge(records(old(list)@), records(incoming@)),
{
    let ghost start = records(list@);
    let ghost arriving = records(incoming@);
    let n: usize = incoming.len();
    let mut stack: Vec<Embryo> = reversed(incoming);
    let name: String = "url".to_owned();
    let mut done: usize = 0;
    assert(arriving.take(0) =~= Seq::<Props>::empty());
    while stack.len() > 0
        invariant
            done + stack@.len() == n,
            n == arriving.len(),
            name@ == url_name(),
            forall|k: int| 0 <= k < stack@.len() ==> (#[trigger] stack@[k])@ == arriving[n - 1 - k],
            records(list@) == merge(start, arriving.take(done as int)),
        decreases stack@.len(),
    {
        match stack.pop() {
            Some(e) => {
                proof {
                    assert(e@ == arriving[done as int]);
                    assert(arriving.take(done + 1).drop_last() =~= arriving.take(done as int));
                    assert(arriving.take(done + 1).last() == arriving[done as int]);
                }
                let _kept: bool = absorb_by(list, e, &name);
                done = done + 1;
            },
            None => {},
        }
    }
    assert(arriving.take(n as int) =~= arriving);
}

/// The merge of `incoming` into `acc`, as a new list: `acc` first, then
/// each record of `incoming` whose `url` value was not yet present.
pub fn merge_lists_by_url(acc: Vec<Embryo>, incoming: Vec<Embryo>) -> (merged: Vec<Embryo>)
    ensures
        records(merged@) == merge(records(acc@), records(incoming@)),
{
    let mut merged = acc;
    merge_into(&mut merged, incoming);
    merged
}

} // verus!
