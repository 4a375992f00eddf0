//! The durable Work table: one entry per Work identity, kept in identity order.

use vstd::prelude::*;
use super::model::{Entry, EntryView};
use super::order::{id_less, lemma_less_irreflexive, lemma_less_transitive};

verus! {

pub open spec fn views(s: Seq<Entry>) -> Seq<EntryView> {
    s.map_values(|e: Entry| e@)
}

/// Identities strictly increase along the table, so each Work appears once.
pub open spec fn sorted(s: Seq<EntryView>) -> bool {
    forall|i: int, j: int| 0 <= i < j < s.len() ==> id_less(#[trigger] s[i].id(), #[trigger] s[j].id())
}

pub open spec fn has_id(s: Seq<EntryView>, k: Seq<char>) -> bool {
    exists|i: int| 0 <= i < s.len() && (#[trigger] s[i]).id() == k
}

/// The table read as a map from Work identity to its entry.
pub open spec fn index_map(s: Seq<EntryView>) -> Map<Seq<char>, EntryView> {
    Map::new(
        |k: Seq<char>| has_id(s, k),
        |k: Seq<char>| s[choose|i: int| 0 <= i < s.len() && (#[trigger] s[i]).id() == k],
    )
}

pub proof fn lemma_distinct(s: Seq<EntryView>, i: int, j: int)
    requires
        sorted(s),
        0 <= i < s.len(),
        0 <= j < s.len(),
        i != j,
    ensures
        s[i].id() != s[j].id(),
{
    if i < j {
        if s[i].id() == s[j].id() {
            lemma_less_irreflexive(s[i].id());
        }
    } else {
        if s[i].id() == s[j].id() {
            lemma_less_irreflexive(s[i].id());
        }
    }
}

pub proof fn lemma_lookup(s: Seq<EntryView>, i: int)
    requires
        sorted(s),
        0 <= i < s.len(),
    ensures
        index_map(s).contains_key(s[i].id()),
        index_map(s)[s[i].id()] == s[i],
{
    let k = s[i].id();
    assert(has_id(s, k));
    let j = choose|j: int| 0 <= j < s.len() && (#[trigger] s[j]).id() == k;
    if j != i {
        lemma_distinct(s, i, j);
    }
}

pub proof fn lemma_absent(s: Seq<EntryView>, k: Seq<char>)
    requires
        forall|i: int| 0 <= i < s.len() ==> (#[trigger] s[i]).id() != k,
    ensures
        !index_map(s).contains_key(k),
{
}

pub proof fn lemma_update(s: Seq<EntryView>, i: int, e: EntryView)
    requires
        sorted(s),
        0 <= i < s.len(),
        e.id() == s[i].id(),
    ensures
        sorted(s.update(i, e)),
        index_map(s.update(i, e)) == index_map(s).insert(s[i].id(), e),
{
    let t = s.update(i, e);
    assert forall|a: int, b: int| 0 <= a < b < t.len() implies id_less(
        #[trigger] t[a].id(),
        #[trigger] t[b].id(),
    ) by {
        assert(t[a].id() == s[a].id());
        assert(t[b].id() == s[b].id());
    }
    let m = index_map(s).insert(s[i].id(), e);
    assert forall|k: Seq<char>| #[trigger] index_map(t).contains_key(k) <==> m.contains_key(k) by {
        if has_id(t, k) {
            let j = choose|j: int| 0 <= j < t.len() && (#[trigger] t[j]).id() == k;
            if j != i {
                assert(s[j].id() == k);
            }
        }
        if has_id(s, k) {
            let j = choose|j: int| 0 <= j < s.len() && (#[trigger] s[j]).id() == k;
            assert(t[j].id() == k);
        }
        if k == s[i].id() {
            assert(t[i].id() == k);
        }
    }
    assert forall|k: Seq<char>| #[trigger] index_map(t).contains_key(k) implies index_map(t)[k]
        == m[k] by {
        let j = choose|j: int| 0 <= j < t.len() && (#[trigger] t[j]).id() == k;
        lemma_lookup(t, j);
        if j != i {
            assert(t[j] == s[j]);
            lemma_lookup(s, j);
            lemma_distinct(t, i, j);
        }
    }
    assert(index_map(t) =~= m);
}

pub proof fn lemma_remove(s: Seq<EntryView>, i: int)
    requires
        sorted(s),
        0 <= i < s.len(),
    ensures
        sorted(s.remove(i)),
        index_map(s.remove(i)) == index_map(s).remove(s[i].id()),
{
    let t = s.remove(i);
    assert forall|a: int, b: int| 0 <= a < b < t.len() implies id_less(
        #[trigger] t[a].id(),
        #[trigger] t[b].id(),
    ) by {
        let a2 = if a < i { a } else { a + 1 };
        let b2 = if b < i { b } else { b + 1 };
        assert(t[a] == s[a2]);
        assert(t[b] == s[b2]);
    }
    let m = index_map(s).remove(s[i].id());
    assert forall|k: Seq<char>| #[trigger] index_map(t).contains_key(k) <==> m.contains_key(k) by {
        if has_id(t, k) {
            let j = choose|j: int| 0 <= j < t.len() && (#[trigger] t[j]).id() == k;
            let j2 = if j < i { j } else { j + 1 };
            assert(t[j] == s[j2]);
            lemma_distinct(s, i, j2);
        }
        if has_id(s, k) && k != s[i].id() {
            let j = choose|j: int| 0 <= j < s.len() && (#[trigger] s[j]).id() == k;
            let j2 = if j < i { j } else { j - 1 };
            assert(t[j2] == s[j]);
        }
    }
    assert forall|k: Seq<char>| #[trigger] index_map(t).contains_key(k) implies index_map(t)[k]
        == m[k] by {
        let j = choose|j: int| 0 <= j < t.len() && (#[trigger] t[j]).id() == k;
        let j2 = if j < i { j } else { j + 1 };
        assert(t[j] == s[j2]);
        lemma_lookup(t, j);
        lemma_lookup(s, j2);
    }
    assert(index_map(t) =~= m);
}

pub proof fn lemma_insert(s: Seq<EntryView>, p: int, e: EntryView)
    requires
        sorted(s),
        0 <= p <= s.len(),
        forall|i: int| 0 <= i < p ==> id_less((#[trigger] s[i]).id(), e.id()),
        forall|i: int| p <= i < s.len() ==> id_less(e.id(), (#[trigger] s[i]).id()),
    ensures
        sorted(s.insert(p, e)),
        index_map(s.insert(p, e)) == index_map(s).insert(e.id(), e),
{
    let t = s.insert(p, e);
    assert forall|a: int, b: int| 0 <= a < b < t.len() implies id_less(
        #[trigger] t[a].id(),
        #[trigger] t[b].id(),
    ) by {
        if a < p && b < p {
            assert(t[a] == s[a] && t[b] == s[b]);
        } else if a < p && b == p {
            assert(t[a] == s[a]);
        } else if a < p {
            assert(t[a] == s[a] && t[b] == s[b - 1]);
        } else if a == p {
            assert(t[b] == s[b - 1]);
        } else {
            assert(t[a] == s[a - 1] && t[b] == s[b - 1]);
        }
    }
    let m = index_map(s).insert(e.id(), e);
    assert(t[p] == e);
    assert forall|k: Seq<char>| #[trigger] index_map(t).contains_key(k) <==> m.contains_key(k) by {
        if has_id(t, k) {
            let j = choose|j: int| 0 <= j < t.len() && (#[trigger] t[j]).id() == k;
            if j < p {
                assert(t[j] == s[j]);
            } else if j > p {
                assert(t[j] == s[j - 1]);
            }
        }
        if has_id(s, k) {
            let j = choose|j: int| 0 <= j < s.len() && (#[trigger] s[j]).id() == k;
            let j2 = if j < p { j } else { j + 1 };
            assert(t[j2] == s[j]);
        }
    }
    assert forall|k: Seq<char>| #[trigger] index_map(t).contains_key(k) implies index_map(t)[k]
        == m[k] by {
        let j = choose|j: int| 0 <= j < t.len() && (#[trigger] t[j]).id() == k;
        lemma_lookup(t, j);
        if j != p {
            let j2 = if j < p { j } else { j - 1 };
            assert(t[j] == s[j2]);
            lemma_lookup(s, j2);
            lemma_distinct(t, j, p);
        }
    }
    assert(index_map(t) =~= m);
}

/// Replacing an entry in place keeps the table's identity order and map reading.
pub proof fn lemma_replace(s: Seq<Entry>, i: int, e: Entry)
    requires
        sorted(views(s)),
        0 <= i < s.len(),
        e@.id() == s[i]@.id(),
    ensures
        views(s.remove(i).insert(i, e)) == views(s).update(i, e@),
        sorted(views(s.remove(i).insert(i, e))),
        index_map(views(s.remove(i).insert(i, e))) == index_map(views(s)).insert(s[i]@.id(), e@),
{
    assert(views(s.remove(i).insert(i, e)) =~= views(s).update(i, e@));
    lemma_update(views(s), i, e@);
}

} // verus!
