//! The report: one result per repository path.

use vstd::prelude::*;
use crate::recognizer::RepoProperties;
use crate::text::same_text;

verus! {

/// One entry of the report, seen by its path's characters.
pub type Entry = (Seq<char>, RepoProperties);

/// The result stored for `key`, if any.
pub open spec fn lookup(entries: Seq<Entry>, key: Seq<char>) -> Option<RepoProperties>
    decreases entries.len(),
{
    if entries.len() == 0 {
        None
    } else if entries.last().0 == key {
        Some(entries.last().1)
    } else {
        lookup(entries.drop_last(), key)
    }
}

/// No two entries share a key.
pub open spec fn distinct_keys(entries: Seq<Entry>) -> bool {
    forall|i: int, j: int|
        0 <= i < entries.len() && 0 <= j < entries.len() && i != j ==> entries[i].0
            != entries[j].0
}

/// `entries` with `key` bound to `value`: its entry replaced, or a new one at the end.
pub open spec fn inserted(entries: Seq<Entry>, key: Seq<char>, value: RepoProperties) -> Seq<Entry> {
    if exists|i: int| 0 <= i < entries.len() && entries[i].0 == key {
        let i = choose|i: int| 0 <= i < entries.len() && entries[i].0 == key;
        entries.update(i, (key, value))
    } else {
        entries.push((key, value))
    }
}

/// The report after inserting `items` one after another into an empty one.
pub open spec fn inserted_all(items: Seq<Entry>) -> Seq<Entry>
    decreases items.len(),
{
    if items.len() == 0 {
        seq![]
    } else {
        inserted(inserted_all(items.drop_last()), items.last().0, items.last().1)
    }
}

/// The report as a map from repository path to result.
pub open spec fn as_map(entries: Seq<Entry>) -> Map<Seq<char>, RepoProperties> {
    Map::new(|k: Seq<char>| lookup(entries, k) is Some, |k: Seq<char>| lookup(entries, k)->0)
}

/// The report of a scan: one result per repository path.
pub struct ReposInfo {
    pub entries: Vec<(String, RepoProperties)>,
}

impl ReposInfo {
    pub open spec fn view_entries(&self) -> Seq<Entry> {
        self.entries@.map_values(|e: (String, RepoProperties)| (e.0@, e.1))
    }

    pub open spec fn wf(&self) -> bool {
        distinct_keys(self.view_entries())
    }

    /// An empty report.
    pub fn new() -> (r: Self)
        ensures
            r.wf(),
            r.view_entries().len() == 0,
    {
        ReposInfo { entries: Vec::new() }
    }

    /// The number of repositories in the report.
    pub fn len(&self) -> (r: usize)
        ensures
            r == self.view_entries().len(),
    {
        self.entries.len()
    }

    /// Stores the result of the repository at `path`, replacing an earlier one.
    pub fn insert(&mut self, path: String, props: RepoProperties)
        requires
            old(self).wf(),
        ensures
            final(self).wf(),
            final(self).view_entries() == inserted(old(self).view_entries(), path@, props),
    {
        let ghost before = self.view_entries();
        let mut i: usize = 0;
        while i < self.entries.len()
            invariant
                i <= self.entries@.len(),
                before == self.view_entries(),
                before == old(self).view_entries(),
                distinct_keys(before),
                forall|j: int| 0 <= j < i ==> before[j].0 != path@,
            decreases self.entries@.len() - i,
        {
            if same_text(self.entries[i].0.as_str(), path.as_str()) {
                assert(before[i as int].0 == path@);
                let ghost k = choose|k: int| 0 <= k < before.len() && before[k].0 == path@;
                assert(k == i);
                assert(inserted(before, path@, props) == before.update(i as int, (path@, props)));
                self.entries.set(i, (path, props));
                assert(self.view_entries() =~= before.update(i as int, (path@, props)));
                assert forall|a: int, b: int|
                    0 <= a < self.view_entries().len() && 0 <= b < self.view_entries().len() && a
                        != b implies self.view_entries()[a].0 != self.view_entries()[b].0 by {
                    assert(self.view_entries()[a].0 == before[a].0);
                    assert(self.view_entries()[b].0 == before[b].0);
                }
                return ;
            }
            i = i + 1;
        }
        self.entries.push((path, props));
        assert(self.view_entries() =~= before.push((path@, props)));
        assert forall|a: int, b: int|
            0 <= a < self.view_entries().len() && 0 <= b < self.view_entries().len() && a
                != b implies self.view_entries()[a].0 != self.view_entries()[b].0 by {
            if a < before.len() {
                assert(self.view_entries()[a] == before[a]);
            }
            if b < before.len() {
                assert(self.view_entries()[b] == before[b]);
            }
        }
    }

    /// The result stored for `path`, if any.
    pub fn get(&self, path: &str) -> (r: Option<&RepoProperties>)
        ensures
            r matches Some(p) ==> lookup(self.view_entries(), path@) == Some(*p),
            r is None ==> lookup(self.view_entries(), path@) is None,
    {
        let ghost es = self.view_entries();
        let mut i: usize = self.entries.len();
        assert(es.take(i as int) =~= es);
        while i > 0
            invariant
                i <= es.len(),
                es == self.view_entries(),
                lookup(es, path@) == lookup(es.take(i as int), path@),
            decreases i,
        {
            assert(es.take(i as int).drop_last() =~= es.take(i - 1));
            if same_text(self.entries[i - 1].0.as_str(), path) {
                return Some(&self.entries[i - 1].1);
            }
            i = i - 1;
        }
        None
    }
}

proof fn lemma_lookup_found(entries: Seq<Entry>, i: int)
    requires
        distinct_keys(entries),
        0 <= i < entries.len(),
    ensures
        lookup(entries, entries[i].0) == Some(entries[i].1),
    decreases entries.len(),
{
    if i < entries.len() - 1 {
        assert(entries.drop_last()[i] == entries[i]);
        lemma_lookup_found(entries.drop_last(), i);
    }
}

proof fn lemma_lookup_absent(entries: Seq<Entry>, key: Seq<char>)
    requires
        forall|i: int| 0 <= i < entries.len() ==> entries[i].0 != key,
    ensures
        lookup(entries, key) is None,
    decreases entries.len(),
{
    if entries.len() > 0 {
        assert(entries.last() == entries[entries.len() - 1]);
        lemma_lookup_absent(entries.drop_last(), key);
    }
}

/// Inserting `items` with distinct paths keeps each one: the report holds
/// exactly as many entries as items, and each path maps to its own result.
pub proof fn lemma_distinct_inserts_all_kept(items: Seq<Entry>)
    requires
        distinct_keys(items),
    ensures
        inserted_all(items) == items,
        inserted_all(items).len() == items.len(),
        forall|j: int| 0 <= j < items.len() ==> lookup(inserted_all(items), #[trigger] items[j].0)
            == Some(items[j].1),
    decreases items.len(),
{
    if items.len() > 0 {
        let rest = items.drop_last();
        assert(distinct_keys(rest)) by {
            assert forall|i: int, j: int|
                0 <= i < rest.len() && 0 <= j < rest.len() && i != j implies rest[i].0
                != rest[j].0 by {
                assert(rest[i] == items[i] && rest[j] == items[j]);
            }
        }
        lemma_distinct_inserts_all_kept(rest);
        assert(!exists|i: int| 0 <= i < rest.len() && rest[i].0 == items.last().0) by {
            assert forall|i: int| 0 <= i < rest.len() implies rest[i].0 != items.last().0 by {
                assert(rest[i] == items[i]);
            }
        }
        assert(rest.push(items.last()) =~= items);
        assert(inserted_all(items) == items);
    }
    assert forall|j: int| 0 <= j < items.len() implies lookup(
        inserted_all(items),
        #[trigger] items[j].0,
    ) == Some(items[j].1) by {
        lemma_lookup_found(items, j);
    }
}

/// A repository whose scan failed, and so was never inserted, is absent from
/// the report, while every repository that was inserted keeps its own result.
pub proof fn lemma_failed_repository_absent(items: Seq<Entry>, failed: Seq<char>)
    requires
        distinct_keys(items),
        forall|i: int| 0 <= i < items.len() ==> items[i].0 != failed,
    ensures
        lookup(inserted_all(items), failed) is None,
        forall|j: int| 0 <= j < items.len() ==> lookup(inserted_all(items), #[trigger] items[j].0)
            == Some(items[j].1),
{
    lemma_distinct_inserts_all_kept(items);
    lemma_lookup_absent(items, failed);
}

/// The report does not depend on the order in which results arrive: two
/// sequences of results with distinct paths and the same members give the same
/// map from path to result.
pub proof fn lemma_insert_order_irrelevant(a: Seq<Entry>, b: Seq<Entry>)
    requires
        distinct_keys(a),
        distinct_keys(b),
        forall|e: Entry| a.contains(e) <==> b.contains(e),
    ensures
        as_map(inserted_all(a)) == as_map(inserted_all(b)),
{
    lemma_distinct_inserts_all_kept(a);
    lemma_distinct_inserts_all_kept(b);
    assert forall|k: Seq<char>| lookup(a, k) == lookup(b, k) by {
        if exists|i: int| 0 <= i < a.len() && a[i].0 == k {
            let i = choose|i: int| 0 <= i < a.len() && a[i].0 == k;
            lemma_lookup_found(a, i);
            assert(a.contains(a[i]));
            assert(b.contains(a[i]));
            let j = choose|j: int| 0 <= j < b.len() && b[j] == a[i];
            lemma_lookup_found(b, j);
        } else if exists|j: int| 0 <= j < b.len() && b[j].0 == k {
            let j = choose|j: int| 0 <= j < b.len() && b[j].0 == k;
            assert(b.contains(b[j]));
            assert(a.contains(b[j]));
            let i = choose|i: int| 0 <= i < a.len() && a[i] == b[j];
            assert(a[i].0 == k);
        } else {
            lemma_lookup_absent(a, k);
            lemma_lookup_absent(b, k);
        }
    }
    assert(as_map(a) =~= as_map(b));
}

} // verus!
