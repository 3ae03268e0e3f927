//! The process table: the shared registry of background processes, a
//! mapping from process identifier to the owned handle of the live process.
//! The handle type is generic, so the table's bookkeeping is verified
//! independently of the operating-system process type that the shell binary
//! stores in it.
use vstd::prelude::*;

verus! {

/// Registry of background processes: each tracked identifier paired with
/// the exclusively-owned handle of its process, at most one record per
/// identifier.
pub struct ProcessTable<T> {
    entries: Vec<(u32, T)>,
}

spec fn unique_ids<T>(entries: Seq<(u32, T)>) -> bool {
    forall|i: int, j: int| 0 <= i < j < entries.len() ==> entries[i].0 != entries[j].0
}

spec fn table_map<T>(entries: Seq<(u32, T)>) -> Map<u32, T>
    decreases entries.len(),
{
    if entries.len() == 0 {
        Map::empty()
    } else {
        table_map(entries.drop_last()).insert(entries.last().0, entries.last().1)
    }
}

proof fn lemma_table_key<T>(entries: Seq<(u32, T)>, i: int)
    requires
        unique_ids(entries),
        0 <= i < entries.len(),
    ensures
        table_map(entries).contains_key(entries[i].0),
        table_map(entries)[entries[i].0] == entries[i].1,
    decreases entries.len(),
{
    if i < entries.len() - 1 {
        assert(entries.drop_last()[i] == entries[i]);
        lemma_table_key(entries.drop_last(), i);
        assert(entries.last().0 != entries[i].0);
    }
}

proof fn lemma_table_absent<T>(entries: Seq<(u32, T)>, id: u32)
    requires
        forall|i: int| 0 <= i < entries.len() ==> entries[i].0 != id,
    ensures
        !table_map(entries).contains_key(id),
    decreases entries.len(),
{
    if entries.len() > 0 {
        assert(forall|i: int|
            0 <= i < entries.len() - 1 ==> entries.drop_last()[i] == entries[i]);
        lemma_table_absent(entries.drop_last(), id);
    }
}

proof fn lemma_table_remove<T>(entries: Seq<(u32, T)>, i: int)
    requires
        unique_ids(entries),
        0 <= i < entries.len(),
    ensures
        table_map(entries.remove(i)) == table_map(entries).remove(entries[i].0),
    decreases entries.len(),
{
    let id = entries[i].0;
    if i == entries.len() - 1 {
        assert(entries.remove(i) =~= entries.drop_last());
        assert(forall|k: int|
            0 <= k < entries.len() - 1 ==> entries.drop_last()[k] == entries[k]);
        lemma_table_absent(entries.drop_last(), id);
        assert(table_map(entries.drop_last()) =~= table_map(entries).remove(id));
    } else {
        assert(entries.remove(i).drop_last() =~= entries.drop_last().remove(i));
        assert(entries.remove(i).last() == entries.last());
        assert(forall|k: int|
            0 <= k < entries.len() - 1 ==> entries.drop_last()[k] == entries[k]);
        lemma_table_remove(entries.drop_last(), i);
        assert(table_map(entries.remove(i)) == table_map(entries.drop_last()).remove(id).insert(
            entries.last().0,
            entries.last().1,
        ));
        assert(entries.last().0 != id);
        assert(table_map(entries.drop_last()).remove(id).insert(entries.last().0, entries.last().1)
            =~= table_map(entries).remove(id));
    }
}

proof fn lemma_table_dom<T>(entries: Seq<(u32, T)>)
    requires
        unique_ids(entries),
    ensures
        table_map(entries).dom().finite(),
        table_map(entries).dom().len() == entries.len(),
        forall|id: u32| #[trigger]
            table_map(entries).contains_key(id) <==> entries.map_values(
                |e: (u32, T)| e.0,
            ).contains(id),
    decreases entries.len(),
{
    if entries.len() > 0 {
        assert(forall|k: int|
            0 <= k < entries.len() - 1 ==> entries.drop_last()[k] == entries[k]);
        lemma_table_dom(entries.drop_last());
        lemma_table_absent(entries.drop_last(), entries.last().0);
        assert(entries.drop_last().map_values(|e: (u32, T)| e.0) =~= entries.map_values(
            |e: (u32, T)| e.0,
        ).drop_last());
        assert forall|id: u32| #[trigger]
            table_map(entries).contains_key(id) <==> entries.map_values(
                |e: (u32, T)| e.0,
            ).contains(id) by {
            let ids = entries.map_values(|e: (u32, T)| e.0);
            if table_map(entries).contains_key(id) {
                if id == entries.last().0 {
                    assert(ids[ids.len() - 1] == id);
                } else {
                    let prev = entries.drop_last().map_values(|e: (u32, T)| e.0);
                    assert(prev.contains(id));
                    let k = choose|k: int| 0 <= k < prev.len() && prev[k] == id;
                    assert(ids[k] == id);
                }
            } else {
                if ids.contains(id) {
                    let k = choose|k: int| 0 <= k < ids.len() && ids[k] == id;
                    if k == entries.len() - 1 {
                        assert(table_map(entries).contains_key(id));
                    } else {
                        let prev = entries.drop_last().map_values(|e: (u32, T)| e.0);
                        assert(prev[k] == id);
                    }
                }
            }
        }
    }
}

impl<T> View for ProcessTable<T> {
    type V = Map<u32, T>;

    closed spec fn view(&self) -> Map<u32, T> {
        table_map(self.entries@)
    }
}

impl<T> ProcessTable<T> {
    #[verifier::type_invariant]
    spec fn wf(&self) -> bool {
        unique_ids(self.entries@)
    }

    /// The tracked identifiers, in insertion order; this is the order in
    /// which `jobs` happens to enumerate them.
    pub closed spec fn ids(&self) -> Seq<u32> {
        self.entries@.map_values(|e: (u32, T)| e.0)
    }

    /// An empty table.
    pub fn new() -> (r: Self)
        ensures
            r@ == Map::<u32, T>::empty(),
            r.ids() == Seq::<u32>::empty(),
    {
        let r = ProcessTable { entries: Vec::new() };
        proof {
            assert(r.ids() =~= Seq::<u32>::empty());
        }
        r
    }

    /// Whether an identifier is currently tracked.
    pub fn contains(&self, id: u32) -> (r: bool)
        ensures
            r == self@.contains_key(id),
    {
        proof {
            use_type_invariant(&*self);
        }
        let mut i: usize = 0;
        while i < self.entries.len()
            invariant
                self.wf(),
                i <= self.entries@.len(),
                forall|k: int| 0 <= k < i ==> self.entries@[k].0 != id,
            decreases self.entries@.len() - i,
        {
            if self.entries[i].0 == id {
                proof {
                    lemma_table_key(self.entries@, i as int);
                }
                return true;
            }
            i += 1;
        }
        proof {
            lemma_table_absent(self.entries@, id);
        }
        false
    }

    /// Add a record for an identifier that is not yet tracked; the caller
    /// guarantees freshness, as the operating system does for the
    /// identifiers of concurrently live children.
    pub fn insert(&mut self, id: u32, handle: T)
        requires
            !old(self)@.contains_key(id),
        ensures
            final(self)@ == old(self)@.insert(id, handle),
            final(self).ids() == old(self).ids().push(id),
    {
        proof {
            use_type_invariant(&*self);
            assert forall|i: int| 0 <= i < self.entries@.len() implies self.entries@[i].0
                != id by {
                if self.entries@[i].0 == id {
                    lemma_table_key(self.entries@, i);
                }
            }
        }
        let mut entries: Vec<(u32, T)> = Vec::new();
        core::mem::swap(&mut entries, &mut self.entries);
        let ghost before = entries@;
        entries.push((id, handle));
        proof {
            assert(entries@.drop_last() =~= before);
            assert(entries@.map_values(|e: (u32, T)| e.0) =~= before.map_values(
                |e: (u32, T)| e.0,
            ).push(id));
        }
        self.entries = entries;
    }

    /// Remove the record for an identifier and hand its handle back. Law:
    /// exactly the record for the identifier is removed, and only when it
    /// was present immediately before the call; every other record stays.
    pub fn remove(&mut self, id: u32) -> (r: Option<T>)
        ensures
            final(self)@ == old(self)@.remove(id),
            match r {
                Some(h) => old(self)@.contains_key(id) && h == old(self)@[id],
                None => !old(self)@.contains_key(id) && *final(self) == *old(self),
            },
    {
        proof {
            use_type_invariant(&*self);
        }
        let mut i: usize = 0;
        while i < self.entries.len()
            invariant
                *self == *old(self),
                self.wf(),
                i <= self.entries@.len(),
                forall|k: int| 0 <= k < i ==> self.entries@[k].0 != id,
            decreases self.entries@.len() - i,
        {
            if self.entries[i].0 == id {
                proof {
                    lemma_table_key(self.entries@, i as int);
                    lemma_table_remove(self.entries@, i as int);
                }
                let mut entries: Vec<(u32, T)> = Vec::new();
                core::mem::swap(&mut entries, &mut self.entries);
                let entry = entries.remove(i);
                proof {
                    assert(unique_ids(entries@));
                }
                self.entries = entries;
                return Some(entry.1);
            }
            i += 1;
        }
        proof {
            lemma_table_absent(self.entries@, id);
            assert(self@.remove(id) =~= self@);
        }
        None
    }

    /// Every tracked identifier, in insertion order, as `jobs` lists them.
    pub fn id_list(&self) -> (r: Vec<u32>)
        ensures
            r@ == self.ids(),
            r@.no_duplicates(),
            r@.len() == self@.dom().len(),
            forall|id: u32| r@.contains(id) <==> self@.contains_key(id),
    {
        proof {
            use_type_invariant(&*self);
            lemma_table_dom(self.entries@);
        }
        let mut r: Vec<u32> = Vec::new();
        let mut i: usize = 0;
        while i < self.entries.len()
            invariant
                i <= self.entries@.len(),
                r@.len() == i,
                forall|k: int| 0 <= k < i ==> r@[k] == self.entries@[k].0,
            decreases self.entries@.len() - i,
        {
            let id = self.entries[i].0;
            r.push(id);
            i += 1;
        }
        proof {
            assert(r@ =~= self.ids());
        }
        r
    }
}

/// The table contents after a run of background launches into an empty
/// table, each recording one identifier with its handle.
pub open spec fn spec_after_launches<T>(ids: Seq<u32>, handles: Seq<T>) -> Map<u32, T>
    decreases ids.len(),
{
    if ids.len() == 0 {
        Map::empty()
    } else {
        spec_after_launches(ids.drop_last(), handles.drop_last()).insert(
            ids.last(),
            handles.last(),
        )
    }
}

/// Law: after any number of successful background launches with distinct
/// identifiers and no kills, the table tracks exactly the launched
/// identifiers, one record each.
pub proof fn lemma_jobs_after_launches<T>(ids: Seq<u32>, handles: Seq<T>)
    requires
        ids.no_duplicates(),
        handles.len() == ids.len(),
    ensures
        spec_after_launches(ids, handles).dom() =~= ids.to_set(),
        spec_after_launches(ids, handles).dom().finite(),
        spec_after_launches(ids, handles).dom().len() == ids.len(),
    decreases ids.len(),
{
    if ids.len() > 0 {
        assert(forall|k: int| 0 <= k < ids.len() - 1 ==> ids.drop_last()[k] == ids[k]);
        lemma_jobs_after_launches(ids.drop_last(), handles.drop_last());
        assert(ids.to_set() =~= ids.drop_last().to_set().insert(ids.last()));
        assert(!ids.drop_last().to_set().contains(ids.last())) by {
            if ids.drop_last().to_set().contains(ids.last()) {
                let k = choose|k: int|
                    0 <= k < ids.drop_last().len() && ids.drop_last()[k] == ids.last();
                assert(ids[k] == ids[ids.len() - 1]);
            }
        }
    }
}

} // verus!
