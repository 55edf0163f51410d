//! The registry of live index modules.
//!
//! A registry maps module names to handles of opened index modules.  Names
//! are unique at any instant.  `load` records a new module, `unload`
//! removes one and hands its engine handle back for release, and
//! `snapshot` produces an owned, point-in-time copy of the registered
//! modules for one search call: later mutation of the registry leaves an
//! already-taken snapshot untouched, which is what isolates searches in
//! flight from concurrent unloads.

use vstd::prelude::*;

use crate::errors::SearchError;
use crate::order::str_eq;

verus! {

/// One registered module: its unique name, the caller's handle for the
/// underlying engine resource, and the document count last reported by
/// the engine for this module.
pub struct ModuleEntry {
    pub name: String,
    pub handle: u64,
    pub doc_count: u64,
}

/// The mathematical value of a [`ModuleEntry`].
pub ghost struct EntryModel {
    pub name: Seq<char>,
    pub handle: u64,
    pub doc_count: u64,
}

impl View for ModuleEntry {
    type V = EntryModel;

    open spec fn view(&self) -> EntryModel {
        EntryModel { name: self.name@, handle: self.handle, doc_count: self.doc_count }
    }
}

/// The models of a sequence of entries.
pub open spec fn entry_models(s: Seq<ModuleEntry>) -> Seq<EntryModel> {
    s.map(|i: int, e: ModuleEntry| e@)
}

/// No two entries share a name.
pub open spec fn names_unique(s: Seq<EntryModel>) -> bool {
    forall|i: int, j: int| 0 <= i < j < s.len() ==> s[i].name != s[j].name
}

/// Some entry carries this name.
pub open spec fn has_module(s: Seq<EntryModel>, name: Seq<char>) -> bool {
    exists|i: int| 0 <= i < s.len() && s[i].name == name
}

/// The index of the first entry carrying this name, or `-1` if there is
/// none.
pub open spec fn spec_find(s: Seq<EntryModel>, name: Seq<char>) -> int
    decreases s.len(),
{
    if s.len() == 0 {
        -1
    } else if s[0].name == name {
        0
    } else {
        let r = spec_find(s.skip(1), name);
        if r < 0 {
            -1
        } else {
            r + 1
        }
    }
}

/// `spec_find` returns `-1` exactly when the name is absent, and
/// otherwise the first index carrying the name.
pub proof fn lemma_spec_find(s: Seq<EntryModel>, name: Seq<char>)
    ensures
        spec_find(s, name) < 0 <==> !has_module(s, name),
        has_module(s, name) ==> {
            let f = spec_find(s, name);
            &&& 0 <= f < s.len()
            &&& s[f].name == name
            &&& forall|j: int| 0 <= j < f ==> s[j].name != name
        },
    decreases s.len(),
{
    if s.len() > 0 && s[0].name != name {
        lemma_spec_find(s.skip(1), name);
        assert(forall|j: int|
            1 <= j < s.len() ==> s[j] == #[trigger] s.skip(1)[j - 1]);
        if has_module(s, name) {
            let w = choose|i: int| 0 <= i < s.len() && s[i].name == name;
            assert(w != 0);
            assert(s.skip(1)[w - 1].name == name);
            assert(has_module(s.skip(1), name));
            let r = spec_find(s.skip(1), name);
            assert(0 <= r < s.skip(1).len());
            assert(spec_find(s, name) == r + 1);
            assert(s[r + 1] == s.skip(1)[r]);
            assert(s[r + 1].name == name);
            assert forall|j: int| 0 <= j < r + 1 implies s[j].name != name by {
                if j > 0 {
                    assert(s[j] == s.skip(1)[j - 1]);
                }
            }
        }
    }
}

/// Whether the name is a member of the filter list.
pub open spec fn name_in_filter(f: Seq<Seq<char>>, name: Seq<char>) -> bool {
    exists|i: int| 0 <= i < f.len() && f[i] == name
}

/// Whether a module name passes the optional filter: an absent filter
/// selects every module.
pub open spec fn name_selected(f: Option<Seq<Seq<char>>>, name: Seq<char>) -> bool {
    match f {
        Option::None => true,
        Option::Some(fs) => name_in_filter(fs, name),
    }
}

/// The point-in-time view a search works on: the registered entries, in
/// registration order, restricted to the names the filter selects.
pub open spec fn snapshot_spec(s: Seq<EntryModel>, f: Option<Seq<Seq<char>>>) -> Seq<EntryModel>
    decreases s.len(),
{
    if s.len() == 0 {
        Seq::empty()
    } else {
        snapshot_spec(s.drop_last(), f) + (if name_selected(f, s.last().name) {
            seq![s.last()]
        } else {
            Seq::empty()
        })
    }
}

/// Extending the prefix under a snapshot by one entry appends that entry
/// exactly when the filter selects it.
pub proof fn lemma_snapshot_take_step(s: Seq<EntryModel>, f: Option<Seq<Seq<char>>>, i: int)
    requires
        0 <= i < s.len(),
    ensures
        snapshot_spec(s.take(i + 1), f) == snapshot_spec(s.take(i), f) + (if name_selected(
            f,
            s[i].name,
        ) {
            seq![s[i]]
        } else {
            Seq::<EntryModel>::empty()
        }),
{
    assert(s.take(i + 1).len() == i + 1);
    assert(s.take(i + 1).drop_last() =~= s.take(i));
    assert(s.take(i + 1).last() == s[i]);
}

/// A snapshot holds exactly the entries of the registry whose names the
/// filter selects.
pub proof fn lemma_snapshot_members(s: Seq<EntryModel>, f: Option<Seq<Seq<char>>>)
    ensures
        forall|e: EntryModel| #[trigger]
            snapshot_spec(s, f).contains(e) <==> s.contains(e) && name_selected(f, e.name),
    decreases s.len(),
{
    if s.len() > 0 {
        lemma_snapshot_members(s.drop_last(), f);
        let pre = snapshot_spec(s.drop_last(), f);
        let tail = if name_selected(f, s.last().name) {
            seq![s.last()]
        } else {
            Seq::<EntryModel>::empty()
        };
        assert(snapshot_spec(s, f) == pre + tail);
        assert forall|e: EntryModel|
            (s.contains(e) && name_selected(f, e.name)) implies #[trigger] snapshot_spec(
            s,
            f,
        ).contains(e) by {
            let i = choose|i: int| 0 <= i < s.len() && s[i] == e;
            if i < s.len() - 1 {
                assert(s.drop_last()[i] == e);
                assert(s.drop_last().contains(e));
                assert(pre.contains(e));
                let j = choose|j: int| 0 <= j < pre.len() && pre[j] == e;
                assert((pre + tail)[j] == e);
            } else {
                assert(e == s.last());
                assert((pre + tail)[pre.len() as int] == e);
            }
        }
        assert forall|e: EntryModel| #[trigger]
            snapshot_spec(s, f).contains(e) implies s.contains(e) && name_selected(
            f,
            e.name,
        ) by {
            let j = choose|j: int|
                0 <= j < snapshot_spec(s, f).len() && snapshot_spec(s, f)[j] == e;
            if j < pre.len() {
                assert(pre[j] == e);
                assert(pre.contains(e));
                let i = choose|i: int| 0 <= i < s.drop_last().len() && s.drop_last()[i] == e;
                assert(s[i] == e);
            } else {
                assert((pre + tail)[j] == e);
                assert(e == s.last());
                assert(s[s.len() - 1] == e);
            }
        }
    }
}

/// The registry of loaded modules.  Names are unique; entries keep their
/// registration order.
pub struct ModuleRegistry {
    entries: Vec<ModuleEntry>,
}

impl ModuleRegistry {
    /// The registered entries, in registration order.
    pub closed spec fn view(&self) -> Seq<EntryModel> {
        entry_models(self.entries@)
    }

    /// The registry invariant: module names are unique.
    pub open spec fn wf(&self) -> bool {
        names_unique(self@)
    }

    /// An empty registry.
    pub fn new() -> (r: ModuleRegistry)
        ensures
            r@ == Seq::<EntryModel>::empty(),
            r.wf(),
    {
        let r = ModuleRegistry { entries: Vec::new() };
        proof {
            assert(r@ =~= Seq::<EntryModel>::empty());
        }
        r
    }

    /// How many modules are registered.
    pub fn module_count(&self) -> (n: usize)
        ensures
            n == self@.len(),
    {
        self.entries.len()
    }

    /// The index of the entry carrying this name, if any.
    fn find_index(&self, name: &str) -> (r: Option<usize>)
        ensures
            match r {
                Option::Some(i) => {
                    &&& 0 <= i < self@.len()
                    &&& self@[i as int].name == name@
                    &&& i as int == spec_find(self@, name@)
                },
                Option::None => !has_module(self@, name@),
            },
    {
        let mut i: usize = 0;
        while i < self.entries.len()
            invariant
                0 <= i <= self@.len(),
                self@.len() == self.entries@.len(),
                forall|j: int| 0 <= j < i ==> self@[j].name != name@,
            decreases self@.len() - i,
        {
            assert(self@[i as int] == self.entries@[i as int]@);
            if str_eq(self.entries[i].name.as_str(), name) {
                proof {
                    lemma_spec_find(self@, name@);
                    assert(has_module(self@, name@));
                    let f = spec_find(self@, name@);
                    assert(!(f < i as int));
                    assert(!(f > i as int)) by {
                        if f > i as int {
                            assert(self@[i as int].name != name@);
                        }
                    }
                }
                return Some(i);
            }
            i = i + 1;
        }
        proof {
            if has_module(self@, name@) {
                let w = choose|k: int| 0 <= k < self@.len() && self@[k].name == name@;
                assert(self@[w].name != name@);
            }
        }
        None
    }

    /// Whether a module of this name is registered.
    pub fn contains_module(&self, name: &str) -> (r: bool)
        ensures
            r == has_module(self@, name@),
    {
        match self.find_index(name) {
            Some(_) => true,
            None => false,
        }
    }

    /// Registers a module under a fresh name.  Rejects a name that is
    /// already registered: an explicit `unload` is required first.
    pub fn load(&mut self, name: String, handle: u64, doc_count: u64) -> (r: Result<
        (),
        SearchError,
    >)
        requires
            old(self).wf(),
        ensures
            final(self).wf(),
            match r {
                Result::Ok(()) => {
                    &&& !has_module(old(self)@, name@)
                    &&& final(self)@ == old(self)@.push(
                        EntryModel { name: name@, handle, doc_count },
                    )
                },
                Result::Err(e) => {
                    &&& e == SearchError::ModuleAlreadyLoaded
                    &&& has_module(old(self)@, name@)
                    &&& final(self)@ == old(self)@
                },
            },
    {
        match self.find_index(name.as_str()) {
            Some(_) => Err(SearchError::ModuleAlreadyLoaded),
            None => {
                let ghost before = self@;
                let entry = ModuleEntry { name, handle, doc_count };
                let ghost em = entry@;
                self.entries.push(entry);
                proof {
                    assert(self@ =~= before.push(em));
                    assert forall|i: int, j: int|
                        0 <= i < j < self@.len() implies self@[i].name != self@[j].name by {
                        if j < self@.len() - 1 {
                            assert(before[i].name != before[j].name);
                        } else {
                            assert(self@[j].name == em.name);
                            if self@[i].name == em.name {
                                assert(before[i].name == em.name);
                            }
                        }
                    }
                }
                Ok(())
            },
        }
    }

    /// Removes the module of this name and returns its engine handle so
    /// the caller can release the underlying resource.  Entries of other
    /// names, and any snapshot taken earlier, are untouched.
    pub fn unload(&mut self, name: &str) -> (r: Result<u64, SearchError>)
        requires
            old(self).wf(),
        ensures
            final(self).wf(),
            match r {
                Result::Ok(h) => {
                    &&& has_module(old(self)@, name@)
                    &&& h == old(self)@[spec_find(old(self)@, name@)].handle
                    &&& final(self)@ == old(self)@.remove(spec_find(old(self)@, name@))
                },
                Result::Err(e) => {
                    &&& e == SearchError::ModuleNotFound
                    &&& !has_module(old(self)@, name@)
                    &&& final(self)@ == old(self)@
                },
            },
    {
        match self.find_index(name) {
            Some(i) => {
                let ghost before = self@;
                let entry = self.entries.remove(i);
                proof {
                    assert(self@ =~= before.remove(i as int));
                    assert forall|p: int, q: int|
                        0 <= p < q < self@.len() implies self@[p].name != self@[q].name by {
                        let pp = if p < i as int { p } else { p + 1 };
                        let qq = if q < i as int { q } else { q + 1 };
                        assert(self@[p] == before[pp]);
                        assert(self@[q] == before[qq]);
                    }
                }
                Ok(entry.handle)
            },
            None => Err(SearchError::ModuleNotFound),
        }
    }

    /// The engine handle registered under this name, for a reload of the
    /// module's view of its on-disk data; the registry itself is not
    /// changed by a reload.
    pub fn handle_of(&self, name: &str) -> (r: Result<u64, SearchError>)
        ensures
            match r {
                Result::Ok(h) => {
                    &&& has_module(self@, name@)
                    &&& h == self@[spec_find(self@, name@)].handle
                },
                Result::Err(e) => {
                    &&& e == SearchError::ModuleNotFound
                    &&& !has_module(self@, name@)
                },
            },
    {
        match self.find_index(name) {
            Some(i) => Ok(self.entries[i].handle),
            None => Err(SearchError::ModuleNotFound),
        }
    }

    /// Records the document count the engine reported for this module,
    /// for example after a reload.  Only that entry changes.
    pub fn set_doc_count(&mut self, name: &str, doc_count: u64) -> (r: Result<(), SearchError>)
        requires
            old(self).wf(),
        ensures
            final(self).wf(),
            match r {
                Result::Ok(()) => {
                    &&& has_module(old(self)@, name@)
                    &&& {
                        let f = spec_find(old(self)@, name@);
                        final(self)@ == old(self)@.update(
                            f,
                            EntryModel {
                                name: old(self)@[f].name,
                                handle: old(self)@[f].handle,
                                doc_count,
                            },
                        )
                    }
                },
                Result::Err(e) => {
                    &&& e == SearchError::ModuleNotFound
                    &&& !has_module(old(self)@, name@)
                    &&& final(self)@ == old(self)@
                },
            },
    {
        match self.find_index(name) {
            Some(i) => {
                let ghost before = self@;
                let old_entry = self.entries.remove(i);
                let new_entry = ModuleEntry {
                    name: old_entry.name,
                    handle: old_entry.handle,
                    doc_count,
                };
                let ghost nm = new_entry@;
                self.entries.insert(i, new_entry);
                proof {
                    assert(self@ =~= before.update(i as int, nm));
                    assert forall|p: int, q: int|
                        0 <= p < q < self@.len() implies self@[p].name != self@[q].name by {
                        assert(before[p].name != before[q].name);
                        assert(self@[p].name == before[p].name);
                        assert(self@[q].name == before[q].name);
                    }
                }
                Ok(())
            },
            None => Err(SearchError::ModuleNotFound),
        }
    }

    /// An owned, point-in-time copy of the registered modules whose
    /// names the filter selects, in registration order.  Later `load`,
    /// `unload` or `set_doc_count` calls do not affect the returned
    /// snapshot.
    pub fn snapshot(&self, filter: Option<&Vec<String>>) -> (snap: Vec<ModuleEntry>)
        ensures
            entry_models(snap@) == snapshot_spec(self@, filter_model(filter)),
    {
        let ghost f = filter_model(filter);
        let mut snap: Vec<ModuleEntry> = Vec::new();
        let mut i: usize = 0;
        proof {
            assert(entry_models(snap@) =~= snapshot_spec(self@.take(0), f));
        }
        while i < self.entries.len()
            invariant
                0 <= i <= self@.len(),
                self@.len() == self.entries@.len(),
                filter_model(filter) == f,
                entry_models(snap@) == snapshot_spec(self@.take(i as int), f),
            decreases self@.len() - i,
        {
            assert(self@[i as int] == self.entries@[i as int]@);
            let selected = match filter {
                None => true,
                Some(fv) => contains_name(fv, self.entries[i].name.as_str()),
            };
            let ghost snap_before = entry_models(snap@);
            if selected {
                let e = &self.entries[i];
                let copy = ModuleEntry {
                    name: e.name.clone(),
                    handle: e.handle,
                    doc_count: e.doc_count,
                };
                assert(copy@ == self@[i as int]);
                snap.push(copy);
                proof {
                    assert(entry_models(snap@) =~= snap_before.push(self@[i as int]));
                }
            }
            proof {
                lemma_snapshot_take_step(self@, f, i as int);
                if selected {
                    assert(snapshot_spec(self@.take(i as int), f) + seq![self@[i as int]]
                        =~= snapshot_spec(self@.take(i as int), f).push(self@[i as int]));
                } else {
                    assert(snapshot_spec(self@.take(i as int), f)
                        + Seq::<EntryModel>::empty() =~= snapshot_spec(
                        self@.take(i as int),
                        f,
                    ));
                }
            }
            i = i + 1;
        }
        proof {
            assert(self@.take(self@.len() as int) =~= self@);
        }
        snap
    }

    /// The per-module document counts and size estimates, in
    /// registration order.
    pub fn stats(&self) -> (stats: Vec<crate::stats::ModuleStat>)
        ensures
            stats@.len() == self@.len(),
            forall|i: int|
                0 <= i < stats@.len() ==> #[trigger] stats@[i]@ == (crate::stats::StatModel {
                    name: self@[i].name,
                    doc_count: self@[i].doc_count,
                    estimated_size_bytes: crate::stats::spec_estimated_size(self@[i].doc_count),
                }),
    {
        crate::stats::stats_of(&self.entries)
    }

    /// The aggregate document count over every registered module,
    /// saturating at `u64::MAX` so that it can never overflow.
    pub fn total_docs(&self) -> (total: u64)
        ensures
            total == crate::stats::spec_total_docs(self@),
    {
        crate::stats::total_docs(&self.entries)
    }
}

/// The model of an optional filter list of module names.
pub open spec fn filter_model(filter: Option<&Vec<String>>) -> Option<Seq<Seq<char>>> {
    match filter {
        Option::None => Option::None,
        Option::Some(v) => Option::Some(v@.map(|i: int, s: String| s@)),
    }
}

/// The model of an owned optional filter list of module names.
pub open spec fn owned_filter_model(filter: Option<Vec<String>>) -> Option<Seq<Seq<char>>> {
    match filter {
        Option::None => Option::None,
        Option::Some(v) => Option::Some(v@.map(|i: int, s: String| s@)),
    }
}

/// Whether the list holds this name.
pub fn contains_name(v: &Vec<String>, name: &str) -> (r: bool)
    ensures
        r == name_in_filter(v@.map(|i: int, s: String| s@), name@),
{
    let ghost fs = v@.map(|i: int, s: String| s@);
    let mut i: usize = 0;
    while i < v.len()
        invariant
            0 <= i <= v@.len(),
            fs == v@.map(|j: int, s: String| s@),
            fs.len() == v@.len(),
            forall|j: int| 0 <= j < i ==> fs[j] != name@,
        decreases v@.len() - i,
    {
        assert(fs[i as int] == v@[i as int]@);
        if str_eq(v[i].as_str(), name) {
            assert(fs[i as int] == name@);
            return true;
        }
        i = i + 1;
    }
    proof {
        if name_in_filter(fs, name@) {
            let w = choose|k: int| 0 <= k < fs.len() && fs[k] == name@;
            assert(fs[w] != name@);
        }
    }
    false
}

/// Unloading a module prunes it from every later snapshot and leaves
/// every other module's snapshot membership unchanged.
pub proof fn lemma_unload_prunes_snapshot(
    s: Seq<EntryModel>,
    name: Seq<char>,
    f: Option<Seq<Seq<char>>>,
)
    requires
        names_unique(s),
        has_module(s, name),
    ensures
        ({
            let after = s.remove(spec_find(s, name));
            &&& forall|j: int| #![auto]
                0 <= j < snapshot_spec(after, f).len() ==> snapshot_spec(after, f)[j].name != name
            &&& forall|e: EntryModel|
                e.name != name ==> (#[trigger] snapshot_spec(after, f).contains(e)
                    <==> snapshot_spec(s, f).contains(e))
        }),
{
    lemma_spec_find(s, name);
    let idx = spec_find(s, name);
    let after = s.remove(idx);
    lemma_snapshot_members(s, f);
    lemma_snapshot_members(after, f);
    assert forall|j: int| 0 <= j < snapshot_spec(after, f).len() implies snapshot_spec(
        after,
        f,
    )[j].name != name by {
        let e = snapshot_spec(after, f)[j];
        assert(snapshot_spec(after, f).contains(e));
        assert(after.contains(e));
        let k = choose|k: int| 0 <= k < after.len() && after[k] == e;
        let kk = if k < idx { k } else { k + 1 };
        assert(after[k] == s[kk]);
        if e.name == name {
            assert(s[kk].name == s[idx].name);
        }
    }
    assert forall|e: EntryModel| e.name != name implies (#[trigger] snapshot_spec(
        after,
        f,
    ).contains(e) <==> snapshot_spec(s, f).contains(e)) by {
        if snapshot_spec(after, f).contains(e) {
            let k = choose|k: int| 0 <= k < after.len() && after[k] == e;
            let kk = if k < idx { k } else { k + 1 };
            assert(after[k] == s[kk]);
            assert(s.contains(e));
        }
        if snapshot_spec(s, f).contains(e) {
            let k = choose|k: int| 0 <= k < s.len() && s[k] == e;
            if k != idx {
                let kk = if k < idx { k } else { k - 1 };
                assert(after[kk] == s[k]);
                assert(after.contains(e));
            }
        }
    }
}

} // verus!
