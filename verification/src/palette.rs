//! Named command palettes.
//!
//! A palette is a named record of device commands. The relay carries the
//! commands between the caller, an in-memory registry and the on-disk store
//! without ever looking inside them, so here they travel as their JSON text.
//! The registry is the in-memory cache: one record per name. The decision
//! rules of the update flow — update the cache first, save, and fall back to
//! what the disk still holds when the save fails — live here; the disk work
//! itself is the surrounding process's.

use vstd::prelude::*;

verus! {

/// A named palette of device commands, the commands as their JSON text.
pub struct Palette {
    pub name: String,
    pub commands: String,
}

/// Body of a create or update request.
pub struct PalettePayload {
    pub name: String,
    pub commands: String,
}

/// The record in `s` whose name reads `name`, front first.
pub open spec fn spec_lookup(s: Seq<Palette>, name: Seq<char>) -> Option<Palette>
    decreases s.len(),
{
    if s.len() == 0 {
        None::<Palette>
    } else if s.first().name@ == name {
        Some(s.first())
    } else {
        spec_lookup(s.drop_first(), name)
    }
}

/// No two records answer to the same name.
pub open spec fn unique_names(s: Seq<Palette>) -> bool {
    forall|i: int, j: int|
        0 <= i < j < s.len() ==> (#[trigger] s[i].name@) != (#[trigger] s[j].name@)
}

proof fn lemma_lookup_none(s: Seq<Palette>, name: Seq<char>)
    ensures
        (spec_lookup(s, name) is None) <==> (forall|i: int|
            0 <= i < s.len() ==> (#[trigger] s[i].name@) != name),
    decreases s.len(),
{
    if s.len() > 0 {
        lemma_lookup_none(s.drop_first(), name);
        assert(s[0] == s.first());
        if spec_lookup(s, name) is None {
            assert forall|i: int| 0 <= i < s.len() implies (#[trigger] s[i].name@) != name by {
                if i > 0 {
                    assert(s.drop_first()[i - 1] == s[i]);
                }
            }
        } else if s.first().name@ != name {
            assert(exists|i: int|
                0 <= i < s.drop_first().len() && (#[trigger] s.drop_first()[i].name@) == name);
            let j = choose|i: int|
                0 <= i < s.drop_first().len() && (#[trigger] s.drop_first()[i].name@) == name;
            assert(s[j + 1] == s.drop_first()[j]);
            assert(s[j + 1].name@ == name);
        }
    }
}

proof fn lemma_lookup_first(s: Seq<Palette>, name: Seq<char>, i: int)
    requires
        0 <= i < s.len(),
        s[i].name@ == name,
        forall|k: int| 0 <= k < i ==> (#[trigger] s[k].name@) != name,
    ensures
        spec_lookup(s, name) == Some(s[i]),
    decreases s.len(),
{
    if i == 0 {
        assert(s.first() == s[0]);
    } else {
        assert(s.first() == s[0]);
        assert(forall|k: int|
            0 <= k < s.drop_first().len() ==> #[trigger] s.drop_first()[k] == s[k + 1]);
        lemma_lookup_first(s.drop_first(), name, i - 1);
    }
}

/// Clone a palette record field by field.
pub fn clone_palette(p: &Palette) -> (r: Palette)
    ensures
        r == *p,
{
    Palette { name: p.name.clone(), commands: p.commands.clone() }
}

/// The in-memory registry of stored palettes: at most one record per name.
pub struct PaletteRegistry {
    pub items: Vec<Palette>,
}

impl PaletteRegistry {
    /// Names are unique, so a name settles its record.
    pub open spec fn wf(self) -> bool {
        unique_names(self.items@)
    }

    /// What the registry holds under `name`.
    pub open spec fn record(self, name: Seq<char>) -> Option<Palette> {
        spec_lookup(self.items@, name)
    }

    /// An empty registry.
    pub fn new() -> (r: PaletteRegistry)
        ensures
            r.wf(),
            r.items@.len() == 0,
    {
        PaletteRegistry { items: Vec::new() }
    }

    /// The index of the record named `name`, if one is cached.
    fn find_index(&self, name: &String) -> (r: Option<usize>)
        ensures
            (r matches Some(i) ==> {
                &&& i < self.items@.len()
                &&& self.items@[i as int].name@ == name@
                &&& forall|k: int| 0 <= k < i ==> (#[trigger] self.items@[k].name@) != name@
            }),
            (r is None ==> forall|k: int|
                0 <= k < self.items@.len() ==> (#[trigger] self.items@[k].name@) != name@),
    {
        let mut i: usize = 0;
        while i < self.items.len()
            invariant
                i <= self.items@.len(),
                forall|k: int| 0 <= k < i ==> (#[trigger] self.items@[k].name@) != name@,
            decreases self.items@.len() - i,
        {
            if self.items[i].name == *name {
                return Some(i);
            }
            i = i + 1;
        }
        None
    }

    /// Look a palette up by name.
    pub fn get(&self, name: &String) -> (r: Option<Palette>)
        ensures
            r == self.record(name@),
    {
        match self.find_index(name) {
            Some(i) => {
                proof {
                    lemma_lookup_first(self.items@, name@, i as int);
                }
                Some(clone_palette(&self.items[i]))
            },
            None => {
                proof {
                    lemma_lookup_none(self.items@, name@);
                }
                None
            },
        }
    }

    /// Put `p` in the registry: the record under its name afterwards is `p`,
    /// whether or not one was there before, and no other record moves.
    pub fn upsert(&mut self, p: Palette)
        requires
            old(self).wf(),
        ensures
            final(self).wf(),
            final(self).record(p.name@) == Some(p),
            forall|n: Seq<char>|
                n != p.name@ ==> final(self).record(n) == old(self).record(n),
    {
        let ghost s0 = self.items@;
        match self.find_index(&p.name) {
            Some(i) => {
                let ghost pp = p;
                self.items.set(i, p);
                proof {
                    let s1 = self.items@;
                    assert(s1 == s0.update(i as int, pp));
                    assert(forall|k: int|
                        0 <= k < s1.len() ==> (#[trigger] s1[k].name@) == s0[k].name@);
                    assert(unique_names(s1));
                    assert(forall|k: int| 0 <= k < i ==> (#[trigger] s1[k].name@) != pp.name@);
                    lemma_lookup_first(s1, pp.name@, i as int);
                    assert forall|n: Seq<char>| n != pp.name@ implies spec_lookup(s1, n)
                        == spec_lookup(s0, n) by {
                        lemma_lookup_update_other(s0, i as int, pp, n);
                    }
                }
            },
            None => {
                let ghost pp = p;
                self.items.push(p);
                proof {
                    let s1 = self.items@;
                    assert(s1 == s0.push(pp));
                    assert(forall|k: int| 0 <= k < s0.len() ==> #[trigger] s1[k] == s0[k]);
                    assert(s1[s0.len() as int] == pp);
                    assert(unique_names(s1));
                    assert(forall|k: int|
                        0 <= k < s0.len() ==> (#[trigger] s1[k].name@) != pp.name@);
                    lemma_lookup_first(s1, pp.name@, s0.len() as int);
                    assert forall|n: Seq<char>| n != pp.name@ implies spec_lookup(s1, n)
                        == spec_lookup(s0, n) by {
                        lemma_lookup_push_other(s0, pp, n);
                    }
                }
            },
        }
    }

    /// Take the record named `name` out of the registry, reporting whether
    /// one was there. No other record moves.
    pub fn remove(&mut self, name: &String) -> (removed: bool)
        requires
            old(self).wf(),
        ensures
            final(self).wf(),
            final(self).record(name@) is None,
            removed == (old(self).record(name@) is Some),
            forall|n: Seq<char>|
                n != name@ ==> final(self).record(n) == old(self).record(n),
    {
        let ghost s0 = self.items@;
        match self.find_index(name) {
            Some(i) => {
                proof {
                    lemma_lookup_first(s0, name@, i as int);
                }
                self.items.remove(i);
                proof {
                    let s1 = self.items@;
                    assert(s1 == s0.remove(i as int));
                    assert(forall|k: int|
                        0 <= k < s1.len() ==> #[trigger] s1[k] == (if k < i as int {
                            s0[k]
                        } else {
                            s0[k + 1]
                        }));
                    assert(unique_names(s1));
                    lemma_lookup_none(s1, name@);
                    assert(spec_lookup(s1, name@) is None);
                    assert forall|n: Seq<char>| n != name@ implies spec_lookup(s1, n)
                        == spec_lookup(s0, n) by {
                        lemma_lookup_remove_other(s0, i as int, n);
                    }
                }
                true
            },
            None => {
                proof {
                    lemma_lookup_none(s0, name@);
                }
                false
            },
        }
    }
}

proof fn lemma_lookup_names(s: Seq<Palette>, name: Seq<char>)
    ensures
        spec_lookup(s, name) matches Some(p) ==> p.name@ == name,
    decreases s.len(),
{
    if s.len() > 0 && s.first().name@ != name {
        lemma_lookup_names(s.drop_first(), name);
    }
}

/// What an update request decides before any disk work is attempted.
pub enum UpdatePlan {
    /// The name in the request path and the one in the body disagree:
    /// nothing changes, renaming is not what updating is for.
    Reject,
    /// The palette was cached: memory already holds this updated record,
    /// which now has to be saved to disk.
    SaveUpdated(Palette),
    /// Nothing cached under that name: the record must come off the disk
    /// before the update can be applied.
    LoadFromDisk,
}

/// Turn a create request's body into the record it describes.
pub fn palette_of_payload(payload: &PalettePayload) -> (p: Palette)
    ensures
        p.name == payload.name,
        p.commands == payload.commands,
{
    Palette { name: payload.name.clone(), commands: payload.commands.clone() }
}

/// A record read from disk takes the update request's commands; its name
/// stays its own.
pub fn merge_commands(loaded: Palette, payload: &PalettePayload) -> (updated: Palette)
    ensures
        updated.name == loaded.name,
        updated.commands == payload.commands,
{
    Palette { name: loaded.name, commands: payload.commands.clone() }
}

impl PaletteRegistry {
    /// First step of an update: reject a renaming attempt outright; apply
    /// the new commands to the cached record, which then awaits its save;
    /// or, with nothing cached, ask for the record from disk. Only the
    /// record under the request's own name ever changes.
    pub fn plan_update(&mut self, path_name: &String, payload: &PalettePayload) -> (plan:
        UpdatePlan)
        requires
            old(self).wf(),
        ensures
            final(self).wf(),
            path_name@ != payload.name@ ==> (plan == UpdatePlan::Reject && *final(self) == *old(
                self,
            )),
            path_name@ == payload.name@ && old(self).record(path_name@) is Some ==> {
                &&& plan matches UpdatePlan::SaveUpdated(u) && u.name@ == path_name@
                    && u.commands == payload.commands && final(self).record(path_name@) == Some(
                    u,
                )
                &&& forall|n: Seq<char>|
                    n != path_name@ ==> final(self).record(n) == old(self).record(n)
            },
            path_name@ == payload.name@ && old(self).record(path_name@) is None ==> (plan
                == UpdatePlan::LoadFromDisk && *final(self) == *old(self)),
    {
        if !(*path_name == payload.name) {
            return UpdatePlan::Reject;
        }
        match self.get(path_name) {
            Some(cached) => {
                proof {
                    lemma_lookup_names(self.items@, path_name@);
                }
                let updated = Palette { name: cached.name, commands: payload.commands.clone() };
                let kept = clone_palette(&updated);
                self.upsert(updated);
                UpdatePlan::SaveUpdated(kept)
            },
            None => UpdatePlan::LoadFromDisk,
        }
    }

    /// After the save of an updated, cached record failed: the cache goes
    /// back to what the disk still holds — the re-read record when there is
    /// one, no record at all when even the re-read failed.
    pub fn revert_after_failed_save(&mut self, name: &String, reloaded: Option<Palette>)
        requires
            old(self).wf(),
            reloaded matches Some(p) ==> p.name@ == name@,
        ensures
            final(self).wf(),
            reloaded matches Some(p) ==> final(self).record(name@) == Some(p),
            reloaded is None ==> final(self).record(name@) is None,
            forall|n: Seq<char>| n != name@ ==> final(self).record(n) == old(self).record(n),
    {
        match reloaded {
            Some(p) => {
                self.upsert(p);
            },
            None => {
                self.remove(name);
            },
        }
    }
}

proof fn lemma_lookup_update_other(s: Seq<Palette>, i: int, p: Palette, n: Seq<char>)
    requires
        0 <= i < s.len(),
        n != p.name@,
        n != s[i].name@,
    ensures
        spec_lookup(s.update(i, p), n) == spec_lookup(s, n),
    decreases s.len(),
{
    let s1 = s.update(i, p);
    if i == 0 {
        assert(s1.first() == p);
        assert(s1.drop_first() =~= s.drop_first());
    } else {
        assert(s1.first() == s.first());
        if s.first().name@ != n {
            assert(s1.drop_first() =~= s.drop_first().update(i - 1, p));
            lemma_lookup_update_other(s.drop_first(), i - 1, p, n);
        }
    }
}

proof fn lemma_lookup_push_other(s: Seq<Palette>, p: Palette, n: Seq<char>)
    requires
        n != p.name@,
    ensures
        spec_lookup(s.push(p), n) == spec_lookup(s, n),
    decreases s.len(),
{
    if s.len() == 0 {
        assert(s.push(p).first() == p);
        assert(s.push(p).drop_first() =~= Seq::<Palette>::empty());
        assert(spec_lookup(s.push(p), n) is None) by {
            reveal_with_fuel(spec_lookup, 2);
        }
    } else {
        assert(s.push(p).first() == s.first());
        if s.first().name@ != n {
            assert(s.push(p).drop_first() =~= s.drop_first().push(p));
            lemma_lookup_push_other(s.drop_first(), p, n);
        }
    }
}

proof fn lemma_lookup_remove_other(s: Seq<Palette>, i: int, n: Seq<char>)
    requires
        0 <= i < s.len(),
        n != s[i].name@,
    ensures
        spec_lookup(s.remove(i), n) == spec_lookup(s, n),
    decreases s.len(),
{
    let s1 = s.remove(i);
    if i == 0 {
        assert(s1 =~= s.drop_first());
    } else {
        assert(s1.first() == s.first());
        if s.first().name@ != n {
            assert(s1.drop_first() =~= s.drop_first().remove(i - 1));
            lemma_lookup_remove_other(s.drop_first(), i - 1, n);
        }
    }
}

/// The file-name ending that marks a stored palette record.
pub open spec fn record_ending() -> Seq<u8> {
    seq![46u8, 106u8, 115u8, 111u8, 110u8]
}

/// Whether `n` names a palette record: a nonempty stem under the record
/// ending.
pub open spec fn is_record_name(n: Seq<u8>) -> bool {
    n.len() > 5 && n.skip(n.len() - 5) == record_ending()
}

/// The stems of the record files among `names`, in order.
pub open spec fn record_stems(names: Seq<Seq<u8>>) -> Seq<Seq<u8>>
    decreases names.len(),
{
    if names.len() == 0 {
        Seq::empty()
    } else {
        let front = record_stems(names.drop_last());
        if is_record_name(names.last()) {
            front.push(names.last().take(names.last().len() - 5))
        } else {
            front
        }
    }
}

fn is_record_file(name: &Vec<u8>) -> (b: bool)
    ensures
        b == is_record_name(name@),
{
    if name.len() < 6 {
        return false;
    }
    let k = name.len() - 5;
    let b = name[k] == 46 && name[k + 1] == 106 && name[k + 2] == 115 && name[k + 3] == 111
        && name[k + 4] == 110;
    proof {
        assert(name@.skip(k as int)[0] == name@[k as int]);
        assert(name@.skip(k as int)[1] == name@[k as int + 1]);
        assert(name@.skip(k as int)[2] == name@[k as int + 2]);
        assert(name@.skip(k as int)[3] == name@[k as int + 3]);
        assert(name@.skip(k as int)[4] == name@[k as int + 4]);
        if b {
            assert(name@.skip(k as int) =~= record_ending());
        }
    }
    b
}

/// The palette names a directory listing shows: the stem of every file
/// named with the record ending, in listing order.
pub fn palette_names(files: &Vec<Vec<u8>>) -> (stems: Vec<Vec<u8>>)
    ensures
        stems@.map_values(|v: Vec<u8>| v@) == record_stems(files@.map_values(|v: Vec<u8>| v@)),
{
    let ghost fv = files@.map_values(|v: Vec<u8>| v@);
    let mut stems: Vec<Vec<u8>> = Vec::new();
    let mut k: usize = 0;
    while k < files.len()
        invariant
            k <= files@.len(),
            fv == files@.map_values(|v: Vec<u8>| v@),
            stems@.map_values(|v: Vec<u8>| v@) == record_stems(fv.take(k as int)),
        decreases files@.len() - k,
    {
        let name = &files[k];
        proof {
            assert(fv[k as int] == name@);
        }
        if is_record_file(name) {
            let n = name.len();
            let stem = vstd::slice::slice_to_vec(
                vstd::slice::slice_subrange(name.as_slice(), 0, n - 5),
            );
            proof {
                assert(stem@ =~= name@.take(name@.len() - 5));
            }
            stems.push(stem);
        }
        k = k + 1;
        proof {
            assert(fv.take(k as int).drop_last() =~= fv.take(k as int - 1));
            assert(fv.take(k as int).last() == fv[k as int - 1]);
            assert(stems@.map_values(|v: Vec<u8>| v@) =~= record_stems(fv.take(k as int)));
        }
    }
    proof {
        assert(fv.take(files@.len() as int) =~= fv);
    }
    stems
}

} // verus!
