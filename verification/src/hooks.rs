//! The table of function hooks that mods create, keyed by the hooked address.
use vstd::prelude::*;

verus! {

/// The hooks, each a hooked target address and the handle of its detour.
pub struct HookTable {
    entries: Vec<(usize, usize)>,
}

/// No target occurs twice among `entries`.
pub open spec fn targets_distinct(entries: Seq<(usize, usize)>) -> bool {
    forall|i: int, j: int|
        0 <= i < entries.len() && 0 <= j < entries.len() && i != j ==> #[trigger] entries[i].0
            != #[trigger] entries[j].0
}

/// The map from target to detour handle that `entries` describe.
pub open spec fn hook_map(entries: Seq<(usize, usize)>) -> Map<usize, usize> {
    Map::new(
        |t: usize| exists|i: int| 0 <= i < entries.len() && entries[i].0 == t,
        |t: usize| entries[choose|i: int| 0 <= i < entries.len() && entries[i].0 == t].1,
    )
}

proof fn lemma_hook_map_at(entries: Seq<(usize, usize)>, i: int)
    requires
        targets_distinct(entries),
        0 <= i < entries.len(),
    ensures
        hook_map(entries).contains_key(entries[i].0),
        hook_map(entries)[entries[i].0] == entries[i].1,
{
    let t = entries[i].0;
    assert(exists|k: int| 0 <= k < entries.len() && entries[k].0 == t);
    let k = choose|k: int| 0 <= k < entries.len() && entries[k].0 == t;
    if k != i {
        assert(entries[k].0 != entries[i].0);
    }
}

/// What a lookup gives back after a hook is created: the detour just created for
/// `target`; for other targets, what was there before; after a removal, nothing.
pub proof fn law_hook_read_after_write(
    hooks: Map<usize, usize>,
    target: usize,
    handle: usize,
    other: usize,
)
    ensures
        hooks.insert(target, handle)[target] == handle,
        !hooks.remove(target).contains_key(target),
        other != target ==> hooks.insert(target, handle).contains_key(other) == hooks.contains_key(
            other,
        ),
        other != target && hooks.contains_key(other) ==> hooks.insert(target, handle)[other]
            == hooks[other],
{
}

impl HookTable {
    /// The hooks: target address to detour handle.
    pub closed spec fn view(&self) -> Map<usize, usize> {
        hook_map(self.entries@)
    }

    pub closed spec fn wf(&self) -> bool {
        targets_distinct(self.entries@)
    }

    /// No hooks.
    pub fn new() -> (r: HookTable)
        ensures
            r.wf(),
            r.view() == Map::<usize, usize>::empty(),
    {
        let r = HookTable { entries: Vec::new() };
        assert(r.view() =~= Map::<usize, usize>::empty());
        r
    }

    /// The position of the hook on `target`, if there is one.
    fn position(&self, target: usize) -> (r: Option<usize>)
        ensures
            match r {
                Some(i) => i < self.entries@.len() && self.entries@[i as int].0 == target,
                None => !hook_map(self.entries@).contains_key(target),
            },
    {
        let mut i: usize = 0;
        while i < self.entries.len()
            invariant
                i <= self.entries@.len(),
                forall|j: int| 0 <= j < i ==> #[trigger] self.entries@[j].0 != target,
            decreases self.entries.len() - i,
        {
            if self.entries[i].0 == target {
                return Some(i);
            }
            i = i + 1;
        }
        None
    }

    /// `api_hook_create`'s bookkeeping: the hook on `target` is now the detour
    /// `handle`; answers the handle it replaces, if any.
    pub fn insert(&mut self, target: usize, handle: usize) -> (r: Option<usize>)
        requires
            old(self).wf(),
        ensures
            final(self).wf(),
            final(self).view() == old(self).view().insert(target, handle),
            r == if old(self).view().contains_key(target) {
                Some(old(self).view()[target])
            } else {
                None
            },
    {
        let ghost before = self.entries@;
        match self.position(target) {
            Some(i) => {
                let previous = self.entries[i].1;
                proof {
                    lemma_hook_map_at(before, i as int);
                }
                self.entries.set(i, (target, handle));
                proof {
                    let after = self.entries@;
                    assert(after =~= before.update(i as int, (target, handle)));
                    assert(targets_distinct(after)) by {
                        assert forall|a: int, b: int|
                            0 <= a < after.len() && 0 <= b < after.len() && a != b implies #[trigger] after[a].0
                            != #[trigger] after[b].0 by {
                            assert(before[a].0 == after[a].0);
                            assert(before[b].0 == after[b].0);
                        }
                    }
                    assert forall|t: usize| #[trigger]
                        hook_map(after).contains_key(t) == hook_map(before).insert(
                            target,
                            handle,
                        ).contains_key(t) by {
                        if hook_map(before).contains_key(t) {
                            let k = choose|k: int| 0 <= k < before.len() && before[k].0 == t;
                            assert(after[k].0 == t);
                        }
                        if hook_map(after).contains_key(t) {
                            let k = choose|k: int| 0 <= k < after.len() && after[k].0 == t;
                            assert(before[k].0 == t);
                        }
                    }
                    assert forall|t: usize| #[trigger] hook_map(after).contains_key(t) implies hook_map(
                        after,
                    )[t] == hook_map(before).insert(target, handle)[t] by {
                        let k = choose|k: int| 0 <= k < after.len() && after[k].0 == t;
                        lemma_hook_map_at(after, k);
                        if k != i {
                            assert(before[k] == after[k]);
                            lemma_hook_map_at(before, k);
                        }
                    }
                    assert(hook_map(after) =~= hook_map(before).insert(target, handle));
                }
                Some(previous)
            },
            None => {
                self.entries.push((target, handle));
                proof {
                    let after = self.entries@;
                    assert(after =~= before.push((target, handle)));
                    assert(targets_distinct(after)) by {
                        assert forall|a: int, b: int|
                            0 <= a < after.len() && 0 <= b < after.len() && a != b implies #[trigger] after[a].0
                            != #[trigger] after[b].0 by {
                            if a == before.len() as int {
                                assert(!hook_map(before).contains_key(target));
                                assert(before[b].0 != target);
                            } else if b == before.len() as int {
                                assert(before[a].0 != target);
                            }
                        }
                    }
                    assert forall|t: usize| #[trigger]
                        hook_map(after).contains_key(t) == hook_map(before).insert(
                            target,
                            handle,
                        ).contains_key(t) by {
                        if hook_map(before).contains_key(t) {
                            let k = choose|k: int| 0 <= k < before.len() && before[k].0 == t;
                            assert(after[k].0 == t);
                        }
                        if t == target {
                            assert(after[before.len() as int].0 == t);
                        }
                        if hook_map(after).contains_key(t) && t != target {
                            let k = choose|k: int| 0 <= k < after.len() && after[k].0 == t;
                            assert(before[k].0 == t);
                        }
                    }
                    assert forall|t: usize| #[trigger] hook_map(after).contains_key(t) implies hook_map(
                        after,
                    )[t] == hook_map(before).insert(target, handle)[t] by {
                        let k = choose|k: int| 0 <= k < after.len() && after[k].0 == t;
                        lemma_hook_map_at(after, k);
                        if k < before.len() {
                            assert(before[k] == after[k]);
                            lemma_hook_map_at(before, k);
                        }
                    }
                    assert(hook_map(after) =~= hook_map(before).insert(target, handle));
                }
                None
            },
        }
    }

    /// `api_hook_enable` / `api_hook_disable`: the detour handle of the hook on
    /// `target`, if there is one (the call answers -1 when there is none).
    pub fn get(&self, target: usize) -> (r: Option<usize>)
        requires
            self.wf(),
        ensures
            r == if self.view().contains_key(target) {
                Some(self.view()[target])
            } else {
                None
            },
    {
        match self.position(target) {
            Some(i) => {
                proof {
                    lemma_hook_map_at(self.entries@, i as int);
                }
                Some(self.entries[i].1)
            },
            None => None,
        }
    }

    /// `api_hook_remove`: forgets the hook on `target` and answers its handle; `None`
    /// (the call answers -1) when there is none.
    pub fn remove(&mut self, target: usize) -> (r: Option<usize>)
        requires
            old(self).wf(),
        ensures
            final(self).wf(),
            final(self).view() == old(self).view().remove(target),
            r == if old(self).view().contains_key(target) {
                Some(old(self).view()[target])
            } else {
                None
            },
    {
        let ghost before = self.entries@;
        match self.position(target) {
            Some(i) => {
                proof {
                    lemma_hook_map_at(before, i as int);
                }
                let removed = self.entries.remove(i);
                proof {
                    let after = self.entries@;
                    assert(after =~= before.remove(i as int));
                    assert(targets_distinct(after)) by {
                        assert forall|a: int, b: int|
                            0 <= a < after.len() && 0 <= b < after.len() && a != b implies #[trigger] after[a].0
                            != #[trigger] after[b].0 by {
                            let a2 = if a < i { a } else { a + 1 };
                            let b2 = if b < i { b } else { b + 1 };
                            assert(after[a] == before[a2]);
                            assert(after[b] == before[b2]);
                        }
                    }
                    assert forall|t: usize| #[trigger]
                        hook_map(after).contains_key(t) == hook_map(before).remove(
                            target,
                        ).contains_key(t) by {
                        if hook_map(after).contains_key(t) {
                            let k = choose|k: int| 0 <= k < after.len() && after[k].0 == t;
                            let k2 = if k < i { k } else { k + 1 };
                            assert(before[k2].0 == t);
                            assert(k2 != i);
                            assert(before[k2].0 != before[i as int].0);
                        }
                        if hook_map(before).contains_key(t) && t != target {
                            let k = choose|k: int| 0 <= k < before.len() && before[k].0 == t;
                            assert(k != i);
                            let k2 = if k < i { k } else { k - 1 };
                            assert(after[k2].0 == t);
                        }
                    }
                    assert forall|t: usize| #[trigger] hook_map(after).contains_key(t) implies hook_map(
                        after,
                    )[t] == hook_map(before).remove(target)[t] by {
                        let k = choose|k: int| 0 <= k < after.len() && after[k].0 == t;
                        lemma_hook_map_at(after, k);
                        let k2 = if k < i { k } else { k + 1 };
                        assert(after[k] == before[k2]);
                        lemma_hook_map_at(before, k2);
                    }
                    assert(hook_map(after) =~= hook_map(before).remove(target));
                }
                Some(removed.1)
            },
            None => {
                assert(hook_map(before).remove(target) =~= hook_map(before));
                None
            },
        }
    }

    /// `shutdown`: forgets every hook and answers their handles (each is disabled).
    pub fn drain(&mut self) -> (r: Vec<usize>)
        requires
            old(self).wf(),
        ensures
            final(self).wf(),
            final(self).view() == Map::<usize, usize>::empty(),
            r@.len() == old(self).view().len(),
            forall|t: usize| #[trigger] old(self).view().contains_key(t) ==> r@.contains(old(self).view()[t]),
    {
        let ghost before = self.entries@;
        let mut handles: Vec<usize> = Vec::new();
        let mut i: usize = 0;
        while i < self.entries.len()
            invariant
                self.entries@ == before,
                i <= before.len(),
                handles@ == before.subrange(0, i as int).map_values(|e: (usize, usize)| e.1),
            decreases self.entries.len() - i,
        {
            handles.push(self.entries[i].1);
            assert(before.subrange(0, i + 1).map_values(|e: (usize, usize)| e.1) =~= before.subrange(0, i as int).map_values(|e: (usize, usize)| e.1).push(before[i as int].1));
            i = i + 1;
        }
        assert(before.subrange(0, before.len() as int) =~= before);
        proof {
            assert forall|t: usize| #[trigger] hook_map(before).contains_key(t) implies handles@.contains(
                hook_map(before)[t],
            ) by {
                let k = choose|k: int| 0 <= k < before.len() && before[k].0 == t;
                lemma_hook_map_at(before, k);
                assert(handles@[k] == before[k].1);
            }
            lemma_hook_map_len(before);
        }
        self.entries.clear();
        assert(hook_map(self.entries@) =~= Map::<usize, usize>::empty());
        handles
    }
}

/// `entries` with distinct targets describe a map with one key per entry.
proof fn lemma_hook_map_len(entries: Seq<(usize, usize)>)
    requires
        targets_distinct(entries),
    ensures
        hook_map(entries).dom().finite(),
        hook_map(entries).len() == entries.len(),
    decreases entries.len(),
{
    if entries.len() == 0 {
        assert(hook_map(entries).dom() =~= Set::<usize>::empty());
    } else {
        let prefix = entries.drop_last();
        let last = entries.last();
        assert(targets_distinct(prefix));
        lemma_hook_map_len(prefix);
        assert forall|k: int| 0 <= k < prefix.len() implies #[trigger] prefix[k].0 != last.0 by {
            assert(entries[k].0 != entries[entries.len() - 1].0);
        }
        assert(hook_map(entries).dom() =~= hook_map(prefix).dom().insert(last.0)) by {
            assert forall|t: usize| hook_map(entries).dom().contains(t) implies hook_map(
                prefix,
            ).dom().insert(last.0).contains(t) by {
                let k = choose|k: int| 0 <= k < entries.len() && entries[k].0 == t;
                if k < prefix.len() {
                    assert(prefix[k].0 == t);
                }
            }
            assert forall|t: usize| hook_map(prefix).dom().insert(last.0).contains(t) implies hook_map(
                entries,
            ).dom().contains(t) by {
                if t == last.0 {
                    assert(entries[entries.len() - 1].0 == t);
                } else {
                    let k = choose|k: int| 0 <= k < prefix.len() && prefix[k].0 == t;
                    assert(entries[k].0 == t);
                }
            }
        }
        assert(!hook_map(prefix).dom().contains(last.0)) by {
            if hook_map(prefix).dom().contains(last.0) {
                let k = choose|k: int| 0 <= k < prefix.len() && prefix[k].0 == last.0;
                assert(prefix[k].0 != last.0);
            }
        }
    }
}

} // verus!
