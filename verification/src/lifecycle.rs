//! The order in which the loader drives a mod's entry points: `chumod_init`, then
//! keeping or freeing the mod, `chumod_on_ready` once every init is done, and at
//! unload `chumod_shutdown` before `FreeLibrary`, in reverse load order. The loader
//! asks for one action at a time, performs it, and hands back what it learned.
use vstd::prelude::*;

verus! {

/// What the loader does next with the mod at a position of the load order.
pub enum LifecycleAction {
    /// Call the mod's `chumod_init` and hand its result to the next step.
    CallInit(usize),
    /// Free the mod's library.
    Free(usize),
    /// Keep the mod loaded.
    Keep(usize),
    /// Call the mod's `chumod_on_ready`.
    CallOnReady(usize),
    /// Call the mod's `chumod_shutdown`.
    Shutdown(usize),
    /// Nothing is left to do.
    Done,
}

/// A load run: for each mod in load order whether it exports `chumod_init` and
/// `chumod_on_ready`, which mods were kept, the next mod to initialise, whether its
/// init result is awaited, and from where `chumod_on_ready` calls go on.
#[verifier::ext_equal]
pub ghost struct LoadView {
    pub has_init: Seq<bool>,
    pub has_on_ready: Seq<bool>,
    pub kept: Seq<bool>,
    pub next: int,
    pub awaiting: bool,
    pub ready_pos: int,
}

pub open spec fn load_view_wf(v: LoadView) -> bool {
    &&& v.has_init.len() <= usize::MAX
    &&& v.has_on_ready.len() == v.has_init.len()
    &&& v.kept.len() == v.has_init.len()
    &&& 0 <= v.next <= v.has_init.len()
    &&& v.awaiting ==> v.next < v.has_init.len() && v.has_init[v.next]
    &&& 0 <= v.ready_pos <= v.has_init.len()
    &&& v.ready_pos > 0 ==> v.next == v.has_init.len() && !v.awaiting
    &&& forall|p: int| v.next <= p < v.kept.len() ==> !#[trigger] v.kept[p]
}

/// Every init is done: the run is handing out `chumod_on_ready` calls.
pub open spec fn inits_done(v: LoadView) -> bool {
    v.next == v.has_init.len() && !v.awaiting
}

/// The first kept mod from position `from` on that exports `chumod_on_ready`.
pub open spec fn next_ready(kept: Seq<bool>, has_on_ready: Seq<bool>, from: int) -> Option<int>
    decreases kept.len() - from,
{
    if from < 0 || from >= kept.len() {
        None
    } else if kept[from] && has_on_ready[from] {
        Some(from)
    } else {
        next_ready(kept, has_on_ready, from + 1)
    }
}

/// The start of a load run over mods with these exports.
pub open spec fn load_start(has_init: Seq<bool>, has_on_ready: Seq<bool>) -> LoadView {
    LoadView {
        has_init,
        has_on_ready,
        kept: Seq::new(has_init.len(), |i: int| false),
        next: 0,
        awaiting: false,
        ready_pos: 0,
    }
}

/// One step of a load run, given the result of the init called by the step before
/// (`Some(Some(code))`; `Some(None)` when it panicked; `None` when no init was
/// called): after an init, the mod is kept when it returned 0 and freed otherwise;
/// a mod without `chumod_init` is kept at once; once every mod is decided, each
/// kept mod with `chumod_on_ready` is called in load order; then `Done`.
pub open spec fn spec_load_step(v: LoadView, init_result: Option<Option<i32>>) -> (LoadView, LifecycleAction) {
    let n = v.has_init.len() as int;
    if v.awaiting {
        if init_result == Some(Some(0i32)) {
            (
                LoadView { kept: v.kept.update(v.next, true), next: v.next + 1, awaiting: false, ..v },
                LifecycleAction::Keep(v.next as usize),
            )
        } else {
            (LoadView { next: v.next + 1, awaiting: false, ..v }, LifecycleAction::Free(v.next as usize))
        }
    } else if v.next < n {
        if v.has_init[v.next] {
            (LoadView { awaiting: true, ..v }, LifecycleAction::CallInit(v.next as usize))
        } else {
            (
                LoadView { kept: v.kept.update(v.next, true), next: v.next + 1, ..v },
                LifecycleAction::Keep(v.next as usize),
            )
        }
    } else {
        match next_ready(v.kept, v.has_on_ready, v.ready_pos) {
            Some(p) => (LoadView { ready_pos: p + 1, ..v }, LifecycleAction::CallOnReady(p as usize)),
            None => (LoadView { ready_pos: n, ..v }, LifecycleAction::Done),
        }
    }
}

/// An unload run over the loaded mods in load order: which export
/// `chumod_shutdown`, how many are still loaded, and whether the last of those was
/// shut down already.
#[verifier::ext_equal]
pub ghost struct UnloadView {
    pub has_shutdown: Seq<bool>,
    pub remaining: int,
    pub shut: bool,
}

pub open spec fn unload_view_wf(v: UnloadView) -> bool {
    &&& v.has_shutdown.len() <= usize::MAX
    &&& 0 <= v.remaining <= v.has_shutdown.len()
    &&& v.shut ==> v.remaining > 0 && v.has_shutdown[v.remaining - 1]
}

/// The start of an unload run.
pub open spec fn unload_start(has_shutdown: Seq<bool>) -> UnloadView {
    UnloadView { has_shutdown, remaining: has_shutdown.len() as int, shut: false }
}

/// One step of an unload run: the last mod still loaded is shut down (when it
/// exports `chumod_shutdown`) and then freed; `Done` when none is left.
pub open spec fn spec_unload_step(v: UnloadView) -> (UnloadView, LifecycleAction) {
    if v.remaining <= 0 {
        (v, LifecycleAction::Done)
    } else if v.has_shutdown[v.remaining - 1] && !v.shut {
        (UnloadView { shut: true, ..v }, LifecycleAction::Shutdown((v.remaining - 1) as usize))
    } else {
        (
            UnloadView { remaining: v.remaining - 1, shut: false, ..v },
            LifecycleAction::Free((v.remaining - 1) as usize),
        )
    }
}

/// A load run (see `LoadView`).
pub struct LoadRun {
    has_init: Vec<bool>,
    has_on_ready: Vec<bool>,
    kept: Vec<bool>,
    next: usize,
    awaiting: bool,
    ready_pos: usize,
}

impl LoadRun {
    pub closed spec fn view(&self) -> LoadView {
        LoadView {
            has_init: self.has_init@,
            has_on_ready: self.has_on_ready@,
            kept: self.kept@,
            next: self.next as int,
            awaiting: self.awaiting,
            ready_pos: self.ready_pos as int,
        }
    }

    pub closed spec fn wf(&self) -> bool {
        load_view_wf(self.view())
    }

    /// A run over the mods in load order; `has_init[i]` and `has_on_ready[i]` tell
    /// whether mod `i` exports `chumod_init` and `chumod_on_ready`.
    pub fn new(has_init: Vec<bool>, has_on_ready: Vec<bool>) -> (r: LoadRun)
        requires
            has_init@.len() == has_on_ready@.len(),
        ensures
            r.wf(),
            r.view() == load_start(has_init@, has_on_ready@),
    {
        let n = has_init.len();
        let mut kept: Vec<bool> = Vec::new();
        let mut i: usize = 0;
        while i < n
            invariant
                i <= n,
                n == has_init@.len(),
                kept@ == Seq::new(i as nat, |k: int| false),
            decreases n - i,
        {
            kept.push(false);
            assert(kept@ =~= Seq::new((i + 1) as nat, |k: int| false));
            i = i + 1;
        }
        let r = LoadRun { has_init, has_on_ready, kept, next: 0, awaiting: false, ready_pos: 0 };
        assert(r.view() =~= load_start(has_init@, has_on_ready@));
        r
    }
}

/// The next action of the load run `run`, given the result of the init that the
/// previous action called (see `spec_load_step`).
pub fn load_step(run: &mut LoadRun, init_result: Option<Option<i32>>) -> (a: LifecycleAction)
    requires
        old(run).wf(),
    ensures
        final(run).wf(),
        final(run).view() == spec_load_step(old(run).view(), init_result).0,
        a == spec_load_step(old(run).view(), init_result).1,
{
    let ghost v = run.view();
    let n = run.has_init.len();
    if run.awaiting {
        let i = run.next;
        run.awaiting = false;
        run.next = i + 1;
        let ok = match init_result {
            Some(Some(code)) => code == 0,
            _ => false,
        };
        if ok {
            run.kept.set(i, true);
            assert(run.view() =~= spec_load_step(v, init_result).0);
            LifecycleAction::Keep(i)
        } else {
            assert(run.view() =~= spec_load_step(v, init_result).0);
            LifecycleAction::Free(i)
        }
    } else if run.next < n {
        let i = run.next;
        if run.has_init[i] {
            run.awaiting = true;
            assert(run.view() =~= spec_load_step(v, init_result).0);
            LifecycleAction::CallInit(i)
        } else {
            run.kept.set(i, true);
            run.next = i + 1;
            assert(run.view() =~= spec_load_step(v, init_result).0);
            LifecycleAction::Keep(i)
        }
    } else {
        let mut p = run.ready_pos;
        while p < n && !(run.kept[p] && run.has_on_ready[p])
            invariant
                v == run.view(),
                load_view_wf(v),
                n == v.has_init.len(),
                v.ready_pos <= p <= n,
                next_ready(v.kept, v.has_on_ready, v.ready_pos) == next_ready(
                    v.kept,
                    v.has_on_ready,
                    p as int,
                ),
            decreases n - p,
        {
            p = p + 1;
        }
        if p < n {
            run.ready_pos = p + 1;
            assert(run.view() =~= spec_load_step(v, init_result).0);
            LifecycleAction::CallOnReady(p)
        } else {
            run.ready_pos = n;
            assert(run.view() =~= spec_load_step(v, init_result).0);
            LifecycleAction::Done
        }
    }
}

/// An unload run (see `UnloadView`).
pub struct UnloadRun {
    has_shutdown: Vec<bool>,
    remaining: usize,
    shut: bool,
}

impl UnloadRun {
    pub closed spec fn view(&self) -> UnloadView {
        UnloadView {
            has_shutdown: self.has_shutdown@,
            remaining: self.remaining as int,
            shut: self.shut,
        }
    }

    pub closed spec fn wf(&self) -> bool {
        unload_view_wf(self.view())
    }

    /// A run over the loaded mods in load order; `has_shutdown[i]` tells whether
    /// mod `i` exports `chumod_shutdown`.
    pub fn new(has_shutdown: Vec<bool>) -> (r: UnloadRun)
        ensures
            r.wf(),
            r.view() == unload_start(has_shutdown@),
    {
        let remaining = has_shutdown.len();
        UnloadRun { has_shutdown, remaining, shut: false }
    }
}

/// The next action of the unload run `run` (see `spec_unload_step`).
pub fn unload_step(run: &mut UnloadRun) -> (a: LifecycleAction)
    requires
        old(run).wf(),
    ensures
        final(run).wf(),
        final(run).view() == spec_unload_step(old(run).view()).0,
        a == spec_unload_step(old(run).view()).1,
{
    let ghost v = run.view();
    if run.remaining == 0 {
        return LifecycleAction::Done;
    }
    let i = run.remaining - 1;
    if run.has_shutdown[i] && !run.shut {
        run.shut = true;
        assert(run.view() =~= spec_unload_step(v).0);
        LifecycleAction::Shutdown(i)
    } else {
        run.remaining = i;
        run.shut = false;
        assert(run.view() =~= spec_unload_step(v).0);
        LifecycleAction::Free(i)
    }
}

/// The view of a load run started at `v` after `k` steps fed with `results`.
pub open spec fn load_view_at(v: LoadView, results: Seq<Option<Option<i32>>>, k: nat) -> LoadView
    decreases k,
{
    if k == 0 {
        v
    } else {
        spec_load_step(load_view_at(v, results, (k - 1) as nat), results[k - 1]).0
    }
}

/// The actions of a load run started at `v` whose step `k` is given `results[k]`.
pub open spec fn load_trace(v: LoadView, results: Seq<Option<Option<i32>>>) -> Seq<LifecycleAction> {
    Seq::new(
        results.len(),
        |k: int| spec_load_step(load_view_at(v, results, k as nat), results[k]).1,
    )
}

proof fn lemma_load_step(v: LoadView, r: Option<Option<i32>>)
    requires
        load_view_wf(v),
    ensures
        load_view_wf(spec_load_step(v, r).0),
        spec_load_step(v, r).0.has_init == v.has_init,
        v.next <= spec_load_step(v, r).0.next,
        forall|p: int| 0 <= p < v.next ==> #[trigger] spec_load_step(v, r).0.kept[p] == v.kept[p],
        inits_done(v) ==> inits_done(spec_load_step(v, r).0) && (spec_load_step(v, r).1 is CallOnReady
            || spec_load_step(v, r).1 is Done),
        spec_load_step(v, r).1 is CallInit ==> !inits_done(v) && spec_load_step(v, r).0.awaiting
            && spec_load_step(v, r).0.next == v.next && spec_load_step(v, r).1
            == LifecycleAction::CallInit(v.next as usize),
        spec_load_step(v, r).1 is Keep ==> !inits_done(v) && spec_load_step(v, r).1
            == LifecycleAction::Keep(v.next as usize) && spec_load_step(v, r).0.next == v.next + 1,
        spec_load_step(v, r).1 is Free ==> !inits_done(v) && spec_load_step(v, r).1
            == LifecycleAction::Free(v.next as usize) && spec_load_step(v, r).0.next == v.next + 1,
        spec_load_step(v, r).1 matches LifecycleAction::CallOnReady(p) ==> inits_done(v) && 0 <= p
            < v.kept.len() && v.kept[p as int],
        v.awaiting && r != Some(Some(0i32)) ==> spec_load_step(v, r).1 == LifecycleAction::Free(
            v.next as usize,
        ) && !spec_load_step(v, r).0.kept[v.next] && spec_load_step(v, r).0.next == v.next + 1,
{
    if !v.awaiting && v.next == v.has_init.len() {
        lemma_next_ready(v.kept, v.has_on_ready, v.ready_pos);
    }
}

proof fn lemma_next_ready(kept: Seq<bool>, has_on_ready: Seq<bool>, from: int)
    ensures
        next_ready(kept, has_on_ready, from) matches Some(p) ==> from <= p < kept.len() && kept[p]
            && has_on_ready[p],
    decreases kept.len() - from,
{
    if 0 <= from < kept.len() && !(kept[from] && has_on_ready[from]) {
        lemma_next_ready(kept, has_on_ready, from + 1);
    }
}

/// Along a load run the views stay well formed, the next mod only moves on, the
/// decisions on mods before it stay, and once every init is done it stays done.
proof fn lemma_load_views(v: LoadView, results: Seq<Option<Option<i32>>>, k1: nat, k2: nat)
    requires
        load_view_wf(v),
        k1 <= k2,
    ensures
        load_view_wf(load_view_at(v, results, k2)),
        load_view_at(v, results, k2).has_init == v.has_init,
        load_view_at(v, results, k1).next <= load_view_at(v, results, k2).next,
        forall|p: int|
            0 <= p < load_view_at(v, results, k1).next ==> #[trigger] load_view_at(
                v,
                results,
                k2,
            ).kept[p] == load_view_at(v, results, k1).kept[p],
        inits_done(load_view_at(v, results, k1)) ==> inits_done(load_view_at(v, results, k2)),
    decreases k2,
{
    if k2 > 0 {
        let prev = (k2 - 1) as nat;
        lemma_load_views(v, results, if k1 == k2 { prev } else { k1 }, prev);
        lemma_load_step(load_view_at(v, results, prev), results[k2 - 1]);
        if k1 < k2 {
            lemma_load_views(v, results, k1, prev);
        }
    }
}

/// The load order of the lifecycle, whatever the init results: no `chumod_init` is
/// called after a `chumod_on_ready`; and a mod whose init does not return 0 (or
/// panics) is freed at the next step and is never kept nor called `chumod_on_ready`
/// (so it is not among the loaded mods that get `chumod_shutdown`).
pub proof fn law_load_lifecycle(
    has_init: Seq<bool>,
    has_on_ready: Seq<bool>,
    results: Seq<Option<Option<i32>>>,
)
    requires
        has_init.len() == has_on_ready.len(),
        has_init.len() <= usize::MAX,
    ensures
        ({
            let t = load_trace(load_start(has_init, has_on_ready), results);
            &&& forall|a: int, b: int|
                0 <= a < b < t.len() && #[trigger] t[a] is CallOnReady ==> !(#[trigger] t[b] is CallInit)
            &&& forall|a: int|
                0 <= a && a + 1 < t.len() && results[a + 1] != Some(Some(0i32)) ==> (#[trigger] t[a] matches LifecycleAction::CallInit(i) ==> t[a + 1] == LifecycleAction::Free(i)
                    && forall|b: int|
                    0 <= b < t.len() ==> #[trigger] t[b] != LifecycleAction::Keep(i) && t[b]
                        != LifecycleAction::CallOnReady(i))
        }),
{
    let v = load_start(has_init, has_on_ready);
    let t = load_trace(v, results);
    assert forall|a: int, b: int|
        0 <= a < b < t.len() && #[trigger] t[a] is CallOnReady implies !(#[trigger] t[b] is CallInit) by {
        lemma_load_views(v, results, a as nat, a as nat);
        lemma_load_step(load_view_at(v, results, a as nat), results[a]);
        lemma_load_views(v, results, a as nat, b as nat);
        lemma_load_step(load_view_at(v, results, b as nat), results[b]);
    }
    assert forall|a: int|
        0 <= a && a + 1 < t.len() && results[a + 1] != Some(Some(0i32)) implies (#[trigger] t[a] matches LifecycleAction::CallInit(i) ==> t[a + 1] == LifecycleAction::Free(i)
            && forall|b: int|
            0 <= b < t.len() ==> #[trigger] t[b] != LifecycleAction::Keep(i) && t[b]
                != LifecycleAction::CallOnReady(i)) by {
        if let LifecycleAction::CallInit(i) = t[a] {
        let va = load_view_at(v, results, a as nat);
        lemma_load_views(v, results, a as nat, a as nat);
        lemma_load_step(va, results[a]);
        let va1 = load_view_at(v, results, (a + 1) as nat);
        lemma_load_views(v, results, (a + 1) as nat, (a + 1) as nat);
        lemma_load_step(va1, results[a + 1]);
        let va2 = load_view_at(v, results, (a + 2) as nat);
        assert forall|b: int| 0 <= b < t.len() implies #[trigger] t[b] != LifecycleAction::Keep(i)
            && t[b] != LifecycleAction::CallOnReady(i) by {
            let vb = load_view_at(v, results, b as nat);
            lemma_load_views(v, results, b as nat, b as nat);
            lemma_load_step(vb, results[b]);
            if b < a {
                lemma_load_views(v, results, (b + 1) as nat, a as nat);
                lemma_load_step(vb, results[b]);
                lemma_load_views(v, results, b as nat, a as nat);
            } else if b > a + 1 {
                lemma_load_views(v, results, (a + 2) as nat, b as nat);
            }
        }
        }
    }
}

/// Mod `p` is kept and exports `chumod_on_ready`.
pub open spec fn ready_due(v: LoadView, p: int) -> bool {
    v.kept[p] && v.has_on_ready[p]
}

/// The action `x` occurs among the actions `t`.
pub open spec fn occurs(t: Seq<LifecycleAction>, x: LifecycleAction) -> bool {
    exists|a: int| 0 <= a < t.len() && #[trigger] t[a] == x
}

/// Every init is decided and every `chumod_on_ready` handed out.
pub open spec fn load_finished(v: LoadView) -> bool {
    inits_done(v) && v.ready_pos == v.has_init.len()
}

/// A bound on the steps a load run still takes before it is finished.
pub open spec fn load_potential(v: LoadView) -> int {
    (v.has_init.len() - v.ready_pos) + if inits_done(v) {
        0
    } else {
        2 * (v.has_init.len() - v.next) - (if v.awaiting {
            1int
        } else {
            0int
        }) + 1
    }
}

proof fn lemma_next_ready_scan(kept: Seq<bool>, has_on_ready: Seq<bool>, from: int)
    requires
        0 <= from,
    ensures
        match next_ready(kept, has_on_ready, from) {
            Some(p) => from <= p < kept.len() && kept[p] && has_on_ready[p] && forall|q: int|
                from <= q < p ==> !(kept[q] && has_on_ready[q]),
            None => forall|q: int| from <= q < kept.len() ==> !(kept[q] && has_on_ready[q]),
        },
    decreases kept.len() - from,
{
    if from < kept.len() && !(kept[from] && has_on_ready[from]) {
        lemma_next_ready_scan(kept, has_on_ready, from + 1);
    }
}

proof fn lemma_load_progress(v: LoadView, r: Option<Option<i32>>)
    requires
        load_view_wf(v),
    ensures
        ({
            let (w, a) = spec_load_step(v, r);
            &&& w.has_on_ready == v.has_on_ready
            &&& v.ready_pos <= w.ready_pos
            &&& !load_finished(v) ==> load_potential(w) < load_potential(v)
            &&& load_finished(v) ==> load_finished(w)
            &&& load_potential(v) >= 0
            &&& !load_finished(v) ==> load_potential(v) >= 1
            &&& !inits_done(v) ==> v.ready_pos == 0 && w.ready_pos == 0
            &&& inits_done(v) ==> w.kept == v.kept
            &&& forall|p: int| 0 <= p < v.kept.len() && #[trigger] w.kept[p] && !v.kept[p] ==> a
                == LifecycleAction::Keep(p as usize)
            &&& a matches LifecycleAction::Keep(p) ==> p == v.next && w.kept[v.next]
            &&& a matches LifecycleAction::CallOnReady(p) ==> v.ready_pos <= p && w.ready_pos == p + 1
                && ready_due(v, p as int) && forall|q: int|
                v.ready_pos <= q < p ==> !ready_due(v, q)
            &&& inits_done(v) && a is Done ==> w.ready_pos == v.has_init.len() && forall|q: int|
                v.ready_pos <= q < v.has_init.len() ==> !ready_due(v, q)
        }),
{
    lemma_load_step(v, r);
    if inits_done(v) {
        lemma_next_ready_scan(v.kept, v.has_on_ready, v.ready_pos);
        assert(spec_load_step(v, r).0.kept =~= v.kept);
    }
}

/// The load run is finished within `3n + 1` steps, and until then each step brings
/// it closer.
proof fn lemma_load_terminates(v: LoadView, results: Seq<Option<Option<i32>>>, k: nat)
    requires
        load_view_wf(v),
    ensures
        load_finished(load_view_at(v, results, k)) || load_potential(load_view_at(v, results, k)) + k
            <= load_potential(v),
    decreases k,
{
    if k > 0 {
        let prev = (k - 1) as nat;
        lemma_load_terminates(v, results, prev);
        lemma_load_views(v, results, prev, prev);
        lemma_load_progress(load_view_at(v, results, prev), results[k - 1]);
    }
}

/// The action of step `a` of the load run started at `v`.
pub open spec fn action_at(v: LoadView, results: Seq<Option<Option<i32>>>, a: int) -> LifecycleAction {
    spec_load_step(load_view_at(v, results, a as nat), results[a]).1
}

proof fn lemma_load_shape(v: LoadView, results: Seq<Option<Option<i32>>>, k: nat)
    requires
        load_view_wf(v),
    ensures
        load_view_at(v, results, k).has_on_ready == v.has_on_ready,
        load_view_at(v, results, k).kept.len() == v.kept.len(),
    decreases k,
{
    if k > 0 {
        let prev = (k - 1) as nat;
        lemma_load_shape(v, results, prev);
        lemma_load_views(v, results, prev, prev);
        lemma_load_progress(load_view_at(v, results, prev), results[k - 1]);
    }
}

/// A kept flag is set only by a `Keep` of that mod.
proof fn lemma_kept_origin(v: LoadView, results: Seq<Option<Option<i32>>>, k: nat, p: int)
    requires
        load_view_wf(v),
        forall|q: int| 0 <= q < v.kept.len() ==> !#[trigger] v.kept[q],
        0 <= p < v.kept.len(),
        load_view_at(v, results, k).kept[p],
    ensures
        exists|a: int| 0 <= a < k && #[trigger] action_at(v, results, a) == LifecycleAction::Keep(p as usize),
    decreases k,
{
    let prev = (k - 1) as nat;
    lemma_load_views(v, results, prev, prev);
    lemma_load_shape(v, results, prev);
    let vp = load_view_at(v, results, prev);
    lemma_load_progress(vp, results[k - 1]);
    if vp.kept[p] {
        lemma_kept_origin(v, results, prev, p);
        let a = choose|a: int| 0 <= a < prev && #[trigger] action_at(v, results, a) == LifecycleAction::Keep(
            p as usize,
        );
        assert(0 <= a < k);
    } else {
        assert(action_at(v, results, k - 1) == LifecycleAction::Keep(p as usize));
    }
}

/// Every due mod below `ready_pos` has had its `CallOnReady`.
proof fn lemma_ready_coverage(v: LoadView, results: Seq<Option<Option<i32>>>, k: nat, p: int)
    requires
        load_view_wf(v),
        v.ready_pos == 0,
        0 <= p < load_view_at(v, results, k).ready_pos,
        ready_due(load_view_at(v, results, k), p),
    ensures
        exists|a: int| 0 <= a < k && #[trigger] action_at(v, results, a) == LifecycleAction::CallOnReady(
            p as usize,
        ),
    decreases k,
{
    let prev = (k - 1) as nat;
    lemma_load_views(v, results, prev, prev);
    let vp = load_view_at(v, results, prev);
    let vk = load_view_at(v, results, k);
    lemma_load_progress(vp, results[k - 1]);
    let act = action_at(v, results, k - 1);
    assert(inits_done(vp));
    assert(vk.kept == vp.kept);
    if p < vp.ready_pos {
        lemma_ready_coverage(v, results, prev, p);
        let a = choose|a: int| 0 <= a < prev && #[trigger] action_at(v, results, a)
            == LifecycleAction::CallOnReady(p as usize);
        assert(0 <= a < k);
    } else {
        let r = results[k - 1];
        lemma_load_step(vp, r);
        lemma_load_shape(v, results, prev);
        assert(vk == spec_load_step(vp, r).0);
        assert(act == spec_load_step(vp, r).1);
        assert(ready_due(vp, p));
        match act {
            LifecycleAction::CallOnReady(p0) => {
                assert(p == p0 as int);
            },
            _ => {
                assert(act is Done);
                assert(false);
            },
        }
        assert(act == LifecycleAction::CallOnReady(p as usize));
    }
}

/// A complete load run hands out `chumod_on_ready` as the lifecycle promises: given
/// enough steps (`3n + 1` for `n` mods), mod `p` gets a `CallOnReady` exactly when it
/// exports `chumod_on_ready` and was kept, and the calls come in load order, each
/// mod at most once.
pub proof fn law_load_calls_every_on_ready(
    has_init: Seq<bool>,
    has_on_ready: Seq<bool>,
    results: Seq<Option<Option<i32>>>,
)
    requires
        has_init.len() == has_on_ready.len(),
        has_init.len() <= usize::MAX,
        results.len() >= 3 * has_init.len() + 1,
    ensures
        ({
            let t = load_trace(load_start(has_init, has_on_ready), results);
            &&& forall|p: int|
                0 <= p < has_init.len() ==> (#[trigger] occurs(t, LifecycleAction::CallOnReady(p as usize))
                    <==> has_on_ready[p] && occurs(t, LifecycleAction::Keep(p as usize)))
            &&& forall|a: int, b: int|
                0 <= a < b < t.len() ==> (#[trigger] t[a] matches LifecycleAction::CallOnReady(p) ==> (
                #[trigger] t[b] matches LifecycleAction::CallOnReady(q) ==> p < q))
        }),
{
    let v = load_start(has_init, has_on_ready);
    let t = load_trace(v, results);
    let n = has_init.len() as int;
    let kk = results.len() as nat;
    lemma_load_views(v, results, kk, kk);
    lemma_load_terminates(v, results, kk);
    lemma_load_progress(load_view_at(v, results, kk), None);
    lemma_load_shape(v, results, kk);
    let vk = load_view_at(v, results, kk);
    assert(load_finished(vk));
    assert forall|p: int|
        0 <= p < has_init.len() implies (#[trigger] occurs(t, LifecycleAction::CallOnReady(p as usize))
        <==> has_on_ready[p] && occurs(t, LifecycleAction::Keep(p as usize))) by {
        if occurs(t, LifecycleAction::CallOnReady(p as usize)) {
            let a = choose|a: int| 0 <= a < t.len() && #[trigger] t[a] == LifecycleAction::CallOnReady(
                p as usize,
            );
            let va = load_view_at(v, results, a as nat);
            lemma_load_views(v, results, a as nat, a as nat);
            lemma_load_progress(va, results[a]);
            lemma_load_shape(v, results, a as nat);
            assert(va.kept[p]);
            lemma_kept_origin(v, results, a as nat, p);
            let b = choose|b: int| 0 <= b < a && #[trigger] action_at(v, results, b)
                == LifecycleAction::Keep(p as usize);
            assert(t[b] == LifecycleAction::Keep(p as usize));
        }
        if has_on_ready[p] && occurs(t, LifecycleAction::Keep(p as usize)) {
            let a = choose|a: int| 0 <= a < t.len() && #[trigger] t[a] == LifecycleAction::Keep(
                p as usize,
            );
            let va = load_view_at(v, results, a as nat);
            lemma_load_views(v, results, a as nat, a as nat);
            lemma_load_progress(va, results[a]);
            lemma_load_step(va, results[a]);
            lemma_load_views(v, results, (a + 1) as nat, kk);
            assert(load_view_at(v, results, (a + 1) as nat).kept[p]);
            assert(vk.kept[p]);
            assert(ready_due(vk, p));
            lemma_ready_coverage(v, results, kk, p);
            let b = choose|b: int| 0 <= b < kk && #[trigger] action_at(v, results, b)
                == LifecycleAction::CallOnReady(p as usize);
            assert(t[b] == LifecycleAction::CallOnReady(p as usize));
        }
    }
    assert forall|a: int, b: int|
        0 <= a < b < t.len() implies (#[trigger] t[a] matches LifecycleAction::CallOnReady(p) ==> (
        #[trigger] t[b] matches LifecycleAction::CallOnReady(q) ==> p < q)) by {
        if let LifecycleAction::CallOnReady(p) = t[a] {
            if let LifecycleAction::CallOnReady(q) = t[b] {
                lemma_load_views(v, results, a as nat, a as nat);
                lemma_load_progress(load_view_at(v, results, a as nat), results[a]);
                lemma_load_views(v, results, b as nat, b as nat);
                lemma_load_progress(load_view_at(v, results, b as nat), results[b]);
                lemma_load_ready_grows(v, results, (a + 1) as nat, b as nat);
            }
        }
    }
}

proof fn lemma_load_ready_grows(v: LoadView, results: Seq<Option<Option<i32>>>, k1: nat, k2: nat)
    requires
        load_view_wf(v),
        k1 <= k2,
    ensures
        load_view_at(v, results, k1).ready_pos <= load_view_at(v, results, k2).ready_pos,
    decreases k2,
{
    if k1 < k2 {
        let prev = (k2 - 1) as nat;
        lemma_load_ready_grows(v, results, k1, prev);
        lemma_load_views(v, results, prev, prev);
        lemma_load_progress(load_view_at(v, results, prev), results[k2 - 1]);
    }
}

/// The view of an unload run started at `v` after `k` steps.
pub open spec fn unload_view_at(v: UnloadView, k: nat) -> UnloadView
    decreases k,
{
    if k == 0 {
        v
    } else {
        spec_unload_step(unload_view_at(v, (k - 1) as nat)).0
    }
}

/// The first `k` actions of an unload run started at `v`.
pub open spec fn unload_trace(v: UnloadView, k: nat) -> Seq<LifecycleAction> {
    Seq::new(k, |a: int| spec_unload_step(unload_view_at(v, a as nat)).1)
}

proof fn lemma_unload_views(v: UnloadView, k1: nat, k2: nat)
    requires
        unload_view_wf(v),
        !v.shut,
        k1 <= k2,
    ensures
        unload_view_wf(unload_view_at(v, k2)),
        unload_view_at(v, k2).has_shutdown == v.has_shutdown,
        unload_view_at(v, k2).remaining <= unload_view_at(v, k1).remaining,
        unload_view_at(v, k2).shut ==> k2 > 0 && spec_unload_step(unload_view_at(v, (k2 - 1) as nat)).1
            == LifecycleAction::Shutdown((unload_view_at(v, k2).remaining - 1) as usize),
        unload_view_at(v, k2).remaining > 0 ==> 2 * unload_view_at(v, k2).remaining - (if unload_view_at(
            v,
            k2,
        ).shut {
            1int
        } else {
            0int
        }) + k2 <= 2 * v.remaining,
        k2 >= 2 * v.remaining ==> unload_view_at(v, k2).remaining == 0,
    decreases k2,
{
    if k2 > 0 {
        let prev = (k2 - 1) as nat;
        lemma_unload_views(v, if k1 == k2 { prev } else { k1 }, prev);
        if k1 < k2 {
            lemma_unload_views(v, k1, prev);
        }
    }
}

/// Every mod from `lo` up to the number still loaded after `k1` steps is freed
/// between steps `k1` and `k2`, when at most `hi` remain after `k2` steps... 
proof fn lemma_unload_frees(v: UnloadView, k1: nat, k2: nat, i: int)
    requires
        unload_view_wf(v),
        !v.shut,
        k1 <= k2,
        unload_view_at(v, k2).remaining <= i < unload_view_at(v, k1).remaining,
    ensures
        exists|b: int| k1 <= b < k2 && spec_unload_step(#[trigger] unload_view_at(v, b as nat)).1
            == LifecycleAction::Free(i as usize),
    decreases k2,
{
    let prev = (k2 - 1) as nat;
    lemma_unload_views(v, k1, prev);
    lemma_unload_views(v, prev, prev);
    let vp = unload_view_at(v, prev);
    if vp.remaining <= i {
        lemma_unload_frees(v, k1, prev, i);
        let b = choose|b: int| k1 <= b < prev && spec_unload_step(#[trigger] unload_view_at(v, b as nat)).1
            == LifecycleAction::Free(i as usize);
        assert(k1 <= b < k2);
    } else {
        assert(spec_unload_step(unload_view_at(v, prev as nat)).1 == LifecycleAction::Free(
            i as usize,
        ));
    }
}

/// The actions `t` free the mod at position `i`.
pub open spec fn freed_in(t: Seq<LifecycleAction>, i: int) -> bool {
    exists|b: int| 0 <= b < t.len() && #[trigger] t[b] == LifecycleAction::Free(i as usize)
}

/// The unload order of the lifecycle: mods are freed in reverse load order, each
/// once; a mod with `chumod_shutdown` is shut down right before it is freed and
/// never after; and within twice as many steps as there are mods, every mod is
/// freed.
pub proof fn law_unload_lifecycle(has_shutdown: Seq<bool>, k: nat)
    requires
        has_shutdown.len() <= usize::MAX,
    ensures
        ({
            let t = unload_trace(unload_start(has_shutdown), k);
            &&& forall|a: int|
                0 <= a < t.len() ==> (#[trigger] t[a] matches LifecycleAction::Shutdown(i) ==> has_shutdown[i as int]
                    && (a + 1 < t.len() ==> t[a + 1] == LifecycleAction::Free(i)) && forall|b: int|
                    0 <= b < a ==> #[trigger] t[b] != LifecycleAction::Free(i))
            &&& forall|b: int|
                0 <= b < t.len() ==> (#[trigger] t[b] matches LifecycleAction::Free(i) ==> (has_shutdown[i as int]
                    ==> b > 0 && t[b - 1] == LifecycleAction::Shutdown(i)))
            &&& forall|a: int, b: int|
                0 <= a < b < t.len() ==> (#[trigger] t[a] matches LifecycleAction::Free(i) ==> (#[trigger] t[b]
                    matches LifecycleAction::Free(j) ==> j < i))
            &&& k >= 2 * has_shutdown.len() ==> forall|i: int|
                0 <= i < has_shutdown.len() ==> #[trigger] freed_in(t, i)
        }),
{
    let v = unload_start(has_shutdown);
    let t = unload_trace(v, k);
    assert forall|a: int|
        0 <= a < t.len() implies (#[trigger] t[a] matches LifecycleAction::Shutdown(i) ==> has_shutdown[i as int]
            && (a + 1 < t.len() ==> t[a + 1] == LifecycleAction::Free(i)) && forall|b: int|
            0 <= b < a ==> #[trigger] t[b] != LifecycleAction::Free(i)) by {
        if let LifecycleAction::Shutdown(i) = t[a] {
        lemma_unload_views(v, a as nat, a as nat);
        lemma_unload_views(v, (a + 1) as nat, (a + 1) as nat);
        assert forall|b: int| 0 <= b < a implies #[trigger] t[b] != LifecycleAction::Free(i) by {
            lemma_unload_views(v, (b + 1) as nat, a as nat);
            lemma_unload_views(v, b as nat, b as nat);
        }
        }
    }
    assert forall|b: int|
        0 <= b < t.len() implies (#[trigger] t[b] matches LifecycleAction::Free(i) ==> (has_shutdown[i as int]
            ==> b > 0 && t[b - 1] == LifecycleAction::Shutdown(i))) by {
        lemma_unload_views(v, b as nat, b as nat);
    }
    assert forall|a: int, b: int|
        0 <= a < b < t.len() implies (#[trigger] t[a] matches LifecycleAction::Free(i) ==> (#[trigger] t[b]
            matches LifecycleAction::Free(j) ==> j < i)) by {
        lemma_unload_views(v, a as nat, a as nat);
        lemma_unload_views(v, b as nat, b as nat);
        lemma_unload_views(v, (a + 1) as nat, b as nat);
    }
    if k >= 2 * has_shutdown.len() {
        assert forall|i: int| 0 <= i < has_shutdown.len() implies #[trigger] freed_in(t, i) by {
            lemma_unload_views(v, 0, k);
            lemma_unload_frees(v, 0, k, i);
            let b = choose|b: int| 0 <= b < k && spec_unload_step(#[trigger] unload_view_at(v, b as nat)).1
                == LifecycleAction::Free(i as usize);
            assert(t[b] == LifecycleAction::Free(i as usize));
        }
    }
}

} // verus!
