//! The loader's Direct3D 9 service: callback slots that mods fill, the frame
//! limiter, and the decisions of the vtable hooks and of device recovery.
use vstd::prelude::*;

verus! {

/// How many present (or reset) callbacks can be registered.
pub const MAX_CALLBACKS: usize = 8;

pub const D3D_OK: i32 = 0;

pub const D3DERR_DEVICELOST: i32 = -2005530520;

pub const D3DERR_DEVICENOTRESET: i32 = -2005530519;

/// How many times a lost device is tested before giving up.
pub const MAX_RECOVERY_ATTEMPTS: usize = 600;

/// Some slot of `slots` is free.
pub open spec fn has_free_slot(slots: Seq<usize>) -> bool {
    exists|i: int| 0 <= i < slots.len() && slots[i] == 0
}

/// `i` is the first free slot of `slots`.
pub open spec fn is_first_free(slots: Seq<usize>, i: int) -> bool {
    0 <= i < slots.len() && slots[i] == 0 && forall|j: int| 0 <= j < i ==> #[trigger] slots[j] != 0
}

/// The first free slot of `slots` (meaningful when there is one).
pub open spec fn first_free_slot(slots: Seq<usize>) -> int {
    choose|i: int| is_first_free(slots, i)
}

proof fn lemma_first_free_unique(slots: Seq<usize>, i: int)
    requires
        is_first_free(slots, i),
    ensures
        first_free_slot(slots) == i,
        has_free_slot(slots),
{
    let k = first_free_slot(slots);
    assert(is_first_free(slots, k));
    if k < i {
        assert(slots[k] != 0);
    } else if i < k {
        assert(slots[i] != 0);
    }
}

/// The filled slots of `slots`, in order.
pub open spec fn registered(slots: Seq<usize>) -> Seq<usize>
    decreases slots.len(),
{
    if slots.len() == 0 {
        Seq::empty()
    } else if slots.last() != 0 {
        registered(slots.drop_last()).push(slots.last())
    } else {
        registered(slots.drop_last())
    }
}

proof fn lemma_registered_has(slots: Seq<usize>, i: int)
    requires
        0 <= i < slots.len(),
        slots[i] != 0,
    ensures
        registered(slots).contains(slots[i]),
    decreases slots.len(),
{
    if i == slots.len() - 1 {
        assert(registered(slots).last() == slots[i]);
    } else {
        let prefix = slots.drop_last();
        assert(prefix[i] == slots[i]);
        lemma_registered_has(prefix, i);
        let k = choose|k: int| 0 <= k < registered(prefix).len() && registered(prefix)[k] == slots[i];
        if slots.last() != 0 {
            assert(registered(slots)[k] == slots[i]);
        }
    }
}

/// A callback registered while a slot is free is among those that run.
pub proof fn law_registered_callback_runs(slots: Seq<usize>, cb: usize)
    requires
        cb != 0,
        has_free_slot(slots),
    ensures
        registered(slots.update(first_free_slot(slots), cb)).contains(cb),
{
    let i = choose|i: int| 0 <= i < slots.len() && slots[i] == 0;
    let k = lemma_first_free_exists(slots, i);
    lemma_first_free_unique(slots, k);
    lemma_registered_has(slots.update(k, cb), k);
}

/// After the table is cleared (a `NULL` registration) no callback runs.
pub proof fn law_cleared_table_runs_nothing(n: nat)
    ensures
        registered(Seq::new(n, |i: int| 0usize)) == Seq::<usize>::empty(),
    decreases n,
{
    if n > 0 {
        let s = Seq::new(n, |i: int| 0usize);
        assert(s.drop_last() =~= Seq::new((n - 1) as nat, |i: int| 0usize));
        law_cleared_table_runs_nothing((n - 1) as nat);
    }
}

/// A free slot at `i` means there is a first free slot, at or before it.
proof fn lemma_first_free_exists(slots: Seq<usize>, i: int) -> (k: int)
    requires
        0 <= i < slots.len(),
        slots[i] == 0,
    ensures
        is_first_free(slots, k),
    decreases i,
{
    if exists|j: int| 0 <= j < i && slots[j] == 0 {
        let j = choose|j: int| 0 <= j < i && slots[j] == 0;
        lemma_first_free_exists(slots, j)
    } else {
        i
    }
}

/// Callback slots: 0 is a free slot, anything else a callback's address.
pub struct CallbackTable {
    slots: Vec<usize>,
}

impl CallbackTable {
    pub closed spec fn view(&self) -> Seq<usize> {
        self.slots@
    }

    pub closed spec fn wf(&self) -> bool {
        self.slots@.len() == MAX_CALLBACKS
    }

    /// All slots free.
    pub fn new() -> (r: CallbackTable)
        ensures
            r.wf(),
            r.view() == Seq::new(MAX_CALLBACKS as nat, |i: int| 0usize),
    {
        let r = CallbackTable { slots: vec![0, 0, 0, 0, 0, 0, 0, 0] };
        assert(r.view() =~= Seq::new(MAX_CALLBACKS as nat, |i: int| 0usize));
        r
    }

    /// `api_register_present_callback` / `api_register_reset_callback`: puts
    /// `callback` in the first free slot and answers 0; -1, with nothing changed,
    /// when the callback is 0 or no slot is free. No callback (`NULL`) clears every
    /// slot and answers 0.
    pub fn register(&mut self, callback: Option<usize>) -> (r: i32)
        requires
            old(self).wf(),
        ensures
            final(self).wf(),
            match callback {
                Some(cb) => if cb != 0 && has_free_slot(old(self).view()) {
                    r == 0 && final(self).view() == old(self).view().update(
                        first_free_slot(old(self).view()),
                        cb,
                    )
                } else {
                    r == -1 && final(self).view() == old(self).view()
                },
                None => r == 0 && final(self).view() == Seq::new(MAX_CALLBACKS as nat, |i: int| 0usize),
            },
    {
        let cb = match callback {
            Some(cb) => cb,
            None => {
                self.clear();
                return 0;
            },
        };
        if cb == 0 {
            return -1;
        }
        let ghost s0 = self.slots@;
        let mut i: usize = 0;
        while i < self.slots.len() && self.slots[i] != 0
            invariant
                self.slots@ == s0,
                s0.len() == MAX_CALLBACKS,
                i <= MAX_CALLBACKS,
                forall|j: int| 0 <= j < i ==> #[trigger] s0[j] != 0,
            decreases self.slots.len() - i,
        {
            i = i + 1;
        }
        if i == self.slots.len() {
            proof {
                assert(!has_free_slot(s0)) by {
                    if has_free_slot(s0) {
                        let k = choose|k: int| 0 <= k < s0.len() && s0[k] == 0;
                        assert(s0[k] != 0);
                    }
                }
            }
            return -1;
        }
        proof {
            assert(is_first_free(s0, i as int));
            lemma_first_free_unique(s0, i as int);
        }
        self.slots.set(i, cb);
        assert(self.slots@ =~= s0.update(i as int, cb));
        0
    }

    /// Frees every slot.
    fn clear(&mut self)
        requires
            old(self).wf(),
        ensures
            final(self).wf(),
            final(self).view() == Seq::new(MAX_CALLBACKS as nat, |i: int| 0usize),
    {
        let mut i: usize = 0;
        while i < self.slots.len()
            invariant
                self.slots@.len() == MAX_CALLBACKS,
                i <= MAX_CALLBACKS,
                forall|j: int| 0 <= j < i ==> #[trigger] self.slots@[j] == 0,
            decreases self.slots.len() - i,
        {
            self.slots.set(i, 0);
            i = i + 1;
        }
        assert(self.slots@ =~= Seq::new(MAX_CALLBACKS as nat, |i: int| 0usize));
    }

    /// `run_present_callbacks` / `run_reset_callbacks`: the registered callbacks,
    /// in slot order.
    pub fn callbacks(&self) -> (r: Vec<usize>)
        ensures
            r@ == registered(self.view()),
    {
        let mut out: Vec<usize> = Vec::new();
        let mut i: usize = 0;
        while i < self.slots.len()
            invariant
                i <= self.slots@.len(),
                out@ == registered(self.slots@.subrange(0, i as int)),
            decreases self.slots.len() - i,
        {
            assert(self.slots@.subrange(0, i + 1).drop_last() =~= self.slots@.subrange(
                0,
                i as int,
            ));
            if self.slots[i] != 0 {
                out.push(self.slots[i]);
            }
            i = i + 1;
        }
        assert(self.slots@.subrange(0, self.slots@.len() as int) =~= self.slots@);
        out
    }
}

/// The frame limiter: a target rate (0: off), the performance-counter frequency,
/// and when the last frame was let through.
pub struct FrameLock {
    pub fps: u32,
    pub freq: u64,
    pub last: u64,
}

impl FrameLock {
    /// Off, with the counter frequency `freq`.
    pub fn new(freq: u64) -> (r: FrameLock)
        ensures
            r.fps == 0,
            r.freq == freq,
            r.last == 0,
    {
        FrameLock { fps: 0, freq, last: 0 }
    }
}

/// `api_set_frame_lock`: sets the target rate (0 turns the limiter off); answers 0.
pub fn set_frame_lock(lock: &mut FrameLock, fps: u32) -> (r: i32)
    ensures
        r == 0,
        final(lock).fps == fps,
        final(lock).freq == old(lock).freq,
        final(lock).last == old(lock).last,
{
    lock.fps = fps;
    0
}

/// Whether a frame at counter value `now` may pass: always when the limiter is off
/// or the frequency unknown, else once `freq / fps` ticks have passed since the
/// last one (the counter difference taken modulo 2^64).
pub open spec fn spec_frame_due(lock: FrameLock, now: u64) -> bool {
    lock.fps == 0 || lock.freq == 0 || vstd::wrapping::u64_specs::wrapping_sub(now, lock.last)
        >= lock.freq / (lock.fps as u64)
}

/// The limiter spaces frames: once a frame passed at `now`, another at the same
/// counter value does not, when the interval `freq / fps` is not 0.
pub proof fn law_frame_lock_spacing(lock: FrameLock, now: u64)
    requires
        lock.fps != 0,
        lock.freq / (lock.fps as u64) > 0,
        spec_frame_due(lock, now),
    ensures
        !spec_frame_due(FrameLock { last: now, ..lock }, now),
{
}

/// One check of `frame_lock_wait`: whether the frame at `now` may pass; when the
/// limiter is on and it may, `now` becomes the last frame's time.
pub fn frame_lock_check(lock: &mut FrameLock, now: u64) -> (r: bool)
    ensures
        r == spec_frame_due(*old(lock), now),
        final(lock).fps == old(lock).fps,
        final(lock).freq == old(lock).freq,
        final(lock).last == if r && old(lock).fps != 0 && old(lock).freq != 0 {
            now
        } else {
            old(lock).last
        },
{
    if lock.fps == 0 || lock.freq == 0 {
        return true;
    }
    let target_interval = lock.freq / (lock.fps as u64);
    if now.wrapping_sub(lock.last) >= target_interval {
        lock.last = now;
        true
    } else {
        false
    }
}

/// `hook_slot`: whether a vtable slot holding `current` gets the detour `detour`,
/// given the function already saved for it (0 when none): only when the slot
/// does not already hold the detour and no function was saved.
pub fn should_hook_slot(current: usize, detour: usize, recorded: usize) -> (r: bool)
    ensures
        r == (current != detour && recorded == 0),
{
    current != detour && recorded == 0
}

/// What `recover_device` does after one test of a lost device.
pub enum RecoveryStep {
    /// Call the reset callbacks, reset the device, and stop.
    Reset,
    /// Stop: the device works again, or cannot be reset.
    Stop,
    /// Wait, then test again.
    Wait,
}

/// The step after a test of the device answered `state` (`None` when there is no
/// test to call, which counts as still lost); `can_reset` tells whether the
/// presentation parameters and the saved `Reset` function are known.
pub fn recovery_step(state: Option<i32>, can_reset: bool) -> (r: RecoveryStep)
    ensures
        match state {
            Some(s) => if s == D3DERR_DEVICENOTRESET {
                if can_reset {
                    r is Reset
                } else {
                    r is Stop
                }
            } else if s == D3D_OK {
                r is Stop
            } else {
                r is Wait
            },
            None => r is Wait,
        },
{
    match state {
        Some(s) => if s == D3DERR_DEVICENOTRESET {
            if can_reset {
                RecoveryStep::Reset
            } else {
                RecoveryStep::Stop
            }
        } else if s == D3D_OK {
            RecoveryStep::Stop
        } else {
            RecoveryStep::Wait
        },
        None => RecoveryStep::Wait,
    }
}

} // verus!
