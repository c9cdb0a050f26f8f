//! The `d3d9.dll` proxy: its device configuration, the frame lock that mods set
//! through it, its present-callback slots, and its frame pacing.
use vstd::prelude::*;

verus! {

/// The configuration of a wrapped device.
pub struct Config {
    pub frame_lock: Option<u32>,
}

impl Default for Config {
    fn default() -> (r: Config)
        ensures
            r.frame_lock is None,
    {
        Config { frame_lock: None }
    }
}

/// `load`: the configuration a new device starts with (no frame lock).
pub fn load() -> (r: Config)
    ensures
        r.frame_lock is None,
{
    Config { frame_lock: None }
}

/// A frame lock requested before a device existed.
pub struct PendingConfig {
    pub frame_lock: Option<u32>,
}

impl PendingConfig {
    /// Nothing requested.
    pub fn new() -> (r: PendingConfig)
        ensures
            r.frame_lock is None,
    {
        PendingConfig { frame_lock: None }
    }
}

/// `apply_pending`: a requested frame lock, if any, overrides the device's.
pub fn apply_pending(pending: &PendingConfig, config: &mut Config)
    ensures
        final(config).frame_lock == match pending.frame_lock {
            Some(fps) => Some(fps),
            None => old(config).frame_lock,
        },
{
    if let Some(fps) = pending.frame_lock {
        config.frame_lock = Some(fps);
    }
}

/// The frame lock that a rate of `fps` asks for: none for 0.
pub open spec fn lock_for(fps: u32) -> Option<u32> {
    if fps > 0 {
        Some(fps)
    } else {
        None
    }
}

/// `api_set_frame_lock`: records the rate as pending and applies it to the
/// device's configuration when there is a device.
pub fn set_frame_lock(pending: &mut PendingConfig, device_config: &mut Option<Config>, fps: u32)
    ensures
        final(pending).frame_lock == lock_for(fps),
        match *old(device_config) {
            Some(_) => final(device_config).is_some() && final(device_config).unwrap().frame_lock
                == lock_for(fps),
            None => final(device_config).is_none(),
        },
{
    let lock = if fps > 0 {
        Some(fps)
    } else {
        None
    };
    pending.frame_lock = lock;
    if device_config.is_some() {
        *device_config = Some(Config { frame_lock: lock });
    }
}

/// The proxy's present callbacks: filled slots come first, in registration order.
pub struct PresentCallbacks {
    slots: Vec<usize>,
}

impl PresentCallbacks {
    pub closed spec fn view(&self) -> Seq<usize> {
        self.slots@
    }

    /// No callbacks.
    pub fn new() -> (r: PresentCallbacks)
        ensures
            r.view() == Seq::<usize>::empty(),
    {
        PresentCallbacks { slots: Vec::new() }
    }

    /// `api_register_present_callback`: adds `cb` when fewer than 8 are
    /// registered; otherwise it is dropped.
    pub fn register(&mut self, cb: usize)
        ensures
            final(self).view() == if old(self).view().len() < 8 {
                old(self).view().push(cb)
            } else {
                old(self).view()
            },
    {
        if self.slots.len() < 8 {
            self.slots.push(cb);
        }
    }

    /// `run_present_callbacks`: the callbacks to call, in registration order.
    pub fn callbacks(&self) -> (r: &Vec<usize>)
        ensures
            r@ == self.view(),
    {
        &self.slots
    }
}

/// Frame pacing for the wrapped device: the counter value of the last frame let
/// through and the counter frequency.
pub struct FpsState {
    last_frame_time: u64,
    freq: u64,
}

impl FpsState {
    pub closed spec fn last_frame_time(&self) -> u64 {
        self.last_frame_time
    }

    pub closed spec fn freq(&self) -> u64 {
        self.freq
    }

    /// `FpsState::new`: pacing that starts at counter value `now` with counter
    /// frequency `freq` (both as the performance counter reports them).
    pub fn new(freq: u64, now: u64) -> (r: FpsState)
        ensures
            r.last_frame_time() == now,
            r.freq() == freq,
    {
        FpsState { last_frame_time: now, freq }
    }

    /// The counter value of the last frame let through.
    pub fn last_frame(&self) -> (r: u64)
        ensures
            r == self.last_frame_time(),
    {
        self.last_frame_time
    }

    /// One check of `FpsState::frame_lock`: whether a frame at counter value `now`
    /// may pass at `target_fps` (always, when the rate or the frequency is 0); when
    /// it passes by the clock, `now` becomes the last frame's time.
    pub fn frame_lock_check(&mut self, target_fps: u32, now: u64) -> (r: bool)
        requires
            now >= old(self).last_frame_time(),
        ensures
            final(self).freq() == old(self).freq(),
            target_fps == 0 || old(self).freq() == 0 ==> r && final(self).last_frame_time()
                == old(self).last_frame_time(),
            target_fps != 0 && old(self).freq() != 0 ==> {
                &&& r == (now - old(self).last_frame_time() >= old(self).freq() / (
                target_fps as u64))
                &&& final(self).last_frame_time() == if r {
                    now
                } else {
                    old(self).last_frame_time()
                }
            },
    {
        if target_fps == 0 || self.freq == 0 {
            return true;
        }
        let target_interval = self.freq / (target_fps as u64);
        if now - self.last_frame_time >= target_interval {
            self.last_frame_time = now;
            true
        } else {
            false
        }
    }
}

} // verus!
