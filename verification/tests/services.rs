use chumod_loader::d3d9::{
    recovery_step, set_frame_lock, should_hook_slot, CallbackTable, FrameLock, RecoveryStep,
    D3DERR_DEVICELOST, D3DERR_DEVICENOTRESET, D3D_OK,
};
use chumod_loader::hooks::HookTable;
use chumod_loader::ipc::IpcRegistry;
use chumod_loader::proxy::{
    apply_pending, load, set_frame_lock as proxy_set_frame_lock, Config, FpsState, PendingConfig,
    PresentCallbacks,
};

#[test]
fn service_lookup_returns_last_registration() {
    let mut reg = IpcRegistry::new();
    assert_eq!(reg.get_service(Some("svc")), 0);
    assert_eq!(reg.register_service(Some("svc"), 0x1000), 0);
    assert_eq!(reg.register_service(Some("other"), 0x2000), 0);
    assert_eq!(reg.get_service(Some("svc")), 0x1000);
    assert_eq!(reg.register_service(Some("svc"), 0x3000), 0);
    assert_eq!(reg.get_service(Some("svc")), 0x3000);
    assert_eq!(reg.get_service(Some("other")), 0x2000);
    assert_eq!(reg.register_service(None, 0x4000), -1);
    assert_eq!(reg.get_service(None), 0);
}

#[test]
fn publish_reaches_matching_subscribers_in_order() {
    let mut reg = IpcRegistry::new();
    assert_eq!(reg.subscribe(Some("t"), Some(1)), 0);
    assert_eq!(reg.subscribe(Some("u"), Some(2)), 0);
    assert_eq!(reg.subscribe(Some("t"), Some(3)), 0);
    assert_eq!(reg.subscribe(Some("t"), None), -1);
    assert_eq!(reg.subscribe(None, Some(4)), -1);
    assert_eq!(reg.publish(Some("t")), (0, vec![1, 3]));
    assert_eq!(reg.publish(Some("u")), (0, vec![2]));
    assert_eq!(reg.publish(Some("none")), (0, vec![]));
    assert_eq!(reg.publish(None), (-1, vec![]));
}

#[test]
fn shutdown_forgets_everything() {
    let mut reg = IpcRegistry::new();
    reg.register_service(Some("svc"), 7);
    reg.subscribe(Some("t"), Some(1));
    reg.shutdown();
    assert_eq!(reg.get_service(Some("svc")), 0);
    assert_eq!(reg.publish(Some("t")), (0, vec![]));
}

#[test]
fn hook_table_keeps_one_hook_per_target() {
    let mut hooks = HookTable::new();
    assert_eq!(hooks.insert(0x100, 1), None);
    assert_eq!(hooks.insert(0x200, 2), None);
    assert_eq!(hooks.get(0x100), Some(1));
    assert_eq!(hooks.insert(0x100, 3), Some(1));
    assert_eq!(hooks.get(0x100), Some(3));
    assert_eq!(hooks.remove(0x100), Some(3));
    assert_eq!(hooks.get(0x100), None);
    assert_eq!(hooks.remove(0x100), None);
    let mut rest = hooks.drain();
    rest.sort();
    assert_eq!(rest, vec![2]);
    assert_eq!(hooks.get(0x200), None);
}

#[test]
fn callback_slots_fill_in_order_and_run_in_order() {
    let mut table = CallbackTable::new();
    assert_eq!(table.register(Some(0)), -1);
    for cb in 1..=8usize {
        assert_eq!(table.register(Some(cb * 16)), 0);
    }
    assert_eq!(table.register(Some(999)), -1);
    assert_eq!(table.callbacks(), (1..=8usize).map(|c| c * 16).collect::<Vec<_>>());
}

#[test]
fn null_registration_clears_the_callbacks() {
    let mut table = CallbackTable::new();
    assert_eq!(table.register(None), 0);
    assert_eq!(table.callbacks(), Vec::<usize>::new());
    assert_eq!(table.register(Some(0x10)), 0);
    assert_eq!(table.register(Some(0x20)), 0);
    assert_eq!(table.register(None), 0);
    assert_eq!(table.callbacks(), Vec::<usize>::new());
    assert_eq!(table.register(Some(0x30)), 0);
    assert_eq!(table.callbacks(), vec![0x30]);
}

#[test]
fn frame_limiter_spaces_frames() {
    let mut lock = FrameLock::new(1000);
    assert!(set_frame_lock(&mut lock, 0) == 0);
    assert!(chumod_loader::d3d9::frame_lock_check(&mut lock, 5));
    set_frame_lock(&mut lock, 100);
    assert!(chumod_loader::d3d9::frame_lock_check(&mut lock, 10));
    assert_eq!(lock.last, 10);
    assert!(!chumod_loader::d3d9::frame_lock_check(&mut lock, 15));
    assert_eq!(lock.last, 10);
    assert!(chumod_loader::d3d9::frame_lock_check(&mut lock, 20));
    assert_eq!(lock.last, 20);
}

#[test]
fn hooks_and_recovery_decisions() {
    assert!(should_hook_slot(0x10, 0x20, 0));
    assert!(!should_hook_slot(0x20, 0x20, 0));
    assert!(!should_hook_slot(0x10, 0x20, 0x10));
    assert!(matches!(recovery_step(Some(D3DERR_DEVICENOTRESET), true), RecoveryStep::Reset));
    assert!(matches!(recovery_step(Some(D3DERR_DEVICENOTRESET), false), RecoveryStep::Stop));
    assert!(matches!(recovery_step(Some(D3D_OK), true), RecoveryStep::Stop));
    assert!(matches!(recovery_step(Some(D3DERR_DEVICELOST), true), RecoveryStep::Wait));
    assert!(matches!(recovery_step(None, true), RecoveryStep::Wait));
    assert_eq!(D3DERR_DEVICELOST, 0x8876_0868u32 as i32);
    assert_eq!(D3DERR_DEVICENOTRESET, 0x8876_0869u32 as i32);
}

#[test]
fn proxy_frame_lock_settings() {
    let mut cfg = load();
    assert_eq!(cfg.frame_lock, None);
    let mut pending = PendingConfig::new();
    apply_pending(&pending, &mut cfg);
    assert_eq!(cfg.frame_lock, None);
    let mut device: Option<Config> = None;
    proxy_set_frame_lock(&mut pending, &mut device, 60);
    assert_eq!(pending.frame_lock, Some(60));
    assert!(device.is_none());
    apply_pending(&pending, &mut cfg);
    assert_eq!(cfg.frame_lock, Some(60));
    let mut device = Some(Config::default());
    proxy_set_frame_lock(&mut pending, &mut device, 0);
    assert_eq!(pending.frame_lock, None);
    assert_eq!(device.unwrap().frame_lock, None);
}

#[test]
fn proxy_present_callbacks_cap_at_eight() {
    let mut cbs = PresentCallbacks::new();
    for i in 0..10usize {
        cbs.register(i + 1);
    }
    assert_eq!(cbs.callbacks().clone(), (1..=8usize).collect::<Vec<_>>());
}

#[test]
fn proxy_pacing() {
    let mut fps = FpsState::new(600, 100);
    assert!(fps.frame_lock_check(0, 100));
    assert!(!fps.frame_lock_check(60, 105));
    assert!(fps.frame_lock_check(60, 110));
    assert!(!fps.frame_lock_check(60, 115));
    let mut unknown = FpsState::new(0, 0);
    assert!(unknown.frame_lock_check(60, 1));
}
