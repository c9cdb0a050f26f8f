use chumod_loader::lifecycle::{load_step, unload_step, LifecycleAction, LoadRun, UnloadRun};
use LifecycleAction::{CallInit, CallOnReady, Done, Free, Keep, Shutdown};

fn same(a: &LifecycleAction, b: &LifecycleAction) -> bool {
    match (a, b) {
        (CallInit(x), CallInit(y)) | (Free(x), Free(y)) | (Keep(x), Keep(y)) => x == y,
        (CallOnReady(x), CallOnReady(y)) | (Shutdown(x), Shutdown(y)) => x == y,
        (Done, Done) => true,
        _ => false,
    }
}

fn step(run: &mut LoadRun, result: Option<Option<i32>>, expected: LifecycleAction) {
    let got = load_step(run, result);
    assert!(same(&got, &expected));
}

#[test]
fn failed_init_is_freed_and_ready_comes_after_every_init() {
    // mod 0: init returns 0, has on_ready; mod 1: init returns 3; mod 2: no init, on_ready;
    // mod 3: init panics.
    let mut run = LoadRun::new(vec![true, true, false, true], vec![true, true, true, false]);
    step(&mut run, None, CallInit(0));
    step(&mut run, Some(Some(0)), Keep(0));
    step(&mut run, None, CallInit(1));
    step(&mut run, Some(Some(3)), Free(1));
    step(&mut run, None, Keep(2));
    step(&mut run, None, CallInit(3));
    step(&mut run, Some(None), Free(3));
    step(&mut run, None, CallOnReady(0));
    step(&mut run, None, CallOnReady(2));
    step(&mut run, None, Done);
    step(&mut run, None, Done);
}

#[test]
fn empty_load_run_is_done() {
    let mut run = LoadRun::new(vec![], vec![]);
    step(&mut run, None, Done);
}

#[test]
fn unload_shuts_down_before_freeing_in_reverse_order() {
    let mut run = UnloadRun::new(vec![true, false, true]);
    let expected = [Shutdown(2), Free(2), Free(1), Shutdown(0), Free(0), Done, Done];
    for e in expected.iter() {
        assert!(same(&unload_step(&mut run), e));
    }
}
