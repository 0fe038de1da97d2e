use codex_sessions::interrupt::{choose_group, clear, interrupt, record_child, LocalExecRuntime, ProcessHandle};

#[test]
fn interrupt_signals_the_negated_group_once() {
    let mut rt = LocalExecRuntime::new(true);
    record_child(&mut rt, Some(4242), 4240);
    assert_eq!(interrupt(&mut rt), Some(-4240));
    assert_eq!(interrupt(&mut rt), None);
}

#[test]
fn failed_group_lookup_falls_back_to_the_pid() {
    assert_eq!(choose_group(77, -1), Some(77));
    assert_eq!(choose_group(0, -1), None);
    assert_eq!(choose_group(u32::MAX, -1), None);
    let mut rt = LocalExecRuntime::new(true);
    record_child(&mut rt, Some(77), -1);
    assert_eq!(interrupt(&mut rt), Some(-77));
}

#[test]
fn a_new_child_supersedes_the_old_one() {
    let mut rt = LocalExecRuntime::new(true);
    record_child(&mut rt, Some(10), 10);
    record_child(&mut rt, Some(20), 20);
    assert_eq!(interrupt(&mut rt), Some(-20));
}

#[test]
fn clear_leaves_nothing_to_interrupt() {
    let mut rt = LocalExecRuntime::new(true);
    record_child(&mut rt, Some(10), 10);
    clear(&mut rt);
    assert_eq!(interrupt(&mut rt), None);
}

#[test]
fn flag_runtime_tracks_liveness_only() {
    let mut rt = LocalExecRuntime::new(false);
    record_child(&mut rt, None, -1);
    assert_eq!(rt.handle, ProcessHandle::Flag { running: true });
    assert_eq!(interrupt(&mut rt), None);
    assert_eq!(rt.handle, ProcessHandle::Flag { running: false });
}
