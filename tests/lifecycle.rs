use file_monitor::lifecycle::{
    failed_detaches, AttachStep, AttachmentSet, PipelineError, ProgramHandle, ProgramInfo, Stage,
};

fn info(hooks: &[&str], maps: &[&str]) -> ProgramInfo {
    ProgramInfo {
        hooks: hooks.iter().map(|s| s.to_string()).collect(),
        maps: maps.iter().map(|s| s.to_string()).collect(),
    }
}

fn loaded(hooks: &[&str]) -> ProgramHandle {
    let mut h = ProgramHandle::new();
    h.on_open(Some(info(hooks, &["events"]))).unwrap();
    h.on_load(true).unwrap();
    h
}

#[test]
fn full_setup_reaches_attached() {
    let mut h = ProgramHandle::new();
    assert_eq!(h.stage(), Stage::Unopened);
    h.on_open(Some(info(&["a", "b", "c"], &["events"]))).unwrap();
    assert_eq!(h.stage(), Stage::Opened);
    assert_eq!(h.hook_count(), 3);
    h.on_load(true).unwrap();
    assert_eq!(h.stage(), Stage::Loaded);
    assert!(matches!(h.begin_attach(), AttachStep::Next(0)));
    assert!(matches!(h.on_hook(Some(10)), AttachStep::Next(1)));
    assert!(matches!(h.on_hook(Some(11)), AttachStep::Next(2)));
    assert!(matches!(h.on_hook(Some(12)), AttachStep::Attached));
    assert_eq!(h.stage(), Stage::Attached);
    assert_eq!(h.live_attachments(), 3);
}

#[test]
fn open_failure_is_load_error() {
    let mut h = ProgramHandle::new();
    assert_eq!(h.on_open(None), Err(PipelineError::Load));
    assert_eq!(h.stage(), Stage::Unopened);
}

#[test]
fn load_failure_is_verification_error() {
    let mut h = ProgramHandle::new();
    h.on_open(Some(info(&["a"], &[]))).unwrap();
    assert_eq!(h.on_load(false), Err(PipelineError::Verification));
    assert_eq!(h.stage(), Stage::Opened);
}

#[test]
fn second_of_three_hooks_fails_rolls_back() {
    let mut h = loaded(&["a", "b", "c"]);
    assert!(matches!(h.begin_attach(), AttachStep::Next(0)));
    assert!(matches!(h.on_hook(Some(10)), AttachStep::Next(1)));
    match h.on_hook(None) {
        AttachStep::Failed { hook, rollback } => {
            assert_eq!(hook, 1);
            assert_eq!(rollback, vec![10]);
        }
        other => panic!("unexpected {:?}", other),
    }
    assert_eq!(h.live_attachments(), 0);
    assert_eq!(h.stage(), Stage::Loaded);
}

#[test]
fn last_hook_fails_rolls_back_newest_first() {
    let mut h = loaded(&["a", "b", "c"]);
    h.begin_attach();
    h.on_hook(Some(10));
    h.on_hook(Some(11));
    match h.on_hook(None) {
        AttachStep::Failed { hook, rollback } => {
            assert_eq!(hook, 2);
            assert_eq!(rollback, vec![11, 10]);
        }
        other => panic!("unexpected {:?}", other),
    }
    assert_eq!(h.live_attachments(), 0);
}

#[test]
fn no_hooks_attached_at_once() {
    let mut h = loaded(&[]);
    assert!(matches!(h.begin_attach(), AttachStep::Attached));
    assert_eq!(h.stage(), Stage::Attached);
    assert_eq!(h.teardown(), Vec::<u64>::new());
    assert_eq!(h.stage(), Stage::Detached);
}

#[test]
fn teardown_detaches_all_and_unloads() {
    let mut h = loaded(&["a", "b", "c"]);
    h.begin_attach();
    h.on_hook(Some(1));
    h.on_hook(Some(2));
    h.on_hook(Some(3));
    assert_eq!(h.teardown(), vec![3, 2, 1]);
    assert_eq!(h.live_attachments(), 0);
    assert_eq!(h.stage(), Stage::Detached);
}

#[test]
fn teardown_before_attach() {
    let mut h = ProgramHandle::new();
    h.on_open(Some(info(&["a"], &[]))).unwrap();
    assert_eq!(h.teardown(), Vec::<u64>::new());
    assert_eq!(h.stage(), Stage::Detached);
}

#[test]
fn map_lookup() {
    let mut h = ProgramHandle::new();
    h.on_open(Some(info(&["a"], &["counts", "events"]))).unwrap();
    h.on_load(true).unwrap();
    assert_eq!(h.map_index("events"), Some(1));
    assert_eq!(h.map_index("counts"), Some(0));
    assert_eq!(h.map_index("missing"), None);
}

#[test]
fn attachment_set_order() {
    let mut s = AttachmentSet::new();
    s.add(5);
    s.add(6);
    s.add(7);
    assert_eq!(s.len(), 3);
    assert_eq!(s.teardown_all(), vec![7, 6, 5]);
    assert_eq!(s.len(), 0);
}

#[test]
fn detach_failures_collected() {
    let links = vec![3, 2, 1];
    assert_eq!(failed_detaches(&links, &vec![true, false, false]), vec![2, 1]);
    assert_eq!(failed_detaches(&links, &vec![true, true, true]), Vec::<u64>::new());
    assert_eq!(failed_detaches(&vec![], &vec![]), Vec::<u64>::new());
}
