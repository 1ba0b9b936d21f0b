use rashamon::core_driver::{
    animate_dirty, apply_buffered, begin_frame, fetch_to_spawn, receive_fetch, runtime_step,
    startup_action, BrowserAction, FetchOutcome, FetchPoll, FetchSlot, SaveDirty,
};
use rashamon::ui_state::{BrowserState, PageState};

fn args(a: &[&str]) -> Vec<String> {
    a.iter().map(|s| s.to_string()).collect()
}

fn empty_slot() -> FetchSlot {
    FetchSlot { pending: None, buffered: None }
}

fn loading_state() -> BrowserState {
    let mut s = BrowserState::new();
    let _ = s.begin_navigate("https://example.com");
    s
}

#[test]
fn startup_joins_the_words_without_test_flags() {
    assert_eq!(startup_action(&args(&[])), None);
    assert_eq!(startup_action(&args(&["--smoke-test", "  "])), None);
    assert_eq!(
        startup_action(&args(&["example.com"])),
        Some(BrowserAction::Navigate("example.com".to_string()))
    );
    assert_eq!(
        startup_action(&args(&["rust", "--smoke-test-find", "verus "])),
        Some(BrowserAction::Navigate("rust verus".to_string()))
    );
    assert_eq!(
        startup_action(&args(&["  hello", "--smoke-test"])),
        Some(BrowserAction::Navigate("hello".to_string()))
    );
}

#[test]
fn frames_advance() {
    let mut s = BrowserState::new();
    begin_frame(&mut s);
    begin_frame(&mut s);
    assert_eq!(s.frame_count, 2);
}

#[test]
fn a_loading_tab_gets_one_fetch() {
    let s = loading_state();
    let mut slot = empty_slot();
    let id = s.active_tab().unwrap().id;
    assert_eq!(fetch_to_spawn(&s, &mut slot, true), None);
    assert_eq!(
        fetch_to_spawn(&s, &mut slot, false),
        Some((id, "https://example.com".to_string()))
    );
    assert_eq!(slot.pending, Some(id));
    assert_eq!(fetch_to_spawn(&s, &mut slot, false), None);
    let idle = BrowserState::new();
    let mut slot2 = empty_slot();
    assert_eq!(fetch_to_spawn(&idle, &mut slot2, false), None);
}

#[test]
fn result_waits_for_the_minimum_loading_time() {
    let mut s = loading_state();
    let id = s.active_tab().unwrap().id;
    let start = s.active_tab().unwrap().load_start_frame;
    let mut slot = FetchSlot { pending: Some(id), buffered: None };
    let mut save = SaveDirty::default();
    receive_fetch(&mut s, &mut slot, FetchPoll::Arrived(FetchOutcome::Success { title: "Ex".to_string() }));
    assert_eq!(slot.pending, None);
    assert!(slot.buffered.is_some());
    s.frame_count = start + 59;
    apply_buffered(&mut s, &mut slot, &mut save);
    assert!(s.active_tab().unwrap().page_state.is_loading());
    s.frame_count = start + 60;
    apply_buffered(&mut s, &mut slot, &mut save);
    assert_eq!(s.active_tab().unwrap().page_state, PageState::Loaded);
    assert_eq!(s.active_tab().unwrap().title, "Ex");
    assert!(slot.buffered.is_none());
    assert!(save.history);
}

#[test]
fn a_failed_fetch_shows_its_reason() {
    let mut s = loading_state();
    let id = s.active_tab().unwrap().id;
    let mut slot = FetchSlot { pending: None, buffered: Some((id, FetchOutcome::Failure("nope".to_string()))) };
    let mut save = SaveDirty::default();
    s.frame_count = s.active_tab().unwrap().load_start_frame + 100;
    apply_buffered(&mut s, &mut slot, &mut save);
    assert_eq!(s.active_tab().unwrap().page_state, PageState::Error("nope".to_string()));
    assert!(!save.history);
}

#[test]
fn a_lost_fetcher_fails_the_load() {
    let mut s = loading_state();
    let id = s.active_tab().unwrap().id;
    let mut slot = FetchSlot { pending: Some(id), buffered: None };
    receive_fetch(&mut s, &mut slot, FetchPoll::Waiting);
    assert_eq!(slot.pending, Some(id));
    receive_fetch(&mut s, &mut slot, FetchPoll::Lost);
    assert_eq!(slot.pending, None);
    assert_eq!(s.active_tab().unwrap().page_state, PageState::Error("Connection lost".to_string()));
}

#[test]
fn loading_repaints_everything_and_the_caret_blinks() {
    let mut s = loading_state();
    s.dirty.clear();
    let mut blink = 0u64;
    animate_dirty(&mut s, &mut blink);
    assert!(s.dirty.tabs && s.dirty.chrome && s.dirty.content);

    let mut s = BrowserState::new();
    s.focus_address_bar();
    s.dirty.clear();
    s.frame_count = 27;
    let mut blink = 0u64;
    animate_dirty(&mut s, &mut blink);
    assert!(!s.dirty.chrome);
    s.frame_count = 28;
    animate_dirty(&mut s, &mut blink);
    assert_eq!(blink, 1);
    assert!(s.dirty.chrome);
}

#[test]
fn runtime_step_runs_a_frame() {
    let mut s = loading_state();
    let id = s.active_tab().unwrap().id;
    let start = s.active_tab().unwrap().load_start_frame;
    s.frame_count = start + 61;
    let mut slot = FetchSlot { pending: Some(id), buffered: None };
    let mut save = SaveDirty::default();
    let mut blink = 0u64;
    runtime_step(
        &mut s,
        &mut slot,
        &mut save,
        FetchPoll::Arrived(FetchOutcome::Success { title: "".to_string() }),
        false,
        &mut blink,
    );
    assert_eq!(s.active_tab().unwrap().page_state, PageState::Loaded);
    assert!(save.history);
}
