use rashamon::permission_requests::{
    request_verdict, ClosedPrompt, PermissionRequestKind, PromptQueue, RequestVerdict,
};
use rashamon::permissions::{PermissionDecision, PermissionKind, PermissionStore};

const SITE: &str = "https://example.com";

fn store() -> PermissionStore {
    PermissionStore::new("perms.json".to_string())
}

#[test]
fn request_without_origin_is_refused() {
    let s = store();
    assert_eq!(
        request_verdict(&s, None, PermissionRequestKind::Notification, false),
        RequestVerdict::Deny
    );
}

#[test]
fn request_with_nothing_stored_asks() {
    let s = store();
    assert_eq!(
        request_verdict(&s, Some(SITE), PermissionRequestKind::Geolocation, false),
        RequestVerdict::Ask(PermissionKind::Geolocation)
    );
    assert_eq!(
        request_verdict(&s, Some(SITE), PermissionRequestKind::Notification, true),
        RequestVerdict::Ask(PermissionKind::Notifications)
    );
}

#[test]
fn stored_decisions_answer_single_requests() {
    let mut s = store();
    s.set(SITE, PermissionKind::Notifications, PermissionDecision::Allow, false);
    s.set(SITE, PermissionKind::Geolocation, PermissionDecision::Deny, false);
    assert_eq!(
        request_verdict(&s, Some(SITE), PermissionRequestKind::Notification, false),
        RequestVerdict::Allow
    );
    assert_eq!(
        request_verdict(&s, Some(SITE), PermissionRequestKind::Geolocation, false),
        RequestVerdict::Deny
    );
    // A private context does not see persisted decisions.
    assert_eq!(
        request_verdict(&s, Some(SITE), PermissionRequestKind::Notification, true),
        RequestVerdict::Ask(PermissionKind::Notifications)
    );
}

#[test]
fn unsupported_and_empty_media_requests_are_refused() {
    let s = store();
    assert_eq!(
        request_verdict(&s, Some(SITE), PermissionRequestKind::Unsupported, false),
        RequestVerdict::Deny
    );
    assert_eq!(
        request_verdict(
            &s,
            Some(SITE),
            PermissionRequestKind::UserMedia { video: false, audio: false },
            false
        ),
        RequestVerdict::Deny
    );
}

#[test]
fn media_request_asks_camera_first_then_microphone() {
    let mut s = store();
    let both = PermissionRequestKind::UserMedia { video: true, audio: true };
    assert_eq!(
        request_verdict(&s, Some(SITE), both, false),
        RequestVerdict::Ask(PermissionKind::Camera)
    );
    s.set(SITE, PermissionKind::Camera, PermissionDecision::Allow, false);
    assert_eq!(
        request_verdict(&s, Some(SITE), both, false),
        RequestVerdict::Ask(PermissionKind::Microphone)
    );
    s.set(SITE, PermissionKind::Microphone, PermissionDecision::Allow, false);
    assert_eq!(request_verdict(&s, Some(SITE), both, false), RequestVerdict::Allow);
    s.set(SITE, PermissionKind::Microphone, PermissionDecision::Deny, false);
    assert_eq!(request_verdict(&s, Some(SITE), both, false), RequestVerdict::Deny);
    let video_only = PermissionRequestKind::UserMedia { video: true, audio: false };
    assert_eq!(request_verdict(&s, Some(SITE), video_only, false), RequestVerdict::Allow);
}

#[test]
fn media_request_with_a_denied_camera_still_asks_for_the_microphone() {
    let mut s = store();
    s.set(SITE, PermissionKind::Camera, PermissionDecision::Deny, false);
    let both = PermissionRequestKind::UserMedia { video: true, audio: true };
    assert_eq!(
        request_verdict(&s, Some(SITE), both, false),
        RequestVerdict::Ask(PermissionKind::Microphone)
    );
}

#[test]
fn prompt_ids_start_at_one_and_wrap_past_zero() {
    let mut q = PromptQueue::new();
    assert_eq!(
        q.queue(1, 7, SITE.to_string(), PermissionKind::Camera, false),
        None
    );
    assert_eq!(q.seq, 1);
    assert_eq!(q.pending.as_ref().map(|p| p.id), Some(1));
    q.seq = u64::MAX;
    let replaced = q.queue(2, 3, SITE.to_string(), PermissionKind::Geolocation, false);
    assert_eq!(replaced, Some(ClosedPrompt { tab_id: 1, id: 1, granted: false }));
    assert_eq!(q.seq, 1);
    let p = q.pending.as_ref().unwrap();
    assert_eq!((p.id, p.tab_id, p.nav_id), (1, 2, 3));
    assert_eq!(p.kind, PermissionKind::Geolocation);
}

#[test]
fn resolving_a_remembered_prompt_records_the_answer() {
    let mut q = PromptQueue::new();
    let mut s = store();
    q.queue(4, 9, SITE.to_string(), PermissionKind::Notifications, false);
    let tabs = [(3u64, 1u64), (4, 9)];
    // An answer for another id is ignored.
    assert_eq!(q.resolve(&mut s, &tabs, 2, true, true), None);
    assert!(q.pending.is_some());
    let r = q.resolve(&mut s, &tabs, 1, true, true);
    assert_eq!(r, Some(ClosedPrompt { tab_id: 4, id: 1, granted: true }));
    assert!(q.pending.is_none());
    assert_eq!(
        request_verdict(&s, Some(SITE), PermissionRequestKind::Notification, false),
        RequestVerdict::Allow
    );
    // Nothing is pending any more.
    assert_eq!(q.resolve(&mut s, &tabs, 1, true, true), None);
}

#[test]
fn unremembered_answer_is_not_stored() {
    let mut q = PromptQueue::new();
    let mut s = store();
    q.queue(4, 9, SITE.to_string(), PermissionKind::Geolocation, false);
    let r = q.resolve(&mut s, &[(4, 9)], 1, false, false);
    assert_eq!(r, Some(ClosedPrompt { tab_id: 4, id: 1, granted: false }));
    assert!(s.entries().is_empty());
    assert_eq!(
        request_verdict(&s, Some(SITE), PermissionRequestKind::Geolocation, false),
        RequestVerdict::Ask(PermissionKind::Geolocation)
    );
}

#[test]
fn private_answer_is_kept_for_the_session_only() {
    let mut q = PromptQueue::new();
    let mut s = store();
    q.queue(4, 9, SITE.to_string(), PermissionKind::Camera, true);
    let r = q.resolve(&mut s, &[(4, 9)], 1, true, false);
    assert_eq!(r, Some(ClosedPrompt { tab_id: 4, id: 1, granted: true }));
    assert!(s.entries().is_empty());
    let video = PermissionRequestKind::UserMedia { video: true, audio: false };
    assert_eq!(request_verdict(&s, Some(SITE), video, true), RequestVerdict::Allow);
    assert_eq!(
        request_verdict(&s, Some(SITE), video, false),
        RequestVerdict::Ask(PermissionKind::Camera)
    );
}

#[test]
fn answer_after_navigation_is_refused_and_not_stored() {
    let mut q = PromptQueue::new();
    let mut s = store();
    q.queue(4, 9, SITE.to_string(), PermissionKind::Notifications, false);
    let r = q.resolve(&mut s, &[(4, 10)], 1, true, true);
    assert_eq!(r, Some(ClosedPrompt { tab_id: 4, id: 1, granted: false }));
    assert!(s.entries().is_empty());
    q.queue(5, 1, SITE.to_string(), PermissionKind::Notifications, false);
    // The tab is gone.
    let r = q.resolve(&mut s, &[(4, 10)], 2, true, true);
    assert_eq!(r, Some(ClosedPrompt { tab_id: 5, id: 2, granted: false }));
    assert!(s.entries().is_empty());
}

#[test]
fn closing_a_tab_refuses_its_prompt_only() {
    let mut q = PromptQueue::new();
    q.queue(4, 9, SITE.to_string(), PermissionKind::Notifications, false);
    assert_eq!(q.deny_for_tab(5), None);
    assert!(q.pending.is_some());
    assert_eq!(
        q.deny_for_tab(4),
        Some(ClosedPrompt { tab_id: 4, id: 1, granted: false })
    );
    assert!(q.pending.is_none());
    assert_eq!(q.deny_for_tab(4), None);
}
