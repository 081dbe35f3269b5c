use skilldo::webdav::{
    download_outcome, guard_header, guarded_upload_outcome, upload_guard, upload_stored, Download,
    GuardedUpload, UploadGuard,
};
use skilldo::sync::{get_or_create_setting, plan_tag_names};
use skilldo::settings::Settings;
use skilldo::tool_sync::{classify_sync_failure, cleanup_report, plan_tool_sync, plan_unsync, SyncStep};

#[test]
fn failure_messages_get_interface_codes() {
    assert_eq!(
        classify_sync_failure("sync failed: target already exists", "/t/x", "Cursor", "/t"),
        "TARGET_EXISTS|/t/x"
    );
    assert_eq!(
        classify_sync_failure("Access is denied. (os error 5)", "/t/x", "Cursor", "/t"),
        "TOOL_NOT_WRITABLE|Cursor|/t"
    );
    assert_eq!(
        classify_sync_failure("Permission denied", "/t/x", "custom:/t", "/t"),
        "TOOL_NOT_WRITABLE|custom:/t|/t"
    );
    assert_eq!(classify_sync_failure("disk full", "/t/x", "Cursor", "/t"), "disk full");
}

#[test]
fn existing_placement_is_reused_only_when_still_present() {
    assert_eq!(plan_tool_sync(Some("/t/x"), "/t/x", true, None, None, false), SyncStep::Reuse);
    assert_eq!(
        plan_tool_sync(Some("/t/x"), "/t/x", false, None, None, false),
        SyncStep::Write { replace: false }
    );
    assert_eq!(
        plan_tool_sync(Some("/old/x"), "/t/x", true, None, None, false),
        SyncStep::Refuse("TARGET_EXISTS|/t/x".to_string())
    );
}

#[test]
fn target_in_the_way_is_replaced_only_when_asked() {
    assert_eq!(plan_tool_sync(None, "/t/x", false, None, None, false), SyncStep::Write { replace: false });
    assert_eq!(
        plan_tool_sync(None, "/t/x", true, Some(false), Some(true), false),
        SyncStep::Refuse("TARGET_EXISTS|/t/x".to_string())
    );
    assert_eq!(
        plan_tool_sync(None, "/t/x", true, None, Some(true), true),
        SyncStep::Write { replace: true }
    );
    assert_eq!(plan_tool_sync(None, "/t/x", true, Some(true), None, false), SyncStep::Write { replace: true });
}

#[test]
fn unsync_removes_the_shared_target_once() {
    let found = vec![None, Some("/t/a".to_string()), Some("/t/b".to_string()), None];
    let plan = plan_unsync(&found);
    assert_eq!(plan.remove_path.as_deref(), Some("/t/a"));
    assert_eq!(plan.delete, vec![1, 2]);
    let plan = plan_unsync(&vec![None, None]);
    assert_eq!(plan.remove_path, None);
    assert!(plan.delete.is_empty());
}

#[test]
fn profile_tags_reuse_known_tags_case_insensitively() {
    let known = vec!["Frontend".to_string(), "infra".to_string()];
    let names = vec![
        " frontend ".to_string(),
        "New".to_string(),
        "   ".to_string(),
        "new ".to_string(),
        "INFRA".to_string(),
    ];
    assert_eq!(
        plan_tag_names(&known, &names),
        vec!["Frontend".to_string(), "New".to_string(), "New".to_string(), "infra".to_string()]
    );
    assert!(plan_tag_names(&known, &Vec::new()).is_empty());
}

#[test]
fn profile_upload_is_guarded_by_the_tag_last_read() {
    assert_eq!(upload_guard(Some("\"abc\"")), UploadGuard::IfMatch("\"abc\"".to_string()));
    assert_eq!(upload_guard(None), UploadGuard::IfAbsent);
    let (name, value) = guard_header(&upload_guard(Some("W/\"7\"")));
    assert_eq!((name, value.as_str()), ("If-Match", "W/\"7\""));
    let (name, value) = guard_header(&UploadGuard::IfAbsent);
    assert_eq!((name, value.as_str()), ("If-None-Match", "*"));
}

#[test]
fn webdav_replies_are_read_by_status() {
    assert_eq!(guarded_upload_outcome(201), GuardedUpload::Stored);
    assert_eq!(guarded_upload_outcome(204), GuardedUpload::Stored);
    assert_eq!(guarded_upload_outcome(412), GuardedUpload::Stale);
    assert_eq!(guarded_upload_outcome(409), GuardedUpload::Failed);
    assert!(upload_stored(200));
    assert!(!upload_stored(412));
    assert_eq!(download_outcome(200), Download::Found);
    assert_eq!(download_outcome(404), Download::Missing);
    assert_eq!(download_outcome(500), Download::Failed);
}

#[test]
fn cleanup_failures_are_reported_one_per_line() {
    assert_eq!(cleanup_report(&Vec::new()), None);
    let failures = vec!["/t/a: denied".to_string(), "/t/b: busy".to_string()];
    assert_eq!(
        cleanup_report(&failures).as_deref(),
        Some("已删除托管记录，但清理部分工具目录失败：\n- /t/a: denied\n- /t/b: busy")
    );
}

#[test]
fn device_ids_are_created_once_and_kept() {
    let mut table = Settings::new();
    table.set("other", "x");
    table.set("device", "   ");
    let made = get_or_create_setting(&mut table, "device");
    assert_eq!(made.len(), 36);
    for (i, c) in made.chars().enumerate() {
        if [8, 13, 18, 23].contains(&i) {
            assert_eq!(c, '-');
        } else {
            assert!(c.is_ascii_digit() || ('a'..='f').contains(&c));
        }
    }
    assert_eq!(table.get("device").as_deref(), Some(made.as_str()));
    assert_eq!(table.get("other").as_deref(), Some("x"));
    let again = get_or_create_setting(&mut table, "device");
    assert_eq!(again, made);
}
