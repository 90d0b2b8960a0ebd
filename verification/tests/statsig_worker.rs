use codex_switch::json::{parse_json, Json};
use codex_switch::paths::Location;
use codex_switch::statsig_sync::CodexDesktopCachePinPolicy;
use codex_switch::statsig_worker::{
    apply_worker_update, codex_config_has_external_model_catalog_pointer,
    codex_desktop_available_models_cache_ids_after_restored_catalog_reload,
    codex_desktop_cache_error_is_locked, codex_desktop_cache_worker_next_delay,
    codex_desktop_leveldb_candidate_is_active_layout_for_platform,
    codex_desktop_leveldb_candidates_for_root, codex_desktop_linux_config_root,
    codex_desktop_windows_leveldb_candidates, delay_after_sync, distinct_paths, retry_outcome,
    sync_codex_desktop_available_models_cache_after_live_restore,
    sync_codex_desktop_available_models_cache_after_provider_write,
    sync_codex_desktop_available_models_cache_candidates_with_mode,
    sync_codex_desktop_available_models_cache_from_settings, task_after_retry,
    worker_update_after_sync, CacheSync, CodexDesktopCachePathSyncResult,
    CodexDesktopCacheRetryOutcome, CodexDesktopCacheSyncResult, CodexDesktopCacheWorkerTask,
    CodexDesktopCacheWorkerUpdate, PathOutcome,
};

fn json(text: &str) -> Json {
    parse_json(text).expect("JSON text")
}

fn texts(list: &[&str]) -> Vec<String> {
    list.iter().map(|text| text.to_string()).collect()
}

fn shown(location: &Location) -> String {
    let mut parts = vec![location.base.clone()];
    parts.extend(location.below.iter().cloned());
    parts.join("/")
}

fn path_result(updated: usize, ready: bool, retry: bool) -> CodexDesktopCachePathSyncResult {
    CodexDesktopCachePathSyncResult {
        updated_count: updated,
        ready_model_cache: ready,
        requires_short_retry: retry,
    }
}

fn outcome(
    active_layout: bool,
    result: Result<CodexDesktopCachePathSyncResult, &str>,
) -> PathOutcome {
    PathOutcome {
        active_layout,
        result: result.map_err(str::to_string),
    }
}

#[test]
fn storages_of_today_decide_whether_to_look_again() {
    let sync = sync_codex_desktop_available_models_cache_candidates_with_mode;
    assert_eq!(
        sync(
            &vec![
                outcome(true, Ok(path_result(2, true, false))),
                outcome(false, Ok(path_result(1, true, false))),
            ],
            false,
        ),
        Ok(CodexDesktopCacheSyncResult {
            updated_count: 3,
            needs_discovery: false
        })
    );
    assert_eq!(
        sync(&vec![outcome(false, Ok(path_result(1, true, false)))], false),
        Ok(CodexDesktopCacheSyncResult {
            updated_count: 1,
            needs_discovery: true
        })
    );
    assert_eq!(
        sync(&vec![outcome(true, Ok(path_result(0, true, true)))], false),
        Ok(CodexDesktopCacheSyncResult {
            updated_count: 0,
            needs_discovery: true
        })
    );
    assert!(sync(&vec![outcome(true, Err("broken"))], false).is_err());
}

#[test]
fn delays_double_up_to_half_a_minute() {
    let failed = CodexDesktopCacheRetryOutcome::Failed("e".to_string());
    let mut retry: u64 = 1;
    let mut delays = Vec::new();
    for _ in 0..7 {
        delays.push(codex_desktop_cache_worker_next_delay(&failed, true, &mut retry).unwrap());
    }
    assert_eq!(delays, [1, 2, 4, 8, 16, 30, 30]);
    assert_eq!(
        codex_desktop_cache_worker_next_delay(
            &CodexDesktopCacheRetryOutcome::Synced(1),
            true,
            &mut retry
        ),
        Some(604_800)
    );
    assert_eq!(retry, 1);
    assert_eq!(
        codex_desktop_cache_worker_next_delay(
            &CodexDesktopCacheRetryOutcome::Synced(1),
            false,
            &mut retry
        ),
        None
    );
    assert_eq!(
        codex_desktop_cache_worker_next_delay(
            &CodexDesktopCacheRetryOutcome::Superseded,
            true,
            &mut retry
        ),
        None
    );
}

fn task(generation: u64, retry_delay_secs: u64) -> CodexDesktopCacheWorkerTask {
    CodexDesktopCacheWorkerTask {
        generation,
        model_ids: texts(&["a"]),
        pin_policy: CodexDesktopCachePinPolicy::Reconcile,
        next_delay: 9,
        retry_delay_secs,
    }
}

#[test]
fn the_worker_ignores_what_is_out_of_date() {
    let stale = CodexDesktopCacheWorkerUpdate::Cancel { generation: 1 };
    assert!(apply_worker_update(Some(task(2, 1)), stale, 2).is_some());
    let cancel = CodexDesktopCacheWorkerUpdate::Cancel { generation: 2 };
    assert!(apply_worker_update(Some(task(2, 1)), cancel, 2).is_none());
    let schedule = worker_update_after_sync(
        2,
        texts(&["b"]),
        CodexDesktopCachePinPolicy::Preserve,
        Some(7),
    );
    let scheduled = apply_worker_update(Some(task(1, 16)), schedule, 2).expect("a task");
    assert_eq!(scheduled.generation, 2);
    assert_eq!(scheduled.model_ids, texts(&["b"]));
    assert_eq!(scheduled.pin_policy, CodexDesktopCachePinPolicy::Preserve);
    assert_eq!(scheduled.next_delay, 7);
    assert_eq!(scheduled.retry_delay_secs, 1);
    let stale = worker_update_after_sync(
        1,
        Vec::new(),
        CodexDesktopCachePinPolicy::Reconcile,
        Some(7),
    );
    assert!(apply_worker_update(None, stale, 2).is_none());
    assert!(matches!(
        worker_update_after_sync(3, Vec::new(), CodexDesktopCachePinPolicy::Reconcile, None),
        CodexDesktopCacheWorkerUpdate::Cancel { generation: 3 }
    ));
}

#[test]
fn a_task_goes_on_until_it_is_done_or_out_of_date() {
    let result = Ok(CodexDesktopCacheSyncResult {
        updated_count: 4,
        needs_discovery: true,
    });
    let outcome = retry_outcome(5, 5, result.clone());
    assert!(matches!(
        outcome,
        CodexDesktopCacheRetryOutcome::Discovering(4)
    ));
    let next = task_after_retry(task(5, 4), &outcome).expect("a task");
    assert_eq!(next.next_delay, 4);
    assert_eq!(next.retry_delay_secs, 8);
    let outcome = retry_outcome(6, 5, result);
    assert!(matches!(outcome, CodexDesktopCacheRetryOutcome::Superseded));
    assert!(task_after_retry(task(5, 4), &outcome).is_none());
    assert!(matches!(
        retry_outcome(5, 5, Err("e".to_string())),
        CodexDesktopCacheRetryOutcome::Failed(_)
    ));
}

#[test]
fn what_follows_a_sync_depends_on_its_result() {
    let result = |needs_discovery: bool| {
        Ok(CodexDesktopCacheSyncResult {
            updated_count: 0,
            needs_discovery,
        })
    };
    assert_eq!(delay_after_sync(&result(true), true), Some(1));
    assert_eq!(delay_after_sync(&result(false), true), None);
    assert_eq!(delay_after_sync(&result(false), false), Some(604_800));
    assert_eq!(delay_after_sync(&Err("e".to_string()), true), Some(1));
    assert!(codex_desktop_cache_error_is_locked(
        "Codex Desktop localStorage LevelDB is locked: y"
    ));
    assert!(!codex_desktop_cache_error_is_locked("broken"));
}

#[test]
fn storages_lie_below_the_root_of_the_application() {
    let found = codex_desktop_leveldb_candidates_for_root(&Location::at("/root"));
    assert_eq!(
        found.iter().map(shown).collect::<Vec<String>>(),
        texts(&[
            "/root/Local Storage/leveldb",
            "/root/Default/Local Storage/leveldb",
            "/root/Partitions/codex-browser-app/Local Storage/leveldb",
            "/root/Default/Partitions/codex-browser-app/Local Storage/leveldb",
        ])
    );
    assert_eq!(
        shown(&codex_desktop_linux_config_root(Some("/xdg"), "/home/me")),
        "/xdg/Codex"
    );
    assert_eq!(
        shown(&codex_desktop_linux_config_root(Some(""), "/home/me")),
        "/home/me/.config/Codex"
    );
    assert_eq!(
        shown(&codex_desktop_linux_config_root(None, "/home/me")),
        "/home/me/.config/Codex"
    );
    let windows = codex_desktop_windows_leveldb_candidates(
        &Location::at("A"),
        &Location::at("L"),
        &texts(&["OpenAI.Codex_1", "Other"]),
    );
    assert!(windows
        .iter()
        .any(|location| shown(location).starts_with("L/Packages/OpenAI.Codex_1/LocalCache/Roaming/Codex/")));
    assert!(!windows.iter().any(|location| shown(location).contains("Other")));
    assert_eq!(distinct_paths(&texts(&["a", "b", "a"])), texts(&["a", "b"]));
}

#[test]
fn storages_of_today_are_told_by_their_path() {
    let active = codex_desktop_leveldb_candidate_is_active_layout_for_platform;
    assert!(active(&texts(&["Codex", "partitions", "x", "leveldb"]), false));
    assert!(active(&texts(&["Codex", "WEB", "codex", "leveldb"]), false));
    assert!(!active(&texts(&["Codex", "Local Storage", "leveldb"]), false));
    assert!(active(&texts(&["Codex", "Local Storage", "leveldb"]), true));
}

fn listed(sync: CacheSync) -> Vec<String> {
    match sync {
        CacheSync::List(ids) => ids,
        other => panic!("{other:?}"),
    }
}

#[test]
fn a_catalog_of_the_users_own_gets_no_models() {
    let settings = json("{}");
    let own = "model_catalog_json = \"mine.json\"\n";
    assert!(codex_config_has_external_model_catalog_pointer(own, false));
    assert!(!codex_config_has_external_model_catalog_pointer(own, true));
    assert!(!codex_config_has_external_model_catalog_pointer("", false));
    assert!(!codex_config_has_external_model_catalog_pointer("[broken", false));
    assert!(matches!(
        sync_codex_desktop_available_models_cache_after_provider_write(&settings, Some(own), false),
        CacheSync::RemoveOwned
    ));
    let listing = json(r#"{ "modelCatalog": { "models": [{ "model": "a" }] } }"#);
    assert_eq!(
        listed(sync_codex_desktop_available_models_cache_after_provider_write(
            &listing,
            Some(own),
            false
        )),
        texts(&["a"])
    );
    assert_eq!(
        listed(sync_codex_desktop_available_models_cache_from_settings(&listing)),
        texts(&["a"])
    );
}

#[test]
fn models_are_listed_again_after_a_restore() {
    let mut settings = json("{}");
    settings.insert(
        "config",
        Json::string("model_catalog_json = \"cc-switch-model-catalog.json\"\n"),
    );
    let catalog = || json(r#"{ "models": [{ "model": "a" }, { "model": "b" }] }"#);
    assert_eq!(
        listed(sync_codex_desktop_available_models_cache_after_live_restore(
            &settings,
            true,
            Ok(Some(catalog()))
        )),
        texts(&["a", "b"])
    );
    assert!(listed(sync_codex_desktop_available_models_cache_after_live_restore(
        &settings,
        true,
        Ok(None)
    ))
    .is_empty());
    assert!(matches!(
        sync_codex_desktop_available_models_cache_after_live_restore(&settings, true, Err(())),
        CacheSync::Invalidate
    ));
    assert!(matches!(
        sync_codex_desktop_available_models_cache_after_live_restore(&settings, false, Ok(None)),
        CacheSync::RemoveOwned
    ));
    assert_eq!(
        codex_desktop_available_models_cache_ids_after_restored_catalog_reload(
            &settings,
            Some(catalog())
        ),
        Some(texts(&["a", "b"]))
    );
    assert_eq!(
        codex_desktop_available_models_cache_ids_after_restored_catalog_reload(
            &Json::Null,
            Some(catalog())
        ),
        None
    );
}
