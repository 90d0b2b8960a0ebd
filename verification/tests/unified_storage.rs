use codex_switch::error::AppError;
use codex_switch::paths::Location;
use codex_switch::unified_storage::{
    archived_dir, busy_error, create_dir_link, disable, enable, ensure_active_on_startup,
    ensure_same_home_root, finished, first_state_step, is_active, is_enabled,
    migrate_dir_to_unified, next_state_step, next_storage_step, normalized_path_key,
    restore_dir_from_unified, sessions_dir, slashed_text, state_db_path, state_dir, status,
    unified_home, BackFacts, CodexUnifiedStorageOutcome, HomeFacts, LinkFacts, LinkStep, MoveFacts,
    MoveStep, MovedCounts, StateStep, StorageFacts, StorageStep,
};

/// A directory of Codex: with so many files, or a link to the other place.
#[derive(Clone, Copy, PartialEq, Debug)]
enum Dir {
    Missing,
    Files(usize),
    Link,
}

/// The two places, in memory.
struct Home {
    toggle: bool,
    sessions: Dir,
    archived: Dir,
    state: bool,
    place_sessions: usize,
    place_archived: usize,
    place_state: bool,
    marker: bool,
}

impl Home {
    fn new() -> Home {
        Home {
            toggle: false,
            sessions: Dir::Files(1),
            archived: Dir::Files(1),
            state: true,
            place_sessions: 0,
            place_archived: 0,
            place_state: false,
            marker: false,
        }
    }

    fn facts(&self) -> StorageFacts {
        StorageFacts {
            toggle: self.toggle,
            sessions_linked: self.sessions == Dir::Link,
            archived_linked: self.archived == Dir::Link,
            codex_dir: "/home/me/.codex".to_string(),
            sessions_dir: "/home/me/.cc-switch/codex/sessions".to_string(),
            archived_dir: "/home/me/.cc-switch/codex/archived_sessions".to_string(),
            state_dir: "/home/me/.cc-switch/codex/state".to_string(),
        }
    }

    fn move_there(dir: &mut Dir, place: &mut usize) -> Result<usize, AppError> {
        let facts = MoveFacts {
            source_is_link: *dir == Dir::Link,
            source_exists: *dir != Dir::Missing,
            target_exists: *place > 0,
            target_empty: *place == 0,
        };
        match migrate_dir_to_unified(&facts, "/place/sessions", "sessions") {
            MoveStep::Nothing | MoveStep::Clear => Ok(0),
            MoveStep::Move => {
                if let Dir::Files(n) = *dir {
                    *place = n;
                }
                *dir = Dir::Missing;
                Ok(*place)
            }
            MoveStep::Refuse(e) => Err(e),
        }
    }

    fn move_back(dir: &mut Dir, place: &mut usize) -> Result<usize, AppError> {
        if *dir == Dir::Link {
            *dir = Dir::Missing;
        }
        let facts = BackFacts {
            place_exists: *place > 0,
            place_empty: *place == 0,
            codex_exists: *dir != Dir::Missing,
            codex_empty: *dir == Dir::Files(0),
        };
        match restore_dir_from_unified(&facts, "/home/me/.codex/sessions") {
            MoveStep::Nothing | MoveStep::Clear => Ok(0),
            MoveStep::Move => {
                *dir = Dir::Files(*place);
                let moved = *place;
                *place = 0;
                Ok(moved)
            }
            MoveStep::Refuse(e) => Err(e),
        }
    }

    fn link(dir: &mut Dir) -> Result<(), AppError> {
        let facts = LinkFacts {
            is_link: *dir == Dir::Link,
            current: None,
            exists: *dir != Dir::Missing,
        };
        match create_dir_link(&facts, "/link", "/target", false) {
            LinkStep::Refuse(e) => Err(e),
            _ => {
                *dir = Dir::Link;
                Ok(())
            }
        }
    }

    fn run(&mut self, enabling: bool) -> Result<CodexUnifiedStorageOutcome, AppError> {
        let facts = self.facts();
        let mut moved = MovedCounts {
            sessions: 0,
            archived: 0,
            state_dbs: 0,
        };
        let mut error = None;
        let mut step = if enabling { enable() } else { disable() };
        while step != StorageStep::Done && step != StorageStep::Failed {
            let result = match step {
                StorageStep::MoveState => {
                    let (from, to) = if enabling {
                        (self.state, self.place_state)
                    } else {
                        (self.place_state, self.state)
                    };
                    let mut state = first_state_step(from, to);
                    if state == StateStep::Rename {
                        state = next_state_step(state, true);
                        self.state = !enabling;
                        self.place_state = enabling;
                    }
                    if let StateStep::Moved(n) = state {
                        moved.state_dbs = n;
                    }
                    Ok(())
                }
                StorageStep::MoveSessions => {
                    let result = if enabling {
                        Home::move_there(&mut self.sessions, &mut self.place_sessions)
                    } else {
                        Home::move_back(&mut self.sessions, &mut self.place_sessions)
                    };
                    result.map(|n| moved.sessions = n)
                }
                StorageStep::MoveArchived => {
                    let result = if enabling {
                        Home::move_there(&mut self.archived, &mut self.place_archived)
                    } else {
                        Home::move_back(&mut self.archived, &mut self.place_archived)
                    };
                    result.map(|n| moved.archived = n)
                }
                StorageStep::LinkSessions => Home::link(&mut self.sessions),
                StorageStep::LinkArchived => Home::link(&mut self.archived),
                StorageStep::WriteMarker => {
                    self.marker = true;
                    Ok(())
                }
                StorageStep::RemoveMarker => {
                    self.marker = false;
                    Ok(())
                }
                StorageStep::SetToggle => {
                    self.toggle = enabling;
                    Ok(())
                }
                _ => Ok(()),
            };
            step = next_storage_step(enabling, step, result.is_ok());
            if let Err(e) = result {
                error = Some(e);
            }
        }
        match error {
            Some(e) => Err(e),
            None => Ok(finished(&facts, enabling, &moved)),
        }
    }
}

#[test]
fn enable_migrates_and_creates_links() {
    let mut home = Home::new();
    let outcome = home.run(true).expect("enable");
    assert!(outcome.enabled);
    assert!(outcome.active);
    assert!(outcome.migrated_sessions >= 1);
    assert!(outcome.migrated_archived >= 1);
    assert_eq!(outcome.migrated_state_dbs, 1);

    assert_eq!(home.place_sessions, 1);
    assert_eq!(home.place_archived, 1);
    assert!(home.place_state);
    assert_eq!(home.sessions, Dir::Link);
    assert_eq!(home.archived, Dir::Link);
    assert!(!home.state);
    assert!(home.marker && home.toggle);
}

#[test]
fn enable_is_idempotent() {
    let mut home = Home::new();
    let first = home.run(true).expect("first enable");
    let second = home.run(true).expect("second enable");
    assert_eq!(second.migrated_sessions, 0);
    assert_eq!(second.migrated_archived, 0);
    assert_eq!(second.migrated_state_dbs, 0);
    assert!(first.active && second.active);
}

#[test]
fn disable_restores_original_layout() {
    let mut home = Home::new();
    home.run(true).expect("enable");
    let outcome = home.run(false).expect("disable");
    assert!(!outcome.enabled);
    assert!(!outcome.active);
    assert_eq!(home.sessions, Dir::Files(1));
    assert_eq!(home.archived, Dir::Files(1));
    assert!(home.state);
    assert!(!home.marker && !home.toggle);
}

#[test]
fn data_in_both_places_changes_nothing_but_the_state() {
    let mut home = Home::new();
    home.place_sessions = 3;
    let error = home.run(true).expect_err("both places hold sessions");
    assert_eq!(
        error.message(),
        "统一目录 /place/sessions 已存在数据且 ~/.codex/sessions 仍是真实目录，无法自动迁移（避免混写数据），请先手动处理"
    );
    assert_eq!(home.sessions, Dir::Files(1));
    assert!(!home.toggle);
}

#[test]
fn an_empty_place_is_taken_away() {
    let mut facts = BackFacts {
        place_exists: true,
        place_empty: true,
        codex_exists: true,
        codex_empty: false,
    };
    assert!(matches!(restore_dir_from_unified(&facts, "/l"), MoveStep::Clear));
    facts.place_exists = false;
    assert!(matches!(restore_dir_from_unified(&facts, "/l"), MoveStep::Nothing));
}

#[test]
fn new_data_is_not_overwritten() {
    let facts = BackFacts {
        place_exists: true,
        place_empty: false,
        codex_exists: true,
        codex_empty: false,
    };
    match restore_dir_from_unified(&facts, "/l") {
        MoveStep::Refuse(e) => assert_eq!(
            e.message(),
            "/l 已有新数据，无法把统一目录数据移回（避免覆盖）"
        ),
        other => panic!("{other:?}"),
    }
}

fn home_facts(app_root: &str, codex_root: &str, temp_dir: &str, place: &str) -> HomeFacts {
    HomeFacts {
        app_root: Some(app_root.to_string()),
        codex_root: Some(codex_root.to_string()),
        temp_dir: temp_dir.to_string(),
        unified_home: place.to_string(),
        codex_dir: "C".to_string(),
        app_dir: "A".to_string(),
        windows: false,
    }
}

#[test]
fn the_place_lies_in_the_home_of_codex() {
    assert!(ensure_same_home_root(&home_facts("/home/me", "/home/me/", "/tmp", "/home/me/x")).is_ok());
    assert!(ensure_same_home_root(&home_facts("/tmp/h", "/tmp/h", "/tmp", "/tmp/h/x")).is_ok());
    let error = ensure_same_home_root(&home_facts("/tmp/h", "/home/me", "/tmp", "/tmp/h/x"))
        .expect_err("two homes");
    assert!(error.message().starts_with("Codex 配置目录（C）与应用配置目录（A）不同根"));
    let error = ensure_same_home_root(&home_facts("/home/me", "/home/me", "/tmp", "/tmp/x"))
        .expect_err("a temporary place");
    assert!(error
        .message()
        .starts_with("统一存储目录 /tmp/x 位于系统临时目录下（Codex 目录 C 不在）"));
}

#[test]
fn links_are_made_kept_and_made_anew() {
    let link = |is_link: bool, current: Option<&str>, exists: bool| LinkFacts {
        is_link,
        current: current.map(str::to_string),
        exists,
    };
    let step = |facts: LinkFacts| create_dir_link(&facts, "/l", "/home/Me/x", true);
    assert!(matches!(
        step(link(true, Some("\\home\\me\\x\\"), true)),
        LinkStep::Keep
    ));
    assert!(matches!(step(link(true, None, true)), LinkStep::Keep));
    assert!(matches!(
        step(link(true, Some("/elsewhere"), true)),
        LinkStep::Rebuild
    ));
    assert!(matches!(step(link(false, None, false)), LinkStep::Create));
    match step(link(false, None, true)) {
        LinkStep::Refuse(e) => assert_eq!(
            e.message(),
            "/l 已存在且不是目录链接，无法统一存放（请先处理该目录）"
        ),
        other => panic!("{other:?}"),
    }
}

#[test]
fn paths_are_compared_by_the_rules_of_the_platform() {
    assert_eq!(
        normalized_path_key("\\\\?\\C:\\Users\\\u{c4}\\", true),
        "c:/users/\u{e4}"
    );
    assert_eq!(normalized_path_key("/Home/Me//", false), "/Home/Me");
    assert_eq!(slashed_text("a\\b/c"), "a/b/c");
}

#[test]
fn a_state_file_in_use_is_told_of() {
    assert_eq!(first_state_step(false, false), StateStep::Moved(0));
    assert_eq!(first_state_step(true, true), StateStep::Moved(0));
    let backup = next_state_step(first_state_step(true, false), false);
    assert_eq!(backup, StateStep::Backup);
    assert_eq!(next_state_step(backup, true), StateStep::Moved(1));
    assert_eq!(next_state_step(backup, false), StateStep::Busy);
    assert_eq!(
        busy_error("/s", false).message(),
        "状态库 /s 被占用，迁移失败（请先退出 ChatGPT/Codex 桌面端）"
    );
    assert_eq!(
        busy_error("/s", true).message(),
        "状态库 /s 被占用，移回失败（请先退出 ChatGPT/Codex 桌面端）"
    );
}

#[test]
fn the_start_of_the_application_respects_the_setting() {
    let mut home = Home::new();
    assert!(!is_enabled(&home.facts()));
    let outcome = ensure_active_on_startup(&home.facts()).expect("left out");
    assert_eq!(outcome.skipped_reason.as_deref(), Some("toggle_off"));
    assert!(!outcome.enabled && !outcome.active);
    home.toggle = true;
    assert!(ensure_active_on_startup(&home.facts()).is_none());
    assert!(!is_active(&home.facts()));
    home.sessions = Dir::Link;
    home.archived = Dir::Link;
    assert!(is_active(&home.facts()));
    assert!(status(&home.facts()).active);
}

#[test]
fn the_place_has_a_directory_for_each_kind_of_data() {
    let app = Location::at("/home/me/.cc-switch");
    let below = |location: Location| location.below.join("/");
    assert_eq!(below(unified_home(&app)), "codex");
    assert_eq!(below(sessions_dir(&app)), "codex/sessions");
    assert_eq!(below(archived_dir(&app)), "codex/archived_sessions");
    assert_eq!(below(state_dir(&app)), "codex/state");
    assert_eq!(below(state_db_path(&app)), "codex/state/state_5.sqlite");
}
