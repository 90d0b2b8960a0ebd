//! One place for the sessions and the state of Codex, whatever provider is in use.
//!
//! The directories of Codex become links to that place, so that a switch of
//! providers never has to move or to copy what is in them.

use crate::error::{AppError, ErrorView};
use crate::paths::Location;
use crate::text::{chars_of, join2, str_starts_with, without_trailing_slashes};
use crate::{error, text};
use vstd::prelude::*;
use vstd::string::*;

verus! {

/// The file that says that the place is in use.
pub const CODEX_UNIFIED_STORAGE_MARKER: &'static str = ".unified-active";

/// The file of the state of Codex.
pub const CODEX_STATE_DB_FILENAME: &'static str = "state_5.sqlite";

/// The place, in the directory of this application.
pub fn unified_home(app_dir: &Location) -> (r: Location)
    ensures
        r@ == app_dir@.child("codex"@),
{
    app_dir.child("codex")
}

/// The sessions.
pub fn sessions_dir(app_dir: &Location) -> (r: Location)
    ensures
        r@ == app_dir@.child("codex"@).child("sessions"@),
{
    unified_home(app_dir).child("sessions")
}

/// The archived sessions.
pub fn archived_dir(app_dir: &Location) -> (r: Location)
    ensures
        r@ == app_dir@.child("codex"@).child("archived_sessions"@),
{
    unified_home(app_dir).child("archived_sessions")
}

/// The directory of the state.
pub fn state_dir(app_dir: &Location) -> (r: Location)
    ensures
        r@ == app_dir@.child("codex"@).child("state"@),
{
    unified_home(app_dir).child("state")
}

/// The file of the state.
pub fn state_db_path(app_dir: &Location) -> (r: Location)
    ensures
        r@ == app_dir@.child("codex"@).child("state"@).child(CODEX_STATE_DB_FILENAME@),
{
    state_dir(app_dir).child(CODEX_STATE_DB_FILENAME)
}

/// What is known of the place: whether the user wants it, whether the two directories of Codex are
/// links, and the paths as they are shown.
#[derive(Debug)]
pub struct StorageFacts {
    pub toggle: bool,
    pub sessions_linked: bool,
    pub archived_linked: bool,
    pub codex_dir: String,
    pub sessions_dir: String,
    pub archived_dir: String,
    pub state_dir: String,
}

/// What was done.
#[derive(Debug)]
pub struct CodexUnifiedStorageOutcome {
    pub enabled: bool,
    pub active: bool,
    pub codex_dir: String,
    pub sessions_dir: String,
    pub archived_dir: String,
    pub state_dir: String,
    pub migrated_sessions: usize,
    pub migrated_archived: usize,
    pub migrated_state_dbs: usize,
    pub skipped_reason: Option<String>,
}

/// What a [`CodexUnifiedStorageOutcome`] stands for.
pub struct OutcomeView {
    pub enabled: bool,
    pub active: bool,
    pub codex_dir: Seq<char>,
    pub sessions_dir: Seq<char>,
    pub archived_dir: Seq<char>,
    pub state_dir: Seq<char>,
    pub migrated_sessions: usize,
    pub migrated_archived: usize,
    pub migrated_state_dbs: usize,
    pub skipped_reason: Option<Seq<char>>,
}

impl CodexUnifiedStorageOutcome {
    pub open spec fn view(&self) -> OutcomeView {
        OutcomeView {
            enabled: self.enabled,
            active: self.active,
            codex_dir: self.codex_dir@,
            sessions_dir: self.sessions_dir@,
            archived_dir: self.archived_dir@,
            state_dir: self.state_dir@,
            migrated_sessions: self.migrated_sessions,
            migrated_archived: self.migrated_archived,
            migrated_state_dbs: self.migrated_state_dbs,
            skipped_reason: text::text_of(self.skipped_reason),
        }
    }
}

/// Whether the user wants the place.
pub fn is_enabled(facts: &StorageFacts) -> (r: bool)
    ensures
        r == facts.toggle,
{
    facts.toggle
}

/// Whether the place is in use.
pub open spec fn active(facts: StorageFacts) -> bool {
    facts.toggle && facts.sessions_linked && facts.archived_linked
}

/// Whether the place is in use: the user wants it, and both directories are links.
pub fn is_active(facts: &StorageFacts) -> (r: bool)
    ensures
        r == active(*facts),
{
    is_enabled(facts) && facts.sessions_linked && facts.archived_linked
}

/// How things are.
pub open spec fn current(facts: StorageFacts) -> OutcomeView {
    OutcomeView {
        enabled: facts.toggle,
        active: active(facts),
        codex_dir: facts.codex_dir@,
        sessions_dir: facts.sessions_dir@,
        archived_dir: facts.archived_dir@,
        state_dir: facts.state_dir@,
        migrated_sessions: 0,
        migrated_archived: 0,
        migrated_state_dbs: 0,
        skipped_reason: None,
    }
}

/// How things are.
pub fn status(facts: &StorageFacts) -> (r: CodexUnifiedStorageOutcome)
    ensures
        r@ == current(*facts),
{
    CodexUnifiedStorageOutcome {
        enabled: is_enabled(facts),
        active: is_active(facts),
        codex_dir: facts.codex_dir.clone(),
        sessions_dir: facts.sessions_dir.clone(),
        archived_dir: facts.archived_dir.clone(),
        state_dir: facts.state_dir.clone(),
        migrated_sessions: 0,
        migrated_archived: 0,
        migrated_state_dbs: 0,
        skipped_reason: None,
    }
}

/// How many files were moved.
#[derive(Debug, Clone, Copy)]
pub struct MovedCounts {
    pub sessions: usize,
    pub archived: usize,
    pub state_dbs: usize,
}

/// What is reported when everything was moved there, or back.
pub fn finished(facts: &StorageFacts, enabled: bool, moved: &MovedCounts) -> (r:
    CodexUnifiedStorageOutcome)
    ensures
        r@ == (OutcomeView {
            enabled,
            active: enabled,
            migrated_sessions: moved.sessions,
            migrated_archived: moved.archived,
            migrated_state_dbs: moved.state_dbs,
            ..current(*facts)
        }),
{
    let mut outcome = status(facts);
    outcome.enabled = enabled;
    outcome.active = enabled;
    outcome.migrated_sessions = moved.sessions;
    outcome.migrated_archived = moved.archived;
    outcome.migrated_state_dbs = moved.state_dbs;
    outcome
}

/// What happens when the application starts: the place is set up again where the user wants it, so
/// that a link that was lost comes back.
pub fn ensure_active_on_startup(facts: &StorageFacts) -> (r: Option<CodexUnifiedStorageOutcome>)
    ensures
        match r {
            None => facts.toggle,
            Some(outcome) => !facts.toggle && outcome@ == (OutcomeView {
                skipped_reason: Some("toggle_off"@),
                ..current(*facts)
            }),
        },
{
    if is_enabled(facts) {
        return None;
    }
    let mut outcome = status(facts);
    outcome.skipped_reason = Some("toggle_off".to_owned());
    Some(outcome)
}

/// A text with a slash for each backslash.
pub open spec fn with_slashes(s: Seq<char>) -> Seq<char> {
    s.map_values(
        |c: char|
            if c == '\\' {
                '/'
            } else {
                c
            },
    )
}

/// A text in lower case, as Unicode has it.
pub uninterp spec fn text_lowercase(s: Seq<char>) -> Seq<char>;

/// `str::to_lowercase` gives the lower case of a text.
#[verifier::external_body]
fn lowercase_text(s: &str) -> (r: String)
    ensures
        r@ == text_lowercase(s@),
{
    s.to_lowercase()
}

/// A path in the form in which it is compared: with slashes, without one at its end, and on Windows
/// in lower case and without the mark of a long path.
pub open spec fn path_key(path: Seq<char>, windows: bool) -> Seq<char> {
    let slashed = with_slashes(path);
    text::trim_slashes(
        if windows {
            text_lowercase(
                if "//?/"@.is_prefix_of(slashed) {
                    slashed.skip("//?/"@.len() as int)
                } else {
                    slashed
                },
            )
        } else {
            slashed
        },
    )
}

/// A text with a slash for each backslash.
pub fn slashed_text(s: &str) -> (r: String)
    ensures
        r@ == with_slashes(s@),
{
    let chars = chars_of(s);
    let mut out = String::new();
    let mut i: usize = 0;
    while i < chars.len()
        invariant
            chars@ == s@,
            i <= chars@.len(),
            out@ =~= with_slashes(s@).take(i as int),
        decreases chars@.len() - i,
    {
        let c = if chars[i] == '\\' {
            '/'
        } else {
            chars[i]
        };
        out.push(c);
        i += 1;
    }
    assert(out@ =~= with_slashes(s@));
    out
}

/// A path in the form in which it is compared.
pub fn normalized_path_key(path: &str, windows: bool) -> (r: String)
    ensures
        r@ == path_key(path@, windows),
{
    let slashed = slashed_text(path);
    if windows {
        let bare = match text::str_strip_prefix(slashed.as_str(), "//?/") {
            Some(bare) => {
                proof {
                    let prefix = "//?/"@;
                    assert(slashed@.subrange(0, prefix.len() as int) =~= prefix);
                    assert(slashed@.skip(prefix.len() as int) =~= bare@);
                }
                bare.to_owned()
            },
            None => slashed,
        };
        return without_trailing_slashes(lowercase_text(bare.as_str()).as_str());
    }
    without_trailing_slashes(slashed.as_str())
}

/// The directories by which it is told whether the place can be set up: the parents of the two
/// config directories, where they have one, the directory for temporary files, and the directories
/// themselves as they are shown.
#[derive(Debug)]
pub struct HomeFacts {
    pub app_root: Option<String>,
    pub codex_root: Option<String>,
    pub temp_dir: String,
    pub unified_home: String,
    pub codex_dir: String,
    pub app_dir: String,
    pub windows: bool,
}

/// Whether both config directories are in one home.
pub open spec fn same_home(facts: HomeFacts) -> bool {
    match (facts.app_root, facts.codex_root) {
        (Some(a), Some(b)) => path_key(a@, facts.windows) == path_key(b@, facts.windows),
        _ => false,
    }
}

/// Whether the place would be among temporary files while Codex is not.
pub open spec fn only_place_is_temporary(facts: HomeFacts) -> bool {
    let temp = path_key(facts.temp_dir@, facts.windows);
    &&& facts.codex_root matches Some(root) && !temp.is_prefix_of(path_key(root@, facts.windows))
    &&& temp.is_prefix_of(path_key(facts.unified_home@, facts.windows))
}

/// The error of a place among temporary files.
pub open spec fn temporary_error(facts: HomeFacts) -> ErrorView {
    ErrorView::Message(
        "统一存储目录 "@ + facts.unified_home@ + " 位于系统临时目录下（Codex 目录 "@
            + facts.codex_dir@
            + " 不在），疑似残留 CC_SWITCH_TEST_HOME/HOME 测试环境，拒绝启用以免迁移真实会话"@,
    )
}

/// The error of config directories in two homes.
pub open spec fn two_homes_error(facts: HomeFacts) -> ErrorView {
    ErrorView::Message(
        "Codex 配置目录（"@ + facts.codex_dir@ + "）与应用配置目录（"@ + facts.app_dir@
            + "）不同根，无法安全启用统一存储；请检查 HOME / CC_SWITCH_TEST_HOME / app_config_dir 覆盖是否残留"@,
    )
}

/// Whether the two config directories can share their sessions, or why not.
pub open spec fn home_check(facts: HomeFacts) -> Result<(), ErrorView> {
    if !same_home(facts) {
        Err(two_homes_error(facts))
    } else if only_place_is_temporary(facts) {
        Err(temporary_error(facts))
    } else {
        Ok(())
    }
}

/// Checks that the place lies where it will last: in the home of Codex, and not among temporary
/// files while Codex is not there. Nothing is moved before that.
pub fn ensure_same_home_root(facts: &HomeFacts) -> (r: Result<(), AppError>)
    ensures
        error::unit_result(r) == home_check(*facts),
{
    let codex_key = match &facts.codex_root {
        Some(root) => Some(normalized_path_key(root.as_str(), facts.windows)),
        None => None,
    };
    let same = match (&facts.app_root, &codex_key) {
        (Some(app_root), Some(codex_key)) => {
            let app_key = normalized_path_key(app_root.as_str(), facts.windows);
            text::str_eq(app_key.as_str(), codex_key.as_str())
        },
        _ => false,
    };
    if !same {
        let mut message = join2("Codex 配置目录（", facts.codex_dir.as_str());
        message.push_str("）与应用配置目录（");
        message.push_str(facts.app_dir.as_str());
        message.push_str(
            "）不同根，无法安全启用统一存储；请检查 HOME / CC_SWITCH_TEST_HOME / app_config_dir 覆盖是否残留",
        );
        return Err(AppError::Message(message));
    }
    let temp = normalized_path_key(facts.temp_dir.as_str(), facts.windows);
    let codex_under_temp = match &codex_key {
        Some(codex_key) => str_starts_with(codex_key.as_str(), temp.as_str()),
        None => false,
    };
    let place = normalized_path_key(facts.unified_home.as_str(), facts.windows);
    if !codex_under_temp && str_starts_with(place.as_str(), temp.as_str()) {
        let mut message = join2("统一存储目录 ", facts.unified_home.as_str());
        message.push_str(" 位于系统临时目录下（Codex 目录 ");
        message.push_str(facts.codex_dir.as_str());
        message.push_str(
            " 不在），疑似残留 CC_SWITCH_TEST_HOME/HOME 测试环境，拒绝启用以免迁移真实会话",
        );
        return Err(AppError::Message(message));
    }
    Ok(())
}

/// What is known of a directory that is to be a link: whether it is one, and to where, where that
/// can be read; and whether there is anything else in its place.
#[derive(Debug)]
pub struct LinkFacts {
    pub is_link: bool,
    pub current: Option<String>,
    pub exists: bool,
}

/// What to do about a link.
#[derive(Debug)]
pub enum LinkStep {
    /// It is right.
    Keep,
    /// It leads elsewhere: take it away and make it anew.
    Rebuild,
    /// Make it.
    Create,
    /// Something else is in its place.
    Refuse(AppError),
}

/// Whether a link leads elsewhere. One whose target cannot be read is taken to be right.
pub open spec fn leads_elsewhere(facts: LinkFacts, target: Seq<char>, windows: bool) -> bool {
    facts.current matches Some(current) && path_key(current@, windows) != path_key(target, windows)
}

/// The error of something else in the place of a link.
pub open spec fn occupied_error(link: Seq<char>) -> ErrorView {
    ErrorView::Message(
        link + " 已存在且不是目录链接，无法统一存放（请先处理该目录）"@,
    )
}

/// Whether a step is the one to take about a link.
pub open spec fn is_link_step(
    step: LinkStep,
    facts: LinkFacts,
    link: Seq<char>,
    target: Seq<char>,
    windows: bool,
) -> bool {
    match step {
        LinkStep::Keep => facts.is_link && !leads_elsewhere(facts, target, windows),
        LinkStep::Rebuild => facts.is_link && leads_elsewhere(facts, target, windows),
        LinkStep::Create => !facts.is_link && !facts.exists,
        LinkStep::Refuse(e) => !facts.is_link && facts.exists && e@ == occupied_error(link),
    }
}

/// What to do about a link.
pub fn create_dir_link(facts: &LinkFacts, link: &str, target: &str, windows: bool) -> (r: LinkStep)
    ensures
        is_link_step(r, *facts, link@, target@, windows),
{
    if facts.is_link {
        if let Some(current) = &facts.current {
            let here = normalized_path_key(current.as_str(), windows);
            let there = normalized_path_key(target, windows);
            if !text::str_eq(here.as_str(), there.as_str()) {
                return LinkStep::Rebuild;
            }
        }
        return LinkStep::Keep;
    }
    if facts.exists {
        return LinkStep::Refuse(
            AppError::Message(
                join2(link, " 已存在且不是目录链接，无法统一存放（请先处理该目录）"),
            ),
        );
    }
    LinkStep::Create
}

/// What is known of a directory that is to be moved.
#[derive(Debug)]
pub struct MoveFacts {
    pub source_is_link: bool,
    pub source_exists: bool,
    pub target_exists: bool,
    pub target_empty: bool,
}

/// What to do about a directory.
#[derive(Debug)]
pub enum MoveStep {
    /// Nothing is to be moved.
    Nothing,
    /// Nothing is to be moved, and the empty directory that was left is to be taken away.
    Clear,
    /// Move it.
    Move,
    /// There is something in the way.
    Refuse(AppError),
}

/// The error of data in both places.
pub open spec fn both_filled_error(target: Seq<char>, name: Seq<char>) -> ErrorView {
    ErrorView::Message(
        "统一目录 "@ + target + " 已存在数据且 ~/.codex/"@ + name
            + " 仍是真实目录，无法自动迁移（避免混写数据），请先手动处理"@,
    )
}

/// Whether a directory of Codex holds anything that is to be moved.
pub open spec fn is_to_move(facts: MoveFacts) -> bool {
    !facts.source_is_link && facts.source_exists
}

/// Whether a step is the one to take about a directory that is to be shared.
pub open spec fn is_move_step(
    step: MoveStep,
    facts: MoveFacts,
    target: Seq<char>,
    name: Seq<char>,
) -> bool {
    match step {
        MoveStep::Nothing => !is_to_move(facts),
        MoveStep::Clear => false,
        MoveStep::Move => is_to_move(facts) && (!facts.target_exists || facts.target_empty),
        MoveStep::Refuse(e) => is_to_move(facts) && facts.target_exists && !facts.target_empty
            && e@ == both_filled_error(target, name),
    }
}

/// What to do about a directory of Codex when the place is set up. Data that is already there is
/// never mixed with it.
pub fn migrate_dir_to_unified(facts: &MoveFacts, target: &str, name: &str) -> (r: MoveStep)
    ensures
        is_move_step(r, *facts, target@, name@),
{
    if facts.source_is_link || !facts.source_exists {
        return MoveStep::Nothing;
    }
    if facts.target_exists && !facts.target_empty {
        let mut message = join2("统一目录 ", target);
        message.push_str(" 已存在数据且 ~/.codex/");
        message.push_str(name);
        message.push_str(" 仍是真实目录，无法自动迁移（避免混写数据），请先手动处理");
        return MoveStep::Refuse(AppError::Message(message));
    }
    MoveStep::Move
}

/// What is known of a directory that is to be moved back, once its link is gone.
#[derive(Debug)]
pub struct BackFacts {
    pub place_exists: bool,
    pub place_empty: bool,
    pub codex_exists: bool,
    pub codex_empty: bool,
}

/// The error of new data in the way of the old.
pub open spec fn new_data_error(link: Seq<char>) -> ErrorView {
    ErrorView::Message(link + " 已有新数据，无法把统一目录数据移回（避免覆盖）"@)
}

/// Whether the place holds anything that is to be moved back.
pub open spec fn is_to_move_back(facts: BackFacts) -> bool {
    facts.place_exists && !facts.place_empty
}

/// Whether a step is the one to take about a directory that was shared.
pub open spec fn is_back_step(step: MoveStep, facts: BackFacts, link: Seq<char>) -> bool {
    match step {
        MoveStep::Nothing => !facts.place_exists,
        MoveStep::Clear => facts.place_exists && facts.place_empty,
        MoveStep::Move => is_to_move_back(facts) && (!facts.codex_exists || facts.codex_empty),
        MoveStep::Refuse(e) => is_to_move_back(facts) && facts.codex_exists && !facts.codex_empty
            && e@ == new_data_error(link),
    }
}

/// What to do about a directory of the place when it is given up. An empty one is taken away, and
/// what Codex has made since is never overwritten.
pub fn restore_dir_from_unified(facts: &BackFacts, link: &str) -> (r: MoveStep)
    ensures
        is_back_step(r, *facts, link@),
{
    if !facts.place_exists {
        return MoveStep::Nothing;
    }
    if facts.place_empty {
        return MoveStep::Clear;
    }
    if facts.codex_exists && !facts.codex_empty {
        return MoveStep::Refuse(
            AppError::Message(
                join2(link, " 已有新数据，无法把统一目录数据移回（避免覆盖）"),
            ),
        );
    }
    MoveStep::Move
}

/// How a state file gets to its new place.
#[derive(Debug, Clone, Copy, PartialEq, Eq, Structural)]
pub enum StateStep {
    /// Move it.
    Rename,
    /// Copy what it holds, as it may be in use, and take the old one away.
    Backup,
    /// So many files were moved.
    Moved(usize),
    /// It is in use.
    Busy,
}

/// How to begin with a state file: a file that is already at its new place stays.
pub fn first_state_step(source_exists: bool, target_exists: bool) -> (r: StateStep)
    ensures
        r == (if source_exists && !target_exists {
            StateStep::Rename
        } else {
            StateStep::Moved(0)
        }),
{
    if source_exists && !target_exists {
        StateStep::Rename
    } else {
        StateStep::Moved(0)
    }
}

/// How to go on with a state file.
pub open spec fn state_step_after(step: StateStep, ok: bool) -> StateStep {
    match step {
        StateStep::Rename => if ok {
            StateStep::Moved(1)
        } else {
            StateStep::Backup
        },
        StateStep::Backup => if ok {
            StateStep::Moved(1)
        } else {
            StateStep::Busy
        },
        _ => step,
    }
}

/// How to go on with a state file once a step went well, or not.
pub fn next_state_step(step: StateStep, ok: bool) -> (r: StateStep)
    ensures
        r == state_step_after(step, ok),
{
    match step {
        StateStep::Rename => if ok {
            StateStep::Moved(1)
        } else {
            StateStep::Backup
        },
        StateStep::Backup => if ok {
            StateStep::Moved(1)
        } else {
            StateStep::Busy
        },
        _ => step,
    }
}

/// The error of a state file that is in use.
pub fn busy_error(source: &str, back: bool) -> (r: AppError)
    ensures
        r@ == ErrorView::Message(
            "状态库 "@ + source@ + if back {
                " 被占用，移回失败（请先退出 ChatGPT/Codex 桌面端）"@
            } else {
                " 被占用，迁移失败（请先退出 ChatGPT/Codex 桌面端）"@
            },
        ),
{
    let mut message = join2("状态库 ", source);
    if back {
        message.push_str(" 被占用，移回失败（请先退出 ChatGPT/Codex 桌面端）");
    } else {
        message.push_str(" 被占用，迁移失败（请先退出 ChatGPT/Codex 桌面端）");
    }
    AppError::Message(message)
}

/// What is done to set the place up, or to give it up.
#[derive(Debug, Clone, Copy, PartialEq, Eq, Structural)]
pub enum StorageStep {
    CheckHome,
    MakeCodexDir,
    MoveState,
    MoveSessions,
    MoveArchived,
    LinkSessions,
    LinkArchived,
    WriteMarker,
    RemoveMarker,
    SetToggle,
    Done,
    Failed,
}

/// What follows a step that went well when the place is set up. The state goes first, as it is the
/// most likely to be in use: where it cannot be moved nothing was changed.
pub open spec fn enable_after(step: StorageStep) -> StorageStep {
    match step {
        StorageStep::CheckHome => StorageStep::MakeCodexDir,
        StorageStep::MakeCodexDir => StorageStep::MoveState,
        StorageStep::MoveState => StorageStep::MoveSessions,
        StorageStep::MoveSessions => StorageStep::MoveArchived,
        StorageStep::MoveArchived => StorageStep::LinkSessions,
        StorageStep::LinkSessions => StorageStep::LinkArchived,
        StorageStep::LinkArchived => StorageStep::WriteMarker,
        StorageStep::WriteMarker => StorageStep::SetToggle,
        StorageStep::SetToggle => StorageStep::Done,
        _ => step,
    }
}

/// What follows a step that went well when the place is given up.
pub open spec fn disable_after(step: StorageStep) -> StorageStep {
    match step {
        StorageStep::MakeCodexDir => StorageStep::MoveSessions,
        StorageStep::MoveSessions => StorageStep::MoveArchived,
        StorageStep::MoveArchived => StorageStep::MoveState,
        StorageStep::MoveState => StorageStep::RemoveMarker,
        StorageStep::RemoveMarker => StorageStep::SetToggle,
        StorageStep::SetToggle => StorageStep::Done,
        _ => step,
    }
}

/// What follows a step. That the marker cannot be removed is no failure.
pub open spec fn step_after(enabling: bool, step: StorageStep, ok: bool) -> StorageStep {
    if step is Done || step is Failed {
        step
    } else if !ok && !(step is RemoveMarker) {
        StorageStep::Failed
    } else if enabling {
        enable_after(step)
    } else {
        disable_after(step)
    }
}

/// The first step.
pub open spec fn start(enabling: bool) -> StorageStep {
    if enabling {
        StorageStep::CheckHome
    } else {
        StorageStep::MakeCodexDir
    }
}

/// The first step to set the place up.
pub fn enable() -> (r: StorageStep)
    ensures
        r == start(true),
{
    StorageStep::CheckHome
}

/// The first step to give the place up.
pub fn disable() -> (r: StorageStep)
    ensures
        r == start(false),
{
    StorageStep::MakeCodexDir
}

/// What follows a step that went well, or not.
pub fn next_storage_step(enabling: bool, step: StorageStep, ok: bool) -> (r: StorageStep)
    ensures
        r == step_after(enabling, step, ok),
{
    match step {
        StorageStep::Done => StorageStep::Done,
        StorageStep::Failed => StorageStep::Failed,
        StorageStep::RemoveMarker => if enabling {
            StorageStep::RemoveMarker
        } else {
            StorageStep::SetToggle
        },
        _ => if !ok {
            StorageStep::Failed
        } else {
            match step {
                StorageStep::CheckHome => if enabling {
                    StorageStep::MakeCodexDir
                } else {
                    StorageStep::CheckHome
                },
                StorageStep::MakeCodexDir => if enabling {
                    StorageStep::MoveState
                } else {
                    StorageStep::MoveSessions
                },
                StorageStep::MoveState => if enabling {
                    StorageStep::MoveSessions
                } else {
                    StorageStep::RemoveMarker
                },
                StorageStep::MoveSessions => StorageStep::MoveArchived,
                StorageStep::MoveArchived => if enabling {
                    StorageStep::LinkSessions
                } else {
                    StorageStep::MoveState
                },
                StorageStep::LinkSessions => if enabling {
                    StorageStep::LinkArchived
                } else {
                    StorageStep::LinkSessions
                },
                StorageStep::LinkArchived => if enabling {
                    StorageStep::WriteMarker
                } else {
                    StorageStep::LinkArchived
                },
                StorageStep::WriteMarker => if enabling {
                    StorageStep::SetToggle
                } else {
                    StorageStep::WriteMarker
                },
                StorageStep::SetToggle => StorageStep::Done,
                _ => step,
            }
        },
    }
}

/// Where one is after some steps, by whether each went well.
pub open spec fn after_steps(enabling: bool, results: Seq<bool>) -> StorageStep
    decreases results.len(),
{
    if results.len() == 0 {
        start(enabling)
    } else {
        step_after(enabling, after_steps(enabling, results.drop_last()), results.last())
    }
}

/// Whether a step before went well.
pub open spec fn has_done(enabling: bool, results: Seq<bool>, step: StorageStep) -> bool {
    exists|i: int|
        0 <= i < results.len() && #[trigger] after_steps(enabling, results.take(i)) == step
            && results[i]
}

proof fn lemma_done_stays(enabling: bool, results: Seq<bool>, step: StorageStep)
    requires
        results.len() > 0,
        has_done(enabling, results.drop_last(), step),
    ensures
        has_done(enabling, results, step),
{
    let front = results.drop_last();
    let i = choose|i: int|
        0 <= i < front.len() && #[trigger] after_steps(enabling, front.take(i)) == step && front[i];
    assert(results.take(i) =~= front.take(i));
    assert(after_steps(enabling, results.take(i)) == step);
}

/// While the place is set up or given up, the setting changes only once everything that belongs to
/// it is in place: where a step fails the setting stays.
pub proof fn law_the_setting_changes_last(enabling: bool, results: Seq<bool>)
    requires
        after_steps(enabling, results) is SetToggle,
    ensures
        has_done(enabling, results, StorageStep::MoveState),
        has_done(enabling, results, StorageStep::MoveSessions),
        has_done(enabling, results, StorageStep::MoveArchived),
        enabling ==> has_done(enabling, results, StorageStep::CheckHome) && has_done(
            enabling,
            results,
            StorageStep::LinkSessions,
        ) && has_done(enabling, results, StorageStep::LinkArchived),
{
    lemma_steps_done(enabling, results);
}

/// The steps in their order.
spec fn position(enabling: bool, step: StorageStep) -> int {
    match step {
        StorageStep::CheckHome => if enabling {
            0
        } else {
            -1
        },
        StorageStep::MakeCodexDir => if enabling {
            1
        } else {
            0
        },
        StorageStep::MoveState => if enabling {
            2
        } else {
            3
        },
        StorageStep::MoveSessions => if enabling {
            3
        } else {
            1
        },
        StorageStep::MoveArchived => if enabling {
            4
        } else {
            2
        },
        StorageStep::LinkSessions => if enabling {
            5
        } else {
            -1
        },
        StorageStep::LinkArchived => if enabling {
            6
        } else {
            -1
        },
        StorageStep::WriteMarker => if enabling {
            7
        } else {
            -1
        },
        StorageStep::RemoveMarker => if enabling {
            -1
        } else {
            4
        },
        StorageStep::SetToggle => if enabling {
            8
        } else {
            5
        },
        StorageStep::Done => 9,
        StorageStep::Failed => -2,
    }
}

/// All steps that come before the one that was reached went well, but for the one that may fail.
proof fn lemma_steps_done(enabling: bool, results: Seq<bool>)
    ensures
        !(after_steps(enabling, results) is Failed) ==> position(
            enabling,
            after_steps(enabling, results),
        ) >= 0,
        forall|step: StorageStep|
            0 <= position(enabling, step) < position(enabling, after_steps(enabling, results))
                && !(step is RemoveMarker) && !(step is Done) ==> #[trigger] has_done(
                enabling,
                results,
                step,
            ),
    decreases results.len(),
{
    if results.len() > 0 {
        let front = results.drop_last();
        lemma_steps_done(enabling, front);
        let before = after_steps(enabling, front);
        let after = after_steps(enabling, results);
        assert forall|step: StorageStep|
            0 <= position(enabling, step) < position(enabling, after) && !(step is RemoveMarker)
                && !(step is Done) implies #[trigger] has_done(enabling, results, step) by {
            if position(enabling, step) < position(enabling, before) {
                assert(has_done(enabling, front, step));
                lemma_done_stays(enabling, results, step);
            } else {
                assert(step == before);
                assert(results.take(results.len() - 1) =~= front);
                assert(after_steps(enabling, results.take(results.len() - 1)) == step);
            }
        }
    }
}

/// Where a directory of Codex is a link to the place, setting the place up again moves nothing and
/// keeps the link.
pub proof fn law_setting_up_twice_is_setting_up_once(
    facts: MoveFacts,
    link: LinkFacts,
    target: Seq<char>,
    windows: bool,
)
    requires
        facts.source_is_link,
        link.is_link,
        link.current matches Some(current) && path_key(current@, windows) == path_key(
            target,
            windows,
        ),
    ensures
        !is_to_move(facts),
        !leads_elsewhere(link, target, windows),
{
}

} // verus!
