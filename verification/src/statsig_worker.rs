//! Keeping the lists of models of the desktop application up to date: where its storages are, what
//! comes of bringing them in line, and when that is tried again.

use crate::json::{Json, JsonView};
use crate::paths::{Location, LocationView};
use crate::statsig_models::codex_model_ids_from_settings;
use crate::statsig_sync::CodexDesktopCachePinPolicy;
use crate::text::{join_list, list_contains, str_contains, str_starts_with};
use crate::toml_doc::parse_toml;
use crate::{cli, json, live_catalog, statsig_models, text};
use vstd::prelude::*;
use vstd::string::*;

verus! {

/// So many seconds pass before a first retry.
pub const CODEX_DESKTOP_CACHE_RETRY_INITIAL_DELAY_SECS: u64 = 1;

/// At most so many seconds pass before a retry.
pub const CODEX_DESKTOP_CACHE_RETRY_MAX_DELAY_SECS: u64 = 30;

/// So many seconds pass before a list is renewed.
pub const CODEX_DESKTOP_CACHE_RENEWAL_INTERVAL_SECS: u64 = 604_800;

/// What the error of a storage in use says.
pub const LOCKED_ERROR: &'static str = "Codex Desktop localStorage LevelDB is locked:";

/// The storages that may be below a directory of the desktop application.
pub open spec fn storages_below(root: LocationView) -> Seq<LocationView> {
    let partition = root.child("Partitions"@).child("codex-browser-app"@);
    let default = root.child("Default"@);
    seq![
        storage_in(root),
        storage_in(default),
        storage_in(partition),
        storage_in(default.child("Partitions"@).child("codex-browser-app"@)),
    ]
}

/// The storage of a profile.
pub open spec fn storage_in(profile: LocationView) -> LocationView {
    profile.child("Local Storage"@).child("leveldb"@)
}

/// What some places stand for.
pub open spec fn places(list: Seq<Location>) -> Seq<LocationView> {
    list.map_values(|l: Location| l.view())
}

/// The storage of a profile.
fn storage_of(profile: &Location) -> (r: Location)
    ensures
        r@ == storage_in(profile@),
{
    profile.child("Local Storage").child("leveldb")
}

/// Adds the storages that may be below a directory of the desktop application.
fn push_storages(out: &mut Vec<Location>, root: &Location)
    ensures
        places(final(out)@) == places(old(out)@) + storages_below(root@),
{
    let ghost before = places(out@);
    let default = root.child("Default");
    out.push(storage_of(root));
    out.push(storage_of(&default));
    out.push(storage_of(&root.child("Partitions").child("codex-browser-app")));
    out.push(storage_of(&default.child("Partitions").child("codex-browser-app")));
    assert(places(out@) =~= before + storages_below(root@));
}

/// The storages that may be below a directory of the desktop application.
pub fn codex_desktop_leveldb_candidates_for_root(codex_root: &Location) -> (r: Vec<Location>)
    ensures
        places(r@) == storages_below(codex_root@),
{
    let mut out: Vec<Location> = Vec::new();
    let ghost none = places(out@);
    push_storages(&mut out, codex_root);
    assert(none + storages_below(codex_root@) =~= storages_below(codex_root@));
    out
}

/// Where the desktop application keeps its data on Linux.
pub open spec fn linux_root(xdg_config_home: Option<Seq<char>>, home: Seq<char>) -> LocationView {
    (match xdg_config_home {
        Some(dir) => if dir.len() > 0 {
            LocationView { base: dir, below: Seq::empty() }
        } else {
            (LocationView { base: home, below: Seq::empty() }).child(".config"@)
        },
        None => (LocationView { base: home, below: Seq::empty() }).child(".config"@),
    }).child("Codex"@)
}

/// The directory of the desktop application on Linux: in the directory for configs that is set, else
/// in the one of the home.
pub fn codex_desktop_linux_config_root(xdg_config_home: Option<&str>, home: &str) -> (r: Location)
    ensures
        r@ == linux_root(text::slice_text(xdg_config_home), home@),
{
    if let Some(dir) = xdg_config_home {
        if !dir.is_empty() {
            return Location::at(dir).child("Codex");
        }
    }
    Location::at(home).child(".config").child("Codex")
}

/// Whether a package is one of the desktop application.
pub open spec fn is_codex_package(name: Seq<char>) -> bool {
    "openai.codex_"@.is_prefix_of(text::lower(name))
}

/// The storages of the packages of the desktop application.
pub open spec fn package_storages(packages: LocationView, names: Seq<Seq<char>>) -> Seq<LocationView>
    decreases names.len(),
{
    if names.len() == 0 {
        Seq::empty()
    } else {
        let front = package_storages(packages, names.drop_last());
        if is_codex_package(names.last()) {
            let root = packages.child(names.last()).child("LocalCache"@).child("Roaming"@).child(
                "Codex"@,
            );
            front + storages_below(root) + storages_below(root.child("web"@).child("Codex"@))
        } else {
            front
        }
    }
}

/// The storages that there may be on Windows: below the directory of the user, and below those of
/// the packages with these names.
pub fn codex_desktop_windows_leveldb_candidates(
    appdata: &Location,
    local_appdata: &Location,
    package_names: &Vec<String>,
) -> (r: Vec<Location>)
    ensures
        places(r@) == storages_below(appdata@.child("Codex"@)) + storages_below(
            appdata@.child("Codex"@).child("web"@).child("Codex"@),
        ) + package_storages(
            local_appdata@.child("Packages"@),
            text::texts(package_names@),
        ),
{
    let codex = appdata.child("Codex");
    let mut out: Vec<Location> = Vec::new();
    push_storages(&mut out, &codex);
    push_storages(&mut out, &codex.child("web").child("Codex"));
    let ghost own = storages_below(codex@) + storages_below(codex@.child("web"@).child("Codex"@));
    assert(places(out@) =~= own);
    let packages = local_appdata.child("Packages");
    let ghost names = text::texts(package_names@);
    let mut i: usize = 0;
    assert(own + Seq::<LocationView>::empty() =~= own);
    while i < package_names.len()
        invariant
            i <= package_names@.len(),
            names == text::texts(package_names@),
            places(out@) =~= own + package_storages(packages@, names.take(i as int)),
        decreases package_names@.len() - i,
    {
        let ghost before = package_storages(packages@, names.take(i as int));
        proof {
            assert(names.take(i + 1).drop_last() =~= names.take(i as int));
            assert(names.take(i + 1).last() == package_names@[i as int]@);
        }
        let name = package_names[i].as_str();
        if str_starts_with(name.to_ascii_lowercase().as_str(), "openai.codex_") {
            let root = packages.child(name).child("LocalCache").child("Roaming").child("Codex");
            push_storages(&mut out, &root);
            push_storages(&mut out, &root.child("web").child("Codex"));
        }
        i += 1;
    }
    assert(names.take(i as int) =~= names);
    out
}

/// The paths of a list, each the first time that it comes.
pub fn distinct_paths(paths: &Vec<String>) -> (r: Vec<String>)
    ensures
        text::texts(r@) == cli::first_occurrences(text::texts(paths@)),
{
    let ghost views = text::texts(paths@);
    let mut out: Vec<String> = Vec::new();
    let mut i: usize = 0;
    assert(text::texts(out@) =~= Seq::<Seq<char>>::empty());
    while i < paths.len()
        invariant
            i <= paths@.len(),
            views == text::texts(paths@),
            text::texts(out@) == cli::first_occurrences(views.take(i as int)),
        decreases paths@.len() - i,
    {
        proof {
            assert(views.take(i + 1).drop_last() =~= views.take(i as int));
            assert(views.take(i + 1).last() == paths@[i as int]@);
        }
        if !list_contains(&out, paths[i].as_str()) {
            let ghost before = text::texts(out@);
            out.push(paths[i].clone());
            assert(text::texts(out@) =~= before.push(paths@[i as int]@));
        }
        i += 1;
    }
    assert(views.take(i as int) =~= views);
    out
}

/// Whether a part of a path is a name, whatever its case.
pub open spec fn is_named(part: Seq<char>, name: Seq<char>) -> bool {
    text::lower(part) == text::lower(name)
}

/// Whether two names follow each other in a path.
pub open spec fn has_pair(parts: Seq<Seq<char>>, first: Seq<char>, second: Seq<char>) -> bool {
    exists|i: int|
        0 <= i < parts.len() - 1 && is_named(#[trigger] parts[i], first) && is_named(
            parts[i + 1],
            second,
        )
}

/// Whether a name occurs in a path.
pub open spec fn has_part(parts: Seq<Seq<char>>, name: Seq<char>) -> bool {
    exists|i: int| 0 <= i < parts.len() && is_named(#[trigger] parts[i], name)
}

/// Whether two names follow each other in a path.
fn contains_pair(parts: &Vec<String>, first: &str, second: &str) -> (r: bool)
    ensures
        r == has_pair(text::texts(parts@), first@, second@),
{
    let ghost views = text::texts(parts@);
    if parts.len() < 2 {
        return false;
    }
    let last: usize = parts.len() - 1;
    let mut i: usize = 0;
    while i < last
        invariant
            i <= last,
            last == parts@.len() - 1,
            views == text::texts(parts@),
            forall|j: int|
                0 <= j < i ==> !(is_named(#[trigger] views[j], first@) && is_named(
                    views[j + 1],
                    second@,
                )),
        decreases last - i,
    {
        assert(views[i as int] == parts@[i as int]@);
        assert(views[i + 1] == parts@[i + 1]@);
        if parts[i].as_str().eq_ignore_ascii_case(first)
            && parts[i + 1].as_str().eq_ignore_ascii_case(second) {
            return true;
        }
        i += 1;
    }
    false
}

/// Whether a name occurs in a path.
fn contains_part(parts: &Vec<String>, name: &str) -> (r: bool)
    ensures
        r == has_part(text::texts(parts@), name@),
{
    let ghost views = text::texts(parts@);
    let mut i: usize = 0;
    while i < parts.len()
        invariant
            i <= parts@.len(),
            views == text::texts(parts@),
            forall|j: int| 0 <= j < i ==> !is_named(#[trigger] views[j], name@),
        decreases parts@.len() - i,
    {
        assert(views[i as int] == parts@[i as int]@);
        if parts[i].as_str().eq_ignore_ascii_case(name) {
            return true;
        }
        i += 1;
    }
    false
}

/// Whether a storage is one that is used today, told from the parts of its path.
pub open spec fn is_active_layout(parts: Seq<Seq<char>>, root_layouts_active: bool) -> bool {
    ||| has_part(parts, "Partitions"@)
    ||| has_pair(parts, "web"@, "Codex"@)
    ||| root_layouts_active && has_pair(parts, "Local Storage"@, "leveldb"@)
}

/// Whether a storage is one that the desktop application of today uses, by the parts of its path.
pub fn codex_desktop_leveldb_candidate_is_active_layout_for_platform(
    parts: &Vec<String>,
    root_layouts_active: bool,
) -> (r: bool)
    ensures
        r == is_active_layout(text::texts(parts@), root_layouts_active),
{
    contains_part(parts, "Partitions") || contains_pair(parts, "web", "Codex") || (
    root_layouts_active && contains_pair(parts, "Local Storage", "leveldb"))
}

/// What came of one storage.
#[derive(Debug, Clone, Copy, PartialEq, Eq, Structural)]
pub struct CodexDesktopCachePathSyncResult {
    pub updated_count: usize,
    pub ready_model_cache: bool,
    pub requires_short_retry: bool,
}

/// What came of one storage, or the error, and whether it is one that is used today.
#[derive(Debug)]
pub struct PathOutcome {
    pub active_layout: bool,
    pub result: Result<CodexDesktopCachePathSyncResult, String>,
}

/// What came of all storages.
#[derive(Debug, Clone, Copy, PartialEq, Eq, Structural)]
pub struct CodexDesktopCacheSyncResult {
    pub updated_count: usize,
    pub needs_discovery: bool,
}

/// How many entries were written.
pub open spec fn total_updates(outcomes: Seq<PathOutcome>) -> nat
    decreases outcomes.len(),
{
    if outcomes.len() == 0 {
        0
    } else {
        total_updates(outcomes.drop_last()) + match outcomes.last().result {
            Ok(result) => result.updated_count as nat,
            Err(_) => 0,
        }
    }
}

/// The errors.
pub open spec fn errors_of(outcomes: Seq<PathOutcome>) -> Seq<Seq<char>>
    decreases outcomes.len(),
{
    if outcomes.len() == 0 {
        Seq::empty()
    } else {
        let front = errors_of(outcomes.drop_last());
        match outcomes.last().result {
            Ok(_) => front,
            Err(e) => front.push(e@),
        }
    }
}

/// Whether a storage is in use today and could be read.
pub open spec fn is_read(outcome: PathOutcome) -> bool {
    outcome.active_layout && outcome.result is Ok
}

/// Whether there is a storage of today, and all of these are safe.
pub open spec fn is_settled(outcomes: Seq<PathOutcome>) -> bool {
    &&& exists|i: int| 0 <= i < outcomes.len() && is_read(#[trigger] outcomes[i])
    &&& forall|i: int|
        0 <= i < outcomes.len() && is_read(#[trigger] outcomes[i])
            ==> outcomes[i].result->Ok_0.ready_model_cache
            && !outcomes[i].result->Ok_0.requires_short_retry
}

/// Whether one of some errors is that of a storage in use.
pub open spec fn has_locked(errors: Seq<Seq<char>>) -> bool {
    exists|i: int| 0 <= i < errors.len() && text::occurs(#[trigger] errors[i], LOCKED_ERROR@)
}

/// What a result of all storages stands for.
pub open spec fn sync_view(r: Result<CodexDesktopCacheSyncResult, String>) -> Result<
    CodexDesktopCacheSyncResult,
    Seq<char>,
> {
    match r {
        Ok(result) => Ok(result),
        Err(e) => Err(e@),
    }
}

/// What comes of all storages. A storage in use, or none that could be brought in line, is an
/// error; else those that could not be read are looked for again.
pub open spec fn sync_result(outcomes: Seq<PathOutcome>, ids_empty: bool) -> Result<
    CodexDesktopCacheSyncResult,
    Seq<char>,
> {
    let errors = errors_of(outcomes);
    let total = total_updates(outcomes);
    if has_locked(errors) || (total == 0 && errors.len() > 0) {
        Err(text::join(errors, "; "@))
    } else {
        Ok(
            CodexDesktopCacheSyncResult {
                updated_count: total as usize,
                needs_discovery: errors.len() > 0 || (!ids_empty && !is_settled(outcomes)),
            },
        )
    }
}

/// Whether an error is that of a storage in use.
pub fn codex_desktop_cache_error_is_locked(err: &str) -> (r: bool)
    ensures
        r == text::occurs(err@, LOCKED_ERROR@),
{
    str_contains(err, LOCKED_ERROR)
}

proof fn lemma_total_front(outcomes: Seq<PathOutcome>, n: int)
    requires
        0 <= n <= outcomes.len(),
    ensures
        total_updates(outcomes.take(n)) <= total_updates(outcomes),
    decreases outcomes.len() - n,
{
    if n < outcomes.len() {
        assert(outcomes.take(n + 1).drop_last() =~= outcomes.take(n));
        lemma_total_front(outcomes, n + 1);
    } else {
        assert(outcomes.take(n) =~= outcomes);
    }
}

/// What comes of all storages.
pub fn sync_codex_desktop_available_models_cache_candidates_with_mode(
    outcomes: &Vec<PathOutcome>,
    ids_empty: bool,
) -> (r: Result<CodexDesktopCacheSyncResult, String>)
    requires
        total_updates(outcomes@) <= usize::MAX,
    ensures
        sync_view(r) == sync_result(outcomes@, ids_empty),
{
    let mut updated_count: usize = 0;
    let mut found = false;
    let mut ready = true;
    let mut locked = false;
    let mut errors: Vec<String> = Vec::new();
    let mut i: usize = 0;
    assert(text::texts(errors@) =~= Seq::<Seq<char>>::empty());
    while i < outcomes.len()
        invariant
            i <= outcomes@.len(),
            total_updates(outcomes@) <= usize::MAX,
            updated_count == total_updates(outcomes@.take(i as int)),
            text::texts(errors@) == errors_of(outcomes@.take(i as int)),
            locked == has_locked(text::texts(errors@)),
            found <==> exists|j: int| 0 <= j < i && is_read(#[trigger] outcomes@[j]),
            ready <==> forall|j: int|
                0 <= j < i && is_read(#[trigger] outcomes@[j])
                    ==> outcomes@[j].result->Ok_0.ready_model_cache
                    && !outcomes@[j].result->Ok_0.requires_short_retry,
        decreases outcomes@.len() - i,
    {
        proof {
            assert(outcomes@.take(i + 1).drop_last() =~= outcomes@.take(i as int));
            assert(outcomes@.take(i + 1).last() == outcomes@[i as int]);
            lemma_total_front(outcomes@, i + 1);
        }
        match &outcomes[i].result {
            Ok(result) => {
                updated_count = updated_count + result.updated_count;
                if outcomes[i].active_layout {
                    assert(is_read(outcomes@[i as int]));
                    found = true;
                    if !result.ready_model_cache || result.requires_short_retry {
                        ready = false;
                    }
                }
            },
            Err(e) => {
                let ghost before = text::texts(errors@);
                let is_locked = codex_desktop_cache_error_is_locked(e.as_str());
                errors.push(e.clone());
                proof {
                    let after = text::texts(errors@);
                    assert(after =~= before.push(e@));
                    assert(after[after.len() - 1] == e@);
                    if has_locked(before) {
                        let k = choose|k: int|
                            0 <= k < before.len() && text::occurs(
                                #[trigger] before[k],
                                LOCKED_ERROR@,
                            );
                        assert(after[k] == before[k]);
                    }
                    if has_locked(after) && !is_locked {
                        let k = choose|k: int|
                            0 <= k < after.len() && text::occurs(#[trigger] after[k], LOCKED_ERROR@);
                        assert(before[k] == after[k]);
                    }
                }
                if is_locked {
                    locked = true;
                }
            },
        }
        i += 1;
    }
    assert(outcomes@.take(i as int) =~= outcomes@);
    assert(text::texts(errors@).len() == errors@.len());
    if locked || (updated_count == 0 && !errors.is_empty()) {
        return Err(join_list(&errors, "; "));
    }
    Ok(
        CodexDesktopCacheSyncResult {
            updated_count,
            needs_discovery: !errors.is_empty() || (!ids_empty && !(found && ready)),
        },
    )
}

/// What came of a retry.
#[derive(Debug)]
pub enum CodexDesktopCacheRetryOutcome {
    Synced(usize),
    Discovering(usize),
    Superseded,
    Failed(String),
}

/// What came of a retry: nothing, where there were other models in the meantime.
pub fn retry_outcome(
    current_generation: u64,
    generation: u64,
    result: Result<CodexDesktopCacheSyncResult, String>,
) -> (r: CodexDesktopCacheRetryOutcome)
    ensures
        match r {
            CodexDesktopCacheRetryOutcome::Superseded => current_generation != generation,
            CodexDesktopCacheRetryOutcome::Synced(n) => current_generation == generation
                && sync_view(result) == Ok::<CodexDesktopCacheSyncResult, Seq<char>>(
                CodexDesktopCacheSyncResult { updated_count: n, needs_discovery: false },
            ),
            CodexDesktopCacheRetryOutcome::Discovering(n) => current_generation == generation
                && sync_view(result) == Ok::<CodexDesktopCacheSyncResult, Seq<char>>(
                CodexDesktopCacheSyncResult { updated_count: n, needs_discovery: true },
            ),
            CodexDesktopCacheRetryOutcome::Failed(e) => current_generation == generation
                && sync_view(result) == Err::<CodexDesktopCacheSyncResult, Seq<char>>(e@),
        },
{
    if current_generation != generation {
        return CodexDesktopCacheRetryOutcome::Superseded;
    }
    match result {
        Ok(result) => if result.needs_discovery {
            CodexDesktopCacheRetryOutcome::Discovering(result.updated_count)
        } else {
            CodexDesktopCacheRetryOutcome::Synced(result.updated_count)
        },
        Err(e) => CodexDesktopCacheRetryOutcome::Failed(e),
    }
}

/// Twice a delay, up to the longest.
pub open spec fn doubled(secs: u64) -> u64 {
    if 2 * secs > CODEX_DESKTOP_CACHE_RETRY_MAX_DELAY_SECS {
        CODEX_DESKTOP_CACHE_RETRY_MAX_DELAY_SECS
    } else {
        (2 * secs) as u64
    }
}

/// When something is done next, and the delay of the retry after that.
pub open spec fn next_delay(
    outcome: CodexDesktopCacheRetryOutcome,
    has_custom_catalog: bool,
    retry_delay_secs: u64,
) -> (Option<u64>, u64) {
    match outcome {
        CodexDesktopCacheRetryOutcome::Superseded => (None, retry_delay_secs),
        CodexDesktopCacheRetryOutcome::Synced(_) => if has_custom_catalog {
            (
                Some(CODEX_DESKTOP_CACHE_RENEWAL_INTERVAL_SECS),
                CODEX_DESKTOP_CACHE_RETRY_INITIAL_DELAY_SECS,
            )
        } else {
            (None, retry_delay_secs)
        },
        _ => (Some(retry_delay_secs), doubled(retry_delay_secs)),
    }
}

/// When something is done next: a renewal after a success, a retry after anything else, with a
/// delay that doubles each time.
pub fn codex_desktop_cache_worker_next_delay(
    outcome: &CodexDesktopCacheRetryOutcome,
    has_custom_catalog: bool,
    retry_delay_secs: &mut u64,
) -> (r: Option<u64>)
    ensures
        (r, *final(retry_delay_secs)) == next_delay(
            *outcome,
            has_custom_catalog,
            *old(retry_delay_secs),
        ),
{
    match outcome {
        CodexDesktopCacheRetryOutcome::Superseded => None,
        CodexDesktopCacheRetryOutcome::Synced(_) => {
            if !has_custom_catalog {
                return None;
            }
            *retry_delay_secs = CODEX_DESKTOP_CACHE_RETRY_INITIAL_DELAY_SECS;
            Some(CODEX_DESKTOP_CACHE_RENEWAL_INTERVAL_SECS)
        },
        _ => {
            let delay: u64 = *retry_delay_secs;
            *retry_delay_secs = if delay > CODEX_DESKTOP_CACHE_RETRY_MAX_DELAY_SECS / 2 {
                CODEX_DESKTOP_CACHE_RETRY_MAX_DELAY_SECS
            } else {
                2 * delay
            };
            Some(delay)
        },
    }
}

/// What the background worker has to do: for which models, and after how many seconds.
#[derive(Debug)]
pub struct CodexDesktopCacheWorkerTask {
    pub generation: u64,
    pub model_ids: Vec<String>,
    pub pin_policy: CodexDesktopCachePinPolicy,
    pub next_delay: u64,
    pub retry_delay_secs: u64,
}

/// What the background worker is told.
#[derive(Debug)]
pub enum CodexDesktopCacheWorkerUpdate {
    Schedule {
        generation: u64,
        model_ids: Vec<String>,
        pin_policy: CodexDesktopCachePinPolicy,
        next_delay: u64,
    },
    Cancel { generation: u64 },
}

impl CodexDesktopCacheWorkerTask {
    /// Whether the next retry comes soon enough: after at least one second, and after at most the
    /// longest delay.
    pub open spec fn well_formed(&self) -> bool {
        CODEX_DESKTOP_CACHE_RETRY_INITIAL_DELAY_SECS <= self.retry_delay_secs
            <= CODEX_DESKTOP_CACHE_RETRY_MAX_DELAY_SECS
    }
}

/// Whether a worker has nothing to do, or a task whose next retry comes soon enough.
pub open spec fn task_well_formed(task: Option<CodexDesktopCacheWorkerTask>) -> bool {
    task matches Some(task) ==> task.well_formed()
}

/// What the worker has to do once it was told something. What is about other models than those of
/// now is ignored.
pub fn apply_worker_update(
    task: Option<CodexDesktopCacheWorkerTask>,
    update: CodexDesktopCacheWorkerUpdate,
    current_generation: u64,
) -> (r: Option<CodexDesktopCacheWorkerTask>)
    ensures
        match update {
            CodexDesktopCacheWorkerUpdate::Schedule {
                generation,
                model_ids,
                pin_policy,
                next_delay,
            } => if generation == current_generation {
                r == Some(
                    CodexDesktopCacheWorkerTask {
                        generation,
                        model_ids,
                        pin_policy,
                        next_delay,
                        retry_delay_secs: CODEX_DESKTOP_CACHE_RETRY_INITIAL_DELAY_SECS,
                    },
                )
            } else {
                r == task
            },
            CodexDesktopCacheWorkerUpdate::Cancel { generation } => if generation
                == current_generation {
                r is None
            } else {
                r == task
            },
        },
        task_well_formed(task) ==> task_well_formed(r),
{
    match update {
        CodexDesktopCacheWorkerUpdate::Schedule {
            generation,
            model_ids,
            pin_policy,
            next_delay,
        } => {
            if generation == current_generation {
                Some(
                    CodexDesktopCacheWorkerTask {
                        generation,
                        model_ids,
                        pin_policy,
                        next_delay,
                        retry_delay_secs: CODEX_DESKTOP_CACHE_RETRY_INITIAL_DELAY_SECS,
                    },
                )
            } else {
                task
            }
        },
        CodexDesktopCacheWorkerUpdate::Cancel { generation } => {
            if generation == current_generation {
                None
            } else {
                task
            }
        },
    }
}

/// What the worker has to do after a retry.
pub fn task_after_retry(
    task: CodexDesktopCacheWorkerTask,
    outcome: &CodexDesktopCacheRetryOutcome,
) -> (r: Option<CodexDesktopCacheWorkerTask>)
    ensures
        ({
            let next = next_delay(*outcome, task.model_ids@.len() > 0, task.retry_delay_secs);
            match next.0 {
                Some(delay) => r == Some(
                    CodexDesktopCacheWorkerTask {
                        generation: task.generation,
                        model_ids: task.model_ids,
                        pin_policy: task.pin_policy,
                        next_delay: delay,
                        retry_delay_secs: next.1,
                    },
                ),
                None => r is None,
            }
        }),
        task.well_formed() ==> task_well_formed(r),
{
    let mut task = task;
    let has_models = !task.model_ids.is_empty();
    let mut retry: u64 = task.retry_delay_secs;
    match codex_desktop_cache_worker_next_delay(outcome, has_models, &mut retry) {
        Some(delay) => {
            task.next_delay = delay;
            task.retry_delay_secs = retry;
            Some(task)
        },
        None => None,
    }
}

/// After how many seconds the worker looks again, where it does.
pub open spec fn delay_after(
    result: Result<CodexDesktopCacheSyncResult, Seq<char>>,
    ids_empty: bool,
) -> Option<u64> {
    match result {
        Ok(result) => if result.needs_discovery {
            Some(CODEX_DESKTOP_CACHE_RETRY_INITIAL_DELAY_SECS)
        } else if ids_empty {
            None
        } else {
            Some(CODEX_DESKTOP_CACHE_RENEWAL_INTERVAL_SECS)
        },
        Err(_) => Some(CODEX_DESKTOP_CACHE_RETRY_INITIAL_DELAY_SECS),
    }
}

/// When the worker is to do something after the storages were brought in line, or not: soon, where
/// that has to be tried again; else when the list is renewed, where there is one.
pub fn delay_after_sync(result: &Result<CodexDesktopCacheSyncResult, String>, ids_empty: bool) -> (r:
    Option<u64>)
    ensures
        r == delay_after(sync_view(*result), ids_empty),
{
    match result {
        Ok(result) => {
            if result.needs_discovery {
                Some(CODEX_DESKTOP_CACHE_RETRY_INITIAL_DELAY_SECS)
            } else if ids_empty {
                None
            } else {
                Some(CODEX_DESKTOP_CACHE_RENEWAL_INTERVAL_SECS)
            }
        },
        Err(_) => Some(CODEX_DESKTOP_CACHE_RETRY_INITIAL_DELAY_SECS),
    }
}

/// What the worker is told after the storages were brought in line.
pub fn worker_update_after_sync(
    generation: u64,
    model_ids: Vec<String>,
    pin_policy: CodexDesktopCachePinPolicy,
    next_delay: Option<u64>,
) -> (r: CodexDesktopCacheWorkerUpdate)
    ensures
        r == match next_delay {
            Some(next_delay) => CodexDesktopCacheWorkerUpdate::Schedule {
                generation,
                model_ids,
                pin_policy,
                next_delay,
            },
            None => CodexDesktopCacheWorkerUpdate::Cancel { generation },
        },
{
    match next_delay {
        Some(next_delay) => CodexDesktopCacheWorkerUpdate::Schedule {
            generation,
            model_ids,
            pin_policy,
            next_delay,
        },
        None => CodexDesktopCacheWorkerUpdate::Cancel { generation },
    }
}

/// What happens to the lists of models.
#[derive(Debug)]
pub enum CacheSync {
    /// These models are listed, and times are set for that.
    List(Vec<String>),
    /// Models that were added go, and times stay.
    RemoveOwned,
    /// Nothing: only what the worker has to do is dropped.
    Invalidate,
}

/// What a [`CacheSync`] stands for.
pub enum CacheSyncView {
    List(Seq<Seq<char>>),
    RemoveOwned,
    Invalidate,
}

impl CacheSync {
    pub open spec fn view(&self) -> CacheSyncView {
        match self {
            CacheSync::List(ids) => CacheSyncView::List(text::texts(ids@)),
            CacheSync::RemoveOwned => CacheSyncView::RemoveOwned,
            CacheSync::Invalidate => CacheSyncView::Invalidate,
        }
    }
}

/// Whether a config points to a catalog of the user's own: to some file that is not resolved as the
/// generated one.
pub open spec fn has_external_pointer(config: Seq<char>, resolved: bool) -> bool {
    live_catalog::catalog_pointer(config) is Some && !resolved
}

/// Whether a config points to a catalog of the user's own.
pub fn codex_config_has_external_model_catalog_pointer(config_text: &str, resolved: bool) -> (r: bool)
    ensures
        r == has_external_pointer(config_text@, resolved),
{
    let tree = match parse_toml(config_text) {
        Some(tree) => tree,
        None => {
            return false;
        },
    };
    let has_pointer = match tree.get_str("model_catalog_json") {
        Some(pointer) => !pointer.trim().is_empty(),
        None => false,
    };
    has_pointer && !resolved
}

/// The models of settings.
pub fn sync_codex_desktop_available_models_cache_from_settings(settings: &Json) -> (r: CacheSync)
    ensures
        r@ == CacheSyncView::List(statsig_models::model_ids(settings@)),
{
    CacheSync::List(codex_model_ids_from_settings(settings))
}

/// The models of settings whose catalog was read again; `None` where it could not be.
pub open spec fn reloaded_ids(settings: JsonView, catalog: Option<JsonView>) -> Option<
    Seq<Seq<char>>,
> {
    match catalog {
        Some(catalog) => if settings is Object {
            Some(statsig_models::model_ids(settings.put("modelCatalog"@, catalog)))
        } else {
            None
        },
        None => None,
    }
}

/// The models of settings whose catalog was read again.
pub fn codex_desktop_available_models_cache_ids_after_restored_catalog_reload(
    settings: &Json,
    model_catalog: Option<Json>,
) -> (r: Option<Vec<String>>)
    ensures
        statsig_models::list_option(r) == reloaded_ids(
            settings@,
            json::option_view(model_catalog),
        ),
{
    match model_catalog {
        Some(catalog) => {
            if !settings.is_object() {
                return None;
            }
            let mut restored = settings.clone();
            restored.insert("modelCatalog", catalog);
            Some(codex_model_ids_from_settings(&restored))
        },
        None => None,
    }
}

/// What a catalog that was read again stands for: `Err` where it could not be read.
pub open spec fn catalog_read(catalog: Result<Option<Json>, ()>) -> Result<Option<JsonView>, ()> {
    match catalog {
        Ok(catalog) => Ok(json::option_view(catalog)),
        Err(e) => Err(e),
    }
}

/// What happens to the lists of models once live files were put back. `resolved` says whether their
/// config points to the generated catalog, and `catalog` is what that holds.
pub open spec fn sync_after_restore(
    settings: JsonView,
    resolved: bool,
    catalog: Result<Option<JsonView>, ()>,
) -> CacheSyncView {
    let config = match settings.get_text("config"@) {
        Some(config) => config,
        None => Seq::empty(),
    };
    if settings.get("modelCatalog"@) is Some {
        CacheSyncView::List(statsig_models::model_ids(settings))
    } else if resolved {
        match catalog {
            Ok(catalog) => CacheSyncView::List(
                match reloaded_ids(settings, catalog) {
                    Some(ids) => ids,
                    None => Seq::empty(),
                },
            ),
            Err(_) => CacheSyncView::Invalidate,
        }
    } else if has_external_pointer(config, resolved) {
        CacheSyncView::RemoveOwned
    } else {
        CacheSyncView::List(statsig_models::model_ids(settings))
    }
}

/// What happens to the lists of models once live files were put back.
pub fn sync_codex_desktop_available_models_cache_after_live_restore(
    settings: &Json,
    resolved: bool,
    catalog: Result<Option<Json>, ()>,
) -> (r: CacheSync)
    ensures
        r@ == sync_after_restore(settings@, resolved, catalog_read(catalog)),
{
    if settings.get("modelCatalog").is_some() {
        return sync_codex_desktop_available_models_cache_from_settings(settings);
    }
    if resolved {
        return match catalog {
            Ok(catalog) => {
                match codex_desktop_available_models_cache_ids_after_restored_catalog_reload(
                    settings,
                    catalog,
                ) {
                    Some(ids) => CacheSync::List(ids),
                    None => {
                        let none: Vec<String> = Vec::new();
                        assert(text::texts(none@) =~= Seq::<Seq<char>>::empty());
                        CacheSync::List(none)
                    },
                }
            },
            Err(_) => CacheSync::Invalidate,
        };
    }
    let external = match settings.get_str("config") {
        Some(config) => codex_config_has_external_model_catalog_pointer(config, resolved),
        None => {
            let empty = String::new();
            assert(empty@ =~= Seq::<char>::empty());
            codex_config_has_external_model_catalog_pointer(empty.as_str(), resolved)
        },
    };
    if external {
        CacheSync::RemoveOwned
    } else {
        sync_codex_desktop_available_models_cache_from_settings(settings)
    }
}

/// What happens to the lists of models once a provider was switched to. For a catalog of the user's
/// own no models are added.
pub open spec fn sync_after_write(
    settings: JsonView,
    config: Option<Seq<char>>,
    resolved: bool,
) -> CacheSyncView {
    if settings.get("modelCatalog"@) is None && (config matches Some(config)
        && has_external_pointer(config, resolved)) {
        CacheSyncView::RemoveOwned
    } else {
        CacheSyncView::List(statsig_models::model_ids(settings))
    }
}

/// What happens to the lists of models once a provider was switched to.
pub fn sync_codex_desktop_available_models_cache_after_provider_write(
    settings: &Json,
    config_text: Option<&str>,
    resolved: bool,
) -> (r: CacheSync)
    ensures
        r@ == sync_after_write(settings@, text::slice_text(config_text), resolved),
{
    let external = match config_text {
        Some(config) => codex_config_has_external_model_catalog_pointer(config, resolved),
        None => false,
    };
    if settings.get("modelCatalog").is_none() && external {
        return CacheSync::RemoveOwned;
    }
    sync_codex_desktop_available_models_cache_from_settings(settings)
}

} // verus!
