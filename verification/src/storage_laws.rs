//! What holds of the sessions that are shared, and of the snapshots that are kept of them.

use crate::conversations::{
    ConversationFacts, CopiedCounts, FileStep, SnapshotDir, SnapshotStep, StampView,
};
use crate::error::ErrorView;
use crate::json::{JsonView, NumberView};
use crate::unified_storage::{
    BackFacts, HomeFacts, LinkFacts, LinkStep, MoveFacts, MoveStep, StateStep, StorageFacts,
    StorageStep,
};
use crate::{conversations, text, unified_storage};
use vstd::prelude::*;
use vstd::string::*;

verus! {

/// A directory is moved only where it is there and is no link, and only into a place that is missing
/// or empty: data that is in both places is never mixed, and a step for it is an error.
pub proof fn law_data_in_both_places_is_not_mixed(
    step: MoveStep,
    facts: MoveFacts,
    target: Seq<char>,
    name: Seq<char>,
)
    requires
        unified_storage::is_move_step(step, facts, target, name),
    ensures
        facts.source_is_link || !facts.source_exists <==> step is Nothing,
        !facts.source_is_link && facts.source_exists && facts.target_exists && !facts.target_empty
            <==> step is Refuse,
        !facts.source_is_link && facts.source_exists && (!facts.target_exists || facts.target_empty)
            <==> step is Move,
{
}

/// A directory is moved back only where it holds something, and only to where nothing new is: new
/// data is never overwritten. An empty one that was left is taken away.
pub proof fn law_new_data_is_not_overwritten(step: MoveStep, facts: BackFacts, link: Seq<char>)
    requires
        unified_storage::is_back_step(step, facts, link),
    ensures
        !facts.place_exists <==> step is Nothing,
        facts.place_exists && facts.place_empty <==> step is Clear,
        facts.place_exists && !facts.place_empty && facts.codex_exists && !facts.codex_empty
            <==> step is Refuse,
        facts.place_exists && !facts.place_empty && (!facts.codex_exists || facts.codex_empty)
            <==> step is Move,
{
}

/// A link is made only where nothing is, is made anew where it leads elsewhere, and what is no link
/// is never replaced by one.
pub proof fn law_what_is_no_link_stays(
    step: LinkStep,
    facts: LinkFacts,
    link: Seq<char>,
    target: Seq<char>,
    windows: bool,
)
    requires
        unified_storage::is_link_step(step, facts, link, target, windows),
    ensures
        ({
            let elsewhere = facts.current is Some && unified_storage::path_key(
                facts.current->Some_0@,
                windows,
            ) != unified_storage::path_key(target, windows);
            &&& !facts.is_link && facts.exists <==> step is Refuse
            &&& !facts.is_link && !facts.exists <==> step is Create
            &&& facts.is_link && elsewhere <==> step is Rebuild
            &&& facts.is_link && !elsewhere <==> step is Keep
        }),
{
}

/// Sessions are shared only between two config directories that are known to be in one home, and not
/// where the shared place alone is a temporary one.
pub proof fn law_which_homes_can_share(facts: HomeFacts)
    ensures
        ({
            let temp = unified_storage::path_key(facts.temp_dir@, facts.windows);
            let one = facts.app_root is Some && facts.codex_root is Some
                && unified_storage::path_key(facts.app_root->Some_0@, facts.windows)
                == unified_storage::path_key(facts.codex_root->Some_0@, facts.windows);
            let temporary = temp.is_prefix_of(
                unified_storage::path_key(facts.unified_home@, facts.windows),
            ) && !temp.is_prefix_of(
                unified_storage::path_key(facts.codex_root->Some_0@, facts.windows),
            );
            unified_storage::home_check(facts) is Ok <==> one && !temporary
        }),
{
}

/// Two paths have one key where they differ in their slashes alone, or in slashes at their end; on
/// Windows also where one has the mark of a long path.
pub proof fn law_which_paths_are_one(path: Seq<char>, windows: bool)
    ensures
        unified_storage::path_key(unified_storage::with_slashes(path), windows)
            == unified_storage::path_key(path, windows),
        !windows ==> unified_storage::path_key(path.push('/'), windows) == unified_storage::path_key(
            path,
            windows,
        ),
        !windows ==> unified_storage::path_key(path.push('\\'), windows)
            == unified_storage::path_key(path, windows),
        !"//?/"@.is_prefix_of(unified_storage::with_slashes(path)) ==> unified_storage::path_key(
            "//?/"@ + path,
            true,
        ) == unified_storage::path_key(path, true),
{
    let slashed = unified_storage::with_slashes(path);
    assert(unified_storage::with_slashes(slashed) =~= slashed);
    assert(unified_storage::with_slashes(path.push('/')) =~= slashed.push('/'));
    assert(unified_storage::with_slashes(path.push('\\')) =~= slashed.push('/'));
    assert(slashed.push('/').drop_last() =~= slashed);
    reveal_strlit("//?/");
    let long = "//?/"@ + path;
    assert(unified_storage::with_slashes("//?/"@) =~= "//?/"@);
    assert(unified_storage::with_slashes(long) =~= "//?/"@ + slashed);
    assert(("//?/"@ + slashed).skip("//?/"@.len() as int) =~= slashed);
    assert("//?/"@.is_prefix_of("//?/"@ + slashed));
}

/// Storage is shared exactly where it is turned on and both directories are links to it, and what is
/// reported of it is what was found.
pub proof fn law_when_storage_is_shared(facts: StorageFacts)
    ensures
        ({
            let now = unified_storage::current(facts);
            &&& now.active <==> facts.toggle && facts.sessions_linked && facts.archived_linked
            &&& now.enabled == facts.toggle
            &&& now.codex_dir == facts.codex_dir@
            &&& now.sessions_dir == facts.sessions_dir@
            &&& now.archived_dir == facts.archived_dir@
            &&& now.state_dir == facts.state_dir@
            &&& now.migrated_sessions == 0
            &&& now.migrated_archived == 0
            &&& now.migrated_state_dbs == 0
            &&& now.skipped_reason is None
        }),
{
}

/// A state file is moved by its name, and only where that fails is it copied; where both fail it is in
/// use, and once it was moved nothing else is done.
pub proof fn law_how_a_state_file_is_moved(ok: bool)
    ensures
        unified_storage::state_step_after(StateStep::Rename, true) == StateStep::Moved(1),
        unified_storage::state_step_after(StateStep::Rename, false) == StateStep::Backup,
        unified_storage::state_step_after(StateStep::Backup, true) == StateStep::Moved(1),
        unified_storage::state_step_after(StateStep::Backup, false) == StateStep::Busy,
        unified_storage::state_step_after(StateStep::Busy, ok) == StateStep::Busy,
        forall|n: usize| #[trigger]
            unified_storage::state_step_after(StateStep::Moved(n), ok) == StateStep::Moved(n),
{
}

/// All steps of turning shared storage on, each behind the one before: data is moved before it is
/// linked to, and both before the marker and the setting are written. A step that fails ends it.
pub proof fn law_how_sharing_is_turned_on()
    ensures
        ({
            let next = |step: StorageStep| unified_storage::step_after(true, step, true);
            &&& unified_storage::start(true) is CheckHome
            &&& next(StorageStep::CheckHome) is MakeCodexDir
            &&& next(StorageStep::MakeCodexDir) is MoveState
            &&& next(StorageStep::MoveState) is MoveSessions
            &&& next(StorageStep::MoveSessions) is MoveArchived
            &&& next(StorageStep::MoveArchived) is LinkSessions
            &&& next(StorageStep::LinkSessions) is LinkArchived
            &&& next(StorageStep::LinkArchived) is WriteMarker
            &&& next(StorageStep::WriteMarker) is SetToggle
            &&& next(StorageStep::SetToggle) is Done
        }),
        forall|step: StorageStep|
            !(step is Done) && !(step is RemoveMarker) ==> #[trigger] unified_storage::step_after(
                true,
                step,
                false,
            ) is Failed,
{
}

/// All steps of turning it off: everything is moved back before the marker goes and the setting
/// changes. A step that fails ends it, but for the marker, which may be gone.
pub proof fn law_how_sharing_is_turned_off()
    ensures
        ({
            let next = |step: StorageStep| unified_storage::step_after(false, step, true);
            &&& unified_storage::start(false) is MakeCodexDir
            &&& next(StorageStep::MakeCodexDir) is MoveSessions
            &&& next(StorageStep::MoveSessions) is MoveArchived
            &&& next(StorageStep::MoveArchived) is MoveState
            &&& next(StorageStep::MoveState) is RemoveMarker
            &&& next(StorageStep::RemoveMarker) is SetToggle
            &&& next(StorageStep::SetToggle) is Done
        }),
        unified_storage::step_after(false, StorageStep::RemoveMarker, false) is SetToggle,
        forall|step: StorageStep|
            !(step is Done) && !(step is RemoveMarker) ==> #[trigger] unified_storage::step_after(
                false,
                step,
                false,
            ) is Failed,
{
}

/// A directory is a snapshot of a config directory exactly where it is not one that was made before a
/// restore, and its description says so.
pub proof fn law_which_directories_are_snapshots(dir: SnapshotDir, codex_key: Seq<char>)
    ensures
        conversations::is_snapshot_of(dir, codex_key) <==> !"pre-restore"@.is_prefix_of(dir.name@)
            && dir.meta is Some && dir.meta->Some_0@.get("codexConfigDir"@) == Some(
            JsonView::Str(codex_key),
        ),
{
}

/// Whether a directory is a finished snapshot.
pub open spec fn is_kept_kind(dir: SnapshotDir) -> bool {
    !"pre-restore"@.is_prefix_of(dir.name@) && !"in-progress"@.is_prefix_of(dir.name@)
}

/// Whether a directory is a finished snapshot that is newer than another, or as new and before it.
pub open spec fn is_newer(dirs: Seq<SnapshotDir>, j: int, i: int) -> bool {
    is_kept_kind(dirs[j]) && (dirs[j].modified > dirs[i].modified || (dirs[j].modified
        == dirs[i].modified && j < i))
}

/// Which of the first directories are newer than one.
pub open spec fn newer(dirs: Seq<SnapshotDir>, i: int, n: nat) -> Set<int> {
    Set::new(|j: int| 0 <= j < n && is_newer(dirs, j, i))
}

proof fn lemma_rank(dirs: Seq<SnapshotDir>, i: int, n: nat)
    ensures
        newer(dirs, i, n).finite(),
        conversations::rank(dirs, i, n) == newer(dirs, i, n).len(),
    decreases n,
{
    if n == 0 {
        assert(newer(dirs, i, n) =~= Set::empty());
    } else {
        let last = n - 1;
        lemma_rank(dirs, i, last as nat);
        let front = newer(dirs, i, last as nat);
        if is_newer(dirs, last, i) {
            assert(newer(dirs, i, n) =~= front.insert(last));
            assert(!front.contains(last));
        } else {
            assert(newer(dirs, i, n) =~= front);
        }
        assert(conversations::comes_before(dirs, last, i) == is_newer(dirs, last, i));
    }
}

/// Which directories are taken away: of the finished snapshots those that ten newer ones stand before,
/// of those that were never finished the ones that are older than ten minutes, and never one that was
/// made before a restore.
pub proof fn law_which_snapshots_are_taken_away(dirs: Seq<SnapshotDir>, now: i128, i: int)
    requires
        0 <= i < dirs.len(),
    ensures
        "pre-restore"@.is_prefix_of(dirs[i].name@) ==> !conversations::is_pruned(dirs, now, i),
        is_kept_kind(dirs[i]) ==> (conversations::is_pruned(dirs, now, i) <==> newer(
            dirs,
            i,
            dirs.len(),
        ).len() >= 10),
        !"pre-restore"@.is_prefix_of(dirs[i].name@) && "in-progress"@.is_prefix_of(dirs[i].name@)
            ==> (conversations::is_pruned(dirs, now, i) <==> now - dirs[i].modified
            > 600_000_000_000),
{
    lemma_rank(dirs, i, dirs.len());
}

/// Whether there is anything of a conversation.
pub open spec fn is_something(facts: ConversationFacts) -> bool {
    facts.sessions || facts.archived || facts.index || facts.state_dbs > 0
}

/// When no snapshot is made, and why: it is turned off, there is no config directory, there is
/// nothing to keep, or nothing changed. Else one is made.
pub proof fn law_when_no_snapshot_is_made(
    enabled: bool,
    facts: ConversationFacts,
    stamps: Seq<StampView>,
    latest: Option<JsonView>,
)
    ensures
        ({
            let why = conversations::skip_reason(enabled, facts);
            &&& !enabled ==> why == Some("toggle_off"@)
            &&& enabled && !facts.codex_dir ==> why == Some("no_codex_dir"@)
            &&& enabled && facts.codex_dir && !is_something(facts) ==> why == Some(
                "no_conversation_data"@,
            )
            &&& enabled && facts.codex_dir && is_something(facts) ==> why is None
        }),
        ({
            let why = conversations::skip_reason_if_changed(enabled, facts, stamps, latest);
            let known = latest is Some && latest->Some_0.get_text("fingerprint"@)
                == conversations::fingerprint(stamps);
            &&& !enabled ==> why == Some("toggle_off"@)
            &&& enabled && !facts.codex_dir ==> why == Some("no_codex_dir"@)
            &&& enabled && facts.codex_dir && stamps.len() == 0 ==> why == Some(
                "no_conversation_data"@,
            )
            &&& enabled && facts.codex_dir && stamps.len() > 0 && known ==> why == Some(
                "unchanged"@,
            )
            &&& enabled && facts.codex_dir && stamps.len() > 0 && !known && is_something(facts)
                ==> why is None
        }),
{
}

/// A number in a description.
pub open spec fn is_count(value: Option<JsonView>, n: usize) -> bool {
    value == Some(JsonView::Number(NumberView::Unsigned(n as u64)))
}

/// A snapshot is described by its config directory, when it was made, how much of each kind it holds,
/// and the fingerprint of what was there.
pub proof fn law_what_describes_a_snapshot(
    codex_key: Seq<char>,
    created_at: Seq<char>,
    counts: CopiedCounts,
    own: Option<Seq<char>>,
)
    ensures
        ({
            let meta = conversations::snapshot_meta(codex_key, created_at, counts, own);
            &&& meta.get("codexConfigDir"@) == Some(JsonView::Str(codex_key))
            &&& meta.get("createdAt"@) == Some(JsonView::Str(created_at))
            &&& is_count(meta.get("jsonlFiles"@), counts.jsonl_files)
            &&& is_count(meta.get("archivedFiles"@), counts.archived_files)
            &&& is_count(meta.get("stateDbs"@), counts.state_dbs)
            &&& own is Some ==> meta.get("fingerprint"@) == Some(JsonView::Str(own->Some_0))
            &&& own is None ==> meta.get("fingerprint"@) == Some(JsonView::Null)
        }),
{
    reveal_strlit("codexConfigDir");
    reveal_strlit("createdAt");
    reveal_strlit("jsonlFiles");
    reveal_strlit("archivedFiles");
    reveal_strlit("stateDbs");
    reveal_strlit("fingerprint");
    assert("codexConfigDir"@.len() == 14);
    assert("createdAt"@.len() == 9);
    assert("jsonlFiles"@.len() == 10);
    assert("archivedFiles"@.len() == 13);
    assert("stateDbs"@.len() == 8);
    assert("fingerprint"@.len() == 11);
}

/// A snapshot that copied nothing is none; any other reports its directory and its counts.
pub proof fn law_what_comes_of_a_snapshot(counts: CopiedCounts, dir: Seq<char>)
    ensures
        ({
            let outcome = conversations::snapshot_outcome(counts, dir);
            let nothing = counts.jsonl_files == 0 && counts.archived_files == 0 && counts.state_dbs
                == 0;
            &&& nothing ==> outcome.snapshot_dir is None && outcome.skipped_reason == Some(
                "no_conversation_data"@,
            )
            &&& !nothing ==> {
                &&& outcome.snapshot_dir == Some(dir)
                &&& outcome.jsonl_files == counts.jsonl_files
                &&& outcome.archived_files == counts.archived_files
                &&& outcome.state_dbs == counts.state_dbs
                &&& outcome.skipped_reason is None
            }
        }),
{
}

/// A file that can be linked is; where that fails it is copied, and that decides.
pub proof fn law_how_a_file_is_kept(ok: bool)
    ensures
        conversations::file_step_after(FileStep::Link, true) == FileStep::Done(true),
        conversations::file_step_after(FileStep::Link, false) == FileStep::Copy,
        conversations::file_step_after(FileStep::Copy, ok) == FileStep::Done(ok),
        forall|done: bool| #[trigger]
            conversations::file_step_after(FileStep::Done(done), ok) == FileStep::Done(done),
{
}

/// A file is linked to an earlier copy only where the last file of its path is the same: as long, and
/// as old.
pub proof fn law_only_the_same_file_is_linked(
    earlier: Seq<StampView>,
    file: StampView,
    k: int,
)
    requires
        0 <= k < earlier.len(),
        earlier[k].path == file.path,
        forall|j: int| k < j < earlier.len() ==> (#[trigger] earlier[j]).path != file.path,
    ensures
        conversations::is_unchanged(earlier, file) <==> earlier[k].len == file.len
            && earlier[k].mtime == file.mtime,
    decreases earlier.len(),
{
    if k < earlier.len() - 1 {
        assert(earlier[earlier.len() - 1].path != file.path);
        assert(earlier.drop_last()[k] == earlier[k]);
        assert forall|j: int| k < j < earlier.drop_last().len() implies (
        #[trigger] earlier.drop_last()[j]).path != file.path by {
            assert(earlier[j].path != file.path);
        }
        law_only_the_same_file_is_linked(earlier.drop_last(), file, k);
    }
}

/// A file that has no earlier copy is not linked.
pub proof fn law_a_new_file_is_copied(earlier: Seq<StampView>, file: StampView)
    requires
        forall|j: int| 0 <= j < earlier.len() ==> (#[trigger] earlier[j]).path != file.path,
    ensures
        !conversations::is_unchanged(earlier, file),
    decreases earlier.len(),
{
    if earlier.len() > 0 {
        assert(earlier[earlier.len() - 1].path != file.path);
        assert forall|j: int| 0 <= j < earlier.drop_last().len() implies (
        #[trigger] earlier.drop_last()[j]).path != file.path by {
            assert(earlier[j].path != file.path);
        }
        law_a_new_file_is_copied(earlier.drop_last(), file);
    }
}

/// All steps of a snapshot, each behind the one before. One that copied nothing is thrown away, and
/// one that cannot be put in its place is taken away again.
pub proof fn law_how_a_snapshot_is_made(ok: bool, empty: bool)
    ensures
        conversations::snapshot_step_after(SnapshotStep::MakeStaging, true, empty) is CopyFiles,
        conversations::snapshot_step_after(SnapshotStep::MakeStaging, false, empty) is Failed,
        conversations::snapshot_step_after(SnapshotStep::CopyFiles, ok, true) is Discard,
        conversations::snapshot_step_after(SnapshotStep::CopyFiles, ok, false) is WriteMeta,
        conversations::snapshot_step_after(SnapshotStep::Discard, ok, empty) is Skipped,
        conversations::snapshot_step_after(SnapshotStep::WriteMeta, ok, empty) is Rename,
        conversations::snapshot_step_after(SnapshotStep::Rename, true, empty) is Prune,
        conversations::snapshot_step_after(SnapshotStep::Rename, false, empty) is RemoveStaging,
        conversations::snapshot_step_after(SnapshotStep::RemoveStaging, ok, empty) is Failed,
        conversations::snapshot_step_after(SnapshotStep::Prune, ok, empty) is Done,
{
}

/// Files are told apart by their paths first, then by their lengths, then by their times.
pub proof fn law_how_files_are_ordered(a: StampView, b: StampView)
    ensures
        a.path != b.path ==> (conversations::stamp_le(a, b) <==> text::text_le(a.path, b.path)),
        a.path == b.path && a.len != b.len ==> (conversations::stamp_le(a, b) <==> a.len < b.len),
        a.path == b.path && a.len == b.len ==> (conversations::stamp_le(a, b) <==> a.mtime
            <= b.mtime),
{
}

/// A snapshot that is skipped has no directory and no counts, and says why.
pub proof fn law_what_a_skipped_snapshot_says(why: Seq<char>)
    ensures
        ({
            let outcome = conversations::skipped(why);
            &&& outcome.snapshot_dir is None
            &&& outcome.jsonl_files == 0
            &&& outcome.archived_files == 0
            &&& outcome.state_dbs == 0
            &&& outcome.skipped_reason == Some(why)
        }),
{
}

/// Where two directories cannot share, the error names both of them, or the place that is temporary.
pub proof fn law_why_homes_cannot_share(facts: HomeFacts)
    requires
        unified_storage::home_check(facts) is Err,
    ensures
        unified_storage::home_check(facts)->Err_0 matches ErrorView::Message(m) && text::occurs(
            m,
            facts.codex_dir@,
        ) && (text::occurs(m, facts.app_dir@) || text::occurs(m, facts.unified_home@)),
{
    let codex = facts.codex_dir@;
    let app = facts.app_dir@;
    let home = facts.unified_home@;
    if !unified_storage::same_home(facts) {
        let m = unified_storage::two_homes_error(facts)->Message_0;
        let a = "Codex 配置目录（"@;
        let b = "）与应用配置目录（"@;
        assert(m.subrange(a.len() as int, (a.len() + codex.len()) as int) =~= codex);
        assert(text::occurs_at(m, codex, a.len() as int));
        let at = (a.len() + codex.len() + b.len()) as int;
        assert(m.subrange(at, at + app.len()) =~= app);
        assert(text::occurs_at(m, app, at));
    } else {
        let m = unified_storage::temporary_error(facts)->Message_0;
        let a = "统一存储目录 "@;
        let b = " 位于系统临时目录下（Codex 目录 "@;
        assert(m.subrange(a.len() as int, (a.len() + home.len()) as int) =~= home);
        assert(text::occurs_at(m, home, a.len() as int));
        let at = (a.len() + home.len() + b.len()) as int;
        assert(m.subrange(at, at + codex.len()) =~= codex);
        assert(text::occurs_at(m, codex, at));
    }
}

/// The latest snapshot of a config directory is one that none is newer than, the first of those that
/// are as new, and there is only one such.
pub proof fn law_there_is_one_latest_snapshot(
    dirs: Seq<SnapshotDir>,
    codex_key: Seq<char>,
    i: int,
    j: int,
)
    requires
        conversations::is_latest(dirs, codex_key, i),
        0 <= j < dirs.len(),
        conversations::is_snapshot_of(dirs[j], codex_key),
    ensures
        0 <= i < dirs.len(),
        conversations::is_snapshot_of(dirs[i], codex_key),
        dirs[j].modified <= dirs[i].modified,
        dirs[j].modified == dirs[i].modified ==> i <= j,
        conversations::is_latest(dirs, codex_key, j) ==> i == j,
{
}

/// A snapshot that none is newer than, and that is the first of those that are as new, is the latest.
pub proof fn law_the_newest_snapshot_is_the_latest(
    dirs: Seq<SnapshotDir>,
    codex_key: Seq<char>,
    i: int,
)
    requires
        0 <= i < dirs.len(),
        conversations::is_snapshot_of(dirs[i], codex_key),
        forall|j: int|
            0 <= j < dirs.len() && conversations::is_snapshot_of(#[trigger] dirs[j], codex_key)
                ==> dirs[j].modified < dirs[i].modified || (dirs[j].modified == dirs[i].modified
                && i <= j),
    ensures
        conversations::is_latest(dirs, codex_key, i),
{
}

/// Each number is mixed into the fingerprint of the files in one way, from one number on.
pub proof fn law_how_numbers_are_mixed(hash: u64, value: u64)
    ensures
        conversations::stamps_hash(Seq::empty()) == 0xcbf2_9ce4_8422_2325,
        conversations::mixed(hash, value) == (hash ^ value).wrapping_mul(0x0000_0100_0000_01b3),
{
}

} // verus!
