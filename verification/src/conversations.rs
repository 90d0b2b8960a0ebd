//! Snapshots of the conversations of the desktop application, and putting them back.

use crate::catalog_ids::FNV_OFFSET;
use crate::json::{Json, JsonView, NumberView};
use crate::text::{hex_text, is_text_le, join2, str_eq, str_starts_with};
use crate::unified_storage::slashed_text;
use crate::{catalog_ids, json, text, unified_storage};
use vstd::prelude::*;
use vstd::string::*;
use vstd::utf8::*;

verus! {

/// The directory of the snapshots, among the backups.
pub const CODEX_DESKTOP_CONVERSATIONS_BACKUP_NAME: &'static str = "codex-desktop-conversations";

/// The start of the names of directories that keep what was there before conversations were put
/// back.
pub const CODEX_DESKTOP_CONVERSATIONS_PRE_RESTORE_PREFIX: &'static str = "pre-restore";

/// The start of the names of directories that a snapshot is being written into.
pub const CODEX_DESKTOP_CONVERSATIONS_IN_PROGRESS_PREFIX: &'static str = "in-progress";

/// So many snapshots are kept.
pub const CODEX_DESKTOP_CONVERSATIONS_MAX_KEEP: usize = 10;

/// For so many nanoseconds a snapshot may be written before it counts as broken off.
pub const STALE_GRACE_NANOS: i128 = 600_000_000_000;

/// What was copied into a snapshot.
#[derive(Debug)]
pub struct CodexDesktopConversationsSnapshotOutcome {
    pub snapshot_dir: Option<String>,
    pub jsonl_files: usize,
    pub archived_files: usize,
    pub state_dbs: usize,
    pub skipped_reason: Option<String>,
}

/// What was put back from a snapshot.
#[derive(Debug)]
pub struct CodexDesktopConversationsRestoreOutcome {
    pub snapshot_dir: Option<String>,
    pub jsonl_files: usize,
    pub archived_files: usize,
    pub state_dbs: usize,
    pub skipped_reason: Option<String>,
}

/// What both kinds of outcome stand for.
pub struct OutcomeView {
    pub snapshot_dir: Option<Seq<char>>,
    pub jsonl_files: usize,
    pub archived_files: usize,
    pub state_dbs: usize,
    pub skipped_reason: Option<Seq<char>>,
}

impl CodexDesktopConversationsSnapshotOutcome {
    pub open spec fn view(&self) -> OutcomeView {
        OutcomeView {
            snapshot_dir: text::text_of(self.snapshot_dir),
            jsonl_files: self.jsonl_files,
            archived_files: self.archived_files,
            state_dbs: self.state_dbs,
            skipped_reason: text::text_of(self.skipped_reason),
        }
    }
}

impl CodexDesktopConversationsRestoreOutcome {
    pub open spec fn view(&self) -> OutcomeView {
        OutcomeView {
            snapshot_dir: text::text_of(self.snapshot_dir),
            jsonl_files: self.jsonl_files,
            archived_files: self.archived_files,
            state_dbs: self.state_dbs,
            skipped_reason: text::text_of(self.skipped_reason),
        }
    }
}

/// The outcome of a snapshot that was left out.
pub open spec fn skipped(reason: Seq<char>) -> OutcomeView {
    OutcomeView {
        snapshot_dir: None,
        jsonl_files: 0,
        archived_files: 0,
        state_dbs: 0,
        skipped_reason: Some(reason),
    }
}

/// The outcome of a snapshot that was left out.
fn skipped_snapshot(reason: &str) -> (r: CodexDesktopConversationsSnapshotOutcome)
    ensures
        r@ == skipped(reason@),
{
    CodexDesktopConversationsSnapshotOutcome {
        snapshot_dir: None,
        jsonl_files: 0,
        archived_files: 0,
        state_dbs: 0,
        skipped_reason: Some(reason.to_owned()),
    }
}

/// A file as it is told from another version of itself: its path, its size and when it was changed.
#[derive(Debug)]
pub struct FileStamp {
    pub path: String,
    pub len: u64,
    pub mtime: u64,
}

/// What a [`FileStamp`] stands for.
pub struct StampView {
    pub path: Seq<char>,
    pub len: u64,
    pub mtime: u64,
}

impl FileStamp {
    pub open spec fn view(&self) -> StampView {
        StampView { path: self.path@, len: self.len, mtime: self.mtime }
    }

    /// A copy of the stamp.
    pub fn copy(&self) -> (r: FileStamp)
        ensures
            r@ == self@,
    {
        FileStamp { path: self.path.clone(), len: self.len, mtime: self.mtime }
    }
}

/// What some stamps stand for.
pub open spec fn stamps_view(stamps: Seq<FileStamp>) -> Seq<StampView> {
    stamps.map_values(|s: FileStamp| s.view())
}

/// The order of stamps: by path, then by size, then by time.
pub open spec fn stamp_le(a: StampView, b: StampView) -> bool {
    if a.path != b.path {
        text::text_le(a.path, b.path)
    } else if a.len != b.len {
        a.len < b.len
    } else {
        a.mtime <= b.mtime
    }
}

/// A list in order with one more stamp in it.
pub open spec fn placed(list: Seq<StampView>, stamp: StampView) -> Seq<StampView>
    decreases list.len(),
{
    if list.len() == 0 || stamp_le(list.last(), stamp) {
        list.push(stamp)
    } else {
        placed(list.drop_last(), stamp).push(list.last())
    }
}

/// Stamps in their order.
pub open spec fn in_order(stamps: Seq<StampView>) -> Seq<StampView>
    decreases stamps.len(),
{
    if stamps.len() == 0 {
        Seq::empty()
    } else {
        placed(in_order(stamps.drop_last()), stamps.last())
    }
}

/// One step of the hash.
pub open spec fn mixed(hash: u64, value: u64) -> u64 {
    (hash ^ value).wrapping_mul(0x0000_0100_0000_01b3)
}

/// A hash with some bytes mixed in.
pub open spec fn mixed_bytes(hash: u64, bytes: Seq<u8>) -> u64
    decreases bytes.len(),
{
    if bytes.len() == 0 {
        hash
    } else {
        mixed(mixed_bytes(hash, bytes.drop_last()), bytes.last() as u64)
    }
}

/// A hash with a stamp mixed in: the length of its path, its path, its size and its time.
pub open spec fn mixed_stamp(hash: u64, stamp: StampView) -> u64 {
    let bytes = encode_utf8(stamp.path);
    mixed(mixed(mixed_bytes(mixed(hash, bytes.len() as u64), bytes), stamp.len), stamp.mtime)
}

/// The hash of some stamps.
pub open spec fn stamps_hash(stamps: Seq<StampView>) -> u64
    decreases stamps.len(),
{
    if stamps.len() == 0 {
        FNV_OFFSET
    } else {
        mixed_stamp(stamps_hash(stamps.drop_last()), stamps.last())
    }
}

/// By what the conversations are told from another version of them; `None` where there are none.
pub open spec fn fingerprint(stamps: Seq<StampView>) -> Option<Seq<char>> {
    if stamps.len() == 0 {
        None
    } else {
        Some(text::hex(stamps_hash(in_order(stamps)) as nat, 16))
    }
}

/// The order of stamps.
fn is_stamp_le(a: &FileStamp, b: &FileStamp) -> (r: bool)
    ensures
        r == stamp_le(a@, b@),
{
    if !str_eq(a.path.as_str(), b.path.as_str()) {
        is_text_le(a.path.as_str(), b.path.as_str())
    } else if a.len != b.len {
        a.len < b.len
    } else {
        a.mtime <= b.mtime
    }
}

/// Where a stamp goes into a list in order.
proof fn lemma_placed(list: Seq<StampView>, stamp: StampView, at: int)
    requires
        0 <= at <= list.len(),
        at > 0 ==> stamp_le(list[at - 1], stamp),
        forall|j: int| at <= j < list.len() ==> !stamp_le(#[trigger] list[j], stamp),
    ensures
        placed(list, stamp) == list.insert(at, stamp),
    decreases list.len(),
{
    if at == list.len() {
        assert(list.insert(at, stamp) =~= list.push(stamp));
    } else {
        let front = list.drop_last();
        assert(!stamp_le(list[list.len() - 1], stamp));
        assert(at > 0 ==> front[at - 1] == list[at - 1]);
        assert forall|j: int| at <= j < front.len() implies !stamp_le(
            #[trigger] front[j],
            stamp,
        ) by {
            assert(front[j] == list[j]);
        }
        lemma_placed(front, stamp, at);
        assert(list.insert(at, stamp) =~= front.insert(at, stamp).push(list.last()));
    }
}

/// Stamps in their order.
fn ordered(stamps: &Vec<FileStamp>) -> (r: Vec<FileStamp>)
    ensures
        stamps_view(r@) == in_order(stamps_view(stamps@)),
{
    let ghost views = stamps_view(stamps@);
    let mut out: Vec<FileStamp> = Vec::new();
    let mut i: usize = 0;
    assert(stamps_view(out@) =~= Seq::<StampView>::empty());
    while i < stamps.len()
        invariant
            i <= stamps@.len(),
            views == stamps_view(stamps@),
            stamps_view(out@) == in_order(views.take(i as int)),
        decreases stamps@.len() - i,
    {
        let ghost before = stamps_view(out@);
        let ghost stamp = stamps@[i as int]@;
        let mut at: usize = out.len();
        while at > 0 && !is_stamp_le(&out[at - 1], &stamps[i])
            invariant
                i < stamps@.len(),
                stamp == stamps@[i as int]@,
                at <= out@.len(),
                before == stamps_view(out@),
                forall|j: int| at <= j < out@.len() ==> !stamp_le(#[trigger] before[j], stamp),
            decreases at,
        {
            assert(before[at - 1] == out@[at - 1]@);
            at -= 1;
        }
        proof {
            if at > 0 {
                assert(before[at - 1] == out@[at - 1]@);
            }
            lemma_placed(before, stamp, at as int);
        }
        out.insert(at, stamps[i].copy());
        proof {
            assert(stamps_view(out@) =~= before.insert(at as int, stamp));
            assert(views.take(i + 1).drop_last() =~= views.take(i as int));
            assert(views.take(i + 1).last() == stamp);
        }
        i += 1;
    }
    assert(views.take(i as int) =~= views);
    out
}

/// One step of the hash.
fn mix(hash: u64, value: u64) -> (r: u64)
    ensures
        r == mixed(hash, value),
{
    (hash ^ value).wrapping_mul(0x0000_0100_0000_01b3)
}

/// A hash with a stamp mixed in.
fn mix_stamp(hash: u64, stamp: &FileStamp) -> (r: u64)
    ensures
        r == mixed_stamp(hash, stamp@),
{
    let bytes = stamp.path.as_str().as_bytes();
    let start = mix(hash, bytes.len() as u64);
    let mut h: u64 = start;
    let mut i: usize = 0;
    while i < bytes.len()
        invariant
            i <= bytes@.len(),
            h == mixed_bytes(start, bytes@.take(i as int)),
        decreases bytes@.len() - i,
    {
        assert(bytes@.take(i + 1).drop_last() =~= bytes@.take(i as int));
        h = mix(h, bytes[i] as u64);
        i += 1;
    }
    assert(bytes@.take(i as int) =~= bytes@);
    mix(mix(h, stamp.len), stamp.mtime)
}

/// By what the conversations are told from another version of them. A snapshot can be left out
/// while that stays the same.
pub fn conversation_fingerprint(stamps: &Vec<FileStamp>) -> (r: Option<String>)
    ensures
        text::text_of(r) == fingerprint(stamps_view(stamps@)),
{
    if stamps.is_empty() {
        return None;
    }
    let sorted = ordered(stamps);
    let ghost views = stamps_view(sorted@);
    let mut hash: u64 = FNV_OFFSET;
    let mut i: usize = 0;
    while i < sorted.len()
        invariant
            i <= sorted@.len(),
            views == stamps_view(sorted@),
            hash == stamps_hash(views.take(i as int)),
        decreases sorted@.len() - i,
    {
        assert(views.take(i + 1).drop_last() =~= views.take(i as int));
        assert(views.take(i + 1).last() == sorted@[i as int]@);
        hash = mix_stamp(hash, &sorted[i]);
        i += 1;
    }
    assert(views.take(i as int) =~= views);
    Some(hex_text(hash))
}

/// Whether a list is in order.
spec fn is_ascending(list: Seq<StampView>) -> bool {
    forall|i: int, j: int|
        0 <= i < j < list.len() ==> stamp_le(#[trigger] list[i], #[trigger] list[j])
}

proof fn lemma_stamp_le_total(a: StampView, b: StampView)
    ensures
        stamp_le(a, b) || stamp_le(b, a),
        stamp_le(a, a),
{
    text::lemma_text_le_total(a.path, b.path);
}

proof fn lemma_stamp_le_transitive(a: StampView, b: StampView, c: StampView)
    requires
        stamp_le(a, b),
        stamp_le(b, c),
    ensures
        stamp_le(a, c),
{
    if a.path != b.path && b.path != c.path {
        text::lemma_text_le_transitive(a.path, b.path, c.path);
        if a.path == c.path {
            text::lemma_text_le_antisymmetric(a.path, b.path);
        }
    }
}

proof fn lemma_stamp_le_antisymmetric(a: StampView, b: StampView)
    requires
        stamp_le(a, b),
        stamp_le(b, a),
    ensures
        a == b,
{
    if a.path != b.path {
        text::lemma_text_le_antisymmetric(a.path, b.path);
    }
}

/// Placing a stamp keeps the order, and adds that stamp alone.
proof fn lemma_placed_ordered(list: Seq<StampView>, stamp: StampView)
    requires
        is_ascending(list),
    ensures
        is_ascending(placed(list, stamp)),
        placed(list, stamp).to_multiset() == list.to_multiset().insert(stamp),
        forall|x: StampView|
            #[trigger] placed(list, stamp).contains(x) ==> x == stamp || list.contains(x),
    decreases list.len(),
{
    broadcast use vstd::seq_lib::group_to_multiset_ensures;

    let out = placed(list, stamp);
    if list.len() == 0 || stamp_le(list.last(), stamp) {
        vstd::seq_lib::to_multiset_build(list, stamp);
        assert forall|i: int, j: int| 0 <= i < j < out.len() implies stamp_le(
            #[trigger] out[i],
            #[trigger] out[j],
        ) by {
            if j == list.len() && i < list.len() - 1 {
                lemma_stamp_le_transitive(list[i], list.last(), stamp);
            }
        }
        assert forall|x: StampView| #[trigger] out.contains(x) implies x == stamp || list.contains(
            x,
        ) by {
            let k = choose|k: int| 0 <= k < out.len() && out[k] == x;
            if k < list.len() {
                assert(list[k] == x);
            }
        }
    } else {
        let front = list.drop_last();
        let last = list.last();
        lemma_placed_ordered(front, stamp);
        let inner = placed(front, stamp);
        lemma_stamp_le_total(last, stamp);
        vstd::seq_lib::to_multiset_build(inner, last);
        assert(list =~= front.push(last));
        vstd::seq_lib::to_multiset_build(front, last);
        assert(front.to_multiset().insert(stamp).insert(last) =~= front.to_multiset().insert(
            last,
        ).insert(stamp));
        assert forall|i: int, j: int| 0 <= i < j < out.len() implies stamp_le(
            #[trigger] out[i],
            #[trigger] out[j],
        ) by {
            if j == inner.len() {
                assert(inner.contains(inner[i]));
                if out[i] != stamp {
                    assert(front.contains(out[i]));
                    let k = choose|k: int| 0 <= k < front.len() && front[k] == out[i];
                    assert(list[k] == out[i]);
                    assert(stamp_le(list[k], list[list.len() - 1]));
                }
            }
        }
        assert forall|x: StampView| #[trigger] out.contains(x) implies x == stamp || list.contains(
            x,
        ) by {
            let k = choose|k: int| 0 <= k < out.len() && out[k] == x;
            if k < inner.len() {
                assert(inner[k] == x);
                assert(inner.contains(x));
                if x != stamp {
                    let m = choose|m: int| 0 <= m < front.len() && front[m] == x;
                    assert(list[m] == x);
                }
            } else {
                assert(list[list.len() - 1] == x);
            }
        }
    }
}

/// Putting stamps in order keeps them.
proof fn lemma_in_order(stamps: Seq<StampView>)
    ensures
        is_ascending(in_order(stamps)),
        in_order(stamps).to_multiset() == stamps.to_multiset(),
    decreases stamps.len(),
{
    if stamps.len() > 0 {
        let front = stamps.drop_last();
        lemma_in_order(front);
        lemma_placed_ordered(in_order(front), stamps.last());
        assert(stamps =~= front.push(stamps.last()));
        vstd::seq_lib::to_multiset_build(front, stamps.last());
    } else {
        assert(stamps =~= Seq::<StampView>::empty());
    }
}

/// Two lists in order that hold the same are the same.
proof fn lemma_ascending_unique(a: Seq<StampView>, b: Seq<StampView>)
    requires
        is_ascending(a),
        is_ascending(b),
        a.to_multiset() == b.to_multiset(),
    ensures
        a == b,
    decreases a.len(),
{
    broadcast use vstd::seq_lib::group_to_multiset_ensures;

    a.to_multiset_ensures();
    b.to_multiset_ensures();
    assert(a.len() == b.len());
    if a.len() == 0 {
        assert(a =~= b);
    } else {
        let x = a.last();
        let y = b.last();
        assert(a.contains(x)) by {
            assert(a[a.len() - 1] == x);
        }
        assert(b.contains(y)) by {
            assert(b[b.len() - 1] == y);
        }
        assert(a.to_multiset().count(x) > 0);
        assert(b.to_multiset().count(x) > 0);
        assert(b.contains(x));
        assert(b.to_multiset().count(y) > 0);
        assert(a.to_multiset().count(y) > 0);
        assert(a.contains(y));
        let i = choose|i: int| 0 <= i < b.len() && b[i] == x;
        let j = choose|j: int| 0 <= j < a.len() && a[j] == y;
        lemma_stamp_le_total(x, x);
        lemma_stamp_le_total(y, y);
        if i < b.len() - 1 {
            assert(stamp_le(b[i], b[b.len() - 1]));
        }
        if j < a.len() - 1 {
            assert(stamp_le(a[j], a[a.len() - 1]));
        }
        lemma_stamp_le_antisymmetric(x, y);
        let fa = a.drop_last();
        let fb = b.drop_last();
        assert(a =~= fa.push(x));
        assert(b =~= fb.push(x));
        vstd::seq_lib::to_multiset_build(fa, x);
        vstd::seq_lib::to_multiset_build(fb, x);
        assert(fa.to_multiset() =~= a.to_multiset().remove(x));
        assert(fb.to_multiset() =~= b.to_multiset().remove(x));
        lemma_ascending_unique(fa, fb);
    }
}

/// In which order files are found does not matter: the same files have the same fingerprint.
pub proof fn law_the_order_of_files_does_not_matter(a: Seq<StampView>, b: Seq<StampView>)
    requires
        a.to_multiset() == b.to_multiset(),
    ensures
        fingerprint(a) == fingerprint(b),
{
    lemma_in_order(a);
    lemma_in_order(b);
    lemma_ascending_unique(in_order(a), in_order(b));
    a.to_multiset_ensures();
    b.to_multiset_ensures();
}

/// The key of a file in a snapshot, with slashes on every platform.
pub fn snapshot_rel_key(prefix: &str, rel: &str) -> (r: String)
    ensures
        r@ == prefix@ + "/"@ + unified_storage::with_slashes(rel@),
{
    let mut out = join2(prefix, "/");
    out.push_str(slashed_text(rel).as_str());
    out
}

/// Whether a file is one of an earlier snapshot, unchanged. Of two with one key the later counts.
pub open spec fn is_unchanged(earlier: Seq<StampView>, file: StampView) -> bool
    decreases earlier.len(),
{
    if earlier.len() == 0 {
        false
    } else if earlier.last().path == file.path {
        earlier.last() == file
    } else {
        is_unchanged(earlier.drop_last(), file)
    }
}

/// Whether a file is one of an earlier snapshot, unchanged, so that it can be linked to instead of
/// being copied again.
pub fn can_link_file(earlier: &Vec<FileStamp>, file: &FileStamp) -> (r: bool)
    ensures
        r == is_unchanged(stamps_view(earlier@), file@),
{
    let ghost views = stamps_view(earlier@);
    let mut i: usize = earlier.len();
    assert(views.take(i as int) =~= views);
    while i > 0
        invariant
            i <= earlier@.len(),
            views == stamps_view(earlier@),
            is_unchanged(views.take(i as int), file@) == is_unchanged(views, file@),
        decreases i,
    {
        i -= 1;
        assert(views.take(i + 1).drop_last() =~= views.take(i as int));
        assert(views.take(i + 1).last() == earlier@[i as int]@);
        if str_eq(earlier[i].path.as_str(), file.path.as_str()) {
            return earlier[i].len == file.len && earlier[i].mtime == file.mtime;
        }
    }
    false
}

/// A directory among the snapshots: its name, what its description says, where it has one, and when
/// it was changed, in nanoseconds since 1970.
#[derive(Debug)]
pub struct SnapshotDir {
    pub name: String,
    pub meta: Option<Json>,
    pub modified: i128,
}

/// Whether a directory is a snapshot of a directory of Codex.
pub open spec fn is_snapshot_of(dir: SnapshotDir, codex_key: Seq<char>) -> bool {
    &&& !CODEX_DESKTOP_CONVERSATIONS_PRE_RESTORE_PREFIX@.is_prefix_of(dir.name@)
    &&& dir.meta matches Some(meta) && meta@.get_text("codexConfigDir"@) == Some(codex_key)
}

/// Whether a directory is a snapshot of a directory of Codex.
fn describes(dir: &SnapshotDir, codex_key: &str) -> (r: bool)
    ensures
        r == is_snapshot_of(*dir, codex_key@),
{
    if str_starts_with(dir.name.as_str(), CODEX_DESKTOP_CONVERSATIONS_PRE_RESTORE_PREFIX) {
        return false;
    }
    match &dir.meta {
        Some(meta) => match meta.get_str("codexConfigDir") {
            Some(key) => str_eq(key, codex_key),
            None => false,
        },
        None => false,
    }
}

/// Whether a directory is the latest snapshot of a directory of Codex: none is newer, and of those
/// that are as new it is the first.
pub open spec fn is_latest(dirs: Seq<SnapshotDir>, codex_key: Seq<char>, i: int) -> bool {
    &&& 0 <= i < dirs.len()
    &&& is_snapshot_of(dirs[i], codex_key)
    &&& forall|j: int|
        0 <= j < dirs.len() && is_snapshot_of(#[trigger] dirs[j], codex_key) ==> if j < i {
            dirs[j].modified < dirs[i].modified
        } else {
            dirs[j].modified <= dirs[i].modified
        }
}

/// The latest snapshot of a directory of Codex. One of another directory never counts.
pub fn latest_snapshot_dir_for_codex_dir(dirs: &Vec<SnapshotDir>, codex_key: &str) -> (r: Option<
    usize,
>)
    ensures
        match r {
            Some(i) => is_latest(dirs@, codex_key@, i as int),
            None => forall|j: int|
                0 <= j < dirs@.len() ==> !is_snapshot_of(#[trigger] dirs@[j], codex_key@),
        },
{
    let mut best: Option<usize> = None;
    let mut i: usize = 0;
    while i < dirs.len()
        invariant
            i <= dirs@.len(),
            match best {
                Some(b) => b < i && is_snapshot_of(dirs@[b as int], codex_key@) && forall|j: int|
                    0 <= j < i && is_snapshot_of(#[trigger] dirs@[j], codex_key@) ==> if j < b {
                        dirs@[j].modified < dirs@[b as int].modified
                    } else {
                        dirs@[j].modified <= dirs@[b as int].modified
                    },
                None => forall|j: int|
                    0 <= j < i ==> !is_snapshot_of(#[trigger] dirs@[j], codex_key@),
            },
        decreases dirs@.len() - i,
    {
        if describes(&dirs[i], codex_key) {
            match best {
                Some(b) => {
                    if dirs[i].modified > dirs[b].modified {
                        best = Some(i);
                    }
                },
                None => {
                    best = Some(i);
                },
            }
        }
        i += 1;
    }
    best
}

/// Whether there is a snapshot of a directory of Codex.
pub fn has_codex_desktop_conversations_backup(dirs: &Vec<SnapshotDir>, codex_key: &str) -> (r: bool)
    ensures
        r <==> exists|j: int|
            0 <= j < dirs@.len() && is_snapshot_of(#[trigger] dirs@[j], codex_key@),
{
    latest_snapshot_dir_for_codex_dir(dirs, codex_key).is_some()
}

/// Whether a directory is one that a snapshot is, or was, being written into.
pub open spec fn is_unfinished(dir: SnapshotDir) -> bool {
    &&& !CODEX_DESKTOP_CONVERSATIONS_PRE_RESTORE_PREFIX@.is_prefix_of(dir.name@)
    &&& CODEX_DESKTOP_CONVERSATIONS_IN_PROGRESS_PREFIX@.is_prefix_of(dir.name@)
}

/// Whether a directory is a finished snapshot.
pub open spec fn is_finished(dir: SnapshotDir) -> bool {
    &&& !CODEX_DESKTOP_CONVERSATIONS_PRE_RESTORE_PREFIX@.is_prefix_of(dir.name@)
    &&& !CODEX_DESKTOP_CONVERSATIONS_IN_PROGRESS_PREFIX@.is_prefix_of(dir.name@)
}

/// Whether a directory comes before another: it is newer, or as new and found earlier.
pub open spec fn comes_before(dirs: Seq<SnapshotDir>, j: int, i: int) -> bool {
    is_finished(dirs[j]) && (dirs[j].modified > dirs[i].modified || (dirs[j].modified
        == dirs[i].modified && j < i))
}

/// How many of the first `n` directories are finished snapshots that come before another.
pub open spec fn rank(dirs: Seq<SnapshotDir>, i: int, n: nat) -> nat
    decreases n,
{
    if n == 0 {
        0
    } else {
        rank(dirs, i, (n - 1) as nat) + if comes_before(dirs, n - 1, i) {
            1nat
        } else {
            0nat
        }
    }
}

/// Whether a directory goes: a snapshot that was broken off, once it is old enough not to be one
/// that is being written, and a finished one behind those that are kept. What was there before
/// conversations were put back always stays.
pub open spec fn is_pruned(dirs: Seq<SnapshotDir>, now: i128, i: int) -> bool {
    if is_unfinished(dirs[i]) {
        now - dirs[i].modified > STALE_GRACE_NANOS
    } else {
        is_finished(dirs[i]) && rank(dirs, i, dirs.len()) >= CODEX_DESKTOP_CONVERSATIONS_MAX_KEEP
    }
}

/// Whether a directory is a finished snapshot.
fn is_finished_dir(dir: &SnapshotDir) -> (r: bool)
    ensures
        r == is_finished(*dir),
{
    !str_starts_with(dir.name.as_str(), CODEX_DESKTOP_CONVERSATIONS_PRE_RESTORE_PREFIX)
        && !str_starts_with(dir.name.as_str(), CODEX_DESKTOP_CONVERSATIONS_IN_PROGRESS_PREFIX)
}

/// How many finished snapshots come before another.
fn rank_of(dirs: &Vec<SnapshotDir>, i: usize) -> (r: usize)
    requires
        i < dirs@.len(),
    ensures
        r == rank(dirs@, i as int, dirs@.len()),
{
    let mut count: usize = 0;
    let mut j: usize = 0;
    while j < dirs.len()
        invariant
            i < dirs@.len(),
            j <= dirs@.len(),
            count <= j,
            count == rank(dirs@, i as int, j as nat),
        decreases dirs@.len() - j,
    {
        if is_finished_dir(&dirs[j]) && (dirs[j].modified > dirs[i].modified || (dirs[j].modified
            == dirs[i].modified && j < i)) {
            count += 1;
        }
        j += 1;
    }
    count
}

/// The directories that go, each once and in their order.
pub fn prune_old_snapshots(dirs: &Vec<SnapshotDir>, now: i128) -> (r: Vec<usize>)
    ensures
        forall|k: int|
            0 <= k < r@.len() ==> (#[trigger] r@[k]) < dirs@.len() && is_pruned(
                dirs@,
                now,
                r@[k] as int,
            ),
        forall|i: int|
            0 <= i < dirs@.len() && #[trigger] is_pruned(dirs@, now, i) ==> r@.contains(i as usize),
        forall|k: int, l: int| 0 <= k < l < r@.len() ==> #[trigger] r@[k] < #[trigger] r@[l],
        r@.no_duplicates(),
{
    let mut out: Vec<usize> = Vec::new();
    let mut i: usize = 0;
    while i < dirs.len()
        invariant
            i <= dirs@.len(),
            forall|k: int|
                0 <= k < out@.len() ==> (#[trigger] out@[k]) < i && is_pruned(
                    dirs@,
                    now,
                    out@[k] as int,
                ),
            forall|j: int|
                0 <= j < i && #[trigger] is_pruned(dirs@, now, j) ==> out@.contains(j as usize),
            forall|k: int, l: int|
                0 <= k < l < out@.len() ==> #[trigger] out@[k] < #[trigger] out@[l],
        decreases dirs@.len() - i,
    {
        let dir = &dirs[i];
        let kept = str_starts_with(
            dir.name.as_str(),
            CODEX_DESKTOP_CONVERSATIONS_PRE_RESTORE_PREFIX,
        );
        let unfinished = !kept && str_starts_with(
            dir.name.as_str(),
            CODEX_DESKTOP_CONVERSATIONS_IN_PROGRESS_PREFIX,
        );
        let goes = if unfinished {
            is_older_than(dir.modified, now)
        } else {
            !kept && rank_of(dirs, i) >= CODEX_DESKTOP_CONVERSATIONS_MAX_KEEP
        };
        assert(goes == is_pruned(dirs@, now, i as int));
        let ghost before = out@;
        if goes {
            out.push(i);
            assert(out@[out@.len() - 1] == i);
        }
        proof {
            assert forall|j: int| 0 <= j < i + 1 && #[trigger] is_pruned(dirs@, now, j) implies
                out@.contains(j as usize) by {
                if j < i {
                    assert(before.contains(j as usize));
                    let k = choose|k: int| 0 <= k < before.len() && before[k] == j as usize;
                    assert(out@[k] == j as usize);
                }
            }
        }
        i += 1;
    }
    out
}

/// Whether a directory has not been changed for longer than a snapshot takes.
fn is_older_than(modified: i128, now: i128) -> (r: bool)
    ensures
        r == (now - modified > STALE_GRACE_NANOS),
{
    match now.checked_sub(modified) {
        Some(age) => age > STALE_GRACE_NANOS,
        None => now > modified,
    }
}

/// What is known of the conversations before a snapshot: whether the directory of Codex is there,
/// and what is in it.
#[derive(Debug)]
pub struct ConversationFacts {
    pub codex_dir: bool,
    pub sessions: bool,
    pub archived: bool,
    pub index: bool,
    pub state_dbs: usize,
}

/// Whether there is anything to copy.
pub open spec fn has_any(facts: ConversationFacts) -> bool {
    facts.sessions || facts.archived || facts.index || facts.state_dbs > 0
}

/// Why a snapshot is left out, where it is.
pub open spec fn skip_reason(enabled: bool, facts: ConversationFacts) -> Option<Seq<char>> {
    if !enabled {
        Some("toggle_off"@)
    } else if !facts.codex_dir {
        Some("no_codex_dir"@)
    } else if !has_any(facts) {
        Some("no_conversation_data"@)
    } else {
        None
    }
}

/// What a snapshot that is left out stands for.
pub open spec fn skipped_outcome(r: Option<CodexDesktopConversationsSnapshotOutcome>) -> Option<
    OutcomeView,
> {
    match r {
        Some(outcome) => Some(outcome@),
        None => None,
    }
}

/// The outcome of a snapshot that is left out; `None` where it is made.
pub fn snapshot_codex_desktop_conversations(enabled: bool, facts: &ConversationFacts) -> (r: Option<
    CodexDesktopConversationsSnapshotOutcome,
>)
    ensures
        skipped_outcome(r) == match skip_reason(enabled, *facts) {
            Some(reason) => Some(skipped(reason)),
            None => None,
        },
{
    if !enabled {
        return Some(skipped_snapshot("toggle_off"));
    }
    if !facts.codex_dir {
        return Some(skipped_snapshot("no_codex_dir"));
    }
    if facts.sessions || facts.archived || facts.index || facts.state_dbs > 0 {
        None
    } else {
        Some(skipped_snapshot("no_conversation_data"))
    }
}

/// The fingerprint in the description of a snapshot.
pub open spec fn described_fingerprint(meta: Option<JsonView>) -> Option<Seq<char>> {
    match meta {
        Some(meta) => meta.get_text("fingerprint"@),
        None => None,
    }
}

/// Why a snapshot is left out, where it is also left out for conversations that have not changed
/// since the latest one.
pub open spec fn skip_reason_if_changed(
    enabled: bool,
    facts: ConversationFacts,
    stamps: Seq<StampView>,
    latest: Option<JsonView>,
) -> Option<Seq<char>> {
    if !enabled {
        Some("toggle_off"@)
    } else if !facts.codex_dir {
        Some("no_codex_dir"@)
    } else if fingerprint(stamps) is None {
        Some("no_conversation_data"@)
    } else if described_fingerprint(latest) == fingerprint(stamps) {
        Some("unchanged"@)
    } else {
        skip_reason(true, facts)
    }
}

/// The outcome of a snapshot that is left out, also because nothing has changed since the latest
/// one; `None` where it is made.
pub fn snapshot_codex_desktop_conversations_if_changed(
    enabled: bool,
    facts: &ConversationFacts,
    stamps: &Vec<FileStamp>,
    latest: Option<&Json>,
) -> (r: Option<CodexDesktopConversationsSnapshotOutcome>)
    ensures
        skipped_outcome(r) == match skip_reason_if_changed(
            enabled,
            *facts,
            stamps_view(stamps@),
            json::ref_view(latest),
        ) {
            Some(reason) => Some(skipped(reason)),
            None => None,
        },
{
    if !enabled {
        return Some(skipped_snapshot("toggle_off"));
    }
    if !facts.codex_dir {
        return Some(skipped_snapshot("no_codex_dir"));
    }
    let own = match conversation_fingerprint(stamps) {
        Some(own) => own,
        None => {
            return Some(skipped_snapshot("no_conversation_data"));
        },
    };
    if let Some(latest) = latest {
        if let Some(known) = latest.get_str("fingerprint") {
            if str_eq(known, own.as_str()) {
                return Some(skipped_snapshot("unchanged"));
            }
        }
    }
    snapshot_codex_desktop_conversations(true, facts)
}

/// How many files were copied.
#[derive(Debug, Clone, Copy)]
pub struct CopiedCounts {
    pub jsonl_files: usize,
    pub archived_files: usize,
    pub state_dbs: usize,
}

/// Whether nothing was copied.
pub open spec fn is_empty_copy(counts: CopiedCounts) -> bool {
    counts.jsonl_files == 0 && counts.archived_files == 0 && counts.state_dbs == 0
}

/// What came of a snapshot.
pub open spec fn snapshot_outcome(counts: CopiedCounts, snapshot_dir: Seq<char>) -> OutcomeView {
    if is_empty_copy(counts) {
        skipped("no_conversation_data"@)
    } else {
        OutcomeView {
            snapshot_dir: Some(snapshot_dir),
            jsonl_files: counts.jsonl_files,
            archived_files: counts.archived_files,
            state_dbs: counts.state_dbs,
            skipped_reason: None,
        }
    }
}

/// The outcome of a snapshot whose files were copied. One without a single file goes again.
pub fn finish_snapshot(counts: &CopiedCounts, snapshot_dir: &str) -> (r:
    CodexDesktopConversationsSnapshotOutcome)
    ensures
        r@ == snapshot_outcome(*counts, snapshot_dir@),
{
    if counts.jsonl_files == 0 && counts.archived_files == 0 && counts.state_dbs == 0 {
        return skipped_snapshot("no_conversation_data");
    }
    CodexDesktopConversationsSnapshotOutcome {
        snapshot_dir: Some(snapshot_dir.to_owned()),
        jsonl_files: counts.jsonl_files,
        archived_files: counts.archived_files,
        state_dbs: counts.state_dbs,
        skipped_reason: None,
    }
}

/// How a file gets into a snapshot.
#[derive(Debug, Clone, Copy, PartialEq, Eq, Structural)]
pub enum FileStep {
    /// As a link to an earlier snapshot.
    Link,
    /// As a copy, with the time of the file.
    Copy,
    /// It is there, or it could not be copied.
    Done(bool),
}

/// How a file gets into a snapshot: as a link where it has not changed since an earlier one.
pub fn first_file_step(earlier: Option<&Vec<FileStamp>>, file: &FileStamp) -> (r: FileStep)
    ensures
        r == (if earlier matches Some(earlier) && is_unchanged(stamps_view(earlier@), file@) {
            FileStep::Link
        } else {
            FileStep::Copy
        }),
{
    match earlier {
        Some(earlier) => if can_link_file(earlier, file) {
            FileStep::Link
        } else {
            FileStep::Copy
        },
        None => FileStep::Copy,
    }
}

/// The step behind one with a file.
pub open spec fn file_step_after(step: FileStep, ok: bool) -> FileStep {
    match step {
        FileStep::Link => if ok {
            FileStep::Done(true)
        } else {
            FileStep::Copy
        },
        FileStep::Copy => FileStep::Done(ok),
        FileStep::Done(_) => step,
    }
}

/// How to go on with a file once a step went well, or not: where it cannot be linked it is copied.
pub fn next_file_step(step: FileStep, ok: bool) -> (r: FileStep)
    ensures
        r == file_step_after(step, ok),
{
    match step {
        FileStep::Link => if ok {
            FileStep::Done(true)
        } else {
            FileStep::Copy
        },
        FileStep::Copy => FileStep::Done(ok),
        FileStep::Done(done) => FileStep::Done(done),
    }
}

/// What is done to make a snapshot.
#[derive(Debug, Clone, Copy, PartialEq, Eq, Structural)]
pub enum SnapshotStep {
    /// Make the directory that it is written into first.
    MakeStaging,
    /// Copy the files. Files that cannot be copied are left out.
    CopyFiles,
    /// Take the directory away again, as there is nothing in it.
    Discard,
    /// Write the description.
    WriteMeta,
    /// Give the directory its name.
    Rename,
    /// Take the directory away again, as it could not be named.
    RemoveStaging,
    /// Take old snapshots away.
    Prune,
    /// The snapshot is there.
    Done,
    /// It was left out.
    Skipped,
    /// It could not be made.
    Failed,
}

/// What follows a step. Only the directories themselves have to work; a description that cannot be
/// written, and directories that stay, are no failure.
pub open spec fn snapshot_step_after(step: SnapshotStep, ok: bool, empty: bool) -> SnapshotStep {
    match step {
        SnapshotStep::MakeStaging => if ok {
            SnapshotStep::CopyFiles
        } else {
            SnapshotStep::Failed
        },
        SnapshotStep::CopyFiles => if empty {
            SnapshotStep::Discard
        } else {
            SnapshotStep::WriteMeta
        },
        SnapshotStep::Discard => SnapshotStep::Skipped,
        SnapshotStep::WriteMeta => SnapshotStep::Rename,
        SnapshotStep::Rename => if ok {
            SnapshotStep::Prune
        } else {
            SnapshotStep::RemoveStaging
        },
        SnapshotStep::RemoveStaging => SnapshotStep::Failed,
        SnapshotStep::Prune => SnapshotStep::Done,
        _ => step,
    }
}

/// What follows a step of making a snapshot, once it went well or not; `counts` says what was copied
/// so far.
pub fn next_snapshot_step(step: SnapshotStep, ok: bool, counts: &CopiedCounts) -> (r: SnapshotStep)
    ensures
        r == snapshot_step_after(step, ok, is_empty_copy(*counts)),
{
    match step {
        SnapshotStep::MakeStaging => if ok {
            SnapshotStep::CopyFiles
        } else {
            SnapshotStep::Failed
        },
        SnapshotStep::CopyFiles => if counts.jsonl_files == 0 && counts.archived_files == 0
            && counts.state_dbs == 0 {
            SnapshotStep::Discard
        } else {
            SnapshotStep::WriteMeta
        },
        SnapshotStep::Discard => SnapshotStep::Skipped,
        SnapshotStep::WriteMeta => SnapshotStep::Rename,
        SnapshotStep::Rename => if ok {
            SnapshotStep::Prune
        } else {
            SnapshotStep::RemoveStaging
        },
        SnapshotStep::RemoveStaging => SnapshotStep::Failed,
        SnapshotStep::Prune => SnapshotStep::Done,
        _ => step,
    }
}

/// Where one is after some steps of making a snapshot.
pub open spec fn after_snapshot_steps(results: Seq<bool>, empty: bool) -> SnapshotStep
    decreases results.len(),
{
    if results.len() == 0 {
        SnapshotStep::MakeStaging
    } else {
        snapshot_step_after(
            after_snapshot_steps(results.drop_last(), empty),
            results.last(),
            empty,
        )
    }
}

/// A snapshot ends after at most five steps, and never with the directory that it was written into
/// left behind: it was named, or taken away, or could not be made.
pub proof fn law_a_snapshot_leaves_no_staging_directory(results: Seq<bool>, empty: bool)
    requires
        results.len() == 5,
    ensures
        ({
            let end = after_snapshot_steps(results, empty);
            &&& end is Done || end is Skipped || end is Failed
            &&& end is Done ==> results[3] && after_snapshot_steps(results.take(3), empty) is Rename
            &&& end is Skipped ==> after_snapshot_steps(results.take(2), empty) is Discard
            &&& end is Failed ==> !results[0] || after_snapshot_steps(
                results.take(4),
                empty,
            ) is RemoveStaging
        }),
{
    reveal_with_fuel(after_snapshot_steps, 6);
    assert(results.drop_last() =~= results.take(4));
    assert(results.take(4).drop_last() =~= results.take(3));
    assert(results.take(3).drop_last() =~= results.take(2));
    assert(results.take(2).drop_last() =~= results.take(1));
    assert(results.take(1).drop_last() =~= results.take(0));
}

/// A count as it stands in a description.
pub open spec fn count_value(n: usize) -> JsonView {
    JsonView::Number(NumberView::Unsigned(n as u64))
}

/// The description of a snapshot.
pub open spec fn snapshot_meta(
    codex_key: Seq<char>,
    created_at: Seq<char>,
    counts: CopiedCounts,
    own: Option<Seq<char>>,
) -> JsonView {
    JsonView::empty_object().put("codexConfigDir"@, JsonView::Str(codex_key)).put(
        "createdAt"@,
        JsonView::Str(created_at),
    ).put("jsonlFiles"@, count_value(counts.jsonl_files)).put(
        "archivedFiles"@,
        count_value(counts.archived_files),
    ).put("stateDbs"@, count_value(counts.state_dbs)).put(
        "fingerprint"@,
        match own {
            Some(own) => JsonView::Str(own),
            None => JsonView::Null,
        },
    )
}

/// The description of a snapshot.
pub fn write_snapshot_meta(
    codex_key: &str,
    created_at: &str,
    counts: &CopiedCounts,
    own: Option<&str>,
) -> (r: Json)
    ensures
        r@ == snapshot_meta(codex_key@, created_at@, *counts, text::slice_text(own)),
{
    let mut out = Json::object();
    out.insert("codexConfigDir", Json::string(codex_key));
    out.insert("createdAt", Json::string(created_at));
    out.insert("jsonlFiles", Json::number(counts.jsonl_files as u64));
    out.insert("archivedFiles", Json::number(counts.archived_files as u64));
    out.insert("stateDbs", Json::number(counts.state_dbs as u64));
    let own = match own {
        Some(own) => Json::string(own),
        None => Json::Null,
    };
    out.insert("fingerprint", own);
    out
}

/// What is moved away before conversations are put back.
pub fn conversation_names() -> (r: Vec<String>)
    ensures
        text::texts(r@) == seq!["sessions"@, "archived_sessions"@, "session_index.jsonl"@],
{
    let mut out: Vec<String> = Vec::new();
    out.push("sessions".to_owned());
    out.push("archived_sessions".to_owned());
    out.push("session_index.jsonl".to_owned());
    assert(text::texts(out@) =~= seq![
        "sessions"@,
        "archived_sessions"@,
        "session_index.jsonl"@,
    ]);
    out
}

/// The name of the directory that a snapshot is written into first.
pub fn staging_name(timestamp: &str) -> (r: String)
    ensures
        r@ == CODEX_DESKTOP_CONVERSATIONS_IN_PROGRESS_PREFIX@ + "-"@ + timestamp@,
{
    let mut out = join2(CODEX_DESKTOP_CONVERSATIONS_IN_PROGRESS_PREFIX, "-");
    out.push_str(timestamp);
    out
}

/// The name of the directory for what is moved away.
pub fn pre_restore_name(timestamp: &str) -> (r: String)
    ensures
        r@ == CODEX_DESKTOP_CONVERSATIONS_PRE_RESTORE_PREFIX@ + "-"@ + timestamp@,
{
    let mut out = join2(CODEX_DESKTOP_CONVERSATIONS_PRE_RESTORE_PREFIX, "-");
    out.push_str(timestamp);
    out
}

/// What conversations are put back from.
#[derive(Debug)]
pub enum RestoreSource {
    /// There is no snapshot.
    Missing(CodexDesktopConversationsRestoreOutcome),
    /// The directory with that position.
    Snapshot(usize),
}

/// What conversations are put back from: the latest snapshot of this directory of Codex.
pub fn restore_codex_desktop_conversations(dirs: &Vec<SnapshotDir>, codex_key: &str) -> (r:
    RestoreSource)
    ensures
        match r {
            RestoreSource::Missing(outcome) => outcome@ == skipped("no_backup"@) && forall|j: int|
                0 <= j < dirs@.len() ==> !is_snapshot_of(#[trigger] dirs@[j], codex_key@),
            RestoreSource::Snapshot(i) => is_latest(dirs@, codex_key@, i as int),
        },
{
    match latest_snapshot_dir_for_codex_dir(dirs, codex_key) {
        Some(i) => RestoreSource::Snapshot(i),
        None => RestoreSource::Missing(
            CodexDesktopConversationsRestoreOutcome {
                snapshot_dir: None,
                jsonl_files: 0,
                archived_files: 0,
                state_dbs: 0,
                skipped_reason: Some("no_backup".to_owned()),
            },
        ),
    }
}

/// The outcome of conversations that were put back.
pub fn finish_restore(counts: &CopiedCounts, snapshot_dir: &str) -> (r:
    CodexDesktopConversationsRestoreOutcome)
    ensures
        r@ == (OutcomeView {
            snapshot_dir: Some(snapshot_dir@),
            jsonl_files: counts.jsonl_files,
            archived_files: counts.archived_files,
            state_dbs: counts.state_dbs,
            skipped_reason: None,
        }),
{
    CodexDesktopConversationsRestoreOutcome {
        snapshot_dir: Some(snapshot_dir.to_owned()),
        jsonl_files: counts.jsonl_files,
        archived_files: counts.archived_files,
        state_dbs: counts.state_dbs,
        skipped_reason: None,
    }
}

proof fn lemma_meta_keys()
    ensures
        "codexConfigDir"@ != "createdAt"@,
        "codexConfigDir"@ != "jsonlFiles"@,
        "codexConfigDir"@ != "archivedFiles"@,
        "codexConfigDir"@ != "stateDbs"@,
        "codexConfigDir"@ != "fingerprint"@,
{
    reveal_strlit("codexConfigDir");
    reveal_strlit("createdAt");
    reveal_strlit("jsonlFiles");
    reveal_strlit("archivedFiles");
    reveal_strlit("stateDbs");
    reveal_strlit("fingerprint");
    assert("codexConfigDir"@.len() == 14);
    assert("createdAt"@.len() == 9);
    assert("jsonlFiles"@.len() == 10);
    assert("archivedFiles"@.len() == 13);
    assert("stateDbs"@.len() == 8);
    assert("fingerprint"@.len() == 11);
}

/// A snapshot is found again by the directory of Codex that it was made of, and by no other.
pub proof fn law_a_snapshot_belongs_to_its_directory(
    dir: SnapshotDir,
    meta: Json,
    codex_key: Seq<char>,
    other: Seq<char>,
    created_at: Seq<char>,
    counts: CopiedCounts,
    own: Option<Seq<char>>,
)
    requires
        is_finished(dir),
        dir.meta == Some(meta),
        meta@ == snapshot_meta(codex_key, created_at, counts, own),
    ensures
        is_snapshot_of(dir, codex_key),
        is_snapshot_of(dir, other) ==> other == codex_key,
{
    lemma_meta_keys();
    assert(meta@.get("codexConfigDir"@) == Some(JsonView::Str(codex_key)));
}

/// Once a snapshot was made, another one is left out as long as the files stay the same.
pub proof fn law_unchanged_conversations_are_not_copied_again(
    facts: ConversationFacts,
    stamps: Seq<StampView>,
    later: Seq<StampView>,
    codex_key: Seq<char>,
    created_at: Seq<char>,
    counts: CopiedCounts,
)
    requires
        facts.codex_dir,
        stamps.len() > 0,
        stamps.to_multiset() == later.to_multiset(),
    ensures
        skip_reason_if_changed(
            true,
            facts,
            later,
            Some(snapshot_meta(codex_key, created_at, counts, fingerprint(stamps))),
        ) == Some("unchanged"@),
{
    law_the_order_of_files_does_not_matter(stamps, later);
    let meta = snapshot_meta(codex_key, created_at, counts, fingerprint(stamps));
    assert(meta.get("fingerprint"@) == Some(JsonView::Str(fingerprint(stamps)->Some_0)));
}

/// What was there before conversations were put back is never pruned, and never taken for a
/// snapshot.
pub proof fn law_what_was_there_before_stays(
    dirs: Seq<SnapshotDir>,
    now: i128,
    i: int,
    codex_key: Seq<char>,
)
    requires
        0 <= i < dirs.len(),
        CODEX_DESKTOP_CONVERSATIONS_PRE_RESTORE_PREFIX@.is_prefix_of(dirs[i].name@),
    ensures
        !is_pruned(dirs, now, i),
        !is_snapshot_of(dirs[i], codex_key),
{
}

proof fn lemma_rank_of_newest(dirs: Seq<SnapshotDir>, i: int, n: nat)
    requires
        n <= dirs.len(),
        forall|j: int| 0 <= j < n ==> !#[trigger] comes_before(dirs, j, i),
    ensures
        rank(dirs, i, n) == 0,
    decreases n,
{
    if n > 0 {
        assert(!comes_before(dirs, n - 1, i));
        lemma_rank_of_newest(dirs, i, (n - 1) as nat);
    }
}

/// The latest finished snapshot is never pruned.
pub proof fn law_the_latest_snapshot_stays(dirs: Seq<SnapshotDir>, now: i128, i: int)
    requires
        0 <= i < dirs.len(),
        is_finished(dirs[i]),
        forall|j: int| 0 <= j < dirs.len() ==> !#[trigger] comes_before(dirs, j, i),
    ensures
        !is_pruned(dirs, now, i),
{
    lemma_rank_of_newest(dirs, i, dirs.len());
}

/// Whether no path stands twice among some stamps, as it does not among files.
pub open spec fn paths_distinct(stamps: Seq<StampView>) -> bool {
    forall|i: int, j: int|
        0 <= i < j < stamps.len() ==> (#[trigger] stamps[i]).path != (#[trigger] stamps[j]).path
}

/// Stamps with one in the place of another.
pub open spec fn with_stamp(
    stamps: Seq<StampView>,
    old_stamp: StampView,
    new_stamp: StampView,
) -> Seq<StampView> {
    stamps.map_values(
        |s: StampView|
            if s == old_stamp {
                new_stamp
            } else {
                s
            },
    )
}

/// Mixing a stamp in tells hashes apart.
proof fn lemma_stamp_injective(a: u64, b: u64, stamp: StampView)
    requires
        a != b,
    ensures
        mixed_stamp(a, stamp) != mixed_stamp(b, stamp),
{
    let bytes = encode_utf8(stamp.path);
    let n = bytes.len() as u64;
    catalog_ids::lemma_step_injective(a, b, n, n);
    lemma_bytes_injective(mixed(a, n), mixed(b, n), bytes);
    let x = mixed_bytes(mixed(a, n), bytes);
    let y = mixed_bytes(mixed(b, n), bytes);
    catalog_ids::lemma_step_injective(x, y, stamp.len, stamp.len);
    catalog_ids::lemma_step_injective(mixed(x, stamp.len), mixed(y, stamp.len), stamp.mtime, stamp.mtime);
}

/// Mixing bytes in tells hashes apart.
proof fn lemma_bytes_injective(a: u64, b: u64, bytes: Seq<u8>)
    requires
        a != b,
    ensures
        mixed_bytes(a, bytes) != mixed_bytes(b, bytes),
    decreases bytes.len(),
{
    if bytes.len() > 0 {
        let front = bytes.drop_last();
        lemma_bytes_injective(a, b, front);
        let last = bytes.last() as u64;
        catalog_ids::lemma_step_injective(mixed_bytes(a, front), mixed_bytes(b, front), last, last);
    }
}

/// Mixing in a stamp with another size, or with another time, gives another hash.
proof fn lemma_stamp_differs(hash: u64, a: StampView, b: StampView)
    requires
        a.path == b.path,
        (a.len == b.len) != (a.mtime == b.mtime),
    ensures
        mixed_stamp(hash, a) != mixed_stamp(hash, b),
{
    let bytes = encode_utf8(a.path);
    let x = mixed_bytes(mixed(hash, bytes.len() as u64), bytes);
    catalog_ids::lemma_step_injective(x, x, a.len, b.len);
    catalog_ids::lemma_step_injective(mixed(x, a.len), mixed(x, b.len), a.mtime, b.mtime);
}

/// The hash of a list differs from that of the list with one stamp replaced.
proof fn lemma_hash_differs(list: Seq<StampView>, a: StampView, b: StampView)
    requires
        paths_distinct(list),
        list.contains(a),
        a.path == b.path,
        (a.len == b.len) != (a.mtime == b.mtime),
    ensures
        stamps_hash(list) != stamps_hash(with_stamp(list, a, b)),
    decreases list.len(),
{
    let front = list.drop_last();
    let after = with_stamp(list, a, b);
    let after_front = with_stamp(front, a, b);
    assert(after.drop_last() =~= after_front);
    if list.last() == a {
        assert(after_front =~= front) by {
            assert forall|j: int| 0 <= j < front.len() implies #[trigger] after_front[j]
                == front[j] by {
                assert(list[j].path != list[list.len() - 1].path);
            }
        }
        lemma_stamp_differs(stamps_hash(front), a, b);
    } else {
        let k = choose|k: int| 0 <= k < list.len() && list[k] == a;
        assert(front[k] == a);
        assert forall|i: int, j: int| 0 <= i < j < front.len() implies (#[trigger] front[i]).path
            != (#[trigger] front[j]).path by {
            assert(list[i].path != list[j].path);
        }
        lemma_hash_differs(front, a, b);
        lemma_stamp_injective(stamps_hash(front), stamps_hash(after_front), list.last());
    }
}

/// Where a stamp is placed among others does not depend on a size or a time: their paths differ.
proof fn lemma_placed_alike(list: Seq<StampView>, stamp: StampView, a: StampView, b: StampView)
    requires
        a.path == b.path,
        forall|i: int| 0 <= i < list.len() ==> (#[trigger] list[i]).path != stamp.path,
    ensures
        placed(
            with_stamp(list, a, b),
            if stamp == a {
                b
            } else {
                stamp
            },
        ) == with_stamp(placed(list, stamp), a, b),
    decreases list.len(),
{
    let after = with_stamp(list, a, b);
    let new_stamp = if stamp == a {
        b
    } else {
        stamp
    };
    if list.len() == 0 {
        assert(after.push(new_stamp) =~= with_stamp(list.push(stamp), a, b));
    } else {
        let front = list.drop_last();
        assert(list[list.len() - 1].path != stamp.path);
        assert(after.last().path == list.last().path);
        assert(stamp_le(after.last(), new_stamp) == stamp_le(list.last(), stamp));
        assert(after.drop_last() =~= with_stamp(front, a, b));
        if stamp_le(list.last(), stamp) {
            assert(after.push(new_stamp) =~= with_stamp(list.push(stamp), a, b));
        } else {
            assert forall|i: int| 0 <= i < front.len() implies (#[trigger] front[i]).path
                != stamp.path by {
                assert(front[i] == list[i]);
            }
            lemma_placed_alike(front, stamp, a, b);
            assert(with_stamp(placed(front, stamp), a, b).push(after.last()) =~= with_stamp(
                placed(front, stamp).push(list.last()),
                a,
                b,
            ));
        }
    }
}

/// Ordering stamps with one replaced is ordering them and replacing it.
proof fn lemma_ordered_alike(stamps: Seq<StampView>, a: StampView, b: StampView)
    requires
        paths_distinct(stamps),
        a.path == b.path,
    ensures
        in_order(with_stamp(stamps, a, b)) == with_stamp(in_order(stamps), a, b),
    decreases stamps.len(),
{
    if stamps.len() == 0 {
        assert(with_stamp(stamps, a, b) =~= stamps);
        assert(with_stamp(in_order(stamps), a, b) =~= in_order(stamps));
    } else {
        let front = stamps.drop_last();
        let stamp = stamps.last();
        assert forall|i: int, j: int| 0 <= i < j < front.len() implies (#[trigger] front[i]).path
            != (#[trigger] front[j]).path by {
            assert(stamps[i].path != stamps[j].path);
        }
        lemma_ordered_alike(front, a, b);
        lemma_in_order(front);
        let list = in_order(front);
        assert forall|i: int| 0 <= i < list.len() implies (#[trigger] list[i]).path
            != stamp.path by {
            lemma_ordered_members(front, list[i]);
            assert(list.contains(list[i]));
            let k = choose|k: int| 0 <= k < front.len() && front[k] == list[i];
            assert(stamps[k].path != stamps[stamps.len() - 1].path);
        }
        lemma_placed_alike(list, stamp, a, b);
        let after = with_stamp(stamps, a, b);
        assert(after.drop_last() =~= with_stamp(front, a, b));
    }
}

/// The stamps in their order are those that there were.
proof fn lemma_ordered_members(stamps: Seq<StampView>, stamp: StampView)
    ensures
        in_order(stamps).contains(stamp) == stamps.contains(stamp),
{
    broadcast use vstd::seq_lib::group_to_multiset_ensures;

    lemma_in_order(stamps);
    assert(in_order(stamps).contains(stamp) == (in_order(stamps).to_multiset().count(stamp) > 0));
    assert(stamps.contains(stamp) == (stamps.to_multiset().count(stamp) > 0));
}

/// Placing a stamp with a path of its own keeps paths distinct.
proof fn lemma_placed_distinct(list: Seq<StampView>, stamp: StampView)
    requires
        is_ascending(list),
        paths_distinct(list),
        forall|i: int| 0 <= i < list.len() ==> (#[trigger] list[i]).path != stamp.path,
    ensures
        paths_distinct(placed(list, stamp)),
    decreases list.len(),
{
    if list.len() > 0 && !stamp_le(list.last(), stamp) {
        let front = list.drop_last();
        let inner = placed(front, stamp);
        let out = placed(list, stamp);
        assert forall|i: int, j: int| 0 <= i < j < front.len() implies (#[trigger] front[i]).path
            != (#[trigger] front[j]).path by {
            assert(list[i].path != list[j].path);
        }
        assert forall|i: int, j: int| 0 <= i < j < front.len() implies stamp_le(
            #[trigger] front[i],
            #[trigger] front[j],
        ) by {
            assert(stamp_le(list[i], list[j]));
        }
        assert forall|i: int| 0 <= i < front.len() implies (#[trigger] front[i]).path
            != stamp.path by {
            assert(front[i] == list[i]);
        }
        lemma_placed_distinct(front, stamp);
        lemma_placed_ordered(front, stamp);
        assert forall|i: int, j: int| 0 <= i < j < out.len() implies (#[trigger] out[i]).path != (
        #[trigger] out[j]).path by {
            if j == inner.len() {
                assert(inner.contains(inner[i]));
                assert(list[list.len() - 1].path != stamp.path);
                if out[i] != stamp {
                    let k = choose|k: int| 0 <= k < front.len() && front[k] == out[i];
                    assert(list[k].path != list[list.len() - 1].path);
                }
            } else {
                assert(inner[i].path != inner[j].path);
            }
        }
    }
}

/// Stamps in their order have distinct paths, where they had.
proof fn lemma_ordered_distinct(stamps: Seq<StampView>)
    requires
        paths_distinct(stamps),
    ensures
        paths_distinct(in_order(stamps)),
    decreases stamps.len(),
{
    if stamps.len() > 0 {
        let front = stamps.drop_last();
        let stamp = stamps.last();
        assert forall|i: int, j: int| 0 <= i < j < front.len() implies (#[trigger] front[i]).path
            != (#[trigger] front[j]).path by {
            assert(stamps[i].path != stamps[j].path);
        }
        lemma_ordered_distinct(front);
        lemma_in_order(front);
        let list = in_order(front);
        assert forall|i: int| 0 <= i < list.len() implies (#[trigger] list[i]).path
            != stamp.path by {
            lemma_ordered_members(front, list[i]);
            assert(list.contains(list[i]));
            let k = choose|k: int| 0 <= k < front.len() && front[k] == list[i];
            assert(stamps[k].path != stamps[stamps.len() - 1].path);
        }
        lemma_placed_distinct(list, stamp);
    }
}

/// A file whose size alone has changed, or whose time alone has, gives the conversations another
/// fingerprint.
pub proof fn law_a_changed_file_changes_the_fingerprint(
    stamps: Seq<StampView>,
    old_stamp: StampView,
    new_stamp: StampView,
)
    requires
        paths_distinct(stamps),
        stamps.contains(old_stamp),
        old_stamp.path == new_stamp.path,
        (old_stamp.len == new_stamp.len) != (old_stamp.mtime == new_stamp.mtime),
    ensures
        fingerprint(stamps) != fingerprint(with_stamp(stamps, old_stamp, new_stamp)),
{
    let list = in_order(stamps);
    lemma_ordered_alike(stamps, old_stamp, new_stamp);
    lemma_ordered_members(stamps, old_stamp);
    lemma_ordered_distinct(stamps);
    lemma_hash_differs(list, old_stamp, new_stamp);
    let x = stamps_hash(list);
    let y = stamps_hash(with_stamp(list, old_stamp, new_stamp));
    if text::hex(x as nat, 16) == text::hex(y as nat, 16) {
        catalog_ids::lemma_hash_injective(x, y);
    }
}

/// After a snapshot was made, one is made again as soon as the size of a file alone has changed, or
/// its time alone, as long as there is anything to copy.
pub proof fn law_changed_conversations_are_copied_again(
    facts: ConversationFacts,
    stamps: Seq<StampView>,
    old_stamp: StampView,
    new_stamp: StampView,
    codex_key: Seq<char>,
    created_at: Seq<char>,
    counts: CopiedCounts,
)
    requires
        facts.codex_dir,
        has_any(facts),
        paths_distinct(stamps),
        stamps.contains(old_stamp),
        old_stamp.path == new_stamp.path,
        (old_stamp.len == new_stamp.len) != (old_stamp.mtime == new_stamp.mtime),
    ensures
        skip_reason_if_changed(
            true,
            facts,
            with_stamp(stamps, old_stamp, new_stamp),
            Some(snapshot_meta(codex_key, created_at, counts, fingerprint(stamps))),
        ) is None,
{
    law_a_changed_file_changes_the_fingerprint(stamps, old_stamp, new_stamp);
    let meta = snapshot_meta(codex_key, created_at, counts, fingerprint(stamps));
    assert(meta.get("fingerprint"@) == Some(JsonView::Str(fingerprint(stamps)->Some_0)));
}

} // verus!
