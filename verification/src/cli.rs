//! Finding the Codex command line, and reading its version.

use crate::json::{Json, JsonView};
use crate::text::{
    chars_of, is_text_le, list_contains, split_text, split_words, str_eq, string_of,
};
use crate::{json, text};
use vstd::prelude::*;
use vstd::string::*;

verus! {

/// A word without the letters `v` at its start.
pub open spec fn without_v(s: Seq<char>) -> Seq<char>
    decreases s.len(),
{
    if s.len() > 0 && s.first() == 'v' {
        without_v(s.drop_first())
    } else {
        s
    }
}

/// What stands before the first dash or plus sign.
pub open spec fn version_core(s: Seq<char>) -> Seq<char>
    decreases s.len(),
{
    if s.len() == 0 || s.first() == '-' || s.first() == '+' {
        Seq::empty()
    } else {
        seq![s.first()] + version_core(s.drop_first())
    }
}

/// Whether a text is digits, and at least one.
pub open spec fn is_digits(s: Seq<char>) -> bool {
    s.len() > 0 && forall|i: int| 0 <= i < s.len() ==> '0' <= #[trigger] s[i] <= '9'
}

/// Whether a text is three numbers with dots between them.
pub open spec fn is_version(s: Seq<char>) -> bool {
    let parts = text::split_on(s, '.');
    parts.len() == 3 && is_digits(parts[0]) && is_digits(parts[1]) && is_digits(parts[2])
}

/// The version that a word names.
pub open spec fn word_version(word: Seq<char>) -> Option<Seq<char>> {
    let core = version_core(without_v(word));
    if is_version(core) {
        Some(core)
    } else {
        None
    }
}

/// The version that the first of some words to name one names.
pub open spec fn first_version(words: Seq<Seq<char>>) -> Option<Seq<char>>
    decreases words.len(),
{
    if words.len() == 0 {
        None
    } else if word_version(words[0]) is Some {
        word_version(words[0])
    } else {
        first_version(words.drop_first())
    }
}

/// The version that a text names.
pub open spec fn version_in(output: Seq<char>) -> Option<Seq<char>> {
    first_version(text::words(output))
}

/// Whether a text is digits, and at least one.
fn all_digits(s: &str) -> (r: bool)
    ensures
        r == is_digits(s@),
{
    let chars = chars_of(s);
    let mut i: usize = 0;
    while i < chars.len()
        invariant
            chars@ == s@,
            i <= chars@.len(),
            forall|j: int| 0 <= j < i ==> '0' <= #[trigger] s@[j] <= '9',
        decreases chars@.len() - i,
    {
        if !('0' <= chars[i] && chars[i] <= '9') {
            assert(!('0' <= s@[i as int] <= '9'));
            return false;
        }
        i += 1;
    }
    chars.len() > 0
}

/// The version that a word names.
fn parse_word(word: &str) -> (r: Option<String>)
    ensures
        text::text_of(r) == word_version(word@),
{
    let chars = chars_of(word);
    let ghost all = word@;
    let mut from: usize = 0;
    assert(all.skip(0) =~= all);
    while from < chars.len() && chars[from] == 'v'
        invariant
            chars@ == all,
            from <= chars@.len(),
            without_v(all.skip(from as int)) == without_v(all),
        decreases chars@.len() - from,
    {
        assert(all.skip(from as int).drop_first() =~= all.skip(from + 1));
        from += 1;
    }
    let ghost rest = without_v(all);
    assert(rest == all.skip(from as int));
    let mut to: usize = from;
    assert(all.subrange(from as int, from as int) + version_core(rest) =~= version_core(rest));
    while to < chars.len() && chars[to] != '-' && chars[to] != '+'
        invariant
            chars@ == all,
            from <= to <= chars@.len(),
            all.subrange(from as int, to as int) + version_core(all.skip(to as int))
                == version_core(rest),
        decreases chars@.len() - to,
    {
        assert(all.skip(to as int).drop_first() =~= all.skip(to + 1));
        assert(all.subrange(from as int, to + 1) + version_core(all.skip(to + 1)) =~= all.subrange(
            from as int,
            to as int,
        ) + version_core(all.skip(to as int)));
        to += 1;
    }
    assert(version_core(all.skip(to as int)) =~= Seq::<char>::empty());
    let core = string_of(&chars, from, to);
    assert(core@ =~= version_core(rest));
    let parts = split_text(core.as_str(), '.');
    assert(text::texts(parts@).len() == parts@.len());
    if parts.len() != 3 {
        return None;
    }
    assert(text::texts(parts@)[0] == parts@[0]@);
    assert(text::texts(parts@)[1] == parts@[1]@);
    assert(text::texts(parts@)[2] == parts@[2]@);
    if all_digits(parts[0].as_str()) && all_digits(parts[1].as_str()) && all_digits(
        parts[2].as_str(),
    ) {
        Some(core)
    } else {
        None
    }
}

/// The version that the output of the command line names: of its words, the first that is three
/// numbers with dots between them, in front of which a `v` and behind which a suffix may stand.
pub fn parse_codex_cli_client_version(output: &str) -> (r: Option<String>)
    ensures
        text::text_of(r) == version_in(output@),
{
    let words = split_words(output);
    let ghost views = text::texts(words@);
    let mut i: usize = 0;
    assert(views.skip(0) =~= views);
    while i < words.len()
        invariant
            i <= words@.len(),
            views == text::texts(words@),
            views == text::words(output@),
            first_version(views.skip(i as int)) == first_version(views),
        decreases words@.len() - i,
    {
        assert(views.skip(i as int)[0] == words@[i as int]@);
        assert(views.skip(i as int).drop_first() =~= views.skip(i + 1));
        if let Some(version) = parse_word(words[i].as_str()) {
            return Some(version);
        }
        i += 1;
    }
    None
}

/// What a run of the command line printed.
#[derive(Debug)]
pub struct CliRun {
    pub success: bool,
    pub stdout: String,
    pub stderr: String,
}

/// The version that a run names: on its output, else among its messages. A run that failed names
/// none.
pub open spec fn run_version(run: CliRun) -> Option<Seq<char>> {
    if !run.success {
        None
    } else if version_in(run.stdout@) is Some {
        version_in(run.stdout@)
    } else {
        version_in(run.stderr@)
    }
}

/// The version that the first of some runs to name one names.
pub open spec fn version_of_runs(runs: Seq<CliRun>) -> Option<Seq<char>>
    decreases runs.len(),
{
    if runs.len() == 0 {
        None
    } else if run_version(runs[0]) is Some {
        run_version(runs[0])
    } else {
        version_of_runs(runs.drop_first())
    }
}

/// The version that one run of the command line names.
pub fn version_from_run(run: &CliRun) -> (r: Option<String>)
    ensures
        text::text_of(r) == run_version(*run),
{
    if !run.success {
        return None;
    }
    match parse_codex_cli_client_version(run.stdout.as_str()) {
        Some(version) => Some(version),
        None => parse_codex_cli_client_version(run.stderr.as_str()),
    }
}

/// The version that the runs of all candidates name.
pub fn detect_codex_cli_client_version(runs: &Vec<CliRun>) -> (r: Option<String>)
    ensures
        text::text_of(r) == version_of_runs(runs@),
{
    let mut i: usize = 0;
    assert(runs@.skip(0) =~= runs@);
    while i < runs.len()
        invariant
            i <= runs@.len(),
            version_of_runs(runs@.skip(i as int)) == version_of_runs(runs@),
        decreases runs@.len() - i,
    {
        assert(runs@.skip(i as int).drop_first() =~= runs@.skip(i + 1));
        if let Some(version) = version_from_run(&runs[i]) {
            return Some(version);
        }
        i += 1;
    }
    None
}

/// The version that a cache says it is for.
pub open spec fn cache_version(cache: Option<JsonView>) -> Option<Seq<char>> {
    match cache {
        Some(cache) => match cache.get_text("client_version"@) {
            Some(version) => version_in(version),
            None => None,
        },
        None => None,
    }
}

/// The version that a cache says it is for.
fn version_of_cache(cache: Option<&Json>) -> (r: Option<String>)
    ensures
        text::text_of(r) == cache_version(json::ref_view(cache)),
{
    match cache {
        Some(cache) => match cache.get_str("client_version") {
            Some(version) => parse_codex_cli_client_version(version),
            None => None,
        },
        None => None,
    }
}

/// The version of the client: of a program that could be run, else the one that a cache is for.
pub fn resolve_codex_client_version(detected: Option<String>, cache: Option<&Json>) -> (r: Option<
    String,
>)
    ensures
        text::text_of(r) == match text::text_of(detected) {
            Some(version) => Some(version),
            None => cache_version(json::ref_view(cache)),
        },
{
    match detected {
        Some(version) => Some(version),
        None => version_of_cache(cache),
    }
}

/// The version that a cache is written for: a detected one, else that of the cache it replaces.
pub open spec fn writable_version(
    detected: Option<Seq<char>>,
    existing: JsonView,
) -> Option<Seq<char>> {
    let own = match detected {
        Some(detected) => version_in(detected),
        None => None,
    };
    if own is Some {
        own
    } else {
        cache_version(Some(existing))
    }
}

/// The version that a cache is written for.
pub fn version_to_write(detected: Option<&str>, existing: &Json) -> (r: Option<String>)
    ensures
        text::text_of(r) == writable_version(text::slice_text(detected), existing@),
{
    if let Some(detected) = detected {
        if let Some(version) = parse_codex_cli_client_version(detected) {
            return Some(version);
        }
    }
    version_of_cache(Some(existing))
}

/// The candidates that need not be there to be tried.
pub open spec fn fixed_candidates(macos: bool) -> Seq<Seq<char>> {
    let common = seq![
        "codex"@,
        "/opt/homebrew/bin/codex"@,
        "/usr/local/bin/codex"@,
        "/home/linuxbrew/.linuxbrew/bin/codex"@,
    ];
    if macos {
        common + seq![
            "/Applications/ChatGPT.app/Contents/Resources/codex"@,
            "/Applications/ChatGPT Classic.app/Contents/Resources/codex"@,
        ]
    } else {
        common
    }
}

/// The texts of a list, each the first time that it comes.
pub open spec fn first_occurrences(list: Seq<Seq<char>>) -> Seq<Seq<char>>
    decreases list.len(),
{
    if list.len() == 0 {
        Seq::empty()
    } else {
        let front = first_occurrences(list.drop_last());
        if front.contains(list.last()) {
            front
        } else {
            front.push(list.last())
        }
    }
}

/// Appends a text that is not there yet.
fn push_candidate(list: &mut Vec<String>, candidate: &str)
    ensures
        text::texts(final(list)@) == if text::texts(old(list)@).contains(candidate@) {
            text::texts(old(list)@)
        } else {
            text::texts(old(list)@).push(candidate@)
        },
{
    if !list_contains(list, candidate) {
        let ghost before = text::texts(list@);
        list.push(candidate.to_owned());
        assert(text::texts(list@) =~= before.push(candidate@));
    }
}

/// The candidates that need not be there to be tried.
fn fixed_candidate_list(macos: bool) -> (r: Vec<String>)
    ensures
        text::texts(r@) == fixed_candidates(macos),
{
    let mut list: Vec<String> = Vec::new();
    list.push("codex".to_owned());
    list.push("/opt/homebrew/bin/codex".to_owned());
    list.push("/usr/local/bin/codex".to_owned());
    list.push("/home/linuxbrew/.linuxbrew/bin/codex".to_owned());
    if macos {
        list.push("/Applications/ChatGPT.app/Contents/Resources/codex".to_owned());
        list.push("/Applications/ChatGPT Classic.app/Contents/Resources/codex".to_owned());
    }
    assert(text::texts(list@) =~= fixed_candidates(macos));
    list
}

/// The places to look for the command line, in order: those that need not be there, then those
/// that were found. Programs that come with the desktop application are always among them.
pub fn codex_cli_candidates(macos: bool, found: &Vec<String>) -> (r: Vec<String>)
    ensures
        text::texts(r@) == first_occurrences(fixed_candidates(macos) + text::texts(found@)),
{
    let fixed = fixed_candidate_list(macos);
    let ghost all = fixed_candidates(macos) + text::texts(found@);
    assert(text::texts(fixed@).len() == fixed@.len());
    let mut out: Vec<String> = Vec::new();
    assert(text::texts(out@) =~= Seq::<Seq<char>>::empty());
    let mut i: usize = 0;
    while i < fixed.len()
        invariant
            i <= fixed@.len(),
            text::texts(fixed@) == fixed_candidates(macos),
            all == fixed_candidates(macos) + text::texts(found@),
            text::texts(out@) == first_occurrences(all.take(i as int)),
        decreases fixed@.len() - i,
    {
        assert(text::texts(fixed@)[i as int] == fixed@[i as int]@);
        assert(all.take(i + 1).drop_last() =~= all.take(i as int));
        push_candidate(&mut out, fixed[i].as_str());
        i += 1;
    }
    let mut j: usize = 0;
    while j < found.len()
        invariant
            j <= found@.len(),
            all == fixed_candidates(macos) + text::texts(found@),
            fixed_candidates(macos).len() == fixed@.len(),
            text::texts(out@) == first_occurrences(all.take(fixed@.len() + j)),
        decreases found@.len() - j,
    {
        assert(text::texts(found@)[j as int] == found@[j as int]@);
        assert(all.take(fixed@.len() + j + 1).drop_last() =~= all.take(fixed@.len() + j));
        push_candidate(&mut out, found[j].as_str());
        j += 1;
    }
    assert(all.take(fixed@.len() + j) =~= all);
    out
}

/// Whether a list runs from the last text to the first.
pub open spec fn is_descending(list: Seq<Seq<char>>) -> bool {
    forall|i: int, j: int|
        0 <= i < j < list.len() ==> text::text_le(#[trigger] list[j], #[trigger] list[i])
}

/// The names of version directories with the newer-looking ones first: in descending order, each as
/// often as it was given.
pub fn newest_first(names: &Vec<String>) -> (r: Vec<String>)
    ensures
        is_descending(text::texts(r@)),
        text::texts(r@).to_multiset() == text::texts(names@).to_multiset(),
{
    let mut out: Vec<String> = Vec::new();
    let mut i: usize = 0;
    assert(text::texts(out@) =~= Seq::<Seq<char>>::empty());
    assert(text::texts(names@).take(0) =~= Seq::<Seq<char>>::empty());
    while i < names.len()
        invariant
            i <= names@.len(),
            is_descending(text::texts(out@)),
            text::texts(out@).to_multiset() == text::texts(names@).take(i as int).to_multiset(),
        decreases names@.len() - i,
    {
        let ghost before = text::texts(out@);
        let ghost name = names@[i as int]@;
        let mut at: usize = 0;
        while at < out.len() && !is_text_le(out[at].as_str(), names[i].as_str())
            invariant
                i < names@.len(),
                name == names@[i as int]@,
                at <= out@.len(),
                before == text::texts(out@),
                forall|j: int| 0 <= j < at ==> !text::text_le(#[trigger] before[j], name),
            decreases out@.len() - at,
        {
            assert(before[at as int] == out@[at as int]@);
            at += 1;
        }
        proof {
            if at < out@.len() {
                assert(before[at as int] == out@[at as int]@);
            }
        }
        out.insert(at, names[i].clone());
        proof {
            let after = text::texts(out@);
            assert(after =~= before.insert(at as int, name));
            lemma_insert_descending(before, name, at as int);
            vstd::seq_lib::to_multiset_insert(before, at as int, name);
            let all = text::texts(names@);
            assert(all.take(i + 1) =~= all.take(i as int).push(name));
            vstd::seq_lib::to_multiset_build(all.take(i as int), name);
        }
        i += 1;
    }
    assert(text::texts(names@).take(i as int) =~= text::texts(names@));
    out
}

proof fn lemma_insert_descending(list: Seq<Seq<char>>, name: Seq<char>, at: int)
    requires
        is_descending(list),
        0 <= at <= list.len(),
        forall|j: int| 0 <= j < at ==> !text::text_le(#[trigger] list[j], name),
        at < list.len() ==> text::text_le(list[at], name),
    ensures
        is_descending(list.insert(at, name)),
{
    let after = list.insert(at, name);
    assert forall|i: int, j: int| 0 <= i < j < after.len() implies text::text_le(
        #[trigger] after[j],
        #[trigger] after[i],
    ) by {
        if j < at {
            assert(after[i] == list[i] && after[j] == list[j]);
        } else if j == at {
            assert(after[i] == list[i]);
            text::lemma_text_le_total(list[i], name);
        } else if i > at {
            assert(after[i] == list[i - 1] && after[j] == list[j - 1]);
        } else if i == at {
            assert(after[j] == list[j - 1]);
            if j - 1 > at {
                assert(text::text_le(list[j - 1], list[at]));
                text::lemma_text_le_transitive(list[j - 1], list[at], name);
            }
        } else {
            assert(after[i] == list[i] && after[j] == list[j - 1]);
        }
    }
}

/// What a pair of texts stands for.
pub open spec fn pairs_view(list: Seq<(String, String)>) -> Seq<(Seq<char>, Seq<char>)> {
    list.map_values(|p: (String, String)| (p.0@, p.1@))
}

/// Where the command line may be below directories that the environment names: the variable, and
/// the path from there.
pub fn environment_candidates() -> (r: Vec<(String, String)>)
    ensures
        pairs_view(r@) == seq![
            ("NPM_CONFIG_PREFIX"@, "bin/codex"@),
            ("VOLTA_HOME"@, "bin/codex"@),
            ("ASDF_DATA_DIR"@, "shims/codex"@),
            ("MISE_DATA_DIR"@, "shims/codex"@),
            ("PNPM_HOME"@, "codex"@),
        ],
{
    let mut list: Vec<(String, String)> = Vec::new();
    list.push(("NPM_CONFIG_PREFIX".to_owned(), "bin/codex".to_owned()));
    list.push(("VOLTA_HOME".to_owned(), "bin/codex".to_owned()));
    list.push(("ASDF_DATA_DIR".to_owned(), "shims/codex".to_owned()));
    list.push(("MISE_DATA_DIR".to_owned(), "shims/codex".to_owned()));
    list.push(("PNPM_HOME".to_owned(), "codex".to_owned()));
    assert(pairs_view(list@) =~= seq![
        ("NPM_CONFIG_PREFIX"@, "bin/codex"@),
        ("VOLTA_HOME"@, "bin/codex"@),
        ("ASDF_DATA_DIR"@, "shims/codex"@),
        ("MISE_DATA_DIR"@, "shims/codex"@),
        ("PNPM_HOME"@, "codex"@),
    ]);
    list
}

/// The directories with one directory for each version, below the home or, with a variable of the
/// environment, below the directory that it names.
pub open spec fn version_dirs(variable: Option<Seq<char>>) -> Seq<(Seq<char>, Seq<char>)> {
    if variable == Some("NVM_DIR"@) {
        seq![("versions/node"@, "bin/codex"@)]
    } else if variable == Some("FNM_DIR"@) {
        seq![("node-versions"@, "installation/bin/codex"@)]
    } else if variable is None {
        seq![
            (".nvm/versions/node"@, "bin/codex"@),
            (".local/share/fnm/node-versions"@, "installation/bin/codex"@),
            ("Library/Application Support/fnm/node-versions"@, "installation/bin/codex"@),
        ]
    } else {
        Seq::empty()
    }
}

/// The directories with one directory for each version, and the path from such a one to the command
/// line.
pub fn version_directories(variable: Option<&str>) -> (r: Vec<(String, String)>)
    ensures
        pairs_view(r@) == version_dirs(text::slice_text(variable)),
{
    let mut list: Vec<(String, String)> = Vec::new();
    match variable {
        Some(variable) => {
            if str_eq(variable, "NVM_DIR") {
                list.push(("versions/node".to_owned(), "bin/codex".to_owned()));
            } else if str_eq(variable, "FNM_DIR") {
                list.push(("node-versions".to_owned(), "installation/bin/codex".to_owned()));
            }
        },
        None => {
            list.push((".nvm/versions/node".to_owned(), "bin/codex".to_owned()));
            list.push(
                (".local/share/fnm/node-versions".to_owned(), "installation/bin/codex".to_owned()),
            );
            list.push(
                (
                    "Library/Application Support/fnm/node-versions".to_owned(),
                    "installation/bin/codex".to_owned(),
                ),
            );
        },
    }
    proof {
        reveal_strlit("NVM_DIR");
        reveal_strlit("FNM_DIR");
        assert("NVM_DIR"@[0] != "FNM_DIR"@[0]);
    }
    assert(pairs_view(list@) =~= version_dirs(text::slice_text(variable)));
    list
}

/// Where the command line may be under a home directory.
pub fn home_candidates() -> (r: Vec<String>)
    ensures
        text::texts(r@) == seq![
            ".nvm/current/bin/codex"@,
            ".volta/bin/codex"@,
            ".asdf/shims/codex"@,
            ".local/share/mise/shims/codex"@,
            ".config/mise/shims/codex"@,
            ".local/bin/codex"@,
            ".npm-global/bin/codex"@,
            ".npm-packages/bin/codex"@,
            ".local/share/pnpm/codex"@,
            "Library/pnpm/codex"@,
        ],
{
    let mut list: Vec<String> = Vec::new();
    list.push(".nvm/current/bin/codex".to_owned());
    list.push(".volta/bin/codex".to_owned());
    list.push(".asdf/shims/codex".to_owned());
    list.push(".local/share/mise/shims/codex".to_owned());
    list.push(".config/mise/shims/codex".to_owned());
    list.push(".local/bin/codex".to_owned());
    list.push(".npm-global/bin/codex".to_owned());
    list.push(".npm-packages/bin/codex".to_owned());
    list.push(".local/share/pnpm/codex".to_owned());
    list.push("Library/pnpm/codex".to_owned());
    assert(text::texts(list@) =~= seq![
        ".nvm/current/bin/codex"@,
        ".volta/bin/codex"@,
        ".asdf/shims/codex"@,
        ".local/share/mise/shims/codex"@,
        ".config/mise/shims/codex"@,
        ".local/bin/codex"@,
        ".npm-global/bin/codex"@,
        ".npm-packages/bin/codex"@,
        ".local/share/pnpm/codex"@,
        "Library/pnpm/codex"@,
    ]);
    list
}

/// The command that lists the models which come with the command line.
pub fn bundled_models_arguments() -> (r: Vec<String>)
    ensures
        text::texts(r@) == seq!["debug"@, "models"@, "--bundled"@],
{
    let mut list: Vec<String> = Vec::new();
    list.push("debug".to_owned());
    list.push("models".to_owned());
    list.push("--bundled".to_owned());
    assert(text::texts(list@) =~= seq!["debug"@, "models"@, "--bundled"@]);
    list
}

/// No place is tried twice, and the one that the search path gives is always tried first.
pub proof fn law_candidates_are_tried_once(macos: bool, found: Seq<Seq<char>>)
    ensures
        ({
            let list = first_occurrences(fixed_candidates(macos) + found);
            &&& list.no_duplicates()
            &&& list.len() > 0
            &&& list[0] == "codex"@
        }),
{
    let all = fixed_candidates(macos) + found;
    lemma_first_occurrences(all);
}

proof fn lemma_first_occurrences(list: Seq<Seq<char>>)
    ensures
        first_occurrences(list).no_duplicates(),
        list.len() > 0 ==> first_occurrences(list).len() > 0 && first_occurrences(list)[0] == list[0],
    decreases list.len(),
{
    if list.len() > 0 {
        lemma_first_occurrences(list.drop_last());
        let front = first_occurrences(list.drop_last());
        if !front.contains(list.last()) {
            assert forall|i: int, j: int|
                0 <= i < front.len() + 1 && 0 <= j < front.len() + 1 && i != j implies front.push(
                list.last(),
            )[i] != front.push(list.last())[j] by {
                if i == front.len() {
                    assert(front.contains(front[j]));
                }
                if j == front.len() {
                    assert(front.contains(front[i]));
                }
            }
        }
    }
}

} // verus!
