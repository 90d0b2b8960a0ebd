//! Where the files are.

use crate::config_fields::CC_SWITCH_CODEX_MODEL_CATALOG_FILENAME;
use crate::text;
use crate::text::join2;
use vstd::prelude::*;
use vstd::string::*;

verus! {

/// A place in the file system: a path that is given, and the names that lead on from there, each
/// joined by the platform's separator.
#[derive(Debug)]
pub struct Location {
    pub base: String,
    pub below: Vec<String>,
}

/// What a [`Location`] stands for.
#[verifier::ext_equal]
pub struct LocationView {
    pub base: Seq<char>,
    pub below: Seq<Seq<char>>,
}

impl LocationView {
    /// The place of a name in a directory.
    pub open spec fn child(self, name: Seq<char>) -> LocationView {
        LocationView { base: self.base, below: self.below.push(name) }
    }
}

impl Location {
    pub open spec fn view(&self) -> LocationView {
        LocationView { base: self.base@, below: text::texts(self.below@) }
    }

    /// A path that is given.
    pub fn at(path: &str) -> (r: Location)
        ensures
            r@ == (LocationView { base: path@, below: Seq::empty() }),
    {
        let below: Vec<String> = Vec::new();
        assert(text::texts(below@) =~= Seq::<Seq<char>>::empty());
        Location { base: path.to_owned(), below }
    }

    /// The place of a name in a directory.
    pub fn child(&self, name: &str) -> (r: Location)
        ensures
            r@ == self@.child(name@),
    {
        let mut below = text::copy_list(&self.below);
        let ghost before = text::texts(below@);
        below.push(name.to_owned());
        assert(text::texts(below@) =~= before.push(name@));
        Location { base: self.base.clone(), below }
    }
}

/// The directory of Codex: the one that the user has set, else `.codex` in the home directory.
pub open spec fn config_dir(override_dir: Option<Seq<char>>, home: Seq<char>) -> LocationView {
    match override_dir {
        Some(dir) => LocationView { base: dir, below: Seq::empty() },
        None => LocationView { base: home, below: seq![".codex"@] },
    }
}

/// The directory of Codex.
pub fn get_codex_config_dir(override_dir: Option<&str>, home: &str) -> (r: Location)
    ensures
        r@ == config_dir(text::slice_text(override_dir), home@),
{
    match override_dir {
        Some(dir) => Location::at(dir),
        None => {
            let r = Location::at(home).child(".codex");
            assert(r@ =~= config_dir(None, home@));
            r
        },
    }
}

/// The login file.
pub fn get_codex_auth_path(codex_dir: &Location) -> (r: Location)
    ensures
        r@ == codex_dir@.child("auth.json"@),
{
    codex_dir.child("auth.json")
}

/// The config file.
pub fn get_codex_config_path(codex_dir: &Location) -> (r: Location)
    ensures
        r@ == codex_dir@.child("config.toml"@),
{
    codex_dir.child("config.toml")
}

/// The generated catalog.
pub fn get_codex_model_catalog_path(codex_dir: &Location) -> (r: Location)
    ensures
        r@ == codex_dir@.child(CC_SWITCH_CODEX_MODEL_CATALOG_FILENAME@),
{
    codex_dir.child(CC_SWITCH_CODEX_MODEL_CATALOG_FILENAME)
}

/// What the files of a provider are called by: its name, else its id.
pub open spec fn base_name(id: Seq<char>, name: Option<Seq<char>>) -> Seq<char> {
    match name {
        Some(name) => name,
        None => id,
    }
}

/// The login file and the config file of a provider. Its id and its name are given in the form that
/// a file name can have.
pub fn get_codex_provider_paths(
    codex_dir: &Location,
    provider_id: &str,
    provider_name: Option<&str>,
) -> (r: (Location, Location))
    ensures
        ({
            let base = base_name(provider_id@, text::slice_text(provider_name));
            &&& r.0@ == codex_dir@.child("auth-"@ + base + ".json"@)
            &&& r.1@ == codex_dir@.child("config-"@ + base + ".toml"@)
        }),
{
    let base = match provider_name {
        Some(name) => name,
        None => provider_id,
    };
    let mut auth = join2("auth-", base);
    auth.push_str(".json");
    let mut config = join2("config-", base);
    config.push_str(".toml");
    (codex_dir.child(auth.as_str()), codex_dir.child(config.as_str()))
}

/// The files that go when a provider is deleted: its login file and its config file. That one of
/// them is not there is no error.
pub fn delete_codex_provider_config(
    codex_dir: &Location,
    provider_id: &str,
    provider_name: &str,
) -> (r: Vec<Location>)
    ensures
        r@.len() == 2,
        r@[0]@ == codex_dir@.child("auth-"@ + provider_name@ + ".json"@),
        r@[1]@ == codex_dir@.child("config-"@ + provider_name@ + ".toml"@),
{
    let (auth, config) = get_codex_provider_paths(codex_dir, provider_id, Some(provider_name));
    let mut out: Vec<Location> = Vec::new();
    out.push(auth);
    out.push(config);
    out
}

/// A part of a path, as the platform splits it. Names are given by their bytes.
#[derive(Debug)]
pub enum PathPart {
    /// What a path starts from: a drive or the root.
    Start(Vec<u8>),
    /// The directory above.
    Parent,
    /// The same directory.
    Current,
    Name(Vec<u8>),
}

/// What a [`PathPart`] stands for.
#[verifier::ext_equal]
pub enum PartView {
    Start(Seq<u8>),
    Parent,
    Current,
    Name(Seq<u8>),
}

impl PathPart {
    pub open spec fn view(&self) -> PartView {
        match self {
            PathPart::Start(bytes) => PartView::Start(bytes@),
            PathPart::Parent => PartView::Parent,
            PathPart::Current => PartView::Current,
            PathPart::Name(bytes) => PartView::Name(bytes@),
        }
    }
}

/// What the parts of a path stand for.
pub open spec fn parts_view(parts: Seq<PathPart>) -> Seq<PartView> {
    parts.map_values(|p: PathPart| p.view())
}

/// The way that a path goes, without steps that lead nowhere and without detours: a step up takes
/// the name before it back, and goes nowhere from a start.
pub open spec fn straight(parts: Seq<PartView>) -> Seq<PartView>
    decreases parts.len(),
{
    if parts.len() == 0 {
        Seq::empty()
    } else {
        let front = straight(parts.drop_last());
        match parts.last() {
            PartView::Current => front,
            PartView::Parent => if front.len() > 0 && front.last() is Name {
                front.drop_last()
            } else {
                front
            },
            part => front.push(part),
        }
    }
}

/// Whether a path lies in a directory, or is it, by the parts alone.
pub open spec fn is_within(base: Seq<PartView>, path: Seq<PartView>) -> bool {
    straight(base).is_prefix_of(straight(path))
}

/// Whether two runs of bytes are the same.
fn same_bytes(a: &Vec<u8>, b: &Vec<u8>) -> (r: bool)
    ensures
        r == (a@ == b@),
{
    if a.len() != b.len() {
        return false;
    }
    let mut i: usize = 0;
    while i < a.len()
        invariant
            a@.len() == b@.len(),
            i <= a@.len(),
            forall|j: int| 0 <= j < i ==> a@[j] == b@[j],
        decreases a@.len() - i,
    {
        if a[i] != b[i] {
            return false;
        }
        i += 1;
    }
    assert(a@ =~= b@);
    true
}

/// Whether two parts are the same.
fn same_part(a: &PathPart, b: &PathPart) -> (r: bool)
    ensures
        r == (a@ == b@),
{
    match (a, b) {
        (PathPart::Start(a), PathPart::Start(b)) => same_bytes(a, b),
        (PathPart::Name(a), PathPart::Name(b)) => same_bytes(a, b),
        (PathPart::Parent, PathPart::Parent) => true,
        (PathPart::Current, PathPart::Current) => true,
        _ => false,
    }
}

/// The way that a path goes, by the places of its parts that are left.
fn straight_parts(parts: &Vec<PathPart>) -> (r: Vec<usize>)
    ensures
        forall|k: int| 0 <= k < r@.len() ==> (#[trigger] r@[k]) < parts@.len(),
        r@.map_values(|k: usize| parts@[k as int]@) == straight(parts_view(parts@)),
{
    let ghost views = parts_view(parts@);
    let mut left: Vec<usize> = Vec::new();
    let mut i: usize = 0;
    assert(left@.map_values(|k: usize| parts@[k as int]@) =~= straight(views.take(0)));
    while i < parts.len()
        invariant
            i <= parts@.len(),
            views == parts_view(parts@),
            forall|k: int| 0 <= k < left@.len() ==> (#[trigger] left@[k]) < parts@.len(),
            left@.map_values(|k: usize| parts@[k as int]@) == straight(views.take(i as int)),
        decreases parts@.len() - i,
    {
        let ghost before = left@;
        let ghost way = straight(views.take(i as int));
        proof {
            assert(views.take(i + 1).drop_last() =~= views.take(i as int));
            assert(views.take(i + 1).last() == parts@[i as int]@);
            assert(way.len() == before.len());
            assert(before.len() > 0 ==> way.last() == parts@[before.last() as int]@);
        }
        match &parts[i] {
            PathPart::Current => {},
            PathPart::Parent => {
                let goes_back = left.len() > 0 && matches!(
                    &parts[left[left.len() - 1]],
                    PathPart::Name(_)
                );
                if goes_back {
                    left.pop();
                    assert(left@.map_values(|k: usize| parts@[k as int]@) =~= way.drop_last());
                }
            },
            _ => {
                left.push(i);
                assert(left@.map_values(|k: usize| parts@[k as int]@) =~= way.push(
                    parts@[i as int]@,
                ));
            },
        }
        i += 1;
    }
    assert(views.take(i as int) =~= views);
    left
}

/// Whether a path lies in a directory, or is it, by the parts alone. Links are not followed.
pub fn path_is_within(base: &Vec<PathPart>, path: &Vec<PathPart>) -> (r: bool)
    ensures
        r == is_within(parts_view(base@), parts_view(path@)),
{
    let wanted = straight_parts(base);
    let way = straight_parts(path);
    let ghost a = straight(parts_view(base@));
    let ghost b = straight(parts_view(path@));
    assert(a.len() == wanted@.len() && b.len() == way@.len());
    if way.len() < wanted.len() {
        return false;
    }
    let mut i: usize = 0;
    while i < wanted.len()
        invariant
            i <= wanted@.len() <= way@.len(),
            forall|k: int| 0 <= k < wanted@.len() ==> (#[trigger] wanted@[k]) < base@.len(),
            forall|k: int| 0 <= k < way@.len() ==> (#[trigger] way@[k]) < path@.len(),
            a == wanted@.map_values(|k: usize| base@[k as int]@),
            b == way@.map_values(|k: usize| path@[k as int]@),
            a == straight(parts_view(base@)),
            b == straight(parts_view(path@)),
            forall|k: int| 0 <= k < i ==> #[trigger] a[k] == b[k],
        decreases wanted@.len() - i,
    {
        assert(a[i as int] == base@[wanted@[i as int] as int]@);
        assert(b[i as int] == path@[way@[i as int] as int]@);
        if !same_part(&base[wanted[i]], &path[way[i]]) {
            return false;
        }
        i += 1;
    }
    assert(a =~= b.subrange(0, a.len() as int));
    true
}

/// What is named below a directory lies in it, and one step up from there leads out of it.
pub proof fn law_names_below_a_directory_lie_in_it(base: Seq<PartView>, name: Seq<u8>)
    ensures
        is_within(base, base.push(PartView::Name(name))),
        straight(base).len() > 0 && straight(base).last() is Name ==> !is_within(
            base,
            base.push(PartView::Parent),
        ),
{
    let down = base.push(PartView::Name(name));
    assert(down.drop_last() =~= base);
    assert(straight(down) == straight(base).push(PartView::Name(name)));
    assert(straight(base) =~= straight(down).subrange(0, straight(base).len() as int));
    let up = base.push(PartView::Parent);
    assert(up.drop_last() =~= base);
}

/// What stands between the names of a path: the slash, the backslash, or either of them.
pub enum Separators {
    Slash,
    Backslash,
    Either,
}

/// Whether a character separates names.
pub open spec fn separates(c: char, by: Separators) -> bool {
    match by {
        Separators::Slash => c == '/',
        Separators::Backslash => c == '\\',
        Separators::Either => c == '/' || c == '\\',
    }
}

/// What stands behind the last separator of a path; all of it where there is none.
pub open spec fn behind(path: Seq<char>, by: Separators) -> Seq<char>
    decreases path.len(),
{
    if path.len() == 0 || separates(path.last(), by) {
        Seq::empty()
    } else {
        behind(path.drop_last(), by).push(path.last())
    }
}

/// The last name of a path. A separator at the end and a dot behind one are passed over; two dots
/// are no name.
pub open spec fn name_in(path: Seq<char>, by: Separators) -> Option<Seq<char>>
    decreases path.len(),
{
    let name = behind(path, by);
    let before = path.len() - name.len() - 1;
    if name.len() == 0 || name == "."@ {
        if 0 <= before < path.len() {
            name_in(path.take(before), by)
        } else {
            None
        }
    } else if name == ".."@ {
        None
    } else {
        Some(name)
    }
}

/// Whether a path starts with two separators. On some platforms they stand before the name of a
/// server or of a device, which is no file.
pub open spec fn starts_twice(path: Seq<char>) -> bool {
    path.len() >= 2 && separates(path[0], Separators::Either) && separates(
        path[1],
        Separators::Either,
    )
}

/// Whether a path can start with the letter of a drive.
pub open spec fn starts_with_drive(path: Seq<char>) -> bool {
    path.len() >= 2 && path[1] == ':' && !separates(path[0], Separators::Either)
}

/// Whether a path has `name` for its file name on some platform: with slashes alone between names,
/// or with backslashes too, and there behind the letter of a drive, or, after two separators at the
/// start, with backslashes alone or as no file at all.
pub open spec fn is_file_name(path: Seq<char>, name: Option<Seq<char>>) -> bool {
    ||| name == name_in(path, Separators::Slash)
    ||| name == name_in(path, Separators::Either)
    ||| starts_with_drive(path) && name == name_in(path.skip(2), Separators::Either)
    ||| starts_twice(path) && (name is None || name == name_in(path, Separators::Backslash))
}

/// `Path::file_name` gives the last part of a path where that is a name, by the platform's own
/// syntax: one of those that the path can be read by.
#[verifier::external_body]
pub(crate) fn path_file_name(path: &str) -> (r: Option<String>)
    ensures
        is_file_name(path@, text::text_of(r)),
{
    std::path::Path::new(path).file_name().and_then(|name| name.to_str()).map(|name| name.to_string())
}

/// What stands behind the last slash stands behind the last separator, where no backslash is in it.
proof fn lemma_behind_alike(path: Seq<char>)
    requires
        forall|i: int| 0 <= i < path.len() ==> #[trigger] path[i] != '\\',
    ensures
        behind(path, Separators::Either) == behind(path, Separators::Slash),
    decreases path.len(),
{
    if path.len() > 0 && path.last() != '/' {
        assert(path.last() == path[path.len() - 1]);
        lemma_behind_alike(path.drop_last());
    }
}

/// The first characters of a path do not matter for what is behind its last separator, where one
/// comes after them.
proof fn lemma_behind_skip(path: Seq<char>, n: int, by: Separators, at: int)
    requires
        0 <= n <= at < path.len(),
        separates(path[at], by),
    ensures
        behind(path.skip(n), by) == behind(path, by),
    decreases path.len(),
{
    let rest = path.skip(n);
    assert(rest.last() == path.last());
    if !separates(path.last(), by) {
        assert(at < path.len() - 1);
        assert(path.drop_last()[at] == path[at]);
        lemma_behind_skip(path.drop_last(), n, by, at);
        assert(rest.drop_last() =~= path.drop_last().skip(n));
    }
}

/// A path of names with slashes between them has one file name, what stands behind its last slash, on
/// every platform. `slash` is a place of a slash in it, where it starts with the letter of a drive.
pub proof fn law_a_path_with_slashes_has_one_name(path: Seq<char>, name: Option<Seq<char>>, slash: int)
    requires
        is_file_name(path, name),
        forall|i: int| 0 <= i < path.len() ==> #[trigger] path[i] != '\\',
        behind(path, Separators::Slash).len() > 0,
        behind(path, Separators::Slash) != "."@,
        behind(path, Separators::Slash) != ".."@,
        !starts_twice(path),
        starts_with_drive(path) ==> 0 <= slash < path.len() && path[slash] == '/',
    ensures
        name == Some(behind(path, Separators::Slash)),
{
    lemma_behind_alike(path);
    if starts_with_drive(path) {
        assert(slash >= 2);
        lemma_behind_skip(path, 2, Separators::Either, slash);
    }
}

} // verus!
