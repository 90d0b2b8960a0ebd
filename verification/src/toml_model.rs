//! What the changes to a TOML document do to its settings.

use crate::toml_doc::{EditView, TomlView};
use crate::{text, toml_doc};
use vstd::prelude::*;

verus! {

/// The entries, each with `key` with the value `value`.
pub open spec fn replace_entry(
    entries: Seq<(Seq<char>, TomlView)>,
    key: Seq<char>,
    value: TomlView,
) -> Seq<(Seq<char>, TomlView)> {
    entries.map_values(
        |e: (Seq<char>, TomlView)|
            if e.0 == key {
                (key, value)
            } else {
                e
            },
    )
}

/// The entries with `key` set to `value`, in place or behind the others.
pub open spec fn set_entry(
    entries: Seq<(Seq<char>, TomlView)>,
    key: Seq<char>,
    value: TomlView,
) -> Seq<(Seq<char>, TomlView)> {
    if toml_doc::find(entries, key) is Some {
        replace_entry(entries, key, value)
    } else {
        entries.push((key, value))
    }
}

/// The entries without `key`.
pub open spec fn drop_entry(
    entries: Seq<(Seq<char>, TomlView)>,
    key: Seq<char>,
) -> Seq<(Seq<char>, TomlView)> {
    entries.filter(|e: (Seq<char>, TomlView)| e.0 != key)
}

/// A table with `key` set to `value`; any other value as it is.
pub open spec fn with_entry(tree: TomlView, key: Seq<char>, value: TomlView) -> TomlView {
    match tree {
        TomlView::Table(entries) => TomlView::Table(set_entry(entries, key, value)),
        TomlView::Inline(entries) => TomlView::Inline(set_entry(entries, key, value)),
        _ => tree,
    }
}

/// A table without `key`; any other value as it is.
pub open spec fn without_entry(tree: TomlView, key: Seq<char>) -> TomlView {
    match tree {
        TomlView::Table(entries) => TomlView::Table(drop_entry(entries, key)),
        TomlView::Inline(entries) => TomlView::Inline(drop_entry(entries, key)),
        _ => tree,
    }
}

/// What stands at the end of a path.
pub open spec fn at(tree: TomlView, path: Seq<Seq<char>>) -> Option<TomlView>
    decreases path.len(),
{
    if path.len() == 0 {
        Some(tree)
    } else {
        match tree.get(path.first()) {
            Some(inner) => at(inner, path.drop_first()),
            None => None,
        }
    }
}

/// The tree with `change` made to the table at the end of a path, where there is one.
pub open spec fn edit_at(
    tree: TomlView,
    path: Seq<Seq<char>>,
    change: spec_fn(TomlView) -> TomlView,
) -> TomlView
    decreases path.len(),
{
    if path.len() == 0 {
        if tree.is_table_like() {
            change(tree)
        } else {
            tree
        }
    } else {
        match tree.get(path.first()) {
            Some(inner) => with_entry(
                tree,
                path.first(),
                edit_at(inner, path.drop_first(), change),
            ),
            None => tree,
        }
    }
}

/// The entries of the table that `Retable` moves; none where there is no table.
pub open spec fn moved_entries(item: Option<TomlView>) -> Seq<(Seq<char>, TomlView)> {
    match item {
        Some(item) => match item.entries() {
            Some(entries) => entries,
            None => Seq::empty(),
        },
        None => Seq::empty(),
    }
}

/// The tree after one change.
pub open spec fn applied(tree: TomlView, edit: EditView) -> TomlView {
    match edit {
        EditView::AssignStr { path, key, value } => edit_at(
            tree,
            path,
            |t: TomlView| with_entry(t, key, TomlView::Str(value)),
        ),
        EditView::AssignBool { path, key, on } => edit_at(
            tree,
            path,
            |t: TomlView| with_entry(t, key, TomlView::Bool(on)),
        ),
        EditView::InsertStr { path, key, value } => edit_at(
            tree,
            path,
            |t: TomlView| with_entry(t, key, TomlView::Str(value)),
        ),
        EditView::InsertTable { path, key } => edit_at(
            tree,
            path,
            |t: TomlView| with_entry(t, key, TomlView::Table(Seq::empty())),
        ),
        EditView::AssignTable { key, implicit } => with_entry(
            tree,
            key,
            TomlView::Table(Seq::empty()),
        ),
        EditView::Remove { path, key } => edit_at(
            tree,
            path,
            |t: TomlView| without_entry(t, key),
        ),
        EditView::Retable { key } => with_entry(
            without_entry(tree, key),
            key,
            TomlView::Table(moved_entries(tree.get(key))),
        ),
        EditView::Rename { path, from, to } => edit_at(
            tree,
            path,
            |t: TomlView|
                match t.get(from) {
                    Some(item) => with_entry(without_entry(t, from), to, item),
                    None => t,
                },
        ),
        EditView::AssignFrom { source, key } => match toml_doc::toml_tree(source) {
            Some(other) => match other.get(key) {
                Some(item) => with_entry(tree, key, item),
                None => tree,
            },
            None => tree,
        },
        EditView::InsertFrom { source, path, key } => match toml_doc::toml_tree(source) {
            Some(other) => match at(other, path.push(key)) {
                Some(item) => edit_at(tree, path, |t: TomlView| with_entry(t, key, item)),
                None => tree,
            },
            None => tree,
        },
    }
}

/// The tree after all changes, in order.
pub open spec fn applied_all(tree: TomlView, edits: Seq<EditView>) -> TomlView
    decreases edits.len(),
{
    if edits.len() == 0 {
        tree
    } else {
        applied(applied_all(tree, edits.drop_last()), edits.last())
    }
}

/// The value at the end of a path, where it is no table.
pub open spec fn setting(tree: TomlView, path: Seq<Seq<char>>) -> Option<TomlView> {
    match at(tree, path) {
        Some(v) => if v.is_table_like() {
            None
        } else {
            Some(v)
        },
        None => None,
    }
}

/// Whether `read` has the settings of `model`, and nothing at a path where `model` has nothing. Empty
/// tables may be gone, and a table in braces may have become one that is not, or the other way
/// round.
pub open spec fn same_settings(read: TomlView, model: TomlView) -> bool {
    &&& forall|path: Seq<Seq<char>>| #[trigger] setting(read, path) == setting(model, path)
    &&& forall|path: Seq<Seq<char>>| (#[trigger] at(read, path)) is Some ==> at(model, path) is Some
}

/// Whether a key is written without quotes.
pub open spec fn is_bare(key: Seq<char>) -> bool {
    &&& key.len() > 0
    &&& forall|i: int|
        0 <= i < key.len() ==> {
            let c = #[trigger] key[i];
            'a' <= c <= 'z' || 'A' <= c <= 'Z' || '0' <= c <= '9' || c == '_' || c == '-'
        }
}

/// Whether a change moves or copies nothing: what it adds, it adds under a key that it names.
pub open spec fn adds_by_name(edit: EditView) -> bool {
    match edit {
        EditView::AssignStr { .. } => true,
        EditView::AssignBool { .. } => true,
        EditView::InsertStr { .. } => true,
        EditView::InsertTable { .. } => true,
        EditView::AssignTable { .. } => true,
        EditView::Remove { .. } => true,
        _ => false,
    }
}

/// Whether a text shows the names that changes have added: a key that is read from it, and that was
/// not there before, stands in it as it is.
pub open spec fn shows_new_names(
    text: Seq<char>,
    read: TomlView,
    tree: TomlView,
    edits: Seq<EditView>,
) -> bool {
    (forall|i: int| 0 <= i < edits.len() ==> adds_by_name(#[trigger] edits[i]))
        ==> forall|path: Seq<Seq<char>>|
        (#[trigger] at(read, path)) is Some && at(tree, path) is None && path.len() > 0 && is_bare(
            path.last(),
        ) ==> text::occurs(text, path.last())
}

/// Whether every table from the root to the end of a path is one that is not in braces.
pub open spec fn all_tables(tree: TomlView, path: Seq<Seq<char>>) -> bool
    decreases path.len(),
{
    &&& tree is Table
    &&& path.len() > 0 ==> (tree.get(path.first()) matches Some(inner) && all_tables(
        inner,
        path.drop_first(),
    ))
}

/// Whether a change copies nothing and gives nothing another name.
pub open spec fn stays_in_place(edit: EditView) -> bool {
    adds_by_name(edit) || edit is Retable
}

/// Whether tables stay in braces, or without them, under changes that copy nothing and give nothing
/// another name: what is read of a table that stands in no braces, nor below any, is in none, and
/// what is read of one in braces is in braces, where no table was moved out of them.
pub open spec fn keeps_braces(read: TomlView, model: TomlView, edits: Seq<EditView>) -> bool {
    &&& (forall|i: int| 0 <= i < edits.len() ==> stays_in_place(#[trigger] edits[i]))
        ==> forall|path: Seq<Seq<char>>|
        (#[trigger] at(read, path)) is Some && all_tables(model, path) ==> at(
            read,
            path,
        )->Some_0 is Table
    &&& (forall|i: int| 0 <= i < edits.len() ==> adds_by_name(#[trigger] edits[i]))
        ==> forall|path: Seq<Seq<char>>|
        (#[trigger] at(read, path)) is Some && (at(model, path) matches Some(v) && v is Inline)
            ==> at(read, path)->Some_0 is Inline
}

/// Whether two trees have the same settings everywhere but at one place and below it, and the first
/// has nothing elsewhere that the second has not.
pub open spec fn differs_only_at(
    read: TomlView,
    tree: TomlView,
    place: Seq<Seq<char>>,
) -> bool {
    &&& forall|path: Seq<Seq<char>>|
        !place.is_prefix_of(path) ==> #[trigger] setting(read, path) == setting(tree, path)
    &&& forall|path: Seq<Seq<char>>|
        !place.is_prefix_of(path) && (#[trigger] at(read, path)) is Some ==> at(tree, path) is Some
}

/// Whether no key stands twice.
pub open spec fn distinct(entries: Seq<(Seq<char>, TomlView)>) -> bool {
    forall|i: int, j: int|
        0 <= i < j < entries.len() ==> (#[trigger] entries[i]).0 != (#[trigger] entries[j]).0
}

/// Whether no key stands twice in a table, anywhere in the tree.
pub open spec fn keys_distinct(tree: TomlView) -> bool {
    forall|path: Seq<Seq<char>>|
        match #[trigger] at(tree, path) {
            Some(v) => match v.entries() {
                Some(entries) => distinct(entries),
                None => true,
            },
            None => true,
        }
}

/// What is found after an entry was set.
pub broadcast proof fn lemma_find_set(
    entries: Seq<(Seq<char>, TomlView)>,
    key: Seq<char>,
    value: TomlView,
    k: Seq<char>,
)
    ensures
        #[trigger] toml_doc::find(set_entry(entries, key, value), k) == if k == key {
            Some(value)
        } else {
            toml_doc::find(entries, k)
        },
{
    if toml_doc::find(entries, key) is Some {
        lemma_find_map(entries, key, value, k);
    } else {
        assert(entries.push((key, value)).drop_last() =~= entries);
    }
}

proof fn lemma_find_map(
    entries: Seq<(Seq<char>, TomlView)>,
    key: Seq<char>,
    value: TomlView,
    k: Seq<char>,
)
    ensures
        toml_doc::find(replace_entry(entries, key, value), k) == if k == key && toml_doc::find(entries, key) is Some {
            Some(value)
        } else {
            toml_doc::find(entries, k)
        },
    decreases entries.len(),
{
    if entries.len() > 0 {
        lemma_find_map(entries.drop_last(), key, value, k);
        assert(replace_entry(entries, key, value).drop_last() =~= replace_entry(
            entries.drop_last(),
            key,
            value,
        ));
    }
}

/// What is found after an entry was taken away.
pub broadcast proof fn lemma_find_drop(
    entries: Seq<(Seq<char>, TomlView)>,
    key: Seq<char>,
    k: Seq<char>,
)
    ensures
        #[trigger] toml_doc::find(drop_entry(entries, key), k) == if k == key {
            None
        } else {
            toml_doc::find(entries, k)
        },
    decreases entries.len(),
{
    reveal(Seq::filter);
    if entries.len() > 0 {
        lemma_find_drop(entries.drop_last(), key, k);
        let front = drop_entry(entries.drop_last(), key);
        if entries.last().0 != key {
            assert(drop_entry(entries, key) == front.push(entries.last()));
            assert(front.push(entries.last()).drop_last() =~= front);
        }
    }
}

/// What a table has after an entry was set.
pub broadcast proof fn lemma_get_with(tree: TomlView, key: Seq<char>, value: TomlView, k: Seq<char>)
    requires
        tree.is_table_like(),
    ensures
        #[trigger] with_entry(tree, key, value).get(k) == if k == key {
            Some(value)
        } else {
            tree.get(k)
        },
{
    lemma_find_set(tree.entries()->Some_0, key, value, k);
}

/// What a table has after an entry was taken away.
pub broadcast proof fn lemma_get_without(tree: TomlView, key: Seq<char>, k: Seq<char>)
    requires
        tree.is_table_like(),
    ensures
        #[trigger] without_entry(tree, key).get(k) == if k == key {
            None
        } else {
            tree.get(k)
        },
{
    lemma_find_drop(tree.entries()->Some_0, key, k);
}

/// What stands one step away from the root.
pub proof fn lemma_at1(tree: TomlView, a: Seq<char>)
    ensures
        at(tree, seq![a]) == tree.get(a),
{
    reveal_with_fuel(at, 2);
    assert(seq![a].drop_first() =~= Seq::<Seq<char>>::empty());
}

/// What stands two steps away from the root.
pub proof fn lemma_at2(tree: TomlView, a: Seq<char>, b: Seq<char>)
    ensures
        at(tree, seq![a, b]) == match tree.get(a) {
            Some(inner) => inner.get(b),
            None => None,
        },
{
    assert(seq![a, b].drop_first() =~= seq![b]);
    match tree.get(a) {
        Some(inner) => lemma_at1(inner, b),
        None => {},
    }
}

/// What stands three steps away from the root.
pub proof fn lemma_at3(tree: TomlView, a: Seq<char>, b: Seq<char>, c: Seq<char>)
    ensures
        at(tree, seq![a, b, c]) == match tree.get(a) {
            Some(inner) => match inner.get(b) {
                Some(inner) => inner.get(c),
                None => None,
            },
            None => None,
        },
{
    assert(seq![a, b, c].drop_first() =~= seq![b, c]);
    match tree.get(a) {
        Some(inner) => lemma_at2(inner, b, c),
        None => {},
    }
}

/// A change to a table one step away from the root.
pub proof fn lemma_edit_at1(tree: TomlView, a: Seq<char>, change: spec_fn(TomlView) -> TomlView)
    ensures
        edit_at(tree, seq![a], change) == match tree.get(a) {
            Some(inner) => with_entry(
                tree,
                a,
                if inner.is_table_like() {
                    change(inner)
                } else {
                    inner
                },
            ),
            None => tree,
        },
{
    reveal_with_fuel(edit_at, 2);
    assert(seq![a].drop_first() =~= Seq::<Seq<char>>::empty());
}

/// A change to a table two steps away from the root.
pub proof fn lemma_edit_at2(
    tree: TomlView,
    a: Seq<char>,
    b: Seq<char>,
    change: spec_fn(TomlView) -> TomlView,
)
    ensures
        edit_at(tree, seq![a, b], change) == match tree.get(a) {
            Some(inner) => with_entry(tree, a, edit_at(inner, seq![b], change)),
            None => tree,
        },
{
    assert(seq![a, b].drop_first() =~= seq![b]);
}

/// The settings of a table after an entry was set.
pub proof fn lemma_setting_with(
    tree: TomlView,
    key: Seq<char>,
    value: TomlView,
    path: Seq<Seq<char>>,
)
    requires
        tree.is_table_like(),
        path.len() > 0,
    ensures
        setting(with_entry(tree, key, value), path) == if path.first() == key {
            setting(value, path.drop_first())
        } else {
            setting(tree, path)
        },
{
    lemma_get_with(tree, key, value, path.first());
}

/// The settings of a table after an entry was taken away.
pub proof fn lemma_setting_without(tree: TomlView, key: Seq<char>, path: Seq<Seq<char>>)
    requires
        tree.is_table_like(),
        path.len() > 0,
    ensures
        setting(without_entry(tree, key), path) == if path.first() == key {
            None
        } else {
            setting(tree, path)
        },
{
    lemma_get_without(tree, key, path.first());
}

/// A change after the others.
pub broadcast proof fn lemma_applied_push(tree: TomlView, edits: Seq<EditView>, edit: EditView)
    ensures
        #[trigger] applied_all(tree, edits.push(edit)) == applied(applied_all(tree, edits), edit),
{
    assert(edits.push(edit).drop_last() =~= edits);
}

/// Changes after the others.
pub broadcast proof fn lemma_applied_append(tree: TomlView, a: Seq<EditView>, b: Seq<EditView>)
    ensures
        #[trigger] applied_all(tree, a + b) == applied_all(applied_all(tree, a), b),
    decreases b.len(),
{
    if b.len() > 0 {
        assert((a + b).drop_last() =~= a + b.drop_last());
        lemma_applied_append(tree, a, b.drop_last());
    } else {
        assert(a + b =~= a);
    }
}

/// A value that is no table stands where it was written.
pub proof fn lemma_read_setting(read: TomlView, model: TomlView, path: Seq<Seq<char>>)
    requires
        same_settings(read, model),
        setting(model, path) is Some,
    ensures
        at(read, path) == setting(model, path),
{
    assert(setting(read, path) == setting(model, path));
}

/// Whether a change to a table leaves a table, and all of its entries but `key`.
pub open spec fn touches_only(change: spec_fn(TomlView) -> TomlView, key: Seq<char>) -> bool {
    forall|t: TomlView|
        t.is_table_like() ==> (#[trigger] change(t)).is_table_like() && forall|k: Seq<char>|
            k != key ==> #[trigger] change(t).get(k) == t.get(k)
}

/// A change to one entry leaves what stands elsewhere.
pub proof fn lemma_edit_elsewhere(
    tree: TomlView,
    path: Seq<Seq<char>>,
    key: Seq<char>,
    change: spec_fn(TomlView) -> TomlView,
    place: Seq<Seq<char>>,
)
    requires
        touches_only(change, key),
        !path.push(key).is_prefix_of(place),
    ensures
        setting(edit_at(tree, path, change), place) == setting(tree, place),
        at(edit_at(tree, path, change), place) is Some == at(tree, place) is Some,
    decreases path.len(),
{
    let after = edit_at(tree, path, change);
    if path.len() == 0 {
        if tree.is_table_like() && place.len() > 0 {
            if place.first() == key {
                assert(path.push(key) =~= place.take(1));
            }
            assert(change(tree).get(place.first()) == tree.get(place.first()));
        }
    } else {
        match tree.get(path.first()) {
            Some(inner) => {
                let edited = edit_at(inner, path.drop_first(), change);
                if place.len() > 0 {
                    lemma_get_with(tree, path.first(), edited, place.first());
                    if place.first() == path.first() {
                        let rest = path.drop_first().push(key);
                        if rest.is_prefix_of(place.drop_first()) {
                            assert(path.push(key) =~= place.take(path.len() as int + 1)) by {
                                assert forall|i: int| 0 <= i <= path.len() implies path.push(
                                    key,
                                )[i] == #[trigger] place[i] by {
                                    if i > 0 {
                                        assert(rest[i - 1] == place.drop_first()[i - 1]);
                                    }
                                }
                            }
                        }
                        lemma_edit_elsewhere(
                            inner,
                            path.drop_first(),
                            key,
                            change,
                            place.drop_first(),
                        );
                    }
                }
            },
            None => {},
        }
    }
}

/// A change to one entry leaves what stands elsewhere, once it is read again.
pub proof fn lemma_edit_differs_only_there(
    read: TomlView,
    tree: TomlView,
    path: Seq<Seq<char>>,
    key: Seq<char>,
    change: spec_fn(TomlView) -> TomlView,
)
    requires
        touches_only(change, key),
        same_settings(read, edit_at(tree, path, change)),
    ensures
        differs_only_at(read, tree, path.push(key)),
{
    let model = edit_at(tree, path, change);
    let place = path.push(key);
    assert forall|p: Seq<Seq<char>>| !place.is_prefix_of(p) implies #[trigger] setting(read, p)
        == setting(tree, p) by {
        lemma_edit_elsewhere(tree, path, key, change, p);
        assert(setting(read, p) == setting(model, p));
    }
    assert forall|p: Seq<Seq<char>>|
        !place.is_prefix_of(p) && (#[trigger] at(read, p)) is Some implies at(tree, p) is Some by {
        lemma_edit_elsewhere(tree, path, key, change, p);
        assert(at(model, p) is Some);
    }
}

} // verus!
