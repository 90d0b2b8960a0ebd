//! What holds of a config that was merged with the one it replaces.

use crate::config_merge::CODEX_WEB_SEARCH_FIELD;
use crate::error::ErrorView;
use crate::toml_doc::{CopyView, EditView, TomlView};
use crate::{config_merge, live_config, text, toml_doc, toml_model};
use vstd::prelude::*;
use vstd::string::*;

verus! {

/// The place that a copy fills.
pub open spec fn place_of(copy: CopyView) -> Seq<Seq<char>> {
    match copy {
        CopyView::Assign { key } => seq![key],
        CopyView::Insert { path, key } => path.push(key),
    }
}

/// Whether a place is missing in a tree that has the table that it belongs into.
pub open spec fn is_open_place(tree: TomlView, place: Seq<Seq<char>>) -> bool {
    &&& place.len() > 0
    &&& toml_model::at(tree, place.drop_last()) matches Some(table) && table.is_table_like()
    &&& toml_model::at(tree, place) is None
}

/// A tree with an item put into a place.
spec fn placed(tree: TomlView, place: Seq<Seq<char>>, item: TomlView) -> TomlView {
    let key = place.last();
    toml_model::edit_at(
        tree,
        place.drop_last(),
        |t: TomlView| toml_model::with_entry(t, key, item),
    )
}

/// What stands at the end of one more step.
proof fn lemma_at_step(tree: TomlView, path: Seq<Seq<char>>)
    requires
        path.len() > 0,
    ensures
        toml_model::at(tree, path) == match tree.get(path[0]) {
            Some(inner) => toml_model::at(inner, path.drop_first()),
            None => None,
        },
{
    assert(path.first() == path[0]);
}

/// What stands at a path after an item was put into a place: the item at and below the place, and
/// what stood there before at paths that do not meet the place.
proof fn lemma_placed(
    tree: TomlView,
    place: Seq<Seq<char>>,
    item: TomlView,
    path: Seq<Seq<char>>,
)
    requires
        place.len() > 0,
        toml_model::at(tree, place.drop_last()) matches Some(table) && table.is_table_like(),
    ensures
        place.is_prefix_of(path) ==> toml_model::at(placed(tree, place, item), path)
            == toml_model::at(item, path.skip(place.len() as int)),
        !place.is_prefix_of(path) && !path.is_prefix_of(place) ==> toml_model::at(
            placed(tree, place, item),
            path,
        ) == toml_model::at(tree, path),
        path.is_prefix_of(place) && path.len() < place.len() ==> {
            &&& toml_model::at(tree, path) matches Some(v) && v.is_table_like()
            &&& toml_model::at(placed(tree, place, item), path) matches Some(w)
                && w.is_table_like()
        },
    decreases place.len(),
{
    broadcast use toml_model::lemma_get_with;

    let key = place.last();
    let change = |t: TomlView| toml_model::with_entry(t, key, item);
    let after = placed(tree, place, item);
    if place.len() == 1 {
        assert(place.drop_last() =~= Seq::<Seq<char>>::empty());
        assert(toml_model::at(tree, place.drop_last()) == Some(tree));
        assert(after == toml_model::with_entry(tree, key, item));
        if path.len() > 0 {
            lemma_at_step(after, path);
            lemma_at_step(tree, path);
            assert(path.drop_first() =~= path.skip(1));
            if path[0] == key {
                assert(path.subrange(0, 1) =~= place);
            } else {
                assert(!place.is_prefix_of(path)) by {
                    if place.is_prefix_of(path) {
                        assert(path.subrange(0, 1)[0] == place[0]);
                    }
                }
                assert(!path.is_prefix_of(place)) by {
                    if path.is_prefix_of(place) {
                        assert(place.subrange(0, path.len() as int)[0] == path[0]);
                    }
                }
            }
        }
    } else {
        let a = place[0];
        let front = place.drop_last();
        let rest = place.drop_first();
        assert(front.first() == a);
        assert(front.drop_first() =~= rest.drop_last());
        assert(rest.last() == key);
        lemma_at_step(tree, front);
        let inner = tree.get(a)->Some_0;
        assert(after == toml_model::with_entry(tree, a, placed(inner, rest, item)));
        if path.len() > 0 {
            let tail = path.drop_first();
            lemma_at_step(after, path);
            lemma_at_step(tree, path);
            if path[0] == a {
                lemma_placed(inner, rest, item, tail);
                if place.len() <= path.len() {
                    assert(tail.skip(rest.len() as int) =~= path.skip(place.len() as int));
                }
                lemma_prefix_step(place, path);
                lemma_prefix_step(path, place);
            } else {
                assert(!place.is_prefix_of(path)) by {
                    if place.is_prefix_of(path) {
                        assert(path.subrange(0, place.len() as int)[0] == place[0]);
                    }
                }
                assert(!path.is_prefix_of(place)) by {
                    if path.is_prefix_of(place) {
                        assert(place.subrange(0, path.len() as int)[0] == path[0]);
                    }
                }
            }
        }
    }
}

/// Being a prefix, one step down.
proof fn lemma_prefix_step(a: Seq<Seq<char>>, b: Seq<Seq<char>>)
    requires
        a.len() > 0,
        b.len() > 0,
        a[0] == b[0],
    ensures
        a.is_prefix_of(b) == a.drop_first().is_prefix_of(b.drop_first()),
{
    if a.is_prefix_of(b) {
        assert(b.drop_first().subrange(0, a.len() - 1) =~= b.subrange(0, a.len() as int).drop_first());
        assert(a.drop_first() =~= b.drop_first().subrange(0, a.len() - 1));
    }
    if a.drop_first().is_prefix_of(b.drop_first()) {
        assert(b.subrange(0, a.len() as int) =~= seq![b[0]] + b.drop_first().subrange(
            0,
            a.len() - 1,
        ));
        assert(a =~= seq![a[0]] + a.drop_first());
    }
}

/// A path into nothing leads nowhere.
proof fn lemma_at_prefix(tree: TomlView, prefix: Seq<Seq<char>>, path: Seq<Seq<char>>)
    requires
        prefix.is_prefix_of(path),
    ensures
        toml_model::at(tree, path) == match toml_model::at(tree, prefix) {
            Some(inner) => toml_model::at(inner, path.skip(prefix.len() as int)),
            None => None,
        },
    decreases prefix.len(),
{
    if prefix.len() == 0 {
        assert(path.skip(0) =~= path);
    } else {
        assert(path[0] == prefix[0]) by {
            assert(path.subrange(0, prefix.len() as int)[0] == prefix[0]);
        }
        lemma_prefix_step(prefix, path);
        lemma_at_step(tree, prefix);
        lemma_at_step(tree, path);
        match tree.get(path[0]) {
            Some(inner) => {
                lemma_at_prefix(inner, prefix.drop_first(), path.drop_first());
                assert(path.drop_first().skip(prefix.len() - 1) =~= path.skip(
                    prefix.len() as int,
                ));
            },
            None => {},
        }
    }
}

/// Whether `tree` has everything that `base` has: its settings, and tables where it has tables.
spec fn extends(tree: TomlView, base: TomlView) -> bool {
    forall|path: Seq<Seq<char>>|
        (#[trigger] toml_model::at(base, path)) is Some ==> {
            let v = toml_model::at(base, path)->Some_0;
            &&& toml_model::at(tree, path) is Some
            &&& v.is_table_like() == toml_model::at(tree, path)->Some_0.is_table_like()
            &&& !v.is_table_like() ==> toml_model::at(tree, path) == Some(v)
        }
}

/// What a copy does: it puts what the source has into its place.
proof fn lemma_copy_places(tree: TomlView, source: Seq<char>, copy: CopyView)
    requires
        tree.is_table_like(),
        toml_doc::toml_tree(source) is Some,
    ensures
        ({
            let other = toml_doc::toml_tree(source)->Some_0;
            let place = place_of(copy);
            toml_model::applied(tree, copy.from_source(source)) == match toml_model::at(
                other,
                place,
            ) {
                Some(item) => placed(tree, place, item),
                None => tree,
            }
        }),
{
    let other = toml_doc::toml_tree(source)->Some_0;
    match copy {
        CopyView::Assign { key } => {
            toml_model::lemma_at1(other, key);
            assert(seq![key].drop_last() =~= Seq::<Seq<char>>::empty());
        },
        CopyView::Insert { path, key } => {
            assert(path.push(key).drop_last() =~= path);
        },
    }
}

/// Whether every copy fills an open place of the target.
pub open spec fn fills_open_places(target: TomlView, copies: Seq<CopyView>) -> bool {
    forall|i: int| 0 <= i < copies.len() ==> is_open_place(target, place_of(#[trigger] copies[i]))
}

/// The tree after copies into open places: all of the target is still there, and a setting of the
/// source below a place that one of the copies fills is there too.
proof fn lemma_copies_applied(
    target: TomlView,
    source: Seq<char>,
    copies: Seq<CopyView>,
    path: Seq<Seq<char>>,
)
    requires
        target.is_table_like(),
        toml_doc::toml_tree(source) is Some,
        fills_open_places(target, copies),
    ensures
        ({
            let r = toml_model::applied_all(target, toml_doc::copies_from(copies, source));
            let other = toml_doc::toml_tree(source)->Some_0;
            &&& r.is_table_like()
            &&& extends(r, target)
            &&& (toml_model::setting(other, path) is Some && exists|i: int|
                0 <= i < copies.len() && place_of(#[trigger] copies[i]).is_prefix_of(path))
                ==> toml_model::at(r, path) == toml_model::at(other, path)
        }),
    decreases copies.len(),
{
    let other = toml_doc::toml_tree(source)->Some_0;
    let edits = toml_doc::copies_from(copies, source);
    if copies.len() == 0 {
        assert(edits =~= Seq::<EditView>::empty());
    } else {
        let front = copies.drop_last();
        let copy = copies.last();
        let place = place_of(copy);
        assert(edits.drop_last() =~= toml_doc::copies_from(front, source));
        assert(edits.last() == copy.from_source(source));
        assert(fills_open_places(target, front)) by {
            assert forall|i: int| 0 <= i < front.len() implies is_open_place(
                target,
                place_of(#[trigger] front[i]),
            ) by {
                assert(copies[i] == front[i]);
            }
        }
        lemma_copies_applied(target, source, front, path);
        let before = toml_model::applied_all(target, toml_doc::copies_from(front, source));
        let after = toml_model::applied_all(target, edits);
        lemma_copy_places(before, source, copy);
        assert(is_open_place(target, place_of(copies[copies.len() - 1])));
        let parent = place.drop_last();
        assert(toml_model::at(target, parent) is Some);
        assert(toml_model::at(before, parent) matches Some(t) && t.is_table_like());
        match toml_model::at(other, place) {
            Some(item) => {
                lemma_placed(before, place, item, Seq::empty());
                assert(toml_model::at(after, Seq::empty()) == Some(after));
                assert(Seq::<Seq<char>>::empty().is_prefix_of(place)) by {
                    assert(place.subrange(0, 0) =~= Seq::<Seq<char>>::empty());
                }
                assert forall|q: Seq<Seq<char>>|
                    (#[trigger] toml_model::at(target, q)) is Some implies ({
                    let v = toml_model::at(target, q)->Some_0;
                    &&& toml_model::at(after, q) is Some
                    &&& v.is_table_like() == toml_model::at(after, q)->Some_0.is_table_like()
                    &&& !v.is_table_like() ==> toml_model::at(after, q) == Some(v)
                }) by {
                    lemma_placed(before, place, item, q);
                    if place.is_prefix_of(q) {
                        lemma_at_prefix(target, place, q);
                    }
                    if q.is_prefix_of(place) && q.len() == place.len() {
                        assert(q =~= place);
                    }
                }
                if toml_model::setting(other, path) is Some {
                    lemma_placed(before, place, item, path);
                    if place.is_prefix_of(path) {
                        lemma_at_prefix(other, place, path);
                    } else if exists|i: int|
                        0 <= i < copies.len() && place_of(#[trigger] copies[i]).is_prefix_of(path) {
                        let i = choose|i: int|
                            0 <= i < copies.len() && place_of(
                                #[trigger] copies[i],
                            ).is_prefix_of(path);
                        assert(copies[i] == front[i]);
                        if path.is_prefix_of(place) {
                            lemma_at_prefix(other, path, place);
                            assert(place.skip(path.len() as int).len() > 0) by {
                                if path.len() == place.len() {
                                    assert(path =~= place);
                                    assert(place.subrange(0, place.len() as int) =~= place);
                                }
                            }
                            lemma_at_step(
                                toml_model::at(other, path)->Some_0,
                                place.skip(path.len() as int),
                            );
                        }
                    }
                }
            },
            None => {
                if toml_model::setting(other, path) is Some && exists|i: int|
                    0 <= i < copies.len() && place_of(#[trigger] copies[i]).is_prefix_of(path) {
                    let i = choose|i: int|
                        0 <= i < copies.len() && place_of(#[trigger] copies[i]).is_prefix_of(path);
                    if place.is_prefix_of(path) {
                        lemma_at_prefix(other, place, path);
                    } else {
                        assert(copies[i] == front[i]);
                    }
                }
            },
        }
    }
}

/// What stands one step behind a path.
proof fn lemma_at_push(tree: TomlView, path: Seq<Seq<char>>, key: Seq<char>)
    ensures
        toml_model::at(tree, path.push(key)) == match toml_model::at(tree, path) {
            Some(inner) => inner.get(key),
            None => None,
        },
{
    assert(path.push(key).subrange(0, path.len() as int) =~= path);
    lemma_at_prefix(tree, path, path.push(key));
    assert(path.push(key).skip(path.len() as int) =~= seq![key]);
    match toml_model::at(tree, path) {
        Some(inner) => toml_model::lemma_at1(inner, key),
        None => {},
    }
}

/// The copies for missing entries fill open places.
proof fn lemma_missing_entries_open(
    target: TomlView,
    path: Seq<Seq<char>>,
    table: TomlView,
    entries: Seq<(Seq<char>, TomlView)>,
)
    requires
        toml_model::at(target, path) == Some(table),
        table.is_table_like(),
    ensures
        fills_open_places(target, config_merge::missing_entries(path, table, entries)),
    decreases entries,
{
    if entries.len() > 0 {
        lemma_missing_entries_open(target, path, table, entries.drop_last());
        lemma_missing_entry_open(target, path, table, entries.last().0, entries.last().1);
    }
}

proof fn lemma_missing_entry_open(
    target: TomlView,
    path: Seq<Seq<char>>,
    table: TomlView,
    key: Seq<char>,
    item: TomlView,
)
    requires
        toml_model::at(target, path) == Some(table),
        table.is_table_like(),
    ensures
        fills_open_places(target, config_merge::missing_entry(path, table, key, item)),
    decreases item,
{
    lemma_at_push(target, path, key);
    assert(path.push(key).drop_last() =~= path);
    match table.get(key) {
        None => {},
        Some(inner) => if inner.is_table_like() {
            match item {
                TomlView::Table(entries) => lemma_missing_entries_open(
                    target,
                    path.push(key),
                    inner,
                    entries,
                ),
                TomlView::Inline(entries) => lemma_missing_entries_open(
                    target,
                    path.push(key),
                    inner,
                    entries,
                ),
                _ => {},
            }
        },
    }
}

/// The copies that carry settings over fill open places.
proof fn lemma_carried_entries_open(target: TomlView, entries: Seq<(Seq<char>, TomlView)>)
    requires
        target.is_table_like(),
    ensures
        fills_open_places(target, config_merge::carried_entries(target, entries)),
    decreases entries.len(),
{
    if entries.len() > 0 {
        lemma_carried_entries_open(target, entries.drop_last());
        let (key, item) = entries.last();
        let root = toml_doc::root();
        assert(toml_model::at(target, root) == Some(target));
        lemma_missing_entry_open(target, root, target, key, item);
        toml_model::lemma_at1(target, key);
        assert(seq![key].drop_last() =~= root);
    }
}

/// Whether some copy fills a place at or above the end of a path.
pub open spec fn covers(copies: Seq<CopyView>, path: Seq<Seq<char>>) -> bool {
    exists|i: int| 0 <= i < copies.len() && place_of(#[trigger] copies[i]).is_prefix_of(path)
}

proof fn lemma_covers_append(a: Seq<CopyView>, b: Seq<CopyView>, path: Seq<Seq<char>>)
    ensures
        covers(a, path) ==> covers(a + b, path),
        covers(b, path) ==> covers(a + b, path),
{
    if covers(a, path) {
        let i = choose|i: int| 0 <= i < a.len() && place_of(#[trigger] a[i]).is_prefix_of(path);
        assert((a + b)[i] == a[i]);
    }
    if covers(b, path) {
        let i = choose|i: int| 0 <= i < b.len() && place_of(#[trigger] b[i]).is_prefix_of(path);
        assert((a + b)[a.len() + i] == b[i]);
    }
}

/// Whether nothing of the target stands in the way of a setting: it has nothing at the end of the
/// path, and nothing but tables above it.
pub open spec fn leaves_room(target: TomlView, path: Seq<Seq<char>>) -> bool {
    &&& toml_model::at(target, path) is None
    &&& forall|n: int|
        0 <= n < path.len() ==> (toml_model::at(target, #[trigger] path.take(n)) matches Some(v)
            ==> v.is_table_like())
}

/// A missing setting below a table that both have is covered.
proof fn lemma_missing_entries_cover(
    target: TomlView,
    prefix: Seq<Seq<char>>,
    table: TomlView,
    entries: Seq<(Seq<char>, TomlView)>,
    path: Seq<Seq<char>>,
)
    requires
        toml_model::at(target, prefix) == Some(table),
        table.is_table_like(),
        prefix.is_prefix_of(path),
        prefix.len() < path.len(),
        leaves_room(target, path),
        toml_doc::find(entries, path[prefix.len() as int]) matches Some(item) && toml_model::at(
            item,
            path.skip(prefix.len() as int + 1),
        ) is Some,
    ensures
        covers(config_merge::missing_entries(prefix, table, entries), path),
    decreases entries,
{
    let key = path[prefix.len() as int];
    let front = config_merge::missing_entries(prefix, table, entries.drop_last());
    let last = config_merge::missing_entry(prefix, table, entries.last().0, entries.last().1);
    lemma_covers_append(front, last, path);
    if toml_doc::find(entries.drop_last(), key) is Some {
        lemma_missing_entries_cover(target, prefix, table, entries.drop_last(), path);
    } else {
        lemma_missing_entry_covers(target, prefix, table, key, entries.last().1, path);
    }
}

proof fn lemma_missing_entry_covers(
    target: TomlView,
    prefix: Seq<Seq<char>>,
    table: TomlView,
    key: Seq<char>,
    item: TomlView,
    path: Seq<Seq<char>>,
)
    requires
        toml_model::at(target, prefix) == Some(table),
        table.is_table_like(),
        prefix.is_prefix_of(path),
        prefix.len() < path.len(),
        key == path[prefix.len() as int],
        leaves_room(target, path),
        toml_model::at(item, path.skip(prefix.len() as int + 1)) is Some,
    ensures
        covers(config_merge::missing_entry(prefix, table, key, item), path),
    decreases item,
{
    let next = prefix.push(key);
    lemma_at_push(target, prefix, key);
    assert(next =~= path.take(prefix.len() as int + 1)) by {
        assert(path.subrange(0, prefix.len() as int) =~= path.take(prefix.len() as int));
    }
    assert(path.subrange(0, next.len() as int) =~= next);
    match table.get(key) {
        None => {
            let copies = config_merge::missing_entry(prefix, table, key, item);
            assert(copies[0] == CopyView::Insert { path: prefix, key });
            assert(place_of(copies[0]).is_prefix_of(path));
        },
        Some(inner) => {
            if next.len() == path.len() {
                assert(next =~= path);
            }
            let rest = path.skip(prefix.len() as int + 1);
            assert(rest.len() > 0);
            lemma_at_step(item, rest);
            assert(rest[0] == path[next.len() as int]);
            assert(rest.drop_first() =~= path.skip(next.len() as int + 1));
            match item {
                TomlView::Table(entries) => lemma_missing_entries_cover(
                    target,
                    next,
                    inner,
                    entries,
                    path,
                ),
                TomlView::Inline(entries) => lemma_missing_entries_cover(
                    target,
                    next,
                    inner,
                    entries,
                    path,
                ),
                _ => {},
            }
        },
    }
}

/// A missing setting of the application is covered.
proof fn lemma_carried_entries_cover(
    target: TomlView,
    entries: Seq<(Seq<char>, TomlView)>,
    path: Seq<Seq<char>>,
)
    requires
        target.is_table_like(),
        path.len() > 0,
        leaves_room(target, path),
        toml_doc::find(entries, path[0]) matches Some(item) && !config_merge::stays_behind(
            path[0],
            item,
        ) && toml_model::at(item, path.skip(1)) is Some,
    ensures
        covers(config_merge::carried_entries(target, entries), path),
    decreases entries.len(),
{
    let key = path[0];
    let root = toml_doc::root();
    let front = config_merge::carried_entries(target, entries.drop_last());
    let last = config_merge::carried_entry(target, entries.last().0, entries.last().1);
    lemma_covers_append(front, last, path);
    if toml_doc::find(entries.drop_last(), key) is Some {
        lemma_carried_entries_cover(target, entries.drop_last(), path);
    } else {
        let item = entries.last().1;
        assert(toml_model::at(target, root) == Some(target));
        assert(path.subrange(0, 0) =~= root);
        if target.get(key) is None {
            assert(last[0] == CopyView::Assign { key });
            assert(path.subrange(0, 1) =~= seq![key]);
            assert(place_of(last[0]).is_prefix_of(path));
        } else {
            lemma_missing_entry_covers(target, root, target, key, item, path);
        }
    }
}

/// The merge fills only places that the new config leaves open: what the new config sets stays.
pub proof fn law_merge_keeps_the_new_config(
    target: TomlView,
    existing: TomlView,
    source: Seq<char>,
    read: TomlView,
    path: Seq<Seq<char>>,
)
    requires
        target is Table,
        toml_doc::toml_tree(source) == Some(existing),
        toml_model::same_settings(
            read,
            toml_model::applied_all(
                target,
                toml_doc::copies_from(config_merge::carried(target, existing), source),
            ),
        ),
        toml_model::setting(target, path) is Some,
    ensures
        fills_open_places(target, config_merge::carried(target, existing)),
        toml_model::setting(read, path) == toml_model::setting(target, path),
{
    let copies = config_merge::carried(target, existing);
    match existing.entries() {
        Some(entries) => lemma_carried_entries_open(target, entries),
        None => {},
    }
    lemma_copies_applied(target, source, copies, path);
    let model = toml_model::applied_all(target, toml_doc::copies_from(copies, source));
    assert(toml_model::at(target, path) is Some);
    assert(toml_model::setting(read, path) == toml_model::setting(model, path));
}

/// The merge carries every setting over that the new config leaves room for and that does not stay
/// behind, however deep it stands.
pub proof fn law_merge_carries_the_application_settings(
    target: TomlView,
    existing: TomlView,
    source: Seq<char>,
    read: TomlView,
    path: Seq<Seq<char>>,
)
    requires
        target is Table,
        toml_doc::toml_tree(source) == Some(existing),
        toml_model::same_settings(
            read,
            toml_model::applied_all(
                target,
                toml_doc::copies_from(config_merge::carried(target, existing), source),
            ),
        ),
        path.len() > 0,
        toml_model::setting(existing, path) is Some,
        leaves_room(target, path),
        existing.get(path[0]) matches Some(item) && !config_merge::stays_behind(path[0], item),
    ensures
        toml_model::setting(read, path) == toml_model::setting(existing, path),
{
    let copies = config_merge::carried(target, existing);
    let entries = existing.entries()->Some_0;
    lemma_carried_entries_open(target, entries);
    lemma_at_step(existing, path);
    assert(path.drop_first() =~= path.skip(1));
    lemma_carried_entries_cover(target, entries, path);
    lemma_copies_applied(target, source, copies, path);
    let model = toml_model::applied_all(target, toml_doc::copies_from(copies, source));
    assert(toml_model::setting(read, path) == toml_model::setting(model, path));
}

/// Whether a copy is of an entry that belongs to the application: its top-level key is not one
/// that stays behind.
pub open spec fn is_application_copy(
    copy: CopyView,
    entries: Seq<(Seq<char>, TomlView)>,
) -> bool {
    exists|i: int|
        0 <= i < entries.len() && (#[trigger] entries[i]).0 == place_of(copy)[0]
            && !config_merge::stays_behind(entries[i].0, entries[i].1)
}

/// Whether all copies are of entries that belong to the application.
pub open spec fn are_application_copies(
    copies: Seq<CopyView>,
    entries: Seq<(Seq<char>, TomlView)>,
) -> bool {
    forall|i: int| 0 <= i < copies.len() ==> is_application_copy(#[trigger] copies[i], entries)
}

/// Whether the places that copies fill all start with one key.
spec fn places_start_with(copies: Seq<CopyView>, key: Seq<char>) -> bool {
    forall|i: int| 0 <= i < copies.len() ==> place_of(#[trigger] copies[i])[0] == key
}

/// The merge never takes a provider's routing, credentials or catalog out of the old config, nor
/// the web search value that was written for a provider.
pub proof fn law_merge_never_carries_what_stays_behind(target: TomlView, existing: TomlView)
    requires
        target is Table,
    ensures
        existing.entries() matches Some(entries) ==> are_application_copies(
            config_merge::carried(target, existing),
            entries,
        ),
{
    match existing.entries() {
        Some(entries) => lemma_carried_entries_owned(target, entries, entries),
        None => {},
    }
}

proof fn lemma_carried_entries_owned(
    target: TomlView,
    entries: Seq<(Seq<char>, TomlView)>,
    all: Seq<(Seq<char>, TomlView)>,
)
    requires
        entries.is_prefix_of(all),
    ensures
        are_application_copies(config_merge::carried_entries(target, entries), all),
    decreases entries.len(),
{
    if entries.len() > 0 {
        let front = entries.drop_last();
        assert(all.subrange(0, entries.len() as int) =~= entries);
        assert(front =~= all.subrange(0, front.len() as int));
        lemma_carried_entries_owned(target, front, all);
        let (key, item) = entries.last();
        assert(all[entries.len() - 1] == entries.last());
        let last = config_merge::carried_entry(target, key, item);
        lemma_missing_entry_top(toml_doc::root(), target, key, item);
        assert forall|i: int| 0 <= i < last.len() implies is_application_copy(
            #[trigger] last[i],
            all,
        ) by {
            assert(place_of(last[i])[0] == key);
            assert(all[entries.len() - 1].0 == key);
        }
    }
}

/// Copies below an entry of the root have its key first in their places.
proof fn lemma_missing_entry_top(
    path: Seq<Seq<char>>,
    table: TomlView,
    key: Seq<char>,
    item: TomlView,
)
    ensures
        places_start_with(
            config_merge::missing_entry(path, table, key, item),
            path.push(key)[0],
        ),
    decreases item,
{
    match table.get(key) {
        None => {},
        Some(inner) => if inner.is_table_like() {
            match item {
                TomlView::Table(entries) => lemma_missing_entries_top(
                    path.push(key),
                    inner,
                    entries,
                ),
                TomlView::Inline(entries) => lemma_missing_entries_top(
                    path.push(key),
                    inner,
                    entries,
                ),
                _ => {},
            }
        },
    }
}

proof fn lemma_missing_entries_top(
    path: Seq<Seq<char>>,
    table: TomlView,
    entries: Seq<(Seq<char>, TomlView)>,
)
    requires
        path.len() > 0,
    ensures
        places_start_with(config_merge::missing_entries(path, table, entries), path[0]),
    decreases entries,
{
    if entries.len() > 0 {
        lemma_missing_entries_top(path, table, entries.drop_last());
        lemma_missing_entry_top(path, table, entries.last().0, entries.last().1);
        assert(path.push(entries.last().0)[0] == path[0]);
    }
}

/// The copies of registrations fill open places.
proof fn lemma_registrations_open(
    target: TomlView,
    key: Seq<char>,
    table: TomlView,
    entries: Seq<(Seq<char>, TomlView)>,
)
    requires
        target.get(key) == Some(table),
        table.is_table_like(),
    ensures
        fills_open_places(target, config_merge::registrations(table, key, entries)),
    decreases entries.len(),
{
    if entries.len() > 0 {
        lemma_registrations_open(target, key, table, entries.drop_last());
        let id = entries.last().0;
        toml_model::lemma_at1(target, key);
        lemma_at_push(target, seq![key], id);
        assert(seq![key].push(id).drop_last() =~= seq![key]);
    }
}

/// A registration that the new config is missing is covered.
proof fn lemma_registrations_cover(
    key: Seq<char>,
    table: TomlView,
    entries: Seq<(Seq<char>, TomlView)>,
    path: Seq<Seq<char>>,
)
    requires
        path.len() > 1,
        path[0] == key,
        table.get(path[1]) is None,
        toml_doc::find(entries, path[1]) is Some,
    ensures
        covers(config_merge::registrations(table, key, entries), path),
    decreases entries.len(),
{
    let copies = config_merge::registrations(table, key, entries);
    let front = config_merge::registrations(table, key, entries.drop_last());
    if toml_doc::find(entries.drop_last(), path[1]) is Some {
        lemma_registrations_cover(key, table, entries.drop_last(), path);
        let i = choose|i: int|
            0 <= i < front.len() && place_of(#[trigger] front[i]).is_prefix_of(path);
        assert(copies[i] == front[i]);
    } else {
        let place = seq![key].push(path[1]);
        assert(path.subrange(0, 2) =~= place);
        assert(copies[front.len() as int] == CopyView::Insert { path: seq![key], key: path[1] });
        assert(place_of(copies[front.len() as int]).is_prefix_of(path));
    }
}

proof fn lemma_registration_copies_open(target: TomlView, existing: TomlView, key: Seq<char>)
    requires
        target.is_table_like(),
    ensures
        fills_open_places(target, config_merge::registration_copies(target, existing, key)),
{
    toml_model::lemma_at1(target, key);
    assert(seq![key].drop_last() =~= Seq::<Seq<char>>::empty());
    assert(toml_model::at(target, Seq::empty()) == Some(target));
    match existing.get(key) {
        Some(item) => match (item.entries(), target.get(key)) {
            (Some(entries), Some(table)) => if table.is_table_like() {
                lemma_registrations_open(target, key, table, entries);
            },
            _ => {},
        },
        None => {},
    }
}

proof fn lemma_registration_copies_cover(
    target: TomlView,
    existing: TomlView,
    key: Seq<char>,
    path: Seq<Seq<char>>,
)
    requires
        path.len() > 1,
        path[0] == key,
        toml_model::setting(existing, path) is Some,
        match target.get(key) {
            Some(table) => table.is_table_like() && table.get(path[1]) is None,
            None => true,
        },
    ensures
        covers(config_merge::registration_copies(target, existing, key), path),
{
    let copies = config_merge::registration_copies(target, existing, key);
    lemma_at_step(existing, path);
    let item = existing.get(key)->Some_0;
    lemma_at_step(item, path.drop_first());
    let entries = item.entries()->Some_0;
    match target.get(key) {
        Some(table) => lemma_registrations_cover(key, table, entries, path),
        None => {
            assert(path.subrange(0, 1) =~= seq![key]);
            assert(copies[0] == CopyView::Assign { key });
            assert(place_of(copies[0]).is_prefix_of(path));
        },
    }
}

/// Plugins and marketplaces stay registered: a registration of the old config that the new one
/// does not declare is in the merged one, with all its settings, and what the new config sets
/// stays.
pub proof fn law_plugins_stay_registered(
    target: TomlView,
    existing: TomlView,
    source: Seq<char>,
    read: TomlView,
    path: Seq<Seq<char>>,
)
    requires
        target is Table,
        toml_doc::toml_tree(source) == Some(existing),
        toml_model::same_settings(
            read,
            toml_model::applied_all(
                target,
                toml_doc::copies_from(config_merge::plugin_copies(target, existing), source),
            ),
        ),
    ensures
        toml_model::setting(target, path) is Some ==> toml_model::setting(read, path)
            == toml_model::setting(target, path),
        path.len() > 1 && (path[0] == "plugins"@ || path[0] == "marketplaces"@)
            && toml_model::setting(existing, path) is Some && (match target.get(path[0]) {
            Some(table) => table.is_table_like() && table.get(path[1]) is None,
            None => true,
        }) ==> toml_model::setting(read, path) == toml_model::setting(existing, path),
{
    let copies = config_merge::plugin_copies(target, existing);
    let first = config_merge::registration_copies(target, existing, "plugins"@);
    let second = config_merge::registration_copies(target, existing, "marketplaces"@);
    lemma_registration_copies_open(target, existing, "plugins"@);
    lemma_registration_copies_open(target, existing, "marketplaces"@);
    lemma_copies_applied(target, source, copies, path);
    let model = toml_model::applied_all(target, toml_doc::copies_from(copies, source));
    assert(toml_model::setting(read, path) == toml_model::setting(model, path));
    if toml_model::setting(target, path) is Some {
        assert(toml_model::at(target, path) is Some);
    }
    if path.len() > 1 && (path[0] == "plugins"@ || path[0] == "marketplaces"@)
        && toml_model::setting(existing, path) is Some && (match target.get(path[0]) {
        Some(table) => table.is_table_like() && table.get(path[1]) is None,
        None => true,
    }) {
        lemma_registration_copies_cover(target, existing, path[0], path);
        lemma_covers_append(first, second, path);
    }
}

/// Replacing legacy values leaves everything but the web search value.
proof fn lemma_normalized_elsewhere(tree: TomlView, read: TomlView)
    requires
        tree is Table,
        toml_model::same_settings(
            read,
            toml_model::applied_all(tree, config_merge::normalize_edits(tree)),
        ),
    ensures
        toml_model::differs_only_at(read, tree, seq![CODEX_WEB_SEARCH_FIELD@]),
{
    let key = CODEX_WEB_SEARCH_FIELD@;
    let edits = config_merge::normalize_edits(tree);
    if edits.len() == 0 {
        assert(edits =~= Seq::<EditView>::empty());
    } else {
        let value = config_merge::CODEX_WEB_SEARCH_LIVE@;
        let change = |t: TomlView| toml_model::with_entry(t, key, TomlView::Str(value));
        assert(edits.drop_last() =~= Seq::<EditView>::empty());
        assert(edits.last() == EditView::AssignStr { path: toml_doc::root(), key, value });
        assert(toml_model::applied_all(tree, edits.drop_last()) == tree);
        assert(toml_model::applied_all(tree, edits) == toml_model::edit_at(
            tree,
            toml_doc::root(),
            change,
        ));
        assert(toml_model::touches_only(change, key)) by {
            assert forall|t: TomlView| t.is_table_like() implies (#[trigger] change(
                t,
            )).is_table_like() && forall|k: Seq<char>|
                k != key ==> #[trigger] change(t).get(k) == t.get(k) by {
                assert forall|k: Seq<char>| k != key implies #[trigger] change(t).get(k) == t.get(
                    k,
                ) by {
                    toml_model::lemma_get_with(t, key, TomlView::Str(value), k);
                }
            }
        }
        toml_model::lemma_edit_differs_only_there(read, tree, toml_doc::root(), key, change);
        assert(toml_doc::root().push(key) =~= seq![key]);
    }
}

/// What stands below another key is elsewhere.
proof fn lemma_elsewhere(key: Seq<char>, path: Seq<Seq<char>>)
    requires
        path.len() > 0,
        path[0] != key,
    ensures
        !seq![key].is_prefix_of(path),
{
    if seq![key].is_prefix_of(path) {
        assert(seq![key][0] == path.subrange(0, 1)[0]);
    }
}

/// Copies that all go to other places leave an entry of the root.
proof fn lemma_copies_elsewhere(
    target: TomlView,
    source: Seq<char>,
    copies: Seq<CopyView>,
    key: Seq<char>,
)
    requires
        target.is_table_like(),
        forall|i: int| 0 <= i < copies.len() ==> place_of(#[trigger] copies[i])[0] != key,
    ensures
        toml_model::applied_all(target, toml_doc::copies_from(copies, source)).is_table_like(),
        toml_model::applied_all(target, toml_doc::copies_from(copies, source)).get(key)
            == target.get(key),
    decreases copies.len(),
{
    broadcast use toml_model::lemma_get_with;

    let edits = toml_doc::copies_from(copies, source);
    if copies.len() > 0 {
        let front = copies.drop_last();
        assert forall|i: int| 0 <= i < front.len() implies place_of(#[trigger] front[i])[0]
            != key by {
            assert(copies[i] == front[i]);
        }
        lemma_copies_elsewhere(target, source, front, key);
        assert(edits.drop_last() =~= toml_doc::copies_from(front, source));
        assert(edits.last() == copies.last().from_source(source));
        let before = toml_model::applied_all(target, edits.drop_last());
        assert(place_of(copies[copies.len() - 1])[0] != key);
        match copies.last() {
            CopyView::Assign { key: other } => {},
            CopyView::Insert { path, key: other } => {
                if path.len() > 0 {
                    assert(path.push(other)[0] == path[0]);
                    assert(path.first() == path[0]);
                }
            },
        }
    } else {
        assert(edits =~= Seq::<EditView>::empty());
    }
}

/// Whether an old config has anything to carry over.
pub open spec fn carries_over(existing: Seq<char>) -> bool {
    &&& !text::is_blank(existing)
    &&& !text::is_blank(config_merge::normalized_or_same(existing))
    &&& toml_doc::toml_tree(config_merge::normalized_or_same(existing)) is Some
}

/// Whether a path leads into a registration of a plugin or of a marketplace that a config does not
/// declare.
pub open spec fn is_undeclared(target: TomlView, path: Seq<Seq<char>>) -> bool {
    &&& path.len() > 1
    &&& path[0] == "plugins"@ || path[0] == "marketplaces"@
    &&& match target.get(path[0]) {
        Some(table) => table.is_table_like() && table.get(path[1]) is None,
        None => true,
    }
}

/// Whether a path leads to a setting of the application that a config leaves room for: to any that is
/// not under one of the names that belong to a provider, to its servers, or to the registrations.
pub open spec fn is_left_open(target: TomlView, path: Seq<Seq<char>>) -> bool {
    &&& leaves_room(target, path)
    &&& path[0] != "model"@
    &&& path[0] != "model_provider"@
    &&& path[0] != "model_providers"@
    &&& path[0] != "base_url"@
    &&& path[0] != "wire_api"@
    &&& path[0] != "experimental_bearer_token"@
    &&& path[0] != "model_catalog_json"@
    &&& path[0] != "web_search"@
    &&& path[0] != "mcp_servers"@
    &&& path[0] != "plugins"@
    &&& path[0] != "marketplaces"@
}

/// Whether a config that was written keeps what it should, where it is TOML: of the new config every
/// setting, and of the old one the registered plugins and marketplaces and the application's
/// settings, as far as the new one leaves room for them. The web search value, which has rules of
/// its own, is not spoken of.
pub open spec fn keeps_both(existing: Seq<char>, new: Seq<char>, out: Seq<char>) -> bool {
    match (toml_doc::toml_tree(new), toml_doc::toml_tree(out)) {
        (Some(target), Some(read)) => forall|path: Seq<Seq<char>>|
            path.len() > 0 && path[0] != CODEX_WEB_SEARCH_FIELD@ ==> {
                &&& toml_model::setting(target, path) is Some ==> #[trigger] toml_model::setting(
                    read,
                    path,
                ) == toml_model::setting(target, path)
                &&& carries_over(existing) ==> (toml_doc::toml_tree(existing) matches Some(old_tree)
                    ==> toml_model::setting(old_tree, path) is Some && (is_undeclared(target, path)
                    || is_left_open(target, path)) ==> toml_model::setting(read, path)
                    == toml_model::setting(old_tree, path))
            },
        _ => true,
    }
}

/// Every text that is written for a new config keeps what it should of the new config and of the old
/// one. What is known of it is what merging promises.
pub proof fn law_a_written_config_keeps_both(existing: Seq<char>, new: Seq<char>, out: Seq<char>)
    requires
        live_config::merged(existing, new) == Ok::<Seq<char>, ErrorView>(out),
        config_merge::normalize_holds(existing),
        config_merge::normalize_holds(new),
        config_merge::app_level_holds(existing, new),
        config_merge::with_app_level(existing, new) matches Ok(middle)
            ==> config_merge::plugins_hold(existing, middle),
    ensures
        keeps_both(existing, new, out),
{
    if toml_doc::toml_tree(new) is Some && toml_doc::toml_tree(out) is Some {
        let target = toml_doc::toml_tree(new)->Some_0;
        let read = toml_doc::toml_tree(out)->Some_0;
        assert forall|path: Seq<Seq<char>>|
            path.len() > 0 && path[0] != CODEX_WEB_SEARCH_FIELD@ implies {
            &&& toml_model::setting(target, path) is Some ==> #[trigger] toml_model::setting(
                read,
                path,
            ) == toml_model::setting(target, path)
            &&& carries_over(existing) ==> (toml_doc::toml_tree(existing) matches Some(old_tree)
                ==> toml_model::setting(old_tree, path) is Some && (is_undeclared(target, path)
                || is_left_open(target, path)) ==> toml_model::setting(read, path)
                == toml_model::setting(old_tree, path))
        } by {
            lemma_kept_at(existing, new, out, path);
        }
    }
}

/// One path of a config that was written.
proof fn lemma_kept_at(
    existing: Seq<char>,
    new: Seq<char>,
    out: Seq<char>,
    path: Seq<Seq<char>>,
)
    requires
        live_config::merged(existing, new) == Ok::<Seq<char>, ErrorView>(out),
        config_merge::normalize_holds(existing),
        config_merge::normalize_holds(new),
        config_merge::app_level_holds(existing, new),
        config_merge::with_app_level(existing, new) matches Ok(middle)
            ==> config_merge::plugins_hold(existing, middle),
        toml_doc::toml_tree(new) is Some,
        toml_doc::toml_tree(out) is Some,
        path.len() > 0,
        path[0] != CODEX_WEB_SEARCH_FIELD@,
    ensures
        ({
            let target = toml_doc::toml_tree(new)->Some_0;
            let read = toml_doc::toml_tree(out)->Some_0;
            &&& toml_model::setting(target, path) is Some ==> toml_model::setting(read, path)
                == toml_model::setting(target, path)
            &&& carries_over(existing) ==> (toml_doc::toml_tree(existing) matches Some(old_tree)
                ==> toml_model::setting(old_tree, path) is Some && (is_undeclared(target, path)
                || is_left_open(target, path)) ==> toml_model::setting(read, path)
                == toml_model::setting(old_tree, path))
        }),
{
    let key = CODEX_WEB_SEARCH_FIELD@;
    let target = toml_doc::toml_tree(new)->Some_0;
    let read = toml_doc::toml_tree(out)->Some_0;
    let cleaned = config_merge::normalized(new)->Ok_0;
    let old_text = config_merge::normalized_or_same(existing);
    let middle = config_merge::with_app_level(existing, new)->Ok_0;
    lemma_elsewhere(key, path);
    assert(toml_doc::toml_tree(cleaned) is Some && toml_doc::toml_tree(middle) is Some);
    let n1 = toml_doc::toml_tree(cleaned)->Some_0;
    let a = toml_doc::toml_tree(middle)->Some_0;
    lemma_normalized_elsewhere(target, n1);
    assert(toml_model::setting(n1, path) == toml_model::setting(target, path));
    let merges = !text::is_blank(old_text) && toml_doc::toml_tree(old_text) is Some;
    let e1 = toml_doc::toml_tree(old_text)->Some_0;
    let copies = config_merge::carried(n1, e1);
    if merges {
        assert(toml_doc::holds(cleaned, toml_doc::copies_from(copies, old_text)));
        if toml_model::setting(target, path) is Some {
            law_merge_keeps_the_new_config(n1, e1, old_text, a, path);
        }
    } else {
        assert(middle == cleaned);
    }
    assert(toml_model::setting(target, path) is Some ==> toml_model::setting(a, path)
        == toml_model::setting(target, path));
    let registers = !text::is_blank(existing) && (toml_doc::toml_tree(existing) matches Some(
        old_tree,
    ) && !(old_tree.get("plugins"@) is None && old_tree.get("marketplaces"@) is None));
    if registers {
        let old_tree = toml_doc::toml_tree(existing)->Some_0;
        assert(toml_doc::holds(
            middle,
            toml_doc::copies_from(config_merge::plugin_copies(a, old_tree), existing),
        ));
        law_plugins_stay_registered(a, old_tree, existing, read, path);
    } else {
        assert(out == middle);
    }
    if carries_over(existing) && toml_doc::toml_tree(existing) is Some {
        let old_tree = toml_doc::toml_tree(existing)->Some_0;
        if toml_model::setting(old_tree, path) is Some {
            lemma_normalized_elsewhere(old_tree, e1);
            assert(toml_model::setting(e1, path) == toml_model::setting(old_tree, path));
            if is_left_open(target, path) {
                lemma_room_stays(target, n1, path);
                lemma_at_step(e1, path);
                law_merge_carries_the_application_settings(n1, e1, old_text, a, path);
            } else if is_undeclared(target, path) {
                lemma_at_step(old_tree, path);
                lemma_undeclared_when_normalized(target, n1, path);
                lemma_undeclared_stays(n1, e1, old_text, a, path);
            }
        }
    }
}

/// Room that a config leaves is left after its legacy values were replaced.
proof fn lemma_room_stays(target: TomlView, n1: TomlView, path: Seq<Seq<char>>)
    requires
        n1 is Table,
        toml_model::differs_only_at(n1, target, seq![CODEX_WEB_SEARCH_FIELD@]),
        leaves_room(target, path),
        path.len() > 0,
        path[0] != CODEX_WEB_SEARCH_FIELD@,
    ensures
        leaves_room(n1, path),
{
    let key = CODEX_WEB_SEARCH_FIELD@;
    lemma_elsewhere(key, path);
    assert(toml_model::at(n1, path) is None);
    assert forall|n: int| 0 <= n < path.len() implies (toml_model::at(
        n1,
        #[trigger] path.take(n),
    ) matches Some(v) ==> v.is_table_like()) by {
        let part = path.take(n);
        if n == 0 {
            assert(part =~= Seq::<Seq<char>>::empty());
        } else {
            lemma_elsewhere(key, part);
            assert(toml_model::setting(n1, part) == toml_model::setting(target, part));
            match toml_model::at(n1, part) {
                Some(v) => {
                    assert(toml_model::at(target, part) is Some);
                },
                None => {},
            }
        }
    }
}

/// A registration that a config does not declare is not declared after its legacy values were
/// replaced either.
proof fn lemma_undeclared_when_normalized(target: TomlView, n1: TomlView, path: Seq<Seq<char>>)
    requires
        toml_model::differs_only_at(n1, target, seq![CODEX_WEB_SEARCH_FIELD@]),
        is_undeclared(target, path),
        path[0] != CODEX_WEB_SEARCH_FIELD@,
    ensures
        is_undeclared(n1, path),
{
    let top = seq![path[0]];
    let place = seq![path[0], path[1]];
    lemma_elsewhere(CODEX_WEB_SEARCH_FIELD@, top);
    lemma_elsewhere(CODEX_WEB_SEARCH_FIELD@, place);
    toml_model::lemma_at1(n1, path[0]);
    toml_model::lemma_at1(target, path[0]);
    toml_model::lemma_at2(n1, path[0], path[1]);
    toml_model::lemma_at2(target, path[0], path[1]);
    assert(toml_model::setting(n1, top) == toml_model::setting(target, top));
    assert(toml_model::at(n1, top) is Some ==> toml_model::at(target, top) is Some);
    assert(toml_model::at(n1, place) is Some ==> toml_model::at(target, place) is Some);
}

/// A registration that a config does not declare is not declared after the merge either.
proof fn lemma_undeclared_stays(
    n1: TomlView,
    e1: TomlView,
    old_text: Seq<char>,
    a: TomlView,
    path: Seq<Seq<char>>,
)
    requires
        n1 is Table,
        toml_doc::toml_tree(old_text) == Some(e1),
        toml_model::same_settings(
            a,
            toml_model::applied_all(
                n1,
                toml_doc::copies_from(config_merge::carried(n1, e1), old_text),
            ),
        ),
        is_undeclared(n1, path),
        path[0] != CODEX_WEB_SEARCH_FIELD@,
    ensures
        is_undeclared(a, path),
{
    let top = seq![path[0]];
    let place = seq![path[0], path[1]];
    let copies = config_merge::carried(n1, e1);
    let model = toml_model::applied_all(n1, toml_doc::copies_from(copies, old_text));
    law_merge_never_carries_what_stays_behind(n1, e1);
    assert forall|i: int| 0 <= i < copies.len() implies place_of(#[trigger] copies[i])[0]
        != path[0] by {
        match e1.entries() {
            Some(entries) => {
                assert(is_application_copy(copies[i], entries));
                let k = choose|k: int|
                    0 <= k < entries.len() && (#[trigger] entries[k]).0 == place_of(copies[i])[0]
                        && !config_merge::stays_behind(entries[k].0, entries[k].1);
                assert(!config_merge::stays_behind(entries[k].0, entries[k].1));
                assert(config_merge::is_owned_key(path[0]));
            },
            None => {},
        }
    }
    lemma_copies_elsewhere(n1, old_text, copies, path[0]);
    toml_model::lemma_at1(a, path[0]);
    toml_model::lemma_at1(model, path[0]);
    toml_model::lemma_at1(n1, path[0]);
    toml_model::lemma_at2(a, path[0], path[1]);
    toml_model::lemma_at2(model, path[0], path[1]);
    toml_model::lemma_at2(n1, path[0], path[1]);
    assert(toml_model::setting(a, top) == toml_model::setting(model, top));
    assert(toml_model::at(a, top) is Some ==> toml_model::at(model, top) is Some);
    assert(toml_model::at(a, place) is Some ==> toml_model::at(model, place) is Some);
}

/// What is kept of a config whose legacy values were replaced is kept of the config itself.
pub proof fn lemma_kept_through_normalizing(
    existing: Seq<char>,
    config: Seq<char>,
    cleaned: Seq<char>,
    out: Seq<char>,
)
    requires
        config_merge::normalized(config) == Ok::<Seq<char>, ErrorView>(cleaned),
        config_merge::normalized(cleaned) is Ok,
        config_merge::normalize_holds(config),
        config_merge::normalize_holds(cleaned),
        keeps_both(existing, cleaned, out),
    ensures
        keeps_both(existing, config, out),
{
    if toml_doc::toml_tree(out) is Some {
        let target = toml_doc::toml_tree(config)->Some_0;
        let n1 = toml_doc::toml_tree(cleaned)->Some_0;
        let read = toml_doc::toml_tree(out)->Some_0;
        lemma_normalized_elsewhere(target, n1);
        assert forall|path: Seq<Seq<char>>|
            path.len() > 0 && path[0] != CODEX_WEB_SEARCH_FIELD@ implies {
            &&& toml_model::setting(target, path) is Some ==> #[trigger] toml_model::setting(
                read,
                path,
            ) == toml_model::setting(target, path)
            &&& carries_over(existing) ==> (toml_doc::toml_tree(existing) matches Some(old_tree)
                ==> toml_model::setting(old_tree, path) is Some && (is_undeclared(target, path)
                || is_left_open(target, path)) ==> toml_model::setting(read, path)
                == toml_model::setting(old_tree, path))
        } by {
            lemma_elsewhere(CODEX_WEB_SEARCH_FIELD@, path);
            assert(toml_model::setting(n1, path) == toml_model::setting(target, path));
            if is_undeclared(target, path) {
                lemma_undeclared_when_normalized(target, n1, path);
            }
            if is_left_open(target, path) {
                lemma_room_stays(target, n1, path);
            }
        }
    }
}

/// Copies bring nothing but what the source has.
proof fn lemma_copies_invent_nothing(
    target: TomlView,
    source: Seq<char>,
    copies: Seq<CopyView>,
    path: Seq<Seq<char>>,
)
    requires
        target.is_table_like(),
        toml_doc::toml_tree(source) is Some,
        fills_open_places(target, copies),
    ensures
        ({
            let r = toml_model::applied_all(target, toml_doc::copies_from(copies, source));
            let other = toml_doc::toml_tree(source)->Some_0;
            toml_model::setting(r, path) is Some ==> toml_model::setting(r, path)
                == toml_model::setting(target, path) || toml_model::setting(r, path)
                == toml_model::setting(other, path)
        }),
    decreases copies.len(),
{
    let other = toml_doc::toml_tree(source)->Some_0;
    let edits = toml_doc::copies_from(copies, source);
    if copies.len() == 0 {
        assert(edits =~= Seq::<EditView>::empty());
    } else {
        let front = copies.drop_last();
        let copy = copies.last();
        let place = place_of(copy);
        assert(edits.drop_last() =~= toml_doc::copies_from(front, source));
        assert(edits.last() == copy.from_source(source));
        assert(fills_open_places(target, front)) by {
            assert forall|i: int| 0 <= i < front.len() implies is_open_place(
                target,
                place_of(#[trigger] front[i]),
            ) by {
                assert(copies[i] == front[i]);
            }
        }
        lemma_copies_invent_nothing(target, source, front, path);
        lemma_copies_applied(target, source, front, path);
        let before = toml_model::applied_all(target, toml_doc::copies_from(front, source));
        lemma_copy_places(before, source, copy);
        assert(is_open_place(target, place_of(copies[copies.len() - 1])));
        assert(toml_model::at(target, place.drop_last()) is Some);
        match toml_model::at(other, place) {
            Some(item) => {
                lemma_placed(before, place, item, path);
                if place.is_prefix_of(path) {
                    lemma_at_prefix(other, place, path);
                } else if path.is_prefix_of(place) && path.len() == place.len() {
                    assert(path =~= place);
                    assert(place.subrange(0, place.len() as int) =~= place);
                }
            },
            None => {},
        }
    }
}

/// No copy is of an entry that stays behind.
proof fn lemma_stays_behind(
    target: TomlView,
    existing: TomlView,
    source: Seq<char>,
    read: TomlView,
    path: Seq<Seq<char>>,
)
    requires
        target is Table,
        toml_doc::toml_tree(source) == Some(existing),
        toml_model::keys_distinct(existing),
        toml_model::same_settings(
            read,
            toml_model::applied_all(
                target,
                toml_doc::copies_from(config_merge::carried(target, existing), source),
            ),
        ),
        path.len() > 0,
        existing.get(path[0]) matches Some(item) ==> config_merge::stays_behind(path[0], item),
    ensures
        toml_model::setting(read, path) == toml_model::setting(target, path),
{
    let copies = config_merge::carried(target, existing);
    let model = toml_model::applied_all(target, toml_doc::copies_from(copies, source));
    law_merge_never_carries_what_stays_behind(target, existing);
    assert forall|i: int| 0 <= i < copies.len() implies place_of(#[trigger] copies[i])[0]
        != path[0] by {
        match existing.entries() {
            Some(entries) => {
                assert(is_application_copy(copies[i], entries));
                let k = choose|k: int|
                    0 <= k < entries.len() && (#[trigger] entries[k]).0 == place_of(copies[i])[0]
                        && !config_merge::stays_behind(entries[k].0, entries[k].1);
                assert(toml_model::at(existing, Seq::empty()) == Some(existing));
                assert(toml_model::distinct(entries));
                lemma_found_distinct(entries, k);
            },
            None => {},
        }
    }
    lemma_copies_elsewhere(target, source, copies, path[0]);
    lemma_at_step(model, path);
    lemma_at_step(target, path);
    assert(toml_model::setting(read, path) == toml_model::setting(model, path));
}

/// In a list without repeated keys an entry is the one that is found.
proof fn lemma_found_distinct(entries: Seq<(Seq<char>, TomlView)>, k: int)
    requires
        toml_model::distinct(entries),
        0 <= k < entries.len(),
    ensures
        toml_doc::find(entries, entries[k].0) == Some(entries[k].1),
    decreases entries.len(),
{
    let front = entries.drop_last();
    assert forall|a: int, b: int| 0 <= a < b < front.len() implies (#[trigger] front[a]).0 != (
    #[trigger] front[b]).0 by {
        assert(entries[a].0 != entries[b].0);
    }
    if k < entries.len() - 1 {
        lemma_found_distinct(front, k);
    } else {
        lemma_not_found(front, entries[k].0);
    }
}

/// A key that no entry has is not found.
proof fn lemma_not_found(entries: Seq<(Seq<char>, TomlView)>, key: Seq<char>)
    requires
        forall|i: int| 0 <= i < entries.len() ==> (#[trigger] entries[i]).0 != key,
    ensures
        toml_doc::find(entries, key) is None,
    decreases entries.len(),
{
    if entries.len() > 0 {
        lemma_not_found(entries.drop_last(), key);
    }
}

/// What the merge of two configs reads at a path. A setting of the new config is there. Where the new
/// config leaves room, a setting of the old one is there too, unless it is under a name that belongs
/// to a provider, to its servers, or to the registrations; a web search value is carried over unless
/// it turns the search off. Under those names nothing comes from the old config, and nothing is there
/// at all that neither of the two has.
pub proof fn law_what_is_carried_over(
    target: TomlView,
    existing: TomlView,
    source: Seq<char>,
    read: TomlView,
    path: Seq<Seq<char>>,
)
    requires
        target is Table,
        toml_doc::toml_tree(source) == Some(existing),
        toml_model::keys_distinct(existing),
        toml_model::same_settings(
            read,
            toml_model::applied_all(
                target,
                toml_doc::copies_from(config_merge::carried(target, existing), source),
            ),
        ),
        path.len() > 0,
    ensures
        toml_model::setting(target, path) is Some ==> toml_model::setting(read, path)
            == toml_model::setting(target, path),
        toml_model::setting(existing, path) is Some && leaves_room(target, path) && path[0]
            != "model"@ && path[0] != "model_provider"@ && path[0] != "model_providers"@ && path[0]
            != "base_url"@ && path[0] != "wire_api"@ && path[0] != "experimental_bearer_token"@
            && path[0] != "model_catalog_json"@ && path[0] != "web_search"@ && path[0]
            != "mcp_servers"@ && path[0] != "plugins"@ && path[0] != "marketplaces"@
            ==> toml_model::setting(read, path) == toml_model::setting(existing, path),
        path[0] == "web_search"@ && existing.get("web_search"@) != Some(
            TomlView::Str("disabled"@),
        ) && toml_model::setting(existing, path) is Some && leaves_room(target, path)
            ==> toml_model::setting(read, path) == toml_model::setting(existing, path),
        path[0] == "web_search"@ && existing.get("web_search"@) == Some(
            TomlView::Str("disabled"@),
        ) ==> toml_model::setting(read, path) == toml_model::setting(target, path),
        path[0] == "model"@ || path[0] == "model_provider"@ || path[0] == "model_providers"@
            || path[0] == "base_url"@ || path[0] == "wire_api"@ || path[0]
            == "experimental_bearer_token"@ || path[0] == "model_catalog_json"@ || path[0]
            == "mcp_servers"@ || path[0] == "plugins"@ || path[0] == "marketplaces"@
            ==> toml_model::setting(read, path) == toml_model::setting(target, path),
        toml_model::setting(read, path) is Some ==> toml_model::setting(read, path)
            == toml_model::setting(target, path) || toml_model::setting(read, path)
            == toml_model::setting(existing, path),
{
    lemma_owned_names();
    let copies = config_merge::carried(target, existing);
    let model = toml_model::applied_all(target, toml_doc::copies_from(copies, source));
    assert(toml_model::setting(read, path) == toml_model::setting(model, path));
    match existing.entries() {
        Some(entries) => lemma_carried_entries_open(target, entries),
        None => {},
    }
    lemma_copies_invent_nothing(target, source, copies, path);
    if toml_model::setting(target, path) is Some {
        law_merge_keeps_the_new_config(target, existing, source, read, path);
    }
    lemma_at_step(existing, path);
    match existing.get(path[0]) {
        Some(item) => {
            if config_merge::stays_behind(path[0], item) {
                lemma_stays_behind(target, existing, source, read, path);
            } else if toml_model::setting(existing, path) is Some && leaves_room(target, path) {
                law_merge_carries_the_application_settings(target, existing, source, read, path);
            }
        },
        None => {
            lemma_stays_behind(target, existing, source, read, path);
        },
    }
}

/// The web search value has a name of its own.
proof fn lemma_owned_names()
    ensures
        "web_search"@ != "model"@,
        "web_search"@ != "model_provider"@,
        "web_search"@ != "model_providers"@,
        "web_search"@ != "base_url"@,
        "web_search"@ != "wire_api"@,
        "web_search"@ != "experimental_bearer_token"@,
        "web_search"@ != "model_catalog_json"@,
        "web_search"@ != "mcp_servers"@,
        "web_search"@ != "plugins"@,
        "web_search"@ != "marketplaces"@,
{
    reveal_strlit("web_search");
    reveal_strlit("model");
    reveal_strlit("model_provider");
    reveal_strlit("model_providers");
    reveal_strlit("base_url");
    reveal_strlit("wire_api");
    reveal_strlit("experimental_bearer_token");
    reveal_strlit("model_catalog_json");
    reveal_strlit("mcp_servers");
    reveal_strlit("plugins");
    reveal_strlit("marketplaces");
    assert("web_search"@.len() == 10 && "web_search"@[1] == 'e');
    assert("model"@.len() == 5);
    assert("model_provider"@.len() == 14);
    assert("model_providers"@.len() == 15);
    assert("base_url"@.len() == 8);
    assert("wire_api"@.len() == 8);
    assert("experimental_bearer_token"@.len() == 25);
    assert("model_catalog_json"@.len() == 18);
    assert("mcp_servers"@.len() == 11);
    assert("plugins"@.len() == 7);
    assert("marketplaces"@.len() == 12);
}

} // verus!
