//! TOML documents: the tree that decisions are made on, and the edits that
//! keep the rest of a document as its author wrote it.
//!
//! A decision reads the tree of a text and says which edits to make. The edits
//! are then made one by one on a format-preserving document of `toml_edit`, and
//! the document is written out.

use crate::error::{AppError, ErrorView};
use crate::text;
use crate::text::{join2, str_eq};
use crate::toml_model;
use toml_edit::{Item, Value};
use vstd::prelude::*;

verus! {

/// How many equal quotes in a row can be counted when a string is written.
pub const MAX_QUOTES: usize = 255;

/// A TOML value, as far as decisions depend on it. Keys do not repeat in a table.
#[derive(Debug)]
pub enum Toml {
    Str(String),
    Bool(bool),
    Integer(i64),
    /// A table with a header or with dotted keys.
    Table(Vec<(String, Toml)>),
    /// A table in braces.
    Inline(Vec<(String, Toml)>),
    /// An array, or an array of tables.
    List(Vec<Toml>),
    /// A number that is not whole, or a date, as it is written.
    Written(String),
    /// A value of which no more is known than that it is no table, no string, no boolean and no whole
    /// number.
    Other,
}

/// What a [`Toml`] stands for.
#[verifier::ext_equal]
pub enum TomlView {
    Str(Seq<char>),
    Bool(bool),
    Integer(i64),
    Table(Seq<(Seq<char>, TomlView)>),
    Inline(Seq<(Seq<char>, TomlView)>),
    List(Seq<ListedView>),
    Written(Seq<char>),
    Other,
}

/// What an element of an array stands for. Neither the order of the entries of a table counts here
/// nor whether it is in braces.
#[verifier::ext_equal]
pub enum ListedView {
    Str(Seq<char>),
    Bool(bool),
    Integer(i64),
    Table(Map<Seq<char>, ListedView>),
    List(Seq<ListedView>),
    Written(Seq<char>),
    Other,
}

/// What a value stands for as an element of an array.
pub open spec fn listed(value: TomlView) -> ListedView
    decreases value,
{
    match value {
        TomlView::Str(s) => ListedView::Str(s),
        TomlView::Bool(b) => ListedView::Bool(b),
        TomlView::Integer(n) => ListedView::Integer(n),
        TomlView::Table(entries) => ListedView::Table(listed_entries(entries)),
        TomlView::Inline(entries) => ListedView::Table(listed_entries(entries)),
        TomlView::List(items) => ListedView::List(items),
        TomlView::Written(s) => ListedView::Written(s),
        TomlView::Other => ListedView::Other,
    }
}

/// What the entries of a table stand for in an array.
pub open spec fn listed_entries(entries: Seq<(Seq<char>, TomlView)>) -> Map<Seq<char>, ListedView>
    decreases entries,
{
    if entries.len() == 0 {
        Map::empty()
    } else {
        listed_entries(entries.drop_last()).insert(entries.last().0, listed(entries.last().1))
    }
}

/// The value of the first entry with `key`.
pub open spec fn find(entries: Seq<(Seq<char>, TomlView)>, key: Seq<char>) -> Option<TomlView>
    decreases entries.len(),
{
    if entries.len() == 0 {
        None
    } else {
        match find(entries.drop_last(), key) {
            Some(v) => Some(v),
            None => if entries.last().0 == key {
                Some(entries.last().1)
            } else {
                None
            },
        }
    }
}

impl TomlView {
    /// The entries of a table of either kind.
    pub open spec fn entries(self) -> Option<Seq<(Seq<char>, TomlView)>> {
        match self {
            TomlView::Table(entries) => Some(entries),
            TomlView::Inline(entries) => Some(entries),
            _ => None,
        }
    }

    /// Whether the value is a table of either kind.
    pub open spec fn is_table_like(self) -> bool {
        self is Table || self is Inline
    }

    /// The entry `key` of a table of either kind.
    pub open spec fn get(self, key: Seq<char>) -> Option<TomlView> {
        match self.entries() {
            Some(entries) => find(entries, key),
            None => None,
        }
    }

    /// The characters of a string.
    pub open spec fn text(self) -> Option<Seq<char>> {
        match self {
            TomlView::Str(s) => Some(s),
            _ => None,
        }
    }

    /// A boolean.
    pub open spec fn flag(self) -> Option<bool> {
        match self {
            TomlView::Bool(b) => Some(b),
            _ => None,
        }
    }

    /// A whole number.
    pub open spec fn whole(self) -> Option<i64> {
        match self {
            TomlView::Integer(n) => Some(n),
            _ => None,
        }
    }

    /// The entry `key` of a table of either kind, where it is a string.
    pub open spec fn get_text(self, key: Seq<char>) -> Option<Seq<char>> {
        match self.get(key) {
            Some(v) => v.text(),
            None => None,
        }
    }

    /// The entry `key` of a table of either kind, where it is a boolean.
    pub open spec fn get_bool(self, key: Seq<char>) -> Option<bool> {
        match self.get(key) {
            Some(TomlView::Bool(b)) => Some(b),
            _ => None,
        }
    }
}

impl Toml {
    pub open spec fn view(&self) -> TomlView
        decreases self,
    {
        match self {
            Toml::Str(s) => TomlView::Str(s@),
            Toml::Bool(b) => TomlView::Bool(*b),
            Toml::Integer(n) => TomlView::Integer(*n),
            Toml::Table(entries) => TomlView::Table(entries_view(entries@)),
            Toml::Inline(entries) => TomlView::Inline(entries_view(entries@)),
            Toml::List(items) => TomlView::List(items_view(items@)),
            Toml::Written(s) => TomlView::Written(s@),
            Toml::Other => TomlView::Other,
        }
    }
}

/// What the elements of an array stand for.
pub open spec fn items_view(items: Seq<Toml>) -> Seq<ListedView>
    decreases items,
{
    if items.len() == 0 {
        Seq::empty()
    } else {
        items_view(items.drop_last()).push(listed(items.last().view()))
    }
}

/// What the entries of a table stand for.
pub open spec fn entries_view(entries: Seq<(String, Toml)>) -> Seq<(Seq<char>, TomlView)>
    decreases entries,
{
    if entries.len() == 0 {
        Seq::empty()
    } else {
        entries_view(entries.drop_last()).push((entries.last().0@, entries.last().1.view()))
    }
}

/// What an optional reference to a value stands for.
pub open spec fn ref_view(value: Option<&Toml>) -> Option<TomlView> {
    match value {
        Some(v) => Some(v@),
        None => None,
    }
}

/// The entries stand for their own keys and values, one by one.
pub broadcast proof fn lemma_entries_view(entries: Seq<(String, Toml)>)
    ensures
        (#[trigger] entries_view(entries)).len() == entries.len(),
        forall|i: int|
            0 <= i < entries.len() ==> entries_view(entries)[i] == (
                (#[trigger] entries[i]).0@,
                entries[i].1.view(),
            ),
    decreases entries.len(),
{
    if entries.len() > 0 {
        lemma_entries_view(entries.drop_last());
        assert forall|i: int| 0 <= i < entries.len() implies entries_view(entries)[i] == (
            (#[trigger] entries[i]).0@,
            entries[i].1.view(),
        ) by {
            if i < entries.len() - 1 {
                assert(entries.drop_last()[i] == entries[i]);
            }
        }
    }
}

/// The position of the first entry with `key`.
fn first_entry(entries: &Vec<(String, Toml)>, key: &str) -> (r: Option<usize>)
    ensures
        match r {
            Some(i) => i < entries@.len() && find(entries_view(entries@), key@) == Some(
                entries@[i as int].1.view(),
            ),
            None => find(entries_view(entries@), key@) is None,
        },
{
    let ghost views = entries_view(entries@);
    proof {
        lemma_entries_view(entries@);
    }
    let mut i: usize = 0;
    while i < entries.len()
        invariant
            i <= entries@.len(),
            views == entries_view(entries@),
            views.len() == entries@.len(),
            find(views.take(i as int), key@) is None,
        decreases entries@.len() - i,
    {
        proof {
            lemma_entries_view(entries@);
            assert(views.take(i + 1).drop_last() =~= views.take(i as int));
            assert(views.take(i + 1).last() == views[i as int]);
        }
        if str_eq(entries[i].0.as_str(), key) {
            proof {
                lemma_find_prefix(views, key@, i + 1);
            }
            return Some(i);
        }
        i += 1;
    }
    assert(views.take(i as int) =~= views);
    None
}

/// What is found in the first entries is found in all of them.
proof fn lemma_find_prefix(entries: Seq<(Seq<char>, TomlView)>, key: Seq<char>, n: int)
    requires
        0 <= n <= entries.len(),
        find(entries.take(n), key) is Some,
    ensures
        find(entries, key) == find(entries.take(n), key),
    decreases entries.len() - n,
{
    if n < entries.len() {
        assert(entries.take(n + 1).drop_last() =~= entries.take(n));
        lemma_find_prefix(entries, key, n + 1);
    } else {
        assert(entries.take(n) =~= entries);
    }
}

impl Toml {
    /// The entries of a table of either kind.
    pub fn entries(&self) -> (r: Option<&Vec<(String, Toml)>>)
        ensures
            match r {
                Some(entries) => self@.entries() == Some(entries_view(entries@)),
                None => self@.entries() is None,
            },
    {
        match self {
            Toml::Table(entries) => Some(entries),
            Toml::Inline(entries) => Some(entries),
            _ => None,
        }
    }

    /// Whether the value is a table of either kind.
    pub fn is_table_like(&self) -> (r: bool)
        ensures
            r == self@.is_table_like(),
    {
        match self {
            Toml::Table(_) => true,
            Toml::Inline(_) => true,
            _ => false,
        }
    }

    /// The entry `key` of a table of either kind.
    pub fn get(&self, key: &str) -> (r: Option<&Toml>)
        ensures
            ref_view(r) == self@.get(key@),
    {
        match self {
            Toml::Table(entries) => match first_entry(entries, key) {
                Some(i) => Some(&entries[i].1),
                None => None,
            },
            Toml::Inline(entries) => match first_entry(entries, key) {
                Some(i) => Some(&entries[i].1),
                None => None,
            },
            _ => None,
        }
    }

    /// The characters of a string.
    pub fn as_str(&self) -> (r: Option<&str>)
        ensures
            text::slice_text(r) == self@.text(),
    {
        match self {
            Toml::Str(s) => Some(s.as_str()),
            _ => None,
        }
    }

    /// The entry `key` of a table of either kind, where it is a string.
    pub fn get_str(&self, key: &str) -> (r: Option<&str>)
        ensures
            text::slice_text(r) == self@.get_text(key@),
    {
        match self.get(key) {
            Some(v) => v.as_str(),
            None => None,
        }
    }

    /// The entry `key` of a table of either kind, where it is a boolean.
    pub fn get_bool(&self, key: &str) -> (r: Option<bool>)
        ensures
            r == self@.get_bool(key@),
    {
        match self.get(key) {
            Some(Toml::Bool(b)) => Some(*b),
            _ => None,
        }
    }
}

/// One change to a document. `path` leads from the root to a table of either kind; where it leads
/// nowhere the change does nothing.
#[derive(Debug)]
pub enum TomlEdit {
    /// Sets an entry to a string and leaves the way its key is written.
    AssignStr { path: Vec<String>, key: String, value: String },
    /// Sets an entry to a boolean and leaves the way its key is written.
    AssignBool { path: Vec<String>, key: String, on: bool },
    /// Sets an entry to a string and writes its key anew.
    InsertStr { path: Vec<String>, key: String, value: String },
    /// Sets an entry to an empty table with a header and writes its key anew.
    InsertTable { path: Vec<String>, key: String },
    /// Sets an entry of the root to an empty table, with a header or without.
    AssignTable { key: String, implicit: bool },
    /// Takes an entry away.
    Remove { path: Vec<String>, key: String },
    /// Moves the table `key` of the root behind all other entries, as a table that is not in
    /// braces; a missing one becomes an empty table without a header.
    Retable { key: String },
    /// Takes the entry `from` away and inserts it again as `to`.
    Rename { path: Vec<String>, from: String, to: String },
}

/// One entry to copy from another document, from the same place.
#[derive(Debug)]
pub enum TomlCopy {
    /// Sets an entry of the root and leaves the way its key is written.
    Assign { key: String },
    /// Sets an entry of the table that `path` leads to and writes its key anew.
    Insert { path: Vec<String>, key: String },
}

/// What a [`TomlCopy`] stands for.
#[verifier::ext_equal]
pub enum CopyView {
    Assign { key: Seq<char> },
    Insert { path: Seq<Seq<char>>, key: Seq<char> },
}

/// What a change to a document stands for; for a copy, with the text of the document that it is
/// taken from.
#[verifier::ext_equal]
pub enum EditView {
    AssignStr { path: Seq<Seq<char>>, key: Seq<char>, value: Seq<char> },
    AssignBool { path: Seq<Seq<char>>, key: Seq<char>, on: bool },
    InsertStr { path: Seq<Seq<char>>, key: Seq<char>, value: Seq<char> },
    InsertTable { path: Seq<Seq<char>>, key: Seq<char> },
    AssignTable { key: Seq<char>, implicit: bool },
    Remove { path: Seq<Seq<char>>, key: Seq<char> },
    Retable { key: Seq<char> },
    Rename { path: Seq<Seq<char>>, from: Seq<char>, to: Seq<char> },
    AssignFrom { source: Seq<char>, key: Seq<char> },
    InsertFrom { source: Seq<char>, path: Seq<Seq<char>>, key: Seq<char> },
}

impl TomlEdit {
    pub open spec fn view(&self) -> EditView {
        match self {
            TomlEdit::AssignStr { path, key, value } => EditView::AssignStr {
                path: text::texts(path@),
                key: key@,
                value: value@,
            },
            TomlEdit::AssignBool { path, key, on } => EditView::AssignBool {
                path: text::texts(path@),
                key: key@,
                on: *on,
            },
            TomlEdit::InsertStr { path, key, value } => EditView::InsertStr {
                path: text::texts(path@),
                key: key@,
                value: value@,
            },
            TomlEdit::InsertTable { path, key } => EditView::InsertTable {
                path: text::texts(path@),
                key: key@,
            },
            TomlEdit::AssignTable { key, implicit } => EditView::AssignTable {
                key: key@,
                implicit: *implicit,
            },
            TomlEdit::Remove { path, key } => EditView::Remove {
                path: text::texts(path@),
                key: key@,
            },
            TomlEdit::Retable { key } => EditView::Retable { key: key@ },
            TomlEdit::Rename { path, from, to } => EditView::Rename {
                path: text::texts(path@),
                from: from@,
                to: to@,
            },
        }
    }
}

impl TomlCopy {
    pub open spec fn view(&self) -> CopyView {
        match self {
            TomlCopy::Assign { key } => CopyView::Assign { key: key@ },
            TomlCopy::Insert { path, key } => CopyView::Insert {
                path: text::texts(path@),
                key: key@,
            },
        }
    }
}

impl CopyView {
    /// The change that the copy makes, from the document that was read from `source`.
    pub open spec fn from_source(self, source: Seq<char>) -> EditView {
        match self {
            CopyView::Assign { key } => EditView::AssignFrom { source, key },
            CopyView::Insert { path, key } => EditView::InsertFrom { source, path, key },
        }
    }
}

/// What a list of edits stands for.
pub open spec fn edits_view(edits: Seq<TomlEdit>) -> Seq<EditView> {
    edits.map_values(|e: TomlEdit| e.view())
}

/// What a list of copies stands for.
pub open spec fn copies_view(copies: Seq<TomlCopy>) -> Seq<CopyView> {
    copies.map_values(|c: TomlCopy| c.view())
}

/// The changes that copies from one document make.
pub open spec fn copies_from(copies: Seq<CopyView>, source: Seq<char>) -> Seq<EditView> {
    copies.map_values(|c: CopyView| c.from_source(source))
}

/// A document of `toml_edit`.
#[verifier::external_type_specification]
#[verifier::external_body]
pub struct ExDocumentMut(toml_edit::DocumentMut);

/// A part of a document of `toml_edit`.
#[verifier::external_type_specification]
#[verifier::external_body]
pub struct ExItem(toml_edit::Item);

/// The text that a document was read from.
pub uninterp spec fn document_source(doc: toml_edit::DocumentMut) -> Seq<char>;

/// The changes that were made to a document since, in order.
pub uninterp spec fn document_edits(doc: toml_edit::DocumentMut) -> Seq<EditView>;

/// What a part of a document holds.
pub uninterp spec fn item_contents(item: toml_edit::Item) -> TomlView;

/// How many tables and arrays stand in one another in a part of a document.
pub uninterp spec fn item_depth(item: toml_edit::Item) -> nat;

/// What `toml_edit` reads from a text; `None` where the text is not TOML.
pub uninterp spec fn toml_tree(text: Seq<char>) -> Option<TomlView>;

/// What `toml_edit` says of a text that is not TOML.
pub uninterp spec fn toml_error(text: Seq<char>) -> Seq<char>;

/// The text that `toml_edit` writes for a document that was read from `text` and then changed.
pub uninterp spec fn toml_printed(text: Seq<char>, edits: Seq<EditView>) -> Seq<char>;

/// Whether the text that is written for a changed document, where it is TOML again, has the
/// settings that the changes made, keeps braces where nothing was moved or copied, and shows the
/// names that were added.
pub open spec fn reads_back(text: Seq<char>, edits: Seq<EditView>) -> bool {
    match (toml_tree(toml_printed(text, edits)), toml_tree(text)) {
        (Some(read), Some(tree)) => {
            &&& toml_model::same_settings(read, toml_model::applied_all(tree, edits))
            &&& toml_model::keeps_braces(read, toml_model::applied_all(tree, edits), edits)
            &&& toml_model::shows_new_names(toml_printed(text, edits), read, tree, edits)
        },
        _ => true,
    }
}

/// `str::parse` for `toml_edit::DocumentMut`. Whether it succeeds, and the message where it does
/// not, depend on the text alone.
#[verifier::external_body]
pub(crate) fn parse_document(text: &str) -> (r: Result<toml_edit::DocumentMut, String>)
    ensures
        match r {
            Ok(doc) => toml_tree(text@) is Some && document_source(doc) == text@ && document_edits(
                doc,
            ) == Seq::<EditView>::empty(),
            Err(message) => toml_tree(text@) is None && message@ == toml_error(text@),
        },
{
    text.parse::<toml_edit::DocumentMut>().map_err(|e| e.to_string())
}

/// `DocumentMut::as_item` gives the root of a document, which is a table. What the root of an
/// unedited document holds depends on the text that it was read from alone, and no key stands
/// twice in a table of it.
#[verifier::external_body]
fn document_root(doc: &toml_edit::DocumentMut) -> (r: &toml_edit::Item)
    ensures
        document_edits(*doc).len() == 0 ==> toml_tree(document_source(*doc)) == Some(
            item_contents(*r),
        ),
        document_edits(*doc).len() == 0 ==> item_contents(*r) is Table
            && toml_model::keys_distinct(item_contents(*r)),
{
    doc.as_item()
}

/// What the entries of a table hold.
pub open spec fn entry_contents(parts: Seq<(String, toml_edit::Item)>) -> Seq<
    (Seq<char>, TomlView),
> {
    parts.map_values(|part: (String, toml_edit::Item)| (part.0@, item_contents(part.1)))
}

/// What the elements of an array hold.
pub open spec fn element_contents(parts: Seq<toml_edit::Item>) -> Seq<ListedView> {
    parts.map_values(|part: toml_edit::Item| listed(item_contents(part)))
}

/// `Item::as_str` gives the characters of a string.
pub assume_specification[ toml_edit::Item::as_str ](item: &toml_edit::Item) -> (r: Option<&str>)
    ensures
        text::slice_text(r) == item_contents(*item).text(),
;

/// `Item::as_bool` gives a boolean.
pub assume_specification[ toml_edit::Item::as_bool ](item: &toml_edit::Item) -> (r: Option<bool>)
    ensures
        r == item_contents(*item).flag(),
;

/// `Item::as_integer` gives a whole number.
pub assume_specification[ toml_edit::Item::as_integer ](item: &toml_edit::Item) -> (r: Option<i64>)
    ensures
        r == item_contents(*item).whole(),
;

/// `Item::is_inline_table` tells a table in braces.
pub assume_specification[ toml_edit::Item::is_inline_table ](item: &toml_edit::Item) -> (r: bool)
    ensures
        r == item_contents(*item) is Inline,
;

/// `Item::as_table_like` and `TableLike::iter`: the entries of a table of either kind, in their
/// order, none of them as deep as the table.
#[verifier::external_body]
fn item_entries(item: &toml_edit::Item) -> (r: Option<Vec<(String, toml_edit::Item)>>)
    ensures
        match r {
            Some(parts) => {
                &&& item_contents(*item).entries() == Some(entry_contents(parts@))
                &&& forall|i: int|
                    0 <= i < parts@.len() ==> item_depth((#[trigger] parts@[i]).1) < item_depth(
                        *item,
                    )
            },
            None => !item_contents(*item).is_table_like(),
        },
{
    item.as_table_like().map(|t| t.iter().map(|(k, v)| (k.to_string(), v.clone())).collect())
}

/// `Array::iter` and `ArrayOfTables::iter`: the elements of an array of either kind, in their order,
/// none of them as deep as the array.
#[verifier::external_body]
fn item_elements(item: &toml_edit::Item) -> (r: Option<Vec<toml_edit::Item>>)
    ensures
        match r {
            Some(parts) => {
                &&& item_contents(*item) == TomlView::List(element_contents(parts@))
                &&& forall|i: int|
                    0 <= i < parts@.len() ==> item_depth(#[trigger] parts@[i]) < item_depth(*item)
            },
            None => !(item_contents(*item) is List),
        },
{
    match item {
        Item::Value(Value::Array(a)) => Some(a.iter().map(|v| Item::Value(v.clone())).collect()),
        Item::ArrayOfTables(a) => Some(a.iter().map(|t| Item::Table(t.clone())).collect()),
        _ => None,
    }
}

/// `Display` of the `toml_edit::Value` of an item, without what surrounds it: how a number that is
/// not whole, or a date, is written.
#[verifier::external_body]
fn item_written(item: &toml_edit::Item) -> (r: String)
    requires
        !item_contents(*item).is_table_like(),
        !(item_contents(*item) is List),
        item_contents(*item).text() is None,
        item_contents(*item).flag() is None,
        item_contents(*item).whole() is None,
    ensures
        item_contents(*item) == TomlView::Written(r@),
{
    item.as_value().map(|v| v.clone().decorated("", "").to_string()).unwrap_or_default()
}

/// Hands out what a part of a document holds, with the entries of a table in their order.
fn toml_from_item(item: &toml_edit::Item) -> (r: Toml)
    ensures
        r@ == item_contents(*item),
    decreases item_depth(*item),
{
    if let Some(parts) = item_entries(item) {
        let mut entries: Vec<(String, Toml)> = Vec::new();
        let mut i: usize = 0;
        while i < parts.len()
            invariant
                i <= parts@.len(),
                entries_view(entries@) == entry_contents(parts@).take(i as int),
                forall|k: int|
                    0 <= k < parts@.len() ==> item_depth((#[trigger] parts@[k]).1) < item_depth(
                        *item,
                    ),
            decreases parts@.len() - i,
        {
            let key = parts[i].0.as_str().to_owned();
            let value = toml_from_item(&parts[i].1);
            let ghost before = entries@;
            entries.push((key, value));
            proof {
                assert(entries@.drop_last() =~= before);
                assert(entry_contents(parts@).take(i + 1) =~= entry_contents(parts@).take(
                    i as int,
                ).push(entry_contents(parts@)[i as int]));
            }
            i += 1;
        }
        assert(entry_contents(parts@).take(i as int) =~= entry_contents(parts@));
        return if item.is_inline_table() {
            Toml::Inline(entries)
        } else {
            Toml::Table(entries)
        };
    }
    if let Some(parts) = item_elements(item) {
        let mut items: Vec<Toml> = Vec::new();
        let mut i: usize = 0;
        while i < parts.len()
            invariant
                i <= parts@.len(),
                items_view(items@) == element_contents(parts@).take(i as int),
                forall|k: int|
                    0 <= k < parts@.len() ==> item_depth(#[trigger] parts@[k]) < item_depth(*item),
            decreases parts@.len() - i,
        {
            let value = toml_from_item(&parts[i]);
            let ghost before = items@;
            items.push(value);
            proof {
                assert(items@.drop_last() =~= before);
                assert(element_contents(parts@).take(i + 1) =~= element_contents(parts@).take(
                    i as int,
                ).push(element_contents(parts@)[i as int]));
            }
            i += 1;
        }
        assert(element_contents(parts@).take(i as int) =~= element_contents(parts@));
        return Toml::List(items);
    }
    if let Some(s) = item.as_str() {
        return Toml::Str(s.to_owned());
    }
    if let Some(b) = item.as_bool() {
        return Toml::Bool(b);
    }
    match item.as_integer() {
        Some(n) => Toml::Integer(n),
        None => Toml::Written(item_written(item)),
    }
}

/// Whether a quote stands so often in a row from a place on that it can no longer be counted when the
/// string is written: the count is a `u8`.
pub open spec fn has_quotes_at(s: Seq<char>, quote: char, i: int) -> bool {
    &&& 0 <= i
    &&& i + MAX_QUOTES < s.len()
    &&& forall|j: int| i <= j <= i + MAX_QUOTES ==> #[trigger] s[j] == quote
}

/// Whether a string can be written: nowhere in it stands the same quote too often in a row.
pub open spec fn is_writable(s: Seq<char>) -> bool {
    &&& forall|i: int| !#[trigger] has_quotes_at(s, '"', i)
    &&& forall|i: int| !#[trigger] has_quotes_at(s, '\'', i)
}

/// Whether the string that a change sets, where it sets one, can be written.
pub open spec fn is_writable_edit(edit: EditView) -> bool {
    match edit {
        EditView::AssignStr { value, .. } => is_writable(value),
        EditView::InsertStr { value, .. } => is_writable(value),
        _ => true,
    }
}

/// Whether the strings that changes set can be written.
pub open spec fn are_writable(edits: Seq<EditView>) -> bool {
    forall|i: int| 0 <= i < edits.len() ==> is_writable_edit(#[trigger] edits[i])
}

/// A short string can be written.
pub broadcast proof fn lemma_short_is_writable(s: Seq<char>)
    requires
        s.len() <= MAX_QUOTES,
    ensures
        #[trigger] is_writable(s),
{
}

/// `Display` of `toml_edit::DocumentMut`. The strings that changes have set must not hold more equal
/// quotes in a row than the crate can count. The text depends on the text that the document was read
/// from and on the changes since. Where the text is TOML again, it has the settings that the
/// changes made, and a key that changes have added by name stands in it without quotes where it
/// needs none. Where nothing was moved or copied, tables stay in braces or without them. Nothing is
/// claimed of the order of entries, nor that the text is TOML: the crate does not promise it.
#[verifier::external_body]
fn document_text(doc: &toml_edit::DocumentMut) -> (r: String)
    requires
        are_writable(document_edits(*doc)),
    ensures
        r@ == toml_printed(document_source(*doc), document_edits(*doc)),
        match (toml_tree(r@), toml_tree(document_source(*doc))) {
            (Some(read), Some(tree)) => {
                &&& toml_model::same_settings(
                    read,
                    toml_model::applied_all(tree, document_edits(*doc)),
                )
                &&& toml_model::keeps_braces(
                    read,
                    toml_model::applied_all(tree, document_edits(*doc)),
                    document_edits(*doc),
                )
                &&& toml_model::shows_new_names(r@, read, tree, document_edits(*doc))
            },
            _ => true,
        },
{
    doc.to_string()
}

/// `TableLike::entry` of the table at `path`, set to `toml_edit::value` of a string: the document
/// becomes the one that went through one more change.
#[verifier::external_body]
fn assign_str(doc: &mut toml_edit::DocumentMut, path: &Vec<String>, key: &str, value: &str)
    ensures
        document_source(*final(doc)) == document_source(*old(doc)),
        document_edits(*final(doc)) == document_edits(*old(doc)).push(
            EditView::AssignStr { path: text::texts(path@), key: key@, value: value@ },
        ),
{
    let mut table: Option<&mut dyn toml_edit::TableLike> = Some(doc.as_table_mut());
    for name in path {
        table = table.and_then(|t| t.get_mut(name)).and_then(|i| i.as_table_like_mut());
    }
    if let Some(table) = table {
        *table.entry(key).or_insert(toml_edit::Item::None) = toml_edit::value(value);
    }
}

/// `TableLike::entry` of the table at `path`, set to `toml_edit::value` of a boolean: the document
/// becomes the one that went through one more change.
#[verifier::external_body]
fn assign_bool(doc: &mut toml_edit::DocumentMut, path: &Vec<String>, key: &str, on: bool)
    ensures
        document_source(*final(doc)) == document_source(*old(doc)),
        document_edits(*final(doc)) == document_edits(*old(doc)).push(
            EditView::AssignBool { path: text::texts(path@), key: key@, on },
        ),
{
    let mut table: Option<&mut dyn toml_edit::TableLike> = Some(doc.as_table_mut());
    for name in path {
        table = table.and_then(|t| t.get_mut(name)).and_then(|i| i.as_table_like_mut());
    }
    if let Some(table) = table {
        *table.entry(key).or_insert(toml_edit::Item::None) = toml_edit::value(on);
    }
}

/// `TableLike::insert` of a string into the table at `path`: the document becomes the one that
/// went through one more change.
#[verifier::external_body]
fn insert_str(doc: &mut toml_edit::DocumentMut, path: &Vec<String>, key: &str, value: &str)
    ensures
        document_source(*final(doc)) == document_source(*old(doc)),
        document_edits(*final(doc)) == document_edits(*old(doc)).push(
            EditView::InsertStr { path: text::texts(path@), key: key@, value: value@ },
        ),
{
    let mut table: Option<&mut dyn toml_edit::TableLike> = Some(doc.as_table_mut());
    for name in path {
        table = table.and_then(|t| t.get_mut(name)).and_then(|i| i.as_table_like_mut());
    }
    if let Some(table) = table {
        table.insert(key, toml_edit::value(value));
    }
}

/// `TableLike::insert` of `toml_edit::table` into the table at `path`: the document becomes the
/// one that went through one more change.
#[verifier::external_body]
fn insert_table(doc: &mut toml_edit::DocumentMut, path: &Vec<String>, key: &str)
    ensures
        document_source(*final(doc)) == document_source(*old(doc)),
        document_edits(*final(doc)) == document_edits(*old(doc)).push(
            EditView::InsertTable { path: text::texts(path@), key: key@ },
        ),
{
    let mut table: Option<&mut dyn toml_edit::TableLike> = Some(doc.as_table_mut());
    for name in path {
        table = table.and_then(|t| t.get_mut(name)).and_then(|i| i.as_table_like_mut());
    }
    if let Some(table) = table {
        table.insert(key, toml_edit::table());
    }
}

/// `Table::entry` of the root, set to a new `toml_edit::Table` after `Table::set_implicit`: the
/// document becomes the one that went through one more change.
#[verifier::external_body]
fn assign_table(doc: &mut toml_edit::DocumentMut, key: &str, implicit: bool)
    ensures
        document_source(*final(doc)) == document_source(*old(doc)),
        document_edits(*final(doc)) == document_edits(*old(doc)).push(
            EditView::AssignTable { key: key@, implicit },
        ),
{
    let mut table = toml_edit::Table::new();
    table.set_implicit(implicit);
    *doc.entry(key).or_insert(toml_edit::Item::None) = toml_edit::Item::Table(table);
}

/// `TableLike::remove` from the table at `path`: the document becomes the one that went through
/// one more change.
#[verifier::external_body]
fn remove_entry(doc: &mut toml_edit::DocumentMut, path: &Vec<String>, key: &str)
    ensures
        document_source(*final(doc)) == document_source(*old(doc)),
        document_edits(*final(doc)) == document_edits(*old(doc)).push(
            EditView::Remove { path: text::texts(path@), key: key@ },
        ),
{
    let mut table: Option<&mut dyn toml_edit::TableLike> = Some(doc.as_table_mut());
    for name in path {
        table = table.and_then(|t| t.get_mut(name)).and_then(|i| i.as_table_like_mut());
    }
    if let Some(table) = table {
        table.remove(key);
    }
}

/// `Table::remove` from the root, `Item::into_table` on what was there or a new implicit
/// `toml_edit::Table` in its place, and `Table::insert` of it: the document becomes the one that
/// went through one more change.
#[verifier::external_body]
fn retable(doc: &mut toml_edit::DocumentMut, key: &str)
    ensures
        document_source(*final(doc)) == document_source(*old(doc)),
        document_edits(*final(doc)) == document_edits(*old(doc)).push(
            EditView::Retable { key: key@ },
        ),
{
    let mut empty = toml_edit::Table::new();
    empty.set_implicit(true);
    let table = match doc.remove(key) {
        Some(item) => item.into_table().unwrap_or(empty),
        None => empty,
    };
    doc.insert(key, toml_edit::Item::Table(table));
}

/// `TableLike::remove` and `TableLike::insert` of the removed entry in the table at `path`: the
/// document becomes the one that went through one more change.
#[verifier::external_body]
fn rename_entry(doc: &mut toml_edit::DocumentMut, path: &Vec<String>, from: &str, to: &str)
    ensures
        document_source(*final(doc)) == document_source(*old(doc)),
        document_edits(*final(doc)) == document_edits(*old(doc)).push(
            EditView::Rename { path: text::texts(path@), from: from@, to: to@ },
        ),
{
    let mut table: Option<&mut dyn toml_edit::TableLike> = Some(doc.as_table_mut());
    for name in path {
        table = table.and_then(|t| t.get_mut(name)).and_then(|i| i.as_table_like_mut());
    }
    if let Some(table) = table {
        if let Some(item) = table.remove(from) {
            table.insert(to, item);
        }
    }
}

/// `Table::entry` of the root, set to a clone of what `Table::get` finds in the root of `source`:
/// the document becomes the one that went through one more change.
#[verifier::external_body]
fn assign_from(doc: &mut toml_edit::DocumentMut, source: &toml_edit::DocumentMut, key: &str)
    requires
        document_edits(*source).len() == 0,
    ensures
        document_source(*final(doc)) == document_source(*old(doc)),
        document_edits(*final(doc)) == document_edits(*old(doc)).push(
            EditView::AssignFrom { source: document_source(*source), key: key@ },
        ),
{
    if let Some(item) = source.get(key) {
        *doc.entry(key).or_insert(toml_edit::Item::None) = item.clone();
    }
}

/// `TableLike::insert` into the table at `path` of a clone of what `TableLike::get` finds in the
/// table at `path` of `source`: the document becomes the one that went through one more change.
#[verifier::external_body]
fn insert_from(doc: &mut toml_edit::DocumentMut, source: &toml_edit::DocumentMut, path: &Vec<String>, key: &str)
    requires
        document_edits(*source).len() == 0,
    ensures
        document_source(*final(doc)) == document_source(*old(doc)),
        document_edits(*final(doc)) == document_edits(*old(doc)).push(
            EditView::InsertFrom {
                source: document_source(*source),
                path: text::texts(path@),
                key: key@,
            },
        ),
{
    let mut table: Option<&mut dyn toml_edit::TableLike> = Some(doc.as_table_mut());
    let mut from: Option<&dyn toml_edit::TableLike> = Some(source.as_table());
    for name in path {
        table = table.and_then(|t| t.get_mut(name)).and_then(|i| i.as_table_like_mut());
        from = from.and_then(|t| t.get(name)).and_then(|i| i.as_table_like());
    }
    if let (Some(table), Some(item)) = (table, from.and_then(|t| t.get(key))) {
        table.insert(key, item.clone());
    }
}

/// The tree of a document that was not changed yet.
pub(crate) fn document_tree(doc: &toml_edit::DocumentMut) -> (r: Toml)
    requires
        document_edits(*doc).len() == 0,
    ensures
        toml_tree(document_source(*doc)) == Some(r@),
        r@ is Table,
        toml_model::keys_distinct(r@),
{
    toml_from_item(document_root(doc))
}

/// Makes one change.
fn apply_edit(doc: &mut toml_edit::DocumentMut, edit: &TomlEdit)
    ensures
        document_source(*final(doc)) == document_source(*old(doc)),
        document_edits(*final(doc)) == document_edits(*old(doc)).push(edit@),
{
    match edit {
        TomlEdit::AssignStr { path, key, value } => assign_str(
            doc,
            path,
            key.as_str(),
            value.as_str(),
        ),
        TomlEdit::AssignBool { path, key, on } => assign_bool(doc, path, key.as_str(), *on),
        TomlEdit::InsertStr { path, key, value } => insert_str(
            doc,
            path,
            key.as_str(),
            value.as_str(),
        ),
        TomlEdit::InsertTable { path, key } => insert_table(doc, path, key.as_str()),
        TomlEdit::AssignTable { key, implicit } => assign_table(doc, key.as_str(), *implicit),
        TomlEdit::Remove { path, key } => remove_entry(doc, path, key.as_str()),
        TomlEdit::Retable { key } => retable(doc, key.as_str()),
        TomlEdit::Rename { path, from, to } => rename_entry(doc, path, from.as_str(), to.as_str()),
    }
}

/// Whether a config that is written with some changes holds what it should: the one that it is made
/// of is a table whose keys are distinct, and where the new one is TOML again, it has the settings
/// that the changes made.
pub open spec fn holds(config: Seq<char>, edits: Seq<EditView>) -> bool {
    toml_tree(config) matches Some(tree) ==> {
        &&& tree is Table
        &&& toml_model::keys_distinct(tree)
        &&& reads_back(config, edits)
    }
}

/// Whether a text, where it is TOML, is a table whose keys are distinct.
pub open spec fn is_well_formed(text: Seq<char>) -> bool {
    toml_tree(text) matches Some(tree) ==> tree is Table && toml_model::keys_distinct(tree)
}

/// Makes the changes one by one and writes the document out.
pub(crate) fn edited(doc: toml_edit::DocumentMut, edits: &Vec<TomlEdit>) -> (r: String)
    requires
        document_edits(doc).len() == 0,
        are_writable(edits_view(edits@)),
    ensures
        r@ == toml_printed(document_source(doc), edits_view(edits@)),
        reads_back(document_source(doc), edits_view(edits@)),
{
    let mut doc = doc;
    let ghost source = document_source(doc);
    let mut i: usize = 0;
    while i < edits.len()
        invariant
            i <= edits@.len(),
            document_source(doc) == source,
            document_edits(doc) =~= edits_view(edits@).take(i as int),
        decreases edits@.len() - i,
    {
        apply_edit(&mut doc, &edits[i]);
        i += 1;
    }
    assert(edits_view(edits@).take(i as int) =~= edits_view(edits@));
    document_text(&doc)
}

/// The length of the row of equal quotes at the end of a string.
spec fn quotes_at_end(s: Seq<char>, quote: char) -> int
    decreases s.len(),
{
    if s.len() == 0 || s.last() != quote {
        0
    } else {
        quotes_at_end(s.drop_last(), quote) + 1
    }
}

/// The row of equal quotes at the end of a string is one, and the longest there.
proof fn lemma_quotes_at_end(s: Seq<char>, quote: char)
    ensures
        0 <= quotes_at_end(s, quote) <= s.len(),
        forall|j: int| s.len() - quotes_at_end(s, quote) <= j < s.len() ==> #[trigger] s[j] == quote,
        quotes_at_end(s, quote) < s.len() ==> s[s.len() - 1 - quotes_at_end(s, quote)] != quote,
    decreases s.len(),
{
    if s.len() > 0 && s.last() == quote {
        let front = s.drop_last();
        lemma_quotes_at_end(front, quote);
        assert forall|j: int| s.len() - quotes_at_end(s, quote) <= j < s.len() implies #[trigger] s[j]
            == quote by {
            if j < s.len() - 1 {
                assert(front[j] == s[j]);
            }
        }
        if quotes_at_end(s, quote) < s.len() {
            assert(front[front.len() - 1 - quotes_at_end(front, quote)] == s[s.len() - 1
                - quotes_at_end(s, quote)]);
        }
    }
}

/// Whether nowhere in a string stands one quote too often in a row.
fn has_few_quotes(chars: &Vec<char>, quote: char) -> (r: bool)
    ensures
        r == (forall|i: int| !#[trigger] has_quotes_at(chars@, quote, i)),
{
    let mut row: usize = 0;
    let mut i: usize = 0;
    while i < chars.len()
        invariant
            i <= chars@.len(),
            row <= MAX_QUOTES,
            row == quotes_at_end(chars@.take(i as int), quote),
            forall|k: int| k + MAX_QUOTES < i ==> !#[trigger] has_quotes_at(chars@, quote, k),
        decreases chars@.len() - i,
    {
        let ghost front = chars@.take(i as int);
        let ghost seen = chars@.take(i + 1);
        proof {
            assert(seen.drop_last() =~= front);
            lemma_quotes_at_end(seen, quote);
        }
        if chars[i] == quote {
            if row == MAX_QUOTES {
                proof {
                    let k = i - MAX_QUOTES;
                    assert forall|j: int| k <= j <= k + MAX_QUOTES implies #[trigger] chars@[j]
                        == quote by {
                        assert(seen[j] == chars@[j]);
                    }
                    assert(has_quotes_at(chars@, quote, k));
                }
                return false;
            }
            row += 1;
        } else {
            row = 0;
        }
        assert forall|k: int| k + MAX_QUOTES < i + 1 implies !#[trigger] has_quotes_at(
            chars@,
            quote,
            k,
        ) by {
            if k + MAX_QUOTES == i && has_quotes_at(chars@, quote, k) {
                let j = i - row;
                assert(seen[j] == chars@[j]);
                assert(chars@[j] == quote);
            }
        }
        i += 1;
    }
    true
}

/// Whether a string can be written.
pub fn can_be_written(s: &str) -> (r: bool)
    ensures
        r == is_writable(s@),
{
    let chars = text::chars_of(s);
    has_few_quotes(&chars, '"') && has_few_quotes(&chars, '\'')
}

/// Whether the strings that changes set can be written.
fn can_all_be_written(edits: &Vec<TomlEdit>) -> (r: bool)
    ensures
        r == are_writable(edits_view(edits@)),
{
    let ghost views = edits_view(edits@);
    let mut i: usize = 0;
    while i < edits.len()
        invariant
            i <= edits@.len(),
            views == edits_view(edits@),
            forall|k: int| 0 <= k < i ==> is_writable_edit(#[trigger] views[k]),
        decreases edits@.len() - i,
    {
        let ok = match &edits[i] {
            TomlEdit::AssignStr { value, .. } => can_be_written(value.as_str()),
            TomlEdit::InsertStr { value, .. } => can_be_written(value.as_str()),
            _ => true,
        };
        assert(ok == is_writable_edit(views[i as int]));
        if !ok {
            return false;
        }
        i += 1;
    }
    true
}

/// The message for a string that cannot be written.
pub const UNWRITABLE_MESSAGE: &'static str =
    "A value in Codex config.toml cannot hold more than 255 equal quotes in a row";

/// The error for a string that cannot be written.
pub open spec fn unwritable_error() -> ErrorView {
    ErrorView::Message(UNWRITABLE_MESSAGE@)
}

/// A config with changes, where the strings that they set can be written.
pub open spec fn written(config: Seq<char>, edits: Seq<EditView>) -> Result<Seq<char>, ErrorView> {
    if are_writable(edits) {
        Ok(toml_printed(config, edits))
    } else {
        Err(unwritable_error())
    }
}

/// Makes the changes one by one and writes the document out, where the strings that they set can be
/// written.
pub(crate) fn try_edited(doc: toml_edit::DocumentMut, edits: &Vec<TomlEdit>) -> (r: Result<
    String,
    AppError,
>)
    requires
        document_edits(doc).len() == 0,
    ensures
        match r {
            Ok(out) => written(document_source(doc), edits_view(edits@)) == Ok::<
                Seq<char>,
                ErrorView,
            >(out@) && reads_back(document_source(doc), edits_view(edits@)),
            Err(e) => written(document_source(doc), edits_view(edits@)) == Err::<
                Seq<char>,
                ErrorView,
            >(e@),
        },
{
    if can_all_be_written(edits) {
        Ok(edited(doc, edits))
    } else {
        Err(AppError::Message(UNWRITABLE_MESSAGE.to_owned()))
    }
}

/// Makes the copies one by one and writes the document out.
pub(crate) fn with_copies(
    doc: toml_edit::DocumentMut,
    source: &toml_edit::DocumentMut,
    copies: &Vec<TomlCopy>,
) -> (r: String)
    requires
        document_edits(doc).len() == 0,
        document_edits(*source).len() == 0,
    ensures
        r@ == toml_printed(
            document_source(doc),
            copies_from(copies_view(copies@), document_source(*source)),
        ),
        reads_back(
            document_source(doc),
            copies_from(copies_view(copies@), document_source(*source)),
        ),
{
    let mut doc = doc;
    let ghost target_text = document_source(doc);
    let ghost source_text = document_source(*source);
    let mut i: usize = 0;
    while i < copies.len()
        invariant
            i <= copies@.len(),
            document_edits(*source).len() == 0,
            source_text == document_source(*source),
            document_source(doc) == target_text,
            document_edits(doc) =~= copies_from(copies_view(copies@), source_text).take(i as int),
        decreases copies@.len() - i,
    {
        match &copies[i] {
            TomlCopy::Assign { key } => assign_from(&mut doc, source, key.as_str()),
            TomlCopy::Insert { path, key } => insert_from(&mut doc, source, path, key.as_str()),
        }
        i += 1;
    }
    assert(copies_from(copies_view(copies@), source_text).take(i as int) =~= copies_from(
        copies_view(copies@),
        source_text,
    ));
    assert(are_writable(document_edits(doc)));
    document_text(&doc)
}

/// Reads a text.
pub fn parse_toml(text: &str) -> (r: Option<Toml>)
    ensures
        match r {
            Some(tree) => toml_tree(text@) == Some(tree@),
            None => toml_tree(text@) is None,
        },
{
    match parse_document(text) {
        Ok(doc) => Some(document_tree(&doc)),
        Err(_) => None,
    }
}

/// The error for a text that is not TOML.
pub open spec fn invalid_config(text: Seq<char>) -> ErrorView {
    ErrorView::Message("Invalid Codex config.toml: "@ + toml_error(text))
}

/// Reads a text, with the error for one that is not TOML.
pub(crate) fn parse_config(text: &str) -> (r: Result<toml_edit::DocumentMut, AppError>)
    ensures
        match r {
            Ok(doc) => toml_tree(text@) is Some && document_source(doc) == text@ && document_edits(
                doc,
            ) == Seq::<EditView>::empty(),
            Err(e) => toml_tree(text@) is None && e@ == invalid_config(text@),
        },
{
    match parse_document(text) {
        Ok(doc) => Ok(doc),
        Err(message) => Err(
            AppError::Message(join2("Invalid Codex config.toml: ", message.as_str())),
        ),
    }
}

/// The path to the root.
pub open spec fn root() -> Seq<Seq<char>> {
    Seq::empty()
}

/// The path to the root.
pub fn root_path() -> (r: Vec<String>)
    ensures
        text::texts(r@) == root(),
{
    let r: Vec<String> = Vec::new();
    assert(text::texts(r@) =~= root());
    r
}

/// The path to the entry `a` of the root.
pub fn path1(a: &str) -> (r: Vec<String>)
    ensures
        text::texts(r@) == seq![a@],
{
    let mut r: Vec<String> = Vec::new();
    r.push(a.to_owned());
    assert(text::texts(r@) =~= seq![a@]);
    r
}

/// The path to the entry `b` of the entry `a` of the root.
pub fn path2(a: &str, b: &str) -> (r: Vec<String>)
    ensures
        text::texts(r@) == seq![a@, b@],
{
    let mut r: Vec<String> = Vec::new();
    r.push(a.to_owned());
    r.push(b.to_owned());
    assert(text::texts(r@) =~= seq![a@, b@]);
    r
}

/// The path to the entry `key` of the table at `path`.
pub fn extended(path: &Vec<String>, key: &str) -> (r: Vec<String>)
    ensures
        text::texts(r@) == text::texts(path@).push(key@),
{
    let mut r = text::copy_list(path);
    let ghost before = r@;
    r.push(key.to_owned());
    assert(text::texts(r@) =~= text::texts(before).push(key@));
    r
}

/// One more change.
pub broadcast proof fn lemma_edits_push(edits: Seq<TomlEdit>, edit: TomlEdit)
    ensures
        #[trigger] edits_view(edits.push(edit)) == edits_view(edits).push(edit.view()),
{
    assert(edits_view(edits.push(edit)) =~= edits_view(edits).push(edit.view()));
}

/// One more copy.
pub broadcast proof fn lemma_copies_push(copies: Seq<TomlCopy>, copy: TomlCopy)
    ensures
        #[trigger] copies_view(copies.push(copy)) == copies_view(copies).push(copy.view()),
{
    assert(copies_view(copies.push(copy)) =~= copies_view(copies).push(copy.view()));
}

} // verus!
