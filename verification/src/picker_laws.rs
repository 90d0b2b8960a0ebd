//! What holds of the ids and the rows that the model picker shows.

use crate::catalog_entry::CodexCatalogToolProfile;
use crate::error::ErrorView;
use crate::json::JsonView;
use crate::model_specs::{EntryView, SlotTable};
use crate::routed_catalog::{BoundProvider, CapabilityRow, CatalogSources, ProxyTemplate};
use crate::toml_doc::TomlView;
use crate::{
    catalog, catalog_entry, catalog_ids, catalog_laws, entry_laws, json, model_specs,
    routed_catalog, text, toml_value,
};
use vstd::prelude::*;
use vstd::string::*;

verus! {

/// Whether a character is a letter or a digit of ASCII.
pub open spec fn is_plain(c: char) -> bool {
    ||| 'a' <= c && c <= 'z'
    ||| 'A' <= c && c <= 'Z'
    ||| '0' <= c && c <= '9'
}

/// A letter or a digit in lower case, and a dash for anything else.
pub open spec fn plain(c: char) -> char {
    if 'A' <= c && c <= 'Z' {
        ((c as u32) + 32) as char
    } else if is_plain(c) {
        c
    } else {
        '-'
    }
}

/// Without the dashes at its start a text starts with no dash.
proof fn lemma_dashes_start(s: Seq<char>) -> (n: int)
    ensures
        0 <= n <= s.len(),
        catalog_ids::trim_dashes_start(s) == s.subrange(n, s.len() as int),
        forall|k: int| 0 <= k < n ==> s[k] == '-',
        n < s.len() ==> s[n] != '-',
    decreases s.len(),
{
    if s.len() > 0 && s.first() == '-' {
        let rest = s.drop_first();
        let m = lemma_dashes_start(rest);
        assert(rest.subrange(m, rest.len() as int) =~= s.subrange(m + 1, s.len() as int));
        assert forall|k: int| 0 <= k < m + 1 implies s[k] == '-' by {
            if k > 0 {
                assert(rest[k - 1] == '-');
            }
        }
        m + 1
    } else {
        assert(s.subrange(0, s.len() as int) =~= s);
        0
    }
}

/// Without the dashes at its end a text ends with no dash.
proof fn lemma_dashes_end(s: Seq<char>) -> (n: int)
    ensures
        0 <= n <= s.len(),
        catalog_ids::trim_dashes_end(s) == s.subrange(0, n),
        forall|k: int| n <= k < s.len() ==> s[k] == '-',
        n > 0 ==> s[n - 1] != '-',
    decreases s.len(),
{
    if s.len() > 0 && s.last() == '-' {
        let front = s.drop_last();
        let m = lemma_dashes_end(front);
        assert(front.subrange(0, m) =~= s.subrange(0, m));
        assert forall|k: int| m <= k < s.len() implies s[k] == '-' by {
            if k < front.len() {
                assert(front[k] == '-');
            }
        }
        m
    } else {
        assert(s.subrange(0, s.len() as int) =~= s);
        s.len() as int
    }
}

/// What stands for a provider in the id of a model runs from the first letter or digit of the
/// provider's id to its last, in lower case, with a dash for anything else; for an id without any it
/// is a fixed word. `at` are the two ends.
pub proof fn law_what_stands_for_a_provider(provider_id: Seq<char>) -> (at: (int, int))
    ensures
        ({
            let (from, to) = at;
            let suffix = catalog_ids::id_suffix(provider_id);
            &&& 0 <= from <= to <= provider_id.len()
            &&& forall|k: int|
                0 <= k < from || to <= k < provider_id.len() ==> !is_plain(
                    #[trigger] provider_id[k],
                )
            &&& from < to ==> {
                &&& is_plain(provider_id[from])
                &&& is_plain(provider_id[to - 1])
                &&& suffix.len() == to - from
                &&& forall|k: int|
                    from <= k < to ==> suffix[k - from] == plain(#[trigger] provider_id[k])
            }
            &&& from == to ==> suffix == "provider"@
        }),
{
    let to_id = |c: char| catalog_ids::id_char(c);
    let dashed = provider_id.map_values(to_id);
    assert forall|k: int| 0 <= k < provider_id.len() implies dashed[k] == plain(
        #[trigger] provider_id[k],
    ) && (dashed[k] == '-' <==> !is_plain(provider_id[k])) by {
        lemma_plain(provider_id[k]);
    }
    let from = lemma_dashes_start(dashed);
    let rest = catalog_ids::trim_dashes_start(dashed);
    let n = lemma_dashes_end(rest);
    let to = from + n;
    let cleaned = catalog_ids::trim_dashes_end(rest);
    assert(cleaned == rest.subrange(0, n));
    if n > 0 {
        assert(rest[n - 1] == dashed[to - 1]);
        assert(is_plain(provider_id[to - 1]));
        assert(from < dashed.len());
        assert(is_plain(provider_id[from]));
    }
    assert forall|k: int| 0 <= k < from || to <= k < provider_id.len() implies !is_plain(
        #[trigger] provider_id[k],
    ) by {
        if k >= to {
            assert(rest[k - from] == dashed[k]);
        } else {
            assert(dashed[k] == '-');
        }
    }
    assert forall|k: int| from <= k < to implies cleaned[k - from] == plain(
        #[trigger] provider_id[k],
    ) by {
        assert(cleaned[k - from] == dashed[k]);
    }
    (from, to)
}

/// A dash stands for what is neither a letter nor a digit, and for nothing else.
proof fn lemma_plain(c: char)
    ensures
        catalog_ids::id_char(c) == plain(c),
        plain(c) == '-' <==> !is_plain(c),
{
    if 'A' <= c && c <= 'Z' {
        let n = c as u32;
        assert(65 <= n <= 90);
        assert(((n + 32) as char) as u32 == n + 32);
    }
}

/// The hash of an id starts at one number, and takes the bytes in one by one.
pub proof fn law_the_hash_takes_in_each_byte(bytes: Seq<u8>, byte: u8)
    ensures
        catalog_ids::fnv1a(Seq::empty()) == 0xcbf2_9ce4_8422_2325,
        catalog_ids::fnv1a(bytes.push(byte)) == (catalog_ids::fnv1a(bytes) ^ (
        byte as u64)).wrapping_mul(0x0000_0100_0000_01b3),
{
    assert(bytes.push(byte).drop_last() =~= bytes);
}

/// Whether two rows have one slot.
pub open spec fn share_slot(entries: Seq<EntryView>, slots: SlotTable, i: int, j: int) -> bool {
    slots.slot(entries[i].model) == slots.slot(entries[j].model)
}

/// Whether two rows have one slot and one provider.
pub open spec fn share_both(entries: Seq<EntryView>, slots: SlotTable, i: int, j: int) -> bool {
    share_slot(entries, slots, i, j) && entries[i].provider_id == entries[j].provider_id
}

/// Which rows keep their public name as their id: of rows that share a slot across providers the
/// first alone, of rows that share it within one provider none, and any row that shares it with none.
pub proof fn law_who_keeps_its_name(entries: Seq<EntryView>, slots: SlotTable, i: int, j: int)
    requires
        0 <= i < entries.len(),
        0 <= j < entries.len(),
        i != j,
        share_slot(entries, slots, i, j),
    ensures
        j < i ==> !catalog_ids::keeps_name(entries, slots, i),
        entries[i].provider_id != entries[j].provider_id && (forall|k: int|
            0 <= k < i ==> !#[trigger] share_slot(entries, slots, i, k))
            ==> catalog_ids::keeps_name(entries, slots, i),
        entries[i].provider_id == entries[j].provider_id && (forall|k: int|
            0 <= k < entries.len() && #[trigger] share_slot(entries, slots, i, k)
                ==> entries[k].provider_id == entries[i].provider_id) ==> !catalog_ids::keeps_name(
            entries,
            slots,
            i,
        ),
{
    assert(catalog_ids::same_slot(entries, slots, i, j));
    assert forall|k: int| catalog_ids::same_slot(entries, slots, i, k) == #[trigger] share_slot(
        entries,
        slots,
        i,
        k,
    ) by {}
    if forall|k: int| 0 <= k < i ==> !#[trigger] share_slot(entries, slots, i, k) {
        assert forall|k: int| 0 <= k < i implies !#[trigger] catalog_ids::same_slot(
            entries,
            slots,
            i,
            k,
        ) by {
            assert(!share_slot(entries, slots, i, k));
        }
    }
    if catalog_ids::is_shared(entries, slots, i) {
        let k = choose|k: int|
            0 <= k < entries.len() && #[trigger] catalog_ids::same_slot(entries, slots, i, k)
                && entries[k].provider_id != entries[i].provider_id;
        assert(share_slot(entries, slots, i, k));
    }
}

/// The id of a row is its public name, or that name with the provider, the provider's hash and the
/// number of the row among those of one slot and one provider.
pub proof fn law_what_the_id_of_a_row_is(entries: Seq<EntryView>, slots: SlotTable, i: int)
    requires
        0 <= i < entries.len(),
    ensures
        ({
            let id = catalog_ids::catalog_ids(entries, slots)[i];
            let provider = entries[i].provider_id;
            catalog_ids::catalog_ids(entries, slots).len() == entries.len() && (
            if catalog_ids::keeps_name(entries, slots, i) {
                id == entries[i].model
            } else {
                id == entries[i].model + "--cc-switch-provider-"@ + catalog_ids::id_suffix(provider)
                    + "-"@ + text::hex(catalog_ids::id_hash(provider) as nat, 16) + "-"@
                    + text::decimal(
                    catalog_ids::occurrences(entries, slots, i, (i + 1) as nat),
                )
            })
        }),
{
}

/// The rows of one slot and one provider are numbered from one, in their order: `j` is the last of
/// them before `i`, where there is one.
pub proof fn law_rows_are_numbered(entries: Seq<EntryView>, slots: SlotTable, i: int, j: int)
    requires
        0 <= i < entries.len(),
        -1 <= j < i,
        j >= 0 ==> share_both(entries, slots, i, j),
        forall|k: int| j < k < i ==> !#[trigger] share_both(entries, slots, i, k),
    ensures
        catalog_ids::occurrences(entries, slots, i, (i + 1) as nat) == (if j >= 0 {
            catalog_ids::occurrences(entries, slots, j, (j + 1) as nat) + 1
        } else {
            1
        }),
{
    lemma_not_counted(entries, slots, i, (j + 1) as nat, i as nat);
    if j >= 0 {
        lemma_counted_alike(entries, slots, i, j, (j + 1) as nat);
    } else {
        assert(catalog_ids::occurrences(entries, slots, i, 0) == 0);
    }
}

proof fn lemma_not_counted(entries: Seq<EntryView>, slots: SlotTable, i: int, from: nat, to: nat)
    requires
        from <= to,
        forall|k: int| from <= k < to ==> !#[trigger] share_both(entries, slots, i, k),
    ensures
        catalog_ids::occurrences(entries, slots, i, to) == catalog_ids::occurrences(
            entries,
            slots,
            i,
            from,
        ),
    decreases to,
{
    if from < to {
        lemma_not_counted(entries, slots, i, from, (to - 1) as nat);
        assert(!share_both(entries, slots, i, to - 1));
    }
}

proof fn lemma_counted_alike(entries: Seq<EntryView>, slots: SlotTable, i: int, j: int, n: nat)
    requires
        share_both(entries, slots, i, j),
    ensures
        catalog_ids::occurrences(entries, slots, i, n) == catalog_ids::occurrences(
            entries,
            slots,
            j,
            n,
        ),
    decreases n,
{
    if n > 0 {
        lemma_counted_alike(entries, slots, i, j, (n - 1) as nat);
    }
}

/// The row above a provider's models is known by the provider's id and its hash.
pub proof fn law_what_the_id_above_a_provider_is(provider_id: Seq<char>)
    ensures
        catalog_ids::separator_id(provider_id) == "cc-switch-provider-divider-"@
            + catalog_ids::id_suffix(provider_id) + "-"@ + text::hex(
            catalog_ids::id_hash(provider_id) as nat,
            16,
        ),
{
}

/// Whether no row before one has its provider.
pub open spec fn is_new_provider(entries: Seq<EntryView>, i: int) -> bool {
    forall|j: int| 0 <= j < i ==> (#[trigger] entries[j]).provider_id != entries[i].provider_id
}

/// The whitelist has the id of each row, in their order, with the row above a provider just before
/// the first row of that provider, and nothing else. `at` are the places of the rows.
pub proof fn law_each_row_is_whitelisted(
    entries: Seq<EntryView>,
    ids: Seq<Seq<char>>,
    n: nat,
) -> (at: Seq<int>)
    requires
        n <= entries.len(),
        ids.len() == entries.len(),
    ensures
        ({
            let list = catalog_ids::whitelist_ids(entries, ids, n);
            &&& at.len() == n
            &&& list.len() == last_place(at, n as int) + 1
            &&& forall|i: int|
                #![trigger at[i]]
                0 <= i < n ==> {
                    &&& 0 <= at[i] < list.len()
                    &&& list[at[i]] == ids[i]
                    &&& is_new_provider(entries, i) ==> at[i] == last_place(at, i) + 2
                        && list[at[i] - 1] == catalog_ids::separator_id(entries[i].provider_id)
                    &&& !is_new_provider(entries, i) ==> at[i] == last_place(at, i) + 1
                }
        }),
    decreases n,
{
    if n == 0 {
        Seq::empty()
    } else {
        let last = n - 1;
        let front = catalog_ids::whitelist_ids(entries, ids, last as nat);
        let before = law_each_row_is_whitelisted(entries, ids, last as nat);
        let list = catalog_ids::whitelist_ids(entries, ids, n);
        let at = before.push(list.len() - 1);
        assert(catalog_ids::provider_seen(entries, entries[last].provider_id, last)
            == !is_new_provider(entries, last)) by {
            if !is_new_provider(entries, last) {
                let j = choose|j: int|
                    0 <= j < last && (#[trigger] entries[j]).provider_id
                        == entries[last].provider_id;
                assert(entries[j].provider_id == entries[last].provider_id);
            }
        }
        assert forall|i: int| 0 <= i <= last implies #[trigger] last_place(at, i) == last_place(
            before,
            i,
        ) by {}
        assert forall|i: int| #![trigger at[i]] 0 <= i < n implies {
            &&& 0 <= at[i] < list.len()
            &&& list[at[i]] == ids[i]
            &&& is_new_provider(entries, i) ==> at[i] == last_place(at, i) + 2 && list[at[i] - 1]
                == catalog_ids::separator_id(entries[i].provider_id)
            &&& !is_new_provider(entries, i) ==> at[i] == last_place(at, i) + 1
        } by {
            if i < last {
                assert(at[i] == before[i]);
                assert(last_place(at, i) == last_place(before, i));
                assert(list[at[i]] == front[before[i]]);
                if is_new_provider(entries, i) {
                    assert(0 <= last_place(before, i) + 1) by {
                        if i > 0 {
                            assert(0 <= before[i - 1]);
                        }
                    }
                    assert(list[at[i] - 1] == front[before[i] - 1]);
                }
            }
        }
        at
    }
}

/// The place of the last row before one, or the one before the first place.
pub open spec fn last_place(at: Seq<int>, i: int) -> int {
    if i <= 0 {
        -1
    } else {
        at[i - 1]
    }
}

/// The row above a provider's models has the provider's name between dashes, and is listed; what it
/// does not set is as in the entry below it.
pub proof fn law_what_stands_above_a_provider(
    source: JsonView,
    provider_id: Seq<char>,
    provider_name: Seq<char>,
    priority: u64,
    key: Seq<char>,
)
    requires
        source is Object,
    ensures
        ({
            let entry = routed_catalog::separator_entry(
                source,
                provider_id,
                provider_name,
                priority,
            );
            let name = "------ "@ + text::trim(provider_name) + " ------"@;
            &&& entry.get("model"@) == Some(JsonView::Str(catalog_ids::separator_id(provider_id)))
            &&& entry.get("slug"@) == Some(JsonView::Str(catalog_ids::separator_id(provider_id)))
            &&& entry.get("display_name"@) == Some(JsonView::Str(name))
            &&& entry.get("displayName"@) == Some(JsonView::Str(name))
            &&& entry.get("description"@) == Some(JsonView::Str(name))
            &&& entry_laws::whole(entry.get("priority"@)) == Some(priority)
            &&& entry.get("visibility"@) == Some(JsonView::Str("list"@))
            &&& !catalog_laws::is_second_name(key) && key != "model"@ && key != "slug"@ && key
                != "display_name"@ && key != "description"@ && key != "priority"@ && key
                != "visibility"@ ==> entry.get(key) == source.get(key)
        }),
{
    catalog_laws::lemma_second_names();
    catalog_laws::lemma_first_names();
    catalog_laws::lemma_entry_names();
    reveal_strlit("visibility");
    assert("visibility"@.len() == 10);
    assert("description"@[7] == 't') by {
        reveal_strlit("description");
    }
    let id = JsonView::Str(catalog_ids::separator_id(provider_id));
    let name = JsonView::Str("------ "@ + text::trim(provider_name) + " ------"@);
    let set = source.put("model"@, id).put("slug"@, id).put("display_name"@, name).put(
        "displayName"@,
        name,
    ).put("description"@, name).put("priority"@, catalog_entry::number(priority)).put(
        "visibility"@,
        JsonView::Str("list"@),
    );
    catalog_laws::lemma_aliased_keeps(set, "model"@);
    catalog_laws::lemma_aliased_keeps(set, "slug"@);
    catalog_laws::lemma_aliased_keeps(set, "display_name"@);
    catalog_laws::lemma_aliased_keeps(set, "description"@);
    catalog_laws::lemma_aliased_keeps(set, "priority"@);
    catalog_laws::lemma_aliased_keeps(set, "visibility"@);
    catalog_laws::law_every_field_has_both_names(set, "display_name"@, "displayName"@);
    if !catalog_laws::is_second_name(key) {
        catalog_laws::lemma_aliased_keeps(set, key);
    }
}

/// The models that a vendor publishes are used for its own gateway alone: where it takes responses,
/// the vendor has models, and the address has the vendor's name in it, whatever its case.
pub proof fn law_when_the_vendor_is_asked(
    config: Seq<char>,
    profile: CodexCatalogToolProfile,
    vendor: Seq<JsonView>,
)
    ensures
        routed_catalog::uses_vendor(config, profile, vendor) <==> {
            &&& profile is NativeResponses
            &&& vendor.len() > 0
            &&& toml_value::toml_values(config) is Some
            &&& toml_value::base_url_of(toml_value::toml_values(config)->Some_0) is Some
            &&& text::occurs(
                text::lower(
                    toml_value::base_url_of(toml_value::toml_values(config)->Some_0)->Some_0,
                ),
                "deepseek.com"@,
            )
        },
{
}

/// The context window of a config is the one that it sets, where it is above zero, and else the
/// usual one.
pub proof fn law_the_window_of_a_config(config: Seq<char>, tree: TomlView)
    requires
        toml_value::toml_values(config) == Some(tree),
    ensures
        routed_catalog::config_window(None) == 128_000,
        tree.get("model_context_window"@) matches Some(TomlView::Integer(n)) && n > 0
            ==> routed_catalog::config_window(Some(config)) == tree.get(
            "model_context_window"@,
        )->Some_0->Integer_0,
        !(tree.get("model_context_window"@) matches Some(TomlView::Integer(n)) && n > 0)
            ==> routed_catalog::config_window(Some(config)) == 128_000,
{
}

/// A provider is found by its id, the first that has it.
pub proof fn law_a_provider_is_found(providers: Seq<BoundProvider>, id: Seq<char>, k: int)
    requires
        0 <= k < providers.len(),
        providers[k].id@ == id,
        forall|j: int| 0 <= j < k ==> (#[trigger] providers[j]).id@ != id,
    ensures
        routed_catalog::provider_with(providers, id) == Some(providers[k]),
    decreases providers.len(),
{
    if k > 0 {
        assert(providers[0].id@ != id);
        assert(providers.drop_first()[k - 1] == providers[k]);
        law_a_provider_is_found(providers.drop_first(), id, k - 1);
    }
}

/// A provider that no list has is not found.
pub proof fn law_an_unknown_provider_is_not_found(providers: Seq<BoundProvider>, id: Seq<char>)
    requires
        forall|j: int| 0 <= j < providers.len() ==> (#[trigger] providers[j]).id@ != id,
    ensures
        routed_catalog::provider_with(providers, id) is None,
    decreases providers.len(),
{
    if providers.len() > 0 {
        assert(providers[0].id@ != id);
        law_an_unknown_provider_is_not_found(providers.drop_first(), id);
    }
}

/// What a routed row says of its model: its own name where that says something, and else its public
/// name where the id is another; and what it takes as the row says, or as the model that the upstream
/// is asked for is judged to.
pub proof fn law_what_a_routed_row_says(
    entry: EntryView,
    id: Seq<char>,
    provider: Option<BoundProvider>,
    sources: CatalogSources,
)
    ensures
        ({
            let spec = routed_catalog::routed_spec(entry, id, provider, sources);
            let asked = if entry.upstream_model is Some {
                entry.upstream_model
            } else if provider is Some {
                text::text_of(provider->Some_0.default_model)
            } else {
                None
            };
            &&& spec.model == id
            &&& entry.display_name is Some && !text::is_blank(entry.display_name->Some_0)
                ==> spec.display_name == entry.display_name
            &&& (entry.display_name is None || text::is_blank(entry.display_name->Some_0))
                ==> spec.display_name == (if id == entry.model {
                None
            } else {
                Some(entry.model)
            })
            &&& spec.context_window == entry.context_window
            &&& spec.supports_parallel_tool_calls == entry.supports_parallel_tool_calls
            &&& spec.base_instructions == entry.base_instructions
            &&& entry.input_modalities is Some ==> spec.input_modalities == entry.input_modalities
            &&& entry.input_modalities is None && asked is None ==> spec.input_modalities is None
            &&& entry.input_modalities is None && asked is Some ==> {
                let judged = if provider is Some {
                    provider->Some_0.capabilities.capability(asked->Some_0, None)
                } else {
                    sources.capabilities.capability(asked->Some_0, None)
                };
                spec.input_modalities == Some(
                    if judged is Unsupported {
                        seq!["text"@]
                    } else {
                        seq!["text"@, "image"@]
                    },
                )
            }
        }),
{
}

/// The name above a provider's models is the provider's, where it says something, and else its id.
pub proof fn law_the_name_above_a_provider(entry: EntryView, provider: Option<BoundProvider>)
    ensures
        provider is Some && !text::is_blank(provider->Some_0.name@) ==> routed_catalog::heading_name(
            entry,
            provider,
        ) == text::trim(provider->Some_0.name@),
        provider is None || text::is_blank(provider->Some_0.name@) ==> routed_catalog::heading_name(
            entry,
            provider,
        ) == entry.provider_id,
{
}

/// Whether the templates and the vendor's models are objects, and no template is missing.
pub open spec fn are_at_hand(sources: CatalogSources) -> bool {
    &&& sources.native_template@ is Object
    &&& sources.proxy_template matches ProxyTemplate::Ready(template) && template@ is Object
    &&& forall|k: int|
        0 <= k < json::items_view(sources.vendor_models@).len() ==> (#[trigger] json::items_view(
            sources.vendor_models@,
        )[k]) is Object
}

/// Whether the provider of a row is known, where the providers are.
pub open spec fn is_bound(entry: EntryView, providers: Option<Seq<BoundProvider>>) -> bool {
    providers is None || exists|k: int|
        0 <= k < providers->Some_0.len() && (#[trigger] providers->Some_0[k]).id@
            == entry.provider_id
}

/// Whether no row before one that is bound has its provider.
pub open spec fn is_newly_bound(
    entries: Seq<EntryView>,
    providers: Option<Seq<BoundProvider>>,
    i: int,
) -> bool {
    forall|j: int|
        0 <= j < i && is_bound(#[trigger] entries[j], providers) ==> entries[j].provider_id
            != entries[i].provider_id
}

proof fn lemma_bound(entry: EntryView, providers: Option<Seq<BoundProvider>>)
    ensures
        routed_catalog::bound_to(entry, providers) is Some <==> is_bound(entry, providers),
{
    if providers is Some {
        let list = providers->Some_0;
        if is_bound(entry, providers) {
            let k = choose|k: int|
                0 <= k < list.len() && (#[trigger] list[k]).id@ == entry.provider_id;
            lemma_some_provider(list, entry.provider_id, k);
        } else {
            law_an_unknown_provider_is_not_found(list, entry.provider_id);
        }
    }
}

proof fn lemma_some_provider(providers: Seq<BoundProvider>, id: Seq<char>, k: int)
    requires
        0 <= k < providers.len(),
        providers[k].id@ == id,
    ensures
        routed_catalog::provider_with(providers, id) is Some,
    decreases providers.len(),
{
    if providers[0].id@ != id {
        assert(providers.drop_first()[k - 1] == providers[k]);
        lemma_some_provider(providers.drop_first(), id, k - 1);
    }
}

/// A routed row has the id that it was given, whatever it is made from.
proof fn lemma_routed_id(
    entry: EntryView,
    id: Seq<char>,
    provider: Option<BoundProvider>,
    fallback: CodexCatalogToolProfile,
    config: Seq<char>,
    priority: u64,
    sources: CatalogSources,
)
    requires
        are_at_hand(sources),
    ensures
        routed_catalog::routed_entry(entry, id, provider, fallback, config, priority, sources) matches Ok(
            made,
        ) && made is Object && made.get("slug"@) == Some(JsonView::Str(id)),
{
    reveal(routed_catalog::routed_entry);
    let spec = routed_catalog::routed_spec(entry, id, provider, sources);
    let profile = match provider {
        Some(provider) => provider.profile,
        None => fallback,
    };
    let bound_config = match provider {
        Some(provider) => text::text_of(provider.config),
        None => None,
    };
    let vendor = json::items_view(sources.vendor_models@);
    catalog_laws::law_own_settings_go_before_the_vendor(
        vendor,
        spec,
        priority,
        routed_catalog::capability_model(entry, provider),
        json::option_view(sources.static_template),
    );
    match routed_catalog::template_for(sources, profile) {
        Ok(template) => {
            entry_laws::law_what_a_generated_entry_says(
                template,
                spec,
                priority,
                profile,
                routed_catalog::config_window(
                    match provider {
                        Some(_) => bound_config,
                        None => Some(config),
                    },
                ),
                sources.capabilities.capability(spec.model, spec.input_modalities),
            );
        },
        Err(_) => {},
    }
}

/// A routed row is made for its provider: with the provider's tools, and with the window of the
/// provider's own config where the row gives none; without a provider, for the config at hand.
pub proof fn law_a_routed_row_is_made_for_its_provider(
    entry: EntryView,
    id: Seq<char>,
    provider: Option<BoundProvider>,
    fallback: CodexCatalogToolProfile,
    config: Seq<char>,
    priority: u64,
    sources: CatalogSources,
)
    requires
        are_at_hand(sources),
        provider matches Some(provider) ==> !(provider.config matches Some(bound)
            && routed_catalog::uses_vendor(
            bound@,
            provider.profile,
            json::items_view(sources.vendor_models@),
        )),
    ensures
        ({
            let made = routed_catalog::routed_entry(
                entry,
                id,
                provider,
                fallback,
                config,
                priority,
                sources,
            )->Ok_0;
            let profile = if provider is Some {
                provider->Some_0.profile
            } else {
                fallback
            };
            let window = if provider is Some {
                routed_catalog::config_window(text::text_of(provider->Some_0.config))
            } else {
                routed_catalog::config_window(Some(config))
            };
            &&& entry_laws::whole(made.get("context_window"@)) == Some(
                entry_laws::given_or(entry.context_window, window),
            )
            &&& entry_laws::whole(made.get("priority"@)) == Some(priority)
            &&& entry.display_name is Some && !text::is_blank(entry.display_name->Some_0)
                ==> made.get("display_name"@) == Some(JsonView::Str(entry.display_name->Some_0))
            &&& entry.display_name is None || text::is_blank(entry.display_name->Some_0)
                ==> made.get("display_name"@) == Some(JsonView::Str(entry.model))
            &&& !(profile is ProxyChat) ==> made.get("tools"@) is None && made.get(
                "apply_patch_tool_type"@,
            ) is None
        }),
{
    reveal(routed_catalog::routed_entry);
    let spec = routed_catalog::routed_spec(entry, id, provider, sources);
    let profile = if provider is Some {
        provider->Some_0.profile
    } else {
        fallback
    };
    let window = if provider is Some {
        routed_catalog::config_window(text::text_of(provider->Some_0.config))
    } else {
        routed_catalog::config_window(Some(config))
    };
    let capability = sources.capabilities.capability(spec.model, spec.input_modalities);
    let template = routed_catalog::template_for(sources, profile)->Ok_0;
    entry_laws::law_what_a_generated_entry_says(
        template,
        spec,
        priority,
        profile,
        window,
        capability,
    );
    if !(profile is ProxyChat) {
        catalog_laws::law_native_entries_offer_no_freeform_tools(
            template,
            spec,
            priority,
            profile,
            window,
            capability,
        );
    }
}

/// A catalog of routed rows has each row whose provider is known, under its id and in their order,
/// with the row above a provider just before the first of its rows, and nothing else. `at` are the
/// places of the rows; a row whose provider is not known has that of the row before it.
pub proof fn law_each_routed_row_is_listed(
    entries: Seq<EntryView>,
    ids: Seq<Seq<char>>,
    providers: Option<Seq<BoundProvider>>,
    fallback: CodexCatalogToolProfile,
    config: Seq<char>,
    sources: CatalogSources,
    n: nat,
) -> (at: Seq<int>)
    requires
        n <= entries.len(),
        ids.len() == entries.len(),
        are_at_hand(sources),
    ensures
        ({
            let made = routed_catalog::routed_entries(
                entries,
                ids,
                providers,
                fallback,
                config,
                sources,
                n,
            );
            let list = made->Ok_0;
            &&& made is Ok
            &&& at.len() == n
            &&& list.len() == last_place(at, n as int) + 1
            &&& forall|i: int|
                0 <= i < n ==> is_listed(list, entries, ids, providers, #[trigger] at[i], last_place(at, i), i)
        }),
    decreases n,
{
    if n == 0 {
        Seq::empty()
    } else {
        let last = n - 1;
        let before = law_each_routed_row_is_listed(
            entries,
            ids,
            providers,
            fallback,
            config,
            sources,
            last as nat,
        );
        let front = routed_catalog::routed_entries(
            entries,
            ids,
            providers,
            fallback,
            config,
            sources,
            last as nat,
        )->Ok_0;
        let list = routed_catalog::routed_entries(
            entries,
            ids,
            providers,
            fallback,
            config,
            sources,
            n,
        )->Ok_0;
        lemma_bound(entries[last], providers);
        let first = !routed_catalog::heading_written(
            entries,
            providers,
            entries[last].provider_id,
            last,
        );
        assert(first == is_newly_bound(entries, providers, last)) by {
            assert forall|j: int| routed_catalog::bound_to(#[trigger] entries[j], providers) is Some
                == is_bound(entries[j], providers) by {
                lemma_bound(entries[j], providers);
            }
        }
        if is_bound(entries[last], providers) {
            let provider = routed_catalog::bound_to(entries[last], providers)->Some_0;
            let place = front.len() + if first {
                1nat
            } else {
                0nat
            };
            lemma_routed_id(
                entries[last],
                ids[last],
                provider,
                fallback,
                config,
                catalog_entry::place_of(place),
                sources,
            );
            let entry = routed_catalog::routed_entry(
                entries[last],
                ids[last],
                provider,
                fallback,
                config,
                catalog_entry::place_of(place),
                sources,
            )->Ok_0;
            law_what_stands_above_a_provider(
                entry,
                entries[last].provider_id,
                routed_catalog::heading_name(entries[last], provider),
                catalog_entry::place_of(front.len()),
                "slug"@,
            );
        }
        let at = before.push(list.len() - 1);
        assert forall|i: int| 0 <= i <= last implies #[trigger] last_place(at, i) == last_place(
            before,
            i,
        ) by {}
        assert(last_place(at, last) == front.len() - 1);
        assert forall|i: int| 0 <= i < n implies is_listed(
            list,
            entries,
            ids,
            providers,
            #[trigger] at[i],
            last_place(at, i),
            i,
        ) by {
            if i < last {
                assert(at[i] == before[i]);
                assert(last_place(at, i) == last_place(before, i));
                assert(is_listed(
                    front,
                    entries,
                    ids,
                    providers,
                    before[i],
                    last_place(before, i),
                    i,
                ));
            }
        }
        at
    }
}

/// Whether a row whose provider is known is listed at a place just behind the one before it, with a
/// row above where it is the first of its provider, and one whose provider is not is left out.
pub open spec fn is_listed(
    list: Seq<JsonView>,
    entries: Seq<EntryView>,
    ids: Seq<Seq<char>>,
    providers: Option<Seq<BoundProvider>>,
    place: int,
    before: int,
    i: int,
) -> bool {
    let new = is_newly_bound(entries, providers, i);
    &&& !is_bound(entries[i], providers) ==> place == before
    &&& is_bound(entries[i], providers) ==> {
        &&& 0 <= place < list.len()
        &&& list[place].get("slug"@) == Some(JsonView::Str(ids[i]))
        &&& place == before + if new {
            2int
        } else {
            1int
        }
        &&& new ==> place > 0 && list[place - 1].get("slug"@) == Some(
            JsonView::Str(catalog_ids::separator_id(entries[i].provider_id)),
        )
    }
}

/// Which catalog the settings of a provider ask for: the routed rows, without the official login; no
/// catalog of its own, with it, as the rows then join the official ones; its own models, where there
/// are no rows; and none where it names none.
pub proof fn law_which_catalog_is_made(
    settings: JsonView,
    slots: SlotTable,
    config: Seq<char>,
    profile: CodexCatalogToolProfile,
    providers: Option<Seq<BoundProvider>>,
    sources: CatalogSources,
    i: int,
)
    requires
        are_at_hand(sources),
    ensures
        ({
            let made = catalog::catalog_for(settings, slots, config, profile, providers, sources);
            let rows = model_specs::custom_entries(settings, slots);
            let specs = model_specs::catalog_specs(settings);
            &&& made is Ok
            &&& rows.len() > 0 && model_specs::official_login(settings) ==> made->Ok_0 is None
            &&& rows.len() == 0 && specs.len() == 0 ==> made->Ok_0 is None
            &&& rows.len() > 0 && !model_specs::official_login(settings) ==> made->Ok_0 is Some
                && made->Ok_0->Some_0.get("models"@) == Some(
                JsonView::Array(
                    routed_catalog::routed_entries(
                        rows,
                        catalog_ids::catalog_ids(rows, slots),
                        providers,
                        CodexCatalogToolProfile::NativeResponses,
                        config,
                        sources,
                        rows.len(),
                    )->Ok_0,
                ),
            )
            &&& rows.len() == 0 && 0 <= i < specs.len() <= u64::MAX - 1000 ==> made->Ok_0 is Some
                && (made->Ok_0->Some_0.get("models"@) matches Some(JsonView::Array(models))
                && models.len() == specs.len() && models[i].get("slug"@) == Some(
                JsonView::Str(specs[i].model),
            ))
        }),
{
    let rows = model_specs::custom_entries(settings, slots);
    let specs = model_specs::catalog_specs(settings);
    let places = law_each_routed_row_is_listed(
        rows,
        catalog_ids::catalog_ids(rows, slots),
        providers,
        CodexCatalogToolProfile::NativeResponses,
        config,
        sources,
        rows.len(),
    );
    if 0 <= i < specs.len() <= u64::MAX - 1000 {
        entry_laws::law_a_catalog_has_each_model(
            specs,
            routed_catalog::template_for(sources, profile)->Ok_0,
            profile,
            routed_catalog::config_window(Some(config)),
            sources.capabilities,
            json::items_view(sources.vendor_models@),
            json::option_view(sources.static_template),
            i,
        );
    }
}

/// Which template an entry is made from: the proxy's own for what the proxy converts, where it is
/// there, and the native one for any other gateway.
pub proof fn law_which_template_is_used(sources: CatalogSources, profile: CodexCatalogToolProfile)
    ensures
        profile is ProxyChat && sources.proxy_template is Failed ==> routed_catalog::template_for(
            sources,
            profile,
        ) == Err::<JsonView, ErrorView>(sources.proxy_template->Failed_0@),
        profile is ProxyChat && sources.proxy_template is Ready ==> routed_catalog::template_for(
            sources,
            profile,
        ) == Ok::<JsonView, ErrorView>(sources.proxy_template->Ready_0@),
        !(profile is ProxyChat) ==> routed_catalog::template_for(sources, profile) == Ok::<
            JsonView,
            ErrorView,
        >(sources.native_template@),
{
}

/// What a model takes is told by the first row for it and for what is declared of it, and is not
/// known without one.
pub proof fn law_the_first_judgement_counts(
    rows: Seq<CapabilityRow>,
    model: Seq<char>,
    declared: Option<Seq<Seq<char>>>,
    k: int,
)
    requires
        0 <= k <= rows.len(),
        forall|j: int|
            0 <= j < k ==> !((#[trigger] rows[j]).model@ == model && model_specs::list_of(
                rows[j].declared,
            ) == declared),
        k < rows.len() ==> rows[k].model@ == model && model_specs::list_of(rows[k].declared)
            == declared,
    ensures
        k < rows.len() ==> routed_catalog::capability_in(rows, model, declared)
            == rows[k].capability,
        k == rows.len() ==> routed_catalog::capability_in(rows, model, declared) is Unknown,
    decreases rows.len(),
{
    if k > 0 {
        assert(!(rows[0].model@ == model && model_specs::list_of(rows[0].declared) == declared));
        let rest = rows.drop_first();
        assert forall|j: int| 0 <= j < k - 1 implies !((#[trigger] rest[j]).model@ == model
            && model_specs::list_of(rest[j].declared) == declared) by {
            assert(rest[j] == rows[j + 1]);
        }
        law_the_first_judgement_counts(rest, model, declared, k - 1);
    }
}

/// The one entry for a model that only a config names is for that model, and stands first.
pub proof fn law_a_configured_model_has_its_entry(
    model: Seq<char>,
    profile: CodexCatalogToolProfile,
    config: Seq<char>,
    sources: CatalogSources,
)
    requires
        are_at_hand(sources),
    ensures
        catalog::single_entry(model, profile, config, sources) matches Some(entry) && {
            &&& entry.get("slug"@) == Some(JsonView::Str(model))
            &&& entry.get("display_name"@) == Some(JsonView::Str(model))
            &&& entry_laws::whole(entry.get("priority"@)) == Some(1000u64)
            &&& entry_laws::whole(entry.get("context_window"@)) == Some(
                routed_catalog::config_window(Some(config)),
            )
        },
{
    entry_laws::law_what_a_generated_entry_says(
        routed_catalog::template_for(sources, profile)->Ok_0,
        catalog::bare_spec(model),
        1000,
        profile,
        routed_catalog::config_window(Some(config)),
        sources.capabilities.capability(model, None),
    );
}

} // verus!
