//! The ids that routed models have in the model picker.
//!
//! The picker knows a model by its id alone, so two rows with one public name
//! cannot both be chosen. Every row is kept, and all but one of those that
//! share a name get an id that also names their provider.

use crate::model_specs::{
    codex_custom_model_entries, CodexCustomModelEntry, EntryView, SlotTable,
};
use crate::json::{Json, JsonView};
use crate::text::{chars_of, decimal_text, hex_text, str_eq, string_of};
use crate::{model_specs, text};
use vstd::prelude::*;
use vstd::string::*;
use vstd::utf8::*;

verus! {

/// A character of a provider id as it stands in a model id.
pub open spec fn id_char(c: char) -> char {
    if ('a' <= c && c <= 'z') || ('0' <= c && c <= '9') {
        c
    } else if 'A' <= c && c <= 'Z' {
        text::lower_char(c)
    } else {
        '-'
    }
}

/// A text without the dashes at its start.
pub open spec fn trim_dashes_start(s: Seq<char>) -> Seq<char>
    decreases s.len(),
{
    if s.len() > 0 && s.first() == '-' {
        trim_dashes_start(s.drop_first())
    } else {
        s
    }
}

/// A text without the dashes at its end.
pub open spec fn trim_dashes_end(s: Seq<char>) -> Seq<char>
    decreases s.len(),
{
    if s.len() > 0 && s.last() == '-' {
        trim_dashes_end(s.drop_last())
    } else {
        s
    }
}

/// The readable part of a provider id.
pub open spec fn id_suffix(provider_id: Seq<char>) -> Seq<char> {
    let cleaned = trim_dashes_end(
        trim_dashes_start(provider_id.map_values(|c: char| id_char(c))),
    );
    if cleaned.len() == 0 {
        "provider"@
    } else {
        cleaned
    }
}

/// Where the 64-bit FNV-1a hash starts.
pub const FNV_OFFSET: u64 = 0xcbf2_9ce4_8422_2325;

/// The 64-bit FNV-1a hash of some bytes.
pub open spec fn fnv1a(bytes: Seq<u8>) -> u64
    decreases bytes.len(),
{
    if bytes.len() == 0 {
        FNV_OFFSET
    } else {
        (fnv1a(bytes.drop_last()) ^ (bytes.last() as u64)).wrapping_mul(0x0000_0100_0000_01b3)
    }
}

/// The hash of a provider id.
pub open spec fn id_hash(provider_id: Seq<char>) -> u64 {
    fnv1a(encode_utf8(provider_id))
}

/// The readable part of a provider id, and its hash.
pub fn codex_provider_id_parts(provider_id: &str) -> (r: (String, u64))
    ensures
        r.0@ == id_suffix(provider_id@),
        r.1 == id_hash(provider_id@),
{
    let chars = chars_of(provider_id);
    let ghost mapped = provider_id@.map_values(|c: char| id_char(c));
    let mut cleaned: Vec<char> = Vec::new();
    let mut i: usize = 0;
    while i < chars.len()
        invariant
            chars@ == provider_id@,
            i <= chars@.len(),
            mapped == provider_id@.map_values(|c: char| id_char(c)),
            cleaned@ =~= mapped.take(i as int),
        decreases chars@.len() - i,
    {
        let c = chars[i];
        let kept = if ('a' <= c && c <= 'z') || ('0' <= c && c <= '9') {
            c
        } else if 'A' <= c && c <= 'Z' {
            (c as u8 + 32) as char
        } else {
            '-'
        };
        assert(kept == id_char(c));
        cleaned.push(kept);
        i += 1;
    }
    assert(cleaned@ =~= mapped);
    let mut from: usize = 0;
    assert(mapped.skip(0) =~= mapped);
    while from < cleaned.len() && cleaned[from] == '-'
        invariant
            cleaned@ == mapped,
            from <= cleaned@.len(),
            trim_dashes_start(mapped.skip(from as int)) == trim_dashes_start(mapped),
        decreases cleaned@.len() - from,
    {
        assert(mapped.skip(from as int).drop_first() =~= mapped.skip(from + 1));
        from += 1;
    }
    let ghost rest = trim_dashes_start(mapped);
    assert(rest == mapped.skip(from as int));
    let mut to: usize = cleaned.len();
    assert(mapped.subrange(from as int, to as int) =~= rest);
    while to > from && cleaned[to - 1] == '-'
        invariant
            cleaned@ == mapped,
            from <= to <= cleaned@.len(),
            trim_dashes_end(mapped.subrange(from as int, to as int)) == trim_dashes_end(rest),
        decreases to,
    {
        assert(mapped.subrange(from as int, to as int).drop_last() =~= mapped.subrange(
            from as int,
            to - 1,
        ));
        to -= 1;
    }
    let suffix = if from == to {
        "provider".to_owned()
    } else {
        string_of(&cleaned, from, to)
    };
    let bytes = provider_id.as_bytes();
    let mut hash: u64 = FNV_OFFSET;
    let mut j: usize = 0;
    while j < bytes.len()
        invariant
            j <= bytes@.len(),
            hash == fnv1a(bytes@.take(j as int)),
        decreases bytes@.len() - j,
    {
        assert(bytes@.take(j + 1).drop_last() =~= bytes@.take(j as int));
        hash = (hash ^ (bytes[j] as u64)).wrapping_mul(0x0000_0100_0000_01b3);
        j += 1;
    }
    assert(bytes@.take(j as int) =~= bytes@);
    (suffix, hash)
}

/// The id of the row that stands above a provider's models. It depends on nothing but the
/// provider, so that every list that has the row has it under one id.
pub open spec fn separator_id(provider_id: Seq<char>) -> Seq<char> {
    "cc-switch-provider-divider-"@ + id_suffix(provider_id) + "-"@ + text::hex(
        id_hash(provider_id) as nat,
        16,
    )
}

/// The id of the row that stands above a provider's models.
pub fn codex_provider_separator_model_id(provider_id: &str) -> (r: String)
    ensures
        r@ == separator_id(provider_id@),
{
    let (suffix, hash) = codex_provider_id_parts(provider_id);
    let mut out = "cc-switch-provider-divider-".to_owned();
    out.push_str(suffix.as_str());
    out.push_str("-");
    out.push_str(hex_text(hash).as_str());
    out
}

/// Whether two rows share a slot.
pub open spec fn same_slot(entries: Seq<EntryView>, slots: SlotTable, i: int, j: int) -> bool {
    slots.slot(entries[i].model) == slots.slot(entries[j].model)
}

/// Whether the slot of a row is shared by rows of another provider.
pub open spec fn is_shared(entries: Seq<EntryView>, slots: SlotTable, i: int) -> bool {
    exists|j: int|
        0 <= j < entries.len() && #[trigger] same_slot(entries, slots, i, j)
            && entries[j].provider_id != entries[i].provider_id
}

/// Whether no other row of the same provider has the slot of a row.
pub open spec fn is_alone(entries: Seq<EntryView>, slots: SlotTable, i: int) -> bool {
    forall|j: int|
        0 <= j < entries.len() && #[trigger] same_slot(entries, slots, i, j)
            && entries[j].provider_id == entries[i].provider_id ==> j == i
}

/// Whether no earlier row has the slot of a row.
pub open spec fn is_first(entries: Seq<EntryView>, slots: SlotTable, i: int) -> bool {
    forall|j: int| 0 <= j < i ==> !#[trigger] same_slot(entries, slots, i, j)
}

/// How many of the first `n` rows have the slot and the provider of row `i`.
pub open spec fn occurrences(entries: Seq<EntryView>, slots: SlotTable, i: int, n: nat) -> nat
    decreases n,
{
    if n == 0 {
        0
    } else {
        let j = n - 1;
        occurrences(entries, slots, i, j as nat) + if same_slot(entries, slots, i, j)
            && entries[j].provider_id == entries[i].provider_id {
            1nat
        } else {
            0nat
        }
    }
}

/// Whether a row keeps its public name as its id: where no other row has its slot, or where it is
/// the first of those that share it across providers.
pub open spec fn keeps_name(entries: Seq<EntryView>, slots: SlotTable, i: int) -> bool {
    if is_shared(entries, slots, i) {
        is_first(entries, slots, i)
    } else {
        is_alone(entries, slots, i)
    }
}

/// The id of a row that shares its public name.
pub open spec fn qualified_id(
    model: Seq<char>,
    provider_id: Seq<char>,
    occurrence: nat,
) -> Seq<char> {
    model + "--cc-switch-provider-"@ + id_suffix(provider_id) + "-"@ + text::hex(
        id_hash(provider_id) as nat,
        16,
    ) + "-"@ + text::decimal(occurrence)
}

/// The id of a row.
pub open spec fn catalog_id(entries: Seq<EntryView>, slots: SlotTable, i: int) -> Seq<char> {
    if keeps_name(entries, slots, i) {
        entries[i].model
    } else {
        qualified_id(
            entries[i].model,
            entries[i].provider_id,
            occurrences(entries, slots, i, (i + 1) as nat),
        )
    }
}

/// The ids of all rows.
pub open spec fn catalog_ids(entries: Seq<EntryView>, slots: SlotTable) -> Seq<Seq<char>> {
    Seq::new(entries.len(), |i: int| catalog_id(entries, slots, i))
}

/// The ids of all rows. Display names stay as they are.
pub fn codex_custom_catalog_model_ids(
    entries: &Vec<CodexCustomModelEntry>,
    slots: &SlotTable,
) -> (r: Vec<String>)
    ensures
        text::texts(r@) == catalog_ids(model_specs::entries_view(entries@), *slots),
{
    let ghost views = model_specs::entries_view(entries@);
    let mut row_slots: Vec<String> = Vec::new();
    let mut n: usize = 0;
    while n < entries.len()
        invariant
            n <= entries@.len(),
            row_slots@.len() == n,
            views == model_specs::entries_view(entries@),
            forall|j: int|
                0 <= j < n ==> (#[trigger] row_slots@[j])@ == slots.slot(views[j].model),
        decreases entries@.len() - n,
    {
        assert(views[n as int] == entries@[n as int]@);
        row_slots.push(slots.slot_of(entries[n].model.as_str()));
        n += 1;
    }
    let mut ids: Vec<String> = Vec::new();
    let mut i: usize = 0;
    while i < entries.len()
        invariant
            i <= entries@.len(),
            views == model_specs::entries_view(entries@),
            row_slots@.len() == entries@.len(),
            forall|j: int|
                0 <= j < entries@.len() ==> (#[trigger] row_slots@[j])@ == slots.slot(
                    views[j].model,
                ),
            ids@.len() == i,
            forall|j: int|
                0 <= j < i ==> (#[trigger] ids@[j])@ == catalog_id(views, *slots, j),
        decreases entries@.len() - i,
    {
        let id = row_id(entries, slots, &row_slots, i);
        ids.push(id);
        i += 1;
    }
    assert(text::texts(ids@) =~= catalog_ids(views, *slots));
    ids
}

/// The id of one row.
fn row_id(
    entries: &Vec<CodexCustomModelEntry>,
    slots: &SlotTable,
    row_slots: &Vec<String>,
    i: usize,
) -> (r: String)
    requires
        i < entries@.len(),
        row_slots@.len() == entries@.len(),
        forall|j: int|
            0 <= j < entries@.len() ==> (#[trigger] row_slots@[j])@ == slots.slot(
                model_specs::entries_view(entries@)[j].model,
            ),
    ensures
        r@ == catalog_id(model_specs::entries_view(entries@), *slots, i as int),
{
    let ghost views = model_specs::entries_view(entries@);
    let mut shared = false;
    let mut alone = true;
    let mut first = true;
    let mut occurrence: usize = 0;
    let mut j: usize = 0;
    assert(views[i as int] == entries@[i as int]@);
    while j < entries.len()
        invariant
            i < entries@.len(),
            j <= entries@.len(),
            views == model_specs::entries_view(entries@),
            views[i as int] == entries@[i as int]@,
            row_slots@.len() == entries@.len(),
            forall|k: int|
                0 <= k < entries@.len() ==> (#[trigger] row_slots@[k])@ == slots.slot(
                    views[k].model,
                ),
            shared == exists|k: int|
                0 <= k < j && #[trigger] same_slot(views, *slots, i as int, k)
                    && views[k].provider_id != views[i as int].provider_id,
            alone == forall|k: int|
                0 <= k < j && #[trigger] same_slot(views, *slots, i as int, k)
                    && views[k].provider_id == views[i as int].provider_id ==> k == i,
            first == forall|k: int|
                0 <= k < j && k < i ==> !#[trigger] same_slot(views, *slots, i as int, k),
            occurrence <= j,
            j <= i ==> occurrence == occurrences(views, *slots, i as int, j as nat),
            j > i ==> occurrence == occurrences(views, *slots, i as int, (i + 1) as nat),
        decreases entries@.len() - j,
    {
        assert(views[j as int] == entries@[j as int]@);
        assert(row_slots@[j as int]@ == slots.slot(views[j as int].model));
        assert(row_slots@[i as int]@ == slots.slot(views[i as int].model));
        let same = str_eq(row_slots[i].as_str(), row_slots[j].as_str());
        assert(same == same_slot(views, *slots, i as int, j as int));
        let same_provider = str_eq(entries[i].provider_id.as_str(), entries[j].provider_id.as_str());
        let ghost shared_before = shared;
        if same {
            if same_provider {
                if j != i {
                    alone = false;
                }
                if j <= i {
                    occurrence += 1;
                }
            } else {
                shared = true;
            }
            if j < i {
                first = false;
            }
        }
        proof {
            if shared_before {
                let k = choose|k: int|
                    0 <= k < j && #[trigger] same_slot(views, *slots, i as int, k)
                        && views[k].provider_id != views[i as int].provider_id;
                assert(same_slot(views, *slots, i as int, k));
            }
        }
        j += 1;
    }
    assert(shared == is_shared(views, *slots, i as int));
    assert(alone == is_alone(views, *slots, i as int));
    assert(first == is_first(views, *slots, i as int));
    if (shared && first) || (!shared && alone) {
        return entries[i].model.clone();
    }
    let (suffix, hash) = codex_provider_id_parts(entries[i].provider_id.as_str());
    let mut out = entries[i].model.clone();
    out.push_str("--cc-switch-provider-");
    out.push_str(suffix.as_str());
    out.push_str("-");
    out.push_str(hex_text(hash).as_str());
    out.push_str("-");
    out.push_str(decimal_text(occurrence as u64).as_str());
    out
}

/// Whether a provider has a row among the first `n`.
pub open spec fn provider_seen(entries: Seq<EntryView>, provider_id: Seq<char>, n: int) -> bool {
    exists|j: int| 0 <= j < n && (#[trigger] entries[j]).provider_id == provider_id
}

/// The ids for the picker's list of allowed models: of each provider's separating row, ahead of its
/// first model, and of every model.
pub open spec fn whitelist_ids(
    entries: Seq<EntryView>,
    ids: Seq<Seq<char>>,
    n: nat,
) -> Seq<Seq<char>>
    decreases n,
{
    if n == 0 {
        Seq::empty()
    } else {
        let i = n - 1;
        let front = whitelist_ids(entries, ids, i as nat);
        if provider_seen(entries, entries[i].provider_id, i) {
            front.push(ids[i])
        } else {
            front.push(separator_id(entries[i].provider_id)).push(ids[i])
        }
    }
}

/// The ids for the picker's list of allowed models.
pub open spec fn whitelist(settings: JsonView, slots: SlotTable) -> Seq<Seq<char>> {
    let entries = model_specs::custom_entries(settings, slots);
    whitelist_ids(entries, catalog_ids(entries, slots), entries.len())
}

/// The ids for the picker's list of allowed models.
pub fn codex_custom_catalog_whitelist_model_ids(settings: &Json, slots: &SlotTable) -> (r: Vec<
    String,
>)
    ensures
        text::texts(r@) == whitelist(settings@, *slots),
{
    let entries = codex_custom_model_entries(settings, slots);
    let ids = codex_custom_catalog_model_ids(&entries, slots);
    let ghost views = model_specs::entries_view(entries@);
    let ghost all = catalog_ids(views, *slots);
    let mut out: Vec<String> = Vec::new();
    let mut i: usize = 0;
    assert(text::texts(out@) =~= Seq::<Seq<char>>::empty());
    assert(text::texts(ids@).len() == ids@.len());
    while i < entries.len()
        invariant
            i <= entries@.len(),
            views == model_specs::entries_view(entries@),
            ids@.len() == entries@.len(),
            text::texts(ids@) == all,
            text::texts(out@) == whitelist_ids(views, all, i as nat),
        decreases entries@.len() - i,
    {
        assert(views[i as int] == entries@[i as int]@);
        assert(all[i as int] == ids@[i as int]@);
        let ghost before = text::texts(out@);
        if !has_provider(&entries, entries[i].provider_id.as_str(), i) {
            out.push(codex_provider_separator_model_id(entries[i].provider_id.as_str()));
            assert(text::texts(out@) =~= before.push(separator_id(views[i as int].provider_id)));
        }
        let ghost middle = text::texts(out@);
        out.push(ids[i].clone());
        assert(text::texts(out@) =~= middle.push(all[i as int]));
        i += 1;
    }
    out
}

/// Whether a provider has a row among the first `n`.
pub(crate) fn has_provider(
    entries: &Vec<CodexCustomModelEntry>,
    provider_id: &str,
    n: usize,
) -> (r: bool)
    requires
        n <= entries@.len(),
    ensures
        r == provider_seen(model_specs::entries_view(entries@), provider_id@, n as int),
{
    let ghost views = model_specs::entries_view(entries@);
    let mut j: usize = 0;
    while j < n
        invariant
            n <= entries@.len(),
            j <= n,
            views == model_specs::entries_view(entries@),
            forall|k: int| 0 <= k < j ==> (#[trigger] views[k]).provider_id != provider_id@,
        decreases n - j,
    {
        assert(views[j as int] == entries@[j as int]@);
        if str_eq(entries[j].provider_id.as_str(), provider_id) {
            return true;
        }
        j += 1;
    }
    false
}

/// A row whose slot no other row has keeps its public name as its id, and so does the first of
/// those that share a slot across providers.
pub proof fn law_single_row_keeps_its_name(entries: Seq<EntryView>, slots: SlotTable, i: int)
    requires
        0 <= i < entries.len(),
        forall|j: int|
            0 <= j < entries.len() && #[trigger] same_slot(entries, slots, i, j) ==> j == i,
    ensures
        catalog_ids(entries, slots)[i] == entries[i].model,
{
}

/// Counting more rows never counts fewer occurrences.
proof fn lemma_occurrences_grow(entries: Seq<EntryView>, slots: SlotTable, i: int, a: nat, b: nat)
    requires
        a <= b,
    ensures
        occurrences(entries, slots, i, a) <= occurrences(entries, slots, i, b),
    decreases b,
{
    if a < b {
        lemma_occurrences_grow(entries, slots, i, a, (b - 1) as nat);
    }
}

/// Rows with one slot and one provider count the same occurrences.
proof fn lemma_occurrences_same(
    entries: Seq<EntryView>,
    slots: SlotTable,
    i: int,
    j: int,
    n: nat,
)
    requires
        same_slot(entries, slots, i, j),
        entries[i].provider_id == entries[j].provider_id,
    ensures
        occurrences(entries, slots, i, n) == occurrences(entries, slots, j, n),
    decreases n,
{
    if n > 0 {
        lemma_occurrences_same(entries, slots, i, j, (n - 1) as nat);
    }
}

/// The two ids of one public name differ: two rows that share a name can be told apart in the
/// picker, as long as their providers are one or have different hashes.
pub proof fn law_rows_with_one_name_have_different_ids(
    entries: Seq<EntryView>,
    slots: SlotTable,
    i: int,
    j: int,
)
    requires
        0 <= i < j < entries.len(),
        entries[i].model == entries[j].model,
        entries[i].provider_id == entries[j].provider_id || id_hash(entries[i].provider_id)
            != id_hash(entries[j].provider_id),
    ensures
        catalog_ids(entries, slots)[i] != catalog_ids(entries, slots)[j],
{
    assert(same_slot(entries, slots, i, j));
    assert(same_slot(entries, slots, j, i));
    assert(!keeps_name(entries, slots, j));
    let a = entries[i].provider_id;
    let b = entries[j].provider_id;
    let m = entries[i].model;
    let na = occurrences(entries, slots, i, (i + 1) as nat);
    let nb = occurrences(entries, slots, j, (j + 1) as nat);
    let tail_b = "--cc-switch-provider-"@ + id_suffix(b) + "-"@ + text::hex(
        id_hash(b) as nat,
        16,
    ) + "-"@ + text::decimal(nb);
    text::lemma_decimal_len(nb);
    assert(qualified_id(m, b, nb) =~= m + tail_b);
    if keeps_name(entries, slots, i) {
        assert(tail_b.len() > 0);
        assert(qualified_id(m, b, nb).len() > m.len());
    } else if qualified_id(m, a, na) == qualified_id(m, b, nb) {
        lemma_qualified_parts(m, a, na, b, nb);
        if a == b {
            lemma_occurrences_same(entries, slots, i, j, (j + 1) as nat);
            lemma_occurrences_grow(entries, slots, i, (i + 1) as nat, j as nat);
            assert(occurrences(entries, slots, i, (j + 1) as nat) == occurrences(
                entries,
                slots,
                i,
                j as nat,
            ) + 1);
        }
    }
}

/// The hash and the number can be read off a qualified id.
proof fn lemma_qualified_parts(
    model: Seq<char>,
    a: Seq<char>,
    na: nat,
    b: Seq<char>,
    nb: nat,
)
    requires
        qualified_id(model, a, na) == qualified_id(model, b, nb),
    ensures
        na == nb,
        id_hash(a) == id_hash(b),
{
    let da = text::decimal(na);
    let db = text::decimal(nb);
    let ha = text::hex(id_hash(a) as nat, 16);
    let hb = text::hex(id_hash(b) as nat, 16);
    let whole = qualified_id(model, a, na);
    let fa = model + "--cc-switch-provider-"@ + id_suffix(a) + "-"@;
    let fb = model + "--cc-switch-provider-"@ + id_suffix(b) + "-"@;
    reveal_strlit("-");
    assert("-"@.len() == 1);
    assert("-"@[0] == '-');
    text::lemma_decimal_len(na);
    text::lemma_decimal_len(nb);
    text::lemma_hex_len(id_hash(a) as nat, 16);
    text::lemma_hex_len(id_hash(b) as nat, 16);
    assert(whole =~= fa + ha + "-"@ + da);
    assert(whole =~= fb + hb + "-"@ + db);
    let n = whole.len() as int;
    if da.len() < db.len() {
        assert(whole[n - 1 - da.len()] == '-');
        assert(whole[n - 1 - da.len()] == db[db.len() - 1 - da.len()]);
    }
    if db.len() < da.len() {
        assert(whole[n - 1 - db.len()] == '-');
        assert(whole[n - 1 - db.len()] == da[da.len() - 1 - db.len()]);
    }
    assert(da =~= whole.subrange(n - da.len(), n));
    assert(db =~= whole.subrange(n - db.len(), n));
    text::lemma_decimal_injective(na, nb);
    let m = n - da.len() - 1;
    assert(ha =~= whole.subrange(m - 16, m));
    assert(hb =~= whole.subrange(m - 16, m));
    lemma_hash_injective(id_hash(a), id_hash(b));
}

/// One step of the hash tells hashes, and values, apart: its factor is odd, so it can be undone.
pub proof fn lemma_step_injective(a: u64, b: u64, x: u64, y: u64)
    ensures
        a != b ==> (a ^ x).wrapping_mul(0x0000_0100_0000_01b3) != (b ^ x).wrapping_mul(
            0x0000_0100_0000_01b3,
        ),
        x != y ==> (a ^ x).wrapping_mul(0x0000_0100_0000_01b3) != (a ^ y).wrapping_mul(
            0x0000_0100_0000_01b3,
        ),
{
    lemma_factor_undone(a ^ x);
    lemma_factor_undone(b ^ x);
    lemma_factor_undone(a ^ y);
    assert(a != b ==> a ^ x != b ^ x) by (bit_vector);
    assert(x != y ==> a ^ x != a ^ y) by (bit_vector);
}

/// A number times the factor of the hash, taken modulo the size of the hash, times the inverse of
/// the factor, is that number.
proof fn lemma_factor_undone(n: u64)
    ensures
        n.wrapping_mul(0x0000_0100_0000_01b3).wrapping_mul(0xce96_5057_aff6_957b) == n,
{
    let size: int = 0x1_0000_0000_0000_0000;
    let factor: int = 0x0000_0100_0000_01b3;
    let inverse: int = 0xce96_5057_aff6_957b;
    let turns: int = 887285111055;
    let m = n as int;
    assert(factor * inverse == 1 + turns * size);
    vstd::arithmetic::div_mod::lemma_mul_mod_noop_left(m * factor, inverse, size);
    assert((m * factor) * inverse == m + (m * turns) * size) by (nonlinear_arith)
        requires
            factor * inverse == 1 + turns * size,
    ;
    vstd::arithmetic::div_mod::lemma_mod_multiples_vanish(m * turns, m, size);
    assert(size * (m * turns) + m == m + (m * turns) * size) by (nonlinear_arith);
    vstd::arithmetic::div_mod::lemma_small_mod(n as nat, size as nat);
}

/// Hashes have the same digits only where they are the same.
pub proof fn lemma_hash_injective(a: u64, b: u64)
    requires
        text::hex(a as nat, 16) == text::hex(b as nat, 16),
    ensures
        a == b,
{
    assert(vstd::arithmetic::power::pow(16, 16) == 0x1_0000_0000_0000_0000) by {
        reveal_with_fuel(vstd::arithmetic::power::pow, 17);
    }
    text::lemma_hex_injective(a as nat, b as nat, 16);
}

/// The separating rows of two providers have different ids, as long as their hashes differ.
pub proof fn law_separators_differ(a: Seq<char>, b: Seq<char>)
    requires
        id_hash(a) != id_hash(b),
    ensures
        separator_id(a) != separator_id(b),
{
    let sa = separator_id(a);
    let sb = separator_id(b);
    let ha = text::hex(id_hash(a) as nat, 16);
    let hb = text::hex(id_hash(b) as nat, 16);
    text::lemma_hex_len(id_hash(a) as nat, 16);
    text::lemma_hex_len(id_hash(b) as nat, 16);
    assert(ha =~= sa.subrange(sa.len() - 16, sa.len() as int));
    assert(hb =~= sb.subrange(sb.len() - 16, sb.len() as int));
    if sa == sb {
        lemma_hash_injective(id_hash(a), id_hash(b));
    }
}

/// Two runs of bytes that differ in one byte have different hashes.
proof fn lemma_one_byte(a: Seq<u8>, b: Seq<u8>, i: int)
    requires
        a.len() == b.len(),
        0 <= i < a.len(),
        a[i] != b[i],
        forall|j: int| 0 <= j < a.len() && j != i ==> a[j] == b[j],
    ensures
        fnv1a(a) != fnv1a(b),
    decreases a.len(),
{
    let x = a.drop_last();
    let y = b.drop_last();
    if i == a.len() - 1 {
        assert(x =~= y);
        lemma_step_injective(fnv1a(x), fnv1a(y), a.last() as u64, b.last() as u64);
    } else {
        assert forall|j: int| 0 <= j < x.len() && j != i implies x[j] == y[j] by {
            assert(a[j] == b[j]);
        }
        lemma_one_byte(x, y, i);
        assert(a[a.len() - 1] == b[b.len() - 1]);
        lemma_step_injective(fnv1a(x), fnv1a(y), a.last() as u64, b.last() as u64);
    }
}

/// The separating rows of two providers whose ids differ in one byte have different ids.
pub proof fn law_separators_of_similar_providers_differ(a: Seq<char>, b: Seq<char>, i: int)
    requires
        encode_utf8(a).len() == encode_utf8(b).len(),
        0 <= i < encode_utf8(a).len(),
        encode_utf8(a)[i] != encode_utf8(b)[i],
        forall|j: int|
            0 <= j < encode_utf8(a).len() && j != i ==> encode_utf8(a)[j] == encode_utf8(b)[j],
    ensures
        id_hash(a) != id_hash(b),
        separator_id(a) != separator_id(b),
{
    lemma_one_byte(encode_utf8(a), encode_utf8(b), i);
    law_separators_differ(a, b);
}

} // verus!
