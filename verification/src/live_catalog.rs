//! The generated catalog, and the config that points to it.

use crate::catalog::{build_simplified_catalog_from_texts, codex_model_catalog_from_settings};
use crate::catalog_entry::CodexCatalogToolProfile;
use crate::config_fields::{
    codex_native_gateway_rejects_web_search, is_cc_switch_catalog_filename,
    set_codex_model_catalog_json_field, set_codex_native_web_search_field,
    CC_SWITCH_CODEX_MODEL_CATALOG_FILENAME,
};
use crate::error::{AppError, ErrorView};
use crate::json::{Json, JsonView};
use crate::live_config::{write_codex_live_for_provider, LiveWrite};
use crate::model_specs::{codex_custom_models_nonempty, SlotTable};
use crate::paths::{path_file_name, path_is_within, PathPart, Separators};
use crate::routed_catalog::{BoundProvider, CapabilityTable, CatalogSources};
use crate::text::str_starts_with;
use crate::toml_doc::parse_toml;
use crate::{
    catalog, config_fields, json, live_config, model_specs, paths, routed_catalog, text, toml_doc,
    toml_value,
};
use vstd::prelude::*;
use vstd::string::*;

verus! {

/// A catalog file of more bytes than that is not read.
pub const MAX_CODEX_CATALOG_BYTES: u64 = 33_554_432;

/// A config to write, and the catalog to write next to it.
#[derive(Debug)]
pub struct PreparedConfig {
    pub config: String,
    pub catalog: Option<Json>,
}

/// What a [`PreparedConfig`] stands for.
pub struct PreparedView {
    pub config: Seq<char>,
    pub catalog: Option<JsonView>,
}

impl PreparedConfig {
    pub open spec fn view(&self) -> PreparedView {
        PreparedView { config: self.config@, catalog: json::option_view(self.catalog) }
    }
}

/// What a result with a prepared config stands for.
pub open spec fn prepared_result(r: Result<PreparedConfig, AppError>) -> Result<
    PreparedView,
    ErrorView,
> {
    match r {
        Ok(done) => Ok(done@),
        Err(e) => Err(e@),
    }
}

/// Whether the web search tool is turned off: always where an Anthropic gateway would drop it, and
/// with a catalog for gateways that are known to reject it.
pub open spec fn disables_web_search(
    profile: CodexCatalogToolProfile,
    has_catalog: bool,
    config: Seq<char>,
) -> bool {
    match profile {
        CodexCatalogToolProfile::Anthropic => true,
        CodexCatalogToolProfile::NativeResponses => has_catalog && (toml_value::toml_values(
            config,
        ) matches Some(tree) && config_fields::rejects_web_search(tree)),
        CodexCatalogToolProfile::ProxyChat => false,
    }
}

/// Whether the web search tool is turned off.
pub fn should_disable_web_search(
    profile: CodexCatalogToolProfile,
    has_catalog: bool,
    config_text: &str,
) -> (r: bool)
    ensures
        r == disables_web_search(profile, has_catalog, config_text@),
{
    match profile {
        CodexCatalogToolProfile::Anthropic => true,
        CodexCatalogToolProfile::NativeResponses => has_catalog
            && codex_native_gateway_rejects_web_search(config_text),
        CodexCatalogToolProfile::ProxyChat => false,
    }
}

/// A config that points to a catalog, where there is one, with the web search tool as the gateway
/// needs it. `name` is the file name of the path that the config points to before.
pub open spec fn pointed_config(
    config: Seq<char>,
    profile: CodexCatalogToolProfile,
    has_catalog: bool,
    name: Option<Seq<char>>,
) -> Result<Seq<char>, ErrorView> {
    match config_fields::with_catalog(config, has_catalog, name) {
        Err(e) => Err(e),
        Ok(pointed) => config_fields::with_web_search(
            pointed,
            disables_web_search(profile, has_catalog, pointed),
        ),
    }
}

/// A config for a catalog that was made, or not.
pub open spec fn prepared(
    catalog: Result<Option<JsonView>, ErrorView>,
    config: Seq<char>,
    profile: CodexCatalogToolProfile,
    name: Option<Seq<char>>,
) -> Result<PreparedView, ErrorView> {
    match catalog {
        Err(e) => Err(e),
        Ok(catalog) => match pointed_config(config, profile, catalog is Some, name) {
            Err(e) => Err(e),
            Ok(config) => Ok(PreparedView { config, catalog }),
        },
    }
}

/// The config and the catalog of a provider's settings. Which file name a path ends in is the
/// platform's to say.
pub fn prepare_codex_config_text_with_model_catalog(
    settings: &Json,
    slots: &SlotTable,
    config_text: &str,
    profile: CodexCatalogToolProfile,
    providers: Option<&Vec<BoundProvider>>,
    sources: &CatalogSources,
) -> (r: Result<PreparedConfig, AppError>)
    ensures
        exists|name: Option<Seq<char>>|
            config_fields::names_pointer(config_text@, name) && prepared_result(r)
                == #[trigger] prepared(
                catalog::catalog_for(
                    settings@,
                    *slots,
                    config_text@,
                    profile,
                    routed_catalog::providers_seq(providers),
                    *sources,
                ),
                config_text@,
                profile,
                name,
            ),
{
    let ghost made = catalog::catalog_for(
        settings@,
        *slots,
        config_text@,
        profile,
        routed_catalog::providers_seq(providers),
        *sources,
    );
    let catalog = match codex_model_catalog_from_settings(
        settings,
        slots,
        config_text,
        profile,
        providers,
        sources,
    ) {
        Ok(catalog) => catalog,
        Err(e) => {
            proof {
                let name = pointer_name(config_text@);
                assert(Err::<PreparedView, ErrorView>(e@) == prepared(
                    made,
                    config_text@,
                    profile,
                    name,
                ));
            }
            return Err(e);
        },
    };
    let has_catalog = catalog.is_some();
    let catalog_path = if has_catalog {
        Some(CC_SWITCH_CODEX_MODEL_CATALOG_FILENAME)
    } else {
        None
    };
    let pointed = set_codex_model_catalog_json_field(config_text, catalog_path);
    let ghost name = choose|name: Option<Seq<char>>|
        config_fields::names_pointer(config_text@, name) && crate::error::text_result(pointed)
            == #[trigger] config_fields::with_catalog(config_text@, has_catalog, name);
    let pointed = match pointed {
        Ok(pointed) => pointed,
        Err(e) => {
            assert(Err::<PreparedView, ErrorView>(e@) == prepared(
                made,
                config_text@,
                profile,
                name,
            ));
            return Err(e);
        },
    };
    let disable = should_disable_web_search(profile, has_catalog, pointed.as_str());
    let r = match set_codex_native_web_search_field(pointed.as_str(), disable) {
        Ok(config) => Ok(PreparedConfig { config, catalog }),
        Err(e) => Err(e),
    };
    assert(prepared_result(r) == prepared(made, config_text@, profile, name));
    r
}

/// A file name that the catalog pointer of a config can have.
spec fn pointer_name(config: Seq<char>) -> Option<Seq<char>> {
    match toml_doc::toml_tree(config) {
        Some(tree) => match tree.get_text("model_catalog_json"@) {
            Some(pointer) => paths::name_in(pointer, Separators::Slash),
            None => None,
        },
        None => None,
    }
}

/// Whether settings say what the catalog is: they have one of their own, even an empty one, or
/// routed models. A backup of the live files says nothing and keeps its pointer.
pub open spec fn says_catalog(settings: JsonView, slots: SlotTable) -> bool {
    settings.get("modelCatalog"@) is Some || model_specs::custom_entries(settings, slots).len() > 0
}

/// The config and the catalog of settings that are put back. Where they do not say what the catalog
/// is the config stays as it is.
pub fn prepare_codex_live_config_text_with_optional_catalog(
    settings: &Json,
    slots: &SlotTable,
    config_text: &str,
    profile: CodexCatalogToolProfile,
    providers: Option<&Vec<BoundProvider>>,
    sources: &CatalogSources,
) -> (r: Result<PreparedConfig, AppError>)
    ensures
        says_catalog(settings@, *slots) ==> exists|name: Option<Seq<char>>|
            config_fields::names_pointer(config_text@, name) && prepared_result(r)
                == #[trigger] prepared(
                catalog::catalog_for(
                    settings@,
                    *slots,
                    config_text@,
                    profile,
                    routed_catalog::providers_seq(providers),
                    *sources,
                ),
                config_text@,
                profile,
                name,
            ),
        !says_catalog(settings@, *slots) ==> prepared_result(r) == Ok::<PreparedView, ErrorView>(
            PreparedView { config: config_text@, catalog: None },
        ),
{
    if settings.get("modelCatalog").is_some() || codex_custom_models_nonempty(settings, slots) {
        prepare_codex_config_text_with_model_catalog(
            settings,
            slots,
            config_text,
            profile,
            providers,
            sources,
        )
    } else {
        Ok(PreparedConfig { config: config_text.to_owned(), catalog: None })
    }
}

/// What a switch to a provider writes: the catalog first, then the live files; and the config that
/// was prepared for them.
#[derive(Debug)]
pub struct ProviderWrite {
    pub catalog: Option<Json>,
    pub live: Result<LiveWrite, AppError>,
    pub config: Option<String>,
}

/// What a switch to a provider writes, of a config that was prepared.
pub fn write_prepared(
    category: Option<&str>,
    auth: &Json,
    prepared_config: Option<PreparedConfig>,
    unify_session_history: bool,
    keep_official_auth: bool,
) -> (r: ProviderWrite)
    ensures
        json::option_view(r.catalog) == match prepared_config {
            Some(done) => done@.catalog,
            None => None,
        },
        text::text_of(r.config) == match prepared_config {
            Some(done) => Some(done@.config),
            None => None,
        },
        live_config::provider_write_result(r.live) == live_config::provider_write(
            text::slice_text(category),
            auth@,
            text::text_of(r.config),
            unify_session_history,
            keep_official_auth,
        ),
{
    let (config, catalog) = match prepared_config {
        Some(done) => {
            let PreparedConfig { config, catalog } = done;
            (Some(config), catalog)
        },
        None => (None, None),
    };
    let given = match &config {
        Some(config) => Some(config.as_str()),
        None => None,
    };
    let live = write_codex_live_for_provider(
        category,
        auth,
        given,
        unify_session_history,
        keep_official_auth,
    );
    ProviderWrite { catalog, live, config }
}

/// What a switch to a provider writes, with the catalog of its settings.
pub fn write_codex_provider_live_with_catalog(
    settings: &Json,
    slots: &SlotTable,
    category: Option<&str>,
    auth: &Json,
    config_text: Option<&str>,
    profile: CodexCatalogToolProfile,
    providers: Option<&Vec<BoundProvider>>,
    sources: &CatalogSources,
    unify_session_history: bool,
    keep_official_auth: bool,
) -> (r: Result<ProviderWrite, AppError>)
    ensures
        match r {
            Ok(done) => {
                &&& done.config is Some == config_text is Some
                &&& config_text is None ==> done.catalog is None
                &&& (config_text matches Some(config) ==> exists|name: Option<Seq<char>>|
                    config_fields::names_pointer(config@, name) && Ok::<PreparedView, ErrorView>(
                        PreparedView {
                            config: done.config->Some_0@,
                            catalog: json::option_view(done.catalog),
                        },
                    ) == #[trigger] prepared(
                        catalog::catalog_for(
                            settings@,
                            *slots,
                            config@,
                            profile,
                            routed_catalog::providers_seq(providers),
                            *sources,
                        ),
                        config@,
                        profile,
                        name,
                    ))
                &&& live_config::provider_write_result(done.live) == live_config::provider_write(
                    text::slice_text(category),
                    auth@,
                    text::text_of(done.config),
                    unify_session_history,
                    keep_official_auth,
                )
            },
            Err(e) => config_text matches Some(config) && exists|name: Option<Seq<char>>|
                config_fields::names_pointer(config@, name) && Err::<PreparedView, ErrorView>(e@)
                    == #[trigger] prepared(
                    catalog::catalog_for(
                        settings@,
                        *slots,
                        config@,
                        profile,
                        routed_catalog::providers_seq(providers),
                        *sources,
                    ),
                    config@,
                    profile,
                    name,
                ),
        },
{
    let prepared_config = match config_text {
        Some(config) => match prepare_codex_config_text_with_model_catalog(
            settings,
            slots,
            config,
            profile,
            providers,
            sources,
        ) {
            Ok(done) => Some(done),
            Err(e) => {
                return Err(e);
            },
        },
        None => None,
    };
    Ok(
        write_prepared(
            category,
            auth,
            prepared_config,
            unify_session_history,
            keep_official_auth,
        ),
    )
}

/// The path that a config gives for the catalog, where it has text in it.
pub open spec fn catalog_pointer(config: Seq<char>) -> Option<Seq<char>> {
    match toml_doc::toml_tree(config) {
        Some(tree) => match tree.get_text("model_catalog_json"@) {
            Some(pointer) => if text::is_blank(pointer) {
                None
            } else {
                Some(text::trim(pointer))
            },
            None => None,
        },
        None => None,
    }
}

/// Whether a path is that of a generated catalog, by a file name that it has on some platform.
pub open spec fn is_own_catalog(pointer: Seq<char>, own: bool) -> bool {
    exists|name: Option<Seq<char>>| #[trigger]
        paths::is_file_name(pointer, name) && own == config_fields::is_catalog_name(name)
}

/// The path that a config gives for a generated catalog; `None` where it gives none, or one of a
/// file of the user's own.
pub fn cc_switch_catalog_pointer(config_text: &str) -> (r: Option<String>)
    ensures
        match r {
            Some(pointer) => catalog_pointer(config_text@) == Some(pointer@) && is_own_catalog(
                pointer@,
                true,
            ),
            None => catalog_pointer(config_text@) matches Some(pointer) ==> is_own_catalog(
                pointer,
                false,
            ),
        },
{
    let tree = match parse_toml(config_text) {
        Some(tree) => tree,
        None => {
            return None;
        },
    };
    let pointer = match tree.get_str("model_catalog_json") {
        Some(pointer) => pointer.trim(),
        None => {
            return None;
        },
    };
    if pointer.is_empty() {
        return None;
    }
    let name = path_file_name(pointer);
    assert(paths::is_file_name(pointer@, text::text_of(name)));
    let name = match &name {
        Some(name) => Some(name.as_str()),
        None => None,
    };
    if is_cc_switch_catalog_filename(name) {
        Some(pointer.to_owned())
    } else {
        None
    }
}

/// A path of names with slashes between them is that of a generated catalog exactly where what stands
/// behind its last slash is the catalog's name. `slash` is a place of a slash in it, where it starts
/// with the letter of a drive.
pub proof fn law_a_catalog_is_known_by_its_name(pointer: Seq<char>, own: bool, slash: int)
    requires
        is_own_catalog(pointer, own),
        forall|i: int| 0 <= i < pointer.len() ==> #[trigger] pointer[i] != '\\',
        paths::behind(pointer, Separators::Slash).len() > 0,
        paths::behind(pointer, Separators::Slash) != "."@,
        paths::behind(pointer, Separators::Slash) != ".."@,
        !paths::starts_twice(pointer),
        paths::starts_with_drive(pointer) ==> 0 <= slash < pointer.len() && pointer[slash] == '/',
    ensures
        own == config_fields::is_catalog_name(Some(paths::behind(pointer, Separators::Slash))),
{
    let name = choose|name: Option<Seq<char>>| #[trigger]
        paths::is_file_name(pointer, name) && own == config_fields::is_catalog_name(name);
    paths::law_a_path_with_slashes_has_one_name(pointer, name, slash);
}

/// Whether a catalog path stands on its own, and not below the directory of the config: by the
/// platform's rules or by a slash at its start.
pub fn stands_alone(pointer: &str, is_absolute: bool) -> (r: bool)
    ensures
        r == (is_absolute || "/"@.is_prefix_of(pointer@)),
{
    is_absolute || str_starts_with(pointer, "/")
}

/// What is known of a catalog path: the directory of the config and the path itself, whether there is
/// a file, and where the two lead, past links; `None` where that cannot be told of the path.
#[derive(Debug)]
pub struct CatalogFacts {
    pub base: Vec<PathPart>,
    pub path: Vec<PathPart>,
    pub exists: bool,
    pub real_base: Vec<PathPart>,
    pub leads_to: Option<Vec<PathPart>>,
}

impl CatalogFacts {
    /// Whether the path lies in the directory of the config by its text.
    pub open spec fn lies_within(&self) -> bool {
        paths::is_within(paths::parts_view(self.base@), paths::parts_view(self.path@))
    }

    /// Whether the path lies in the directory of the config past links.
    pub open spec fn leads_within(&self) -> bool {
        self.leads_to matches Some(place) && paths::is_within(
            paths::parts_view(self.real_base@),
            paths::parts_view(place@),
        )
    }
}

/// Which path a catalog is read from.
#[derive(Debug, Clone, Copy, PartialEq, Eq, Structural)]
pub enum CatalogPath {
    /// None: it leads out of the directory of the config.
    Refused,
    /// The path as it is: there is no file yet.
    AsGiven,
    /// The path past links.
    Real,
}

/// Which path a catalog is read from. It has to lie in the directory of the config, and where there
/// is a file, past links too.
pub fn resolve_cc_switch_catalog_path(facts: &CatalogFacts) -> (r: CatalogPath)
    ensures
        r == CatalogPath::Real <==> facts.lies_within() && facts.exists && facts.leads_within(),
        r == CatalogPath::AsGiven <==> facts.lies_within() && !facts.exists,
{
    if !path_is_within(&facts.base, &facts.path) {
        return CatalogPath::Refused;
    }
    if !facts.exists {
        return CatalogPath::AsGiven;
    }
    match &facts.leads_to {
        Some(place) => if path_is_within(&facts.real_base, place) {
            CatalogPath::Real
        } else {
            CatalogPath::Refused
        },
        None => CatalogPath::Refused,
    }
}

/// What was found where a config says that its catalog is.
#[derive(Debug)]
pub enum CatalogFile {
    /// The config names no generated catalog, or one that lies elsewhere.
    NotOurs,
    /// There is no file.
    Missing,
    /// The file is too large, or it cannot be read.
    Unreadable,
    /// What the file holds.
    Text(String),
}

/// The settings that the generated catalog was made from; `None` where there is none to read, or
/// where it lists nothing.
pub fn read_codex_model_catalog_simplified_from_live(
    config_text: &str,
    file: &CatalogFile,
    capabilities: &CapabilityTable,
) -> (r: Option<Json>)
    ensures
        json::option_view(r) == (match *file {
            CatalogFile::Text(text) => catalog::simplified(
                json::json_text(text@),
                routed_catalog::config_window(Some(config_text@)),
                *capabilities,
            ),
            _ => None,
        }),
{
    match file {
        CatalogFile::Text(text) => build_simplified_catalog_from_texts(
            config_text,
            text.as_str(),
            capabilities,
        ),
        _ => None,
    }
}

/// Whether a file is small enough to be read.
pub fn fits_catalog_limit(bytes: u64, max_bytes: u64) -> (r: bool)
    ensures
        r == (bytes <= max_bytes),
{
    bytes <= max_bytes
}

} // verus!
