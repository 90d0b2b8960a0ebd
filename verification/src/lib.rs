//! The configuration of Codex, and how it is switched between providers.
//!
//! Codex keeps a `config.toml`, an `auth.json`, a catalog of models and a cache of models in one
//! directory; its desktop application keeps a list of allowed models in a storage of its own. This
//! library holds the rules for all of these: what is written when a provider is switched to, what
//! is carried over from the config that was there, which login stays, which models are listed and
//! under which ids, and how conversations are kept safe meanwhile. It works on texts, trees and
//! plain facts, and hands back texts, trees and the next thing to do; reading and writing files is
//! left to the caller.
//!
//! - [`text`], [`json`], [`toml_doc`], [`toml_model`], [`toml_value`], [`moment`], [`paths`] and
//!   [`error`] hold the values that everything else is about.
//! - [`config_merge`], [`config_fields`], [`official_route`], [`unified_session`], [`auth`],
//!   [`live_config`] and [`live_catalog`] are about the config and the login.
//! - [`model_specs`], [`catalog_ids`], [`catalog_entry`], [`routed_catalog`], [`catalog`] and
//!   [`cli`] are about the catalog.
//! - [`models_cache`], [`official_baseline`] and [`cache_plan`] are about the cache.
//! - [`statsig_codec`], [`statsig_models`], [`statsig_pins`], [`statsig_sync`] and
//!   [`statsig_worker`] are about the storage of the desktop application.
//! - [`conversations`] and [`unified_storage`] are about conversations.
//! - [`responses_input`] and [`remote_compaction`] are about requests that pass through a proxy.
//! - [`text_laws`], [`auth_laws`], [`merge_laws`], [`config_laws`], [`field_laws`], [`route_laws`],
//!   [`live_laws`], [`settings_laws`], [`entry_laws`], [`catalog_laws`], [`picker_laws`],
//!   [`baseline_laws`], [`cache_laws`], [`statsig_laws`], [`storage_laws`], [`input_laws`] and
//!   [`compaction_laws`] state what holds across them.

pub mod auth;
pub mod auth_laws;
pub mod baseline_laws;
pub mod cache_laws;
pub mod cache_plan;
pub mod catalog;
pub mod catalog_entry;
pub mod catalog_ids;
pub mod catalog_laws;
pub mod cli;
pub mod compaction_laws;
pub mod config_fields;
pub mod config_laws;
pub mod config_merge;
pub mod conversations;
pub mod entry_laws;
pub mod error;
pub mod field_laws;
pub mod input_laws;
pub mod json;
pub mod live_catalog;
pub mod live_config;
pub mod live_laws;
pub mod merge_laws;
pub mod model_specs;
pub mod models_cache;
pub mod moment;
pub mod official_baseline;
pub mod official_route;
pub mod paths;
pub mod picker_laws;
pub mod remote_compaction;
pub mod responses_input;
pub mod route_laws;
pub mod routed_catalog;
pub mod settings_laws;
pub mod statsig_codec;
pub mod statsig_laws;
pub mod statsig_models;
pub mod statsig_pins;
pub mod statsig_sync;
pub mod statsig_worker;
pub mod storage_laws;
pub mod text;
pub mod text_laws;
pub mod toml_doc;
pub mod toml_model;
pub mod toml_value;
pub mod unified_session;
pub mod unified_storage;
