//! Parser for the textual state of a dual-bank ("A/B") firmware update
//! mechanism: an *active* record describing the currently booted image and a
//! *passive* record describing the staging slot for the next update.
//!
//! The format is a fixed grammar over `key=value` lines separated by
//! whitespace: an `[active]` block with a mandatory image name and version,
//! followed by a `[passive]` block with a mandatory readiness flag and three
//! independently optional fields.  `parse_config` returns both records plus
//! whatever input remains unconsumed; every malformed input yields a typed
//! [`ParseError`] instead of a panic.
//!
//! The grammar itself is written down once, as spec functions over `Seq<char>`
//! (module `grammar`); each executable parser is proved to return exactly what
//! those spec functions say, and `lemma_parse_serialize_round_trip` proves
//! that re-parsing a canonically serialized pair of records gives the records
//! back unchanged with nothing left over.

mod canon;
mod grammar;
mod model;
mod number;
mod parse;
mod roundtrip;
mod text;

pub use model::ActiveConf;
pub use model::ActiveConfView;
pub use model::ConfigKeys;
pub use model::ImageLabel;
pub use model::ParseError;
pub use model::PassiveConf;
pub use model::PassiveConfView;
pub use model::UpdateStatus;
pub use model::valid_active_view;
pub use model::valid_label;
pub use model::valid_passive_view;

pub use parse::active_config;
pub use parse::config_keys;
pub use parse::image_name;
pub use parse::image_version;
pub use parse::parse_config;
pub use parse::passive_config;
pub use parse::ready_for_update;
pub use parse::update_status;

pub use grammar::spec_active_config;
pub use grammar::spec_config_keys;
pub use grammar::spec_image_name;
pub use grammar::spec_image_version;
pub use grammar::spec_parse_config;
pub use grammar::spec_passive_config;
pub use grammar::spec_ready_for_update;
pub use grammar::spec_update_status;

pub use canon::flag_token;
pub use canon::seg_name;
pub use canon::seg_status;
pub use canon::seg_version;
pub use canon::serialize_active;
pub use canon::serialize_config;
pub use canon::serialize_passive;
pub use canon::spec_serialize;
pub use canon::status_token;

pub use roundtrip::lemma_active_rt;
pub use roundtrip::lemma_image_name_trailing;
pub use roundtrip::lemma_parse_serialize_round_trip;
pub use roundtrip::lemma_passive_rt;

pub use text::match_literal;
pub use text::skip_whitespace;
pub use text::take_alnum_hyphen;
pub use text::take_digits;
