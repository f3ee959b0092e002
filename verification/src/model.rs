//! The parse results: record structs, tag enums, the typed parse error, and
//! the mathematical views the contracts speak of.

use vstd::prelude::*;
use crate::text::is_name_char;

verus! {

/// Which record a section header introduces.
#[derive(Debug, PartialEq, Eq, Clone, Copy, Structural)]
pub enum ConfigKeys {
    Active,
    Passive,
}

/// Rollout phase of the passive bank.
#[derive(Debug, PartialEq, Eq, Clone, Copy, Structural)]
pub enum UpdateStatus {
    Updating,
    Testing,
    Success,
}

/// The first syntactic violation found in the input.
///
/// Each parser's contract states exactly which variant comes back on which
/// inputs, so a caller that needs the expected token or the failure position
/// reads them off the contract rather than out of the value.
#[derive(Debug, PartialEq, Eq, Clone, Copy, Structural)]
pub enum ParseError {
    /// An expected literal token was not found at the current position.
    TokenMismatch,
    /// A required non-empty character run was empty.
    EmptyRequiredRun,
    /// Input matched none of a closed alternative set (section header,
    /// boolean flag, status token), or a header named the wrong record.
    UnrecognizedVariant,
    /// A digit run does not fit in an unsigned 32-bit integer.
    InvalidNumeric,
}

/// A label is a base filename plus its file extension (always `.itb` here),
/// both borrowed from the caller's input buffer.
pub type ImageLabel<'a> = (&'a str, &'a str);

/// The record of the currently booted image; every field is mandatory.
#[derive(Debug, PartialEq, Eq)]
pub struct ActiveConf<'a> {
    pub active_config: ConfigKeys,
    pub image_name: ImageLabel<'a>,
    pub image_version: u32,
}

/// The record of the staging slot: the header and the readiness flag are
/// mandatory, the remaining fields independently optional.
#[derive(Debug, PartialEq, Eq)]
pub struct PassiveConf<'a> {
    pub passive_config: ConfigKeys,
    pub ready_for_update_flag: bool,
    pub image_name: Option<ImageLabel<'a>>,
    pub image_version: Option<u32>,
    pub update_status: Option<UpdateStatus>,
}

/// Mathematical view of an [`ActiveConf`]: the label as character sequences.
#[verifier::ext_equal]
pub struct ActiveConfView {
    pub active_config: ConfigKeys,
    pub image_name: (Seq<char>, Seq<char>),
    pub image_version: u32,
}

/// Mathematical view of a [`PassiveConf`].
#[verifier::ext_equal]
pub struct PassiveConfView {
    pub passive_config: ConfigKeys,
    pub ready_for_update_flag: bool,
    pub image_name: Option<(Seq<char>, Seq<char>)>,
    pub image_version: Option<u32>,
    pub update_status: Option<UpdateStatus>,
}

impl<'a> View for ActiveConf<'a> {
    type V = ActiveConfView;

    open spec fn view(&self) -> ActiveConfView {
        ActiveConfView {
            active_config: self.active_config,
            image_name: (self.image_name.0@, self.image_name.1@),
            image_version: self.image_version,
        }
    }
}

impl<'a> View for PassiveConf<'a> {
    type V = PassiveConfView;

    open spec fn view(&self) -> PassiveConfView {
        PassiveConfView {
            passive_config: self.passive_config,
            ready_for_update_flag: self.ready_for_update_flag,
            image_name: match self.image_name {
                Some(label) => Some((label.0@, label.1@)),
                None => None,
            },
            image_version: self.image_version,
            update_status: self.update_status,
        }
    }
}

/// A label the grammar can produce: a non-empty base of letters, digits and
/// hyphens, with the fixed `.itb` extension.
pub open spec fn valid_label(label: (Seq<char>, Seq<char>)) -> bool {
    &&& label.0.len() >= 1
    &&& forall|k: int| 0 <= k < label.0.len() ==> is_name_char(label.0[k])
    &&& label.1 == ".itb"@
}

/// An active record the grammar can produce.
pub open spec fn valid_active_view(a: ActiveConfView) -> bool {
    &&& a.active_config == ConfigKeys::Active
    &&& valid_label(a.image_name)
}

/// A passive record the grammar can produce.
pub open spec fn valid_passive_view(p: PassiveConfView) -> bool {
    &&& p.passive_config == ConfigKeys::Passive
    &&& match p.image_name {
        Some(label) => valid_label(label),
        None => true,
    }
}

} // verus!
