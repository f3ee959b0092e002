//! The grammar, written down once as spec functions over `Seq<char>`.
//!
//! Each function mirrors one parser: it says on which inputs that parser
//! succeeds, how many characters it consumes, which value it yields, and
//! which error it reports otherwise.  The executable parsers are proved to
//! return exactly these results.
//!
//! Two points the textual format leaves open are fixed here, once:
//! - status tokens are lowercase and carry the `update_status=` prefix;
//! - the digit run of a version must end the field: the character after it,
//!   if any, must be whitespace.  A version value followed by anything else
//!   (for instance a dotted multi-part version) is rejected where the run
//!   ends.

use vstd::prelude::*;
use crate::model::ActiveConfView;
use crate::model::ConfigKeys;
use crate::model::ParseError;
use crate::model::PassiveConfView;
use crate::model::UpdateStatus;
use crate::number::digits_val;
use crate::text::digit_run;
use crate::text::is_ws;
use crate::text::name_run;
use crate::text::starts_with;
use crate::text::ws_run;

verus! {

/// `[active]` or `[passive]`, first match wins; anything else is an
/// unrecognized header.
pub open spec fn spec_config_keys(s: Seq<char>) -> Result<(nat, ConfigKeys), ParseError> {
    if starts_with(s, "[active]"@) {
        Ok(("[active]"@.len(), ConfigKeys::Active))
    } else if starts_with(s, "[passive]"@) {
        Ok(("[passive]"@.len(), ConfigKeys::Passive))
    } else {
        Err(ParseError::UnrecognizedVariant)
    }
}

/// `image_name=` then a non-empty run of letters, digits and hyphens, then
/// the fixed `.itb` extension.
pub open spec fn spec_image_name(s: Seq<char>) -> Result<
    (nat, (Seq<char>, Seq<char>)),
    ParseError,
> {
    if !starts_with(s, "image_name="@) {
        Err(ParseError::TokenMismatch)
    } else {
        let s1 = s.skip("image_name="@.len() as int);
        let n = name_run(s1);
        if n == 0 {
            Err(ParseError::EmptyRequiredRun)
        } else if !starts_with(s1.skip(n as int), ".itb"@) {
            Err(ParseError::TokenMismatch)
        } else {
            Ok(
                (
                    "image_name="@.len() + n + ".itb"@.len(),
                    (s1.take(n as int), ".itb"@),
                ),
            )
        }
    }
}

/// `image_version=` then `ver` then `_` then a non-empty digit run that ends
/// the field (next character whitespace or end of input) and fits in a `u32`.
pub open spec fn spec_image_version(s: Seq<char>) -> Result<(nat, u32), ParseError> {
    if !starts_with(s, "image_version="@) {
        Err(ParseError::TokenMismatch)
    } else {
        let s1 = s.skip("image_version="@.len() as int);
        if !starts_with(s1, "ver"@) {
            Err(ParseError::TokenMismatch)
        } else {
            let s2 = s1.skip("ver"@.len() as int);
            if !starts_with(s2, "_"@) {
                Err(ParseError::TokenMismatch)
            } else {
                let s3 = s2.skip("_"@.len() as int);
                let n = digit_run(s3);
                if n == 0 {
                    Err(ParseError::EmptyRequiredRun)
                } else if n < s3.len() && !is_ws(s3[n as int]) {
                    Err(ParseError::TokenMismatch)
                } else if digits_val(s3.take(n as int)) > u32::MAX {
                    Err(ParseError::InvalidNumeric)
                } else {
                    Ok(
                        (
                            "image_version="@.len() + "ver"@.len() + "_"@.len() + n,
                            digits_val(s3.take(n as int)) as u32,
                        ),
                    )
                }
            }
        }
    }
}

/// `ready_for_update_flag=` then `true` or `false`.
pub open spec fn spec_ready_for_update(s: Seq<char>) -> Result<(nat, bool), ParseError> {
    if !starts_with(s, "ready_for_update_flag="@) {
        Err(ParseError::TokenMismatch)
    } else {
        let s1 = s.skip("ready_for_update_flag="@.len() as int);
        if starts_with(s1, "true"@) {
            Ok(("ready_for_update_flag="@.len() + "true"@.len(), true))
        } else if starts_with(s1, "false"@) {
            Ok(("ready_for_update_flag="@.len() + "false"@.len(), false))
        } else {
            Err(ParseError::UnrecognizedVariant)
        }
    }
}

/// `update_status=` then one of `updating`, `testing`, `success`.
pub open spec fn spec_update_status(s: Seq<char>) -> Result<(nat, UpdateStatus), ParseError> {
    if !starts_with(s, "update_status="@) {
        Err(ParseError::TokenMismatch)
    } else {
        let s1 = s.skip("update_status="@.len() as int);
        if starts_with(s1, "updating"@) {
            Ok(("update_status="@.len() + "updating"@.len(), UpdateStatus::Updating))
        } else if starts_with(s1, "testing"@) {
            Ok(("update_status="@.len() + "testing"@.len(), UpdateStatus::Testing))
        } else if starts_with(s1, "success"@) {
            Ok(("update_status="@.len() + "success"@.len(), UpdateStatus::Success))
        } else {
            Err(ParseError::UnrecognizedVariant)
        }
    }
}

/// The active record: whitespace, an `[active]` header (a `[passive]` header
/// here is a content mismatch and fails), whitespace, the image name,
/// whitespace, the image version, trailing whitespace.
pub open spec fn spec_active_config(s: Seq<char>) -> Result<(nat, ActiveConfView), ParseError> {
    let w0 = ws_run(s);
    let s0 = s.skip(w0 as int);
    match spec_config_keys(s0) {
        Err(e) => Err(e),
        Ok((n1, key)) => if key != ConfigKeys::Active {
            Err(ParseError::UnrecognizedVariant)
        } else {
            let s1 = s0.skip(n1 as int);
            let w1 = ws_run(s1);
            let s2 = s1.skip(w1 as int);
            match spec_image_name(s2) {
                Err(e) => Err(e),
                Ok((n2, label)) => {
                    let s3 = s2.skip(n2 as int);
                    let w2 = ws_run(s3);
                    let s4 = s3.skip(w2 as int);
                    match spec_image_version(s4) {
                        Err(e) => Err(e),
                        Ok((n3, version)) => {
                            let s5 = s4.skip(n3 as int);
                            let w3 = ws_run(s5);
                            Ok(
                                (
                                    w0 + n1 + w1 + n2 + w2 + n3 + w3,
                                    ActiveConfView {
                                        active_config: key,
                                        image_name: label,
                                        image_version: version,
                                    },
                                ),
                            )
                        },
                    }
                },
            }
        },
    }
}

/// The passive record: whitespace, a `[passive]` header (an `[active]`
/// header here fails), whitespace, the readiness flag, then three optional
/// fields, each preceded by whitespace skipping and each consuming nothing
/// when it does not match, with trailing whitespace at the end.
pub open spec fn spec_passive_config(s: Seq<char>) -> Result<(nat, PassiveConfView), ParseError> {
    let w0 = ws_run(s);
    let s0 = s.skip(w0 as int);
    match spec_config_keys(s0) {
        Err(e) => Err(e),
        Ok((n1, key)) => if key != ConfigKeys::Passive {
            Err(ParseError::UnrecognizedVariant)
        } else {
            let s1 = s0.skip(n1 as int);
            let w1 = ws_run(s1);
            let s2 = s1.skip(w1 as int);
            match spec_ready_for_update(s2) {
                Err(e) => Err(e),
                Ok((n2, flag)) => {
                    let s3 = s2.skip(n2 as int);
                    let w2 = ws_run(s3);
                    let s4 = s3.skip(w2 as int);
                    let name_step = match spec_image_name(s4) {
                        Ok((n, label)) => (n, Some(label)),
                        Err(e) => (0 as nat, None),
                    };
                    let s5 = s4.skip(name_step.0 as int);
                    let w3 = ws_run(s5);
                    let s6 = s5.skip(w3 as int);
                    let version_step = match spec_image_version(s6) {
                        Ok((n, version)) => (n, Some(version)),
                        Err(e) => (0 as nat, None),
                    };
                    let s7 = s6.skip(version_step.0 as int);
                    let w4 = ws_run(s7);
                    let s8 = s7.skip(w4 as int);
                    let status_step = match spec_update_status(s8) {
                        Ok((n, status)) => (n, Some(status)),
                        Err(e) => (0 as nat, None),
                    };
                    let s9 = s8.skip(status_step.0 as int);
                    let w5 = ws_run(s9);
                    Ok(
                        (
                            w0 + n1 + w1 + n2 + w2 + name_step.0 + w3 + version_step.0 + w4
                                + status_step.0 + w5,
                            PassiveConfView {
                                passive_config: key,
                                ready_for_update_flag: flag,
                                image_name: name_step.1,
                                image_version: version_step.1,
                                update_status: status_step.1,
                            },
                        ),
                    )
                },
            }
        },
    }
}

/// The whole configuration: the active record, then the passive record on
/// the remaining input; whatever is left after both is the caller's.
pub open spec fn spec_parse_config(s: Seq<char>) -> Result<
    (nat, (ActiveConfView, PassiveConfView)),
    ParseError,
> {
    match spec_active_config(s) {
        Err(e) => Err(e),
        Ok((n, active)) => match spec_passive_config(s.skip(n as int)) {
            Err(e) => Err(e),
            Ok((m, passive)) => Ok((n + m, (active, passive))),
        },
    }
}

} // verus!
