//! The executable parsers.  Each one takes the input, returns the remainder
//! and the parsed value, and is proved to return exactly what the grammar
//! spec functions of [`crate::grammar`] say.

use vstd::prelude::*;
use crate::grammar::spec_active_config;
use crate::grammar::spec_config_keys;
use crate::grammar::spec_image_name;
use crate::grammar::spec_image_version;
use crate::grammar::spec_parse_config;
use crate::grammar::spec_passive_config;
use crate::grammar::spec_ready_for_update;
use crate::grammar::spec_update_status;
use crate::model::ActiveConf;
use crate::model::ConfigKeys;
use crate::model::ImageLabel;
use crate::model::ParseError;
use crate::model::PassiveConf;
use crate::model::UpdateStatus;
use crate::text::skip_whitespace;
use crate::text::ws_run;
use crate::number::parse_u32_digits;
use crate::text::lemma_digit_run_props;
use crate::text::lemma_name_run_props;
use crate::text::lemma_skip_skip;
use crate::text::match_literal;
use crate::text::take_alnum_hyphen;
use crate::text::take_digits;
use crate::text::char_is_ws;

verus! {

/// Parses a section header into its tag.  Consumes exactly the header
/// literal; fails (consuming nothing) on any other text.
pub fn config_keys<'a>(input: &'a str) -> (r: Result<(&'a str, ConfigKeys), ParseError>)
    ensures
        match r {
            Ok((rest, key)) => spec_config_keys(input@) matches Ok((n, k)) && k == key && n
                <= input@.len() && rest@ == input@.skip(n as int),
            Err(e) => spec_config_keys(input@) matches Err(e2) && e2 == e,
        },
{
    match match_literal(input, "[active]") {
        Some(rest) => Ok((rest, ConfigKeys::Active)),
        None => match match_literal(input, "[passive]") {
            Some(rest) => Ok((rest, ConfigKeys::Passive)),
            None => Err(ParseError::UnrecognizedVariant),
        },
    }
}

/// Parses `image_name=<base>.itb` into its label.
pub fn image_name<'a>(input: &'a str) -> (r: Result<(&'a str, ImageLabel<'a>), ParseError>)
    ensures
        match r {
            Ok((rest, label)) => spec_image_name(input@) matches Ok((n, lv)) && label.0@ == lv.0
                && label.1@ == lv.1 && n <= input@.len() && rest@ == input@.skip(n as int),
            Err(e) => spec_image_name(input@) matches Err(e2) && e2 == e,
        },
{
    let s1 = match match_literal(input, "image_name=") {
        Some(rest) => rest,
        None => {
            return Err(ParseError::TokenMismatch);
        },
    };
    proof {
        lemma_name_run_props(s1@);
    }
    let (run, s2) = take_alnum_hyphen(s1);
    if run.unicode_len() == 0 {
        return Err(ParseError::EmptyRequiredRun);
    }
    let s3 = match match_literal(s2, ".itb") {
        Some(rest) => rest,
        None => {
            return Err(ParseError::TokenMismatch);
        },
    };
    proof {
        let p = "image_name="@.len() as int;
        let n = crate::text::name_run(s1@) as int;
        let t = ".itb"@.len() as int;
        lemma_skip_skip(input@, p, n);
        lemma_skip_skip(input@, p + n, t);
    }
    Ok((s3, (run, ".itb")))
}

/// Parses `image_version=ver_<digits>` into its number.
pub fn image_version<'a>(input: &'a str) -> (r: Result<(&'a str, u32), ParseError>)
    ensures
        match r {
            Ok((rest, version)) => spec_image_version(input@) matches Ok((n, v)) && v == version
                && n <= input@.len() && rest@ == input@.skip(n as int),
            Err(e) => spec_image_version(input@) matches Err(e2) && e2 == e,
        },
{
    let s1 = match match_literal(input, "image_version=") {
        Some(rest) => rest,
        None => {
            return Err(ParseError::TokenMismatch);
        },
    };
    let s2 = match match_literal(s1, "ver") {
        Some(rest) => rest,
        None => {
            return Err(ParseError::TokenMismatch);
        },
    };
    let s3 = match match_literal(s2, "_") {
        Some(rest) => rest,
        None => {
            return Err(ParseError::TokenMismatch);
        },
    };
    proof {
        lemma_digit_run_props(s3@);
    }
    let (run, rest) = take_digits(s3);
    if run.unicode_len() == 0 {
        return Err(ParseError::EmptyRequiredRun);
    }
    if rest.unicode_len() > 0 && !char_is_ws(rest.get_char(0)) {
        proof {
            let n = crate::text::digit_run(s3@) as int;
            assert(rest@[0] == s3@[n]);
        }
        return Err(ParseError::TokenMismatch);
    }
    proof {
        let n = crate::text::digit_run(s3@) as int;
        if n < s3@.len() {
            assert(rest@[0] == s3@[n]);
        }
        assert(forall|k: int| 0 <= k < run@.len() ==> run@[k] == s3@[k]);
    }
    let version = match parse_u32_digits(run) {
        Some(v) => v,
        None => {
            return Err(ParseError::InvalidNumeric);
        },
    };
    proof {
        let p = "image_version="@.len() as int;
        let v = "ver"@.len() as int;
        let u = "_"@.len() as int;
        let n = crate::text::digit_run(s3@) as int;
        lemma_skip_skip(input@, p, v);
        lemma_skip_skip(input@, p + v, u);
        lemma_skip_skip(input@, p + v + u, n);
    }
    Ok((rest, version))
}

/// Parses `ready_for_update_flag=<true|false>` into its boolean.
pub fn ready_for_update<'a>(input: &'a str) -> (r: Result<(&'a str, bool), ParseError>)
    ensures
        match r {
            Ok((rest, flag)) => spec_ready_for_update(input@) matches Ok((n, f)) && f == flag && n
                <= input@.len() && rest@ == input@.skip(n as int),
            Err(e) => spec_ready_for_update(input@) matches Err(e2) && e2 == e,
        },
{
    let s1 = match match_literal(input, "ready_for_update_flag=") {
        Some(rest) => rest,
        None => {
            return Err(ParseError::TokenMismatch);
        },
    };
    let p = Ghost("ready_for_update_flag="@.len() as int);
    match match_literal(s1, "true") {
        Some(rest) => {
            proof {
                lemma_skip_skip(input@, p@, "true"@.len() as int);
            }
            Ok((rest, true))
        },
        None => match match_literal(s1, "false") {
            Some(rest) => {
                proof {
                    lemma_skip_skip(input@, p@, "false"@.len() as int);
                }
                Ok((rest, false))
            },
            None => Err(ParseError::UnrecognizedVariant),
        },
    }
}

/// Parses `update_status=<updating|testing|success>` into its tag.
pub fn update_status<'a>(input: &'a str) -> (r: Result<(&'a str, UpdateStatus), ParseError>)
    ensures
        match r {
            Ok((rest, status)) => spec_update_status(input@) matches Ok((n, st)) && st == status
                && n <= input@.len() && rest@ == input@.skip(n as int),
            Err(e) => spec_update_status(input@) matches Err(e2) && e2 == e,
        },
{
    let s1 = match match_literal(input, "update_status=") {
        Some(rest) => rest,
        None => {
            return Err(ParseError::TokenMismatch);
        },
    };
    let p = Ghost("update_status="@.len() as int);
    match match_literal(s1, "updating") {
        Some(rest) => {
            proof {
                lemma_skip_skip(input@, p@, "updating"@.len() as int);
            }
            Ok((rest, UpdateStatus::Updating))
        },
        None => match match_literal(s1, "testing") {
            Some(rest) => {
                proof {
                    lemma_skip_skip(input@, p@, "testing"@.len() as int);
                }
                Ok((rest, UpdateStatus::Testing))
            },
            None => match match_literal(s1, "success") {
                Some(rest) => {
                    proof {
                        lemma_skip_skip(input@, p@, "success"@.len() as int);
                    }
                    Ok((rest, UpdateStatus::Success))
                },
                None => Err(ParseError::UnrecognizedVariant),
            },
        },
    }
}

/// Parses the active record: header (which must be `[active]`), image name
/// and image version, each preceded by whitespace skipping, with trailing
/// whitespace consumed.
pub fn active_config<'a>(input: &'a str) -> (r: Result<(&'a str, ActiveConf<'a>), ParseError>)
    ensures
        match r {
            Ok((rest, conf)) => spec_active_config(input@) matches Ok((n, v)) && conf@ == v && n
                <= input@.len() && rest@ == input@.skip(n as int),
            Err(e) => spec_active_config(input@) matches Err(e2) && e2 == e,
        },
{
    let s0 = skip_whitespace(input);
    let ghost w0 = ws_run(input@) as int;
    let (s1, key) = match config_keys(s0) {
        Ok(step) => step,
        Err(e) => {
            return Err(e);
        },
    };
    let ghost n1 = spec_config_keys(s0@)->Ok_0.0 as int;
    proof {
        lemma_skip_skip(input@, w0, n1);
    }
    match key {
        ConfigKeys::Active => {},
        ConfigKeys::Passive => {
            return Err(ParseError::UnrecognizedVariant);
        },
    }
    let s2 = skip_whitespace(s1);
    let ghost w1 = ws_run(s1@) as int;
    proof {
        lemma_skip_skip(input@, w0 + n1, w1);
    }
    let (s3, label) = match image_name(s2) {
        Ok(step) => step,
        Err(e) => {
            return Err(e);
        },
    };
    let ghost n2 = spec_image_name(s2@)->Ok_0.0 as int;
    proof {
        lemma_skip_skip(input@, w0 + n1 + w1, n2);
    }
    let s4 = skip_whitespace(s3);
    let ghost w2 = ws_run(s3@) as int;
    proof {
        lemma_skip_skip(input@, w0 + n1 + w1 + n2, w2);
    }
    let (s5, version) = match image_version(s4) {
        Ok(step) => step,
        Err(e) => {
            return Err(e);
        },
    };
    let ghost n3 = spec_image_version(s4@)->Ok_0.0 as int;
    proof {
        lemma_skip_skip(input@, w0 + n1 + w1 + n2 + w2, n3);
    }
    let rest = skip_whitespace(s5);
    let ghost w3 = ws_run(s5@) as int;
    proof {
        lemma_skip_skip(input@, w0 + n1 + w1 + n2 + w2 + n3, w3);
    }
    Ok(
        (
            rest,
            ActiveConf { active_config: key, image_name: label, image_version: version },
        ),
    )
}

/// Parses the passive record: header (which must be `[passive]`), the
/// readiness flag, then the three optional fields, each tried where the
/// input stands and consuming nothing when it does not match.
pub fn passive_config<'a>(input: &'a str) -> (r: Result<(&'a str, PassiveConf<'a>), ParseError>)
    ensures
        match r {
            Ok((rest, conf)) => spec_passive_config(input@) matches Ok((n, v)) && conf@ == v && n
                <= input@.len() && rest@ == input@.skip(n as int),
            Err(e) => spec_passive_config(input@) matches Err(e2) && e2 == e,
        },
{
    let s0 = skip_whitespace(input);
    let ghost w0 = ws_run(input@) as int;
    let (s1, key) = match config_keys(s0) {
        Ok(step) => step,
        Err(e) => {
            return Err(e);
        },
    };
    let ghost n1 = spec_config_keys(s0@)->Ok_0.0 as int;
    proof {
        lemma_skip_skip(input@, w0, n1);
    }
    match key {
        ConfigKeys::Passive => {},
        ConfigKeys::Active => {
            return Err(ParseError::UnrecognizedVariant);
        },
    }
    let s2 = skip_whitespace(s1);
    let ghost w1 = ws_run(s1@) as int;
    proof {
        lemma_skip_skip(input@, w0 + n1, w1);
    }
    let (s3, flag) = match ready_for_update(s2) {
        Ok(step) => step,
        Err(e) => {
            return Err(e);
        },
    };
    let ghost n2 = spec_ready_for_update(s2@)->Ok_0.0 as int;
    proof {
        lemma_skip_skip(input@, w0 + n1 + w1, n2);
    }
    let s4 = skip_whitespace(s3);
    let ghost w2 = ws_run(s3@) as int;
    proof {
        lemma_skip_skip(input@, w0 + n1 + w1 + n2, w2);
    }
    let (s5, name) = match image_name(s4) {
        Ok((more, label)) => (more, Some(label)),
        Err(_) => (s4, None),
    };
    let ghost dn = (match spec_image_name(s4@) {
        Ok((n, label)) => n,
        Err(_) => 0,
    }) as int;
    proof {
        assert(s4@.skip(0) =~= s4@);
        lemma_skip_skip(input@, w0 + n1 + w1 + n2 + w2, dn);
    }
    let s6 = skip_whitespace(s5);
    let ghost w3 = ws_run(s5@) as int;
    proof {
        lemma_skip_skip(input@, w0 + n1 + w1 + n2 + w2 + dn, w3);
    }
    let (s7, version) = match image_version(s6) {
        Ok((more, v)) => (more, Some(v)),
        Err(_) => (s6, None),
    };
    let ghost dv = (match spec_image_version(s6@) {
        Ok((n, v)) => n,
        Err(_) => 0,
    }) as int;
    proof {
        assert(s6@.skip(0) =~= s6@);
        lemma_skip_skip(input@, w0 + n1 + w1 + n2 + w2 + dn + w3, dv);
    }
    let s8 = skip_whitespace(s7);
    let ghost w4 = ws_run(s7@) as int;
    proof {
        lemma_skip_skip(input@, w0 + n1 + w1 + n2 + w2 + dn + w3 + dv, w4);
    }
    let (s9, status) = match update_status(s8) {
        Ok((more, st)) => (more, Some(st)),
        Err(_) => (s8, None),
    };
    let ghost ds = (match spec_update_status(s8@) {
        Ok((n, st)) => n,
        Err(_) => 0,
    }) as int;
    proof {
        assert(s8@.skip(0) =~= s8@);
        lemma_skip_skip(input@, w0 + n1 + w1 + n2 + w2 + dn + w3 + dv + w4, ds);
    }
    let rest = skip_whitespace(s9);
    let ghost w5 = ws_run(s9@) as int;
    proof {
        lemma_skip_skip(input@, w0 + n1 + w1 + n2 + w2 + dn + w3 + dv + w4 + ds, w5);
    }
    Ok(
        (
            rest,
            PassiveConf {
                passive_config: key,
                ready_for_update_flag: flag,
                image_name: name,
                image_version: version,
                update_status: status,
            },
        ),
    )
}

/// Parses the whole configuration: the active record, then the passive
/// record on what remains, returning both and the unconsumed remainder.
pub fn parse_config<'a>(input: &'a str) -> (r: Result<
    (&'a str, (ActiveConf<'a>, PassiveConf<'a>)),
    ParseError,
>)
    ensures
        match r {
            Ok((rest, conf)) => spec_parse_config(input@) matches Ok((n, v)) && conf.0@ == v.0
                && conf.1@ == v.1 && n <= input@.len() && rest@ == input@.skip(n as int),
            Err(e) => spec_parse_config(input@) matches Err(e2) && e2 == e,
        },
{
    let (rest1, active) = match active_config(input) {
        Ok(step) => step,
        Err(e) => {
            return Err(e);
        },
    };
    let ghost n = spec_active_config(input@)->Ok_0.0 as int;
    let (rest2, passive) = match passive_config(rest1) {
        Ok(step) => step,
        Err(e) => {
            return Err(e);
        },
    };
    let ghost m = spec_passive_config(rest1@)->Ok_0.0 as int;
    proof {
        lemma_skip_skip(input@, n, m);
    }
    Ok((rest2, (active, passive)))
}

} // verus!
