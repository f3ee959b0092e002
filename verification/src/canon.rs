//! Canonical serialization of a configuration, and the round-trip law:
//! re-parsing a serialized pair of records yields the records back,
//! unchanged, with empty remainder.

use vstd::prelude::*;
use crate::model::ActiveConf;
use crate::model::ActiveConfView;
use crate::model::PassiveConf;
use crate::model::PassiveConfView;
use crate::model::UpdateStatus;
use crate::number::dec_digits;
use crate::number::digit_char;

verus! {

/// The token a status serializes to.
pub open spec fn status_token(status: UpdateStatus) -> Seq<char> {
    match status {
        UpdateStatus::Updating => "updating"@,
        UpdateStatus::Testing => "testing"@,
        UpdateStatus::Success => "success"@,
    }
}

/// The token a flag serializes to.
pub open spec fn flag_token(flag: bool) -> Seq<char> {
    if flag {
        "true"@
    } else {
        "false"@
    }
}

/// The optional image-name line of a passive record, empty when absent.
pub open spec fn seg_name(name: Option<(Seq<char>, Seq<char>)>) -> Seq<char> {
    match name {
        Some(label) => "\n"@ + "image_name="@ + label.0 + label.1,
        None => Seq::<char>::empty(),
    }
}

/// The optional image-version line of a passive record, empty when absent.
pub open spec fn seg_version(version: Option<u32>) -> Seq<char> {
    match version {
        Some(v) => "\n"@ + "image_version="@ + "ver"@ + "_"@ + dec_digits(v as nat),
        None => Seq::<char>::empty(),
    }
}

/// The optional update-status line of a passive record, empty when absent.
pub open spec fn seg_status(status: Option<UpdateStatus>) -> Seq<char> {
    match status {
        Some(st) => "\n"@ + "update_status="@ + status_token(st),
        None => Seq::<char>::empty(),
    }
}

/// Canonical text of an active record: one field per line, no indentation.
pub open spec fn serialize_active(a: ActiveConfView) -> Seq<char> {
    "[active]"@ + "\n"@ + "image_name="@ + a.image_name.0 + a.image_name.1 + "\n"@
        + "image_version="@ + "ver"@ + "_"@ + dec_digits(a.image_version as nat)
}

/// Canonical text of a passive record: header, flag, then each present
/// optional field on its own line, in field order.
pub open spec fn serialize_passive(p: PassiveConfView) -> Seq<char> {
    "[passive]"@ + "\n"@ + "ready_for_update_flag="@ + flag_token(p.ready_for_update_flag)
        + seg_name(p.image_name) + seg_version(p.image_version) + seg_status(p.update_status)
}

/// Canonical text of a whole configuration.
pub open spec fn spec_serialize(a: ActiveConfView, p: PassiveConfView) -> Seq<char> {
    serialize_active(a) + "\n"@ + serialize_passive(p)
}

/// The one-character string for a decimal digit.
fn digit_str(d: u32) -> (r: &'static str)
    requires
        d < 10,
    ensures
        r@ == seq![digit_char(d as nat)],
{
    proof {
        reveal_strlit("0");
        reveal_strlit("1");
        reveal_strlit("2");
        reveal_strlit("3");
        reveal_strlit("4");
        reveal_strlit("5");
        reveal_strlit("6");
        reveal_strlit("7");
        reveal_strlit("8");
        reveal_strlit("9");
    }
    if d == 0 {
        "0"
    } else if d == 1 {
        "1"
    } else if d == 2 {
        "2"
    } else if d == 3 {
        "3"
    } else if d == 4 {
        "4"
    } else if d == 5 {
        "5"
    } else if d == 6 {
        "6"
    } else if d == 7 {
        "7"
    } else if d == 8 {
        "8"
    } else {
        "9"
    }
}

/// Appends the decimal rendering of `v`.
fn append_digits(out: &mut String, v: u32)
    ensures
        final (out)@ == old(out)@ + dec_digits(v as nat),
    decreases v,
{
    if v < 10 {
        out.append(digit_str(v));
    } else {
        append_digits(out, v / 10);
        out.append(digit_str(v % 10));
        proof {
            assert(old(out)@ + dec_digits((v / 10) as nat) + seq![digit_char((v % 10) as nat)]
                =~= old(out)@ + dec_digits(v as nat));
        }
    }
}

/// Serializes a pair of records to their canonical text.
#[verifier::rlimit(30)]
pub fn serialize_config(active: &ActiveConf, passive: &PassiveConf) -> (out: String)
    ensures
        out@ == spec_serialize(active@, passive@),
{
    let mut out = String::new();
    out.append("[active]");
    out.append("\n");
    out.append("image_name=");
    out.append(active.image_name.0);
    out.append(active.image_name.1);
    out.append("\n");
    out.append("image_version=");
    out.append("ver");
    out.append("_");
    append_digits(&mut out, active.image_version);
    proof {
        assert(out@ =~= serialize_active(active@));
    }
    out.append("\n");
    out.append("[passive]");
    out.append("\n");
    out.append("ready_for_update_flag=");
    if passive.ready_for_update_flag {
        out.append("true");
    } else {
        out.append("false");
    }
    let ghost head = serialize_active(active@) + "\n"@ + ("[passive]"@ + "\n"@
        + "ready_for_update_flag="@ + flag_token(passive@.ready_for_update_flag));
    proof {
        assert(out@ =~= head);
    }
    match passive.image_name {
        Some(label) => {
            out.append("\n");
            out.append("image_name=");
            out.append(label.0);
            out.append(label.1);
        },
        None => {},
    }
    proof {
        assert(out@ =~= head + seg_name(passive@.image_name));
    }
    match passive.image_version {
        Some(v) => {
            out.append("\n");
            out.append("image_version=");
            out.append("ver");
            out.append("_");
            append_digits(&mut out, v);
        },
        None => {},
    }
    proof {
        assert(out@ =~= head + seg_name(passive@.image_name) + seg_version(
            passive@.image_version,
        ));
    }
    match passive.update_status {
        Some(st) => {
            out.append("\n");
            out.append("update_status=");
            match st {
                UpdateStatus::Updating => out.append("updating"),
                UpdateStatus::Testing => out.append("testing"),
                UpdateStatus::Success => out.append("success"),
            }
        },
        None => {},
    }
    proof {
        assert(out@ =~= head + seg_name(passive@.image_name) + seg_version(passive@.image_version)
            + seg_status(passive@.update_status));
        assert(out@ =~= spec_serialize(active@, passive@));
    }
    out
}

} // verus!
