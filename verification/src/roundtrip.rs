//! The round-trip law: parsing the canonical serialization of any pair of
//! records the grammar can produce yields exactly those records, consuming
//! the whole text.  Built up one token at a time.

use vstd::prelude::*;
use crate::canon::flag_token;
use crate::canon::seg_name;
use crate::canon::seg_status;
use crate::canon::seg_version;
use crate::canon::serialize_active;
use crate::canon::serialize_passive;
use crate::canon::spec_serialize;
use crate::canon::status_token;
use crate::grammar::spec_active_config;
use crate::grammar::spec_config_keys;
use crate::grammar::spec_image_name;
use crate::grammar::spec_image_version;
use crate::grammar::spec_parse_config;
use crate::grammar::spec_passive_config;
use crate::grammar::spec_ready_for_update;
use crate::grammar::spec_update_status;
use crate::model::ActiveConfView;
use crate::model::ConfigKeys;
use crate::model::ParseError;
use crate::model::PassiveConfView;
use crate::model::UpdateStatus;
use crate::model::valid_active_view;
use crate::model::valid_label;
use crate::model::valid_passive_view;
use crate::number::dec_digits;
use crate::number::digits_val;
use crate::number::lemma_dec_digits_are_digits;
use crate::number::lemma_digits_val_dec_digits;
use crate::text::is_digit;
use crate::text::is_name_char;
use crate::text::is_ws;
use crate::text::lemma_digit_run_at;
use crate::text::lemma_name_run_at;
use crate::text::lemma_skip_skip;
use crate::text::lemma_starts_with_concat;
use crate::text::lemma_ws_run_at;
use crate::text::starts_with;
use crate::text::ws_run;

verus! {

/// A sequence that does not open with whitespace has an empty whitespace run.
proof fn lemma_ws_run_zero(s: Seq<char>)
    requires
        s.len() == 0 || !is_ws(s[0]),
    ensures
        ws_run(s) == 0,
        s.skip(0) == s,
{
    lemma_ws_run_at(s, 0);
    assert(s.skip(0) =~= s);
}

/// One line feed before a non-whitespace character is a whitespace run of
/// exactly one.
proof fn lemma_ws_run_nl(body: Seq<char>)
    requires
        body.len() >= 1,
        !is_ws(body[0]),
    ensures
        ws_run("\n"@ + body) == 1,
        ("\n"@ + body).skip(1) == body,
{
    reveal_strlit("\n");
    let s = "\n"@ + body;
    assert(s[0] == '\n');
    assert(s[1] == body[0]);
    lemma_ws_run_at(s, 1);
    assert(s.skip(1) =~= body);
}

/// Text opening a version field does not open a name field.
proof fn lemma_not_image_name_version(t: Seq<char>)
    ensures
        !starts_with("image_version="@ + t, "image_name="@),
{
    reveal_strlit("image_name=");
    reveal_strlit("image_version=");
    let s = "image_version="@ + t;
    assert(s[6] == 'v');
    if starts_with(s, "image_name="@) {
        assert(s.subrange(0, 11)[6] == s[6]);
    }
}

/// Text opening a status field does not open a name field.
proof fn lemma_not_image_name_status(t: Seq<char>)
    ensures
        !starts_with("update_status="@ + t, "image_name="@),
{
    reveal_strlit("image_name=");
    reveal_strlit("update_status=");
    let s = "update_status="@ + t;
    assert(s[0] == 'u');
    if starts_with(s, "image_name="@) {
        assert(s.subrange(0, 11)[0] == s[0]);
    }
}

/// Text opening a status field does not open a version field.
proof fn lemma_not_image_version_status(t: Seq<char>)
    ensures
        !starts_with("update_status="@ + t, "image_version="@),
{
    reveal_strlit("image_version=");
    reveal_strlit("update_status=");
    let s = "update_status="@ + t;
    assert(s[0] == 'u');
    if starts_with(s, "image_version="@) {
        assert(s.subrange(0, 14)[0] == s[0]);
    }
}

/// An `[active]` header parses to the `Active` tag whatever follows it.
proof fn lemma_config_keys_active(rest: Seq<char>)
    ensures
        spec_config_keys("[active]"@ + rest) == Ok::<(nat, ConfigKeys), ParseError>(
            ("[active]"@.len(), ConfigKeys::Active),
        ),
        ("[active]"@ + rest).skip("[active]"@.len() as int) == rest,
{
    lemma_starts_with_concat("[active]"@, rest);
}

/// A `[passive]` header parses to the `Passive` tag whatever follows it.
proof fn lemma_config_keys_passive(rest: Seq<char>)
    ensures
        spec_config_keys("[passive]"@ + rest) == Ok::<(nat, ConfigKeys), ParseError>(
            ("[passive]"@.len(), ConfigKeys::Passive),
        ),
        ("[passive]"@ + rest).skip("[passive]"@.len() as int) == rest,
{
    reveal_strlit("[active]");
    reveal_strlit("[passive]");
    let s = "[passive]"@ + rest;
    lemma_starts_with_concat("[passive]"@, rest);
    assert(s[1] == 'p');
    if starts_with(s, "[active]"@) {
        assert(s.subrange(0, 8)[1] == s[1]);
    }
}

/// A serialized image-name field parses back to its label, whatever follows.
proof fn lemma_image_name_rt(base: Seq<char>, rest: Seq<char>)
    requires
        base.len() >= 1,
        forall|k: int| 0 <= k < base.len() ==> is_name_char(base[k]),
    ensures
        spec_image_name("image_name="@ + base + ".itb"@ + rest) == Ok::<
            (nat, (Seq<char>, Seq<char>)),
            ParseError,
        >(("image_name="@.len() + base.len() + ".itb"@.len(), (base, ".itb"@))),
        ("image_name="@ + base + ".itb"@ + rest).skip(
            ("image_name="@.len() + base.len() + ".itb"@.len()) as int,
        ) == rest,
{
    reveal_strlit("image_name=");
    reveal_strlit(".itb");
    let p = "image_name="@;
    let ext = ".itb"@;
    let tail = base + ext + rest;
    let s = p + base + ext + rest;
    assert(s =~= p + tail);
    lemma_starts_with_concat(p, tail);
    assert forall|k: int| 0 <= k < base.len() implies is_name_char(tail[k]) by {
        assert(tail[k] == base[k]);
    }
    assert(tail[base.len() as int] == ext[0]);
    assert(ext[0] == '.');
    lemma_name_run_at(tail, base.len() as int);
    assert(tail.skip(base.len() as int) =~= ext + rest);
    lemma_starts_with_concat(ext, rest);
    assert(tail.take(base.len() as int) =~= base);
    lemma_skip_skip(s, p.len() as int, base.len() as int);
    lemma_skip_skip(s, p.len() as int + base.len(), ext.len() as int);
}

/// A serialized version field parses back to its number, provided the digit
/// run ends the field: what follows is empty or opens with whitespace.
proof fn lemma_image_version_rt(v: u32, rest: Seq<char>)
    requires
        rest.len() == 0 || is_ws(rest[0]),
    ensures
        spec_image_version("image_version="@ + "ver"@ + "_"@ + dec_digits(v as nat) + rest)
            == Ok::<(nat, u32), ParseError>(
            (
                "image_version="@.len() + "ver"@.len() + "_"@.len() + dec_digits(v as nat).len(),
                v,
            ),
        ),
        ("image_version="@ + "ver"@ + "_"@ + dec_digits(v as nat) + rest).skip(
            ("image_version="@.len() + "ver"@.len() + "_"@.len() + dec_digits(
                v as nat,
            ).len()) as int,
        ) == rest,
{
    reveal_strlit("image_version=");
    reveal_strlit("ver");
    reveal_strlit("_");
    let p = "image_version="@;
    let w = "ver"@;
    let u = "_"@;
    let d = dec_digits(v as nat);
    let s = p + w + u + d + rest;
    lemma_dec_digits_are_digits(v as nat);
    lemma_digits_val_dec_digits(v as nat);
    assert(s =~= p + (w + u + (d + rest)));
    lemma_starts_with_concat(p, w + u + (d + rest));
    let s1 = s.skip(p.len() as int);
    assert(s1 =~= w + (u + (d + rest)));
    lemma_starts_with_concat(w, u + (d + rest));
    let s2 = s1.skip(w.len() as int);
    assert(s2 =~= u + (d + rest));
    lemma_starts_with_concat(u, d + rest);
    let s3 = s2.skip(u.len() as int);
    assert(s3 == d + rest);
    assert forall|k: int| 0 <= k < d.len() implies is_digit(s3[k]) by {
        assert(s3[k] == d[k]);
    }
    if rest.len() > 0 {
        assert(s3[d.len() as int] == rest[0]);
        assert(!is_digit(rest[0]));
    }
    lemma_digit_run_at(s3, d.len() as int);
    assert(s3.take(d.len() as int) =~= d);
    assert(digits_val(d) == v);
    assert(s3.skip(d.len() as int) =~= rest);
    lemma_skip_skip(s, p.len() as int, w.len() as int);
    lemma_skip_skip(s, p.len() as int + w.len(), u.len() as int);
    lemma_skip_skip(s, p.len() as int + w.len() + u.len(), d.len() as int);
}

/// A serialized readiness flag parses back to its boolean, whatever follows.
proof fn lemma_ready_rt(flag: bool, rest: Seq<char>)
    ensures
        spec_ready_for_update("ready_for_update_flag="@ + flag_token(flag) + rest) == Ok::<
            (nat, bool),
            ParseError,
        >(("ready_for_update_flag="@.len() + flag_token(flag).len(), flag)),
        ("ready_for_update_flag="@ + flag_token(flag) + rest).skip(
            ("ready_for_update_flag="@.len() + flag_token(flag).len()) as int,
        ) == rest,
{
    reveal_strlit("true");
    reveal_strlit("false");
    let p = "ready_for_update_flag="@;
    let t = flag_token(flag);
    let s = p + t + rest;
    assert(s =~= p + (t + rest));
    lemma_starts_with_concat(p, t + rest);
    let s1 = s.skip(p.len() as int);
    lemma_starts_with_concat(t, rest);
    if !flag {
        assert(s1[0] == 'f');
        if starts_with(s1, "true"@) {
            assert(s1.subrange(0, 4)[0] == s1[0]);
        }
    }
    lemma_skip_skip(s, p.len() as int, t.len() as int);
}

/// A serialized status token parses back to its tag, whatever follows.
proof fn lemma_status_rt(status: UpdateStatus, rest: Seq<char>)
    ensures
        spec_update_status("update_status="@ + status_token(status) + rest) == Ok::<
            (nat, UpdateStatus),
            ParseError,
        >(("update_status="@.len() + status_token(status).len(), status)),
        ("update_status="@ + status_token(status) + rest).skip(
            ("update_status="@.len() + status_token(status).len()) as int,
        ) == rest,
{
    reveal_strlit("updating");
    reveal_strlit("testing");
    reveal_strlit("success");
    let p = "update_status="@;
    let t = status_token(status);
    let s = p + t + rest;
    assert(s =~= p + (t + rest));
    lemma_starts_with_concat(p, t + rest);
    let s1 = s.skip(p.len() as int);
    lemma_starts_with_concat(t, rest);
    match status {
        UpdateStatus::Updating => {},
        UpdateStatus::Testing => {
            assert(s1[0] == 't');
            if starts_with(s1, "updating"@) {
                assert(s1.subrange(0, 8)[0] == s1[0]);
            }
        },
        UpdateStatus::Success => {
            assert(s1[0] == 's');
            if starts_with(s1, "updating"@) {
                assert(s1.subrange(0, 8)[0] == s1[0]);
            }
            if starts_with(s1, "testing"@) {
                assert(s1.subrange(0, 7)[0] == s1[0]);
            }
        },
    }
    lemma_skip_skip(s, p.len() as int, t.len() as int);
}

/// The last steps of the passive record — whitespace, the optional status
/// field, trailing whitespace — consume exactly the serialized status
/// segment and recover the status.  `nl` says whether the segment still
/// carries its leading line feed or an earlier whitespace skip took it.
proof fn lemma_status_tail(status: Option<UpdateStatus>, nl: bool, s: Seq<char>)
    requires
        match status {
            Some(st) => s == (if nl {
                seg_status(Some(st))
            } else {
                "update_status="@ + status_token(st)
            }),
            None => s.len() == 0,
        },
    ensures
        ({
            let w4 = ws_run(s);
            let s8 = s.skip(w4 as int);
            let step = match spec_update_status(s8) {
                Ok((n, st)) => (n, Some(st)),
                Err(e) => (0 as nat, None::<UpdateStatus>),
            };
            let s9 = s8.skip(step.0 as int);
            let w5 = ws_run(s9);
            &&& step.1 == status
            &&& w4 + step.0 + w5 == s.len()
        }),
{
    reveal_strlit("update_status=");
    reveal_strlit("updating");
    reveal_strlit("testing");
    reveal_strlit("success");
    match status {
        None => {
            lemma_ws_run_zero(s);
            assert(!starts_with(s, "update_status="@));
            assert(s.skip(0) =~= s);
        },
        Some(st) => {
            let body = "update_status="@ + status_token(st);
            assert(body[0] == 'u');
            if nl {
                assert(seg_status(Some(st)) =~= "\n"@ + body);
                lemma_ws_run_nl(body);
            } else {
                lemma_ws_run_zero(s);
            }
            let s8 = s.skip(ws_run(s) as int);
            assert(s8 == body);
            assert(body =~= "update_status="@ + status_token(st) + Seq::<char>::empty());
            lemma_status_rt(st, Seq::<char>::empty());
            let total = ("update_status="@.len() + status_token(st).len()) as int;
            assert(s8.skip(total) == Seq::<char>::empty());
            lemma_ws_run_zero(Seq::<char>::empty());
        },
    }
}

/// The version steps of the passive record, then the status steps: together
/// they consume exactly the serialized version and status segments.
proof fn lemma_version_tail(
    version: Option<u32>,
    status: Option<UpdateStatus>,
    nl: bool,
    s: Seq<char>,
)
    requires
        match version {
            Some(v) => s == (if nl {
                seg_version(Some(v))
            } else {
                "image_version="@ + "ver"@ + "_"@ + dec_digits(v as nat)
            }) + seg_status(status),
            None => match status {
                Some(st) => s == (if nl {
                    seg_status(Some(st))
                } else {
                    "update_status="@ + status_token(st)
                }),
                None => s.len() == 0,
            },
        },
    ensures
        ({
            let w3 = ws_run(s);
            let s6 = s.skip(w3 as int);
            let vstep = match spec_image_version(s6) {
                Ok((n, v)) => (n, Some(v)),
                Err(e) => (0 as nat, None::<u32>),
            };
            let s7 = s6.skip(vstep.0 as int);
            let w4 = ws_run(s7);
            let s8 = s7.skip(w4 as int);
            let sstep = match spec_update_status(s8) {
                Ok((n, st)) => (n, Some(st)),
                Err(e) => (0 as nat, None::<UpdateStatus>),
            };
            let s9 = s8.skip(sstep.0 as int);
            let w5 = ws_run(s9);
            &&& vstep.1 == version
            &&& sstep.1 == status
            &&& w3 + vstep.0 + w4 + sstep.0 + w5 == s.len()
        }),
{
    reveal_strlit("image_version=");
    reveal_strlit("update_status=");
    reveal_strlit("\n");
    match version {
        Some(v) => {
            let body = "image_version="@ + "ver"@ + "_"@ + dec_digits(v as nat);
            lemma_dec_digits_are_digits(v as nat);
            assert(body[0] == 'i');
            let tail = body + seg_status(status);
            if nl {
                assert(seg_version(Some(v)) =~= "\n"@ + body);
                assert(s =~= "\n"@ + tail);
                assert(tail[0] == body[0]);
                lemma_ws_run_nl(tail);
            } else {
                assert(s == tail);
                assert(s[0] == body[0]);
                lemma_ws_run_zero(s);
            }
            let s6 = s.skip(ws_run(s) as int);
            assert(s6 == tail);
            match status {
                Some(st) => {
                    assert(seg_status(status)[0] == '\n');
                    assert(is_ws(seg_status(status)[0]));
                },
                None => {},
            }
            assert(tail =~= "image_version="@ + "ver"@ + "_"@ + dec_digits(v as nat)
                + seg_status(status));
            lemma_image_version_rt(v, seg_status(status));
            let total = ("image_version="@.len() + "ver"@.len() + "_"@.len() + dec_digits(
                v as nat,
            ).len()) as int;
            let s7 = s6.skip(total);
            assert(s7 == seg_status(status));
            match status {
                Some(st) => {
                    lemma_status_tail(status, true, s7);
                },
                None => {
                    lemma_status_tail(status, true, s7);
                },
            }
        },
        None => {
            match status {
                Some(st) => {
                    let body = "update_status="@ + status_token(st);
                    assert(body[0] == 'u');
                    if nl {
                        assert(seg_status(Some(st)) =~= "\n"@ + body);
                        lemma_ws_run_nl(body);
                    } else {
                        lemma_ws_run_zero(s);
                    }
                    let s6 = s.skip(ws_run(s) as int);
                    assert(s6 == body);
                    lemma_not_image_version_status(status_token(st));
                    assert(spec_image_version(s6) is Err);
                    assert(s6.skip(0) =~= s6);
                    lemma_status_tail(status, false, s6);
                },
                None => {
                    lemma_ws_run_zero(s);
                    assert(!starts_with(s, "image_version="@));
                    assert(s.skip(0) =~= s);
                    lemma_status_tail(status, false, s);
                },
            }
        },
    }
}

/// The parse trace of the three optional fields from `s`: each field comes
/// back as serialized, and the whole of `s` is consumed.
spec fn passive_tail_consumed(
    name: Option<(Seq<char>, Seq<char>)>,
    version: Option<u32>,
    status: Option<UpdateStatus>,
    s: Seq<char>,
) -> bool {
    let w2 = ws_run(s);
    let s4 = s.skip(w2 as int);
    let nstep = match spec_image_name(s4) {
        Ok((n, label)) => (n, Some(label)),
        Err(e) => (0 as nat, None::<(Seq<char>, Seq<char>)>),
    };
    let s5 = s4.skip(nstep.0 as int);
    let w3 = ws_run(s5);
    let s6 = s5.skip(w3 as int);
    let vstep = match spec_image_version(s6) {
        Ok((n, v)) => (n, Some(v)),
        Err(e) => (0 as nat, None::<u32>),
    };
    let s7 = s6.skip(vstep.0 as int);
    let w4 = ws_run(s7);
    let s8 = s7.skip(w4 as int);
    let sstep = match spec_update_status(s8) {
        Ok((n, st)) => (n, Some(st)),
        Err(e) => (0 as nat, None::<UpdateStatus>),
    };
    let s9 = s8.skip(sstep.0 as int);
    let w5 = ws_run(s9);
    &&& nstep.1 == name
    &&& vstep.1 == version
    &&& sstep.1 == status
    &&& w2 + nstep.0 + w3 + vstep.0 + w4 + sstep.0 + w5 == s.len()
}

/// The name steps of the passive record, then everything after: together
/// they consume exactly the three serialized optional segments.
proof fn lemma_name_tail(
    name: Option<(Seq<char>, Seq<char>)>,
    version: Option<u32>,
    status: Option<UpdateStatus>,
    nl: bool,
    s: Seq<char>,
)
    requires
        match name {
            Some(label) => valid_label(label) && s == (if nl {
                seg_name(Some(label))
            } else {
                "image_name="@ + label.0 + label.1
            }) + seg_version(version) + seg_status(status),
            None => match version {
                Some(v) => s == (if nl {
                    seg_version(Some(v))
                } else {
                    "image_version="@ + "ver"@ + "_"@ + dec_digits(v as nat)
                }) + seg_status(status),
                None => match status {
                    Some(st) => s == (if nl {
                        seg_status(Some(st))
                    } else {
                        "update_status="@ + status_token(st)
                    }),
                    None => s.len() == 0,
                },
            },
        },
    ensures
        passive_tail_consumed(name, version, status, s),
{
    reveal_strlit("image_name=");
    match name {
        Some(label) => {
            lemma_name_tail_present(label, version, status, nl, s);
        },
        None => {
            match version {
                Some(v) => {
                    lemma_name_tail_at_version(v, status, nl, s);
                },
                None => {
                    match status {
                        Some(st) => {
                            lemma_name_tail_at_status(st, nl, s);
                        },
                        None => {
                            reveal_strlit("image_name=");
                            lemma_ws_run_zero(s);
                            assert(!starts_with(s, "image_name="@));
                            assert(s.skip(0) =~= s);
                            lemma_version_tail(None, None, false, s);
                        },
                    }
                },
            }
        },
    }
}

#[verifier::rlimit(80)]
proof fn lemma_name_tail_present(
    label: (Seq<char>, Seq<char>),
    version: Option<u32>,
    status: Option<UpdateStatus>,
    nl: bool,
    s: Seq<char>,
)
    requires
        valid_label(label),
        s == (if nl {
            seg_name(Some(label))
        } else {
            "image_name="@ + label.0 + label.1
        }) + seg_version(version) + seg_status(status),
    ensures
        passive_tail_consumed(Some(label), version, status, s),
{
    reveal_strlit("image_name=");
    reveal_strlit(".itb");
    reveal_strlit("\n");
    let body = "image_name="@ + label.0 + label.1;
    assert(body[0] == 'i');
    let tail = body + seg_version(version) + seg_status(status);
    if nl {
        assert(seg_name(Some(label)) =~= "\n"@ + body);
        assert(s =~= "\n"@ + tail);
        assert(tail[0] == body[0]);
        lemma_ws_run_nl(tail);
    } else {
        assert(s == tail);
        assert(s[0] == body[0]);
        lemma_ws_run_zero(s);
    }
    let s4 = s.skip(ws_run(s) as int);
    assert(s4 == tail);
    assert(label.1 == ".itb"@);
    assert(tail =~= "image_name="@ + label.0 + ".itb"@ + (seg_version(version) + seg_status(
        status,
    )));
    lemma_image_name_rt(label.0, seg_version(version) + seg_status(status));
    let total = ("image_name="@.len() + label.0.len() + ".itb"@.len()) as int;
    let s5 = s4.skip(total);
    assert(s5 == seg_version(version) + seg_status(status));
    match version {
        Some(v) => {
            lemma_version_tail(version, status, true, s5);
        },
        None => {
            assert(s5 =~= seg_status(status));
            lemma_version_tail(version, status, true, s5);
        },
    }
}

proof fn lemma_name_tail_at_version(
    v: u32,
    status: Option<UpdateStatus>,
    nl: bool,
    s: Seq<char>,
)
    requires
        s == (if nl {
            seg_version(Some(v))
        } else {
            "image_version="@ + "ver"@ + "_"@ + dec_digits(v as nat)
        }) + seg_status(status),
    ensures
        passive_tail_consumed(None, Some(v), status, s),
{
    reveal_strlit("image_version=");
    reveal_strlit("\n");
    let body = "image_version="@ + "ver"@ + "_"@ + dec_digits(v as nat);
    assert(body[0] == 'i');
    let tail = body + seg_status(status);
    if nl {
        assert(seg_version(Some(v)) =~= "\n"@ + body);
        assert(s =~= "\n"@ + tail);
        assert(tail[0] == body[0]);
        lemma_ws_run_nl(tail);
    } else {
        assert(s == tail);
        assert(s[0] == body[0]);
        lemma_ws_run_zero(s);
    }
    let s4 = s.skip(ws_run(s) as int);
    assert(s4 == tail);
    assert(tail =~= "image_version="@ + ("ver"@ + "_"@ + dec_digits(v as nat) + seg_status(
        status,
    )));
    lemma_not_image_name_version("ver"@ + "_"@ + dec_digits(v as nat) + seg_status(status));
    assert(spec_image_name(s4) is Err);
    assert(s4.skip(0) =~= s4);
    lemma_version_tail(Some(v), status, false, s4);
}

/// A serialized active record followed by text that opens with whitespace
/// (or by nothing) parses back to the record, consuming the record's text
/// plus the whitespace run that follows it.
#[verifier::rlimit(80)]
pub proof fn lemma_active_rt(a: ActiveConfView, rest: Seq<char>)
    requires
        valid_active_view(a),
        rest.len() == 0 || is_ws(rest[0]),
    ensures
        spec_active_config(serialize_active(a) + rest) == Ok::<(nat, ActiveConfView), ParseError>(
            (serialize_active(a).len() + ws_run(rest), a),
        ),
        (serialize_active(a) + rest).skip((serialize_active(a).len() + ws_run(rest)) as int)
            == rest.skip(ws_run(rest) as int),
{
    reveal_strlit("[active]");
    reveal_strlit("image_name=");
    reveal_strlit(".itb");
    reveal_strlit("image_version=");
    reveal_strlit("ver");
    reveal_strlit("_");
    reveal_strlit("\n");
    let base = a.image_name.0;
    let d = dec_digits(a.image_version as nat);
    let vseg = "image_version="@ + "ver"@ + "_"@ + d;
    let s = serialize_active(a) + rest;
    assert(a.image_name.1 == ".itb"@);
    lemma_dec_digits_are_digits(a.image_version as nat);
    assert(s[0] == '[');
    lemma_ws_run_zero(s);
    let tail0 = "\n"@ + "image_name="@ + base + ".itb"@ + "\n"@ + vseg + rest;
    assert(s =~= "[active]"@ + tail0);
    lemma_config_keys_active(tail0);
    let tail1 = "image_name="@ + base + ".itb"@ + "\n"@ + vseg + rest;
    assert(tail0 =~= "\n"@ + tail1);
    assert(tail1[0] == 'i');
    lemma_ws_run_nl(tail1);
    assert(tail1 =~= "image_name="@ + base + ".itb"@ + ("\n"@ + (vseg + rest)));
    lemma_image_name_rt(base, "\n"@ + (vseg + rest));
    let tail2 = vseg + rest;
    assert(tail2[0] == 'i');
    lemma_ws_run_nl(tail2);
    assert(tail2 =~= "image_version="@ + "ver"@ + "_"@ + d + rest);
    lemma_image_version_rt(a.image_version, rest);
    crate::text::lemma_ws_run_props(rest);
    assert(ActiveConfView {
        active_config: ConfigKeys::Active,
        image_name: (base, ".itb"@),
        image_version: a.image_version,
    } =~= a);
    lemma_starts_with_concat(serialize_active(a), rest);
    lemma_skip_skip(s, serialize_active(a).len() as int, ws_run(rest) as int);
}

/// The three serialized optional segments of a passive record parse back to
/// its three optional fields, consuming the segments exactly.
proof fn lemma_passive_segs(p: PassiveConfView)
    requires
        valid_passive_view(p),
    ensures
        passive_tail_consumed(
            p.image_name,
            p.image_version,
            p.update_status,
            seg_name(p.image_name) + seg_version(p.image_version) + seg_status(p.update_status),
        ),
{
    let segs = seg_name(p.image_name) + seg_version(p.image_version) + seg_status(p.update_status);
    match p.image_name {
        Some(label) => {
            lemma_name_tail(p.image_name, p.image_version, p.update_status, true, segs);
        },
        None => {
            match p.image_version {
                Some(v) => {
                    assert(segs =~= seg_version(p.image_version) + seg_status(p.update_status));
                    lemma_name_tail(None, p.image_version, p.update_status, true, segs);
                },
                None => {
                    match p.update_status {
                        Some(st) => {
                            assert(segs =~= seg_status(p.update_status));
                            lemma_name_tail(None, None, p.update_status, true, segs);
                        },
                        None => {
                            assert(segs.len() == 0);
                            lemma_name_tail(None, None, None, true, segs);
                        },
                    }
                },
            }
        },
    }
}

/// A serialized passive record parses back to the record, consuming it all.
#[verifier::rlimit(100)]
pub proof fn lemma_passive_rt(p: PassiveConfView)
    requires
        valid_passive_view(p),
    ensures
        spec_passive_config(serialize_passive(p)) == Ok::<(nat, PassiveConfView), ParseError>(
            (serialize_passive(p).len(), p),
        ),
{
    reveal_strlit("[passive]");
    reveal_strlit("ready_for_update_flag=");
    reveal_strlit("true");
    reveal_strlit("false");
    reveal_strlit("\n");
    let ft = flag_token(p.ready_for_update_flag);
    let segs = seg_name(p.image_name) + seg_version(p.image_version) + seg_status(p.update_status);
    let s = serialize_passive(p);
    assert(s[0] == '[');
    lemma_ws_run_zero(s);
    let tail0 = "\n"@ + "ready_for_update_flag="@ + ft + segs;
    assert(s =~= "[passive]"@ + tail0);
    lemma_config_keys_passive(tail0);
    let tail1 = "ready_for_update_flag="@ + ft + segs;
    assert(tail0 =~= "\n"@ + tail1);
    assert(tail1[0] == 'r');
    lemma_ws_run_nl(tail1);
    lemma_ready_rt(p.ready_for_update_flag, segs);
    lemma_passive_segs(p);
    assert(ws_run(s) == 0);
    let s0 = s.skip(0);
    assert(s0 == s);
    assert(spec_config_keys(s0) == Ok::<(nat, ConfigKeys), ParseError>(
        ("[passive]"@.len(), ConfigKeys::Passive),
    ));
    let s1 = s0.skip("[passive]"@.len() as int);
    assert(s1 == tail0);
    assert(ws_run(s1) == 1);
    let s2 = s1.skip(1);
    assert(s2 == tail1);
    let n2 = "ready_for_update_flag="@.len() + ft.len();
    assert(spec_ready_for_update(s2) == Ok::<(nat, bool), ParseError>(
        (n2, p.ready_for_update_flag),
    ));
    let s3 = s2.skip(n2 as int);
    assert(s3 == segs);
    assert(passive_tail_consumed(p.image_name, p.image_version, p.update_status, s3));
    assert(PassiveConfView {
        passive_config: ConfigKeys::Passive,
        ready_for_update_flag: p.ready_for_update_flag,
        image_name: p.image_name,
        image_version: p.image_version,
        update_status: p.update_status,
    } =~= p);
}

/// The round-trip law: any records the grammar can produce, serialized
/// canonically and parsed again, come back unchanged with empty remainder.
pub proof fn lemma_parse_serialize_round_trip(a: ActiveConfView, p: PassiveConfView)
    requires
        valid_active_view(a),
        valid_passive_view(p),
    ensures
        spec_parse_config(spec_serialize(a, p)) == Ok::<
            (nat, (ActiveConfView, PassiveConfView)),
            ParseError,
        >((spec_serialize(a, p).len(), (a, p))),
{
    reveal_strlit("[passive]");
    reveal_strlit("\n");
    let rest = "\n"@ + serialize_passive(p);
    let s = spec_serialize(a, p);
    assert(s =~= serialize_active(a) + rest);
    assert(rest[0] == '\n');
    lemma_active_rt(a, rest);
    assert(serialize_passive(p)[0] == '[');
    lemma_ws_run_nl(serialize_passive(p));
    lemma_passive_rt(p);
}

/// A well-formed image-name field yields its label and leaves any trailing
/// text untouched, whatever that text is.
pub proof fn lemma_image_name_trailing(x: Seq<char>)
    ensures
        spec_image_name("image_name=signed-apertis-rpi4.itb"@ + x) matches Ok((n, label))
            && label == ("signed-apertis-rpi4"@, ".itb"@) && (
        "image_name=signed-apertis-rpi4.itb"@ + x).skip(n as int) == x,
{
    reveal_strlit("image_name=signed-apertis-rpi4.itb");
    reveal_strlit("signed-apertis-rpi4");
    reveal_strlit("image_name=");
    reveal_strlit(".itb");
    assert("image_name=signed-apertis-rpi4.itb"@ + x =~= "image_name="@ + "signed-apertis-rpi4"@
        + ".itb"@ + x);
    assert(forall|k: int| 0 <= k < "signed-apertis-rpi4"@.len() ==> is_name_char(
        #[trigger] "signed-apertis-rpi4"@[k],
    ));
    lemma_image_name_rt("signed-apertis-rpi4"@, x);
}

proof fn lemma_name_tail_at_status(st: UpdateStatus, nl: bool, s: Seq<char>)
    requires
        s == (if nl {
            seg_status(Some(st))
        } else {
            "update_status="@ + status_token(st)
        }),
    ensures
        passive_tail_consumed(None, None, Some(st), s),
{
    reveal_strlit("update_status=");
    reveal_strlit("\n");
    let body = "update_status="@ + status_token(st);
    assert(body[0] == 'u');
    if nl {
        assert(seg_status(Some(st)) =~= "\n"@ + body);
        lemma_ws_run_nl(body);
    } else {
        lemma_ws_run_zero(s);
    }
    let s4 = s.skip(ws_run(s) as int);
    assert(s4 == body);
    lemma_not_image_name_status(status_token(st));
    assert(spec_image_name(s4) is Err);
    assert(s4.skip(0) =~= s4);
    lemma_version_tail(None, Some(st), false, s4);
}

} // verus!
