//! Metadata sidecar encoding.
//!
//! A start event is persisted as one JSON document with a fixed field order:
//! `system`, `identity`, `attempt_id`, `attempted_attrs`, `skipped_attrs`.
//! String fields are escaped as JSON strings (quote, backslash, and control
//! bytes; other bytes pass through unchanged), the optional attribute lists
//! become JSON arrays of strings or `null`. The encoding is byte-exact: the
//! specification below fixes every byte of the document.

use vstd::prelude::*;

use crate::message::BuildLogStart;
use crate::message::BuildLogStartV;

verus! {

/// Lowercase hex digit for `n < 16`.
pub open spec fn hex_digit(n: u8) -> u8 {
    if n < 10 {
        (0x30 + n) as u8
    } else {
        (0x57 + n) as u8
    }
}

/// How one byte of a string field appears inside a JSON string: quote and
/// backslash are escaped, control bytes use their short escape or `\u00xx`,
/// everything else is copied.
pub open spec fn spec_escape_byte(b: u8) -> Seq<u8> {
    if b == 0x22 {
        seq![0x5cu8, 0x22u8]
    } else if b == 0x5c {
        seq![0x5cu8, 0x5cu8]
    } else if b == 0x08 {
        seq![0x5cu8, 0x62u8]
    } else if b == 0x09 {
        seq![0x5cu8, 0x74u8]
    } else if b == 0x0a {
        seq![0x5cu8, 0x6eu8]
    } else if b == 0x0c {
        seq![0x5cu8, 0x66u8]
    } else if b == 0x0d {
        seq![0x5cu8, 0x72u8]
    } else if b < 0x20 {
        seq![0x5cu8, 0x75u8, 0x30u8, 0x30u8, hex_digit(b / 16), hex_digit(b % 16)]
    } else {
        seq![b]
    }
}

/// JSON string-body escaping of a whole field.
pub open spec fn spec_escape(s: Seq<u8>) -> Seq<u8>
    decreases s.len(),
{
    if s.len() == 0 {
        Seq::empty()
    } else {
        spec_escape(s.drop_last()) + spec_escape_byte(s.last())
    }
}

pub open spec fn lit_obj_open() -> Seq<u8> {
    seq![0x7bu8, 0x22u8, 0x73u8, 0x79u8, 0x73u8, 0x74u8, 0x65u8, 0x6du8, 0x22u8, 0x3au8, 0x22u8]
}

pub open spec fn lit_sep_identity() -> Seq<u8> {
    seq![0x22u8, 0x2cu8, 0x22u8, 0x69u8, 0x64u8, 0x65u8, 0x6eu8, 0x74u8, 0x69u8, 0x74u8, 0x79u8, 0x22u8, 0x3au8, 0x22u8]
}

pub open spec fn lit_sep_attempt() -> Seq<u8> {
    seq![0x22u8, 0x2cu8, 0x22u8, 0x61u8, 0x74u8, 0x74u8, 0x65u8, 0x6du8, 0x70u8, 0x74u8, 0x5fu8, 0x69u8, 0x64u8, 0x22u8, 0x3au8, 0x22u8]
}

pub open spec fn lit_sep_attempted() -> Seq<u8> {
    seq![0x22u8, 0x2cu8, 0x22u8, 0x61u8, 0x74u8, 0x74u8, 0x65u8, 0x6du8, 0x70u8, 0x74u8, 0x65u8, 0x64u8, 0x5fu8, 0x61u8, 0x74u8, 0x74u8, 0x72u8, 0x73u8, 0x22u8, 0x3au8]
}

pub open spec fn lit_sep_skipped() -> Seq<u8> {
    seq![0x2cu8, 0x22u8, 0x73u8, 0x6bu8, 0x69u8, 0x70u8, 0x70u8, 0x65u8, 0x64u8, 0x5fu8, 0x61u8, 0x74u8, 0x74u8, 0x72u8, 0x73u8, 0x22u8, 0x3au8]
}

pub open spec fn lit_null() -> Seq<u8> {
    seq![0x6eu8, 0x75u8, 0x6cu8, 0x6cu8]
}

/// The items of an attribute array, each a quoted escaped string, separated
/// by commas.
pub open spec fn spec_encode_items(a: Seq<Seq<u8>>) -> Seq<u8>
    decreases a.len(),
{
    if a.len() == 0 {
        Seq::empty()
    } else if a.len() == 1 {
        seq![0x22u8] + spec_escape(a.last()) + seq![0x22u8]
    } else {
        spec_encode_items(a.drop_last()) + seq![0x2cu8, 0x22u8] + spec_escape(a.last())
            + seq![0x22u8]
    }
}

/// An optional attribute list: a JSON array of strings, or `null` when absent.
pub open spec fn spec_encode_attrs(o: Option<Seq<Seq<u8>>>) -> Seq<u8> {
    match o {
        Option::None => lit_null(),
        Option::Some(a) => seq![0x5bu8] + spec_encode_items(a) + seq![0x5du8],
    }
}

/// Every byte of the sidecar document for one start event, in the fixed field
/// order `system`, `identity`, `attempt_id`, `attempted_attrs`,
/// `skipped_attrs`.
pub open spec fn spec_encode_start(v: BuildLogStartV) -> Seq<u8> {
    lit_obj_open() + spec_escape(v.system) + lit_sep_identity() + spec_escape(v.identity)
        + lit_sep_attempt() + spec_escape(v.attempt_id) + lit_sep_attempted() + spec_encode_attrs(
        v.attempted_attrs,
    ) + lit_sep_skipped() + spec_encode_attrs(v.skipped_attrs) + seq![0x7du8]
}

/// Appends the escaped form of `s` to `out`.
#[verifier::loop_isolation(false)]
fn escape_into(out: &mut Vec<u8>, s: &[u8])
    ensures
        final(out)@ == old(out)@ + spec_escape(s@),
{
    let len = s.len();
    let mut i: usize = 0;
    while i < len
        invariant
            i <= len,
            out@ == old(out)@ + spec_escape(s@.take(i as int)),
        decreases len - i,
    {
        proof {
            assert(s@.take(i as int + 1).drop_last() =~= s@.take(i as int));
            assert(s@.take(i as int + 1).last() == s@[i as int]);
        }
        let ghost prev = out@;
        let b = s[i];
        if b == 0x22 {
            out.push(0x5c);
            out.push(0x22);
        } else if b == 0x5c {
            out.push(0x5c);
            out.push(0x5c);
        } else if b == 0x08 {
            out.push(0x5c);
            out.push(0x62);
        } else if b == 0x09 {
            out.push(0x5c);
            out.push(0x74);
        } else if b == 0x0a {
            out.push(0x5c);
            out.push(0x6e);
        } else if b == 0x0c {
            out.push(0x5c);
            out.push(0x66);
        } else if b == 0x0d {
            out.push(0x5c);
            out.push(0x72);
        } else if b < 0x20 {
            out.push(0x5c);
            out.push(0x75);
            out.push(0x30);
            out.push(0x30);
            out.push(if b / 16 < 10 {
                0x30 + b / 16
            } else {
                0x57 + b / 16
            });
            out.push(if b % 16 < 10 {
                0x30 + b % 16
            } else {
                0x57 + b % 16
            });
        } else {
            out.push(b);
        }
        proof {
            assert(out@ =~= prev + spec_escape_byte(s@[i as int]));
            assert(out@ =~= old(out)@ + spec_escape(s@.take(i as int + 1)));
        }
        i = i + 1;
    }
    proof {
        assert(s@.take(len as int) =~= s@);
    }
}

/// Appends an encoded attribute list (array of strings or `null`) to `out`.
#[verifier::loop_isolation(false)]
fn encode_attrs_into(out: &mut Vec<u8>, o: &Option<Vec<Vec<u8>>>)
    ensures
        final(out)@ == old(out)@ + spec_encode_attrs(o.deep_view()),
{
    match o {
        Option::None => {
            push_null(out);
        },
        Option::Some(attrs) => {
            out.push(0x5b);
            let n = attrs.len();
            let ghost a = attrs.deep_view();
            let mut i: usize = 0;
            while i < n
                invariant
                    i <= n == a.len(),
                    a == attrs.deep_view(),
                    out@ == old(out)@ + seq![0x5bu8] + spec_encode_items(a.take(i as int)),
                decreases n - i,
            {
                proof {
                    assert(a.take(i as int + 1).drop_last() =~= a.take(i as int));
                    assert(a.take(i as int + 1).last() == a[i as int]);
                    assert(a[i as int] == attrs@[i as int]@);
                }
                let ghost prev = out@;
                if i > 0 {
                    out.push(0x2c);
                }
                out.push(0x22);
                escape_into(out, attrs[i].as_slice());
                out.push(0x22);
                proof {
                    if i == 0 {
                        assert(out@ =~= prev + seq![0x22u8] + spec_escape(a[i as int])
                            + seq![0x22u8]);
                    } else {
                        assert(out@ =~= prev + seq![0x2cu8, 0x22u8] + spec_escape(a[i as int])
                            + seq![0x22u8]);
                    }
                    assert(out@ =~= old(out)@ + seq![0x5bu8] + spec_encode_items(
                        a.take(i as int + 1),
                    ));
                }
                i = i + 1;
            }
            out.push(0x5d);
            proof {
                assert(a.take(n as int) =~= a);
                assert(out@ =~= old(out)@ + spec_encode_attrs(o.deep_view()));
            }
        },
    }
}

fn push_obj_open(out: &mut Vec<u8>)
    ensures
        final(out)@ == old(out)@ + lit_obj_open(),
{
    out.push(0x7b);
    out.push(0x22);
    out.push(0x73);
    out.push(0x79);
    out.push(0x73);
    out.push(0x74);
    out.push(0x65);
    out.push(0x6d);
    out.push(0x22);
    out.push(0x3a);
    out.push(0x22);
    proof {
        assert(out@ =~= old(out)@ + lit_obj_open());
    }
}

fn push_sep_identity(out: &mut Vec<u8>)
    ensures
        final(out)@ == old(out)@ + lit_sep_identity(),
{
    out.push(0x22);
    out.push(0x2c);
    out.push(0x22);
    out.push(0x69);
    out.push(0x64);
    out.push(0x65);
    out.push(0x6e);
    out.push(0x74);
    out.push(0x69);
    out.push(0x74);
    out.push(0x79);
    out.push(0x22);
    out.push(0x3a);
    out.push(0x22);
    proof {
        assert(out@ =~= old(out)@ + lit_sep_identity());
    }
}

fn push_sep_attempt(out: &mut Vec<u8>)
    ensures
        final(out)@ == old(out)@ + lit_sep_attempt(),
{
    out.push(0x22);
    out.push(0x2c);
    out.push(0x22);
    out.push(0x61);
    out.push(0x74);
    out.push(0x74);
    out.push(0x65);
    out.push(0x6d);
    out.push(0x70);
    out.push(0x74);
    out.push(0x5f);
    out.push(0x69);
    out.push(0x64);
    out.push(0x22);
    out.push(0x3a);
    out.push(0x22);
    proof {
        assert(out@ =~= old(out)@ + lit_sep_attempt());
    }
}

fn push_sep_attempted(out: &mut Vec<u8>)
    ensures
        final(out)@ == old(out)@ + lit_sep_attempted(),
{
    out.push(0x22);
    out.push(0x2c);
    out.push(0x22);
    out.push(0x61);
    out.push(0x74);
    out.push(0x74);
    out.push(0x65);
    out.push(0x6d);
    out.push(0x70);
    out.push(0x74);
    out.push(0x65);
    out.push(0x64);
    out.push(0x5f);
    out.push(0x61);
    out.push(0x74);
    out.push(0x74);
    out.push(0x72);
    out.push(0x73);
    out.push(0x22);
    out.push(0x3a);
    proof {
        assert(out@ =~= old(out)@ + lit_sep_attempted());
    }
}

fn push_sep_skipped(out: &mut Vec<u8>)
    ensures
        final(out)@ == old(out)@ + lit_sep_skipped(),
{
    out.push(0x2c);
    out.push(0x22);
    out.push(0x73);
    out.push(0x6b);
    out.push(0x69);
    out.push(0x70);
    out.push(0x70);
    out.push(0x65);
    out.push(0x64);
    out.push(0x5f);
    out.push(0x61);
    out.push(0x74);
    out.push(0x74);
    out.push(0x72);
    out.push(0x73);
    out.push(0x22);
    out.push(0x3a);
    proof {
        assert(out@ =~= old(out)@ + lit_sep_skipped());
    }
}

fn push_null(out: &mut Vec<u8>)
    ensures
        final(out)@ == old(out)@ + lit_null(),
{
    out.push(0x6e);
    out.push(0x75);
    out.push(0x6c);
    out.push(0x6c);
    proof {
        assert(out@ =~= old(out)@ + lit_null());
    }
}

/// Serializes one start event as its sidecar JSON document, byte for byte as
/// `spec_encode_start` fixes it. Total: encoding a start event cannot fail.
pub fn encode_start(data: &BuildLogStart) -> (r: Vec<u8>)
    ensures
        r@ == spec_encode_start(data@),
{
    let mut out: Vec<u8> = Vec::new();
    push_obj_open(&mut out);
    escape_into(&mut out, data.system.as_slice());
    push_sep_identity(&mut out);
    escape_into(&mut out, data.identity.as_slice());
    push_sep_attempt(&mut out);
    escape_into(&mut out, data.attempt_id.as_slice());
    push_sep_attempted(&mut out);
    encode_attrs_into(&mut out, &data.attempted_attrs);
    push_sep_skipped(&mut out);
    encode_attrs_into(&mut out, &data.skipped_attrs);
    out.push(0x7d);
    proof {
        assert(out@ =~= spec_encode_start(data@));
    }
    out
}

} // verus!
