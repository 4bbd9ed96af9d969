//! The untagged wire format and its classification.
//!
//! Messages arrive as JSON objects with no kind discriminator. A payload is
//! classified by attempting the known shapes in a fixed order: line chunk,
//! then start, then finish. The order is a contract: shapes overlap
//! structurally, and reordering would silently reclassify messages. The
//! specification below fixes, byte by byte, which payloads parse and what
//! they parse to; a field value is kept when a shape could need it (strings,
//! integers, arrays of strings) and is otherwise only checked for
//! well-formedness.

use vstd::prelude::*;

use crate::message::clone_bytes;

verus! {

/// A top-level field value, as far as classification needs it.
pub enum JField {
    Null,
    Bool(bool),
    /// A JSON number; `uint` is its value when it is a plain non-negative
    /// integer that fits in 64 bits, which is the only numeric form a chunk's
    /// line number accepts.
    Num { uint: Option<u64> },
    Str(Vec<u8>),
    /// An array whose elements are all strings.
    ArrStr(Vec<Vec<u8>>),
    /// A well-formed array with at least one non-string element.
    ArrOther,
    /// A well-formed nested object.
    ObjOther,
}

#[verifier::ext_equal]
pub ghost enum JFieldV {
    Null,
    Bool(bool),
    Num { uint: Option<u64> },
    Str(Seq<u8>),
    ArrStr(Seq<Seq<u8>>),
    ArrOther,
    ObjOther,
}

impl View for JField {
    type V = JFieldV;

    open spec fn view(&self) -> JFieldV {
        match self {
            JField::Null => JFieldV::Null,
            JField::Bool(b) => JFieldV::Bool(*b),
            JField::Num { uint } => JFieldV::Num { uint: *uint },
            JField::Str(v) => JFieldV::Str(v@),
            JField::ArrStr(v) => JFieldV::ArrStr(v.deep_view()),
            JField::ArrOther => JFieldV::ArrOther,
            JField::ObjOther => JFieldV::ObjOther,
        }
    }
}

pub open spec fn is_ws(b: u8) -> bool {
    b == 0x20 || b == 0x09 || b == 0x0a || b == 0x0d
}

pub open spec fn is_digit(b: u8) -> bool {
    0x30 <= b <= 0x39
}

pub open spec fn is_hex(b: u8) -> bool {
    is_digit(b) || (0x41 <= b <= 0x46) || (0x61 <= b <= 0x66)
}

pub open spec fn hex_val(b: u8) -> int {
    if is_digit(b) {
        b - 0x30
    } else if 0x41 <= b <= 0x46 {
        b - 0x41 + 10
    } else {
        b - 0x61 + 10
    }
}

/// First non-whitespace position at or after `i`.
pub open spec fn skip_ws(s: Seq<u8>, i: int) -> int
    decreases s.len() - i,
{
    if i < s.len() && 0 <= i && is_ws(s[i]) {
        skip_ws(s, i + 1)
    } else {
        i
    }
}

/// One of the single-character escapes.
pub open spec fn is_simple_escape(e: u8) -> bool {
    e == 0x22 || e == 0x5c || e == 0x2f || e == 0x62 || e == 0x66 || e == 0x6e || e == 0x72 || e
        == 0x74
}

/// The byte a single-character escape denotes.
pub open spec fn unescape(e: u8) -> u8 {
    if e == 0x62 {
        0x08
    } else if e == 0x66 {
        0x0c
    } else if e == 0x6e {
        0x0a
    } else if e == 0x72 {
        0x0d
    } else if e == 0x74 {
        0x09
    } else {
        e
    }
}

/// Four hex digits starting at `i`.
pub open spec fn hex4_at(s: Seq<u8>, i: int) -> bool {
    i + 4 <= s.len() && is_hex(s[i]) && is_hex(s[i + 1]) && is_hex(s[i + 2]) && is_hex(s[i + 3])
}

pub open spec fn hex4_val(s: Seq<u8>, i: int) -> int {
    hex_val(s[i]) * 0x1000 + hex_val(s[i + 1]) * 0x100 + hex_val(s[i + 2]) * 0x10 + hex_val(
        s[i + 3],
    )
}

/// Position after the closing quote of a string body starting at `i`, with
/// escape syntax checked but not decoded (how an ignored string is consumed).
pub open spec fn skip_string(s: Seq<u8>, i: int) -> Option<int>
    decreases s.len() - i,
{
    if i < 0 || i >= s.len() {
        None
    } else {
        let b = s[i];
        if b == 0x22 {
            Some(i + 1)
        } else if b == 0x5c {
            if i + 1 >= s.len() {
                None
            } else {
                let e = s[i + 1];
                if is_simple_escape(e) {
                    skip_string(s, i + 2)
                } else if e == 0x75 {
                    if hex4_at(s, i + 2) {
                        skip_string(s, i + 6)
                    } else {
                        None
                    }
                } else {
                    None
                }
            }
        } else if b < 0x20 {
            None
        } else {
            skip_string(s, i + 1)
        }
    }
}

/// UTF-8 encoding of a scalar value.
pub open spec fn utf8_enc(cp: int) -> Seq<u8> {
    if cp < 0x80 {
        seq![cp as u8]
    } else if cp < 0x800 {
        seq![(0xc0 + cp / 0x40) as u8, (0x80 + cp % 0x40) as u8]
    } else if cp < 0x10000 {
        seq![(0xe0 + cp / 0x1000) as u8, (0x80 + (cp / 0x40) % 0x40) as u8, (0x80 + cp % 0x40) as u8]
    } else {
        seq![
            (0xf0 + cp / 0x40000) as u8,
            (0x80 + (cp / 0x1000) % 0x40) as u8,
            (0x80 + (cp / 0x40) % 0x40) as u8,
            (0x80 + cp % 0x40) as u8,
        ]
    }
}

pub open spec fn prepend(acc: Seq<u8>, r: Option<(Seq<u8>, int)>) -> Option<(Seq<u8>, int)> {
    match r {
        None => None,
        Some((cs, e)) => Some((acc + cs, e)),
    }
}

/// Decoded bytes and end position of one escape sequence (`i` at the
/// backslash): single-character escapes, `\u` scalars, and surrogate pairs;
/// lone surrogates are refused.
pub open spec fn parse_escape(s: Seq<u8>, i: int) -> Option<(Seq<u8>, int)> {
    if i < 0 || i + 2 > s.len() {
        None
    } else {
        let e = s[i + 1];
        if is_simple_escape(e) {
            Some((seq![unescape(e)], i + 2))
        } else if e == 0x75 {
            if hex4_at(s, i + 2) {
                let cp = hex4_val(s, i + 2);
                if 0xd800 <= cp < 0xdc00 {
                    if i + 12 <= s.len() && s[i + 6] == 0x5c && s[i + 7] == 0x75 && hex4_at(
                        s,
                        i + 8,
                    ) {
                        let cp2 = hex4_val(s, i + 8);
                        if 0xdc00 <= cp2 < 0xe000 {
                            Some(
                                (
                                    utf8_enc(0x10000 + (cp - 0xd800) * 0x400 + (cp2 - 0xdc00)),
                                    i + 12,
                                ),
                            )
                        } else {
                            None
                        }
                    } else {
                        None
                    }
                } else if 0xdc00 <= cp < 0xe000 {
                    None
                } else {
                    Some((utf8_enc(cp), i + 6))
                }
            } else {
                None
            }
        } else {
            None
        }
    }
}

/// Decoded contents and end position of a string body starting at `i`:
/// escapes are decoded, surrogate pairs combined, lone surrogates refused.
pub open spec fn parse_string(s: Seq<u8>, i: int) -> Option<(Seq<u8>, int)>
    decreases s.len() - i,
{
    if i < 0 || i >= s.len() {
        None
    } else {
        let b = s[i];
        if b == 0x22 {
            Some((Seq::empty(), i + 1))
        } else if b == 0x5c {
            match parse_escape(s, i) {
                None => None,
                Some((d, k)) => {
                    if k <= i || k > s.len() {
                        None
                    } else {
                        prepend(d, parse_string(s, k))
                    }
                },
            }
        } else if b < 0x20 {
            None
        } else {
            prepend(seq![b], parse_string(s, i + 1))
        }
    }
}

/// First non-digit position at or after `i`.
pub open spec fn skip_digits(s: Seq<u8>, i: int) -> int
    decreases s.len() - i,
{
    if i < s.len() && 0 <= i && is_digit(s[i]) {
        skip_digits(s, i + 1)
    } else {
        i
    }
}

pub proof fn lemma_skip_digits(s: Seq<u8>, i: int)
    requires
        0 <= i <= s.len(),
    ensures
        i <= skip_digits(s, i) <= s.len(),
        skip_digits(s, i) == s.len() || !is_digit(s[skip_digits(s, i)]),
        forall|k: int| i <= k < skip_digits(s, i) ==> is_digit(s[k]),
    decreases s.len() - i,
{
    if i < s.len() && is_digit(s[i]) {
        lemma_skip_digits(s, i + 1);
    }
}

/// Value of the digit run `[i, j)`.
pub open spec fn digits_val(s: Seq<u8>, i: int, j: int) -> int
    decreases j - i,
{
    if j <= i {
        0
    } else {
        digits_val(s, i, j - 1) * 10 + (s[j - 1] - 0x30)
    }
}

/// End of an optional fraction part at `i` (`None` on a malformed one).
pub open spec fn frac_part(s: Seq<u8>, i: int) -> Option<(bool, int)> {
    if 0 <= i < s.len() && s[i] == 0x2e {
        let d = skip_digits(s, i + 1);
        if d > i + 1 {
            Some((true, d))
        } else {
            None
        }
    } else {
        Some((false, i))
    }
}

/// End of an optional exponent part at `i` (`None` on a malformed one).
pub open spec fn exp_part(s: Seq<u8>, i: int) -> Option<(bool, int)> {
    if 0 <= i < s.len() && (s[i] == 0x65 || s[i] == 0x45) {
        let j = if i + 1 < s.len() && (s[i + 1] == 0x2b || s[i + 1] == 0x2d) {
            i + 2
        } else {
            i + 1
        };
        let d = skip_digits(s, j);
        if d > j {
            Some((true, d))
        } else {
            None
        }
    } else {
        Some((false, i))
    }
}

/// A JSON number starting at `i`: its end, and its value when it is a plain
/// non-negative integer fitting in 64 bits (the only form a line number
/// accepts).
pub open spec fn parse_number(s: Seq<u8>, i: int) -> Option<(Option<u64>, int)> {
    let neg = 0 <= i < s.len() && s[i] == 0x2d;
    let i0 = if neg {
        i + 1
    } else {
        i
    };
    if !(0 <= i0 < s.len()) || !is_digit(s[i0]) {
        None
    } else {
        let i1 = if s[i0] == 0x30 {
            i0 + 1
        } else {
            skip_digits(s, i0)
        };
        match frac_part(s, i1) {
            None => None,
            Some((has_frac, i2)) => match exp_part(s, i2) {
                None => None,
                Some((has_exp, i3)) => {
                    let v = digits_val(s, i0, i1);
                    Some(
                        (
                            if !neg && !has_frac && !has_exp && v <= u64::MAX {
                                Some(v as u64)
                            } else {
                                None::<u64>
                            },
                            i3,
                        ),
                    )
                },
            },
        }
    }
}

pub open spec fn lit_true_at(s: Seq<u8>, i: int) -> bool {
    i + 4 <= s.len() && s[i] == 0x74 && s[i + 1] == 0x72 && s[i + 2] == 0x75 && s[i + 3] == 0x65
}

pub open spec fn lit_false_at(s: Seq<u8>, i: int) -> bool {
    i + 5 <= s.len() && s[i] == 0x66 && s[i + 1] == 0x61 && s[i + 2] == 0x6c && s[i + 3] == 0x73
        && s[i + 4] == 0x65
}

pub open spec fn lit_null_at(s: Seq<u8>, i: int) -> bool {
    i + 4 <= s.len() && s[i] == 0x6e && s[i + 1] == 0x75 && s[i + 2] == 0x6c && s[i + 3] == 0x6c
}

/// End position of any well-formed JSON value starting at `i`, contents
/// ignored.
pub open spec fn skip_value(s: Seq<u8>, i: int) -> Option<int>
    decreases s.len() - i, 0int,
{
    if i < 0 || i >= s.len() {
        None
    } else {
        let b = s[i];
        if b == 0x22 {
            skip_string(s, i + 1)
        } else if b == 0x5b {
            skip_array_items(s, i + 1, true)
        } else if b == 0x7b {
            skip_object_items(s, i + 1, true)
        } else if b == 0x2d || is_digit(b) {
            match parse_number(s, i) {
                None => None,
                Some((u, e)) => Some(e),
            }
        } else if lit_true_at(s, i) {
            Some(i + 4)
        } else if lit_false_at(s, i) {
            Some(i + 5)
        } else if lit_null_at(s, i) {
            Some(i + 4)
        } else {
            None
        }
    }
}

/// Consumes array items (and the closing bracket) from `i`; `first` says no
/// item was consumed yet, so a closing bracket may come immediately.
pub open spec fn skip_array_items(s: Seq<u8>, i: int, first: bool) -> Option<int>
    decreases s.len() - i, 1int,
{
    if i < 0 {
        None
    } else {
        let j = skip_ws(s, i);
        if j < i || j >= s.len() {
            None
        } else if first && s[j] == 0x5d {
            Some(j + 1)
        } else {
            match skip_value(s, j) {
                None => None,
                Some(k) => {
                    if k <= j || k > s.len() {
                        None
                    } else {
                        let w = skip_ws(s, k);
                        if w < k {
                            None
                        } else if w < s.len() && s[w] == 0x2c {
                            skip_array_items(s, w + 1, false)
                        } else if w < s.len() && s[w] == 0x5d {
                            Some(w + 1)
                        } else {
                            None
                        }
                    }
                },
            }
        }
    }
}

/// Consumes object members (and the closing brace) from `i`, contents
/// ignored.
pub open spec fn skip_object_items(s: Seq<u8>, i: int, first: bool) -> Option<int>
    decreases s.len() - i, 1int,
{
    if i < 0 {
        None
    } else {
        let j = skip_ws(s, i);
        if j < i || j >= s.len() {
            None
        } else if first && s[j] == 0x7d {
            Some(j + 1)
        } else if s[j] != 0x22 {
            None
        } else {
            match skip_string(s, j + 1) {
                None => None,
                Some(k) => {
                    if k <= j + 1 || k > s.len() {
                        None
                    } else {
                        let c = skip_ws(s, k);
                        if c < k {
                            None
                        } else if c < s.len() && s[c] == 0x3a {
                            match skip_value(s, c + 1) {
                                None => None,
                                Some(v) => {
                                    if v <= c || v > s.len() {
                                        None
                                    } else {
                                        let w = skip_ws(s, v);
                                        if w < v {
                                            None
                                        } else if w < s.len() && s[w] == 0x2c {
                                            skip_object_items(s, w + 1, false)
                                        } else if w < s.len() && s[w] == 0x7d {
                                            Some(w + 1)
                                        } else {
                                            None
                                        }
                                    }
                                },
                            }
                        } else {
                            None
                        }
                    }
                },
            }
        }
    }
}

/// Consumes array items from `i`, keeping the decoded elements when every
/// element is a string (`Some(items)`) and only the well-formedness otherwise
/// (`None` in the first slot).
pub open spec fn parse_str_array(s: Seq<u8>, i: int, first: bool) -> Option<
    (Option<Seq<Seq<u8>>>, int),
>
    decreases s.len() - i,
{
    if i < 0 {
        None
    } else {
        let j = skip_ws(s, i);
        if j < i || j >= s.len() {
            None
        } else if first && s[j] == 0x5d {
            Some((Some(Seq::empty()), j + 1))
        } else if s[j] == 0x22 {
            match parse_string(s, j + 1) {
                None => None,
                Some((cs, k)) => {
                    if k <= j || k > s.len() {
                        None
                    } else {
                        let w = skip_ws(s, k);
                        if w < k {
                            None
                        } else if w < s.len() && s[w] == 0x2c {
                            match parse_str_array(s, w + 1, false) {
                                None => None,
                                Some((None, e)) => Some((None, e)),
                                Some((Some(items), e)) => Some((Some(seq![cs] + items), e)),
                            }
                        } else if w < s.len() && s[w] == 0x5d {
                            Some((Some(seq![cs]), w + 1))
                        } else {
                            None
                        }
                    }
                },
            }
        } else {
            match skip_value(s, j) {
                None => None,
                Some(k) => {
                    if k <= j || k > s.len() {
                        None
                    } else {
                        let w = skip_ws(s, k);
                        if w < k {
                            None
                        } else if w < s.len() && s[w] == 0x2c {
                            match parse_str_array(s, w + 1, false) {
                                None => None,
                                Some((items, e)) => Some((None, e)),
                            }
                        } else if w < s.len() && s[w] == 0x5d {
                            Some((None, w + 1))
                        } else {
                            None
                        }
                    }
                },
            }
        }
    }
}

/// A top-level field value starting at `i`: decoded as far as classification
/// needs, checked for well-formedness beyond that.
pub open spec fn parse_field_value(s: Seq<u8>, i: int) -> Option<(JFieldV, int)> {
    if i < 0 || i >= s.len() {
        None
    } else {
        let b = s[i];
        if b == 0x22 {
            match parse_string(s, i + 1) {
                None => None,
                Some((cs, e)) => Some((JFieldV::Str(cs), e)),
            }
        } else if b == 0x5b {
            match parse_str_array(s, i + 1, true) {
                None => None,
                Some((Some(items), e)) => Some((JFieldV::ArrStr(items), e)),
                Some((None, e)) => Some((JFieldV::ArrOther, e)),
            }
        } else if b == 0x7b {
            match skip_object_items(s, i + 1, true) {
                None => None,
                Some(e) => Some((JFieldV::ObjOther, e)),
            }
        } else if b == 0x2d || is_digit(b) {
            match parse_number(s, i) {
                None => None,
                Some((u, e)) => Some((JFieldV::Num { uint: u }, e)),
            }
        } else if lit_true_at(s, i) {
            Some((JFieldV::Bool(true), i + 4))
        } else if lit_false_at(s, i) {
            Some((JFieldV::Bool(false), i + 5))
        } else if lit_null_at(s, i) {
            Some((JFieldV::Null, i + 4))
        } else {
            None
        }
    }
}

/// The members of the top-level object from `i` on, in payload order.
pub open spec fn parse_members(s: Seq<u8>, i: int, first: bool) -> Option<
    (Seq<(Seq<u8>, JFieldV)>, int),
>
    decreases s.len() - i,
{
    if i < 0 {
        None
    } else {
        let j = skip_ws(s, i);
        if j < i || j >= s.len() {
            None
        } else if first && s[j] == 0x7d {
            Some((Seq::empty(), j + 1))
        } else if s[j] != 0x22 {
            None
        } else {
            match parse_string(s, j + 1) {
                None => None,
                Some((name, k)) => {
                    if k <= j || k > s.len() {
                        None
                    } else {
                        let c = skip_ws(s, k);
                        if c < k {
                            None
                        } else if c < s.len() && s[c] == 0x3a {
                            let v0 = skip_ws(s, c + 1);
                            if v0 < c + 1 {
                                None
                            } else {
                                match parse_field_value(s, v0) {
                                    None => None,
                                    Some((fv, e)) => {
                                        if e <= c || e > s.len() {
                                            None
                                        } else {
                                            let w = skip_ws(s, e);
                                            if w < e {
                                                None
                                            } else if w < s.len() && s[w] == 0x2c {
                                                match parse_members(s, w + 1, false) {
                                                    None => None,
                                                    Some((rest, e2)) => Some(
                                                        (seq![(name, fv)] + rest, e2),
                                                    ),
                                                }
                                            } else if w < s.len() && s[w] == 0x7d {
                                                Some((seq![(name, fv)], w + 1))
                                            } else {
                                                None
                                            }
                                        }
                                    },
                                }
                            }
                        } else {
                            None
                        }
                    }
                },
            }
        }
    }
}

/// The whole payload as a top-level object: leading and trailing whitespace
/// allowed, nothing else before or after, as a strict decoder consumes it.
pub open spec fn parse_top(s: Seq<u8>) -> Option<Seq<(Seq<u8>, JFieldV)>> {
    let j = skip_ws(s, 0);
    if j < s.len() && s[j] == 0x7b {
        match parse_members(s, j + 1, true) {
            None => None,
            Some((fields, e)) => {
                if e <= s.len() && skip_ws(s, e) == s.len() {
                    Some(fields)
                } else {
                    None
                }
            },
        }
    } else {
        None
    }
}

fn scan_ws(s: &[u8], i: usize) -> (r: usize)
    requires
        i <= s@.len(),
    ensures
        r == skip_ws(s@, i as int),
        i <= r <= s@.len(),
{
    let n = s.len();
    let mut j = i;
    while j < n && (s[j] == 0x20 || s[j] == 0x09 || s[j] == 0x0a || s[j] == 0x0d)
        invariant
            i <= j <= n == s@.len(),
            skip_ws(s@, i as int) == skip_ws(s@, j as int),
        decreases n - j,
    {
        j = j + 1;
    }
    j
}

fn scan_digits(s: &[u8], i: usize) -> (r: usize)
    requires
        i <= s@.len(),
    ensures
        r == skip_digits(s@, i as int),
        i <= r <= s@.len(),
{
    let n = s.len();
    let mut j = i;
    while j < n && 0x30 <= s[j] && s[j] <= 0x39
        invariant
            i <= j <= n == s@.len(),
            skip_digits(s@, i as int) == skip_digits(s@, j as int),
        decreases n - j,
    {
        j = j + 1;
    }
    j
}

/// Reads four hex digits at `i` as a value.
fn read_hex4(s: &[u8], i: usize) -> (r: Option<u32>)
    requires
        i <= s@.len(),
    ensures
        match r {
            Some(v) => hex4_at(s@, i as int) && v == hex4_val(s@, i as int) && v <= 0xffff,
            None => !hex4_at(s@, i as int),
        },
{
    if s.len() < 4 || i > s.len() - 4 {
        return None;
    }
    let h0 = hex_digit_val(s[i]);
    let h1 = hex_digit_val(s[i + 1]);
    let h2 = hex_digit_val(s[i + 2]);
    let h3 = hex_digit_val(s[i + 3]);
    match (h0, h1, h2, h3) {
        (Some(a), Some(b), Some(c), Some(d)) => Some(
            (a as u32) * 0x1000 + (b as u32) * 0x100 + (c as u32) * 0x10 + (d as u32),
        ),
        _ => None,
    }
}

fn hex_digit_val(b: u8) -> (r: Option<u8>)
    ensures
        match r {
            Some(v) => is_hex(b) && v == hex_val(b) && v < 16,
            None => !is_hex(b),
        },
{
    if 0x30 <= b && b <= 0x39 {
        Some(b - 0x30)
    } else if 0x41 <= b && b <= 0x46 {
        Some(b - 0x41 + 10)
    } else if 0x61 <= b && b <= 0x66 {
        Some(b - 0x61 + 10)
    } else {
        None
    }
}

/// Appends the UTF-8 encoding of scalar value `cp`.
fn push_utf8(out: &mut Vec<u8>, cp: u32)
    requires
        cp < 0x110000,
    ensures
        final(out)@ == old(out)@ + utf8_enc(cp as int),
{
    if cp < 0x80 {
        out.push(cp as u8);
    } else if cp < 0x800 {
        out.push(0xc0 + (cp / 0x40) as u8);
        out.push(0x80 + (cp % 0x40) as u8);
    } else if cp < 0x10000 {
        out.push(0xe0 + (cp / 0x1000) as u8);
        out.push(0x80 + ((cp / 0x40) % 0x40) as u8);
        out.push(0x80 + (cp % 0x40) as u8);
    } else {
        out.push(0xf0 + (cp / 0x40000) as u8);
        out.push(0x80 + ((cp / 0x1000) % 0x40) as u8);
        out.push(0x80 + ((cp / 0x40) % 0x40) as u8);
        out.push(0x80 + (cp % 0x40) as u8);
    }
    proof {
        assert(out@ =~= old(out)@ + utf8_enc(cp as int));
    }
}

fn scan_string(s: &[u8], i: usize) -> (r: Option<usize>)
    requires
        i <= s@.len(),
    ensures
        match r {
            Some(j) => skip_string(s@, i as int) == Some(j as int) && i < j <= s@.len(),
            None => skip_string(s@, i as int) is None,
        },
{
    let n = s.len();
    let mut j = i;
    loop
        invariant
            i <= j <= n == s@.len(),
            skip_string(s@, i as int) == skip_string(s@, j as int),
        decreases n - j,
    {
        if j >= n {
            return None;
        }
        let b = s[j];
        if b == 0x22 {
            return Some(j + 1);
        } else if b == 0x5c {
            if j + 1 >= n {
                return None;
            }
            let e = s[j + 1];
            if e == 0x22 || e == 0x5c || e == 0x2f || e == 0x62 || e == 0x66 || e == 0x6e || e
                == 0x72 || e == 0x74 {
                j = j + 2;
            } else if e == 0x75 {
                match read_hex4(s, j + 2) {
                    Some(_) => {
                        j = j + 6;
                    },
                    None => {
                        return None;
                    },
                }
            } else {
                return None;
            }
        } else if b < 0x20 {
            return None;
        } else {
            j = j + 1;
        }
    }
}

proof fn lemma_prepend_assoc(acc: Seq<u8>, d: Seq<u8>, r: Option<(Seq<u8>, int)>)
    ensures
        prepend(acc, prepend(d, r)) == prepend(acc + d, r),
{
    match r {
        None => {},
        Some((cs, e)) => {
            assert((acc + d) + cs =~= acc + (d + cs));
        },
    }
}

/// Decodes one escape sequence (`i` at the backslash) into `out`; returns
/// the position after it.
fn parse_escape_into(s: &[u8], i: usize, out: &mut Vec<u8>) -> (r: Option<usize>)
    requires
        i <= s@.len(),
    ensures
        match r {
            Some(k) => ({
                &&& i < k <= s@.len()
                &&& parse_escape(s@, i as int) matches Some((d, e)) && e == k as int
                    && final(out)@ == old(out)@ + d
            }),
            None => parse_escape(s@, i as int) is None && final(out)@ == old(out)@,
        },
{
    let n = s.len();
    if n < 2 || i > n - 2 {
        return None;
    }
    let e = s[i + 1];
    if e == 0x22 || e == 0x5c || e == 0x2f || e == 0x62 || e == 0x66 || e == 0x6e || e == 0x72
        || e == 0x74 {
        let u = if e == 0x62 {
            0x08
        } else if e == 0x66 {
            0x0c
        } else if e == 0x6e {
            0x0a
        } else if e == 0x72 {
            0x0d
        } else if e == 0x74 {
            0x09
        } else {
            e
        };
        out.push(u);
        proof {
            assert(out@ =~= old(out)@ + seq![unescape(e)]);
        }
        Some(i + 2)
    } else if e == 0x75 {
        match read_hex4(s, i + 2) {
            None => None,
            Some(cp) => {
                if 0xd800 <= cp && cp < 0xdc00 {
                    if n >= 12 && i <= n - 12 && s[i + 6] == 0x5c && s[i + 7] == 0x75 {
                        match read_hex4(s, i + 8) {
                            None => None,
                            Some(cp2) => {
                                if 0xdc00 <= cp2 && cp2 < 0xe000 {
                                    let combined: u32 = 0x10000 + (cp - 0xd800) * 0x400 + (cp2
                                        - 0xdc00);
                                    push_utf8(out, combined);
                                    Some(i + 12)
                                } else {
                                    None
                                }
                            },
                        }
                    } else {
                        None
                    }
                } else if 0xdc00 <= cp && cp < 0xe000 {
                    None
                } else {
                    push_utf8(out, cp);
                    Some(i + 6)
                }
            },
        }
    } else {
        None
    }
}

/// Decodes a string body starting at `i` (after the opening quote) into
/// `out`; returns the position after the closing quote.
#[verifier::rlimit(100)]
fn parse_string_into(s: &[u8], i: usize, out: &mut Vec<u8>) -> (r: Option<usize>)
    requires
        i <= s@.len(),
    ensures
        match r {
            Some(j) => ({
                &&& i < j <= s@.len()
                &&& parse_string(s@, i as int) matches Some((cs, e)) && e == j as int
                    && final(out)@ == old(out)@ + cs
            }),
            None => parse_string(s@, i as int) is None,
        },
{
    let n = s.len();
    let mut j = i;
    let ghost mut acc: Seq<u8> = Seq::empty();
    proof {
        assert(parse_string(s@, i as int) == prepend(acc, parse_string(s@, j as int)));
    }
    loop
        invariant
            i <= j <= n == s@.len(),
            out@ == old(out)@ + acc,
            parse_string(s@, i as int) == prepend(acc, parse_string(s@, j as int)),
        decreases n - j,
    {
        if j >= n {
            return None;
        }
        let b = s[j];
        if b == 0x22 {
            proof {
                assert(parse_string(s@, j as int) == Some((Seq::<u8>::empty(), j + 1 as int)));
                assert(acc + Seq::<u8>::empty() =~= acc);
            }
            return Some(j + 1);
        } else if b == 0x5c {
            match parse_escape_into(s, j, out) {
                None => {
                    return None;
                },
                Some(k) => {
                    proof {
                        let d = parse_escape(s@, j as int)->Some_0.0;
                        assert(parse_string(s@, j as int) == prepend(
                            d,
                            parse_string(s@, k as int),
                        ));
                        lemma_prepend_assoc(acc, d, parse_string(s@, k as int));
                        acc = acc + d;
                        assert(out@ =~= old(out)@ + acc);
                    }
                    j = k;
                },
            }
        } else if b < 0x20 {
            return None;
        } else {
            out.push(b);
            proof {
                assert(parse_string(s@, j as int) == prepend(
                    seq![b],
                    parse_string(s@, j + 1 as int),
                ));
                lemma_prepend_assoc(acc, seq![b], parse_string(s@, j + 1 as int));
                acc = acc + seq![b];
                assert(out@ =~= old(out)@ + acc);
            }
            j = j + 1;
        }
    }
}

#[verifier::loop_isolation(false)]
fn scan_number(s: &[u8], i: usize) -> (r: Option<(Option<u64>, usize)>)
    requires
        i <= s@.len(),
    ensures
        match r {
            Some((u, j)) => parse_number(s@, i as int) == Some((u, j as int)) && i < j
                <= s@.len(),
            None => parse_number(s@, i as int) is None,
        },
{
    let n = s.len();
    let neg = i < n && s[i] == 0x2d;
    let i0 = if neg {
        i + 1
    } else {
        i
    };
    if i0 >= n || !(0x30 <= s[i0] && s[i0] <= 0x39) {
        return None;
    }
    let i1 = if s[i0] == 0x30 {
        i0 + 1
    } else {
        scan_digits(s, i0)
    };
    proof {
        lemma_skip_digits(s@, i0 as int);
    }
    let mut val: Option<u64> = Some(0u64);
    let mut t = i0;
    while t < i1
        invariant
            i0 <= t <= i1 <= n,
            forall|k: int| i0 <= k < i1 ==> is_digit(s@[k]),
            match val {
                Some(v) => v == digits_val(s@, i0 as int, t as int),
                None => digits_val(s@, i0 as int, t as int) > u64::MAX,
            },
        decreases i1 - t,
    {
        let d = s[t] - 0x30;
        proof {
            assert(digits_val(s@, i0 as int, t as int + 1) == digits_val(
                s@,
                i0 as int,
                t as int,
            ) * 10 + d);
        }
        val = match val {
            Some(v) => {
                if v < 1844674407370955161u64 || (v == 1844674407370955161u64 && d <= 5) {
                    Some(v * 10 + d as u64)
                } else {
                    proof {
                        assert(v * 10 + d > u64::MAX);
                    }
                    None
                }
            },
            None => {
                proof {
                    let dv = digits_val(s@, i0 as int, t as int);
                    assert(dv * 10 + d > u64::MAX);
                }
                None
            },
        };
        t = t + 1;
    }
    let (has_frac, i2): (bool, usize) = if i1 < n && s[i1] == 0x2e {
        let d2 = scan_digits(s, i1 + 1);
        if d2 > i1 + 1 {
            (true, d2)
        } else {
            proof {
                assert(frac_part(s@, i1 as int) is None);
            }
            return None;
        }
    } else {
        (false, i1)
    };
    proof {
        assert(frac_part(s@, i1 as int) == Some((has_frac, i2 as int)));
    }
    let (has_exp, i3): (bool, usize) = if i2 < n && (s[i2] == 0x65 || s[i2] == 0x45) {
        let j0 = if i2 + 1 < n && (s[i2 + 1] == 0x2b || s[i2 + 1] == 0x2d) {
            i2 + 2
        } else {
            i2 + 1
        };
        if j0 > n {
            proof {
                assert(exp_part(s@, i2 as int) is None);
            }
            return None;
        }
        let d3 = scan_digits(s, j0);
        if d3 > j0 {
            (true, d3)
        } else {
            proof {
                assert(exp_part(s@, i2 as int) is None);
            }
            return None;
        }
    } else {
        (false, i2)
    };
    proof {
        assert(exp_part(s@, i2 as int) == Some((has_exp, i3 as int)));
    }
    let uint: Option<u64> = if !neg && !has_frac && !has_exp {
        val
    } else {
        None
    };
    Some((uint, i3))
}

fn scan_value(s: &[u8], i: usize) -> (r: Option<usize>)
    requires
        i <= s@.len(),
    ensures
        match r {
            Some(j) => skip_value(s@, i as int) == Some(j as int) && i < j <= s@.len(),
            None => skip_value(s@, i as int) is None,
        },
    decreases s@.len() - i, 0int,
{
    let n = s.len();
    if i >= n {
        return None;
    }
    let b = s[i];
    if b == 0x22 {
        scan_string(s, i + 1)
    } else if b == 0x5b {
        scan_array_items(s, i + 1, true)
    } else if b == 0x7b {
        scan_object_items(s, i + 1, true)
    } else if b == 0x2d || (0x30 <= b && b <= 0x39) {
        match scan_number(s, i) {
            None => None,
            Some((_, j)) => Some(j),
        }
    } else if n - i >= 4 && s[i] == 0x74 && s[i + 1] == 0x72 && s[i + 2] == 0x75 && s[i + 3]
        == 0x65 {
        Some(i + 4)
    } else if n - i >= 5 && s[i] == 0x66 && s[i + 1] == 0x61 && s[i + 2] == 0x6c && s[i + 3]
        == 0x73 && s[i + 4] == 0x65 {
        Some(i + 5)
    } else if n - i >= 4 && s[i] == 0x6e && s[i + 1] == 0x75 && s[i + 2] == 0x6c && s[i + 3]
        == 0x6c {
        Some(i + 4)
    } else {
        None
    }
}

fn scan_array_items(s: &[u8], i: usize, first: bool) -> (r: Option<usize>)
    requires
        i <= s@.len(),
    ensures
        match r {
            Some(j) => skip_array_items(s@, i as int, first) == Some(j as int) && i < j
                <= s@.len(),
            None => skip_array_items(s@, i as int, first) is None,
        },
    decreases s@.len() - i, 1int,
{
    let n = s.len();
    let j = scan_ws(s, i);
    if j >= n {
        return None;
    }
    if first && s[j] == 0x5d {
        return Some(j + 1);
    }
    match scan_value(s, j) {
        None => None,
        Some(k) => {
            let w = scan_ws(s, k);
            if w < n && s[w] == 0x2c {
                scan_array_items(s, w + 1, false)
            } else if w < n && s[w] == 0x5d {
                Some(w + 1)
            } else {
                None
            }
        },
    }
}

fn scan_object_items(s: &[u8], i: usize, first: bool) -> (r: Option<usize>)
    requires
        i <= s@.len(),
    ensures
        match r {
            Some(j) => skip_object_items(s@, i as int, first) == Some(j as int) && i < j
                <= s@.len(),
            None => skip_object_items(s@, i as int, first) is None,
        },
    decreases s@.len() - i, 1int,
{
    let n = s.len();
    let j = scan_ws(s, i);
    if j >= n {
        return None;
    }
    if first && s[j] == 0x7d {
        return Some(j + 1);
    }
    if s[j] != 0x22 {
        return None;
    }
    match scan_string(s, j + 1) {
        None => None,
        Some(k) => {
            let c = scan_ws(s, k);
            if c < n && s[c] == 0x3a {
                match scan_value(s, c + 1) {
                    None => None,
                    Some(v) => {
                        let w = scan_ws(s, v);
                        if w < n && s[w] == 0x2c {
                            scan_object_items(s, w + 1, false)
                        } else if w < n && s[w] == 0x7d {
                            Some(w + 1)
                        } else {
                            None
                        }
                    },
                }
            } else {
                None
            }
        },
    }
}

/// One top-level member of the payload object.
pub struct Member {
    pub name: Vec<u8>,
    pub value: JField,
}

impl View for Member {
    type V = (Seq<u8>, JFieldV);

    open spec fn view(&self) -> (Seq<u8>, JFieldV) {
        (self.name@, self.value@)
    }
}

impl DeepView for Member {
    type V = (Seq<u8>, JFieldV);

    open spec fn deep_view(&self) -> (Seq<u8>, JFieldV) {
        self@
    }
}

fn parse_array_of_strings(s: &[u8], i: usize, first: bool) -> (r: Option<
    (Option<Vec<Vec<u8>>>, usize),
>)
    requires
        i <= s@.len(),
    ensures
        match r {
            Some((items, j)) => ({
                &&& i < j <= s@.len()
                &&& parse_str_array(s@, i as int, first) matches Some((sitems, e)) && e == j as int
                    && (match items {
                    Some(v) => sitems == Some(v.deep_view()),
                    None => sitems is None,
                })
            }),
            None => parse_str_array(s@, i as int, first) is None,
        },
    decreases s@.len() - i,
{
    let n = s.len();
    let j = scan_ws(s, i);
    if j >= n {
        return None;
    }
    if first && s[j] == 0x5d {
        let items: Vec<Vec<u8>> = Vec::new();
        proof {
            assert(items.deep_view() =~= Seq::<Seq<u8>>::empty());
        }
        return Some((Some(items), j + 1));
    }
    if s[j] == 0x22 {
        let mut buf: Vec<u8> = Vec::new();
        match parse_string_into(s, j + 1, &mut buf) {
            None => None,
            Some(k) => {
                let w = scan_ws(s, k);
                if w < n && s[w] == 0x2c {
                    match parse_array_of_strings(s, w + 1, false) {
                        None => None,
                        Some((None, e)) => Some((None, e)),
                        Some((Some(mut rest), e)) => {
                            let ghost rest0 = rest.deep_view();
                            let ghost cs = buf@;
                            rest.insert(0, buf);
                            proof {
                                assert(rest.deep_view() =~~= seq![cs] + rest0);
                            }
                            Some((Some(rest), e))
                        },
                    }
                } else if w < n && s[w] == 0x5d {
                    let ghost cs = buf@;
                    let mut items: Vec<Vec<u8>> = Vec::new();
                    items.push(buf);
                    proof {
                        assert(items.deep_view() =~~= seq![cs]);
                    }
                    Some((Some(items), w + 1))
                } else {
                    None
                }
            },
        }
    } else {
        match scan_value(s, j) {
            None => None,
            Some(k) => {
                let w = scan_ws(s, k);
                if w < n && s[w] == 0x2c {
                    match parse_array_of_strings(s, w + 1, false) {
                        None => None,
                        Some((_, e)) => Some((None, e)),
                    }
                } else if w < n && s[w] == 0x5d {
                    Some((None, w + 1))
                } else {
                    None
                }
            },
        }
    }
}

fn parse_field_value_exec(s: &[u8], i: usize) -> (r: Option<(JField, usize)>)
    requires
        i <= s@.len(),
    ensures
        match r {
            Some((f, j)) => parse_field_value(s@, i as int) == Some((f@, j as int)) && i < j
                <= s@.len(),
            None => parse_field_value(s@, i as int) is None,
        },
{
    let n = s.len();
    if i >= n {
        return None;
    }
    let b = s[i];
    if b == 0x22 {
        let mut buf: Vec<u8> = Vec::new();
        match parse_string_into(s, i + 1, &mut buf) {
            None => None,
            Some(j) => Some((JField::Str(buf), j)),
        }
    } else if b == 0x5b {
        match parse_array_of_strings(s, i + 1, true) {
            None => None,
            Some((Some(items), j)) => Some((JField::ArrStr(items), j)),
            Some((None, j)) => Some((JField::ArrOther, j)),
        }
    } else if b == 0x7b {
        match scan_object_items(s, i + 1, true) {
            None => None,
            Some(j) => Some((JField::ObjOther, j)),
        }
    } else if b == 0x2d || (0x30 <= b && b <= 0x39) {
        match scan_number(s, i) {
            None => None,
            Some((u, j)) => Some((JField::Num { uint: u }, j)),
        }
    } else if n - i >= 4 && s[i] == 0x74 && s[i + 1] == 0x72 && s[i + 2] == 0x75 && s[i + 3]
        == 0x65 {
        Some((JField::Bool(true), i + 4))
    } else if n - i >= 5 && s[i] == 0x66 && s[i + 1] == 0x61 && s[i + 2] == 0x6c && s[i + 3]
        == 0x73 && s[i + 4] == 0x65 {
        Some((JField::Bool(false), i + 5))
    } else if n - i >= 4 && s[i] == 0x6e && s[i + 1] == 0x75 && s[i + 2] == 0x6c && s[i + 3]
        == 0x6c {
        Some((JField::Null, i + 4))
    } else {
        None
    }
}

fn parse_members_exec(s: &[u8], i: usize, first: bool) -> (r: Option<(Vec<Member>, usize)>)
    requires
        i <= s@.len(),
    ensures
        match r {
            Some((ms, j)) => ({
                &&& i < j <= s@.len()
                &&& parse_members(s@, i as int, first) matches Some((fs, e)) && e == j as int
                    && ms.deep_view() == fs
            }),
            None => parse_members(s@, i as int, first) is None,
        },
    decreases s@.len() - i,
{
    let n = s.len();
    let j = scan_ws(s, i);
    if j >= n {
        return None;
    }
    if first && s[j] == 0x7d {
        let ms: Vec<Member> = Vec::new();
        proof {
            assert(ms.deep_view() =~= Seq::<(Seq<u8>, JFieldV)>::empty());
        }
        return Some((ms, j + 1));
    }
    if s[j] != 0x22 {
        return None;
    }
    let mut name: Vec<u8> = Vec::new();
    match parse_string_into(s, j + 1, &mut name) {
        None => None,
        Some(k) => {
            let c = scan_ws(s, k);
            if c < n && s[c] == 0x3a {
                let v0 = scan_ws(s, c + 1);
                match parse_field_value_exec(s, v0) {
                    None => None,
                    Some((fv, e)) => {
                        let w = scan_ws(s, e);
                        if w < n && s[w] == 0x2c {
                            match parse_members_exec(s, w + 1, false) {
                                None => None,
                                Some((mut rest, e2)) => {
                                    let ghost rest0 = rest.deep_view();
                                    let ghost nm = name@;
                                    let ghost fvv = fv@;
                                    rest.insert(0, Member { name, value: fv });
                                    proof {
                                        assert(rest.deep_view() =~~= seq![(nm, fvv)] + rest0);
                                    }
                                    Some((rest, e2))
                                },
                            }
                        } else if w < n && s[w] == 0x7d {
                            let ghost nm = name@;
                            let ghost fvv = fv@;
                            let mut ms: Vec<Member> = Vec::new();
                            ms.push(Member { name, value: fv });
                            proof {
                                assert(ms.deep_view() =~~= seq![(nm, fvv)]);
                            }
                            Some((ms, w + 1))
                        } else {
                            None
                        }
                    },
                }
            } else {
                None
            }
        },
    }
}

/// Parses a whole payload as a top-level JSON object; `None` exactly when a
/// strict decoder would refuse the payload.
pub fn parse_payload(s: &[u8]) -> (r: Option<Vec<Member>>)
    ensures
        match r {
            Some(ms) => parse_top(s@) == Some(ms.deep_view()),
            None => parse_top(s@) is None,
        },
{
    let n = s.len();
    let j = scan_ws(s, 0);
    if j < n && s[j] == 0x7b {
        match parse_members_exec(s, j + 1, true) {
            None => None,
            Some((ms, e)) => {
                if scan_ws(s, e) == n {
                    Some(ms)
                } else {
                    None
                }
            },
        }
    } else {
        None
    }
}


// ---------------------------------------------------------------------------
// Classification: the three known shapes, tried in fixed order.
// ---------------------------------------------------------------------------

pub open spec fn name_attempt_id() -> Seq<u8> {
    seq![0x61u8, 0x74u8, 0x74u8, 0x65u8, 0x6du8, 0x70u8, 0x74u8, 0x5fu8, 0x69u8, 0x64u8]
}

pub open spec fn name_identity() -> Seq<u8> {
    seq![0x69u8, 0x64u8, 0x65u8, 0x6eu8, 0x74u8, 0x69u8, 0x74u8, 0x79u8]
}

pub open spec fn name_system() -> Seq<u8> {
    seq![0x73u8, 0x79u8, 0x73u8, 0x74u8, 0x65u8, 0x6du8]
}

pub open spec fn name_line_number() -> Seq<u8> {
    seq![0x6cu8, 0x69u8, 0x6eu8, 0x65u8, 0x5fu8, 0x6eu8, 0x75u8, 0x6du8, 0x62u8, 0x65u8, 0x72u8]
}

pub open spec fn name_output() -> Seq<u8> {
    seq![0x6fu8, 0x75u8, 0x74u8, 0x70u8, 0x75u8, 0x74u8]
}

pub open spec fn name_attempted_attrs() -> Seq<u8> {
    seq![0x61u8, 0x74u8, 0x74u8, 0x65u8, 0x6du8, 0x70u8, 0x74u8, 0x65u8, 0x64u8, 0x5fu8, 0x61u8, 0x74u8, 0x74u8, 0x72u8, 0x73u8]
}

pub open spec fn name_skipped_attrs() -> Seq<u8> {
    seq![0x73u8, 0x6bu8, 0x69u8, 0x70u8, 0x70u8, 0x65u8, 0x64u8, 0x5fu8, 0x61u8, 0x74u8, 0x74u8, 0x72u8, 0x73u8]
}

/// How many members carry `name`.
pub open spec fn count_key(fs: Seq<(Seq<u8>, JFieldV)>, name: Seq<u8>) -> int
    decreases fs.len(),
{
    if fs.len() == 0 {
        0
    } else {
        count_key(fs.drop_last(), name) + if fs.last().0 == name {
            1int
        } else {
            0int
        }
    }
}

/// The value of the last member named `name` (meaningful when present).
pub open spec fn field_get(fs: Seq<(Seq<u8>, JFieldV)>, name: Seq<u8>) -> JFieldV
    decreases fs.len(),
{
    if fs.len() == 0 {
        JFieldV::Null
    } else if fs.last().0 == name {
        fs.last().1
    } else {
        field_get(fs.drop_last(), name)
    }
}

/// A required string field: present exactly once, as a string. A duplicated
/// or mistyped known field fails the whole shape, as a strict decoder does.
pub open spec fn str_field(fs: Seq<(Seq<u8>, JFieldV)>, name: Seq<u8>) -> Option<Seq<u8>> {
    if count_key(fs, name) == 1 {
        match field_get(fs, name) {
            JFieldV::Str(v) => Some(v),
            _ => None,
        }
    } else {
        None
    }
}

/// An optional attribute-list field: absent or `null` means none; present
/// once as an array of strings keeps the items; anything else fails the
/// shape. (`Some(None)` is an acceptable absent field; `None` is failure.)
pub open spec fn attrs_field(fs: Seq<(Seq<u8>, JFieldV)>, name: Seq<u8>) -> Option<
    Option<Seq<Seq<u8>>>,
> {
    if count_key(fs, name) == 0 {
        Some(None)
    } else if count_key(fs, name) == 1 {
        match field_get(fs, name) {
            JFieldV::Null => Some(None),
            JFieldV::ArrStr(a) => Some(Some(a)),
            _ => None,
        }
    } else {
        None
    }
}

/// The line-chunk shape: all five fields required, the line number a plain
/// unsigned integer.
pub open spec fn chunk_of(fs: Seq<(Seq<u8>, JFieldV)>) -> Option<crate::message::BuildLogMsgV> {
    match (
        str_field(fs, name_attempt_id()),
        str_field(fs, name_identity()),
        str_field(fs, name_system()),
        str_field(fs, name_output()),
    ) {
        (Some(aid), Some(ident), Some(sys), Some(out)) => {
            if count_key(fs, name_line_number()) == 1 {
                match field_get(fs, name_line_number()) {
                    JFieldV::Num { uint: Some(n) } => Some(
                        crate::message::BuildLogMsgV {
                            attempt_id: aid,
                            identity: ident,
                            system: sys,
                            line_number: n,
                            output: out,
                        },
                    ),
                    _ => None,
                }
            } else {
                None
            }
        },
        _ => None,
    }
}

/// The start shape: three required strings, two optional attribute lists.
pub open spec fn start_of(fs: Seq<(Seq<u8>, JFieldV)>) -> Option<crate::message::BuildLogStartV> {
    match (
        str_field(fs, name_attempt_id()),
        str_field(fs, name_identity()),
        str_field(fs, name_system()),
    ) {
        (Some(aid), Some(ident), Some(sys)) => {
            match (attrs_field(fs, name_attempted_attrs()), attrs_field(fs, name_skipped_attrs())) {
                (Some(att), Some(sk)) => Some(
                    crate::message::BuildLogStartV {
                        attempt_id: aid,
                        identity: ident,
                        system: sys,
                        attempted_attrs: att,
                        skipped_attrs: sk,
                    },
                ),
                _ => None,
            }
        },
        _ => None,
    }
}

/// The finish shape: the terminal result is opaque except for its attempt
/// id.
pub open spec fn finish_of(fs: Seq<(Seq<u8>, JFieldV)>) -> Option<Seq<u8>> {
    str_field(fs, name_attempt_id())
}

/// The whole classification contract: decode the payload as a JSON object,
/// then try chunk, start, finish in that order; the stream identity pairs
/// the delivery routing key with the attempt id the matching shape names.
pub open spec fn classify(routing_key: Seq<u8>, body: Seq<u8>) -> Option<
    crate::message::LogMessageV,
> {
    match parse_top(body) {
        None => None,
        Some(fs) => match chunk_of(fs) {
            Some(m) => Some(
                crate::message::LogMessageV {
                    from: crate::message::LogFromV { routing_key, attempt_id: m.attempt_id },
                    message: crate::message::MsgTypeV::Msg(m),
                },
            ),
            None => match start_of(fs) {
                Some(st) => Some(
                    crate::message::LogMessageV {
                        from: crate::message::LogFromV { routing_key, attempt_id: st.attempt_id },
                        message: crate::message::MsgTypeV::Start(st),
                    },
                ),
                None => match finish_of(fs) {
                    Some(aid) => Some(
                        crate::message::LogMessageV {
                            from: crate::message::LogFromV { routing_key, attempt_id: aid },
                            message: crate::message::MsgTypeV::Finish(aid),
                        },
                    ),
                    None => None,
                },
            },
        },
    }
}

fn mk_name_attempt_id() -> (v: Vec<u8>)
    ensures
        v@ == name_attempt_id(),
{
    let mut v: Vec<u8> = Vec::new();
    v.push(0x61);
    v.push(0x74);
    v.push(0x74);
    v.push(0x65);
    v.push(0x6d);
    v.push(0x70);
    v.push(0x74);
    v.push(0x5f);
    v.push(0x69);
    v.push(0x64);
    proof {
        assert(v@ =~= name_attempt_id());
    }
    v
}

fn mk_name_identity() -> (v: Vec<u8>)
    ensures
        v@ == name_identity(),
{
    let mut v: Vec<u8> = Vec::new();
    v.push(0x69);
    v.push(0x64);
    v.push(0x65);
    v.push(0x6e);
    v.push(0x74);
    v.push(0x69);
    v.push(0x74);
    v.push(0x79);
    proof {
        assert(v@ =~= name_identity());
    }
    v
}

fn mk_name_system() -> (v: Vec<u8>)
    ensures
        v@ == name_system(),
{
    let mut v: Vec<u8> = Vec::new();
    v.push(0x73);
    v.push(0x79);
    v.push(0x73);
    v.push(0x74);
    v.push(0x65);
    v.push(0x6d);
    proof {
        assert(v@ =~= name_system());
    }
    v
}

fn mk_name_line_number() -> (v: Vec<u8>)
    ensures
        v@ == name_line_number(),
{
    let mut v: Vec<u8> = Vec::new();
    v.push(0x6c);
    v.push(0x69);
    v.push(0x6e);
    v.push(0x65);
    v.push(0x5f);
    v.push(0x6e);
    v.push(0x75);
    v.push(0x6d);
    v.push(0x62);
    v.push(0x65);
    v.push(0x72);
    proof {
        assert(v@ =~= name_line_number());
    }
    v
}

fn mk_name_output() -> (v: Vec<u8>)
    ensures
        v@ == name_output(),
{
    let mut v: Vec<u8> = Vec::new();
    v.push(0x6f);
    v.push(0x75);
    v.push(0x74);
    v.push(0x70);
    v.push(0x75);
    v.push(0x74);
    proof {
        assert(v@ =~= name_output());
    }
    v
}

fn mk_name_attempted_attrs() -> (v: Vec<u8>)
    ensures
        v@ == name_attempted_attrs(),
{
    let mut v: Vec<u8> = Vec::new();
    v.push(0x61);
    v.push(0x74);
    v.push(0x74);
    v.push(0x65);
    v.push(0x6d);
    v.push(0x70);
    v.push(0x74);
    v.push(0x65);
    v.push(0x64);
    v.push(0x5f);
    v.push(0x61);
    v.push(0x74);
    v.push(0x74);
    v.push(0x72);
    v.push(0x73);
    proof {
        assert(v@ =~= name_attempted_attrs());
    }
    v
}

fn mk_name_skipped_attrs() -> (v: Vec<u8>)
    ensures
        v@ == name_skipped_attrs(),
{
    let mut v: Vec<u8> = Vec::new();
    v.push(0x73);
    v.push(0x6b);
    v.push(0x69);
    v.push(0x70);
    v.push(0x70);
    v.push(0x65);
    v.push(0x64);
    v.push(0x5f);
    v.push(0x61);
    v.push(0x74);
    v.push(0x74);
    v.push(0x72);
    v.push(0x73);
    proof {
        assert(v@ =~= name_skipped_attrs());
    }
    v
}

/// Where each known field occurs, and how often.
struct FieldScan {
    n_attempt_id: usize,
    i_attempt_id: usize,
    n_identity: usize,
    i_identity: usize,
    n_system: usize,
    i_system: usize,
    n_line_number: usize,
    i_line_number: usize,
    n_output: usize,
    i_output: usize,
    n_attempted_attrs: usize,
    i_attempted_attrs: usize,
    n_skipped_attrs: usize,
    i_skipped_attrs: usize,
}

/// The scan found each known field as the specification counts it.
spec fn scan_ok_one(fs: Seq<(Seq<u8>, JFieldV)>, name: Seq<u8>, n: usize, i: usize) -> bool {
    &&& n == count_key(fs, name)
    &&& n > 0 ==> i < fs.len() && fs[i as int].0 == name && fs[i as int].1 == field_get(fs, name)
}

spec fn scan_ok(fs: Seq<(Seq<u8>, JFieldV)>, sc: FieldScan) -> bool {
    &&& scan_ok_one(fs, name_attempt_id(), sc.n_attempt_id, sc.i_attempt_id)
    &&& scan_ok_one(fs, name_identity(), sc.n_identity, sc.i_identity)
    &&& scan_ok_one(fs, name_system(), sc.n_system, sc.i_system)
    &&& scan_ok_one(fs, name_line_number(), sc.n_line_number, sc.i_line_number)
    &&& scan_ok_one(fs, name_output(), sc.n_output, sc.i_output)
    &&& scan_ok_one(fs, name_attempted_attrs(), sc.n_attempted_attrs, sc.i_attempted_attrs)
    &&& scan_ok_one(fs, name_skipped_attrs(), sc.n_skipped_attrs, sc.i_skipped_attrs)
}

/// Finds one known field: how often it occurs, and where its last
/// occurrence is.
#[verifier::loop_isolation(false)]
fn find_field(ms: &Vec<Member>, name: &Vec<u8>) -> (r: (usize, usize))
    ensures
        scan_ok_one(ms.deep_view(), name@, r.0, r.1),
{
    let ghost fs = ms.deep_view();
    let mut cnt: usize = 0;
    let mut idx: usize = 0;
    let len = ms.len();
    let mut i: usize = 0;
    proof {
        assert(fs.take(0) =~= Seq::<(Seq<u8>, JFieldV)>::empty());
    }
    while i < len
        invariant
            i <= len == fs.len(),
            cnt <= i,
            cnt == count_key(fs.take(i as int), name@),
            cnt > 0 ==> idx < i && fs[idx as int].0 == name@ && fs[idx as int].1 == field_get(
                fs.take(i as int),
                name@,
            ),
        decreases len - i,
    {
        proof {
            assert(fs.take(i as int + 1).drop_last() =~= fs.take(i as int));
            assert(fs.take(i as int + 1).last() == fs[i as int]);
        }
        let m = &ms[i];
        proof {
            assert(fs[i as int] == (m.name@, m.value@));
        }
        if m.name == *name {
            proof {
                assert(m.name@ =~= name@);
            }
            cnt = cnt + 1;
            idx = i;
        } else {
            proof {
                assert(m.name@ != name@);
            }
        }
        i = i + 1;
    }
    proof {
        assert(fs.take(len as int) =~= fs);
    }
    (cnt, idx)
}

fn scan_fields(ms: &Vec<Member>) -> (sc: FieldScan)
    ensures
        scan_ok(ms.deep_view(), sc),
{
    let attempt_id = find_field(ms, &mk_name_attempt_id());
    let identity = find_field(ms, &mk_name_identity());
    let system = find_field(ms, &mk_name_system());
    let line_number = find_field(ms, &mk_name_line_number());
    let output = find_field(ms, &mk_name_output());
    let attempted_attrs = find_field(ms, &mk_name_attempted_attrs());
    let skipped_attrs = find_field(ms, &mk_name_skipped_attrs());
    FieldScan {
        n_attempt_id: attempt_id.0,
        i_attempt_id: attempt_id.1,
        n_identity: identity.0,
        i_identity: identity.1,
        n_system: system.0,
        i_system: system.1,
        n_line_number: line_number.0,
        i_line_number: line_number.1,
        n_output: output.0,
        i_output: output.1,
        n_attempted_attrs: attempted_attrs.0,
        i_attempted_attrs: attempted_attrs.1,
        n_skipped_attrs: skipped_attrs.0,
        i_skipped_attrs: skipped_attrs.1,
    }
}

/// The deep view of a byte vector is its view.
proof fn lemma_bytes_deep_view(b: Vec<u8>)
    ensures
        b.deep_view() == b@,
{
    assert(b.deep_view() =~= b@);
}

/// Element-exact copy of a list of byte vectors.
fn copy_bytes_list(v: &Vec<Vec<u8>>) -> (r: Vec<Vec<u8>>)
    ensures
        r.deep_view() == v.deep_view(),
{
    let mut out: Vec<Vec<u8>> = Vec::new();
    let len = v.len();
    let mut i: usize = 0;
    while i < len
        invariant
            i <= len == v@.len(),
            out@.len() == i,
            forall|k: int| 0 <= k < i ==> out@[k]@ == v@[k]@,
        decreases len - i,
    {
        let c = clone_bytes(&v[i]);
        let ghost cv = c@;
        out.push(c);
        proof {
            assert(out@[i as int]@ == cv);
        }
        i = i + 1;
    }
    proof {
        assert forall|k: int| 0 <= k < len implies out.deep_view()[k] == v.deep_view()[k] by {
            lemma_bytes_deep_view(out@[k]);
            lemma_bytes_deep_view(v@[k]);
        }
        assert(out.deep_view() =~= v.deep_view());
    }
    out
}

fn chunk_from(ms: &Vec<Member>, sc: &FieldScan) -> (r: Option<crate::message::BuildLogMsg>)
    requires
        scan_ok(ms.deep_view(), *sc),
    ensures
        match r {
            Some(m) => chunk_of(ms.deep_view()) == Some(m@),
            None => chunk_of(ms.deep_view()) is None,
        },
{
    if sc.n_attempt_id != 1 || sc.n_identity != 1 || sc.n_system != 1 || sc.n_output != 1
        || sc.n_line_number != 1 {
        return None;
    }
    let attempt_id = match &ms[sc.i_attempt_id].value {
        JField::Str(v) => clone_bytes(v),
        _ => {
            return None;
        },
    };
    let identity = match &ms[sc.i_identity].value {
        JField::Str(v) => clone_bytes(v),
        _ => {
            return None;
        },
    };
    let system = match &ms[sc.i_system].value {
        JField::Str(v) => clone_bytes(v),
        _ => {
            return None;
        },
    };
    let output = match &ms[sc.i_output].value {
        JField::Str(v) => clone_bytes(v),
        _ => {
            return None;
        },
    };
    let line_number = match &ms[sc.i_line_number].value {
        JField::Num { uint: Some(n) } => *n,
        _ => {
            return None;
        },
    };
    Some(
        crate::message::BuildLogMsg { attempt_id, identity, system, line_number, output },
    )
}

fn start_from(ms: &Vec<Member>, sc: &FieldScan) -> (r: Option<crate::message::BuildLogStart>)
    requires
        scan_ok(ms.deep_view(), *sc),
    ensures
        match r {
            Some(st) => start_of(ms.deep_view()) == Some(st@),
            None => start_of(ms.deep_view()) is None,
        },
{
    if sc.n_attempt_id != 1 || sc.n_identity != 1 || sc.n_system != 1 {
        return None;
    }
    let attempt_id = match &ms[sc.i_attempt_id].value {
        JField::Str(v) => clone_bytes(v),
        _ => {
            return None;
        },
    };
    let identity = match &ms[sc.i_identity].value {
        JField::Str(v) => clone_bytes(v),
        _ => {
            return None;
        },
    };
    let system = match &ms[sc.i_system].value {
        JField::Str(v) => clone_bytes(v),
        _ => {
            return None;
        },
    };
    let attempted_attrs: Option<Vec<Vec<u8>>> = if sc.n_attempted_attrs == 0 {
        None
    } else if sc.n_attempted_attrs == 1 {
        match &ms[sc.i_attempted_attrs].value {
            JField::Null => None,
            JField::ArrStr(a) => Some(copy_bytes_list(a)),
            _ => {
                return None;
            },
        }
    } else {
        return None;
    };
    let skipped_attrs: Option<Vec<Vec<u8>>> = if sc.n_skipped_attrs == 0 {
        None
    } else if sc.n_skipped_attrs == 1 {
        match &ms[sc.i_skipped_attrs].value {
            JField::Null => None,
            JField::ArrStr(a) => Some(copy_bytes_list(a)),
            _ => {
                return None;
            },
        }
    } else {
        return None;
    };
    let st = crate::message::BuildLogStart {
        attempt_id,
        identity,
        system,
        attempted_attrs,
        skipped_attrs,
    };
    proof {
        assert(st@ =~~= start_of(ms.deep_view())->Some_0);
    }
    Some(st)
}

fn finish_from(ms: &Vec<Member>, sc: &FieldScan) -> (r: Option<crate::message::BuildResult>)
    requires
        scan_ok(ms.deep_view(), *sc),
    ensures
        match r {
            Some(f) => finish_of(ms.deep_view()) == Some(f@),
            None => finish_of(ms.deep_view()) is None,
        },
{
    if sc.n_attempt_id != 1 {
        return None;
    }
    match &ms[sc.i_attempt_id].value {
        JField::Str(v) => Some(crate::message::BuildResult { attempt_id: clone_bytes(v) }),
        _ => None,
    }
}

/// Classifies one inbound delivery: decodes the payload and tries the chunk,
/// start, and finish shapes in that order, deriving the stream identity from
/// the routing key and the decoded attempt id. No side effects.
pub fn classify_message(routing_key: &[u8], body: &[u8]) -> (r: Option<crate::message::LogMessage>)
    ensures
        match r {
            Some(m) => classify(routing_key@, body@) == Some(m@),
            None => classify(routing_key@, body@) is None,
        },
{
    let ms = match parse_payload(body) {
        None => {
            return None;
        },
        Some(ms) => ms,
    };
    let sc = scan_fields(&ms);
    if let Some(m) = chunk_from(&ms, &sc) {
        let from = crate::message::LogFrom {
            routing_key: vstd::slice::slice_to_vec(routing_key),
            attempt_id: clone_bytes(&m.attempt_id),
        };
        return Some(crate::message::LogMessage { from, message: crate::message::MsgType::Msg(m) });
    }
    if let Some(st) = start_from(&ms, &sc) {
        let from = crate::message::LogFrom {
            routing_key: vstd::slice::slice_to_vec(routing_key),
            attempt_id: clone_bytes(&st.attempt_id),
        };
        return Some(
            crate::message::LogMessage { from, message: crate::message::MsgType::Start(st) },
        );
    }
    if let Some(f) = finish_from(&ms, &sc) {
        let from = crate::message::LogFrom {
            routing_key: vstd::slice::slice_to_vec(routing_key),
            attempt_id: clone_bytes(&f.attempt_id),
        };
        return Some(
            crate::message::LogMessage { from, message: crate::message::MsgType::Finish(f) },
        );
    }
    None
}

} // verus!
