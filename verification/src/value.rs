//! Typed scalar values and the coercion of raw text or structured-payload
//! nodes into them.
//!
//! Five scalar kinds are supported. A float value is carried as its
//! validated textual form: the bridge never computes with the number, it
//! only checks its shape and hands it to the datastore collaborator, which
//! owns the numeric conversion.

use vstd::prelude::*;
use crate::str_eq;
use crate::interpolate::{
    is_digit,
    digit_val,
    digits_val,
    char_is_digit,
    lemma_digits_val_snoc,
    lemma_digits_val_prefix,
};

verus! {

/// The scalar kind a rule declares for a field or tag value.
#[derive(Clone, Copy, Debug, PartialEq, Eq, Structural)]
pub enum ValueType {
    Boolean,
    Float,
    SignedInteger,
    UnsignedInteger,
    Text,
}

impl ValueType {
    /// A short lower-case name, for error reports.
    pub fn describe(&self) -> (r: &'static str)
        ensures
            r@ == spec_describe(*self),
    {
        match self {
            ValueType::Boolean => "boolean",
            ValueType::Float => "float",
            ValueType::SignedInteger => "signed integer",
            ValueType::UnsignedInteger => "unsigned integer",
            ValueType::Text => "text",
        }
    }
}

/// The name `describe` answers for each kind.
pub open spec fn spec_describe(vt: ValueType) -> Seq<char> {
    match vt {
        ValueType::Boolean => "boolean"@,
        ValueType::Float => "float"@,
        ValueType::SignedInteger => "signed integer"@,
        ValueType::UnsignedInteger => "unsigned integer"@,
        ValueType::Text => "text"@,
    }
}

/// A typed scalar value, handed to the datastore collaborator.
#[derive(Clone, Debug, PartialEq)]
pub enum TypedValue {
    Boolean(bool),
    /// The validated textual form of a 64-bit float.
    Float(String),
    SignedInteger(i64),
    UnsignedInteger(u64),
    Text(String),
}

/// Mathematical model of a typed scalar value.
#[verifier::ext_equal]
pub enum ValModel {
    B(bool),
    F(Seq<char>),
    I(i64),
    U(u64),
    T(Seq<char>),
}

impl View for TypedValue {
    type V = ValModel;

    open spec fn view(&self) -> ValModel {
        match self {
            TypedValue::Boolean(b) => ValModel::B(*b),
            TypedValue::Float(s) => ValModel::F(s@),
            TypedValue::SignedInteger(v) => ValModel::I(*v),
            TypedValue::UnsignedInteger(v) => ValModel::U(*v),
            TypedValue::Text(s) => ValModel::T(s@),
        }
    }
}

impl DeepView for TypedValue {
    type V = ValModel;

    open spec fn deep_view(&self) -> ValModel {
        self.view()
    }
}

/// Rejections raised while coercing a raw value.
#[derive(Clone, Copy, Debug, PartialEq, Eq, Structural)]
pub enum CoerceError {
    /// The source is not the literal `true` or `false`, or not a boolean
    /// node.
    InvalidBoolean,
    /// The source cannot be read as a number of the declared kind.
    InvalidNumber(ValueType),
    /// A node of a kind (array, object, null) that has no text form here.
    UnsupportedTextSource,
}

// ---------------------------------------------------------------------------
// Integer parsing: an optional sign followed by decimal digits
// ---------------------------------------------------------------------------

/// Every character is a decimal digit.
pub open spec fn all_digits(s: Seq<char>) -> bool {
    forall|i: int| 0 <= i < s.len() ==> is_digit(#[trigger] s[i])
}

/// The unsigned 64-bit number a string denotes: an optional `+`, then one
/// or more digits, whose value fits.
pub open spec fn spec_parse_u64(s: Seq<char>) -> Option<u64> {
    let body = if s.len() > 0 && s[0] == '+' {
        s.skip(1)
    } else {
        s
    };
    if body.len() > 0 && all_digits(body) && digits_val(body) <= u64::MAX {
        Some(digits_val(body) as u64)
    } else {
        None
    }
}

/// The signed 64-bit number a string denotes: an optional `+` or `-`, then
/// one or more digits, whose value fits.
pub open spec fn spec_parse_i64(s: Seq<char>) -> Option<i64> {
    if s.len() > 0 && s[0] == '-' {
        let body = s.skip(1);
        if body.len() > 0 && all_digits(body) && digits_val(body) <= i64::MAX as nat + 1 {
            Some((0 - digits_val(body) as int) as i64)
        } else {
            None
        }
    } else {
        let body = if s.len() > 0 && s[0] == '+' {
            s.skip(1)
        } else {
            s
        };
        if body.len() > 0 && all_digits(body) && digits_val(body) <= i64::MAX as nat {
            Some(digits_val(body) as i64)
        } else {
            None
        }
    }
}

/// Reads the digit run `s[start..]` as an unsigned 64-bit number.
fn parse_digits_u64(s: &str, start: usize) -> (r: Option<u64>)
    requires
        start <= s@.len(),
    ensures
        (match r {
            Some(v) => {
                let body = s@.skip(start as int);
                &&& body.len() > 0
                &&& all_digits(body)
                &&& digits_val(body) == v
            },
            None => {
                let body = s@.skip(start as int);
                !(body.len() > 0 && all_digits(body) && digits_val(body) <= u64::MAX)
            },
        }),
{
    let len: usize = s.unicode_len();
    let ghost body = s@.skip(start as int);
    if start >= len {
        return None;
    }
    let mut val: u64 = 0;
    let mut q: usize = start;
    proof {
        assert(s@.subrange(start as int, start as int) =~= Seq::<char>::empty());
    }
    while q < len
        invariant
            start <= q <= len,
            len == s@.len(),
            start < len,
            body == s@.skip(start as int),
            forall|w: int| start <= w < q ==> is_digit(#[trigger] s@[w]),
            val == digits_val(s@.subrange(start as int, q as int)),
        decreases len - q,
    {
        let c = s.get_char(q);
        if !char_is_digit(c) {
            proof {
                assert(body[q - start] == s@[q as int]);
                assert(!all_digits(body));
            }
            return None;
        }
        let d32: u32 = c as u32;
        let d: u64 = (d32 - 48) as u64;
        let ghost pre = s@.subrange(start as int, q as int);
        proof {
            lemma_digits_val_snoc(pre, s@[q as int]);
            assert(pre.push(s@[q as int]) =~= s@.subrange(start as int, q + 1));
            assert(d == digit_val(s@[q as int]));
        }
        let next: Option<u64> = match val.checked_mul(10) {
            Some(v) => v.checked_add(d),
            None => None,
        };
        match next {
            Some(v) => {
                val = v;
            },
            None => {
                // the whole run is larger still
                proof {
                    let m: int = q - start;
                    assert(digits_val(s@.subrange(start as int, q + 1)) > u64::MAX);
                    assert(body.take(m + 1) =~= s@.subrange(start as int, q + 1));
                    lemma_digits_val_prefix(body, m + 1);
                    assert(digits_val(body) > u64::MAX);
                }
                return None;
            },
        }
        q += 1;
    }
    proof {
        assert(body =~= s@.subrange(start as int, len as int));
        assert(body.len() > 0);
        assert forall|w: int| 0 <= w < body.len() implies is_digit(#[trigger] body[w]) by {
            assert(body[w] == s@[w + start]);
        }
    }
    Some(val)
}

/// Parses an unsigned 64-bit integer: an optional `+`, then decimal digits.
pub fn parse_u64(s: &str) -> (r: Option<u64>)
    ensures
        r == spec_parse_u64(s@),
{
    let len: usize = s.unicode_len();
    let start: usize = if len > 0 && s.get_char(0) == '+' {
        1
    } else {
        0
    };
    proof {
        if !(len > 0 && s@[0] == '+') {
            assert(s@.skip(0) =~= s@);
        }
    }
    parse_digits_u64(s, start)
}

/// Parses a signed 64-bit integer: an optional `+` or `-`, then decimal
/// digits, with the usual asymmetric range.
pub fn parse_i64(s: &str) -> (r: Option<i64>)
    ensures
        r == spec_parse_i64(s@),
{
    let len: usize = s.unicode_len();
    if len > 0 && s.get_char(0) == '-' {
        match parse_digits_u64(s, 1) {
            Some(mag) => {
                if mag > i64::MAX as u64 + 1 {
                    None
                } else if mag == i64::MAX as u64 + 1 {
                    Some(i64::MIN)
                } else {
                    Some(-(mag as i64))
                }
            },
            None => {
                proof {
                    if digits_val(s@.skip(1)) > u64::MAX {
                        assert(digits_val(s@.skip(1)) > i64::MAX as nat + 1);
                    }
                }
                None
            },
        }
    } else {
        let start: usize = if len > 0 && s.get_char(0) == '+' {
            1
        } else {
            0
        };
        proof {
            if !(len > 0 && s@[0] == '+') {
                assert(s@.skip(0) =~= s@);
            }
        }
        match parse_digits_u64(s, start) {
            Some(v) => {
                if v > i64::MAX as u64 {
                    None
                } else {
                    Some(v as i64)
                }
            },
            None => {
                proof {
                    let body = if s@.len() > 0 && s@[0] == '+' {
                        s@.skip(1)
                    } else {
                        s@
                    };
                    if digits_val(body) > u64::MAX {
                        assert(digits_val(body) > i64::MAX as nat);
                    }
                }
                None
            },
        }
    }
}

// ---------------------------------------------------------------------------
// The shape of a 64-bit float's textual form
// ---------------------------------------------------------------------------
//
// The accepted shape follows the standard library's documented grammar for
// reading a 64-bit float from text: an optional sign, then either one of
// the words `inf`, `infinity`, `nan` (case-insensitive) or a number
// `Digits '.'? Digits? Exp?` / `'.' Digits Exp?` with
// `Exp ::= ('e'|'E') Sign? Digits`.

/// First position in `s` holding `a` or `b`, or `s.len()` if neither
/// occurs.
pub open spec fn char_pos(s: Seq<char>, a: char, b: char) -> nat
    decreases s.len(),
{
    if s.len() == 0 {
        0
    } else if s[0] == a || s[0] == b {
        0
    } else {
        (1 + char_pos(s.skip(1), a, b)) as nat
    }
}

proof fn lemma_char_pos_at(s: Seq<char>, a: char, b: char, k: int)
    requires
        0 <= k <= s.len(),
        forall|j: int| 0 <= j < k ==> s[j] != a && s[j] != b,
        k == s.len() || s[k] == a || s[k] == b,
    ensures
        char_pos(s, a, b) == k,
    decreases k,
{
    if k == 0 {
    } else {
        assert forall|j: int| 0 <= j < k - 1 implies s.skip(1)[j] != a && s.skip(1)[j] != b by {
            assert(s.skip(1)[j] == s[j + 1]);
        }
        if k < s.len() {
            assert(s.skip(1)[k - 1] == s[k]);
        }
        lemma_char_pos_at(s.skip(1), a, b, k - 1);
    }
}

/// `c` equals the lower-case letter `lower`, ignoring ASCII case.
pub open spec fn char_eq_ci(c: char, lower: char) -> bool {
    (c as u32) == (lower as u32) || (c as u32) + 32 == (lower as u32)
}

/// `s` spells the lower-case word `w`, ignoring ASCII case.
pub open spec fn word_ci(s: Seq<char>, w: Seq<char>) -> bool {
    s.len() == w.len() && forall|i: int| 0 <= i < s.len() ==> char_eq_ci(#[trigger] s[i], w[i])
}

/// The exponent tail: an optional sign, then one or more digits.
pub open spec fn spec_exp_ok(x: Seq<char>) -> bool {
    let body = if x.len() > 0 && (x[0] == '+' || x[0] == '-') {
        x.skip(1)
    } else {
        x
    };
    body.len() > 0 && all_digits(body)
}

/// The mantissa: digits with an optional point, or a point with digits.
pub open spec fn spec_mantissa_ok(m: Seq<char>) -> bool {
    let d = char_pos(m, '.', '.') as int;
    if d >= m.len() {
        m.len() > 0 && all_digits(m)
    } else {
        let intpart = m.take(d);
        let frac = m.skip(d + 1);
        if intpart.len() > 0 {
            all_digits(intpart) && (frac.len() == 0 || all_digits(frac))
        } else {
            frac.len() > 0 && all_digits(frac)
        }
    }
}

/// A number: a mantissa, optionally followed by an exponent.
pub open spec fn spec_number_ok(b: Seq<char>) -> bool {
    let e = char_pos(b, 'e', 'E') as int;
    if e >= b.len() {
        spec_mantissa_ok(b)
    } else {
        spec_mantissa_ok(b.take(e)) && spec_exp_ok(b.skip(e + 1))
    }
}

/// The accepted textual form of a 64-bit float.
pub open spec fn spec_float_text(s: Seq<char>) -> bool {
    let body = if s.len() > 0 && (s[0] == '+' || s[0] == '-') {
        s.skip(1)
    } else {
        s
    };
    ||| word_ci(body, "inf"@)
    ||| word_ci(body, "infinity"@)
    ||| word_ci(body, "nan"@)
    ||| spec_number_ok(body)
}

/// Tests whether `s[from..]` spells the lower-case word `w`, ignoring
/// ASCII case.
fn range_word_ci(s: &str, from: usize, w: &str) -> (r: bool)
    requires
        from <= s@.len(),
    ensures
        r == word_ci(s@.skip(from as int), w@),
{
    let len: usize = s.unicode_len();
    let wlen: usize = w.unicode_len();
    let ghost body = s@.skip(from as int);
    if len - from != wlen {
        return false;
    }
    let mut i: usize = 0;
    while i < wlen
        invariant
            i <= wlen,
            from <= len,
            len == s@.len(),
            wlen == w@.len(),
            len - from == wlen,
            body == s@.skip(from as int),
            forall|j: int| 0 <= j < i ==> char_eq_ci(#[trigger] body[j], w@[j]),
        decreases wlen - i,
    {
        let c32: u32 = s.get_char(from + i) as u32;
        let l32: u32 = w.get_char(i) as u32;
        proof {
            assert(body[i as int] == s@[from + i]);
        }
        if !(c32 == l32 || c32 + 32 == l32) {
            return false;
        }
        i += 1;
    }
    true
}

/// Tests whether every character of `s[from..to]` is a decimal digit and
/// there is at least one.
fn range_all_digits(s: &str, from: usize, to: usize) -> (r: bool)
    requires
        from <= to <= s@.len(),
    ensures
        r == (to - from > 0 && all_digits(s@.subrange(from as int, to as int))),
{
    if to == from {
        return false;
    }
    let ghost body = s@.subrange(from as int, to as int);
    let mut i: usize = from;
    while i < to
        invariant
            from <= i <= to <= s@.len(),
            body == s@.subrange(from as int, to as int),
            forall|j: int| from <= j < i ==> is_digit(#[trigger] s@[j]),
        decreases to - i,
    {
        if !char_is_digit(s.get_char(i)) {
            proof {
                assert(body[i - from] == s@[i as int]);
            }
            return false;
        }
        i += 1;
    }
    proof {
        assert forall|j: int| 0 <= j < body.len() implies is_digit(#[trigger] body[j]) by {
            assert(body[j] == s@[j + from]);
        }
    }
    true
}

/// First position in `s[from..]` holding `a` or `b`, or the length.
fn range_char_pos(s: &str, from: usize, a: char, b: char) -> (r: usize)
    requires
        from <= s@.len(),
    ensures
        from <= r <= s@.len(),
        r - from == char_pos(s@.skip(from as int), a, b),
{
    let len: usize = s.unicode_len();
    let ghost body = s@.skip(from as int);
    let mut i: usize = from;
    while i < len
        invariant
            from <= i <= len,
            len == s@.len(),
            body == s@.skip(from as int),
            forall|j: int| from <= j < i ==> s@[j] != a && s@[j] != b,
        decreases len - i,
    {
        let c = s.get_char(i);
        if c == a || c == b {
            proof {
                assert forall|j: int| 0 <= j < i - from implies body[j] != a && body[j] != b by {
                    assert(body[j] == s@[j + from]);
                }
                assert(body[i - from] == s@[i as int]);
                lemma_char_pos_at(body, a, b, i - from);
            }
            return i;
        }
        i += 1;
    }
    proof {
        assert forall|j: int| 0 <= j < len - from implies body[j] != a && body[j] != b by {
            assert(body[j] == s@[j + from]);
        }
        lemma_char_pos_at(body, a, b, len - from);
    }
    len
}

/// First position in `s[from..to]` holding `a` or `b`, or `to`.
fn range_char_pos_to(s: &str, from: usize, to: usize, a: char, b: char) -> (r: usize)
    requires
        from <= to <= s@.len(),
    ensures
        from <= r <= to,
        r - from == char_pos(s@.subrange(from as int, to as int), a, b),
{
    let ghost body = s@.subrange(from as int, to as int);
    let mut i: usize = from;
    while i < to
        invariant
            from <= i <= to <= s@.len(),
            body == s@.subrange(from as int, to as int),
            forall|j: int| from <= j < i ==> s@[j] != a && s@[j] != b,
        decreases to - i,
    {
        let c = s.get_char(i);
        if c == a || c == b {
            proof {
                assert forall|j: int| 0 <= j < i - from implies body[j] != a && body[j] != b by {
                    assert(body[j] == s@[j + from]);
                }
                assert(body[i - from] == s@[i as int]);
                lemma_char_pos_at(body, a, b, i - from);
            }
            return i;
        }
        i += 1;
    }
    proof {
        assert forall|j: int| 0 <= j < to - from implies body[j] != a && body[j] != b by {
            assert(body[j] == s@[j + from]);
        }
        lemma_char_pos_at(body, a, b, to - from);
    }
    to
}

/// Recognizes a mantissa in `s[from..to]`: digits with an optional point,
/// or a point with digits.
fn range_mantissa_ok(s: &str, from: usize, to: usize) -> (r: bool)
    requires
        from <= to <= s@.len(),
    ensures
        r == spec_mantissa_ok(s@.subrange(from as int, to as int)),
{
    let ghost m = s@.subrange(from as int, to as int);
    let dpos: usize = range_char_pos_to(s, from, to, '.', '.');
    if dpos == to {
        range_all_digits(s, from, to)
    } else {
        proof {
            assert(m.take(dpos - from) =~= s@.subrange(from as int, dpos as int));
            assert(m.skip(dpos - from + 1) =~= s@.subrange(dpos + 1, to as int));
        }
        let int_ok: bool = range_all_digits(s, from, dpos);
        let frac_ok: bool = range_all_digits(s, dpos + 1, to);
        if dpos > from {
            int_ok && (dpos + 1 == to || frac_ok)
        } else {
            frac_ok
        }
    }
}

/// Recognizes the textual form of a 64-bit float, as the standard
/// library's reader accepts it.
pub fn is_float_text(s: &str) -> (r: bool)
    ensures
        r == spec_float_text(s@),
{
    let len: usize = s.unicode_len();
    let start: usize = if len > 0 {
        let c0 = s.get_char(0);
        if c0 == '+' || c0 == '-' {
            1
        } else {
            0
        }
    } else {
        0
    };
    let ghost body = s@.skip(start as int);
    proof {
        if start == 0 {
            assert(s@.skip(0) =~= s@);
        }
    }
    if range_word_ci(s, start, "inf") || range_word_ci(s, start, "infinity") || range_word_ci(
        s,
        start,
        "nan",
    ) {
        return true;
    }
    let epos: usize = range_char_pos(s, start, 'e', 'E');
    let mant_ok: bool = range_mantissa_ok(s, start, epos);
    proof {
        assert(body.take(epos - start) =~= s@.subrange(start as int, epos as int));
        if epos == len {
            assert(body =~= s@.subrange(start as int, epos as int));
        }
    }
    if epos == len {
        return mant_ok;
    }
    let estart: usize = if epos + 1 < len {
        let ec = s.get_char(epos + 1);
        if ec == '+' || ec == '-' {
            epos + 2
        } else {
            epos + 1
        }
    } else {
        epos + 1
    };
    let exp_ok: bool = range_all_digits(s, estart, len);
    proof {
        let x = body.skip(epos - start + 1);
        assert(x =~= s@.skip(epos + 1));
        if epos + 1 < len {
            assert(x[0] == s@[epos + 1]);
        }
        if estart == epos + 2 {
            assert(x.skip(1) =~= s@.subrange(estart as int, len as int));
        } else {
            assert(x =~= s@.subrange(estart as int, len as int));
        }
    }
    mant_ok && exp_ok
}

// ---------------------------------------------------------------------------
// Coercion from raw text
// ---------------------------------------------------------------------------

/// What coercion answers for a raw textual source.
pub open spec fn spec_coerce_text(s: Seq<char>, vt: ValueType) -> Result<ValModel, CoerceError> {
    match vt {
        ValueType::Boolean => if s == "true"@ {
            Ok(ValModel::B(true))
        } else if s == "false"@ {
            Ok(ValModel::B(false))
        } else {
            Err(CoerceError::InvalidBoolean)
        },
        ValueType::Float => if spec_float_text(s) {
            Ok(ValModel::F(s))
        } else {
            Err(CoerceError::InvalidNumber(ValueType::Float))
        },
        ValueType::SignedInteger => match spec_parse_i64(s) {
            Some(v) => Ok(ValModel::I(v)),
            None => Err(CoerceError::InvalidNumber(ValueType::SignedInteger)),
        },
        ValueType::UnsignedInteger => match spec_parse_u64(s) {
            Some(v) => Ok(ValModel::U(v)),
            None => Err(CoerceError::InvalidNumber(ValueType::UnsignedInteger)),
        },
        ValueType::Text => Ok(ValModel::T(s)),
    }
}

/// Coerces a raw textual source into the declared scalar kind: booleans
/// accept exactly `true` and `false`, numbers are parsed in the standard
/// shapes, and text passes through unchanged.
pub fn coerce_text(s: &str, vt: ValueType) -> (r: Result<TypedValue, CoerceError>)
    ensures
        (match r {
            Ok(v) => spec_coerce_text(s@, vt) == Ok::<ValModel, CoerceError>(v@),
            Err(e) => spec_coerce_text(s@, vt) == Err::<ValModel, CoerceError>(e),
        }),
{
    match vt {
        ValueType::Boolean => {
            if str_eq(s, "true") {
                Ok(TypedValue::Boolean(true))
            } else if str_eq(s, "false") {
                Ok(TypedValue::Boolean(false))
            } else {
                Err(CoerceError::InvalidBoolean)
            }
        },
        ValueType::Float => {
            if is_float_text(s) {
                Ok(TypedValue::Float(s.to_owned()))
            } else {
                Err(CoerceError::InvalidNumber(ValueType::Float))
            }
        },
        ValueType::SignedInteger => {
            match parse_i64(s) {
                Some(v) => Ok(TypedValue::SignedInteger(v)),
                None => Err(CoerceError::InvalidNumber(ValueType::SignedInteger)),
            }
        },
        ValueType::UnsignedInteger => {
            match parse_u64(s) {
                Some(v) => Ok(TypedValue::UnsignedInteger(v)),
                None => Err(CoerceError::InvalidNumber(ValueType::UnsignedInteger)),
            }
        },
        ValueType::Text => Ok(TypedValue::Text(s.to_owned())),
    }
}

// ---------------------------------------------------------------------------
// Structured-payload nodes and coercion from them
// ---------------------------------------------------------------------------

/// What the coercion layer reads from one structured-payload node. A
/// numeric node carries its textual form and its value as each integer
/// kind, where the conversion is lossless.
#[derive(Clone, Debug, PartialEq)]
pub enum JsonNode {
    Bool(bool),
    Number {
        /// The node's textual form.
        repr: String,
        /// The node's value as a signed 64-bit integer, where lossless.
        as_signed: Option<i64>,
        /// The node's value as an unsigned 64-bit integer, where lossless.
        as_unsigned: Option<u64>,
    },
    Text(String),
    /// An array, object or null node: no scalar to read.
    Other,
}

/// Mathematical model of a structured-payload node.
#[verifier::ext_equal]
pub enum NodeModel {
    Bool(bool),
    Num { repr: Seq<char>, as_signed: Option<i64>, as_unsigned: Option<u64> },
    Text(Seq<char>),
    Other,
}

impl View for JsonNode {
    type V = NodeModel;

    open spec fn view(&self) -> NodeModel {
        match self {
            JsonNode::Bool(b) => NodeModel::Bool(*b),
            JsonNode::Number { repr, as_signed, as_unsigned } => NodeModel::Num {
                repr: repr@,
                as_signed: *as_signed,
                as_unsigned: *as_unsigned,
            },
            JsonNode::Text(s) => NodeModel::Text(s@),
            JsonNode::Other => NodeModel::Other,
        }
    }
}

impl DeepView for JsonNode {
    type V = NodeModel;

    open spec fn deep_view(&self) -> NodeModel {
        self.view()
    }
}

/// What coercion answers for a structured-payload node source.
pub open spec fn spec_coerce_node(n: NodeModel, vt: ValueType) -> Result<ValModel, CoerceError> {
    match vt {
        ValueType::Boolean => match n {
            NodeModel::Bool(b) => Ok(ValModel::B(b)),
            _ => Err(CoerceError::InvalidBoolean),
        },
        ValueType::Float => match n {
            NodeModel::Num { repr, .. } => if spec_float_text(repr) {
                Ok(ValModel::F(repr))
            } else {
                Err(CoerceError::InvalidNumber(ValueType::Float))
            },
            _ => Err(CoerceError::InvalidNumber(ValueType::Float)),
        },
        ValueType::SignedInteger => match n {
            NodeModel::Num { as_signed: Some(v), .. } => Ok(ValModel::I(v)),
            _ => Err(CoerceError::InvalidNumber(ValueType::SignedInteger)),
        },
        ValueType::UnsignedInteger => match n {
            NodeModel::Num { as_unsigned: Some(v), .. } => Ok(ValModel::U(v)),
            _ => Err(CoerceError::InvalidNumber(ValueType::UnsignedInteger)),
        },
        ValueType::Text => match n {
            NodeModel::Text(s) => Ok(ValModel::T(s)),
            NodeModel::Bool(b) => Ok(ValModel::T(if b {
                "true"@
            } else {
                "false"@
            })),
            NodeModel::Num { repr, .. } => Ok(ValModel::T(repr)),
            NodeModel::Other => Err(CoerceError::UnsupportedTextSource),
        },
    }
}

/// Coerces a structured-payload node into the declared scalar kind:
/// booleans need a boolean node, numbers a numeric node losslessly
/// convertible to the declared kind, and text accepts string, boolean and
/// numeric nodes in their textual form.
pub fn coerce_node(n: &JsonNode, vt: ValueType) -> (r: Result<TypedValue, CoerceError>)
    ensures
        (match r {
            Ok(v) => spec_coerce_node(n@, vt) == Ok::<ValModel, CoerceError>(v@),
            Err(e) => spec_coerce_node(n@, vt) == Err::<ValModel, CoerceError>(e),
        }),
{
    match vt {
        ValueType::Boolean => match n {
            JsonNode::Bool(b) => Ok(TypedValue::Boolean(*b)),
            _ => Err(CoerceError::InvalidBoolean),
        },
        ValueType::Float => match n {
            JsonNode::Number { repr, .. } => {
                if is_float_text(repr.as_str()) {
                    Ok(TypedValue::Float(repr.clone()))
                } else {
                    Err(CoerceError::InvalidNumber(ValueType::Float))
                }
            },
            _ => Err(CoerceError::InvalidNumber(ValueType::Float)),
        },
        ValueType::SignedInteger => match n {
            JsonNode::Number { as_signed: Some(v), .. } => Ok(TypedValue::SignedInteger(*v)),
            _ => Err(CoerceError::InvalidNumber(ValueType::SignedInteger)),
        },
        ValueType::UnsignedInteger => match n {
            JsonNode::Number { as_unsigned: Some(v), .. } => Ok(TypedValue::UnsignedInteger(*v)),
            _ => Err(CoerceError::InvalidNumber(ValueType::UnsignedInteger)),
        },
        ValueType::Text => match n {
            JsonNode::Text(s) => Ok(TypedValue::Text(s.clone())),
            JsonNode::Bool(b) => {
                if *b {
                    Ok(TypedValue::Text(String::from_str("true")))
                } else {
                    Ok(TypedValue::Text(String::from_str("false")))
                }
            },
            JsonNode::Number { repr, .. } => Ok(TypedValue::Text(repr.clone())),
            JsonNode::Other => Err(CoerceError::UnsupportedTextSource),
        },
    }
}

// ---------------------------------------------------------------------------
// Laws
// ---------------------------------------------------------------------------

/// Law: two coercions of the same raw text to the same declared kind are
/// identical; coercion carries no hidden state.
pub proof fn lemma_coerce_text_deterministic(
    s: Seq<char>,
    vt: ValueType,
    r1: Result<ValModel, CoerceError>,
    r2: Result<ValModel, CoerceError>,
)
    requires
        r1 == spec_coerce_text(s, vt),
        r2 == spec_coerce_text(s, vt),
    ensures
        r1 == r2,
{
}

/// Law: two coercions of the same node to the same declared kind are
/// identical; coercion carries no hidden state.
pub proof fn lemma_coerce_node_deterministic(
    n: NodeModel,
    vt: ValueType,
    r1: Result<ValModel, CoerceError>,
    r2: Result<ValModel, CoerceError>,
)
    requires
        r1 == spec_coerce_node(n, vt),
        r2 == spec_coerce_node(n, vt),
    ensures
        r1 == r2,
{
}

} // verus!
