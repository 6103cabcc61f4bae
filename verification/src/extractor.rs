use vstd::prelude::*;
use crate::error::{BootError, Result};
use crate::request::BootRequest;
use crate::text::{chars_of, is_white_space, string_of, trim_white, trim_white_str};

verus! {

/// Reads a value out of a request, for controller argument binding.
pub trait RequestExtractor<T> {
    /// Whether `result` is a possible outcome of reading `request`.
    spec fn extracts(&self, request: &BootRequest, result: Result<T>) -> bool;

    fn extract(&self, request: &BootRequest) -> (r: Result<T>)
        ensures
            self.extracts(request, r),
    ;
}

/// The value `extractor` reads out of `request`.
pub fn extract_request_value<T, E: RequestExtractor<T>>(request: &BootRequest, extractor: E) -> (r: Result<T>)
    ensures
        extractor.extracts(request, r),
{
    extractor.extract(request)
}

/// Transforms one request value taken from a path, query, header or host
/// parameter.
pub trait RequestValuePipe<I, O> {
    /// Whether `result` is a possible outcome of transforming `value`.
    spec fn transforms(&self, value: I, result: Result<O>) -> bool;

    fn transform(&self, value: I) -> (r: Result<O>)
        ensures
            self.transforms(value, r),
    ;
}

/// `value` transformed by `pipe`.
pub fn transform_request_value<I, O, P: RequestValuePipe<I, O>>(value: I, pipe: P) -> (r: Result<O>)
    ensures
        pipe.transforms(value, r),
{
    pipe.transform(value)
}

/// Why a string is not a decimal integer of a given type.
#[derive(Clone, Copy, Debug, PartialEq, Eq, Structural)]
pub enum IntErrorKind {
    /// The string is empty.
    Empty,
    /// A character is not a digit (or a sign stands alone).
    InvalidDigit,
    /// The number is above the type's maximum.
    PosOverflow,
    /// The number is below the type's minimum.
    NegOverflow,
}

/// The text of an integer parse error.
pub open spec fn int_error_text(k: IntErrorKind) -> Seq<char> {
    match k {
        IntErrorKind::Empty => "cannot parse integer from empty string"@,
        IntErrorKind::InvalidDigit => "invalid digit found in string"@,
        IntErrorKind::PosOverflow => "number too large to fit in target type"@,
        IntErrorKind::NegOverflow => "number too small to fit in target type"@,
    }
}

pub open spec fn is_digit(c: char) -> bool {
    '0' <= c <= '9'
}

pub open spec fn digit_value(c: char) -> int {
    c as int - '0' as int
}

/// Reading the first `k` characters of `d` as decimal digits, left to right:
/// the value so far, or the first problem met. Each character is first
/// checked to be a digit, then the value checked not to exceed `limit`.
pub open spec fn scan_digits(d: Seq<char>, k: int, limit: int, over: IntErrorKind) -> std::result::Result<int, IntErrorKind>
    decreases k,
{
    if k <= 0 {
        Ok(0)
    } else {
        match scan_digits(d, k - 1, limit, over) {
            Err(e) => Err(e),
            Ok(v) => if !is_digit(d[k - 1]) {
                Err(IntErrorKind::InvalidDigit)
            } else if v * 10 + digit_value(d[k - 1]) > limit {
                Err(over)
            } else {
                Ok(v * 10 + digit_value(d[k - 1]))
            },
        }
    }
}

/// What parsing `s` as a decimal integer of a type with bounds `min..=max`
/// gives: an optional `+` (or `-` for signed types) and at least one digit.
pub open spec fn parse_int_spec(s: Seq<char>, signed: bool, min: int, max: int) -> std::result::Result<int, IntErrorKind> {
    if s.len() == 0 {
        Err(IntErrorKind::Empty)
    } else if (s[0] == '+' || s[0] == '-') && s.len() == 1 {
        Err(IntErrorKind::InvalidDigit)
    } else if s[0] == '-' && signed {
        match scan_digits(s.drop_first(), s.len() - 1, -min, IntErrorKind::NegOverflow) {
            Ok(v) => Ok(-v),
            Err(e) => Err(e),
        }
    } else if s[0] == '+' {
        scan_digits(s.drop_first(), s.len() - 1, max, IntErrorKind::PosOverflow)
    } else {
        scan_digits(s, s.len() as int, max, IntErrorKind::PosOverflow)
    }
}

/// The text of an integer parse error of kind `k`.
fn int_error_string(k: IntErrorKind) -> (r: String)
    ensures
        r@ == int_error_text(k),
{
    match k {
        IntErrorKind::Empty => {
            proof {
                reveal_strlit("cannot parse integer from empty string");
            }
            String::from_str("cannot parse integer from empty string")
        },
        IntErrorKind::InvalidDigit => {
            proof {
                reveal_strlit("invalid digit found in string");
            }
            String::from_str("invalid digit found in string")
        },
        IntErrorKind::PosOverflow => {
            proof {
                reveal_strlit("number too large to fit in target type");
            }
            String::from_str("number too large to fit in target type")
        },
        IntErrorKind::NegOverflow => {
            proof {
                reveal_strlit("number too small to fit in target type");
            }
            String::from_str("number too small to fit in target type")
        },
    }
}

/// Read `cs[start..]` as decimal digits bounded by `limit`.
fn scan_magnitude(cs: &Vec<char>, start: usize, limit: u128, over: IntErrorKind) -> (r: std::result::Result<u128, IntErrorKind>)
    requires
        start <= cs@.len(),
    ensures
        match scan_digits(cs@.skip(start as int), cs@.len() - start, limit as int, over) {
            Ok(v) => r == Ok::<u128, IntErrorKind>(v as u128),
            Err(e) => r == Err::<u128, IntErrorKind>(e),
        },
{
    let ghost d = cs@.skip(start as int);
    let mut v: u128 = 0;
    let mut i: usize = start;
    while i < cs.len()
        invariant
            start <= i <= cs@.len(),
            d == cs@.skip(start as int),
            scan_digits(d, i - start, limit as int, over) == Ok::<int, IntErrorKind>(v as int),
            v <= limit,
        decreases cs@.len() - i,
    {
        let c = cs[i];
        proof {
            assert(d[i - start] == c);
        }
        if !('0' <= c && c <= '9') {
            proof {
                lemma_scan_stops(d, i - start + 1, cs@.len() - start, limit as int, over);
            }
            return Err(IntErrorKind::InvalidDigit);
        }
        let dg: u128 = ((c as u32) - ('0' as u32)) as u128;
        let next = match v.checked_mul(10) {
            Some(t) => t.checked_add(dg),
            None => None,
        };
        match next {
            Some(n) => {
                if n > limit {
                    proof {
                        lemma_scan_stops(d, i - start + 1, cs@.len() - start, limit as int, over);
                    }
                    return Err(over);
                }
                v = n;
            },
            None => {
                proof {
                    lemma_scan_stops(d, i - start + 1, cs@.len() - start, limit as int, over);
                }
                return Err(over);
            },
        }
        i = i + 1;
    }
    Ok(v)
}

/// Once the scan has failed, reading more characters fails the same way.
proof fn lemma_scan_stops(d: Seq<char>, k: int, n: int, limit: int, over: IntErrorKind)
    requires
        0 <= k <= n,
        scan_digits(d, k, limit, over) is Err,
    ensures
        scan_digits(d, n, limit, over) == scan_digits(d, k, limit, over),
    decreases n - k,
{
    if k < n {
        lemma_scan_stops(d, k + 1, n, limit, over);
    }
}

/// Parse `cs` as a decimal integer of a type whose negative values reach
/// down to `-neg_limit` (signed types) and positive values up to
/// `pos_limit`: whether it is negative, and its magnitude.
fn parse_sign_magnitude(cs: &Vec<char>, signed: bool, neg_limit: u128, pos_limit: u128) -> (r: std::result::Result<
    (bool, u128),
    IntErrorKind,
>)
    ensures
        match parse_int_spec(cs@, signed, -(neg_limit as int), pos_limit as int) {
            Ok(v) => r matches Ok((neg, m)) && v == (if neg {
                -(m as int)
            } else {
                m as int
            }) && (neg ==> signed && m <= neg_limit) && (!neg ==> m <= pos_limit),
            Err(e) => r == Err::<(bool, u128), IntErrorKind>(e),
        },
{
    if cs.len() == 0 {
        return Err(IntErrorKind::Empty);
    }
    let first = cs[0];
    if (first == '+' || first == '-') && cs.len() == 1 {
        return Err(IntErrorKind::InvalidDigit);
    }
    proof {
        assert(cs@.skip(1) =~= cs@.drop_first());
        assert(cs@.skip(0) =~= cs@);
    }
    if first == '-' && signed {
        match scan_magnitude(cs, 1, neg_limit, IntErrorKind::NegOverflow) {
            Ok(m) => {
                proof {
                    lemma_scan_bounded(cs@.drop_first(), cs@.len() - 1, neg_limit as int, IntErrorKind::NegOverflow);
                }
                Ok((true, m))
            },
            Err(e) => Err(e),
        }
    } else if first == '+' {
        match scan_magnitude(cs, 1, pos_limit, IntErrorKind::PosOverflow) {
            Ok(m) => {
                proof {
                    lemma_scan_bounded(cs@.drop_first(), cs@.len() - 1, pos_limit as int, IntErrorKind::PosOverflow);
                }
                Ok((false, m))
            },
            Err(e) => Err(e),
        }
    } else {
        match scan_magnitude(cs, 0, pos_limit, IntErrorKind::PosOverflow) {
            Ok(m) => {
                proof {
                    lemma_scan_bounded(cs@, cs@.len() as int, pos_limit as int, IntErrorKind::PosOverflow);
                }
                Ok((false, m))
            },
            Err(e) => Err(e),
        }
    }
}

/// A successful scan stays within its limit and is not negative.
proof fn lemma_scan_bounded(d: Seq<char>, k: int, limit: int, over: IntErrorKind)
    requires
        limit >= 0,
    ensures
        scan_digits(d, k, limit, over) matches Ok(v) ==> 0 <= v <= limit,
    decreases k,
{
    if k > 0 {
        lemma_scan_bounded(d, k - 1, limit, over);
    }
}

/// An integer type that request values can be parsed into.
pub trait ParseIntTarget: Sized {
    /// The value as a mathematical integer.
    spec fn spec_int(self) -> int;

    /// The least value of the type.
    spec fn spec_min() -> int;

    /// The greatest value of the type.
    spec fn spec_max() -> int;

    /// Whether the type has negative values.
    spec fn spec_signed() -> bool;

    /// The type's name.
    spec fn spec_target_name() -> Seq<char>;

    /// Parse `value` as a decimal integer of the type.
    fn parse_int(value: &str) -> (r: std::result::Result<Self, String>)
        ensures
            match parse_int_spec(value@, Self::spec_signed(), Self::spec_min(), Self::spec_max()) {
                Ok(v) => r matches Ok(x) && x.spec_int() == v,
                Err(k) => r matches Err(m) && m@ == int_error_text(k),
            },
    ;

    /// The type's name, such as `u32`.
    fn target_name() -> (r: &'static str)
        ensures
            r@ == Self::spec_target_name(),
    ;
}

/// The message of a failed integer conversion into the type `name`.
pub open spec fn int_pipe_message(name: Seq<char>, error: Seq<char>) -> Seq<char> {
    "validation failed: numeric string is expected for "@ + name + ": "@ + error
}

/// Parses integer request values.
#[derive(Clone, Copy, Debug, Default)]
pub struct ParseIntPipe;

impl ParseIntPipe {
    /// The value without surrounding white space, as a decimal integer of
    /// the target type; a bad-request error naming the type otherwise.
    pub fn parse<T: ParseIntTarget>(&self, value: String) -> (r: Result<T>)
        ensures
            match parse_int_spec(trim_white(value@), T::spec_signed(), T::spec_min(), T::spec_max()) {
                Ok(v) => r matches Ok(x) && x.spec_int() == v,
                Err(k) => r matches Err(e) && e.is_bad_request(int_pipe_message(T::spec_target_name(), int_error_text(k))),
            },
    {
        let trimmed = string_of(trim_white_str(value.as_str()).as_slice());
        match T::parse_int(trimmed.as_str()) {
            Ok(x) => Ok(x),
            Err(error) => {
                let m = String::from_str("validation failed: numeric string is expected for ").concat(
                    T::target_name(),
                ).concat(": ").concat(error.as_str());
                proof {
                    reveal_strlit("validation failed: numeric string is expected for ");
                    reveal_strlit(": ");
                }
                Err(BootError::BadRequest(m))
            },
        }
    }
}

/// What parsing `value` as an integer of type `T` gives: the value without
/// surrounding white space as a decimal integer, or a bad-request error
/// naming the type and the problem.
pub open spec fn int_pipe_outcome<T: ParseIntTarget>(value: Seq<char>, result: Result<T>) -> bool {
    match parse_int_spec(trim_white(value), T::spec_signed(), T::spec_min(), T::spec_max()) {
        Ok(v) => result matches Ok(x) && x.spec_int() == v,
        Err(k) => result matches Err(e) && e.is_bad_request(int_pipe_message(T::spec_target_name(), int_error_text(k))),
    }
}

impl<T: ParseIntTarget> RequestValuePipe<String, T> for ParseIntPipe {
    open spec fn transforms(&self, value: String, result: Result<T>) -> bool {
        int_pipe_outcome::<T>(value@, result)
    }

    fn transform(&self, value: String) -> Result<T> {
        self.parse(value)
    }
}

/// The ASCII lower-case form of a character.
pub open spec fn ascii_lower(c: char) -> char {
    if 'A' <= c <= 'Z' {
        ((c as int) + 32) as char
    } else {
        c
    }
}

/// The ASCII lower-case form of a string.
pub open spec fn ascii_lowercase(s: Seq<char>) -> Seq<char> {
    s.map_values(|c: char| ascii_lower(c))
}

/// What a boolean request value means: `true` or `1`, `false` or `0`,
/// ignoring surrounding white space and ASCII case.
pub open spec fn parse_bool_spec(value: Seq<char>) -> Option<bool> {
    let s = ascii_lowercase(trim_white(value));
    if s == "true"@ || s == "1"@ {
        Some(true)
    } else if s == "false"@ || s == "0"@ {
        Some(false)
    } else {
        None
    }
}

/// The message of a failed boolean conversion.
pub open spec fn bool_pipe_message() -> Seq<char> {
    "validation failed: boolean string is expected"@
}

/// Whether `cs` in ASCII lower case is `lit`, where `lit` has no upper-case
/// ASCII letter.
fn lower_equals(cs: &Vec<char>, lit: &str) -> (r: bool)
    requires
        forall|i: int| 0 <= i < lit@.len() ==> !('A' <= #[trigger] lit@[i] <= 'Z'),
    ensures
        r == (ascii_lowercase(cs@) == lit@),
{
    let l = chars_of(lit);
    if cs.len() != l.len() {
        proof {
            assert(ascii_lowercase(cs@).len() != lit@.len());
        }
        return false;
    }
    let mut i: usize = 0;
    while i < cs.len()
        invariant
            i <= cs@.len(),
            cs@.len() == l@.len(),
            l@ == lit@,
            forall|j: int| 0 <= j < lit@.len() ==> !('A' <= #[trigger] lit@[j] <= 'Z'),
            forall|j: int| 0 <= j < i ==> ascii_lower(#[trigger] cs@[j]) == l@[j],
        decreases cs@.len() - i,
    {
        let c = cs[i];
        let d = l[i];
        let same = if 'A' <= c && c <= 'Z' {
            'a' <= d && d <= 'z' && (c as u32) + 32 == (d as u32)
        } else {
            c == d
        };
        proof {
            if 'A' <= c <= 'Z' {
                assert((c as u32) as int == c as int);
                assert(ascii_lower(c) as int == c as int + 32);
                if same {
                    assert((d as u32) as int == d as int);
                    assert(d as int == c as int + 32);
                    assert(ascii_lower(c) == d);
                } else {
                    assert(ascii_lower(c) != d);
                }
            }
        }
        if !same {
            proof {
                assert(ascii_lowercase(cs@)[i as int] == ascii_lower(c));
                assert(!('A' <= d <= 'Z'));
            }
            return false;
        }
        i = i + 1;
    }
    proof {
        assert(ascii_lowercase(cs@) =~= lit@);
    }
    true
}

/// Parses boolean request values.
#[derive(Clone, Copy, Debug, Default)]
pub struct ParseBoolPipe;

impl RequestValuePipe<String, bool> for ParseBoolPipe {
    /// `true` for `true` or `1`, `false` for `false` or `0`, ignoring
    /// surrounding white space and ASCII case; a bad-request error otherwise.
    open spec fn transforms(&self, value: String, result: Result<bool>) -> bool {
        match parse_bool_spec(value@) {
            Some(b) => result == Ok::<bool, BootError>(b),
            None => result matches Err(e) && e.is_bad_request(bool_pipe_message()),
        }
    }

    fn transform(&self, value: String) -> (r: Result<bool>)
        ensures
            match parse_bool_spec(value@) {
                Some(b) => r == Ok::<bool, BootError>(b),
                None => r matches Err(e) && e.is_bad_request(bool_pipe_message()),
            },
    {
        let t = trim_white_str(value.as_str());
        proof {
            reveal_strlit("true");
            reveal_strlit("1");
            reveal_strlit("false");
            reveal_strlit("0");
        }
        if lower_equals(&t, "true") || lower_equals(&t, "1") {
            Ok(true)
        } else if lower_equals(&t, "false") || lower_equals(&t, "0") {
            Ok(false)
        } else {
            proof {
                reveal_strlit("validation failed: boolean string is expected");
            }
            Err(BootError::BadRequest(String::from_str("validation failed: boolean string is expected")))
        }
    }
}

/// Whether `a` and `b` differ at most in the ASCII case of their letters.
pub open spec fn same_ignoring_ascii_case(a: Seq<char>, b: Seq<char>) -> bool {
    a.len() == b.len() && forall|i: int| 0 <= i < a.len() ==> ascii_lower(#[trigger] a[i]) == ascii_lower(b[i])
}

/// Characters equal up to ASCII case are both white space or neither, and
/// white space is never changed by case.
proof fn lemma_case_keeps_white(x: char, y: char)
    requires
        ascii_lower(x) == ascii_lower(y),
    ensures
        is_white_space(x) ==> y == x,
        is_white_space(x) <==> is_white_space(y),
{
    if 'A' <= x <= 'Z' {
        assert(ascii_lower(x) as int == x as int + 32);
    }
    if 'A' <= y <= 'Z' {
        assert(ascii_lower(y) as int == y as int + 32);
    }
}

/// Trimming white space commutes with changing ASCII case.
proof fn lemma_trim_white_case(a: Seq<char>, b: Seq<char>)
    requires
        same_ignoring_ascii_case(a, b),
    ensures
        same_ignoring_ascii_case(trim_white(a), trim_white(b)),
    decreases a.len(),
{
    if a.len() > 0 {
        lemma_case_keeps_white(a[0], b[0]);
        lemma_case_keeps_white(a.last(), b.last());
        assert(ascii_lower(a[a.len() - 1]) == ascii_lower(b[b.len() - 1]));
        if is_white_space(a[0]) {
            assert(same_ignoring_ascii_case(a.drop_first(), b.drop_first())) by {
                assert forall|i: int| 0 <= i < a.drop_first().len() implies ascii_lower(#[trigger] a.drop_first()[i])
                    == ascii_lower(b.drop_first()[i]) by {
                    assert(ascii_lower(a[i + 1]) == ascii_lower(b[i + 1]));
                }
            }
            lemma_trim_white_case(a.drop_first(), b.drop_first());
        } else if is_white_space(a.last()) {
            assert(same_ignoring_ascii_case(a.drop_last(), b.drop_last())) by {
                assert forall|i: int| 0 <= i < a.drop_last().len() implies ascii_lower(#[trigger] a.drop_last()[i])
                    == ascii_lower(b.drop_last()[i]) by {
                    assert(ascii_lower(a[i]) == ascii_lower(b[i]));
                }
            }
            lemma_trim_white_case(a.drop_last(), b.drop_last());
        }
    }
}

/// A boolean request value is read regardless of the ASCII case of its
/// letters: changing their case never changes the outcome.
pub proof fn lemma_parse_bool_ignores_case(pipe: ParseBoolPipe, v: String, w: String, r: Result<bool>)
    requires
        same_ignoring_ascii_case(v@, w@),
    ensures
        pipe.transforms(v, r) <==> pipe.transforms(w, r),
{
    lemma_trim_white_case(v@, w@);
    let a = trim_white(v@);
    let b = trim_white(w@);
    assert(ascii_lowercase(a) =~= ascii_lowercase(b)) by {
        assert forall|i: int| 0 <= i < a.len() implies ascii_lowercase(a)[i] == ascii_lowercase(b)[i] by {
            assert(ascii_lower(a[i]) == ascii_lower(b[i]));
        }
    }
}

/// What a boolean request value gives: `true` exactly for the words `true`
/// and `1`, `false` exactly for `false` and `0`, once surrounding white space
/// is removed and letters are taken in lower case; anything else is a
/// bad request.
pub proof fn lemma_parse_bool_words(pipe: ParseBoolPipe, v: String, r: Result<bool>)
    ensures
        ascii_lowercase(trim_white(v@)) == "true"@ || ascii_lowercase(trim_white(v@)) == "1"@ ==> (pipe.transforms(
            v,
            r,
        ) <==> r == Ok::<bool, BootError>(true)),
        ascii_lowercase(trim_white(v@)) == "false"@ || ascii_lowercase(trim_white(v@)) == "0"@ ==> (pipe.transforms(
            v,
            r,
        ) <==> r == Ok::<bool, BootError>(false)),
        ascii_lowercase(trim_white(v@)) != "true"@ && ascii_lowercase(trim_white(v@)) != "1"@
            && ascii_lowercase(trim_white(v@)) != "false"@ && ascii_lowercase(trim_white(v@)) != "0"@ ==> (
        pipe.transforms(v, r) <==> (r matches Err(e) && e.is_bad_request("validation failed: boolean string is expected"@))),
{
    reveal_strlit("true");
    reveal_strlit("1");
    reveal_strlit("false");
    reveal_strlit("0");
    assert("true"@ != "false"@) by {
        assert("true"@.len() != "false"@.len());
    }
    assert("true"@ != "0"@) by {
        assert("true"@.len() != "0"@.len());
    }
    assert("1"@ != "false"@) by {
        assert("1"@.len() != "false"@.len());
    }
    assert("1"@ != "0"@) by {
        assert("1"@[0] != "0"@[0]);
    }
}

/// Replaces a missing optional request value with a default.
#[derive(Clone, Debug)]
pub struct DefaultValuePipe<T> {
    value: T,
}

impl<T> DefaultValuePipe<T> {
    pub closed spec fn spec_value(&self) -> T {
        self.value
    }

    /// A pipe defaulting to `value`.
    pub fn new(value: T) -> (r: Self)
        ensures
            r.spec_value() == value,
    {
        DefaultValuePipe { value }
    }

    /// The default value.
    pub fn value(&self) -> (r: &T)
        ensures
            *r == self.spec_value(),
    {
        &self.value
    }

    /// The default value, giving up the pipe.
    pub fn into_value(self) -> (r: T)
        ensures
            r == self.spec_value(),
    {
        self.value
    }
}

impl<T: Clone> RequestValuePipe<Option<T>, T> for DefaultValuePipe<T> {
    /// The value when there is one, else a clone of the default.
    open spec fn transforms(&self, value: Option<T>, result: Result<T>) -> bool {
        match value {
            Some(v) => result == Ok::<T, BootError>(v),
            None => result matches Ok(x) && cloned::<T>(self.spec_value(), x),
        }
    }

    fn transform(&self, value: Option<T>) -> (r: Result<T>)
        ensures
            r is Ok,
            value matches Some(v) ==> r == Ok::<T, BootError>(v),
            value is None ==> (r matches Ok(x) && cloned::<T>(self.spec_value(), x)),
    {
        match value {
            Some(v) => Ok(v),
            None => Ok(self.value.clone()),
        }
    }
}

impl ParseIntTarget for i8 {
    open spec fn spec_int(self) -> int {
        self as int
    }

    open spec fn spec_min() -> int {
        i8::MIN as int
    }

    open spec fn spec_max() -> int {
        i8::MAX as int
    }

    open spec fn spec_signed() -> bool {
        true
    }

    open spec fn spec_target_name() -> Seq<char> {
        "i8"@
    }

    fn parse_int(value: &str) -> (r: std::result::Result<i8, String>) {
        let cs = chars_of(value);
        match parse_sign_magnitude(&cs, true, 128u128, 127u128) {
            Ok((neg, m)) => {
                if neg {
                    if m == 0 {
                        Ok(0)
                    } else {
                        Ok(-((m - 1) as i8) - 1)
                    }
                } else {
                    Ok(m as i8)
                }
            },
            Err(k) => Err(int_error_string(k)),
        }
    }

    fn target_name() -> (r: &'static str) {
        proof {
            reveal_strlit("i8");
        }
        "i8"
    }
}

impl ParseIntTarget for i16 {
    open spec fn spec_int(self) -> int {
        self as int
    }

    open spec fn spec_min() -> int {
        i16::MIN as int
    }

    open spec fn spec_max() -> int {
        i16::MAX as int
    }

    open spec fn spec_signed() -> bool {
        true
    }

    open spec fn spec_target_name() -> Seq<char> {
        "i16"@
    }

    fn parse_int(value: &str) -> (r: std::result::Result<i16, String>) {
        let cs = chars_of(value);
        match parse_sign_magnitude(&cs, true, 32768u128, 32767u128) {
            Ok((neg, m)) => {
                if neg {
                    if m == 0 {
                        Ok(0)
                    } else {
                        Ok(-((m - 1) as i16) - 1)
                    }
                } else {
                    Ok(m as i16)
                }
            },
            Err(k) => Err(int_error_string(k)),
        }
    }

    fn target_name() -> (r: &'static str) {
        proof {
            reveal_strlit("i16");
        }
        "i16"
    }
}

impl ParseIntTarget for i32 {
    open spec fn spec_int(self) -> int {
        self as int
    }

    open spec fn spec_min() -> int {
        i32::MIN as int
    }

    open spec fn spec_max() -> int {
        i32::MAX as int
    }

    open spec fn spec_signed() -> bool {
        true
    }

    open spec fn spec_target_name() -> Seq<char> {
        "i32"@
    }

    fn parse_int(value: &str) -> (r: std::result::Result<i32, String>) {
        let cs = chars_of(value);
        match parse_sign_magnitude(&cs, true, 2147483648u128, 2147483647u128) {
            Ok((neg, m)) => {
                if neg {
                    if m == 0 {
                        Ok(0)
                    } else {
                        Ok(-((m - 1) as i32) - 1)
                    }
                } else {
                    Ok(m as i32)
                }
            },
            Err(k) => Err(int_error_string(k)),
        }
    }

    fn target_name() -> (r: &'static str) {
        proof {
            reveal_strlit("i32");
        }
        "i32"
    }
}

impl ParseIntTarget for i64 {
    open spec fn spec_int(self) -> int {
        self as int
    }

    open spec fn spec_min() -> int {
        i64::MIN as int
    }

    open spec fn spec_max() -> int {
        i64::MAX as int
    }

    open spec fn spec_signed() -> bool {
        true
    }

    open spec fn spec_target_name() -> Seq<char> {
        "i64"@
    }

    fn parse_int(value: &str) -> (r: std::result::Result<i64, String>) {
        let cs = chars_of(value);
        match parse_sign_magnitude(&cs, true, 9223372036854775808u128, 9223372036854775807u128) {
            Ok((neg, m)) => {
                if neg {
                    if m == 0 {
                        Ok(0)
                    } else {
                        Ok(-((m - 1) as i64) - 1)
                    }
                } else {
                    Ok(m as i64)
                }
            },
            Err(k) => Err(int_error_string(k)),
        }
    }

    fn target_name() -> (r: &'static str) {
        proof {
            reveal_strlit("i64");
        }
        "i64"
    }
}

impl ParseIntTarget for i128 {
    open spec fn spec_int(self) -> int {
        self as int
    }

    open spec fn spec_min() -> int {
        i128::MIN as int
    }

    open spec fn spec_max() -> int {
        i128::MAX as int
    }

    open spec fn spec_signed() -> bool {
        true
    }

    open spec fn spec_target_name() -> Seq<char> {
        "i128"@
    }

    fn parse_int(value: &str) -> (r: std::result::Result<i128, String>) {
        let cs = chars_of(value);
        match parse_sign_magnitude(&cs, true, 170141183460469231731687303715884105728u128, 170141183460469231731687303715884105727u128) {
            Ok((neg, m)) => {
                if neg {
                    if m == 0 {
                        Ok(0)
                    } else {
                        Ok(-((m - 1) as i128) - 1)
                    }
                } else {
                    Ok(m as i128)
                }
            },
            Err(k) => Err(int_error_string(k)),
        }
    }

    fn target_name() -> (r: &'static str) {
        proof {
            reveal_strlit("i128");
        }
        "i128"
    }
}

impl ParseIntTarget for isize {
    open spec fn spec_int(self) -> int {
        self as int
    }

    open spec fn spec_min() -> int {
        isize::MIN as int
    }

    open spec fn spec_max() -> int {
        isize::MAX as int
    }

    open spec fn spec_signed() -> bool {
        true
    }

    open spec fn spec_target_name() -> Seq<char> {
        "isize"@
    }

    fn parse_int(value: &str) -> (r: std::result::Result<isize, String>) {
        let cs = chars_of(value);
        match parse_sign_magnitude(&cs, true, (isize::MAX as u128) + 1, isize::MAX as u128) {
            Ok((neg, m)) => {
                if neg {
                    if m == 0 {
                        Ok(0)
                    } else {
                        Ok(-((m - 1) as isize) - 1)
                    }
                } else {
                    Ok(m as isize)
                }
            },
            Err(k) => Err(int_error_string(k)),
        }
    }

    fn target_name() -> (r: &'static str) {
        proof {
            reveal_strlit("isize");
        }
        "isize"
    }
}

impl ParseIntTarget for u8 {
    open spec fn spec_int(self) -> int {
        self as int
    }

    open spec fn spec_min() -> int {
        u8::MIN as int
    }

    open spec fn spec_max() -> int {
        u8::MAX as int
    }

    open spec fn spec_signed() -> bool {
        false
    }

    open spec fn spec_target_name() -> Seq<char> {
        "u8"@
    }

    fn parse_int(value: &str) -> (r: std::result::Result<u8, String>) {
        let cs = chars_of(value);
        match parse_sign_magnitude(&cs, false, 0u128, 255u128) {
            Ok((_neg, m)) => Ok(m as u8),
            Err(k) => Err(int_error_string(k)),
        }
    }

    fn target_name() -> (r: &'static str) {
        proof {
            reveal_strlit("u8");
        }
        "u8"
    }
}

impl ParseIntTarget for u16 {
    open spec fn spec_int(self) -> int {
        self as int
    }

    open spec fn spec_min() -> int {
        u16::MIN as int
    }

    open spec fn spec_max() -> int {
        u16::MAX as int
    }

    open spec fn spec_signed() -> bool {
        false
    }

    open spec fn spec_target_name() -> Seq<char> {
        "u16"@
    }

    fn parse_int(value: &str) -> (r: std::result::Result<u16, String>) {
        let cs = chars_of(value);
        match parse_sign_magnitude(&cs, false, 0u128, 65535u128) {
            Ok((_neg, m)) => Ok(m as u16),
            Err(k) => Err(int_error_string(k)),
        }
    }

    fn target_name() -> (r: &'static str) {
        proof {
            reveal_strlit("u16");
        }
        "u16"
    }
}

impl ParseIntTarget for u32 {
    open spec fn spec_int(self) -> int {
        self as int
    }

    open spec fn spec_min() -> int {
        u32::MIN as int
    }

    open spec fn spec_max() -> int {
        u32::MAX as int
    }

    open spec fn spec_signed() -> bool {
        false
    }

    open spec fn spec_target_name() -> Seq<char> {
        "u32"@
    }

    fn parse_int(value: &str) -> (r: std::result::Result<u32, String>) {
        let cs = chars_of(value);
        match parse_sign_magnitude(&cs, false, 0u128, 4294967295u128) {
            Ok((_neg, m)) => Ok(m as u32),
            Err(k) => Err(int_error_string(k)),
        }
    }

    fn target_name() -> (r: &'static str) {
        proof {
            reveal_strlit("u32");
        }
        "u32"
    }
}

impl ParseIntTarget for u64 {
    open spec fn spec_int(self) -> int {
        self as int
    }

    open spec fn spec_min() -> int {
        u64::MIN as int
    }

    open spec fn spec_max() -> int {
        u64::MAX as int
    }

    open spec fn spec_signed() -> bool {
        false
    }

    open spec fn spec_target_name() -> Seq<char> {
        "u64"@
    }

    fn parse_int(value: &str) -> (r: std::result::Result<u64, String>) {
        let cs = chars_of(value);
        match parse_sign_magnitude(&cs, false, 0u128, 18446744073709551615u128) {
            Ok((_neg, m)) => Ok(m as u64),
            Err(k) => Err(int_error_string(k)),
        }
    }

    fn target_name() -> (r: &'static str) {
        proof {
            reveal_strlit("u64");
        }
        "u64"
    }
}

impl ParseIntTarget for u128 {
    open spec fn spec_int(self) -> int {
        self as int
    }

    open spec fn spec_min() -> int {
        u128::MIN as int
    }

    open spec fn spec_max() -> int {
        u128::MAX as int
    }

    open spec fn spec_signed() -> bool {
        false
    }

    open spec fn spec_target_name() -> Seq<char> {
        "u128"@
    }

    fn parse_int(value: &str) -> (r: std::result::Result<u128, String>) {
        let cs = chars_of(value);
        match parse_sign_magnitude(&cs, false, 0u128, u128::MAX) {
            Ok((_neg, m)) => Ok(m as u128),
            Err(k) => Err(int_error_string(k)),
        }
    }

    fn target_name() -> (r: &'static str) {
        proof {
            reveal_strlit("u128");
        }
        "u128"
    }
}

impl ParseIntTarget for usize {
    open spec fn spec_int(self) -> int {
        self as int
    }

    open spec fn spec_min() -> int {
        usize::MIN as int
    }

    open spec fn spec_max() -> int {
        usize::MAX as int
    }

    open spec fn spec_signed() -> bool {
        false
    }

    open spec fn spec_target_name() -> Seq<char> {
        "usize"@
    }

    fn parse_int(value: &str) -> (r: std::result::Result<usize, String>) {
        let cs = chars_of(value);
        match parse_sign_magnitude(&cs, false, 0u128, usize::MAX as u128) {
            Ok((_neg, m)) => Ok(m as usize),
            Err(k) => Err(int_error_string(k)),
        }
    }

    fn target_name() -> (r: &'static str) {
        proof {
            reveal_strlit("usize");
        }
        "usize"
    }
}

} // verus!
