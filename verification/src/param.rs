//! Tuning parameters of a detector, addressed by name, with their values
//! given as text. Integer values are read the way `str::parse::<i32>` reads
//! them; the fractional ones are read by the caller.
use vstd::prelude::*;
use vstd::string::StringSliceAdditionalSpecFns;

verus! {

/// Why a text is not an `i32` (the kinds of `std::num::ParseIntError`).
#[derive(Debug, Clone, Copy, PartialEq, Eq, Structural)]
pub enum IntErrorKind {
    /// The text is empty.
    Empty,
    /// A byte that is not a decimal digit, or a lone sign.
    InvalidDigit,
    /// The value is above `i32::MAX`.
    PosOverflow,
    /// The value is below `i32::MIN`.
    NegOverflow,
}

/// ASCII decimal digit.
pub open spec fn is_digit(c: u8) -> bool {
    48 <= c <= 57
}

/// Reads the digits that follow the sign, left to right, from the value
/// `acc` read so far. The first non-digit, or the first digit that takes
/// the value out of `i32`, decides the error.
pub open spec fn read_digits(digits: Seq<u8>, positive: bool, acc: int) -> Result<int, IntErrorKind>
    decreases digits.len(),
{
    if digits.len() == 0 {
        Ok(acc)
    } else if !is_digit(digits[0]) {
        Err(IntErrorKind::InvalidDigit)
    } else {
        let next = if positive {
            acc * 10 + (digits[0] - 48)
        } else {
            acc * 10 - (digits[0] - 48)
        };
        if next > i32::MAX {
            Err(IntErrorKind::PosOverflow)
        } else if next < i32::MIN {
            Err(IntErrorKind::NegOverflow)
        } else {
            read_digits(digits.drop_first(), positive, next)
        }
    }
}

/// What `str::parse::<i32>` gives for a text with the bytes `s`: an optional
/// `+` or `-` followed by decimal digits.
pub open spec fn parse_i32_spec(s: Seq<u8>) -> Result<int, IntErrorKind> {
    if s.len() == 0 {
        Err(IntErrorKind::Empty)
    } else if s.len() == 1 && (s[0] == 43 || s[0] == 45) {
        Err(IntErrorKind::InvalidDigit)
    } else if s[0] == 43 {
        read_digits(s.drop_first(), true, 0)
    } else if s[0] == 45 {
        read_digits(s.drop_first(), false, 0)
    } else {
        read_digits(s, true, 0)
    }
}

/// Reads the bytes of `s[start..]` as digits after a sign.
fn read_digits_exec(s: &[u8], start: usize, positive: bool) -> (r: Result<i32, IntErrorKind>)
    requires
        start <= s@.len(),
    ensures
        match r {
            Ok(v) => read_digits(s@.subrange(start as int, s@.len() as int), positive, 0) == Ok::<int, IntErrorKind>(v as int),
            Err(e) => read_digits(s@.subrange(start as int, s@.len() as int), positive, 0) == Err::<int, IntErrorKind>(e),
        },
{
    let mut acc: i32 = 0;
    let mut i: usize = start;
    while i < s.len()
        invariant
            start <= i <= s@.len(),
            read_digits(s@.subrange(start as int, s@.len() as int), positive, 0) == read_digits(
                s@.subrange(i as int, s@.len() as int),
                positive,
                acc as int,
            ),
        decreases s@.len() - i,
    {
        let c = s[i];
        assert(s@.subrange(i as int, s@.len() as int).drop_first() =~= s@.subrange(i + 1, s@.len() as int));
        if c < 48 || c > 57 {
            return Err(IntErrorKind::InvalidDigit);
        }
        let d: i64 = (c - 48) as i64;
        let next: i64 = if positive {
            acc as i64 * 10 + d
        } else {
            acc as i64 * 10 - d
        };
        if next > i32::MAX as i64 {
            return Err(IntErrorKind::PosOverflow);
        }
        if next < i32::MIN as i64 {
            return Err(IntErrorKind::NegOverflow);
        }
        acc = next as i32;
        i += 1;
    }
    Ok(acc)
}

/// Reads a decimal `i32` exactly as `str::parse::<i32>` does.
pub fn parse_i32(text: &str) -> (r: Result<i32, IntErrorKind>)
    ensures
        match r {
            Ok(v) => parse_i32_spec(text.spec_bytes()) == Ok::<int, IntErrorKind>(v as int),
            Err(e) => parse_i32_spec(text.spec_bytes()) == Err::<int, IntErrorKind>(e),
        },
{
    let s = text.as_bytes();
    if s.len() == 0 {
        return Err(IntErrorKind::Empty);
    }
    if s.len() == 1 && (s[0] == 43 || s[0] == 45) {
        return Err(IntErrorKind::InvalidDigit);
    }
    if s[0] == 43 {
        assert(s@.subrange(1, s@.len() as int) =~= s@.drop_first());
        read_digits_exec(s, 1, true)
    } else if s[0] == 45 {
        assert(s@.subrange(1, s@.len() as int) =~= s@.drop_first());
        read_digits_exec(s, 1, false)
    } else {
        assert(s@.subrange(0, s@.len() as int) =~= s@);
        read_digits_exec(s, 0, true)
    }
}

/// The parameters a detector can be tuned with.
#[derive(Debug, Clone, Copy, PartialEq, Eq, Structural)]
pub enum ParameterName {
    NoUpdateMemory,
    MinSize,
    MaxSize,
    ScaleFactor,
    StrideFactor,
    Angle,
    QThreshold,
}

impl ParameterName {
    /// The name callers use for the parameter.
    pub open spec fn spec_text(self) -> Seq<u8> {
        match self {
            // "noupdatememory"
            ParameterName::NoUpdateMemory => seq![
                110u8, 111u8, 117u8, 112u8, 100u8, 97u8, 116u8, 101u8, 109u8, 101u8, 109u8, 111u8, 114u8, 121u8
            ],
            // "minsize"
            ParameterName::MinSize => seq![109u8, 105u8, 110u8, 115u8, 105u8, 122u8, 101u8],
            // "maxsize"
            ParameterName::MaxSize => seq![109u8, 97u8, 120u8, 115u8, 105u8, 122u8, 101u8],
            // "scalefactor"
            ParameterName::ScaleFactor => seq![
                115u8, 99u8, 97u8, 108u8, 101u8, 102u8, 97u8, 99u8, 116u8, 111u8, 114u8
            ],
            // "stridefactor"
            ParameterName::StrideFactor => seq![
                115u8, 116u8, 114u8, 105u8, 100u8, 101u8, 102u8, 97u8, 99u8, 116u8, 111u8, 114u8
            ],
            // "angle"
            ParameterName::Angle => seq![97u8, 110u8, 103u8, 108u8, 101u8],
            // "qthreshold"
            ParameterName::QThreshold => seq![
                113u8, 116u8, 104u8, 114u8, 101u8, 115u8, 104u8, 111u8, 108u8, 100u8
            ],
        }
    }

    /// Whether the parameter takes an integer value (the others take a
    /// fractional one).
    pub open spec fn spec_takes_integer(self) -> bool {
        match self {
            ParameterName::NoUpdateMemory | ParameterName::MinSize | ParameterName::MaxSize => true,
            _ => false,
        }
    }

    /// The name callers use for the parameter.
    pub fn text(&self) -> (t: Vec<u8>)
        ensures
            t@ == self.spec_text(),
    {
        let t = match self {
            // "noupdatememory"
            ParameterName::NoUpdateMemory => vec![
                110u8, 111u8, 117u8, 112u8, 100u8, 97u8, 116u8, 101u8, 109u8, 101u8, 109u8, 111u8, 114u8, 121u8
            ],
            // "minsize"
            ParameterName::MinSize => vec![109u8, 105u8, 110u8, 115u8, 105u8, 122u8, 101u8],
            // "maxsize"
            ParameterName::MaxSize => vec![109u8, 97u8, 120u8, 115u8, 105u8, 122u8, 101u8],
            // "scalefactor"
            ParameterName::ScaleFactor => vec![
                115u8, 99u8, 97u8, 108u8, 101u8, 102u8, 97u8, 99u8, 116u8, 111u8, 114u8
            ],
            // "stridefactor"
            ParameterName::StrideFactor => vec![
                115u8, 116u8, 114u8, 105u8, 100u8, 101u8, 102u8, 97u8, 99u8, 116u8, 111u8, 114u8
            ],
            // "angle"
            ParameterName::Angle => vec![97u8, 110u8, 103u8, 108u8, 101u8],
            // "qthreshold"
            ParameterName::QThreshold => vec![
                113u8, 116u8, 104u8, 114u8, 101u8, 115u8, 104u8, 111u8, 108u8, 100u8
            ],
        };
        assert(t@ =~= self.spec_text());
        t
    }

    /// Whether the parameter takes an integer value.
    pub fn takes_integer(&self) -> (b: bool)
        ensures
            b == self.spec_takes_integer(),
    {
        match self {
            ParameterName::NoUpdateMemory | ParameterName::MinSize | ParameterName::MaxSize => true,
            _ => false,
        }
    }
}

/// The parameter a name designates, if any.
pub open spec fn spec_parameter_named(name: Seq<u8>) -> Option<ParameterName> {
    if name == ParameterName::NoUpdateMemory.spec_text() {
        Some(ParameterName::NoUpdateMemory)
    } else if name == ParameterName::MinSize.spec_text() {
        Some(ParameterName::MinSize)
    } else if name == ParameterName::MaxSize.spec_text() {
        Some(ParameterName::MaxSize)
    } else if name == ParameterName::ScaleFactor.spec_text() {
        Some(ParameterName::ScaleFactor)
    } else if name == ParameterName::StrideFactor.spec_text() {
        Some(ParameterName::StrideFactor)
    } else if name == ParameterName::Angle.spec_text() {
        Some(ParameterName::Angle)
    } else if name == ParameterName::QThreshold.spec_text() {
        Some(ParameterName::QThreshold)
    } else {
        None
    }
}

/// Byte-wise equality of two byte strings.
fn bytes_equal(a: &[u8], b: &[u8]) -> (eq: bool)
    ensures
        eq == (a@ == b@),
{
    if a.len() != b.len() {
        return false;
    }
    let mut i: usize = 0;
    while i < a.len()
        invariant
            a@.len() == b@.len(),
            0 <= i <= a@.len(),
            forall|k: int| 0 <= k < i ==> a@[k] == b@[k],
        decreases a@.len() - i,
    {
        if a[i] != b[i] {
            return false;
        }
        i += 1;
    }
    assert(a@ =~= b@);
    true
}

/// The parameter called `name`, if there is one.
pub fn parameter_named(name: &str) -> (p: Option<ParameterName>)
    ensures
        p == spec_parameter_named(name.spec_bytes()),
{
    let n = name.as_bytes();
    let all = [
        ParameterName::NoUpdateMemory,
        ParameterName::MinSize,
        ParameterName::MaxSize,
        ParameterName::ScaleFactor,
        ParameterName::StrideFactor,
        ParameterName::Angle,
        ParameterName::QThreshold,
    ];
    let mut i: usize = 0;
    while i < 7
        invariant
            0 <= i <= 7,
            n@ == name.spec_bytes(),
            all@ == seq![
                ParameterName::NoUpdateMemory,
                ParameterName::MinSize,
                ParameterName::MaxSize,
                ParameterName::ScaleFactor,
                ParameterName::StrideFactor,
                ParameterName::Angle,
                ParameterName::QThreshold,
            ],
            forall|k: int| 0 <= k < i ==> n@ != #[trigger] all@[k].spec_text(),
        decreases 7 - i,
    {
        let t = all[i].text();
        if bytes_equal(n, t.as_slice()) {
            return Some(all[i]);
        }
        i += 1;
    }
    None
}

/// A parameter change, read from a name and a value text.
#[derive(Debug, Clone, Copy, PartialEq, Eq, Structural)]
pub enum ParameterSetting {
    /// An integer parameter with its value.
    Integer(ParameterName, i32),
    /// A fractional parameter; its value text is read by the caller.
    Fractional(ParameterName),
}

/// Why a parameter change was refused.
#[derive(Debug, Clone, Copy, PartialEq, Eq, Structural)]
pub enum ParameterError {
    /// No detector is registered under the handle.
    DetectorMissing,
    /// No parameter has that name.
    UnknownParameter,
    /// The value of an integer parameter is not an `i32`.
    InvalidInteger(IntErrorKind),
}

/// Reads a parameter change: the name must be known, and an integer
/// parameter's value must parse as an `i32`.
pub open spec fn spec_read_setting(name: Seq<u8>, value: Seq<u8>) -> Result<ParameterSetting, ParameterError> {
    match spec_parameter_named(name) {
        None => Err(ParameterError::UnknownParameter),
        Some(p) => if p.spec_takes_integer() {
            match parse_i32_spec(value) {
                Ok(v) => Ok(ParameterSetting::Integer(p, v as i32)),
                Err(e) => Err(ParameterError::InvalidInteger(e)),
            }
        } else {
            Ok(ParameterSetting::Fractional(p))
        },
    }
}

/// Reads a parameter change from its name and value text.
pub fn read_setting(name: &str, value: &str) -> (r: Result<ParameterSetting, ParameterError>)
    ensures
        r == spec_read_setting(name.spec_bytes(), value.spec_bytes()),
{
    match parameter_named(name) {
        None => Err(ParameterError::UnknownParameter),
        Some(p) => if p.takes_integer() {
            match parse_i32(value) {
                Ok(v) => Ok(ParameterSetting::Integer(p, v)),
                Err(e) => Err(ParameterError::InvalidInteger(e)),
            }
        } else {
            Ok(ParameterSetting::Fractional(p))
        },
    }
}

/// The decimal digits of a natural number, most significant first, without
/// leading zeros (`"0"` for zero).
pub open spec fn decimal_digits(n: nat) -> Seq<u8>
    decreases n,
{
    if n < 10 {
        seq![(48 + n) as u8]
    } else {
        decimal_digits(n / 10).push((48 + n % 10) as u8)
    }
}

/// The decimal text of an integer: a `-` before the digits of a negative one.
pub open spec fn decimal_text(n: int) -> Seq<u8> {
    if n < 0 {
        seq![45u8] + decimal_digits((-n) as nat)
    } else {
        decimal_digits(n as nat)
    }
}

/// Reading one more digit continues from what the earlier digits read.
proof fn lemma_read_digits_push(s: Seq<u8>, c: u8, positive: bool, acc: int)
    ensures
        read_digits(s.push(c), positive, acc) == match read_digits(s, positive, acc) {
            Ok(v) => read_digits(seq![c], positive, v),
            Err(e) => Err(e),
        },
    decreases s.len(),
{
    if s.len() == 0 {
        assert(s.push(c) =~= seq![c]);
    } else {
        assert(s.push(c).drop_first() =~= s.drop_first().push(c));
        assert(s.push(c)[0] == s[0]);
        if is_digit(s[0]) {
            let next = if positive {
                acc * 10 + (s[0] - 48)
            } else {
                acc * 10 - (s[0] - 48)
            };
            lemma_read_digits_push(s.drop_first(), c, positive, next);
        }
    }
}

proof fn lemma_decimal_digits_read(n: nat, positive: bool)
    requires
        positive ==> n <= i32::MAX,
        !positive ==> n <= 0x8000_0000,
    ensures
        read_digits(decimal_digits(n), positive, 0) == Ok::<int, IntErrorKind>(
            if positive { n as int } else { -n },
        ),
        decimal_digits(n).len() > 0,
        is_digit(decimal_digits(n)[0]),
    decreases n,
{
    if n < 10 {
        let c = (48 + n) as u8;
        assert(c as int == 48 + n);
        let s1 = seq![c];
        assert(s1[0] == c);
        assert(s1.drop_first() =~= Seq::<u8>::empty());
        assert(read_digits(s1.drop_first(), positive, if positive { n as int } else { -n }) == Ok::<
            int,
            IntErrorKind,
        >(if positive { n as int } else { -n }));
        assert(decimal_digits(n) =~= s1);
    } else {
        let q = n / 10;
        let d = (48 + n % 10) as u8;
        assert(d as int == 48 + n % 10);
        assert(n == q * 10 + n % 10);
        lemma_decimal_digits_read(q, positive);
        lemma_read_digits_push(decimal_digits(q), d, positive, 0);
        let v: int = if positive { q as int } else { -q };
        let s1 = seq![d];
        assert(s1[0] == d);
        assert(s1.drop_first() =~= Seq::<u8>::empty());
        let next: int = if positive { v * 10 + (d - 48) } else { v * 10 - (d - 48) };
        assert(next == if positive { n as int } else { -n });
        assert(read_digits(s1.drop_first(), positive, next) == Ok::<int, IntErrorKind>(next));
        assert(read_digits(seq![d], positive, v) == Ok::<int, IntErrorKind>(
            if positive { n as int } else { -n },
        ));
        assert(decimal_digits(n)[0] == decimal_digits(q)[0]);
    }
}

/// Every `i32` is read back from its decimal text.
pub proof fn lemma_parse_decimal_text(n: i32)
    ensures
        parse_i32_spec(decimal_text(n as int)) == Ok::<int, IntErrorKind>(n as int),
{
    if n < 0 {
        let m = (-(n as int)) as nat;
        lemma_decimal_digits_read(m, false);
        let t = decimal_text(n as int);
        assert(t.drop_first() =~= decimal_digits(m));
        assert(t[0] == 45u8);
    } else {
        lemma_decimal_digits_read(n as nat, true);
    }
}

proof fn lemma_read_digits_ok_only_digits(digits: Seq<u8>, positive: bool, acc: int)
    requires
        read_digits(digits, positive, acc) is Ok,
    ensures
        forall|i: int| 0 <= i < digits.len() ==> #[trigger] is_digit(digits[i]),
    decreases digits.len(),
{
    if digits.len() > 0 {
        let next = if positive {
            acc * 10 + (digits[0] - 48)
        } else {
            acc * 10 - (digits[0] - 48)
        };
        lemma_read_digits_ok_only_digits(digits.drop_first(), positive, next);
        assert forall|i: int| 0 <= i < digits.len() implies #[trigger] is_digit(digits[i]) by {
            if i > 0 {
                assert(digits[i] == digits.drop_first()[i - 1]);
            }
        }
    }
}

/// Only decimal text is read as an integer: a nonempty text whose bytes,
/// after an optional leading `+` or `-`, are all digits `0`-`9`; the empty
/// text is refused as empty.
pub proof fn lemma_parse_accepts_only_decimal(s: Seq<u8>)
    ensures
        s.len() == 0 ==> parse_i32_spec(s) == Err::<int, IntErrorKind>(IntErrorKind::Empty),
        parse_i32_spec(s) is Ok ==> {
            let start: int = if s[0] == 43 || s[0] == 45 { 1 } else { 0 };
            &&& start < s.len()
            &&& forall|i: int| start <= i < s.len() ==> #[trigger] is_digit(s[i])
        },
{
    if s.len() > 0 && parse_i32_spec(s) is Ok {
        if s[0] == 43 {
            lemma_read_digits_ok_only_digits(s.drop_first(), true, 0);
            assert forall|i: int| 1 <= i < s.len() implies #[trigger] is_digit(s[i]) by {
                assert(s[i] == s.drop_first()[i - 1]);
            }
        } else if s[0] == 45 {
            lemma_read_digits_ok_only_digits(s.drop_first(), false, 0);
            assert forall|i: int| 1 <= i < s.len() implies #[trigger] is_digit(s[i]) by {
                assert(s[i] == s.drop_first()[i - 1]);
            }
        } else {
            lemma_read_digits_ok_only_digits(s, true, 0);
        }
    }
}

/// The integer parameters are `noupdatememory`, `minsize` and `maxsize`: each
/// reads the decimal text of any `i32` as that value.
pub proof fn lemma_integer_parameters(n: i32)
    ensures
        spec_read_setting(
            seq![110u8, 111u8, 117u8, 112u8, 100u8, 97u8, 116u8, 101u8, 109u8, 101u8, 109u8, 111u8, 114u8, 121u8],
            decimal_text(n as int),
        ) == Ok::<ParameterSetting, ParameterError>(ParameterSetting::Integer(ParameterName::NoUpdateMemory, n)),
        spec_read_setting(
            seq![109u8, 105u8, 110u8, 115u8, 105u8, 122u8, 101u8],
            decimal_text(n as int),
        ) == Ok::<ParameterSetting, ParameterError>(ParameterSetting::Integer(ParameterName::MinSize, n)),
        spec_read_setting(
            seq![109u8, 97u8, 120u8, 115u8, 105u8, 122u8, 101u8],
            decimal_text(n as int),
        ) == Ok::<ParameterSetting, ParameterError>(ParameterSetting::Integer(ParameterName::MaxSize, n)),
{
    lemma_parse_decimal_text(n);
    assert(ParameterName::NoUpdateMemory.spec_text() =~= seq![
        110u8, 111u8, 117u8, 112u8, 100u8, 97u8, 116u8, 101u8, 109u8, 101u8, 109u8, 111u8, 114u8, 121u8
    ]);
    assert(ParameterName::MinSize.spec_text() =~= seq![109u8, 105u8, 110u8, 115u8, 105u8, 122u8, 101u8]);
    assert(ParameterName::MaxSize.spec_text() =~= seq![109u8, 97u8, 120u8, 115u8, 105u8, 122u8, 101u8]);
}

/// The fractional parameters are `scalefactor`, `stridefactor`, `angle` and
/// `qthreshold`: their value text is left to the caller, whatever it is.
pub proof fn lemma_fractional_parameters(value: Seq<u8>)
    ensures
        spec_read_setting(
            seq![115u8, 99u8, 97u8, 108u8, 101u8, 102u8, 97u8, 99u8, 116u8, 111u8, 114u8],
            value,
        ) == Ok::<ParameterSetting, ParameterError>(ParameterSetting::Fractional(ParameterName::ScaleFactor)),
        spec_read_setting(
            seq![115u8, 116u8, 114u8, 105u8, 100u8, 101u8, 102u8, 97u8, 99u8, 116u8, 111u8, 114u8],
            value,
        ) == Ok::<ParameterSetting, ParameterError>(ParameterSetting::Fractional(ParameterName::StrideFactor)),
        spec_read_setting(seq![97u8, 110u8, 103u8, 108u8, 101u8], value) == Ok::<ParameterSetting, ParameterError>(
            ParameterSetting::Fractional(ParameterName::Angle),
        ),
        spec_read_setting(
            seq![113u8, 116u8, 104u8, 114u8, 101u8, 115u8, 104u8, 111u8, 108u8, 100u8],
            value,
        ) == Ok::<ParameterSetting, ParameterError>(ParameterSetting::Fractional(ParameterName::QThreshold)),
{
    assert(ParameterName::NoUpdateMemory.spec_text() =~= seq![
        110u8, 111u8, 117u8, 112u8, 100u8, 97u8, 116u8, 101u8, 109u8, 101u8, 109u8, 111u8, 114u8, 121u8
    ]);
    assert(ParameterName::MinSize.spec_text() =~= seq![109u8, 105u8, 110u8, 115u8, 105u8, 122u8, 101u8]);
    assert(ParameterName::MaxSize.spec_text() =~= seq![109u8, 97u8, 120u8, 115u8, 105u8, 122u8, 101u8]);
    assert(ParameterName::ScaleFactor.spec_text() =~= seq![
        115u8, 99u8, 97u8, 108u8, 101u8, 102u8, 97u8, 99u8, 116u8, 111u8, 114u8
    ]);
    assert(ParameterName::StrideFactor.spec_text() =~= seq![
        115u8, 116u8, 114u8, 105u8, 100u8, 101u8, 102u8, 97u8, 99u8, 116u8, 111u8, 114u8
    ]);
    assert(ParameterName::Angle.spec_text() =~= seq![97u8, 110u8, 103u8, 108u8, 101u8]);
    assert(ParameterName::QThreshold.spec_text() =~= seq![
        113u8, 116u8, 104u8, 114u8, 101u8, 115u8, 104u8, 111u8, 108u8, 100u8
    ]);
    assert(seq![115u8, 99u8, 97u8, 108u8, 101u8, 102u8, 97u8, 99u8, 116u8, 111u8, 114u8]
        != ParameterName::MinSize.spec_text());
}

} // verus!
