//! Temperature values tagged with their unit, and exact conversion
//! between Celsius and Fahrenheit.
//!
//! A temperature is an exact rational number `num / den` (always with
//! `den > 0`) together with a unit tag.  The Celsius/Fahrenheit affine
//! transform is computed exactly on the rational, so a conversion
//! followed by the inverse conversion recovers the original value as a
//! rational number.

use crate::errors::ClimateError;
use crate::strutil::str_eq;
use vstd::arithmetic::div_mod::{
    lemma_div_nonincreasing, lemma_fundamental_div_mod, lemma_fundamental_div_mod_converse,
};
use vstd::prelude::*;

verus! {

/// The two supported temperature units.  The wire token for Fahrenheit
/// uses the vendor's non-standard spelling `"Farenheit"`, which is kept
/// verbatim here: it is the token that appears in topics and payloads.
#[derive(Debug, Clone, Copy, PartialEq, Eq, Structural)]
pub enum TemperatureUnits {
    Celsius,
    Farenheit,
}

/// Bound on the magnitude of a numerator or denominator under which one
/// Celsius/Fahrenheit conversion cannot overflow an `i128`.
pub const CONVERSION_MAGNITUDE_LIMIT: i128 = 664613997892457936451903530140172288;

impl TemperatureUnits {
    /// The wire token of this unit, as it appears in topics and payloads.
    pub open spec fn spec_token(self) -> Seq<char> {
        if self == TemperatureUnits::Celsius {
            "Celsius"@
        } else {
            "Farenheit"@
        }
    }

    /// The human-readable unit label of an entity description.
    pub open spec fn spec_unit_label(self) -> Seq<char> {
        if self == TemperatureUnits::Celsius {
            "°C"@
        } else {
            "°F"@
        }
    }

    /// Parses a wire token.  Exactly the two tokens `"Celsius"` and
    /// `"Farenheit"` are accepted (case-sensitive); anything else fails
    /// with a `ParseError` carrying the token verbatim.
    pub fn from_token(token: &str) -> (r: Result<Self, ClimateError>)
        ensures
            token@ == "Celsius"@ ==> r == Ok::<Self, ClimateError>(TemperatureUnits::Celsius),
            token@ == "Farenheit"@ ==> r == Ok::<Self, ClimateError>(TemperatureUnits::Farenheit),
            token@ != "Celsius"@ && token@ != "Farenheit"@ ==> (r matches Err(e) && e matches
                ClimateError::Parse { text } && text@ == token@),
    {
        proof {
            reveal_strlit("Celsius");
            reveal_strlit("Farenheit");
            assert(("Celsius"@).len() == 7);
            assert(("Farenheit"@).len() == 9);
            assert("Celsius"@ != "Farenheit"@);
        }
        if str_eq(token, "Celsius") {
            Ok(TemperatureUnits::Celsius)
        } else if str_eq(token, "Farenheit") {
            Ok(TemperatureUnits::Farenheit)
        } else {
            Err(parse_error(token))
        }
    }

    /// The wire token of this unit.
    pub fn token(self) -> (r: &'static str)
        ensures
            r@ == self.spec_token(),
    {
        match self {
            TemperatureUnits::Celsius => "Celsius",
            TemperatureUnits::Farenheit => "Farenheit",
        }
    }

    /// The human-readable unit label of an entity description.
    pub fn unit_of_measurement(self) -> (r: &'static str)
        ensures
            r@ == self.spec_unit_label(),
    {
        match self {
            TemperatureUnits::Celsius => "°C",
            TemperatureUnits::Farenheit => "°F",
        }
    }
}

/// The mathematical model of a temperature value: an exact rational
/// `num / den` tagged with its unit.
pub struct RatTemp {
    pub num: int,
    pub den: int,
    pub units: TemperatureUnits,
}

impl RatTemp {
    /// A well-formed rational temperature has a positive denominator.
    pub open spec fn wf(self) -> bool {
        self.den > 0
    }
}

/// Two rational temperatures denote the same number (cross-multiplication).
pub open spec fn rat_eq(a: RatTemp, b: RatTemp) -> bool {
    a.num * b.den == b.num * a.den
}

/// Exact Celsius -> Fahrenheit: `f = c * 9/5 + 32`.
pub open spec fn to_farenheit(r: RatTemp) -> RatTemp {
    RatTemp { num: 9 * r.num + 160 * r.den, den: 5 * r.den, units: TemperatureUnits::Farenheit }
}

/// Exact Fahrenheit -> Celsius: `c = (f - 32) * 5/9`.
pub open spec fn to_celsius(r: RatTemp) -> RatTemp {
    RatTemp { num: 5 * r.num - 160 * r.den, den: 9 * r.den, units: TemperatureUnits::Celsius }
}

/// What converting to `target` yields: the identity if the value is
/// already in `target`, else the exact affine transform.
pub open spec fn spec_as_unit(r: RatTemp, target: TemperatureUnits) -> RatTemp {
    if r.units == target {
        r
    } else if target == TemperatureUnits::Farenheit {
        to_farenheit(r)
    } else {
        to_celsius(r)
    }
}

/// Magnitudes under which `spec_as_unit` stays within `i128`.
pub open spec fn conversion_bounded(r: RatTemp) -> bool {
    &&& -CONVERSION_MAGNITUDE_LIMIT <= r.num <= CONVERSION_MAGNITUDE_LIMIT
    &&& 0 < r.den <= CONVERSION_MAGNITUDE_LIMIT
}

/// An immutable temperature value: an exact rational tagged with a unit.
#[derive(Debug, Clone, Copy, PartialEq, Eq, Structural)]
pub struct TemperatureValue {
    pub num: i128,
    pub den: i128,
    pub units: TemperatureUnits,
}

impl View for TemperatureValue {
    type V = RatTemp;

    open spec fn view(&self) -> RatTemp {
        RatTemp { num: self.num as int, den: self.den as int, units: self.units }
    }
}

impl TemperatureValue {
    /// A whole-number temperature in the given unit.
    pub fn new(value: i64, units: TemperatureUnits) -> (r: Self)
        ensures
            r@ == (RatTemp { num: value as int, den: 1, units }),
            r@.wf(),
            conversion_bounded(r@),
    {
        TemperatureValue { num: value as i128, den: 1, units }
    }

    /// Pure conversion to `units`; the receiver is never mutated.
    pub fn as_unit(&self, units: TemperatureUnits) -> (r: Self)
        requires
            conversion_bounded(self@),
        ensures
            r@ == spec_as_unit(self@, units),
            r@.wf(),
    {
        if self.units == units {
            *self
        } else if units == TemperatureUnits::Farenheit {
            TemperatureValue { num: 9 * self.num + 160 * self.den, den: 5 * self.den, units }
        } else {
            TemperatureValue { num: 5 * self.num - 160 * self.den, den: 9 * self.den, units }
        }
    }
}

/// A decimal digit, as a character.
pub open spec fn is_digit(c: char) -> bool {
    48 <= c as int <= 57
}

/// Numeric value of a digit character.
pub open spec fn digit_val(c: char) -> int {
    c as int - 48
}

pub open spec fn all_digits(s: Seq<char>) -> bool {
    forall|i: int| 0 <= i < s.len() ==> is_digit(s[i])
}

/// The number denoted by a sequence of digit characters, most significant
/// first (empty sequence: 0).
pub open spec fn digits_val(s: Seq<char>) -> int
    decreases s.len(),
{
    if s.len() == 0 {
        0
    } else {
        digits_val(s.drop_last()) * 10 + digit_val(s.last())
    }
}

pub open spec fn pow10(k: nat) -> int
    decreases k,
{
    if k == 0 {
        1
    } else {
        10 * pow10((k - 1) as nat)
    }
}

/// Does the text start with an explicit sign?
pub open spec fn has_sign(s: Seq<char>) -> bool {
    s.len() > 0 && (s[0] == '-' || s[0] == '+')
}

/// The sign of the denoted number: -1 under a leading '-', else 1.
pub open spec fn sign_of(s: Seq<char>) -> int {
    if s.len() > 0 && s[0] == '-' {
        -1
    } else {
        1
    }
}

/// The text with a leading sign, if any, removed.
pub open spec fn unsigned_part(s: Seq<char>) -> Seq<char> {
    if has_sign(s) {
        s.drop_first()
    } else {
        s
    }
}

/// Index of the first '.' in `s`, or -1 if there is none.
pub open spec fn find_dot(s: Seq<char>) -> int
    decreases s.len(),
{
    if s.len() == 0 {
        -1
    } else if s[0] == '.' {
        0
    } else if find_dot(s.drop_first()) == -1 {
        -1
    } else {
        find_dot(s.drop_first()) + 1
    }
}

/// The digits before the '.' of an unsigned decimal body.
pub open spec fn int_part(b: Seq<char>) -> Seq<char> {
    if find_dot(b) == -1 {
        b
    } else {
        b.take(find_dot(b))
    }
}

/// The digits after the '.' of an unsigned decimal body.
pub open spec fn frac_part(b: Seq<char>) -> Seq<char> {
    if find_dot(b) == -1 {
        Seq::empty()
    } else {
        b.skip(find_dot(b) + 1)
    }
}

/// The grammar of a command payload: an optional sign, one or more
/// digits, then optionally a '.' followed by one or more digits.
pub open spec fn valid_decimal(s: Seq<char>) -> bool {
    let b = unsigned_part(s);
    &&& int_part(b).len() > 0
    &&& all_digits(int_part(b))
    &&& (find_dot(b) != -1 ==> frac_part(b).len() > 0)
    &&& all_digits(frac_part(b))
}

/// All digits of the decimal, integer part then fractional part.
pub open spec fn decimal_digits(s: Seq<char>) -> Seq<char> {
    int_part(unsigned_part(s)) + frac_part(unsigned_part(s))
}

/// Numerator of the denoted rational: the digit string read as an
/// integer, with the sign applied.
pub open spec fn decimal_num(s: Seq<char>) -> int {
    sign_of(s) * digits_val(decimal_digits(s))
}

/// Denominator of the denoted rational: ten to the number of fractional
/// digits.
pub open spec fn decimal_den(s: Seq<char>) -> int {
    pow10(frac_part(unsigned_part(s)).len())
}

/// The most decimal digits a payload may carry: enough for any real
/// device, and small enough that the exact rational fits an `i128`.
pub const MAX_DECIMAL_DIGITS: usize = 30;

/// A decimal whose exact rational representation fits the value type.
pub open spec fn decimal_fits(s: Seq<char>) -> bool {
    decimal_digits(s).len() <= MAX_DECIMAL_DIGITS
}

proof fn lemma_find_dot_none(b: Seq<char>)
    requires
        forall|j: int| 0 <= j < b.len() ==> b[j] != '.',
    ensures
        find_dot(b) == -1,
    decreases b.len(),
{
    if b.len() > 0 {
        let t = b.drop_first();
        assert forall|j: int| 0 <= j < t.len() implies t[j] != '.' by {
            assert(t[j] == b[j + 1]);
        }
        lemma_find_dot_none(t);
    }
}

proof fn lemma_find_dot_at(b: Seq<char>, k: int)
    requires
        0 <= k < b.len(),
        b[k] == '.',
        forall|j: int| 0 <= j < k ==> b[j] != '.',
    ensures
        find_dot(b) == k,
    decreases b.len(),
{
    if k > 0 {
        let t = b.drop_first();
        assert(t[k - 1] == b[k]);
        assert forall|j: int| 0 <= j < k - 1 implies t[j] != '.' by {
            assert(t[j] == b[j + 1]);
        }
        lemma_find_dot_at(t, k - 1);
    }
}

proof fn lemma_pow10_pos(k: nat)
    ensures
        pow10(k) >= 1,
    decreases k,
{
    if k > 0 {
        lemma_pow10_pos((k - 1) as nat);
    }
}

proof fn lemma_pow10_mono(a: nat, b: nat)
    requires
        a <= b,
    ensures
        pow10(a) <= pow10(b),
    decreases b,
{
    if a < b {
        lemma_pow10_mono(a, (b - 1) as nat);
        lemma_pow10_pos((b - 1) as nat);
    }
}

proof fn lemma_pow10_31()
    ensures
        pow10(31) == 10000000000000000000000000000000,
{
    reveal_with_fuel(pow10, 32);
}

/// Builds the `ParseError` for an input, carrying the text verbatim.
fn parse_error(text: &str) -> (e: ClimateError)
    ensures
        e matches ClimateError::Parse { text: t } && t@ == text@,
{
    ClimateError::Parse { text: text.to_owned() }
}

impl TemperatureValue {
    /// Parses a decimal payload (optional sign, digits, optional
    /// fractional part) into an exact rational temperature in the given
    /// scale.  Fails with a `ParseError` carrying the text verbatim when
    /// the text is not a decimal of that shape, or when it has more than
    /// `MAX_DECIMAL_DIGITS` digits and so does not fit the value type.
    #[verifier::rlimit(60)]
    pub fn parse_with_scale(text: &str, units: TemperatureUnits) -> (r: Result<
        TemperatureValue,
        ClimateError,
    >)
        ensures
            (valid_decimal(text@) && decimal_fits(text@)) <==> r is Ok,
            r matches Ok(v) ==> {
                &&& v@ == (RatTemp { num: decimal_num(text@), den: decimal_den(text@), units })
                &&& v@.wf()
                &&& conversion_bounded(v@)
            },
            r matches Err(e) ==> (e matches ClimateError::Parse { text: t } && t@ == text@),
    {
        let ghost s = text@;
        let n = text.unicode_len();

        // Sign.
        let mut neg = false;
        let mut start: usize = 0;
        if n > 0 {
            let c0 = text.get_char(0);
            if c0 == '-' {
                neg = true;
                start = 1;
            } else if c0 == '+' {
                start = 1;
            }
        }
        let ghost b = unsigned_part(s);
        proof {
            assert(b =~= s.subrange(start as int, n as int));
            assert(neg == (sign_of(s) == -1));
        }

        // Structure scan: integer digits.
        let mut i: usize = start;
        while i < n && digit_at(text, i)
            invariant
                s == text@,
                start <= i <= n,
                n == s.len(),
                forall|j: int| start <= j < i ==> is_digit(s[j]),
            decreases n - i,
        {
            i += 1;
        }
        let de = i;
        if de == start {
            // Empty integer part: not a decimal.
            proof {
                if valid_decimal(s) {
                    lemma_find_dot_props(b);
                    if n == start {
                        assert(b.len() == 0);
                        assert(int_part(b) == b);
                    } else {
                        let k = find_dot(b);
                        if k == -1 {
                            assert(int_part(b) == b);
                            assert(is_digit(int_part(b)[0]));
                        } else {
                            assert(int_part(b) == b.take(k));
                            assert(is_digit(int_part(b)[0]));
                        }
                        assert(int_part(b)[0] == b[0]);
                        assert(b[0] == s[start as int]);
                    }
                    assert(false);
                }
            }
            return Err(parse_error(text));
        }
        let ghost int_digits = s.subrange(start as int, de as int);
        proof {
            assert forall|j: int| 0 <= j < int_digits.len() implies is_digit(
                #[trigger] int_digits[j],
            ) by {
                assert(int_digits[j] == s[start + j]);
            }
        }

        let mut frac_len: usize = 0;
        if de < n {
            // The stopping character must open a fractional part.
            let cd = text.get_char(de);
            if cd != '.' {
                proof {
                    lemma_not_decimal_bad_char(s, start as int, de as int);
                }
                return Err(parse_error(text));
            }
            let fs = de + 1;
            let mut j: usize = fs;
            while j < n && digit_at(text, j)
                invariant
                    s == text@,
                    fs <= j <= n,
                    n == s.len(),
                    forall|k: int| fs <= k < j ==> is_digit(s[k]),
                decreases n - j,
            {
                j += 1;
            }
            proof {
                lemma_dot_position(s, start as int, de as int);
            }
            if j < n {
                // A non-digit inside the fractional part: not a decimal.
                proof {
                    if valid_decimal(s) {
                        assert(frac_part(b) =~= s.subrange(de + 1, n as int));
                        assert(is_digit(frac_part(b)[j - de - 1]));
                        assert(frac_part(b)[j - de - 1] == s[j as int]);
                        assert(false);
                    }
                }
                return Err(parse_error(text));
            }
            if j == fs {
                // Empty fractional part after the '.': not a decimal.
                proof {
                    if valid_decimal(s) {
                        assert(frac_part(b) =~= s.subrange(de + 1, n as int));
                        assert(frac_part(b).len() == 0);
                        assert(false);
                    }
                }
                return Err(parse_error(text));
            }
            frac_len = j - fs;
        } else {
            proof {
                lemma_no_dot(s, start as int);
            }
        }
        let ghost frac_digits = if de < n {
            s.subrange(de as int + 1, n as int)
        } else {
            Seq::<char>::empty()
        };
        proof {
            assert(int_part(b) =~= int_digits);
            if de < n {
                assert forall|k: int| 0 <= k < frac_digits.len() implies is_digit(
                    #[trigger] frac_digits[k],
                ) by {
                    assert(frac_digits[k] == s[de + 1 + k]);
                }
            }
            assert(frac_part(b) =~= frac_digits);
            assert(decimal_digits(s) == int_digits + frac_digits);
            assert(valid_decimal(s));
        }

        let int_len = de - start;
        if int_len > MAX_DECIMAL_DIGITS || frac_len > MAX_DECIMAL_DIGITS - int_len {
            // Too many digits for an exact `i128` rational.
            proof {
                assert(decimal_digits(s).len() == int_len + frac_len);
            }
            return Err(parse_error(text));
        }
        proof {
            assert(decimal_fits(s));
        }

        // Accumulate the digits, integer part first.
        let mut num: i128 = 0;
        let mut i2: usize = start;
        proof {
            lemma_pow10_31();
            lemma_pow10_pos((de - start) as nat);
        }
        while i2 < de
            invariant
                s == text@,
                start <= i2 <= de <= n,
                n == s.len(),
                de - start + frac_len <= MAX_DECIMAL_DIGITS,
                forall|j: int| start <= j < de ==> is_digit(s[j]),
                num as int == digits_val(s.subrange(start as int, i2 as int)),
                0 <= num,
                (num as int) < pow10((i2 - start) as nat),
                pow10(31) == 10000000000000000000000000000000,
            decreases de - i2,
        {
            let c = text.get_char(i2);
            let d = (c as u32) - 48;
            proof {
                assert(s.subrange(start as int, i2 as int + 1) =~= s.subrange(
                    start as int,
                    i2 as int,
                ).push(s[i2 as int]));
                lemma_digits_val_snoc(s.subrange(start as int, i2 as int), s[i2 as int]);
                lemma_pow10_mono((i2 - start + 1) as nat, 31);
            }
            num = num * 10 + (d as i128);
            i2 += 1;
        }

        // Fractional digits, continuing the same accumulator, and the
        // denominator alongside.
        let mut den: i128 = 1;
        if de < n {
            let mut j2: usize = de + 1;
            while j2 < n
                invariant
                    s == text@,
                    start <= de < n,
                    de + 1 <= j2 <= n,
                    n == s.len(),
                    n - (de + 1) == frac_len,
                    de - start + frac_len <= MAX_DECIMAL_DIGITS,
                    forall|j: int| start <= j < de ==> is_digit(s[j]),
                    forall|k: int| de + 1 <= k < n ==> is_digit(s[k]),
                    num as int == digits_val(
                        s.subrange(start as int, de as int) + s.subrange(de as int + 1, j2 as int),
                    ),
                    0 <= num,
                    (num as int) < pow10((de - start + j2 - de - 1) as nat),
                    den as int == pow10((j2 - de - 1) as nat),
                    0 < den,
                    pow10(31) == 10000000000000000000000000000000,
                decreases n - j2,
            {
                let c = text.get_char(j2);
                let d = (c as u32) - 48;
                let ghost acc = s.subrange(start as int, de as int) + s.subrange(
                    de as int + 1,
                    j2 as int,
                );
                proof {
                    assert(s.subrange(start as int, de as int) + s.subrange(
                        de as int + 1,
                        j2 as int + 1,
                    ) =~= acc.push(s[j2 as int]));
                    lemma_digits_val_snoc(acc, s[j2 as int]);
                    lemma_pow10_mono((de - start + j2 - de) as nat, 31);
                    lemma_pow10_mono((j2 - de) as nat, 31);
                }
                num = num * 10 + (d as i128);
                den = den * 10;
                j2 += 1;
            }
            proof {
                assert(s.subrange(de as int + 1, n as int) =~= frac_digits);
            }
        } else {
            proof {
                assert(int_digits + frac_digits =~= s.subrange(start as int, de as int));
            }
        }
        proof {
            assert(num as int == digits_val(decimal_digits(s)));
            assert(den as int == decimal_den(s));
            lemma_pow10_mono((frac_len) as nat, 30);
            lemma_pow10_mono((de - start + frac_len) as nat, 30);
            lemma_pow10_30();
        }
        let value = TemperatureValue { num: if neg { -num } else { num }, den, units };
        Ok(value)
    }
}

/// True exactly when character `i` of `text` is a decimal digit.
fn digit_at(text: &str, i: usize) -> (r: bool)
    requires
        i < text@.len(),
    ensures
        r == is_digit(text@[i as int]),
{
    let c = text.get_char(i);
    let v = c as u32;
    48 <= v && v <= 57
}

proof fn lemma_digits_val_snoc(s: Seq<char>, c: char)
    ensures
        digits_val(s.push(c)) == digits_val(s) * 10 + digit_val(c),
{
    assert(s.push(c).drop_last() =~= s);
    assert(s.push(c).last() == c);
}

proof fn lemma_pow10_30()
    ensures
        pow10(30) == 1000000000000000000000000000000,
{
    reveal_with_fuel(pow10, 31);
}

/// After a run of digits from `start` to `de`, a stopping character at
/// `de` that is neither a digit nor '.' rules the text out as a decimal.
proof fn lemma_not_decimal_bad_char(s: Seq<char>, start: int, de: int)
    requires
        0 <= start <= de < s.len(),
        unsigned_part(s) == s.subrange(start, s.len() as int),
        forall|j: int| start <= j < de ==> is_digit(s[j]),
        !is_digit(s[de]),
        s[de] != '.',
    ensures
        !valid_decimal(s),
{
    let b = unsigned_part(s);
    if valid_decimal(s) {
        lemma_find_dot_props(b);
        let k = find_dot(b);
        if k == -1 {
            assert(int_part(b) == b);
            assert(is_digit(int_part(b)[de - start]));
            assert(b[de - start] == s[de]);
        } else {
            if de - start < k {
                assert(int_part(b) == b.take(k));
                assert(is_digit(int_part(b)[de - start]));
                assert(int_part(b)[de - start] == b[de - start]);
                assert(b[de - start] == s[de]);
            } else if de - start == k {
                assert(b[k] == s[de]);
            } else {
                assert(b[k] == s[start + k]);
                assert(is_digit(s[start + k]));
            }
        }
        assert(false);
    }
}

/// What `find_dot` promises: -1 means no dot at all; otherwise it is the
/// position of the first '.'.
proof fn lemma_find_dot_props(b: Seq<char>)
    ensures
        find_dot(b) == -1 ==> forall|j: int| 0 <= j < b.len() ==> b[j] != '.',
        find_dot(b) != -1 ==> 0 <= find_dot(b) < b.len() && b[find_dot(b)] == '.',
        find_dot(b) != -1 ==> forall|j: int| 0 <= j < find_dot(b) ==> b[j] != '.',
    decreases b.len(),
{
    if b.len() > 0 && b[0] != '.' {
        let t = b.drop_first();
        lemma_find_dot_props(t);
        if find_dot(t) == -1 {
            assert forall|j: int| 0 <= j < b.len() implies b[j] != '.' by {
                if j > 0 {
                    assert(b[j] == t[j - 1]);
                }
            }
        } else {
            let k = find_dot(t);
            assert(b[k + 1] == t[k]);
            assert forall|j: int| 0 <= j < k + 1 implies b[j] != '.' by {
                if j > 0 {
                    assert(b[j] == t[j - 1]);
                }
            }
        }
    }
}

/// With digits from `start` to `de` and a '.' at `de`, the dot of the
/// unsigned body sits exactly at `de - start`.
proof fn lemma_dot_position(s: Seq<char>, start: int, de: int)
    requires
        0 <= start <= de < s.len(),
        unsigned_part(s) == s.subrange(start, s.len() as int),
        forall|j: int| start <= j < de ==> is_digit(s[j]),
        s[de] == '.',
    ensures
        find_dot(unsigned_part(s)) == de - start,
        int_part(unsigned_part(s)) == unsigned_part(s).take(de - start),
        frac_part(unsigned_part(s)) == unsigned_part(s).skip(de - start + 1),
{
    let b = unsigned_part(s);
    assert forall|j: int| 0 <= j < de - start implies b[j] != '.' by {
        assert(b[j] == s[start + j]);
        assert(is_digit(s[start + j]));
    }
    assert(b[de - start] == s[de]);
    lemma_find_dot_at(b, de - start);
}

/// A body that is digits only has no dot.
proof fn lemma_no_dot(s: Seq<char>, start: int)
    requires
        0 <= start <= s.len(),
        unsigned_part(s) == s.subrange(start, s.len() as int),
        forall|j: int| start <= j < s.len() ==> is_digit(s[j]),
    ensures
        find_dot(unsigned_part(s)) == -1,
{
    let b = unsigned_part(s);
    assert forall|j: int| 0 <= j < b.len() implies b[j] != '.' by {
        assert(b[j] == s[start + j]);
        assert(is_digit(s[start + j]));
    }
    lemma_find_dot_none(b);
}

/// Largest integer not above the rational (Euclidean division by a
/// positive denominator is exactly the floor).
pub open spec fn rat_floor(r: RatTemp) -> int {
    r.num / r.den
}

/// Smallest integer not below the rational.
pub open spec fn rat_ceil(r: RatTemp) -> int {
    if r.num % r.den == 0 {
        r.num / r.den
    } else {
        r.num / r.den + 1
    }
}

impl TemperatureValue {
    /// Largest integer not above this value.
    pub fn floor_value(&self) -> (q: i128)
        requires
            conversion_bounded(self@),
        ensures
            q as int == rat_floor(self@),
    {
        let n = self.num;
        let d = self.den;
        if n >= 0 {
            let q0 = (n as u128) / (d as u128);
            proof {
                lemma_div_nonincreasing(n as int, d as int);
            }
            q0 as i128
        } else {
            let m = (-n) as u128;
            let q0 = m / (d as u128);
            let r0 = m % (d as u128);
            proof {
                lemma_fundamental_div_mod(m as int, d as int);
                lemma_div_nonincreasing(m as int, d as int);
                if r0 == 0 {
                    assert(n as int == (-(q0 as int)) * (d as int) + 0) by (nonlinear_arith)
                        requires
                            m as int == (d as int) * (q0 as int) + (r0 as int),
                            r0 as int == 0,
                            n as int == -(m as int),
                    ;
                    lemma_fundamental_div_mod_converse(n as int, d as int, -(q0 as int), 0);
                } else {
                    assert(n as int == (d as int) * (-(q0 as int) - 1) + ((d as int) - (
                    r0 as int))) by (nonlinear_arith)
                        requires
                            m as int == (d as int) * (q0 as int) + (r0 as int),
                            n as int == -(m as int),
                    ;
                    lemma_fundamental_div_mod_converse(
                        n as int,
                        d as int,
                        -(q0 as int) - 1,
                        (d as int) - (r0 as int),
                    );
                }
            }
            if r0 == 0 {
                -(q0 as i128)
            } else {
                -(q0 as i128) - 1
            }
        }
    }

    /// Smallest integer not below this value.
    pub fn ceil_value(&self) -> (q: i128)
        requires
            conversion_bounded(self@),
        ensures
            q as int == rat_ceil(self@),
    {
        let n = self.num;
        let d = self.den;
        if n >= 0 {
            let q0 = (n as u128) / (d as u128);
            let r0 = (n as u128) % (d as u128);
            proof {
                lemma_div_nonincreasing(n as int, d as int);
            }
            if r0 == 0 {
                q0 as i128
            } else {
                (q0 as i128) + 1
            }
        } else {
            let m = (-n) as u128;
            let q0 = m / (d as u128);
            let r0 = m % (d as u128);
            proof {
                lemma_fundamental_div_mod(m as int, d as int);
                lemma_div_nonincreasing(m as int, d as int);
                if r0 == 0 {
                    assert(n as int == (-(q0 as int)) * (d as int) + 0) by (nonlinear_arith)
                        requires
                            m as int == (d as int) * (q0 as int) + (r0 as int),
                            r0 as int == 0,
                            n as int == -(m as int),
                    ;
                    lemma_fundamental_div_mod_converse(n as int, d as int, -(q0 as int), 0);
                } else {
                    assert(n as int == (d as int) * (-(q0 as int) - 1) + ((d as int) - (
                    r0 as int))) by (nonlinear_arith)
                        requires
                            m as int == (d as int) * (q0 as int) + (r0 as int),
                            n as int == -(m as int),
                    ;
                    lemma_fundamental_div_mod_converse(
                        n as int,
                        d as int,
                        -(q0 as int) - 1,
                        (d as int) - (r0 as int),
                    );
                }
            }
            -(q0 as i128)
        }
    }
}

/// Round-trip law: converting a well-formed value to any unit and then
/// back to its own unit recovers the original value exactly, as a
/// rational number, with the original unit tag.
pub proof fn lemma_as_unit_round_trip(v: RatTemp, other: TemperatureUnits)
    requires
        v.wf(),
    ensures
        spec_as_unit(spec_as_unit(v, other), v.units).units == v.units,
        spec_as_unit(spec_as_unit(v, other), v.units).wf(),
        rat_eq(spec_as_unit(spec_as_unit(v, other), v.units), v),
{
    let w = spec_as_unit(spec_as_unit(v, other), v.units);
    if v.units == other {
        assert(rat_eq(w, v)) by (nonlinear_arith)
            requires w == v;
    } else {
        assert(w.num == 45 * v.num && w.den == 45 * v.den);
        assert(rat_eq(w, v)) by (nonlinear_arith)
            requires w.num == 45 * v.num && w.den == 45 * v.den;
    }
}

} // verus!
