//! Units of measure: dimensions, exact scale factors, the unit registry,
//! unit strings such as `kg/m^3`, and the dimensional analysis of programs.
use vstd::prelude::*;
use crate::ast::{
    args_view, expr_view, BinaryOp, CallArg, Expr, ExprKind, Program, SpecCallArg, SpecExpr,
    SpecExprKind, SpecStatement, Statement, StatementKind, UnaryOp,
};
use crate::diagnostic::{diag, diags_view, Diagnostic, Span, SpecDiagnostic};
use crate::names::NameMap;
use crate::text::{is_alpha, is_alpha_char, is_digit, is_digit_char, is_whitespace, is_whitespace_char, push_char, chars_of};

verus! {

pub open spec fn fits32(x: int) -> bool {
    i32::MIN <= x <= i32::MAX
}

pub open spec fn fits64(x: int) -> bool {
    i64::MIN <= x <= i64::MAX
}

// ---------------------------------------------------------------------------
// Dimensions
// ---------------------------------------------------------------------------

/// Exponents of the base dimensions mass, length, time and temperature.
#[derive(Debug, Clone, Copy, PartialEq, Eq, Structural)]
pub struct Dimension {
    pub mass: i32,
    pub length: i32,
    pub time: i32,
    pub temperature: i32,
}

pub open spec fn dim(mass: int, length: int, time: int, temperature: int) -> Option<Dimension> {
    if fits32(mass) && fits32(length) && fits32(time) && fits32(temperature) {
        Some(
            Dimension {
                mass: mass as i32,
                length: length as i32,
                time: time as i32,
                temperature: temperature as i32,
            },
        )
    } else {
        None
    }
}

/// The product of two dimensions: exponents add.
pub open spec fn dim_add(a: Dimension, b: Dimension) -> Option<Dimension> {
    dim(a.mass + b.mass, a.length + b.length, a.time + b.time, a.temperature + b.temperature)
}

/// The quotient of two dimensions: exponents subtract.
pub open spec fn dim_sub(a: Dimension, b: Dimension) -> Option<Dimension> {
    dim(a.mass - b.mass, a.length - b.length, a.time - b.time, a.temperature - b.temperature)
}

/// A dimension raised to a power: exponents multiply.
pub open spec fn dim_scale(a: Dimension, k: int) -> Option<Dimension> {
    dim(a.mass * k, a.length * k, a.time * k, a.temperature * k)
}

pub open spec fn dimensionless_spec() -> Dimension {
    Dimension { mass: 0, length: 0, time: 0, temperature: 0 }
}

impl Default for Dimension {
    fn default() -> (d: Self)
        ensures
            d == dimensionless_spec(),
    {
        Dimension { mass: 0, length: 0, time: 0, temperature: 0 }
    }
}

impl Dimension {
    pub fn dimensionless() -> (d: Self)
        ensures
            d == dimensionless_spec(),
    {
        Dimension { mass: 0, length: 0, time: 0, temperature: 0 }
    }

    pub fn add(self, rhs: Self) -> (d: Self)
        requires
            dim_add(self, rhs) is Some,
        ensures
            Some(d) == dim_add(self, rhs),
    {
        Dimension {
            mass: self.mass + rhs.mass,
            length: self.length + rhs.length,
            time: self.time + rhs.time,
            temperature: self.temperature + rhs.temperature,
        }
    }

    pub fn sub(self, rhs: Self) -> (d: Self)
        requires
            dim_sub(self, rhs) is Some,
        ensures
            Some(d) == dim_sub(self, rhs),
    {
        Dimension {
            mass: self.mass - rhs.mass,
            length: self.length - rhs.length,
            time: self.time - rhs.time,
            temperature: self.temperature - rhs.temperature,
        }
    }

    pub fn scale(self, factor: i32) -> (d: Self)
        requires
            dim_scale(self, factor as int) is Some,
        ensures
            Some(d) == dim_scale(self, factor as int),
    {
        Dimension {
            mass: self.mass * factor,
            length: self.length * factor,
            time: self.time * factor,
            temperature: self.temperature * factor,
        }
    }

    pub fn is_dimensionless(self) -> (b: bool)
        ensures
            b == (self == dimensionless_spec()),
    {
        self.mass == 0 && self.length == 0 && self.time == 0 && self.temperature == 0
    }

    pub fn same_as(self, rhs: Self) -> (b: bool)
        ensures
            b == (self == rhs),
    {
        self.mass == rhs.mass && self.length == rhs.length && self.time == rhs.time
            && self.temperature == rhs.temperature
    }

    /// The product, or `None` when an exponent leaves the range of `i32`.
    pub fn checked_add(self, rhs: Self) -> (r: Option<Self>)
        ensures
            r == dim_add(self, rhs),
    {
        let mass = match self.mass.checked_add(rhs.mass) {
            Some(v) => v,
            None => return None,
        };
        let length = match self.length.checked_add(rhs.length) {
            Some(v) => v,
            None => return None,
        };
        let time = match self.time.checked_add(rhs.time) {
            Some(v) => v,
            None => return None,
        };
        let temperature = match self.temperature.checked_add(rhs.temperature) {
            Some(v) => v,
            None => return None,
        };
        Some(Dimension { mass, length, time, temperature })
    }

    /// The quotient, or `None` when an exponent leaves the range of `i32`.
    pub fn checked_sub(self, rhs: Self) -> (r: Option<Self>)
        ensures
            r == dim_sub(self, rhs),
    {
        let mass = match self.mass.checked_sub(rhs.mass) {
            Some(v) => v,
            None => return None,
        };
        let length = match self.length.checked_sub(rhs.length) {
            Some(v) => v,
            None => return None,
        };
        let time = match self.time.checked_sub(rhs.time) {
            Some(v) => v,
            None => return None,
        };
        let temperature = match self.temperature.checked_sub(rhs.temperature) {
            Some(v) => v,
            None => return None,
        };
        Some(Dimension { mass, length, time, temperature })
    }

    /// The power, or `None` when an exponent leaves the range of `i32`.
    pub fn checked_scale(self, factor: i32) -> (r: Option<Self>)
        ensures
            r == dim_scale(self, factor as int),
    {
        let mass = match self.mass.checked_mul(factor) {
            Some(v) => v,
            None => return None,
        };
        let length = match self.length.checked_mul(factor) {
            Some(v) => v,
            None => return None,
        };
        let time = match self.time.checked_mul(factor) {
            Some(v) => v,
            None => return None,
        };
        let temperature = match self.temperature.checked_mul(factor) {
            Some(v) => v,
            None => return None,
        };
        Some(Dimension { mass, length, time, temperature })
    }
}

// ---------------------------------------------------------------------------
// Exact scale factors
// ---------------------------------------------------------------------------

/// A positive rational scale factor, held exactly as its prime
/// factorisation: the factor is
/// 2^two * 3^three * 5^five * 7^seven * 11^eleven * 97^ninety_seven
/// * 127^one_hundred_twenty_seven * 6073^six_thousand_seventy_three.
/// These primes are the ones the registered units need (the inch is
/// 127/5000 m, the pound 45359237/10^8 kg).
#[derive(Debug, Clone, Copy, PartialEq, Eq, Structural)]
pub struct Scale {
    pub two: i64,
    pub three: i64,
    pub five: i64,
    pub seven: i64,
    pub eleven: i64,
    pub ninety_seven: i64,
    pub one_hundred_twenty_seven: i64,
    pub six_thousand_seventy_three: i64,
}

pub open spec fn scale_of(e: Seq<int>) -> Option<Scale> {
    if e.len() == 8 && forall|i: int| 0 <= i < 8 ==> fits64(#[trigger] e[i]) {
        Some(
            Scale {
                two: e[0] as i64,
                three: e[1] as i64,
                five: e[2] as i64,
                seven: e[3] as i64,
                eleven: e[4] as i64,
                ninety_seven: e[5] as i64,
                one_hundred_twenty_seven: e[6] as i64,
                six_thousand_seventy_three: e[7] as i64,
            },
        )
    } else {
        None
    }
}

/// The exponents of a scale, in the order of the primes.
pub open spec fn exps(s: Scale) -> Seq<int> {
    seq![
        s.two as int,
        s.three as int,
        s.five as int,
        s.seven as int,
        s.eleven as int,
        s.ninety_seven as int,
        s.one_hundred_twenty_seven as int,
        s.six_thousand_seventy_three as int,
    ]
}

/// The product of two scale factors: exponents add.
pub open spec fn scale_mul(a: Scale, b: Scale) -> Option<Scale> {
    scale_of(Seq::new(8, |i: int| exps(a)[i] + exps(b)[i]))
}

/// The quotient of two scale factors: exponents subtract.
pub open spec fn scale_div(a: Scale, b: Scale) -> Option<Scale> {
    scale_of(Seq::new(8, |i: int| exps(a)[i] - exps(b)[i]))
}

/// A scale factor raised to a power: exponents multiply.
pub open spec fn scale_pow(a: Scale, k: int) -> Option<Scale> {
    scale_of(Seq::new(8, |i: int| exps(a)[i] * k))
}

pub open spec fn unit_scale_spec() -> Scale {
    Scale {
        two: 0,
        three: 0,
        five: 0,
        seven: 0,
        eleven: 0,
        ninety_seven: 0,
        one_hundred_twenty_seven: 0,
        six_thousand_seventy_three: 0,
    }
}

pub proof fn lemma_scale_of(a: Scale)
    ensures
        scale_of(exps(a)) == Some(a),
{
}

impl Scale {
    /// The factor one.
    pub fn one() -> (s: Self)
        ensures
            s == unit_scale_spec(),
    {
        Scale {
            two: 0,
            three: 0,
            five: 0,
            seven: 0,
            eleven: 0,
            ninety_seven: 0,
            one_hundred_twenty_seven: 0,
            six_thousand_seventy_three: 0,
        }
    }

    pub fn checked_mul(self, rhs: Self) -> (r: Option<Self>)
        ensures
            r == scale_mul(self, rhs),
    {
        let ghost e = Seq::new(8, |i: int| exps(self)[i] + exps(rhs)[i]);
        let a = match self.two.checked_add(rhs.two) { Some(v) => v, None => { assert(!fits64(e[0])); return None; } };
        let b = match self.three.checked_add(rhs.three) { Some(v) => v, None => { assert(!fits64(e[1])); return None; } };
        let c = match self.five.checked_add(rhs.five) { Some(v) => v, None => { assert(!fits64(e[2])); return None; } };
        let d = match self.seven.checked_add(rhs.seven) { Some(v) => v, None => { assert(!fits64(e[3])); return None; } };
        let f = match self.eleven.checked_add(rhs.eleven) { Some(v) => v, None => { assert(!fits64(e[4])); return None; } };
        let g = match self.ninety_seven.checked_add(rhs.ninety_seven) { Some(v) => v, None => { assert(!fits64(e[5])); return None; } };
        let h = match self.one_hundred_twenty_seven.checked_add(rhs.one_hundred_twenty_seven) { Some(v) => v, None => { assert(!fits64(e[6])); return None; } };
        let k = match self.six_thousand_seventy_three.checked_add(rhs.six_thousand_seventy_three) { Some(v) => v, None => { assert(!fits64(e[7])); return None; } };
        let r = Scale {
            two: a,
            three: b,
            five: c,
            seven: d,
            eleven: f,
            ninety_seven: g,
            one_hundred_twenty_seven: h,
            six_thousand_seventy_three: k,
        };
        assert(forall|i: int| 0 <= i < 8 ==> fits64(#[trigger] e[i]) && e[i] == exps(r)[i]);
        Some(r)
    }

    pub fn checked_div(self, rhs: Self) -> (r: Option<Self>)
        ensures
            r == scale_div(self, rhs),
    {
        let ghost e = Seq::new(8, |i: int| exps(self)[i] - exps(rhs)[i]);
        let a = match self.two.checked_sub(rhs.two) { Some(v) => v, None => { assert(!fits64(e[0])); return None; } };
        let b = match self.three.checked_sub(rhs.three) { Some(v) => v, None => { assert(!fits64(e[1])); return None; } };
        let c = match self.five.checked_sub(rhs.five) { Some(v) => v, None => { assert(!fits64(e[2])); return None; } };
        let d = match self.seven.checked_sub(rhs.seven) { Some(v) => v, None => { assert(!fits64(e[3])); return None; } };
        let f = match self.eleven.checked_sub(rhs.eleven) { Some(v) => v, None => { assert(!fits64(e[4])); return None; } };
        let g = match self.ninety_seven.checked_sub(rhs.ninety_seven) { Some(v) => v, None => { assert(!fits64(e[5])); return None; } };
        let h = match self.one_hundred_twenty_seven.checked_sub(rhs.one_hundred_twenty_seven) { Some(v) => v, None => { assert(!fits64(e[6])); return None; } };
        let k = match self.six_thousand_seventy_three.checked_sub(rhs.six_thousand_seventy_three) { Some(v) => v, None => { assert(!fits64(e[7])); return None; } };
        let r = Scale {
            two: a,
            three: b,
            five: c,
            seven: d,
            eleven: f,
            ninety_seven: g,
            one_hundred_twenty_seven: h,
            six_thousand_seventy_three: k,
        };
        assert(forall|i: int| 0 <= i < 8 ==> fits64(#[trigger] e[i]) && e[i] == exps(r)[i]);
        Some(r)
    }

    pub fn checked_pow(self, exponent: i32) -> (r: Option<Self>)
        ensures
            r == scale_pow(self, exponent as int),
    {
        let x = exponent as i64;
        let ghost e = Seq::new(8, |i: int| exps(self)[i] * exponent);
        let a = match self.two.checked_mul(x) { Some(v) => v, None => { assert(!fits64(e[0])); return None; } };
        let b = match self.three.checked_mul(x) { Some(v) => v, None => { assert(!fits64(e[1])); return None; } };
        let c = match self.five.checked_mul(x) { Some(v) => v, None => { assert(!fits64(e[2])); return None; } };
        let d = match self.seven.checked_mul(x) { Some(v) => v, None => { assert(!fits64(e[3])); return None; } };
        let f = match self.eleven.checked_mul(x) { Some(v) => v, None => { assert(!fits64(e[4])); return None; } };
        let g = match self.ninety_seven.checked_mul(x) { Some(v) => v, None => { assert(!fits64(e[5])); return None; } };
        let h = match self.one_hundred_twenty_seven.checked_mul(x) { Some(v) => v, None => { assert(!fits64(e[6])); return None; } };
        let k = match self.six_thousand_seventy_three.checked_mul(x) { Some(v) => v, None => { assert(!fits64(e[7])); return None; } };
        let r = Scale {
            two: a,
            three: b,
            five: c,
            seven: d,
            eleven: f,
            ninety_seven: g,
            one_hundred_twenty_seven: h,
            six_thousand_seventy_three: k,
        };
        assert(forall|i: int| 0 <= i < 8 ==> fits64(#[trigger] e[i]) && e[i] == exps(r)[i]);
        Some(r)
    }
}

// ---------------------------------------------------------------------------
// Units
// ---------------------------------------------------------------------------

/// A unit: its dimension and its exact factor relative to base SI units.
#[derive(Debug, Clone, Copy, PartialEq, Eq, Structural)]
pub struct Unit {
    pub dimension: Dimension,
    pub scale: Scale,
}

pub open spec fn unit_of(d: Option<Dimension>, s: Option<Scale>) -> Option<Unit> {
    match (d, s) {
        (Some(d), Some(s)) => Some(Unit { dimension: d, scale: s }),
        _ => None,
    }
}

pub open spec fn unit_mul(a: Unit, b: Unit) -> Option<Unit> {
    unit_of(dim_add(a.dimension, b.dimension), scale_mul(a.scale, b.scale))
}

pub open spec fn unit_div(a: Unit, b: Unit) -> Option<Unit> {
    unit_of(dim_sub(a.dimension, b.dimension), scale_div(a.scale, b.scale))
}

pub open spec fn unit_pow(a: Unit, k: int) -> Option<Unit> {
    unit_of(dim_scale(a.dimension, k), scale_pow(a.scale, k))
}

pub open spec fn dimensionless_unit() -> Unit {
    Unit { dimension: dimensionless_spec(), scale: unit_scale_spec() }
}

impl Unit {
    pub fn dimensionless() -> (u: Self)
        ensures
            u == dimensionless_unit(),
    {
        Unit { dimension: Dimension::dimensionless(), scale: Scale::one() }
    }

    /// Whether two units measure the same kind of quantity.
    pub fn compatible_with(self, rhs: Self) -> (b: bool)
        ensures
            b == (self.dimension == rhs.dimension),
    {
        self.dimension.same_as(rhs.dimension)
    }

    pub fn multiply(self, rhs: Self) -> (u: Self)
        requires
            unit_mul(self, rhs) is Some,
        ensures
            Some(u) == unit_mul(self, rhs),
    {
        self.checked_multiply(rhs).unwrap()
    }

    pub fn divide(self, rhs: Self) -> (u: Self)
        requires
            unit_div(self, rhs) is Some,
        ensures
            Some(u) == unit_div(self, rhs),
    {
        self.checked_divide(rhs).unwrap()
    }

    pub fn power(self, exponent: i32) -> (u: Self)
        requires
            unit_pow(self, exponent as int) is Some,
        ensures
            Some(u) == unit_pow(self, exponent as int),
    {
        self.checked_power(exponent).unwrap()
    }

    pub fn checked_multiply(self, rhs: Self) -> (r: Option<Self>)
        ensures
            r == unit_mul(self, rhs),
    {
        match (self.dimension.checked_add(rhs.dimension), self.scale.checked_mul(rhs.scale)) {
            (Some(dimension), Some(scale)) => Some(Unit { dimension, scale }),
            _ => None,
        }
    }

    pub fn checked_divide(self, rhs: Self) -> (r: Option<Self>)
        ensures
            r == unit_div(self, rhs),
    {
        match (self.dimension.checked_sub(rhs.dimension), self.scale.checked_div(rhs.scale)) {
            (Some(dimension), Some(scale)) => Some(Unit { dimension, scale }),
            _ => None,
        }
    }

    pub fn checked_power(self, exponent: i32) -> (r: Option<Self>)
        ensures
            r == unit_pow(self, exponent as int),
    {
        match (self.dimension.checked_scale(exponent), self.scale.checked_pow(exponent)) {
            (Some(dimension), Some(scale)) => Some(Unit { dimension, scale }),
            _ => None,
        }
    }
}

} // verus!

verus! {

// ---------------------------------------------------------------------------
// Integer literals
// ---------------------------------------------------------------------------

/// The value of a run of decimal digits.
pub open spec fn digits_value(s: Seq<char>) -> int
    decreases s.len(),
{
    if s.len() == 0 {
        0
    } else {
        digits_value(s.drop_last()) * 10 + ((s.last() as u32) as int - 48)
    }
}

pub open spec fn all_digits(s: Seq<char>) -> bool {
    forall|i: int| 0 <= i < s.len() ==> is_digit_char(#[trigger] s[i])
}

/// What `i32::from_str` gives: an optional sign, then at least one digit,
/// the value within the range of `i32`.
pub open spec fn parse_i32_spec(s: Seq<char>) -> Option<i32> {
    if s.len() == 0 {
        None
    } else {
        let neg = s[0] == '-';
        let digits = if s[0] == '-' || s[0] == '+' {
            s.drop_first()
        } else {
            s
        };
        if digits.len() == 0 || !all_digits(digits) {
            None
        } else {
            let v = if neg {
                -digits_value(digits)
            } else {
                digits_value(digits)
            };
            if fits32(v) {
                Some(v as i32)
            } else {
                None
            }
        }
    }
}

pub proof fn lemma_digits_value_nonneg(s: Seq<char>)
    requires
        all_digits(s),
    ensures
        digits_value(s) >= 0,
    decreases s.len(),
{
    if s.len() > 0 {
        assert(all_digits(s.drop_last()));
        lemma_digits_value_nonneg(s.drop_last());
        assert(is_digit_char(s[s.len() - 1]));
        assert(s.last() as u32 >= '0' as u32);
    }
}

/// Parses `cs[from..to]` as `i32::from_str` does.
pub fn parse_i32(cs: &Vec<char>, from: usize, to: usize) -> (r: Option<i32>)
    requires
        from <= to <= cs.len(),
    ensures
        r == parse_i32_spec(cs@.subrange(from as int, to as int)),
{
    let ghost s = cs@.subrange(from as int, to as int);
    if from == to {
        assert(s.len() == 0);
        return None;
    }
    let neg = cs[from] == '-';
    let start = if cs[from] == '-' || cs[from] == '+' {
        from + 1
    } else {
        from
    };
    let ghost digits = cs@.subrange(start as int, to as int);
    assert(digits =~= (if s[0] == '-' || s[0] == '+' {
        s.drop_first()
    } else {
        s
    }));
    if start == to {
        assert(digits.len() == 0);
        return None;
    }
    let limit: i64 = 2147483648;
    let mut value: i64 = 0;
    let mut over = false;
    let mut i = start;
    while i < to
        invariant
            start <= i <= to <= cs.len(),
            from < to,
            s == cs@.subrange(from as int, to as int),
            digits == cs@.subrange(start as int, to as int),
            digits.len() > 0,
            digits == (if s[0] == '-' || s[0] == '+' {
                s.drop_first()
            } else {
                s
            }),
            all_digits(cs@.subrange(start as int, i as int)),
            !over ==> value == digits_value(cs@.subrange(start as int, i as int)),
            !over ==> 0 <= value <= limit,
            over ==> digits_value(cs@.subrange(start as int, i as int)) > limit,
            limit == 2147483648,
        decreases to - i,
    {
        let c = cs[i];
        if !is_digit(c) {
            assert(digits[i - start] == c);
            assert(!all_digits(digits));
            return None;
        }
        let ghost prefix = cs@.subrange(start as int, i as int);
        let ghost next = cs@.subrange(start as int, i + 1);
        assert(next.drop_last() =~= prefix);
        assert(next.last() == c);
        assert(all_digits(next));
        proof {
            lemma_digits_value_nonneg(prefix);
        }
        assert(c as u32 >= 48 && c as u32 <= 57);
        assert('0' as int == 48);
        let d = (c as u32 - 48) as i64;
        assert(digits_value(next) == digits_value(prefix) * 10 + d);
        if !over {
            let v = value * 10 + d;
            if v > limit {
                over = true;
            } else {
                value = v;
            }
        }
        i = i + 1;
    }
    assert(cs@.subrange(start as int, i as int) =~= digits);
    if over {
        None
    } else if neg {
        Some((0 - value) as i32)
    } else if value <= 2147483647 {
        Some(value as i32)
    } else {
        None
    }
}

} // verus!

verus! {

broadcast use vstd::string::group_string_axioms;

// ---------------------------------------------------------------------------
// The registry of unit symbols
// ---------------------------------------------------------------------------

/// The unit symbols that unit strings may use.
#[derive(Debug)]
pub struct UnitRegistry {
    units: Vec<(String, Unit)>,
}

/// The first entry registered under `symbol`.
pub open spec fn lookup_in(entries: Seq<(String, Unit)>, symbol: Seq<char>) -> Option<Unit>
    decreases entries.len(),
{
    if entries.len() == 0 {
        None
    } else if entries[0].0@ == symbol {
        Some(entries[0].1)
    } else {
        lookup_in(entries.drop_first(), symbol)
    }
}

pub open spec fn base_dim(mass: i32, length: i32, time: i32, temperature: i32) -> Dimension {
    Dimension { mass, length, time, temperature }
}

pub open spec fn sc(two: int, three: int, five: int, seven: int, eleven: int, n97: int, n127: int, n6073: int) -> Scale {
    Scale {
        two: two as i64,
        three: three as i64,
        five: five as i64,
        seven: seven as i64,
        eleven: eleven as i64,
        ninety_seven: n97 as i64,
        one_hundred_twenty_seven: n127 as i64,
        six_thousand_seventy_three: n6073 as i64,
    }
}

pub open spec fn length_unit(s: Scale) -> Unit {
    Unit { dimension: base_dim(0, 1, 0, 0), scale: s }
}

pub open spec fn time_unit(s: Scale) -> Unit {
    Unit { dimension: base_dim(0, 0, 1, 0), scale: s }
}

pub open spec fn mass_unit(s: Scale) -> Unit {
    Unit { dimension: base_dim(1, 0, 0, 0), scale: s }
}

pub open spec fn temperature_unit(s: Scale) -> Unit {
    Unit { dimension: base_dim(0, 0, 0, 1), scale: s }
}

/// The units that the default registry knows:
/// m, cm (1/100 m), mm (1/1000 m), km (1000 m), in (0.0254 m), ft (0.3048 m),
/// s, min (60 s), hr (3600 s), kg, g (1/1000 kg), lbm (0.45359237 kg), K.
pub open spec fn default_unit(symbol: Seq<char>) -> Option<Unit> {
    if symbol == "m"@ {
        Some(length_unit(sc(0, 0, 0, 0, 0, 0, 0, 0)))
    } else if symbol == "cm"@ {
        Some(length_unit(sc(-2, 0, -2, 0, 0, 0, 0, 0)))
    } else if symbol == "mm"@ {
        Some(length_unit(sc(-3, 0, -3, 0, 0, 0, 0, 0)))
    } else if symbol == "km"@ {
        Some(length_unit(sc(3, 0, 3, 0, 0, 0, 0, 0)))
    } else if symbol == "in"@ {
        Some(length_unit(sc(-3, 0, -4, 0, 0, 0, 1, 0)))
    } else if symbol == "ft"@ {
        Some(length_unit(sc(-1, 1, -4, 0, 0, 0, 1, 0)))
    } else if symbol == "s"@ {
        Some(time_unit(sc(0, 0, 0, 0, 0, 0, 0, 0)))
    } else if symbol == "min"@ {
        Some(time_unit(sc(2, 1, 1, 0, 0, 0, 0, 0)))
    } else if symbol == "hr"@ {
        Some(time_unit(sc(4, 2, 2, 0, 0, 0, 0, 0)))
    } else if symbol == "kg"@ {
        Some(mass_unit(sc(0, 0, 0, 0, 0, 0, 0, 0)))
    } else if symbol == "g"@ {
        Some(mass_unit(sc(-3, 0, -3, 0, 0, 0, 0, 0)))
    } else if symbol == "lbm"@ {
        Some(mass_unit(sc(-8, 0, -8, 1, 1, 1, 0, 1)))
    } else if symbol == "K"@ {
        Some(temperature_unit(sc(0, 0, 0, 0, 0, 0, 0, 0)))
    } else {
        None
    }
}

fn make_unit(
    mass: i32,
    length: i32,
    time: i32,
    temperature: i32,
    two: i64,
    three: i64,
    five: i64,
    seven: i64,
    eleven: i64,
    n97: i64,
    n127: i64,
    n6073: i64,
) -> (u: Unit)
    ensures
        u == (Unit {
            dimension: base_dim(mass, length, time, temperature),
            scale: sc(two as int, three as int, five as int, seven as int, eleven as int, n97 as int, n127 as int, n6073 as int),
        }),
{
    Unit {
        dimension: Dimension { mass, length, time, temperature },
        scale: Scale {
            two,
            three,
            five,
            seven,
            eleven,
            ninety_seven: n97,
            one_hundred_twenty_seven: n127,
            six_thousand_seventy_three: n6073,
        },
    }
}

impl UnitRegistry {
    /// The unit registered under `symbol`, if any.
    pub closed spec fn lookup_spec(&self, symbol: Seq<char>) -> Option<Unit> {
        lookup_in(self.units@, symbol)
    }

    /// Symbol lookup in this registry.
    pub open spec fn lookup_fn(&self) -> spec_fn(Seq<char>) -> Option<Unit> {
        |symbol: Seq<char>| self.lookup_spec(symbol)
    }

    /// The registry of the default units.
    pub fn new() -> (r: Self)
        ensures
            forall|symbol: Seq<char>| #[trigger] r.lookup_spec(symbol) == default_unit(symbol),
            r.lookup_fn() == default_lookup(),
    {
        let mut units: Vec<(String, Unit)> = Vec::new();
        units.push((String::from_str("m"), make_unit(0, 1, 0, 0, 0, 0, 0, 0, 0, 0, 0, 0)));
        units.push((String::from_str("cm"), make_unit(0, 1, 0, 0, -2, 0, -2, 0, 0, 0, 0, 0)));
        units.push((String::from_str("mm"), make_unit(0, 1, 0, 0, -3, 0, -3, 0, 0, 0, 0, 0)));
        units.push((String::from_str("km"), make_unit(0, 1, 0, 0, 3, 0, 3, 0, 0, 0, 0, 0)));
        units.push((String::from_str("in"), make_unit(0, 1, 0, 0, -3, 0, -4, 0, 0, 0, 1, 0)));
        units.push((String::from_str("ft"), make_unit(0, 1, 0, 0, -1, 1, -4, 0, 0, 0, 1, 0)));
        units.push((String::from_str("s"), make_unit(0, 0, 1, 0, 0, 0, 0, 0, 0, 0, 0, 0)));
        units.push((String::from_str("min"), make_unit(0, 0, 1, 0, 2, 1, 1, 0, 0, 0, 0, 0)));
        units.push((String::from_str("hr"), make_unit(0, 0, 1, 0, 4, 2, 2, 0, 0, 0, 0, 0)));
        units.push((String::from_str("kg"), make_unit(1, 0, 0, 0, 0, 0, 0, 0, 0, 0, 0, 0)));
        units.push((String::from_str("g"), make_unit(1, 0, 0, 0, -3, 0, -3, 0, 0, 0, 0, 0)));
        units.push((String::from_str("lbm"), make_unit(1, 0, 0, 0, -8, 0, -8, 1, 1, 1, 0, 1)));
        units.push((String::from_str("K"), make_unit(0, 0, 0, 1, 0, 0, 0, 0, 0, 0, 0, 0)));
        let r = UnitRegistry { units };
        proof {
            reveal_strlit("m");
            reveal_strlit("cm");
            reveal_strlit("mm");
            reveal_strlit("km");
            reveal_strlit("in");
            reveal_strlit("ft");
            reveal_strlit("s");
            reveal_strlit("min");
            reveal_strlit("hr");
            reveal_strlit("kg");
            reveal_strlit("g");
            reveal_strlit("lbm");
            reveal_strlit("K");
            assert forall|symbol: Seq<char>| #[trigger] r.lookup_spec(symbol) == default_unit(symbol) by {
                reveal_with_fuel(lookup_in, 14);
                let e = r.units@;
                assert(e.drop_first().drop_first().drop_first().drop_first().drop_first().drop_first().drop_first().drop_first().drop_first().drop_first().drop_first().drop_first().drop_first().len() == 0);
            }
            assert(r.lookup_fn() =~= default_lookup());
        }
        r
    }

    /// The unit registered under `symbol`.
    pub fn lookup(&self, symbol: &Vec<char>) -> (r: Option<Unit>)
        ensures
            r == self.lookup_spec(symbol@),
    {
        let mut i: usize = 0;
        assert(self.units@.skip(0) =~= self.units@);
        while i < self.units.len()
            invariant
                i <= self.units.len(),
                lookup_in(self.units@.skip(i as int), symbol@) == lookup_in(self.units@, symbol@),
            decreases self.units.len() - i,
        {
            let name = chars_of(self.units[i].0.as_str());
            if crate::text::chars_equal(&name, symbol) {
                return Some(self.units[i].1);
            }
            assert(self.units@.skip(i as int).drop_first() =~= self.units@.skip(i + 1));
            i = i + 1;
        }
        None
    }
}

impl Default for UnitRegistry {
    fn default() -> (r: Self)
        ensures
            forall|symbol: Seq<char>| #[trigger] r.lookup_spec(symbol) == default_unit(symbol),
            r.lookup_fn() == default_lookup(),
    {
        UnitRegistry::new()
    }
}

} // verus!

verus! {

// ---------------------------------------------------------------------------
// Unit strings
// ---------------------------------------------------------------------------

/// The characters of `s` that are not white space.
pub open spec fn strip_whitespace(s: Seq<char>) -> Seq<char>
    decreases s.len(),
{
    if s.len() == 0 {
        s
    } else if is_whitespace_char(s.last()) {
        strip_whitespace(s.drop_last())
    } else {
        strip_whitespace(s.drop_last()).push(s.last())
    }
}

/// First index at or after `i` that holds neither a letter nor `_`.
pub open spec fn symbol_end(s: Seq<char>, i: int) -> int
    decreases s.len() - i,
{
    if 0 <= i < s.len() && (is_alpha_char(s[i]) || s[i] == '_') {
        symbol_end(s, i + 1)
    } else {
        i
    }
}

pub proof fn lemma_symbol_end(s: Seq<char>, i: int)
    requires
        0 <= i <= s.len(),
    ensures
        i <= symbol_end(s, i) <= s.len(),
        i < s.len() && (is_alpha_char(s[i]) || s[i] == '_') ==> i < symbol_end(s, i),
    decreases s.len() - i,
{
    if 0 <= i < s.len() && (is_alpha_char(s[i]) || s[i] == '_') {
        lemma_symbol_end(s, i + 1);
    }
}

/// First index at or after `i` that holds no digit.
pub open spec fn digit_run_end(s: Seq<char>, i: int) -> int
    decreases s.len() - i,
{
    if 0 <= i < s.len() && is_digit_char(s[i]) {
        digit_run_end(s, i + 1)
    } else {
        i
    }
}

pub proof fn lemma_digit_run_end(s: Seq<char>, i: int)
    requires
        0 <= i <= s.len(),
    ensures
        i <= digit_run_end(s, i) <= s.len(),
        all_digits(s.subrange(i, digit_run_end(s, i))),
    decreases s.len() - i,
{
    if 0 <= i < s.len() && is_digit_char(s[i]) {
        lemma_digit_run_end(s, i + 1);
        assert forall|k: int| 0 <= k < digit_run_end(s, i) - i implies is_digit_char(
            #[trigger] s.subrange(i, digit_run_end(s, i))[k],
        ) by {
            if k > 0 {
                assert(s.subrange(i, digit_run_end(s, i))[k] == s.subrange(
                    i + 1,
                    digit_run_end(s, i + 1),
                )[k - 1]);
            }
        }
    }
}

/// The exponent after a symbol that ends at `e`, and where it ends; or the
/// error message. Without `^` the exponent is 1.
pub open spec fn exponent_at(s: Seq<char>, e: int) -> Result<(i32, int), Seq<char>> {
    if !(e < s.len() && s[e] == '^') {
        Ok((1i32, e))
    } else if e + 1 >= s.len() {
        Err("Missing exponent after '^'"@)
    } else {
        let k = e + 1;
        let k2 = if s[k] == '-' {
            k + 1
        } else {
            k
        };
        let k3 = digit_run_end(s, k2);
        if k3 == k || (k3 == k + 1 && s[k] == '-') {
            Err("Exponent must be an integer"@)
        } else {
            match parse_i32_spec(s.subrange(k, k3)) {
                Some(x) => Ok((x, k3)),
                None => Err("Exponent out of range"@),
            }
        }
    }
}

pub open spec fn invalid_token_message(c: char) -> Seq<char> {
    "Invalid unit token starting at '"@ + seq![c] + "'"@
}

pub open spec fn unknown_unit_message(symbol: Seq<char>) -> Seq<char> {
    "Unknown unit '"@ + symbol + "'"@
}

/// The unit that the terms of `s` from index `i` on give, multiplied into
/// `acc`; `divide` says that the next term divides.
pub open spec fn unit_terms(
    lookup: spec_fn(Seq<char>) -> Option<Unit>,
    s: Seq<char>,
    i: int,
    acc: Unit,
    divide: bool,
) -> Result<Unit, Seq<char>>
    decreases s.len() - i,
{
    if !(0 <= i < s.len()) {
        Ok(acc)
    } else if s[i] == '*' {
        unit_terms(lookup, s, i + 1, acc, false)
    } else if s[i] == '/' {
        unit_terms(lookup, s, i + 1, acc, true)
    } else if !is_alpha_char(s[i]) {
        Err(invalid_token_message(s[i]))
    } else {
        let e = symbol_end(s, i);
        let symbol = s.subrange(i, e);
        match lookup(symbol) {
            None => Err(unknown_unit_message(symbol)),
            Some(base) => match exponent_at(s, e) {
                Err(m) => Err(m),
                Ok((x, next)) => {
                    let term = unit_pow(base, x as int);
                    let combined = match term {
                        Some(t) => if divide {
                            unit_div(acc, t)
                        } else {
                            unit_mul(acc, t)
                        },
                        None => None,
                    };
                    match combined {
                        None => Err("Exponent out of range"@),
                        Some(u) => if i < next <= s.len() {
                            unit_terms(lookup, s, next, u, false)
                        } else {
                            Ok(u)
                        },
                    }
                },
            },
        }
    }
}

/// What parsing a unit string gives. White space is ignored; terms are
/// symbols with optional integer exponents (`m^-2`), joined by `*` or `/`,
/// where `/` divides by the one term that follows it.
pub open spec fn parse_unit_spec(
    lookup: spec_fn(Seq<char>) -> Option<Unit>,
    input: Seq<char>,
) -> Result<Unit, Seq<char>> {
    let s = strip_whitespace(input);
    if s.len() == 0 {
        Err("Unit string is empty"@)
    } else {
        unit_terms(lookup, s, 0, dimensionless_unit(), false)
    }
}

/// Symbol lookup in the default registry.
pub open spec fn default_lookup() -> spec_fn(Seq<char>) -> Option<Unit> {
    |symbol: Seq<char>| default_unit(symbol)
}

/// The characters of `input` without its white space.
fn strip_whitespace_chars(input: &str) -> (r: Vec<char>)
    ensures
        r@ == strip_whitespace(input@),
{
    let cs = chars_of(input);
    let mut r: Vec<char> = Vec::new();
    let mut i: usize = 0;
    while i < cs.len()
        invariant
            i <= cs.len(),
            cs@ == input@,
            r@ == strip_whitespace(cs@.take(i as int)),
        decreases cs.len() - i,
    {
        let c = cs[i];
        assert(cs@.take(i + 1).drop_last() =~= cs@.take(i as int));
        assert(cs@.take(i + 1).last() == c);
        if !is_whitespace(c) {
            r.push(c);
        }
        i = i + 1;
    }
    assert(cs@.take(cs.len() as int) =~= cs@);
    r
}

impl UnitRegistry {
    /// Parses a unit string such as `kg/m/s^2` into its unit.
    pub fn parse_unit_string(&self, input: &str) -> (r: Result<Unit, String>)
        ensures
            match r {
                Ok(u) => parse_unit_spec(self.lookup_fn(), input@) == Ok::<Unit, Seq<char>>(u),
                Err(m) => parse_unit_spec(self.lookup_fn(), input@) == Err::<Unit, Seq<char>>(m@),
            },
    {
        let cs = strip_whitespace_chars(input);
        if cs.len() == 0 {
            return Err(String::from_str("Unit string is empty"));
        }
        let ghost s = cs@;
        let mut unit = Unit::dimensionless();
        let mut divide = false;
        let mut idx: usize = 0;
        while idx < cs.len()
            invariant
                idx <= cs.len(),
                cs@ == s,
                s.len() > 0,
                parse_unit_spec(self.lookup_fn(), input@) == unit_terms(self.lookup_fn(), s, 0, dimensionless_unit(), false),
                unit_terms(self.lookup_fn(), s, idx as int, unit, divide) == unit_terms(
                    self.lookup_fn(),
                    s,
                    0,
                    dimensionless_unit(),
                    false,
                ),
            decreases cs.len() - idx,
        {
            let c = cs[idx];
            if c == '*' {
                divide = false;
                idx = idx + 1;
                continue;
            }
            if c == '/' {
                divide = true;
                idx = idx + 1;
                continue;
            }
            if !is_alpha(c) {
                let mut message = String::from_str("Invalid unit token starting at '");
                push_char(&mut message, c);
                message.append("'");
                assert(message@ =~= invalid_token_message(c));
                return Err(message);
            }
            let start = idx;
            proof {
                lemma_symbol_end(s, idx as int);
            }
            while idx < cs.len() && (is_alpha(cs[idx]) || cs[idx] == '_')
                invariant
                    start <= idx <= cs.len(),
                    cs@ == s,
                    symbol_end(s, idx as int) == symbol_end(s, start as int),
                decreases cs.len() - idx,
            {
                idx = idx + 1;
            }
            let symbol = slice_chars(&cs, start, idx);
            let base = match self.lookup(&symbol) {
                Some(u) => u,
                None => {
                    let mut message = String::from_str("Unknown unit '");
                    let mut j = start;
                    while j < idx
                        invariant
                            start <= j <= idx <= cs.len(),
                            cs@ == s,
                            message@ == "Unknown unit '"@ + s.subrange(start as int, j as int),
                        decreases idx - j,
                    {
                        push_char(&mut message, cs[j]);
                        assert(s.subrange(start as int, j + 1) =~= s.subrange(start as int, j as int).push(s[j as int]));
                        j = j + 1;
                    }
                    message.append("'");
                    assert(message@ =~= unknown_unit_message(s.subrange(start as int, idx as int)));
                    return Err(message);
                },
            };
            let mut exponent: i32 = 1;
            if idx < cs.len() && cs[idx] == '^' {
                idx = idx + 1;
                if idx >= cs.len() {
                    return Err(String::from_str("Missing exponent after '^'"));
                }
                let exp_start = idx;
                if cs[idx] == '-' {
                    idx = idx + 1;
                }
                let ghost k2 = idx as int;
                proof {
                    lemma_digit_run_end(s, k2);
                }
                while idx < cs.len() && is_digit(cs[idx])
                    invariant
                        k2 <= idx <= cs.len(),
                        cs@ == s,
                        digit_run_end(s, idx as int) == digit_run_end(s, k2),
                    decreases cs.len() - idx,
                {
                    idx = idx + 1;
                }
                if exp_start == idx || (exp_start + 1 == idx && cs[exp_start] == '-') {
                    return Err(String::from_str("Exponent must be an integer"));
                }
                exponent = match parse_i32(&cs, exp_start, idx) {
                    Some(x) => x,
                    None => return Err(String::from_str("Exponent out of range")),
                };
            }
            let term = match base.checked_power(exponent) {
                Some(t) => t,
                None => return Err(String::from_str("Exponent out of range")),
            };
            let combined = if divide {
                unit.checked_divide(term)
            } else {
                unit.checked_multiply(term)
            };
            unit = match combined {
                Some(u) => u,
                None => return Err(String::from_str("Exponent out of range")),
            };
            divide = false;
        }
        Ok(unit)
    }
}

/// The characters `cs[from..to]`.
fn slice_chars(cs: &Vec<char>, from: usize, to: usize) -> (r: Vec<char>)
    requires
        from <= to <= cs.len(),
    ensures
        r@ == cs@.subrange(from as int, to as int),
{
    let mut r: Vec<char> = Vec::new();
    let mut i = from;
    while i < to
        invariant
            from <= i <= to <= cs.len(),
            r@ == cs@.subrange(from as int, i as int),
        decreases to - i,
    {
        r.push(cs[i]);
        assert(cs@.subrange(from as int, i + 1) =~= cs@.subrange(from as int, i as int).push(cs@[i as int]));
        i = i + 1;
    }
    r
}

} // verus!

verus! {

// ---------------------------------------------------------------------------
// Dimensional analysis of programs
// ---------------------------------------------------------------------------

/// What the analysis knows of the unit of an expression.
#[derive(Debug, Clone, Copy, PartialEq, Eq, Structural)]
pub enum UnitKnowledge {
    Known(Dimension),
    Unknown,
}

impl UnitKnowledge {
    /// The dimension, where it is known.
    pub fn as_known(self) -> (r: Option<Dimension>)
        ensures
            r == (match self {
                UnitKnowledge::Known(d) => Some(d),
                UnitKnowledge::Unknown => None::<Dimension>,
            }),
    {
        match self {
            UnitKnowledge::Known(d) => Some(d),
            UnitKnowledge::Unknown => None,
        }
    }
}

pub open spec fn arg_expr(a: SpecCallArg) -> SpecExpr {
    match a {
        SpecCallArg::Positional(e) => e,
        SpecCallArg::Keyword { value, .. } => value,
    }
}

pub open spec fn has_fraction_or_exponent(n: Seq<char>) -> bool {
    n.contains('.') || n.contains('e') || n.contains('E')
}

/// The integer an exponent expression stands for, when it is an integer
/// literal, possibly negated or parenthesised.
pub open spec fn integer_exponent(e: SpecExpr) -> Option<i32>
    decreases e,
{
    match e.kind {
        SpecExprKind::Number(n) => if has_fraction_or_exponent(n) {
            None
        } else {
            parse_i32_spec(n)
        },
        SpecExprKind::Unary { op: UnaryOp::Minus, expr } => match integer_exponent(*expr) {
            Some(v) => if v == i32::MIN {
                None
            } else {
                Some((-v) as i32)
            },
            None => None,
        },
        SpecExprKind::Group(inner) => integer_exponent(*inner),
        _ => None,
    }
}

pub type Inferred = (UnitKnowledge, Seq<SpecDiagnostic>);

pub open spec fn overflow_message() -> Seq<char> {
    "Unit exponent out of range"@
}

pub open spec fn known_or_overflow(r: Option<Dimension>, span: Span, d: Seq<SpecDiagnostic>) -> Inferred {
    match r {
        Some(x) => (UnitKnowledge::Known(x), d),
        None => (UnitKnowledge::Unknown, d.push(diag(overflow_message(), span))),
    }
}

/// The unit of a binary expression from the units of its operands, after
/// the diagnostics `d` of the operands.
pub open spec fn infer_binary(
    op: BinaryOp,
    l: UnitKnowledge,
    r: UnitKnowledge,
    right: SpecExpr,
    span: Span,
    d: Seq<SpecDiagnostic>,
) -> Inferred {
    match op {
        BinaryOp::Add | BinaryOp::Subtract => match (l, r) {
            (UnitKnowledge::Known(a), UnitKnowledge::Known(b)) => (
                UnitKnowledge::Known(a),
                if a != b {
                    d.push(diag("Addition/subtraction requires compatible units"@, span))
                } else {
                    d
                },
            ),
            _ => (UnitKnowledge::Unknown, d),
        },
        BinaryOp::Multiply => match (l, r) {
            (UnitKnowledge::Known(a), UnitKnowledge::Known(b)) => known_or_overflow(dim_add(a, b), span, d),
            _ => (UnitKnowledge::Unknown, d),
        },
        BinaryOp::Divide => match (l, r) {
            (UnitKnowledge::Known(a), UnitKnowledge::Known(b)) => known_or_overflow(dim_sub(a, b), span, d),
            _ => (UnitKnowledge::Unknown, d),
        },
        BinaryOp::Power => {
            if !(r == UnitKnowledge::Known(dimensionless_spec())) {
                (UnitKnowledge::Unknown, d.push(diag("Exponent must be dimensionless"@, right.span)))
            } else {
                match integer_exponent(right) {
                    None => (
                        UnitKnowledge::Unknown,
                        d.push(diag("Exponent must be an integer literal"@, right.span)),
                    ),
                    Some(x) => match l {
                        UnitKnowledge::Known(a) => known_or_overflow(dim_scale(a, x as int), span, d),
                        UnitKnowledge::Unknown => (UnitKnowledge::Unknown, d),
                    },
                }
            }
        },
    }
}

/// The unit of `to(x, "unit")`: the target unit, after checking that it
/// parses and that `x` is compatible with it.
pub open spec fn infer_conversion(
    lookup: spec_fn(Seq<char>) -> Option<Unit>,
    source: Inferred,
    target: SpecExpr,
    span: Span,
) -> Inferred {
    match target.kind {
        SpecExprKind::StringLiteral(text) => match parse_unit_spec(lookup, text) {
            Err(m) => (
                UnitKnowledge::Unknown,
                source.1.push(
                    diag("Invalid conversion target unit '"@ + text + "': "@ + m, target.span),
                ),
            ),
            Ok(t) => (
                UnitKnowledge::Known(t.dimension),
                match source.0 {
                    UnitKnowledge::Known(a) => if a != t.dimension {
                        source.1.push(diag("to() conversion requires compatible units"@, span))
                    } else {
                        source.1
                    },
                    UnitKnowledge::Unknown => source.1,
                },
            ),
        },
        _ => (
            UnitKnowledge::Unknown,
            source.1.push(diag("to(x, unit) requires a string literal unit"@, target.span)),
        ),
    }
}

/// The unit of an expression and the diagnostics it raises, given what is
/// known of the variables.
pub open spec fn infer_spec(
    lookup: spec_fn(Seq<char>) -> Option<Unit>,
    e: SpecExpr,
    env: Map<Seq<char>, UnitKnowledge>,
) -> Inferred
    decreases e,
{
    match e.kind {
        SpecExprKind::Number(_) => (UnitKnowledge::Known(dimensionless_spec()), Seq::empty()),
        SpecExprKind::QuantityLiteral { unit, span, .. } => match parse_unit_spec(lookup, unit) {
            Ok(u) => (UnitKnowledge::Known(u.dimension), Seq::empty()),
            Err(m) => (
                UnitKnowledge::Unknown,
                seq![diag("Invalid unit string '"@ + unit + "': "@ + m, span)],
            ),
        },
        SpecExprKind::Identifier(name) => (
            if env.contains_key(name) {
                env[name]
            } else {
                UnitKnowledge::Unknown
            },
            Seq::empty(),
        ),
        SpecExprKind::StringLiteral(_) => (UnitKnowledge::Unknown, Seq::empty()),
        SpecExprKind::Unary { expr, .. } => infer_spec(lookup, *expr, env),
        SpecExprKind::Binary { op, left, right } => {
            let l = infer_spec(lookup, *left, env);
            let r = infer_spec(lookup, *right, env);
            infer_binary(op, l.0, r.0, *right, e.span, l.1 + r.1)
        },
        SpecExprKind::Call { callee, args } => if callee == "to"@ && args.len() == 2 {
            let source = match args[0] {
                SpecCallArg::Positional(x) => infer_spec(lookup, x, env),
                SpecCallArg::Keyword { value, .. } => infer_spec(lookup, value, env),
            };
            infer_conversion(lookup, source, arg_expr(args[1]), e.span)
        } else {
            (UnitKnowledge::Unknown, Seq::empty())
        },
        SpecExprKind::Group(inner) => infer_spec(lookup, *inner, env),
    }
}

/// The diagnostics of one assignment and what is known of the variables
/// after it.
pub open spec fn statement_step(
    lookup: spec_fn(Seq<char>) -> Option<Unit>,
    st: SpecStatement,
    env: Map<Seq<char>, UnitKnowledge>,
) -> (Seq<SpecDiagnostic>, Map<Seq<char>, UnitKnowledge>) {
    let l = infer_spec(lookup, st.lhs, env);
    let r = infer_spec(lookup, st.rhs, env);
    let here = match (l.0, r.0) {
        (UnitKnowledge::Known(a), UnitKnowledge::Known(b)) => if a != b {
            seq![diag("Assignment has incompatible units"@, st.span)]
        } else {
            Seq::empty()
        },
        _ => Seq::empty(),
    };
    let env2 = match st.lhs.kind {
        SpecExprKind::Identifier(name) => env.insert(name, r.0),
        _ => env,
    };
    (l.1 + r.1 + here, env2)
}

/// The diagnostics of the statements from index `i` on, given what is
/// known of the variables; each assignment to a variable records the unit
/// of its right-hand side.
pub open spec fn analyze_from(
    lookup: spec_fn(Seq<char>) -> Option<Unit>,
    stmts: Seq<SpecStatement>,
    i: int,
    env: Map<Seq<char>, UnitKnowledge>,
) -> Seq<SpecDiagnostic>
    decreases stmts.len() - i,
{
    if !(0 <= i < stmts.len()) {
        Seq::empty()
    } else {
        let step = statement_step(lookup, stmts[i], env);
        step.0 + analyze_from(lookup, stmts, i + 1, step.1)
    }
}

} // verus!

verus! {

/// Whether `s` holds the character `c`.
fn contains_char(s: &String, c: char) -> (b: bool)
    ensures
        b == s@.contains(c),
{
    let cs = chars_of(s.as_str());
    let mut i: usize = 0;
    while i < cs.len()
        invariant
            i <= cs.len(),
            cs@ == s@,
            forall|j: int| 0 <= j < i ==> cs@[j] != c,
        decreases cs.len() - i,
    {
        if cs[i] == c {
            assert(s@[i as int] == c);
            return true;
        }
        i = i + 1;
    }
    false
}

/// The integer an exponent expression stands for, when it is an integer
/// literal, possibly negated or parenthesised.
pub fn extract_integer_exponent(expr: &Expr) -> (r: Option<i32>)
    ensures
        r == integer_exponent(expr@),
    decreases expr,
{
    match &expr.kind {
        ExprKind::Number(n) => {
            if contains_char(n, '.') || contains_char(n, 'e') || contains_char(n, 'E') {
                return None;
            }
            let cs = chars_of(n.as_str());
            assert(cs@.subrange(0, cs.len() as int) =~= cs@);
            parse_i32(&cs, 0, cs.len())
        },
        ExprKind::Unary { op: UnaryOp::Minus, expr: inner } => match extract_integer_exponent(inner) {
            Some(v) => if v == i32::MIN {
                None
            } else {
                Some(-v)
            },
            None => None,
        },
        ExprKind::Group(inner) => extract_integer_exponent(inner),
        _ => None,
    }
}

/// Appends `text` to `s`.
fn append_chars(s: &mut String, text: &String)
    ensures
        final(s)@ == old(s)@ + text@,
{
    s.append(text.as_str());
}

fn push_diagnostic(diagnostics: &mut Vec<Diagnostic>, d: Diagnostic)
    ensures
        diags_view(final(diagnostics)@) == diags_view(old(diagnostics)@).push(d@),
{
    diagnostics.push(d);
    assert(diags_view(diagnostics@) =~= diags_view(old(diagnostics)@).push(d@));
}

fn unit_message(prefix: &str, text: &String, message: &String) -> (m: String)
    ensures
        m@ == prefix@ + text@ + "': "@ + message@,
{
    let mut m = String::from_str(prefix);
    append_chars(&mut m, text);
    m.append("': ");
    append_chars(&mut m, message);
    m
}

fn known_or_overflow_exec(
    r: Option<Dimension>,
    span: Span,
    diagnostics: &mut Vec<Diagnostic>,
) -> (k: UnitKnowledge)
    ensures
        ({
            let o = known_or_overflow(r, span, diags_view(old(diagnostics)@));
            &&& k == o.0
            &&& diags_view(final(diagnostics)@) == o.1
        }),
{
    match r {
        Some(x) => UnitKnowledge::Known(x),
        None => {
            push_diagnostic(diagnostics, Diagnostic::from_str("Unit exponent out of range", span));
            UnitKnowledge::Unknown
        },
    }
}

fn binary_unit(
    op: BinaryOp,
    l: UnitKnowledge,
    r: UnitKnowledge,
    right: &Expr,
    span: Span,
    diagnostics: &mut Vec<Diagnostic>,
) -> (k: UnitKnowledge)
    ensures
        ({
            let o = infer_binary(op, l, r, right@, span, diags_view(old(diagnostics)@));
            &&& k == o.0
            &&& diags_view(final(diagnostics)@) == o.1
        }),
{
    match op {
        BinaryOp::Add | BinaryOp::Subtract => match (l, r) {
            (UnitKnowledge::Known(a), UnitKnowledge::Known(b)) => {
                if !a.same_as(b) {
                    push_diagnostic(
                        diagnostics,
                        Diagnostic::from_str("Addition/subtraction requires compatible units", span),
                    );
                }
                UnitKnowledge::Known(a)
            },
            _ => UnitKnowledge::Unknown,
        },
        BinaryOp::Multiply => match (l, r) {
            (UnitKnowledge::Known(a), UnitKnowledge::Known(b)) => known_or_overflow_exec(
                a.checked_add(b),
                span,
                diagnostics,
            ),
            _ => UnitKnowledge::Unknown,
        },
        BinaryOp::Divide => match (l, r) {
            (UnitKnowledge::Known(a), UnitKnowledge::Known(b)) => known_or_overflow_exec(
                a.checked_sub(b),
                span,
                diagnostics,
            ),
            _ => UnitKnowledge::Unknown,
        },
        BinaryOp::Power => {
            let right_dimensionless = match r {
                UnitKnowledge::Known(b) => b.is_dimensionless(),
                UnitKnowledge::Unknown => false,
            };
            if !right_dimensionless {
                push_diagnostic(
                    diagnostics,
                    Diagnostic::from_str("Exponent must be dimensionless", right.span),
                );
                return UnitKnowledge::Unknown;
            }
            match extract_integer_exponent(right) {
                None => {
                    push_diagnostic(
                        diagnostics,
                        Diagnostic::from_str("Exponent must be an integer literal", right.span),
                    );
                    UnitKnowledge::Unknown
                },
                Some(x) => match l {
                    UnitKnowledge::Known(a) => known_or_overflow_exec(
                        a.checked_scale(x),
                        span,
                        diagnostics,
                    ),
                    UnitKnowledge::Unknown => UnitKnowledge::Unknown,
                },
            }
        },
    }
}

fn arg_expression(a: &CallArg) -> (e: &Expr)
    ensures
        e@ == arg_expr(a@),
{
    match a {
        CallArg::Positional(e) => e,
        CallArg::Keyword { value, .. } => value,
    }
}

/// The unit of `to(x, target)` given the unit of `x`.
fn conversion_unit(
    source: UnitKnowledge,
    target: &Expr,
    registry: &UnitRegistry,
    span: Span,
    diagnostics: &mut Vec<Diagnostic>,
) -> (k: UnitKnowledge)
    ensures
        ({
            let o = infer_conversion(
                registry.lookup_fn(),
                (source, diags_view(old(diagnostics)@)),
                target@,
                span,
            );
            &&& k == o.0
            &&& diags_view(final(diagnostics)@) == o.1
        }),
{
    let text = match &target.kind {
        ExprKind::StringLiteral(text) => text,
        _ => {
            push_diagnostic(
                diagnostics,
                Diagnostic::from_str("to(x, unit) requires a string literal unit", target.span),
            );
            return UnitKnowledge::Unknown;
        },
    };
    match registry.parse_unit_string(text.as_str()) {
        Err(message) => {
            let m = unit_message("Invalid conversion target unit '", text, &message);
            push_diagnostic(diagnostics, Diagnostic::new(m, target.span));
            UnitKnowledge::Unknown
        },
        Ok(unit) => {
            match source {
                UnitKnowledge::Known(a) => {
                    if !a.same_as(unit.dimension) {
                        push_diagnostic(
                            diagnostics,
                            Diagnostic::from_str("to() conversion requires compatible units", span),
                        );
                    }
                },
                UnitKnowledge::Unknown => {},
            }
            UnitKnowledge::Known(unit.dimension)
        },
    }
}

/// Infers the unit of `expr`, appending the diagnostics it raises.
pub fn infer_expr_unit(
    expr: &Expr,
    env: &NameMap<UnitKnowledge>,
    registry: &UnitRegistry,
    diagnostics: &mut Vec<Diagnostic>,
) -> (k: UnitKnowledge)
    ensures
        ({
            let o = infer_spec(registry.lookup_fn(), expr@, env.view());
            &&& k == o.0
            &&& diags_view(final(diagnostics)@) == diags_view(old(diagnostics)@) + o.1
        }),
    decreases expr, 1int,
{
    match &expr.kind {
        ExprKind::Unary { expr: inner, .. } => infer_expr_unit(inner, env, registry, diagnostics),
        ExprKind::Group(inner) => infer_expr_unit(inner, env, registry, diagnostics),
        ExprKind::Binary { .. } => binary_expr_unit(expr, env, registry, diagnostics),
        ExprKind::Call { .. } => call_expr_unit(expr, env, registry, diagnostics),
        _ => leaf_unit(expr, env, registry, diagnostics),
    }
}

/// The unit of a number, quantity, variable or string.
fn leaf_unit(
    expr: &Expr,
    env: &NameMap<UnitKnowledge>,
    registry: &UnitRegistry,
    diagnostics: &mut Vec<Diagnostic>,
) -> (k: UnitKnowledge)
    requires
        expr.kind is Number || expr.kind is QuantityLiteral || expr.kind is Identifier
            || expr.kind is StringLiteral,
    ensures
        ({
            let o = infer_spec(registry.lookup_fn(), expr@, env.view());
            &&& k == o.0
            &&& diags_view(final(diagnostics)@) == diags_view(old(diagnostics)@) + o.1
        }),
{
    let ghost d0 = diags_view(diagnostics@);
    assert(d0 + Seq::<SpecDiagnostic>::empty() =~= d0);
    match &expr.kind {
        ExprKind::QuantityLiteral { unit, span, .. } => match registry.parse_unit_string(
            unit.as_str(),
        ) {
            Ok(parsed) => UnitKnowledge::Known(parsed.dimension),
            Err(message) => {
                let m = unit_message("Invalid unit string '", unit, &message);
                let d = Diagnostic::new(m, *span);
                push_diagnostic(diagnostics, d);
                assert(d0.push(d@) =~= d0 + seq![d@]);
                UnitKnowledge::Unknown
            },
        },
        ExprKind::Identifier(name) => match env.get(name) {
            Some(k) => *k,
            None => UnitKnowledge::Unknown,
        },
        ExprKind::Number(_) => UnitKnowledge::Known(Dimension::dimensionless()),
        _ => UnitKnowledge::Unknown,
    }
}

fn binary_expr_unit(
    expr: &Expr,
    env: &NameMap<UnitKnowledge>,
    registry: &UnitRegistry,
    diagnostics: &mut Vec<Diagnostic>,
) -> (k: UnitKnowledge)
    requires
        expr.kind is Binary,
    ensures
        ({
            let o = infer_spec(registry.lookup_fn(), expr@, env.view());
            &&& k == o.0
            &&& diags_view(final(diagnostics)@) == diags_view(old(diagnostics)@) + o.1
        }),
    decreases expr, 0int,
{
    let ghost d0 = diags_view(diagnostics@);
    match &expr.kind {
        ExprKind::Binary { op, left, right } => {
            let l = infer_expr_unit(left, env, registry, diagnostics);
            let r = infer_expr_unit(right, env, registry, diagnostics);
            let ghost lo = infer_spec(registry.lookup_fn(), left@, env.view());
            let ghost ro = infer_spec(registry.lookup_fn(), right@, env.view());
            assert(diags_view(diagnostics@) =~= d0 + (lo.1 + ro.1));
            let k = binary_unit(*op, l, r, right, expr.span, diagnostics);
            proof {
                lemma_infer_binary_prefix(*op, l, r, right@, expr.span, d0, lo.1 + ro.1);
            }
            k
        },
        _ => UnitKnowledge::Unknown,
    }
}

fn call_expr_unit(
    expr: &Expr,
    env: &NameMap<UnitKnowledge>,
    registry: &UnitRegistry,
    diagnostics: &mut Vec<Diagnostic>,
) -> (k: UnitKnowledge)
    requires
        expr.kind is Call,
    ensures
        ({
            let o = infer_spec(registry.lookup_fn(), expr@, env.view());
            &&& k == o.0
            &&& diags_view(final(diagnostics)@) == diags_view(old(diagnostics)@) + o.1
        }),
    decreases expr, 0int,
{
    let ghost d0 = diags_view(diagnostics@);
    match &expr.kind {
        ExprKind::Call { callee, args } => {
            let to = String::from_str("to");
            proof {
                reveal_strlit("to");
                crate::ast::lemma_args_view_len(args@);
            }
            if *callee == to && args.len() == 2 {
                let source = match &args[0] {
                    CallArg::Positional(x) => infer_expr_unit(x, env, registry, diagnostics),
                    CallArg::Keyword { value, .. } => infer_expr_unit(value, env, registry, diagnostics),
                };
                let ghost so = infer_spec(registry.lookup_fn(), arg_expr(args_view(args@)[0]), env.view());
                let k = conversion_unit(source, arg_expression(&args[1]), registry, expr.span, diagnostics);
                proof {
                    lemma_infer_conversion_prefix(
                        registry.lookup_fn(),
                        source,
                        so.1,
                        arg_expr(args_view(args@)[1]),
                        expr.span,
                        d0,
                    );
                }
                k
            } else {
                assert(d0 + Seq::<SpecDiagnostic>::empty() =~= d0);
                UnitKnowledge::Unknown
            }
        },
        _ => UnitKnowledge::Unknown,
    }
}

/// Diagnostics found before do not change what a binary expression adds.
proof fn lemma_infer_binary_prefix(
    op: BinaryOp,
    l: UnitKnowledge,
    r: UnitKnowledge,
    right: SpecExpr,
    span: Span,
    before: Seq<SpecDiagnostic>,
    d: Seq<SpecDiagnostic>,
)
    ensures
        infer_binary(op, l, r, right, span, before + d).0 == infer_binary(op, l, r, right, span, d).0,
        infer_binary(op, l, r, right, span, before + d).1 =~= before + infer_binary(
            op,
            l,
            r,
            right,
            span,
            d,
        ).1,
{
    assert forall|x: SpecDiagnostic| (before + d).push(x) =~= before + d.push(x) by {}
}

proof fn lemma_infer_conversion_prefix(
    lookup: spec_fn(Seq<char>) -> Option<Unit>,
    source: UnitKnowledge,
    d: Seq<SpecDiagnostic>,
    target: SpecExpr,
    span: Span,
    before: Seq<SpecDiagnostic>,
)
    ensures
        infer_conversion(lookup, (source, before + d), target, span).0 == infer_conversion(
            lookup,
            (source, d),
            target,
            span,
        ).0,
        infer_conversion(lookup, (source, before + d), target, span).1 =~= before
            + infer_conversion(lookup, (source, d), target, span).1,
{
    assert forall|x: SpecDiagnostic| (before + d).push(x) =~= before + d.push(x) by {}
}

/// Checks one assignment, appending its diagnostics and recording the unit
/// of its right-hand side for the variable it assigns.
fn analyze_statement(
    statement: &Statement,
    env: &mut NameMap<UnitKnowledge>,
    registry: &UnitRegistry,
    diagnostics: &mut Vec<Diagnostic>,
)
    ensures
        ({
            let step = statement_step(registry.lookup_fn(), statement@, old(env).view());
            &&& diags_view(final(diagnostics)@) == diags_view(old(diagnostics)@) + step.0
            &&& final(env).view() == step.1
        }),
{
    let ghost d0 = diags_view(diagnostics@);
    match &statement.kind {
        StatementKind::Assignment { lhs, rhs } => {
            let lhs_unit = infer_expr_unit(lhs, env, registry, diagnostics);
            let rhs_unit = infer_expr_unit(rhs, env, registry, diagnostics);
            let ghost d2 = diags_view(diagnostics@);
            match (lhs_unit, rhs_unit) {
                (UnitKnowledge::Known(a), UnitKnowledge::Known(b)) => {
                    if !a.same_as(b) {
                        push_diagnostic(
                            diagnostics,
                            Diagnostic::from_str("Assignment has incompatible units", statement.span),
                        );
                        assert(d2.push(diags_view(diagnostics@).last()) =~= d2 + seq![
                            diags_view(diagnostics@).last(),
                        ]);
                    } else {
                        assert(d2 + Seq::<SpecDiagnostic>::empty() =~= d2);
                    }
                },
                _ => {
                    assert(d2 + Seq::<SpecDiagnostic>::empty() =~= d2);
                },
            }
            match &lhs.kind {
                ExprKind::Identifier(name) => {
                    env.insert(name.clone(), rhs_unit);
                },
                _ => {},
            }
            assert(diags_view(diagnostics@) =~= d0 + statement_step(
                registry.lookup_fn(),
                statement@,
                old(env).view(),
            ).0);
        },
    }
}

/// Checks the units of every statement: operands of `+` and `-`, the two
/// sides of each assignment, exponents, and `to(x, "unit")` conversions.
/// A variable takes the unit of the right-hand side last assigned to it;
/// what is not known raises nothing.
#[verifier::spinoff_prover]
#[verifier::rlimit(40)]
pub fn analyze_units(program: &Program) -> (diagnostics: Vec<Diagnostic>)
    ensures
        diags_view(diagnostics@) == analyze_from(default_lookup(), program@, 0, Map::empty()),
{
    let registry = UnitRegistry::new();
    let mut diagnostics: Vec<Diagnostic> = Vec::new();
    let mut env: NameMap<UnitKnowledge> = NameMap::new();
    let ghost stmts = program@;
    let ghost whole = analyze_from(default_lookup(), stmts, 0, Map::empty());
    let mut i: usize = 0;
    assert(diags_view(diagnostics@) =~= Seq::<SpecDiagnostic>::empty());
    assert(Seq::<SpecDiagnostic>::empty() + whole =~= whole);
    while i < program.statements.len()
        invariant
            i <= program.statements.len(),
            stmts == program@,
            stmts.len() == program.statements.len(),
            registry.lookup_fn() == default_lookup(),
            whole == analyze_from(default_lookup(), stmts, 0, Map::empty()),
            diags_view(diagnostics@) + analyze_from(default_lookup(), stmts, i as int, env.view())
                == whole,
        decreases program.statements.len() - i,
    {
        let ghost d0 = diags_view(diagnostics@);
        let ghost env0 = env.view();
        let ghost step = statement_step(default_lookup(), stmts[i as int], env0);
        let ghost rest = analyze_from(default_lookup(), stmts, i + 1, step.1);
        assert(analyze_from(default_lookup(), stmts, i as int, env0) == step.0 + rest);
        assert(stmts[i as int] == program.statements@[i as int]@);
        analyze_statement(&program.statements[i], &mut env, &registry, &mut diagnostics);
        assert(d0 + (step.0 + rest) =~= (d0 + step.0) + rest);
        i = i + 1;
    }
    assert(diags_view(diagnostics@) + Seq::<SpecDiagnostic>::empty() =~= diags_view(diagnostics@));
    diagnostics
}

} // verus!

verus! {

// ---------------------------------------------------------------------------
// Laws of the unit algebra
// ---------------------------------------------------------------------------

/// Multiplying dimensions does not depend on the order of the factors.
pub proof fn lemma_dimension_product_commutes(a: Dimension, b: Dimension)
    ensures
        dim_add(a, b) == dim_add(b, a),
{
}

/// Multiplying dimensions is associative wherever both groupings stay in
/// range.
pub proof fn lemma_dimension_product_associates(a: Dimension, b: Dimension, c: Dimension)
    requires
        dim_add(a, b) is Some,
        dim_add(b, c) is Some,
    ensures
        dim_add(dim_add(a, b).unwrap(), c) == dim_add(a, dim_add(b, c).unwrap()),
{
}

/// Dividing by a factor undoes multiplying by it.
pub proof fn lemma_dimension_quotient_undoes_product(a: Dimension, b: Dimension)
    requires
        dim_add(a, b) is Some,
    ensures
        dim_sub(dim_add(a, b).unwrap(), b) == Some(a),
{
}

/// The dimensionless dimension is neutral: multiplying or dividing by it,
/// or raising to the first power, changes nothing; the zeroth power of any
/// dimension is dimensionless.
pub proof fn lemma_dimensionless_is_neutral(a: Dimension)
    ensures
        dim_add(a, dimensionless_spec()) == Some(a),
        dim_sub(a, dimensionless_spec()) == Some(a),
        dim_scale(a, 1) == Some(a),
        dim_scale(a, 0) == Some(dimensionless_spec()),
{
}

/// Dividing a unit by a factor undoes multiplying by it, dimension and
/// scale alike.
pub proof fn lemma_unit_quotient_undoes_product(a: Unit, b: Unit)
    requires
        unit_mul(a, b) is Some,
    ensures
        unit_div(unit_mul(a, b).unwrap(), b) == Some(a),
{
    let c = unit_mul(a, b).unwrap();
    let e = Seq::new(8, |i: int| exps(c.scale)[i] - exps(b.scale)[i]);
    assert(e =~= exps(a.scale));
    lemma_scale_of(a.scale);
}

/// The first power of a unit is the unit itself.
pub proof fn lemma_unit_first_power(a: Unit)
    ensures
        unit_pow(a, 1) == Some(a),
{
    assert(Seq::new(8, |i: int| exps(a.scale)[i] * 1) =~= exps(a.scale));
    lemma_scale_of(a.scale);
}

} // verus!

verus! {

/// Raising an expression of known dimension to a plain integer literal `n`
/// multiplies every exponent of its dimension by `n`: `x [m] ^ 2` has
/// length 2, `y [kg/m^3] ^ 3` has mass 3 and length -9.
pub proof fn lemma_power_multiplies_exponents(
    lookup: spec_fn(Seq<char>) -> Option<Unit>,
    base: SpecExpr,
    exponent_text: Seq<char>,
    exponent_span: Span,
    span: Span,
    env: Map<Seq<char>, UnitKnowledge>,
    a: Dimension,
)
    requires
        infer_spec(lookup, base, env).0 == UnitKnowledge::Known(a),
        exponent_text.len() > 0,
        all_digits(exponent_text),
        digits_value(exponent_text) <= i32::MAX,
        fits32(a.mass * digits_value(exponent_text)),
        fits32(a.length * digits_value(exponent_text)),
        fits32(a.time * digits_value(exponent_text)),
        fits32(a.temperature * digits_value(exponent_text)),
    ensures
        ({
            let n = digits_value(exponent_text);
            let e = SpecExpr {
                kind: SpecExprKind::Binary {
                    op: BinaryOp::Power,
                    left: Box::new(base),
                    right: Box::new(
                        SpecExpr { kind: SpecExprKind::Number(exponent_text), span: exponent_span },
                    ),
                },
                span,
            };
            infer_spec(lookup, e, env).0 == UnitKnowledge::Known(
                Dimension {
                    mass: (a.mass * n) as i32,
                    length: (a.length * n) as i32,
                    time: (a.time * n) as i32,
                    temperature: (a.temperature * n) as i32,
                },
            )
        }),
{
    let n = digits_value(exponent_text);
    let right = SpecExpr { kind: SpecExprKind::Number(exponent_text), span: exponent_span };
    lemma_digits_value_nonneg(exponent_text);
    assert(!has_fraction_or_exponent(exponent_text)) by {
        if exponent_text.contains('.') {
            let i = choose|i: int| 0 <= i < exponent_text.len() && exponent_text[i] == '.';
            assert(is_digit_char(exponent_text[i]));
        }
        if exponent_text.contains('e') {
            let i = choose|i: int| 0 <= i < exponent_text.len() && exponent_text[i] == 'e';
            assert(is_digit_char(exponent_text[i]));
        }
        if exponent_text.contains('E') {
            let i = choose|i: int| 0 <= i < exponent_text.len() && exponent_text[i] == 'E';
            assert(is_digit_char(exponent_text[i]));
        }
    }
    assert(is_digit_char(exponent_text[0]));
    assert(parse_i32_spec(exponent_text) == Some(n as i32));
    assert(integer_exponent(right) == Some(n as i32));
    assert(infer_spec(lookup, right, env).0 == UnitKnowledge::Known(dimensionless_spec()));
}

} // verus!

verus! {

/// `p` to the power `e`, for `e` at least zero; one otherwise.
pub open spec fn prime_power(p: nat, e: int) -> nat
    decreases (if e > 0 { e } else { 0 }),
{
    if e <= 0 {
        1
    } else {
        p * prime_power(p, e - 1)
    }
}

/// The numerator of a scale factor: its primes with positive exponents.
pub open spec fn scale_numerator(s: Scale) -> nat {
    prime_power(2, s.two as int) * prime_power(3, s.three as int) * prime_power(5, s.five as int)
        * prime_power(7, s.seven as int) * prime_power(11, s.eleven as int) * prime_power(
        97,
        s.ninety_seven as int,
    ) * prime_power(127, s.one_hundred_twenty_seven as int) * prime_power(
        6073,
        s.six_thousand_seventy_three as int,
    )
}

/// The denominator of a scale factor: its primes with negative exponents.
pub open spec fn scale_denominator(s: Scale) -> nat {
    prime_power(2, -(s.two as int)) * prime_power(3, -(s.three as int)) * prime_power(
        5,
        -(s.five as int),
    ) * prime_power(7, -(s.seven as int)) * prime_power(11, -(s.eleven as int)) * prime_power(
        97,
        -(s.ninety_seven as int),
    ) * prime_power(127, -(s.one_hundred_twenty_seven as int)) * prime_power(
        6073,
        -(s.six_thousand_seventy_three as int),
    )
}

/// The unit `symbol` names in the default registry has the dimension with
/// these exponents and the SI factor `numerator / denominator`.
pub open spec fn registered_as(
    symbol: Seq<char>,
    mass: int,
    length: int,
    time: int,
    temperature: int,
    numerator: nat,
    denominator: nat,
) -> bool {
    default_unit(symbol) matches Some(u) && u.dimension.mass == mass && u.dimension.length
        == length && u.dimension.time == time && u.dimension.temperature == temperature
        && scale_numerator(u.scale) == numerator && scale_denominator(u.scale) == denominator
}

/// The fields of `sc` are its arguments, where they fit.
proof fn lemma_sc_fields(two: int, three: int, five: int, seven: int, eleven: int, n97: int, n127: int, n6073: int)
    requires
        fits64(two),
        fits64(three),
        fits64(five),
        fits64(seven),
        fits64(eleven),
        fits64(n97),
        fits64(n127),
        fits64(n6073),
    ensures
        sc(two, three, five, seven, eleven, n97, n127, n6073).two == two,
        sc(two, three, five, seven, eleven, n97, n127, n6073).three == three,
        sc(two, three, five, seven, eleven, n97, n127, n6073).five == five,
        sc(two, three, five, seven, eleven, n97, n127, n6073).seven == seven,
        sc(two, three, five, seven, eleven, n97, n127, n6073).eleven == eleven,
        sc(two, three, five, seven, eleven, n97, n127, n6073).ninety_seven == n97,
        sc(two, three, five, seven, eleven, n97, n127, n6073).one_hundred_twenty_seven == n127,
        sc(two, three, five, seven, eleven, n97, n127, n6073).six_thousand_seventy_three == n6073,
{
}

proof fn lemma_product_of_factors(
    a: nat, b: nat, c: nat, d: nat, e: nat, f: nat, g: nat, h: nat,
    va: nat, vb: nat, vc: nat, vd: nat, ve: nat, vf: nat, vg: nat, vh: nat,
)
    requires
        a == va,
        b == vb,
        c == vc,
        d == vd,
        e == ve,
        f == vf,
        g == vg,
        h == vh,
    ensures
        a * b * c * d * e * f * g * h == va * vb * vc * vd * ve * vf * vg * vh,
{
}

/// Each unit of the default registry is its SI definition: m, s, kg and K
/// are base units; cm is 1/100 m, mm 1/1000 m, km 1000 m, in 0.0254 m
/// (127/5000) and ft 0.3048 m (381/1250); min is 60 s and hr 3600 s; g is 1/1000 kg and lbm
/// 0.45359237 kg.
pub proof fn lemma_default_units_are_si()
    ensures
        registered_as("m"@, 0, 1, 0, 0, 1, 1),
        registered_as("cm"@, 0, 1, 0, 0, 1, 100),
        registered_as("mm"@, 0, 1, 0, 0, 1, 1000),
        registered_as("km"@, 0, 1, 0, 0, 1000, 1),
        registered_as("in"@, 0, 1, 0, 0, 127, 5000),
        registered_as("ft"@, 0, 1, 0, 0, 381, 1250),
        registered_as("s"@, 0, 0, 1, 0, 1, 1),
        registered_as("min"@, 0, 0, 1, 0, 60, 1),
        registered_as("hr"@, 0, 0, 1, 0, 3600, 1),
        registered_as("kg"@, 1, 0, 0, 0, 1, 1),
        registered_as("g"@, 1, 0, 0, 0, 1, 1000),
        registered_as("lbm"@, 1, 0, 0, 0, 45359237, 100000000),
        registered_as("K"@, 0, 0, 0, 1, 1, 1),
{
    assert(scale_numerator(sc(0, 0, 0, 0, 0, 0, 0, 0)) == 1) by {
        lemma_sc_fields(0, 0, 0, 0, 0, 0, 0, 0);
        reveal_with_fuel(prime_power, 10);
        assert(prime_power(2, (0)) == 1);
        assert(prime_power(3, (0)) == 1);
        assert(prime_power(5, (0)) == 1);
        assert(prime_power(7, (0)) == 1);
        assert(prime_power(11, (0)) == 1);
        assert(prime_power(97, (0)) == 1);
        assert(prime_power(127, (0)) == 1);
        assert(prime_power(6073, (0)) == 1);
        lemma_product_of_factors(prime_power(2, (0)), prime_power(3, (0)), prime_power(5, (0)), prime_power(7, (0)), prime_power(11, (0)), prime_power(97, (0)), prime_power(127, (0)), prime_power(6073, (0)), 1, 1, 1, 1, 1, 1, 1, 1);
    }
    assert(scale_denominator(sc(0, 0, 0, 0, 0, 0, 0, 0)) == 1) by {
        lemma_sc_fields(0, 0, 0, 0, 0, 0, 0, 0);
        reveal_with_fuel(prime_power, 10);
        assert(prime_power(2, -(0)) == 1);
        assert(prime_power(3, -(0)) == 1);
        assert(prime_power(5, -(0)) == 1);
        assert(prime_power(7, -(0)) == 1);
        assert(prime_power(11, -(0)) == 1);
        assert(prime_power(97, -(0)) == 1);
        assert(prime_power(127, -(0)) == 1);
        assert(prime_power(6073, -(0)) == 1);
        lemma_product_of_factors(prime_power(2, -(0)), prime_power(3, -(0)), prime_power(5, -(0)), prime_power(7, -(0)), prime_power(11, -(0)), prime_power(97, -(0)), prime_power(127, -(0)), prime_power(6073, -(0)), 1, 1, 1, 1, 1, 1, 1, 1);
    }
    assert(scale_numerator(sc(-2, 0, -2, 0, 0, 0, 0, 0)) == 1) by {
        lemma_sc_fields(-2, 0, -2, 0, 0, 0, 0, 0);
        reveal_with_fuel(prime_power, 10);
        assert(prime_power(2, (-2)) == 1);
        assert(prime_power(3, (0)) == 1);
        assert(prime_power(5, (-2)) == 1);
        assert(prime_power(7, (0)) == 1);
        assert(prime_power(11, (0)) == 1);
        assert(prime_power(97, (0)) == 1);
        assert(prime_power(127, (0)) == 1);
        assert(prime_power(6073, (0)) == 1);
        lemma_product_of_factors(prime_power(2, (-2)), prime_power(3, (0)), prime_power(5, (-2)), prime_power(7, (0)), prime_power(11, (0)), prime_power(97, (0)), prime_power(127, (0)), prime_power(6073, (0)), 1, 1, 1, 1, 1, 1, 1, 1);
    }
    assert(scale_denominator(sc(-2, 0, -2, 0, 0, 0, 0, 0)) == 100) by {
        lemma_sc_fields(-2, 0, -2, 0, 0, 0, 0, 0);
        reveal_with_fuel(prime_power, 10);
        assert(prime_power(2, -(-2)) == 4);
        assert(prime_power(3, -(0)) == 1);
        assert(prime_power(5, -(-2)) == 25);
        assert(prime_power(7, -(0)) == 1);
        assert(prime_power(11, -(0)) == 1);
        assert(prime_power(97, -(0)) == 1);
        assert(prime_power(127, -(0)) == 1);
        assert(prime_power(6073, -(0)) == 1);
        lemma_product_of_factors(prime_power(2, -(-2)), prime_power(3, -(0)), prime_power(5, -(-2)), prime_power(7, -(0)), prime_power(11, -(0)), prime_power(97, -(0)), prime_power(127, -(0)), prime_power(6073, -(0)), 4, 1, 25, 1, 1, 1, 1, 1);
    }
    assert(scale_numerator(sc(-3, 0, -3, 0, 0, 0, 0, 0)) == 1) by {
        lemma_sc_fields(-3, 0, -3, 0, 0, 0, 0, 0);
        reveal_with_fuel(prime_power, 10);
        assert(prime_power(2, (-3)) == 1);
        assert(prime_power(3, (0)) == 1);
        assert(prime_power(5, (-3)) == 1);
        assert(prime_power(7, (0)) == 1);
        assert(prime_power(11, (0)) == 1);
        assert(prime_power(97, (0)) == 1);
        assert(prime_power(127, (0)) == 1);
        assert(prime_power(6073, (0)) == 1);
        lemma_product_of_factors(prime_power(2, (-3)), prime_power(3, (0)), prime_power(5, (-3)), prime_power(7, (0)), prime_power(11, (0)), prime_power(97, (0)), prime_power(127, (0)), prime_power(6073, (0)), 1, 1, 1, 1, 1, 1, 1, 1);
    }
    assert(scale_denominator(sc(-3, 0, -3, 0, 0, 0, 0, 0)) == 1000) by {
        lemma_sc_fields(-3, 0, -3, 0, 0, 0, 0, 0);
        reveal_with_fuel(prime_power, 10);
        assert(prime_power(2, -(-3)) == 8);
        assert(prime_power(3, -(0)) == 1);
        assert(prime_power(5, -(-3)) == 125);
        assert(prime_power(7, -(0)) == 1);
        assert(prime_power(11, -(0)) == 1);
        assert(prime_power(97, -(0)) == 1);
        assert(prime_power(127, -(0)) == 1);
        assert(prime_power(6073, -(0)) == 1);
        lemma_product_of_factors(prime_power(2, -(-3)), prime_power(3, -(0)), prime_power(5, -(-3)), prime_power(7, -(0)), prime_power(11, -(0)), prime_power(97, -(0)), prime_power(127, -(0)), prime_power(6073, -(0)), 8, 1, 125, 1, 1, 1, 1, 1);
    }
    assert(scale_numerator(sc(3, 0, 3, 0, 0, 0, 0, 0)) == 1000) by {
        lemma_sc_fields(3, 0, 3, 0, 0, 0, 0, 0);
        reveal_with_fuel(prime_power, 10);
        assert(prime_power(2, (3)) == 8);
        assert(prime_power(3, (0)) == 1);
        assert(prime_power(5, (3)) == 125);
        assert(prime_power(7, (0)) == 1);
        assert(prime_power(11, (0)) == 1);
        assert(prime_power(97, (0)) == 1);
        assert(prime_power(127, (0)) == 1);
        assert(prime_power(6073, (0)) == 1);
        lemma_product_of_factors(prime_power(2, (3)), prime_power(3, (0)), prime_power(5, (3)), prime_power(7, (0)), prime_power(11, (0)), prime_power(97, (0)), prime_power(127, (0)), prime_power(6073, (0)), 8, 1, 125, 1, 1, 1, 1, 1);
    }
    assert(scale_denominator(sc(3, 0, 3, 0, 0, 0, 0, 0)) == 1) by {
        lemma_sc_fields(3, 0, 3, 0, 0, 0, 0, 0);
        reveal_with_fuel(prime_power, 10);
        assert(prime_power(2, -(3)) == 1);
        assert(prime_power(3, -(0)) == 1);
        assert(prime_power(5, -(3)) == 1);
        assert(prime_power(7, -(0)) == 1);
        assert(prime_power(11, -(0)) == 1);
        assert(prime_power(97, -(0)) == 1);
        assert(prime_power(127, -(0)) == 1);
        assert(prime_power(6073, -(0)) == 1);
        lemma_product_of_factors(prime_power(2, -(3)), prime_power(3, -(0)), prime_power(5, -(3)), prime_power(7, -(0)), prime_power(11, -(0)), prime_power(97, -(0)), prime_power(127, -(0)), prime_power(6073, -(0)), 1, 1, 1, 1, 1, 1, 1, 1);
    }
    assert(scale_numerator(sc(-3, 0, -4, 0, 0, 0, 1, 0)) == 127) by {
        lemma_sc_fields(-3, 0, -4, 0, 0, 0, 1, 0);
        reveal_with_fuel(prime_power, 10);
        assert(prime_power(2, (-3)) == 1);
        assert(prime_power(3, (0)) == 1);
        assert(prime_power(5, (-4)) == 1);
        assert(prime_power(7, (0)) == 1);
        assert(prime_power(11, (0)) == 1);
        assert(prime_power(97, (0)) == 1);
        assert(prime_power(127, (1)) == 127);
        assert(prime_power(6073, (0)) == 1);
        lemma_product_of_factors(prime_power(2, (-3)), prime_power(3, (0)), prime_power(5, (-4)), prime_power(7, (0)), prime_power(11, (0)), prime_power(97, (0)), prime_power(127, (1)), prime_power(6073, (0)), 1, 1, 1, 1, 1, 1, 127, 1);
    }
    assert(scale_denominator(sc(-3, 0, -4, 0, 0, 0, 1, 0)) == 5000) by {
        lemma_sc_fields(-3, 0, -4, 0, 0, 0, 1, 0);
        reveal_with_fuel(prime_power, 10);
        assert(prime_power(2, -(-3)) == 8);
        assert(prime_power(3, -(0)) == 1);
        assert(prime_power(5, -(-4)) == 625);
        assert(prime_power(7, -(0)) == 1);
        assert(prime_power(11, -(0)) == 1);
        assert(prime_power(97, -(0)) == 1);
        assert(prime_power(127, -(1)) == 1);
        assert(prime_power(6073, -(0)) == 1);
        lemma_product_of_factors(prime_power(2, -(-3)), prime_power(3, -(0)), prime_power(5, -(-4)), prime_power(7, -(0)), prime_power(11, -(0)), prime_power(97, -(0)), prime_power(127, -(1)), prime_power(6073, -(0)), 8, 1, 625, 1, 1, 1, 1, 1);
    }
    assert(scale_numerator(sc(-1, 1, -4, 0, 0, 0, 1, 0)) == 381) by {
        lemma_sc_fields(-1, 1, -4, 0, 0, 0, 1, 0);
        reveal_with_fuel(prime_power, 10);
        assert(prime_power(2, (-1)) == 1);
        assert(prime_power(3, (1)) == 3);
        assert(prime_power(5, (-4)) == 1);
        assert(prime_power(7, (0)) == 1);
        assert(prime_power(11, (0)) == 1);
        assert(prime_power(97, (0)) == 1);
        assert(prime_power(127, (1)) == 127);
        assert(prime_power(6073, (0)) == 1);
        lemma_product_of_factors(prime_power(2, (-1)), prime_power(3, (1)), prime_power(5, (-4)), prime_power(7, (0)), prime_power(11, (0)), prime_power(97, (0)), prime_power(127, (1)), prime_power(6073, (0)), 1, 3, 1, 1, 1, 1, 127, 1);
    }
    assert(scale_denominator(sc(-1, 1, -4, 0, 0, 0, 1, 0)) == 1250) by {
        lemma_sc_fields(-1, 1, -4, 0, 0, 0, 1, 0);
        reveal_with_fuel(prime_power, 10);
        assert(prime_power(2, -(-1)) == 2);
        assert(prime_power(3, -(1)) == 1);
        assert(prime_power(5, -(-4)) == 625);
        assert(prime_power(7, -(0)) == 1);
        assert(prime_power(11, -(0)) == 1);
        assert(prime_power(97, -(0)) == 1);
        assert(prime_power(127, -(1)) == 1);
        assert(prime_power(6073, -(0)) == 1);
        lemma_product_of_factors(prime_power(2, -(-1)), prime_power(3, -(1)), prime_power(5, -(-4)), prime_power(7, -(0)), prime_power(11, -(0)), prime_power(97, -(0)), prime_power(127, -(1)), prime_power(6073, -(0)), 2, 1, 625, 1, 1, 1, 1, 1);
    }
    assert(scale_numerator(sc(2, 1, 1, 0, 0, 0, 0, 0)) == 60) by {
        lemma_sc_fields(2, 1, 1, 0, 0, 0, 0, 0);
        reveal_with_fuel(prime_power, 10);
        assert(prime_power(2, (2)) == 4);
        assert(prime_power(3, (1)) == 3);
        assert(prime_power(5, (1)) == 5);
        assert(prime_power(7, (0)) == 1);
        assert(prime_power(11, (0)) == 1);
        assert(prime_power(97, (0)) == 1);
        assert(prime_power(127, (0)) == 1);
        assert(prime_power(6073, (0)) == 1);
        lemma_product_of_factors(prime_power(2, (2)), prime_power(3, (1)), prime_power(5, (1)), prime_power(7, (0)), prime_power(11, (0)), prime_power(97, (0)), prime_power(127, (0)), prime_power(6073, (0)), 4, 3, 5, 1, 1, 1, 1, 1);
    }
    assert(scale_denominator(sc(2, 1, 1, 0, 0, 0, 0, 0)) == 1) by {
        lemma_sc_fields(2, 1, 1, 0, 0, 0, 0, 0);
        reveal_with_fuel(prime_power, 10);
        assert(prime_power(2, -(2)) == 1);
        assert(prime_power(3, -(1)) == 1);
        assert(prime_power(5, -(1)) == 1);
        assert(prime_power(7, -(0)) == 1);
        assert(prime_power(11, -(0)) == 1);
        assert(prime_power(97, -(0)) == 1);
        assert(prime_power(127, -(0)) == 1);
        assert(prime_power(6073, -(0)) == 1);
        lemma_product_of_factors(prime_power(2, -(2)), prime_power(3, -(1)), prime_power(5, -(1)), prime_power(7, -(0)), prime_power(11, -(0)), prime_power(97, -(0)), prime_power(127, -(0)), prime_power(6073, -(0)), 1, 1, 1, 1, 1, 1, 1, 1);
    }
    assert(scale_numerator(sc(4, 2, 2, 0, 0, 0, 0, 0)) == 3600) by {
        lemma_sc_fields(4, 2, 2, 0, 0, 0, 0, 0);
        reveal_with_fuel(prime_power, 10);
        assert(prime_power(2, (4)) == 16);
        assert(prime_power(3, (2)) == 9);
        assert(prime_power(5, (2)) == 25);
        assert(prime_power(7, (0)) == 1);
        assert(prime_power(11, (0)) == 1);
        assert(prime_power(97, (0)) == 1);
        assert(prime_power(127, (0)) == 1);
        assert(prime_power(6073, (0)) == 1);
        lemma_product_of_factors(prime_power(2, (4)), prime_power(3, (2)), prime_power(5, (2)), prime_power(7, (0)), prime_power(11, (0)), prime_power(97, (0)), prime_power(127, (0)), prime_power(6073, (0)), 16, 9, 25, 1, 1, 1, 1, 1);
    }
    assert(scale_denominator(sc(4, 2, 2, 0, 0, 0, 0, 0)) == 1) by {
        lemma_sc_fields(4, 2, 2, 0, 0, 0, 0, 0);
        reveal_with_fuel(prime_power, 10);
        assert(prime_power(2, -(4)) == 1);
        assert(prime_power(3, -(2)) == 1);
        assert(prime_power(5, -(2)) == 1);
        assert(prime_power(7, -(0)) == 1);
        assert(prime_power(11, -(0)) == 1);
        assert(prime_power(97, -(0)) == 1);
        assert(prime_power(127, -(0)) == 1);
        assert(prime_power(6073, -(0)) == 1);
        lemma_product_of_factors(prime_power(2, -(4)), prime_power(3, -(2)), prime_power(5, -(2)), prime_power(7, -(0)), prime_power(11, -(0)), prime_power(97, -(0)), prime_power(127, -(0)), prime_power(6073, -(0)), 1, 1, 1, 1, 1, 1, 1, 1);
    }
    assert(scale_numerator(sc(-8, 0, -8, 1, 1, 1, 0, 1)) == 45359237) by {
        lemma_sc_fields(-8, 0, -8, 1, 1, 1, 0, 1);
        reveal_with_fuel(prime_power, 10);
        assert(prime_power(2, (-8)) == 1);
        assert(prime_power(3, (0)) == 1);
        assert(prime_power(5, (-8)) == 1);
        assert(prime_power(7, (1)) == 7);
        assert(prime_power(11, (1)) == 11);
        assert(prime_power(97, (1)) == 97);
        assert(prime_power(127, (0)) == 1);
        assert(prime_power(6073, (1)) == 6073);
        lemma_product_of_factors(prime_power(2, (-8)), prime_power(3, (0)), prime_power(5, (-8)), prime_power(7, (1)), prime_power(11, (1)), prime_power(97, (1)), prime_power(127, (0)), prime_power(6073, (1)), 1, 1, 1, 7, 11, 97, 1, 6073);
    }
    assert(scale_denominator(sc(-8, 0, -8, 1, 1, 1, 0, 1)) == 100000000) by {
        lemma_sc_fields(-8, 0, -8, 1, 1, 1, 0, 1);
        reveal_with_fuel(prime_power, 10);
        assert(prime_power(2, -(-8)) == 256);
        assert(prime_power(3, -(0)) == 1);
        assert(prime_power(5, -(-8)) == 390625);
        assert(prime_power(7, -(1)) == 1);
        assert(prime_power(11, -(1)) == 1);
        assert(prime_power(97, -(1)) == 1);
        assert(prime_power(127, -(0)) == 1);
        assert(prime_power(6073, -(1)) == 1);
        lemma_product_of_factors(prime_power(2, -(-8)), prime_power(3, -(0)), prime_power(5, -(-8)), prime_power(7, -(1)), prime_power(11, -(1)), prime_power(97, -(1)), prime_power(127, -(0)), prime_power(6073, -(1)), 256, 1, 390625, 1, 1, 1, 1, 1);
    }
    assert(default_unit("m"@) == Some(length_unit(sc(0, 0, 0, 0, 0, 0, 0, 0)))) by {
        reveal_strlit("m");
        reveal_strlit("cm");
        reveal_strlit("mm");
        reveal_strlit("km");
        reveal_strlit("in");
        reveal_strlit("ft");
        reveal_strlit("s");
        reveal_strlit("min");
        reveal_strlit("hr");
        reveal_strlit("kg");
        reveal_strlit("g");
        reveal_strlit("lbm");
        reveal_strlit("K");
        let n = "m"@;
        assert(n.len() == 1 && n[0] == 'm');
    }
    assert(default_unit("cm"@) == Some(length_unit(sc(-2, 0, -2, 0, 0, 0, 0, 0)))) by {
        reveal_strlit("m");
        reveal_strlit("cm");
        reveal_strlit("mm");
        reveal_strlit("km");
        reveal_strlit("in");
        reveal_strlit("ft");
        reveal_strlit("s");
        reveal_strlit("min");
        reveal_strlit("hr");
        reveal_strlit("kg");
        reveal_strlit("g");
        reveal_strlit("lbm");
        reveal_strlit("K");
        let n = "cm"@;
        assert(n.len() == 2 && n[0] == 'c' && n[1] == 'm');
    }
    assert(default_unit("mm"@) == Some(length_unit(sc(-3, 0, -3, 0, 0, 0, 0, 0)))) by {
        reveal_strlit("m");
        reveal_strlit("cm");
        reveal_strlit("mm");
        reveal_strlit("km");
        reveal_strlit("in");
        reveal_strlit("ft");
        reveal_strlit("s");
        reveal_strlit("min");
        reveal_strlit("hr");
        reveal_strlit("kg");
        reveal_strlit("g");
        reveal_strlit("lbm");
        reveal_strlit("K");
        let n = "mm"@;
        assert(n.len() == 2 && n[0] == 'm' && n[1] == 'm');
    }
    assert(default_unit("km"@) == Some(length_unit(sc(3, 0, 3, 0, 0, 0, 0, 0)))) by {
        reveal_strlit("m");
        reveal_strlit("cm");
        reveal_strlit("mm");
        reveal_strlit("km");
        reveal_strlit("in");
        reveal_strlit("ft");
        reveal_strlit("s");
        reveal_strlit("min");
        reveal_strlit("hr");
        reveal_strlit("kg");
        reveal_strlit("g");
        reveal_strlit("lbm");
        reveal_strlit("K");
        let n = "km"@;
        assert(n.len() == 2 && n[0] == 'k' && n[1] == 'm');
    }
    assert(default_unit("in"@) == Some(length_unit(sc(-3, 0, -4, 0, 0, 0, 1, 0)))) by {
        reveal_strlit("m");
        reveal_strlit("cm");
        reveal_strlit("mm");
        reveal_strlit("km");
        reveal_strlit("in");
        reveal_strlit("ft");
        reveal_strlit("s");
        reveal_strlit("min");
        reveal_strlit("hr");
        reveal_strlit("kg");
        reveal_strlit("g");
        reveal_strlit("lbm");
        reveal_strlit("K");
        let n = "in"@;
        assert(n.len() == 2 && n[0] == 'i' && n[1] == 'n');
    }
    assert(default_unit("ft"@) == Some(length_unit(sc(-1, 1, -4, 0, 0, 0, 1, 0)))) by {
        reveal_strlit("m");
        reveal_strlit("cm");
        reveal_strlit("mm");
        reveal_strlit("km");
        reveal_strlit("in");
        reveal_strlit("ft");
        reveal_strlit("s");
        reveal_strlit("min");
        reveal_strlit("hr");
        reveal_strlit("kg");
        reveal_strlit("g");
        reveal_strlit("lbm");
        reveal_strlit("K");
        let n = "ft"@;
        assert(n.len() == 2 && n[0] == 'f' && n[1] == 't');
    }
    assert(default_unit("s"@) == Some(time_unit(sc(0, 0, 0, 0, 0, 0, 0, 0)))) by {
        reveal_strlit("m");
        reveal_strlit("cm");
        reveal_strlit("mm");
        reveal_strlit("km");
        reveal_strlit("in");
        reveal_strlit("ft");
        reveal_strlit("s");
        reveal_strlit("min");
        reveal_strlit("hr");
        reveal_strlit("kg");
        reveal_strlit("g");
        reveal_strlit("lbm");
        reveal_strlit("K");
        let n = "s"@;
        assert(n.len() == 1 && n[0] == 's');
    }
    assert(default_unit("min"@) == Some(time_unit(sc(2, 1, 1, 0, 0, 0, 0, 0)))) by {
        reveal_strlit("m");
        reveal_strlit("cm");
        reveal_strlit("mm");
        reveal_strlit("km");
        reveal_strlit("in");
        reveal_strlit("ft");
        reveal_strlit("s");
        reveal_strlit("min");
        reveal_strlit("hr");
        reveal_strlit("kg");
        reveal_strlit("g");
        reveal_strlit("lbm");
        reveal_strlit("K");
        let n = "min"@;
        assert(n.len() == 3 && n[0] == 'm' && n[1] == 'i' && n[2] == 'n');
    }
    assert(default_unit("hr"@) == Some(time_unit(sc(4, 2, 2, 0, 0, 0, 0, 0)))) by {
        reveal_strlit("m");
        reveal_strlit("cm");
        reveal_strlit("mm");
        reveal_strlit("km");
        reveal_strlit("in");
        reveal_strlit("ft");
        reveal_strlit("s");
        reveal_strlit("min");
        reveal_strlit("hr");
        reveal_strlit("kg");
        reveal_strlit("g");
        reveal_strlit("lbm");
        reveal_strlit("K");
        let n = "hr"@;
        assert(n.len() == 2 && n[0] == 'h' && n[1] == 'r');
    }
    assert(default_unit("kg"@) == Some(mass_unit(sc(0, 0, 0, 0, 0, 0, 0, 0)))) by {
        reveal_strlit("m");
        reveal_strlit("cm");
        reveal_strlit("mm");
        reveal_strlit("km");
        reveal_strlit("in");
        reveal_strlit("ft");
        reveal_strlit("s");
        reveal_strlit("min");
        reveal_strlit("hr");
        reveal_strlit("kg");
        reveal_strlit("g");
        reveal_strlit("lbm");
        reveal_strlit("K");
        let n = "kg"@;
        assert(n.len() == 2 && n[0] == 'k' && n[1] == 'g');
    }
    assert(default_unit("g"@) == Some(mass_unit(sc(-3, 0, -3, 0, 0, 0, 0, 0)))) by {
        reveal_strlit("m");
        reveal_strlit("cm");
        reveal_strlit("mm");
        reveal_strlit("km");
        reveal_strlit("in");
        reveal_strlit("ft");
        reveal_strlit("s");
        reveal_strlit("min");
        reveal_strlit("hr");
        reveal_strlit("kg");
        reveal_strlit("g");
        reveal_strlit("lbm");
        reveal_strlit("K");
        let n = "g"@;
        assert(n.len() == 1 && n[0] == 'g');
    }
    assert(default_unit("lbm"@) == Some(mass_unit(sc(-8, 0, -8, 1, 1, 1, 0, 1)))) by {
        reveal_strlit("m");
        reveal_strlit("cm");
        reveal_strlit("mm");
        reveal_strlit("km");
        reveal_strlit("in");
        reveal_strlit("ft");
        reveal_strlit("s");
        reveal_strlit("min");
        reveal_strlit("hr");
        reveal_strlit("kg");
        reveal_strlit("g");
        reveal_strlit("lbm");
        reveal_strlit("K");
        let n = "lbm"@;
        assert(n.len() == 3 && n[0] == 'l' && n[1] == 'b' && n[2] == 'm');
    }
    assert(default_unit("K"@) == Some(temperature_unit(sc(0, 0, 0, 0, 0, 0, 0, 0)))) by {
        reveal_strlit("m");
        reveal_strlit("cm");
        reveal_strlit("mm");
        reveal_strlit("km");
        reveal_strlit("in");
        reveal_strlit("ft");
        reveal_strlit("s");
        reveal_strlit("min");
        reveal_strlit("hr");
        reveal_strlit("kg");
        reveal_strlit("g");
        reveal_strlit("lbm");
        reveal_strlit("K");
        let n = "K"@;
        assert(n.len() == 1 && n[0] == 'K');
    }
}

} // verus!
