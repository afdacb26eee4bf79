//! The property facade: which property is asked for, of which state, and
//! the errors a property backend reports.
use vstd::prelude::*;
use crate::text::{chars_of, lower_equals, lower_seq, to_ascii_lowercase};

verus! {

broadcast use vstd::string::group_string_axioms;

/// Output property requested from a provider.
#[derive(Debug, Clone, Copy, PartialEq, Eq, Hash, Structural)]
pub enum Prop {
    T,
    P,
    H,
    S,
    D,
}

/// Input state variable of a property query.
#[derive(Debug, Clone, Copy, PartialEq, Eq, Hash, Structural)]
pub enum StateVar {
    T,
    P,
    H,
    S,
    D,
}

/// User-facing error of a property request.
#[derive(Debug, Clone, PartialEq, Eq)]
pub enum PropsError {
    InvalidInput(String),
    NotAvailable(String),
    Provider(String),
}

pub open spec fn props_error_text(e: PropsError) -> Seq<char> {
    match e {
        PropsError::InvalidInput(m) => "Invalid property input: "@ + m@,
        PropsError::NotAvailable(m) => "Requested property is not available: "@ + m@,
        PropsError::Provider(m) => "Property provider error: "@ + m@,
    }
}

impl PropsError {
    /// The text shown to users.
    pub fn to_string(&self) -> (s: String)
        ensures
            s@ == props_error_text(*self),
    {
        match self {
            PropsError::InvalidInput(m) => {
                let mut s = String::from_str("Invalid property input: ");
                s.append(m.as_str());
                s
            },
            PropsError::NotAvailable(m) => {
                let mut s = String::from_str("Requested property is not available: ");
                s.append(m.as_str());
                s
            },
            PropsError::Provider(m) => {
                let mut s = String::from_str("Property provider error: ");
                s.append(m.as_str());
                s
            },
        }
    }
}

/// The error a property backend reports, from the kind it names:
/// an unknown fluid or an invalid input pair is invalid input, a state out
/// of range is not available, anything else is the provider's own error.
pub open spec fn backend_error_spec(kind: Seq<char>, message: String) -> PropsError {
    if kind == "unknown_fluid"@ || kind == "invalid_pair"@ {
        PropsError::InvalidInput(message)
    } else if kind == "out_of_range"@ {
        PropsError::NotAvailable(message)
    } else {
        PropsError::Provider(message)
    }
}

pub fn backend_error(kind: &str, message: String) -> (e: PropsError)
    ensures
        e == backend_error_spec(kind@, message),
{
    let k = chars_of(kind);
    if crate::text::chars_equal(&k, &chars_of("unknown_fluid")) || crate::text::chars_equal(
        &k,
        &chars_of("invalid_pair"),
    ) {
        PropsError::InvalidInput(message)
    } else if crate::text::chars_equal(&k, &chars_of("out_of_range")) {
        PropsError::NotAvailable(message)
    } else {
        PropsError::Provider(message)
    }
}

pub open spec fn prop_symbol_spec(p: Prop) -> Seq<char> {
    match p {
        Prop::T => "T"@,
        Prop::P => "P"@,
        Prop::H => "H"@,
        Prop::S => "S"@,
        Prop::D => "D"@,
    }
}

pub open spec fn state_symbol_spec(v: StateVar) -> Seq<char> {
    match v {
        StateVar::T => "T"@,
        StateVar::P => "P"@,
        StateVar::H => "H"@,
        StateVar::S => "S"@,
        StateVar::D => "D"@,
    }
}

/// The symbol a backend knows an output property by.
pub fn prop_to_symbol(p: Prop) -> (s: &'static str)
    ensures
        s@ == prop_symbol_spec(p),
{
    match p {
        Prop::T => "T",
        Prop::P => "P",
        Prop::H => "H",
        Prop::S => "S",
        Prop::D => "D",
    }
}

/// The symbol a backend knows a state variable by.
pub fn state_to_symbol(v: StateVar) -> (s: &'static str)
    ensures
        s@ == state_symbol_spec(v),
{
    match v {
        StateVar::T => "T",
        StateVar::P => "P",
        StateVar::H => "H",
        StateVar::S => "S",
        StateVar::D => "D",
    }
}

/// The state variable a keyword names, case-insensitively: t, p, h, s,
/// and d or rho for density.
pub open spec fn state_var_spec(key: Seq<char>) -> Option<StateVar> {
    let k = lower_seq(key);
    if k == "t"@ {
        Some(StateVar::T)
    } else if k == "p"@ {
        Some(StateVar::P)
    } else if k == "h"@ {
        Some(StateVar::H)
    } else if k == "s"@ {
        Some(StateVar::S)
    } else if k == "d"@ || k == "rho"@ {
        Some(StateVar::D)
    } else {
        None
    }
}

pub fn parse_state_var(key: &str) -> (r: Option<StateVar>)
    ensures
        r == state_var_spec(key@),
{
    let k = to_ascii_lowercase(key);
    if lower_equals(&k, "t") {
        Some(StateVar::T)
    } else if lower_equals(&k, "p") {
        Some(StateVar::P)
    } else if lower_equals(&k, "h") {
        Some(StateVar::H)
    } else if lower_equals(&k, "s") {
        Some(StateVar::S)
    } else if lower_equals(&k, "d") || lower_equals(&k, "rho") {
        Some(StateVar::D)
    } else {
        None
    }
}

/// The two inputs, in order, of the positional property functions:
/// temperature and pressure for h, s and rho; pressure and enthalpy for the
/// temperature; temperature and enthalpy for the pressure.
pub open spec fn positional_inputs_spec(out: Prop) -> (StateVar, StateVar) {
    match out {
        Prop::T => (StateVar::P, StateVar::H),
        Prop::P => (StateVar::T, StateVar::H),
        _ => (StateVar::T, StateVar::P),
    }
}

pub fn positional_inputs(out: Prop) -> (r: (StateVar, StateVar))
    ensures
        r == positional_inputs_spec(out),
{
    match out {
        Prop::T => (StateVar::P, StateVar::H),
        Prop::P => (StateVar::T, StateVar::H),
        _ => (StateVar::T, StateVar::P),
    }
}

} // verus!
