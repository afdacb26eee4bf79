//! The functions an equation may call, and what a call asks of the solver
//! before anything is computed: which function, which fluid, which
//! arguments to evaluate for which state variable, and which mistake to
//! report.
use vstd::prelude::*;
use crate::ast::{CallArg, Expr, ExprKind, SpecCallArg, SpecExpr, SpecExprKind, arg_view, args_view};
use crate::names::NameMap;
use crate::props::{
    Prop, PropsError, StateVar, parse_state_var, positional_inputs, positional_inputs_spec,
    props_error_text, state_var_spec,
};
use crate::text::{lower_equals, lower_seq, to_ascii_lowercase};
use crate::units::{Unit, UnitRegistry, default_lookup, parse_unit_spec};

verus! {

#[derive(Debug, Clone, Copy, PartialEq, Eq, Structural)]
pub enum MathFunction {
    Sin,
    Cos,
    Tan,
    Exp,
    Ln,
    Sqrt,
    Abs,
}

/// The three families of callable functions: one-argument math, the
/// positional property functions `h(fluid, T, P)` and the like, and the
/// property functions with state keywords, `Enthalpy(fluid, T=.., P=..)`.
#[derive(Debug, Clone, Copy, PartialEq, Eq, Structural)]
pub enum FunctionKind {
    Math(MathFunction),
    Positional(Prop),
    Keyword(Prop),
}

/// The function a lower-cased name denotes.
pub open spec fn function_kind_spec(name: Seq<char>) -> Option<FunctionKind> {
    if name == "sin"@ {
        Some(FunctionKind::Math(MathFunction::Sin))
    } else if name == "cos"@ {
        Some(FunctionKind::Math(MathFunction::Cos))
    } else if name == "tan"@ {
        Some(FunctionKind::Math(MathFunction::Tan))
    } else if name == "exp"@ {
        Some(FunctionKind::Math(MathFunction::Exp))
    } else if name == "ln"@ || name == "log"@ {
        Some(FunctionKind::Math(MathFunction::Ln))
    } else if name == "sqrt"@ {
        Some(FunctionKind::Math(MathFunction::Sqrt))
    } else if name == "abs"@ {
        Some(FunctionKind::Math(MathFunction::Abs))
    } else if name == "h"@ {
        Some(FunctionKind::Positional(Prop::H))
    } else if name == "s"@ {
        Some(FunctionKind::Positional(Prop::S))
    } else if name == "rho"@ {
        Some(FunctionKind::Positional(Prop::D))
    } else if name == "t_from_ph"@ {
        Some(FunctionKind::Positional(Prop::T))
    } else if name == "p_from_th"@ {
        Some(FunctionKind::Positional(Prop::P))
    } else if name == "enthalpy"@ {
        Some(FunctionKind::Keyword(Prop::H))
    } else if name == "entropy"@ {
        Some(FunctionKind::Keyword(Prop::S))
    } else if name == "density"@ {
        Some(FunctionKind::Keyword(Prop::D))
    } else {
        None
    }
}

/// The function that `callee` names, ignoring ASCII case.
pub fn classify_function(callee: &str) -> (r: Option<FunctionKind>)
    ensures
        r == function_kind_spec(lower_seq(callee@)),
{
    let k = to_ascii_lowercase(callee);
    if lower_equals(&k, "sin") {
        Some(FunctionKind::Math(MathFunction::Sin))
    } else if lower_equals(&k, "cos") {
        Some(FunctionKind::Math(MathFunction::Cos))
    } else if lower_equals(&k, "tan") {
        Some(FunctionKind::Math(MathFunction::Tan))
    } else if lower_equals(&k, "exp") {
        Some(FunctionKind::Math(MathFunction::Exp))
    } else if lower_equals(&k, "ln") || lower_equals(&k, "log") {
        Some(FunctionKind::Math(MathFunction::Ln))
    } else if lower_equals(&k, "sqrt") {
        Some(FunctionKind::Math(MathFunction::Sqrt))
    } else if lower_equals(&k, "abs") {
        Some(FunctionKind::Math(MathFunction::Abs))
    } else if lower_equals(&k, "h") {
        Some(FunctionKind::Positional(Prop::H))
    } else if lower_equals(&k, "s") {
        Some(FunctionKind::Positional(Prop::S))
    } else if lower_equals(&k, "rho") {
        Some(FunctionKind::Positional(Prop::D))
    } else if lower_equals(&k, "t_from_ph") {
        Some(FunctionKind::Positional(Prop::T))
    } else if lower_equals(&k, "p_from_th") {
        Some(FunctionKind::Positional(Prop::P))
    } else if lower_equals(&k, "enthalpy") {
        Some(FunctionKind::Keyword(Prop::H))
    } else if lower_equals(&k, "entropy") {
        Some(FunctionKind::Keyword(Prop::S))
    } else if lower_equals(&k, "density") {
        Some(FunctionKind::Keyword(Prop::D))
    } else {
        None
    }
}

/// The name a math function goes by in messages.
pub open spec fn math_name_spec(f: MathFunction) -> Seq<char> {
    match f {
        MathFunction::Sin => "sin"@,
        MathFunction::Cos => "cos"@,
        MathFunction::Tan => "tan"@,
        MathFunction::Exp => "exp"@,
        MathFunction::Ln => "ln/log"@,
        MathFunction::Sqrt => "sqrt"@,
        MathFunction::Abs => "abs"@,
    }
}

pub fn math_name(f: MathFunction) -> (s: &'static str)
    ensures
        s@ == math_name_spec(f),
{
    match f {
        MathFunction::Sin => "sin",
        MathFunction::Cos => "cos",
        MathFunction::Tan => "tan",
        MathFunction::Exp => "exp",
        MathFunction::Ln => "ln/log",
        MathFunction::Sqrt => "sqrt",
        MathFunction::Abs => "abs",
    }
}

/// The name a positional property function goes by in messages.
pub open spec fn positional_name_spec(out: Prop) -> Seq<char> {
    match out {
        Prop::H => "h"@,
        Prop::S => "s"@,
        Prop::D => "rho"@,
        Prop::T => "t_from_ph"@,
        Prop::P => "p_from_th"@,
    }
}

pub fn positional_name(out: Prop) -> (s: &'static str)
    ensures
        s@ == positional_name_spec(out),
{
    match out {
        Prop::H => "h",
        Prop::S => "s",
        Prop::D => "rho",
        Prop::T => "t_from_ph",
        Prop::P => "p_from_th",
    }
}

// ---------------------------------------------------------------------------
// Plans
// ---------------------------------------------------------------------------

/// Evaluate the value of argument `arg` as state variable `var`.
#[derive(Debug, Clone, Copy, PartialEq, Eq, Structural)]
pub struct StateInput {
    pub var: StateVar,
    pub arg: usize,
}

/// What a call asks of the solver. A math call evaluates its one
/// argument. A property call evaluates `inputs` in order; then, where
/// `failure` is set, the call fails with it, and otherwise it asks the
/// backend for `out` of `fluid` at the two inputs.
#[derive(Debug)]
pub enum CallPlan {
    Math { function: MathFunction },
    Property {
        name: String,
        fluid: String,
        out: Prop,
        inputs: Vec<StateInput>,
        failure: Option<String>,
    },
}

pub enum SpecCallPlan {
    Math { function: MathFunction },
    Property {
        name: Seq<char>,
        fluid: Seq<char>,
        out: Prop,
        inputs: Seq<StateInput>,
        failure: Option<Seq<char>>,
    },
}

pub open spec fn opt_view(o: Option<String>) -> Option<Seq<char>> {
    match o {
        Some(s) => Some(s@),
        None => None,
    }
}

impl View for CallPlan {
    type V = SpecCallPlan;

    open spec fn view(&self) -> SpecCallPlan {
        match *self {
            CallPlan::Math { function } => SpecCallPlan::Math { function },
            CallPlan::Property { name, fluid, out, inputs, failure } => SpecCallPlan::Property {
                name: name@,
                fluid: fluid@,
                out,
                inputs: inputs@,
                failure: opt_view(failure),
            },
        }
    }
}

// ---------------------------------------------------------------------------
// Messages
// ---------------------------------------------------------------------------

pub open spec fn function_message(name: Seq<char>, rest: Seq<char>) -> Seq<char> {
    "Function '"@ + name + rest
}

pub open spec fn unsupported_message(callee: Seq<char>) -> Seq<char> {
    "Unsupported function '"@ + callee + "'"@
}

pub open spec fn key_message(name: Seq<char>, what: Seq<char>, key: Seq<char>) -> Seq<char> {
    "Function '"@ + name + what + key + "'"@
}

fn function_message_exec(name: &str, rest: &str) -> (m: String)
    ensures
        m@ == function_message(name@, rest@),
{
    let mut m = String::from_str("Function '");
    m.append(name);
    m.append(rest);
    m
}

fn key_message_exec(name: &str, what: &str, key: &str) -> (m: String)
    ensures
        m@ == key_message(name@, what@, key@),
{
    let mut m = String::from_str("Function '");
    m.append(name);
    m.append(what);
    m.append(key);
    m.append("'");
    m
}

// ---------------------------------------------------------------------------
// The fluid argument
// ---------------------------------------------------------------------------

/// The fluid a property call names in its first argument: a string literal,
/// or a variable that a string assignment named.
pub open spec fn fluid_spec(
    name: Seq<char>,
    arg: SpecCallArg,
    strings: Map<Seq<char>, String>,
) -> Result<Seq<char>, Seq<char>> {
    let not_string = function_message(
        name,
        "' requires first argument fluid as string literal or string variable"@,
    );
    match arg {
        SpecCallArg::Positional(e) => match e.kind {
            SpecExprKind::StringLiteral(v) => Ok(v),
            SpecExprKind::Identifier(id) => if strings.contains_key(id) {
                Ok(strings[id]@)
            } else {
                Err(not_string)
            },
            _ => Err(not_string),
        },
        SpecCallArg::Keyword { .. } => Err(
            function_message(name, "' requires first argument fluid as positional string"@),
        ),
    }
}

pub fn resolve_fluid(name: &str, arg: &CallArg, strings: &NameMap<String>) -> (r: Result<
    String,
    String,
>)
    ensures
        match r {
            Ok(f) => fluid_spec(name@, arg@, strings.view()) == Ok::<Seq<char>, Seq<char>>(f@),
            Err(m) => fluid_spec(name@, arg@, strings.view()) == Err::<Seq<char>, Seq<char>>(m@),
        },
{
    match arg {
        CallArg::Positional(e) => match &e.kind {
            ExprKind::StringLiteral(v) => Ok(v.clone()),
            ExprKind::Identifier(id) => match strings.get(id) {
                Some(v) => Ok(v.clone()),
                None => Err(
                    function_message_exec(
                        name,
                        "' requires first argument fluid as string literal or string variable",
                    ),
                ),
            },
            _ => Err(
                function_message_exec(
                    name,
                    "' requires first argument fluid as string literal or string variable",
                ),
            ),
        },
        CallArg::Keyword { .. } => Err(
            function_message_exec(name, "' requires first argument fluid as positional string"),
        ),
    }
}

// ---------------------------------------------------------------------------
// The state arguments
// ---------------------------------------------------------------------------

pub open spec fn positional_message() -> Seq<char> {
    "Expected positional numeric argument"@
}

/// The inputs of a positional property function: arguments 1 and 2, each
/// of which must be positional.
pub open spec fn positional_plan(args: Seq<SpecCallArg>, out: Prop) -> (
    Seq<StateInput>,
    Option<Seq<char>>,
) {
    let (v1, v2) = positional_inputs_spec(out);
    if !(args[1] is Positional) {
        (Seq::empty(), Some(positional_message()))
    } else if !(args[2] is Positional) {
        (seq![StateInput { var: v1, arg: 1 }], Some(positional_message()))
    } else {
        (seq![StateInput { var: v1, arg: 1 }, StateInput { var: v2, arg: 2 }], None)
    }
}

pub open spec fn has_var(inputs: Seq<StateInput>, v: StateVar) -> bool {
    exists|j: int| 0 <= j < inputs.len() && (#[trigger] inputs[j]).var == v
}

/// The inputs of a keyword property function from argument `i` on, given
/// the inputs read before it: each argument must be a keyword naming a
/// state variable not named before, and two must be named in all.
pub open spec fn keyword_plan(
    name: Seq<char>,
    args: Seq<SpecCallArg>,
    i: int,
    inputs: Seq<StateInput>,
) -> (Seq<StateInput>, Option<Seq<char>>)
    decreases args.len() - i,
{
    if i >= args.len() {
        if inputs.len() == 2 {
            (inputs, None)
        } else {
            (inputs, Some(function_message(name, "' requires exactly two state keywords"@)))
        }
    } else {
        match args[i] {
            SpecCallArg::Positional(_) => (
                inputs,
                Some(function_message(name, "' expects keyword state arguments after fluid"@)),
            ),
            SpecCallArg::Keyword { name: key, .. } => match state_var_spec(key) {
                None => (inputs, Some(key_message(name, "' received unknown state key '"@, key))),
                Some(v) => if has_var(inputs, v) {
                    (inputs, Some(key_message(name, "' received duplicate state key '"@, key)))
                } else {
                    keyword_plan(name, args, i + 1, inputs.push(StateInput { var: v, arg: i as usize }))
                },
            },
        }
    }
}

/// What a call of `callee` with `args` asks for, given the strings the
/// program names.
pub open spec fn plan_call_spec(
    callee: Seq<char>,
    args: Seq<SpecCallArg>,
    strings: Map<Seq<char>, String>,
) -> Result<SpecCallPlan, Seq<char>> {
    match function_kind_spec(lower_seq(callee)) {
        None => Err(unsupported_message(callee)),
        Some(FunctionKind::Math(f)) => if args.len() != 1 {
            Err(function_message(math_name_spec(f), "' expects 1 argument"@))
        } else if !(args[0] is Positional) {
            Err(function_message(math_name_spec(f), "' expects positional arguments"@))
        } else {
            Ok(SpecCallPlan::Math { function: f })
        },
        Some(FunctionKind::Positional(out)) => {
            let name = positional_name_spec(out);
            if args.len() != 3 {
                Err(function_message(name, "' expects 3 arguments"@))
            } else {
                match fluid_spec(name, args[0], strings) {
                    Err(m) => Err(m),
                    Ok(fluid) => {
                        let (inputs, failure) = positional_plan(args, out);
                        Ok(SpecCallPlan::Property { name, fluid, out, inputs, failure })
                    },
                }
            }
        },
        Some(FunctionKind::Keyword(out)) => if args.len() < 3 {
            Err(function_message(callee, "' expects fluid plus two state keyword arguments"@))
        } else {
            match fluid_spec(callee, args[0], strings) {
                Err(m) => Err(m),
                Ok(fluid) => {
                    let (inputs, failure) = keyword_plan(callee, args, 1, Seq::empty());
                    Ok(SpecCallPlan::Property { name: callee, fluid, out, inputs, failure })
                },
            }
        },
    }
}

fn has_state_var(inputs: &Vec<StateInput>, v: StateVar) -> (b: bool)
    ensures
        b == has_var(inputs@, v),
{
    let mut j: usize = 0;
    while j < inputs.len()
        invariant
            j <= inputs.len(),
            forall|k: int| 0 <= k < j ==> (#[trigger] inputs@[k]).var != v,
        decreases inputs.len() - j,
    {
        if inputs[j].var == v {
            return true;
        }
        j = j + 1;
    }
    false
}

fn positional_inputs_plan(args: &Vec<CallArg>, out: Prop) -> (r: (Vec<StateInput>, Option<String>))
    requires
        args.len() == 3,
    ensures
        (r.0@, opt_view(r.1)) == positional_plan(args_view(args@), out),
{
    proof {
        crate::ast::lemma_args_view_len(args@);
    }
    let (v1, v2) = positional_inputs(out);
    let mut inputs: Vec<StateInput> = Vec::new();
    if !(matches!(&args[1], CallArg::Positional(_))) {
        return (inputs, Some(String::from_str("Expected positional numeric argument")));
    }
    inputs.push(StateInput { var: v1, arg: 1 });
    if !(matches!(&args[2], CallArg::Positional(_))) {
        assert(inputs@ =~= seq![StateInput { var: v1, arg: 1 }]);
        return (inputs, Some(String::from_str("Expected positional numeric argument")));
    }
    inputs.push(StateInput { var: v2, arg: 2 });
    assert(inputs@ =~= seq![StateInput { var: v1, arg: 1 }, StateInput { var: v2, arg: 2 }]);
    (inputs, None)
}

fn keyword_inputs_plan(name: &str, args: &Vec<CallArg>) -> (r: (Vec<StateInput>, Option<String>))
    requires
        args.len() >= 1,
    ensures
        (r.0@, opt_view(r.1)) == keyword_plan(name@, args_view(args@), 1, Seq::empty()),
{
    let ghost views = args_view(args@);
    proof {
        crate::ast::lemma_args_view_len(args@);
    }
    let mut inputs: Vec<StateInput> = Vec::new();
    let mut i: usize = 1;
    while i < args.len()
        invariant
            1 <= i <= args.len(),
            views == args_view(args@),
            views.len() == args.len(),
            forall|k: int| 0 <= k < args.len() ==> #[trigger] views[k] == arg_view(args@[k]),
            keyword_plan(name@, views, i as int, inputs@) == keyword_plan(
                name@,
                views,
                1,
                Seq::empty(),
            ),
        decreases args.len() - i,
    {
        assert(views[i as int] == arg_view(args@[i as int]));
        match &args[i] {
            CallArg::Positional(_) => {
                return (
                    inputs,
                    Some(function_message_exec(name, "' expects keyword state arguments after fluid")),
                );
            },
            CallArg::Keyword { name: key, .. } => match parse_state_var(key.as_str()) {
                None => {
                    return (
                        inputs,
                        Some(key_message_exec(name, "' received unknown state key '", key.as_str())),
                    );
                },
                Some(v) => {
                    if has_state_var(&inputs, v) {
                        return (
                            inputs,
                            Some(
                                key_message_exec(
                                    name,
                                    "' received duplicate state key '",
                                    key.as_str(),
                                ),
                            ),
                        );
                    }
                    inputs.push(StateInput { var: v, arg: i });
                },
            },
        }
        i = i + 1;
    }
    if inputs.len() == 2 {
        (inputs, None)
    } else {
        (inputs, Some(function_message_exec(name, "' requires exactly two state keywords")))
    }
}

/// What a call of `callee` with `args` asks of the solver, or the mistake
/// it makes that is found before any argument is evaluated.
pub fn plan_call(callee: &str, args: &Vec<CallArg>, strings: &NameMap<String>) -> (r: Result<
    CallPlan,
    String,
>)
    ensures
        match r {
            Ok(p) => plan_call_spec(callee@, args_view(args@), strings.view()) == Ok::<
                SpecCallPlan,
                Seq<char>,
            >(p@),
            Err(m) => plan_call_spec(callee@, args_view(args@), strings.view()) == Err::<
                SpecCallPlan,
                Seq<char>,
            >(m@),
        },
{
    proof {
        crate::ast::lemma_args_view_len(args@);
    }
    match classify_function(callee) {
        None => {
            let mut m = String::from_str("Unsupported function '");
            m.append(callee);
            m.append("'");
            Err(m)
        },
        Some(FunctionKind::Math(f)) => {
            let name = math_name(f);
            if args.len() != 1 {
                Err(function_message_exec(name, "' expects 1 argument"))
            } else if !(matches!(&args[0], CallArg::Positional(_))) {
                Err(function_message_exec(name, "' expects positional arguments"))
            } else {
                Ok(CallPlan::Math { function: f })
            }
        },
        Some(FunctionKind::Positional(out)) => {
            let name = positional_name(out);
            if args.len() != 3 {
                Err(function_message_exec(name, "' expects 3 arguments"))
            } else {
                match resolve_fluid(name, &args[0], strings) {
                    Err(m) => Err(m),
                    Ok(fluid) => {
                        let (inputs, failure) = positional_inputs_plan(args, out);
                        Ok(
                            CallPlan::Property {
                                name: String::from_str(name),
                                fluid,
                                out,
                                inputs,
                                failure,
                            },
                        )
                    },
                }
            }
        },
        Some(FunctionKind::Keyword(out)) => {
            if args.len() < 3 {
                Err(function_message_exec(callee, "' expects fluid plus two state keyword arguments"))
            } else {
                match resolve_fluid(callee, &args[0], strings) {
                    Err(m) => Err(m),
                    Ok(fluid) => {
                        let (inputs, failure) = keyword_inputs_plan(callee, args);
                        Ok(
                            CallPlan::Property {
                                name: String::from_str(callee),
                                fluid,
                                out,
                                inputs,
                                failure,
                            },
                        )
                    },
                }
            }
        },
    }
}

// ---------------------------------------------------------------------------
// Reading a state argument, and a failed query
// ---------------------------------------------------------------------------

/// How the value of a state argument is read: a quantity literal is its
/// number times the scale of its unit, which must parse; any other
/// expression is evaluated as it stands, in base SI units (`None`).
pub open spec fn state_unit_spec(e: SpecExpr) -> Result<Option<Unit>, Seq<char>> {
    match e.kind {
        SpecExprKind::QuantityLiteral { unit, .. } => match parse_unit_spec(default_lookup(), unit) {
            Ok(u) => Ok(Some(u)),
            Err(m) => Err("Invalid unit '"@ + unit + "' in property argument: "@ + m),
        },
        _ => Ok(None),
    }
}

pub fn state_value_unit(expr: &Expr) -> (r: Result<Option<Unit>, String>)
    ensures
        match r {
            Ok(u) => state_unit_spec(expr@) == Ok::<Option<Unit>, Seq<char>>(u),
            Err(m) => state_unit_spec(expr@) == Err::<Option<Unit>, Seq<char>>(m@),
        },
{
    match &expr.kind {
        ExprKind::QuantityLiteral { unit, .. } => {
            let registry = UnitRegistry::new();
            match registry.parse_unit_string(unit.as_str()) {
                Ok(u) => Ok(Some(u)),
                Err(err) => {
                    let mut m = String::from_str("Invalid unit '");
                    m.append(unit.as_str());
                    m.append("' in property argument: ");
                    m.append(err.as_str());
                    Err(m)
                },
            }
        },
        _ => Ok(None),
    }
}

/// The expression an argument carries.
pub fn argument_value(arg: &CallArg) -> (e: &Expr)
    ensures
        arg@ matches SpecCallArg::Positional(x) ==> e@ == x,
        arg@ matches SpecCallArg::Keyword { value, .. } ==> e@ == value,
{
    match arg {
        CallArg::Positional(x) => x,
        CallArg::Keyword { value, .. } => value,
    }
}

pub open spec fn property_failure_spec(name: Seq<char>, err: PropsError) -> Seq<char> {
    "Property call '"@ + name + "' failed: "@ + props_error_text(err)
}

/// What a call reports when the backend refuses its query.
pub fn property_failure_message(name: &str, err: &PropsError) -> (m: String)
    ensures
        m@ == property_failure_spec(name@, *err),
{
    let mut m = String::from_str("Property call '");
    m.append(name);
    m.append("' failed: ");
    let t = err.to_string();
    m.append(t.as_str());
    m
}

// ---------------------------------------------------------------------------
// Laws of call plans
// ---------------------------------------------------------------------------

/// Argument `inp.arg` is a keyword argument that names `inp.var`.
pub open spec fn keyword_names(args: Seq<SpecCallArg>, inp: StateInput) -> bool {
    &&& 0 <= inp.arg < args.len()
    &&& args[inp.arg as int] matches SpecCallArg::Keyword { name: key, .. } && state_var_spec(key)
        == Some(inp.var)
}

pub open spec fn distinct_vars(inputs: Seq<StateInput>) -> bool {
    forall|a: int, b: int| 0 <= a < b < inputs.len() ==> (#[trigger] inputs[a]).var != (
    #[trigger] inputs[b]).var
}

proof fn lemma_keyword_plan_inputs(
    name: Seq<char>,
    args: Seq<SpecCallArg>,
    i: int,
    inputs: Seq<StateInput>,
)
    requires
        1 <= i <= args.len(),
        args.len() <= usize::MAX,
        distinct_vars(inputs),
        forall|j: int| 0 <= j < inputs.len() ==> keyword_names(args, #[trigger] inputs[j]),
    ensures
        ({
            let (out, failure) = keyword_plan(name, args, i, inputs);
            &&& distinct_vars(out)
            &&& forall|j: int| 0 <= j < out.len() ==> keyword_names(args, #[trigger] out[j])
            &&& failure is None ==> out.len() == 2
        }),
    decreases args.len() - i,
{
    if i < args.len() {
        match args[i] {
            SpecCallArg::Keyword { name: key, .. } => match state_var_spec(key) {
                Some(v) => if !has_var(inputs, v) {
                    let next = inputs.push(StateInput { var: v, arg: i as usize });
                    assert forall|a: int, b: int| 0 <= a < b < next.len() implies (
                    #[trigger] next[a]).var != (#[trigger] next[b]).var by {
                        if b == next.len() - 1 {
                            assert(next[a] == inputs[a]);
                        }
                    }
                    assert forall|j: int| 0 <= j < next.len() implies keyword_names(
                        args,
                        #[trigger] next[j],
                    ) by {
                        if j < inputs.len() {
                            assert(next[j] == inputs[j]);
                        } else {
                            assert(next[j].arg as int == i);
                        }
                    }
                    lemma_keyword_plan_inputs(name, args, i + 1, next);
                },
                None => {},
            },
            _ => {},
        }
    }
}

/// A property call that passes its checks asks the backend for exactly two
/// inputs, of two different state variables, each read from an argument
/// after the fluid; for the keyword functions each comes from a keyword
/// argument that names its variable, in any order.
pub proof fn lemma_property_plan_has_two_inputs(
    callee: Seq<char>,
    args: Seq<SpecCallArg>,
    strings: Map<Seq<char>, String>,
)
    requires
        args.len() <= usize::MAX,
        plan_call_spec(callee, args, strings) matches Ok(SpecCallPlan::Property { failure, .. })
            && failure is None,
    ensures
        plan_call_spec(callee, args, strings) matches Ok(
            SpecCallPlan::Property { inputs, .. },
        ) && inputs.len() == 2 && inputs[0].var != inputs[1].var && 1 <= inputs[0].arg < args.len()
            && 1 <= inputs[1].arg < args.len(),
        function_kind_spec(lower_seq(callee)) matches Some(FunctionKind::Keyword(_)) ==> (
        plan_call_spec(callee, args, strings) matches Ok(SpecCallPlan::Property { inputs, .. })
            && keyword_names(args, inputs[0]) && keyword_names(args, inputs[1])),
{
    match function_kind_spec(lower_seq(callee)) {
        Some(FunctionKind::Keyword(out)) => {
            lemma_keyword_plan_inputs(callee, args, 1, Seq::empty());
            let (inputs, failure) = keyword_plan(callee, args, 1, Seq::empty());
            assert(keyword_names(args, inputs[0]));
            assert(keyword_names(args, inputs[1]));
            assert(inputs[0].var != inputs[1].var);
        },
        _ => {},
    }
}

/// Each property function asks for the property it is named after, however
/// its name is cased: Enthalpy and h for the enthalpy, Entropy and s for the
/// entropy, Density and rho for the density, t_from_ph for the temperature
/// and p_from_th for the pressure; and a call that passes its checks asks the
/// backend for exactly that property.
pub proof fn lemma_property_functions_name_their_property(
    callee: Seq<char>,
    args: Seq<SpecCallArg>,
    strings: Map<Seq<char>, String>,
)
    ensures
        lower_seq(callee) == "enthalpy"@ ==> function_kind_spec(lower_seq(callee)) == Some(
            FunctionKind::Keyword(Prop::H),
        ),
        lower_seq(callee) == "entropy"@ ==> function_kind_spec(lower_seq(callee)) == Some(
            FunctionKind::Keyword(Prop::S),
        ),
        lower_seq(callee) == "density"@ ==> function_kind_spec(lower_seq(callee)) == Some(
            FunctionKind::Keyword(Prop::D),
        ),
        lower_seq(callee) == "h"@ ==> function_kind_spec(lower_seq(callee)) == Some(
            FunctionKind::Positional(Prop::H),
        ),
        lower_seq(callee) == "s"@ ==> function_kind_spec(lower_seq(callee)) == Some(
            FunctionKind::Positional(Prop::S),
        ),
        lower_seq(callee) == "rho"@ ==> function_kind_spec(lower_seq(callee)) == Some(
            FunctionKind::Positional(Prop::D),
        ),
        lower_seq(callee) == "t_from_ph"@ ==> function_kind_spec(lower_seq(callee)) == Some(
            FunctionKind::Positional(Prop::T),
        ),
        lower_seq(callee) == "p_from_th"@ ==> function_kind_spec(lower_seq(callee)) == Some(
            FunctionKind::Positional(Prop::P),
        ),
        plan_call_spec(callee, args, strings) matches Ok(SpecCallPlan::Property { out, .. }) ==> {
            &&& (lower_seq(callee) == "enthalpy"@ || lower_seq(callee) == "h"@) ==> out == Prop::H
            &&& (lower_seq(callee) == "entropy"@ || lower_seq(callee) == "s"@) ==> out == Prop::S
            &&& (lower_seq(callee) == "density"@ || lower_seq(callee) == "rho"@) ==> out == Prop::D
            &&& lower_seq(callee) == "t_from_ph"@ ==> out == Prop::T
            &&& lower_seq(callee) == "p_from_th"@ ==> out == Prop::P
        },
{
    reveal_strlit("sin");
    reveal_strlit("cos");
    reveal_strlit("tan");
    reveal_strlit("exp");
    reveal_strlit("ln");
    reveal_strlit("log");
    reveal_strlit("sqrt");
    reveal_strlit("abs");
    reveal_strlit("h");
    reveal_strlit("s");
    reveal_strlit("rho");
    reveal_strlit("t_from_ph");
    reveal_strlit("p_from_th");
    reveal_strlit("enthalpy");
    reveal_strlit("entropy");
    reveal_strlit("density");
    let n = lower_seq(callee);
    if n == "enthalpy"@ {
        assert(n.len() == 8 && n[0] == 'e');
    }
    if n == "entropy"@ {
        assert(n.len() == 7 && n[0] == 'e');
    }
    if n == "density"@ {
        assert(n.len() == 7 && n[0] == 'd');
    }
    if n == "h"@ {
        assert(n.len() == 1 && n[0] == 'h');
    }
    if n == "s"@ {
        assert(n.len() == 1 && n[0] == 's');
    }
    if n == "rho"@ {
        assert(n.len() == 3 && n[0] == 'r');
    }
    if n == "t_from_ph"@ {
        assert(n.len() == 9 && n[0] == 't');
    }
    if n == "p_from_th"@ {
        assert(n.len() == 9 && n[0] == 'p');
    }
}

} // verus!
