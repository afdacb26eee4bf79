//! The structure of an equation system: which statements are equations,
//! which fix constants or name strings, and which variables are unknown.
use vstd::prelude::*;
use crate::ast::{
    CallArg, Expr, ExprKind, Program, SpecCallArg, SpecExpr, SpecExprKind, SpecStatement,
    Statement, StatementKind, arg_view, args_view,
};
use crate::names::NameMap;
use crate::text::{chars_less, chars_of, decimal, push_decimal, seq_lt};

verus! {

// ---------------------------------------------------------------------------
// The variables an expression mentions
// ---------------------------------------------------------------------------

/// The names of the identifiers in `e`.
pub open spec fn expr_idents(e: SpecExpr) -> Set<Seq<char>>
    decreases e,
{
    match e.kind {
        SpecExprKind::Identifier(name) => set![name],
        SpecExprKind::Unary { expr, .. } => expr_idents(*expr),
        SpecExprKind::Group(inner) => expr_idents(*inner),
        SpecExprKind::Binary { left, right, .. } => expr_idents(*left).union(
            expr_idents(*right),
        ),
        SpecExprKind::Call { args, .. } => args_idents(args),
        _ => Set::empty(),
    }
}

/// The names of the identifiers in the values of `args`.
pub open spec fn args_idents(args: Seq<SpecCallArg>) -> Set<Seq<char>>
    decreases args,
{
    if args.len() == 0 {
        Set::empty()
    } else {
        args_idents(args.subrange(0, args.len() - 1)).union(
            match args[args.len() - 1] {
                SpecCallArg::Positional(x) => expr_idents(x),
                SpecCallArg::Keyword { value, .. } => expr_idents(value),
            },
        )
    }
}

/// The names of the identifiers in both sides of a statement.
pub open spec fn statement_idents(st: SpecStatement) -> Set<Seq<char>> {
    expr_idents(st.lhs).union(expr_idents(st.rhs))
}

/// The names of the identifiers in the first `n` statements.
pub open spec fn program_idents(stmts: Seq<SpecStatement>, n: int) -> Set<Seq<char>>
    decreases n,
{
    if n <= 0 {
        Set::empty()
    } else {
        program_idents(stmts, n - 1).union(statement_idents(stmts[n - 1]))
    }
}

// ---------------------------------------------------------------------------
// Sorted lists of names
// ---------------------------------------------------------------------------

pub open spec fn names_view(v: Seq<String>) -> Seq<Seq<char>> {
    v.map_values(|s: String| s@)
}

/// Each name comes before the next, so none occurs twice.
pub open spec fn strictly_sorted(s: Seq<Seq<char>>) -> bool {
    forall|i: int, j: int| 0 <= i < j < s.len() ==> seq_lt(#[trigger] s[i], #[trigger] s[j])
}

/// Two sorted lists of names that hold the same names are the same list.
pub proof fn lemma_sorted_set_determines_list(a: Seq<Seq<char>>, b: Seq<Seq<char>>)
    requires
        strictly_sorted(a),
        strictly_sorted(b),
        a.to_set() == b.to_set(),
    ensures
        a == b,
    decreases a.len() + b.len(),
{
    if a.len() == 0 {
        if b.len() > 0 {
            assert(b.to_set().contains(b[0]));
            assert(!a.to_set().contains(b[0]));
        }
        assert(a =~= b);
    } else if b.len() == 0 {
        assert(a.to_set().contains(a[0]));
        assert(!b.to_set().contains(a[0]));
    } else {
        let x = a.last();
        let y = b.last();
        assert(a.to_set().contains(x));
        assert(b.to_set().contains(y));
        assert(b.contains(x));
        assert(a.contains(y));
        let i = choose|i: int| 0 <= i < b.len() && b[i] == x;
        let j = choose|j: int| 0 <= j < a.len() && a[j] == y;
        if x != y {
            crate::text::lemma_seq_lt_total(x, y);
            if seq_lt(x, y) {
                // y is in a, at an index at most the last: y <= x
                if j < a.len() - 1 {
                    crate::text::lemma_seq_lt_asymmetric(y, x);
                }
            } else {
                if i < b.len() - 1 {
                    crate::text::lemma_seq_lt_asymmetric(x, y);
                }
            }
        }
        let a2 = a.drop_last();
        let b2 = b.drop_last();
        assert forall|z: Seq<char>| a2.to_set().contains(z) implies b2.to_set().contains(z) by {
            assert(a2.contains(z));
            let k = choose|k: int| 0 <= k < a2.len() && a2[k] == z;
            assert(a[k] == z);
            assert(seq_lt(z, x));
            assert(a.to_set().contains(z));
            assert(b.contains(z));
            let m = choose|m: int| 0 <= m < b.len() && b[m] == z;
            if m == b.len() - 1 {
                crate::text::lemma_seq_lt_irreflexive(z);
            }
            assert(b2[m] == z);
        }
        assert forall|z: Seq<char>| b2.to_set().contains(z) implies a2.to_set().contains(z) by {
            assert(b2.contains(z));
            let k = choose|k: int| 0 <= k < b2.len() && b2[k] == z;
            assert(b[k] == z);
            assert(seq_lt(z, y));
            assert(b.to_set().contains(z));
            assert(a.contains(z));
            let m = choose|m: int| 0 <= m < a.len() && a[m] == z;
            if m == a.len() - 1 {
                crate::text::lemma_seq_lt_irreflexive(z);
            }
            assert(a2[m] == z);
        }
        assert(a2.to_set() =~= b2.to_set());
        lemma_sorted_set_determines_list(a2, b2);
        assert(a =~= a2.push(x));
        assert(b =~= b2.push(y));
    }
}

/// Adds `name` to a sorted list of names, where it is not there yet.
pub fn insert_name(names: &mut Vec<String>, name: &String)
    requires
        strictly_sorted(names_view(old(names)@)),
    ensures
        strictly_sorted(names_view(final(names)@)),
        names_view(final(names)@).to_set() == names_view(old(names)@).to_set().insert(name@),
{
    let ghost old_names = names_view(names@);
    let key = chars_of(name.as_str());
    let mut i: usize = 0;
    while i < names.len()
        invariant
            i <= names.len(),
            names_view(names@) == old_names,
            strictly_sorted(old_names),
            key@ == name@,
            forall|j: int| 0 <= j < i ==> seq_lt(#[trigger] old_names[j], name@),
        ensures
            i < names.len() ==> !seq_lt(old_names[i as int], name@),
        decreases names.len() - i,
    {
        let cur = chars_of(names[i].as_str());
        if chars_less(&cur, &key) {
            i = i + 1;
        } else {
            break;
        }
    }
    if i < names.len() && names[i] == *name {
        assert(old_names.to_set().insert(name@) =~= old_names.to_set()) by {
            assert(old_names[i as int] == name@);
        }
        return;
    }
    let ghost at = i as int;
    proof {
        if at < old_names.len() {
            crate::text::lemma_seq_lt_total(old_names[at], name@);
            assert(seq_lt(name@, old_names[at]));
        }
    }
    names.insert(i, name.clone());
    let ghost new_names = names_view(names@);
    assert(new_names =~= old_names.insert(at, name@));
    assert forall|p: int, q: int| 0 <= p < q < new_names.len() implies seq_lt(
        #[trigger] new_names[p],
        #[trigger] new_names[q],
    ) by {
        if q < at {
        } else if q == at {
        } else if p == at {
            if q - 1 > at {
                crate::text::lemma_seq_lt_transitive(name@, old_names[at], old_names[q - 1]);
            }
        } else if p < at {
            if q - 1 > at {
                crate::text::lemma_seq_lt_transitive(name@, old_names[at], old_names[q - 1]);
            }
            crate::text::lemma_seq_lt_transitive(old_names[p], name@, old_names[q - 1]);
        } else {
        }
    }
    assert forall|z: Seq<char>| new_names.to_set().contains(z) <==> old_names.to_set().insert(
        name@,
    ).contains(z) by {
        if new_names.contains(z) {
            let k = choose|k: int| 0 <= k < new_names.len() && new_names[k] == z;
            if k < at {
                assert(old_names[k] == z);
            } else if k > at {
                assert(old_names[k - 1] == z);
            }
        }
        if old_names.contains(z) {
            let k = choose|k: int| 0 <= k < old_names.len() && old_names[k] == z;
            if k < at {
                assert(new_names[k] == z);
            } else {
                assert(new_names[k + 1] == z);
            }
        }
        if z == name@ {
            assert(new_names[at] == z);
        }
    }
    assert(new_names.to_set() =~= old_names.to_set().insert(name@));
}

/// Adds the names of the identifiers in `expr` to a sorted list of names.
pub fn collect_identifiers(expr: &Expr, out: &mut Vec<String>)
    requires
        strictly_sorted(names_view(old(out)@)),
    ensures
        strictly_sorted(names_view(final(out)@)),
        names_view(final(out)@).to_set() == names_view(old(out)@).to_set().union(
            expr_idents(expr@),
        ),
    decreases expr,
{
    let ghost before = names_view(out@).to_set();
    match &expr.kind {
        ExprKind::Identifier(name) => {
            insert_name(out, name);
            assert(before.insert(name@) =~= before.union(set![name@]));
        },
        ExprKind::Unary { expr: inner, .. } => collect_identifiers(inner, out),
        ExprKind::Group(inner) => collect_identifiers(inner, out),
        ExprKind::Binary { left, right, .. } => {
            collect_identifiers(left, out);
            collect_identifiers(right, out);
            assert(before.union(expr_idents(left@)).union(expr_idents(right@)) =~= before.union(
                expr_idents(left@).union(expr_idents(right@)),
            ));
        },
        ExprKind::Call { args, .. } => {
            let ghost views = args_view(args@);
            proof {
                crate::ast::lemma_args_view_len(args@);
                assert(views.subrange(0, 0) =~= Seq::<SpecCallArg>::empty());
                assert(before.union(Set::empty()) =~= before);
            }
            let mut i: usize = 0;
            while i < args.len()
                invariant
                    i <= args.len(),
                    views == args_view(args@),
                    expr.kind is Call,
                    expr.kind->args@ == args@,
                    views.len() == args.len(),
                    forall|k: int| 0 <= k < args.len() ==> #[trigger] views[k] == arg_view(args@[k]),
                    strictly_sorted(names_view(out@)),
                    names_view(out@).to_set() == before.union(
                        args_idents(views.subrange(0, i as int)),
                    ),
                decreases args.len() - i,
            {
                let ghost mid = names_view(out@).to_set();
                proof {
                    lemma_call_arg_decreases(*expr, i as int);
                }
                match &args[i] {
                    CallArg::Positional(x) => collect_identifiers(x, out),
                    CallArg::Keyword { value, .. } => collect_identifiers(value, out),
                }
                proof {
                    let next = views.subrange(0, i + 1);
                    assert(next.subrange(0, i as int) =~= views.subrange(0, i as int));
                    assert(next[i as int] == views[i as int]);
                    assert(names_view(out@).to_set() =~= before.union(args_idents(next)));
                }
                i = i + 1;
            }
            assert(views.subrange(0, args.len() as int) =~= views);
        },
        _ => {
            assert(before.union(Set::empty()) =~= before);
        },
    }
}

proof fn lemma_call_arg_decreases(e: Expr, i: int)
    requires
        e.kind is Call,
        0 <= i < e.kind->args@.len(),
    ensures
        decreases_to!(e => e.kind->args@[i]),
{
    match e.kind {
        ExprKind::Call { args, .. } => {
            assert(decreases_to!(e => e.kind));
            assert(decreases_to!(e.kind => args));
            assert(decreases_to!(args => args@));
            assert(decreases_to!(args@ => args@[i]));
        },
        _ => {},
    }
}

/// The names of all identifiers of a program, sorted, each once.
pub fn discover_identifiers(program: &Program) -> (names: Vec<String>)
    ensures
        strictly_sorted(names_view(names@)),
        names_view(names@).to_set() == program_idents(program@, program@.len() as int),
{
    let mut names: Vec<String> = Vec::new();
    assert(names_view(names@).to_set() =~= Set::empty());
    let mut i: usize = 0;
    while i < program.statements.len()
        invariant
            i <= program.statements.len(),
            strictly_sorted(names_view(names@)),
            names_view(names@).to_set() == program_idents(program@, i as int),
        decreases program.statements.len() - i,
    {
        let statement = &program.statements[i];
        match &statement.kind {
            StatementKind::Assignment { lhs, rhs } => {
                collect_identifiers(lhs, &mut names);
                collect_identifiers(rhs, &mut names);
            },
        }
        proof {
            assert(program@[i as int] == program.statements@[i as int]@);
            assert(names_view(names@).to_set() =~= program_idents(program@, i + 1));
        }
        i = i + 1;
    }
    names
}

// ---------------------------------------------------------------------------
// Constants, strings and equations
// ---------------------------------------------------------------------------

/// `name = 3.5` or `name = 3.5 [unit]`: fixes a constant. The number of a
/// literal always denotes a value, as the lexer reads it.
pub open spec fn is_constant_assignment(st: SpecStatement) -> bool {
    &&& st.lhs.kind is Identifier
    &&& (st.rhs.kind is Number || st.rhs.kind is QuantityLiteral)
}

/// `name = "text"`: names a string.
pub open spec fn is_string_assignment(st: SpecStatement) -> bool {
    &&& st.lhs.kind is Identifier
    &&& st.rhs.kind is StringLiteral
}

/// Every other statement is an equation for the solver.
pub open spec fn is_equation(st: SpecStatement) -> bool {
    !is_constant_assignment(st) && !is_string_assignment(st)
}

/// The text of the number in a literal.
pub open spec fn literal_text(e: SpecExpr) -> Seq<char> {
    match e.kind {
        SpecExprKind::Number(t) => t,
        SpecExprKind::QuantityLiteral { value, .. } => value,
        _ => Seq::empty(),
    }
}

/// The indices of the equations among the first `n` statements, in order.
pub open spec fn equation_indices(stmts: Seq<SpecStatement>, n: int) -> Seq<usize>
    decreases n,
{
    if n <= 0 {
        Seq::empty()
    } else if is_equation(stmts[n - 1]) {
        equation_indices(stmts, n - 1).push((n - 1) as usize)
    } else {
        equation_indices(stmts, n - 1)
    }
}

/// The constants fixed by the first `n` statements, as pairs of a name and
/// the text of its number, in order.
pub open spec fn constants_of(stmts: Seq<SpecStatement>, n: int) -> Seq<(Seq<char>, Seq<char>)>
    decreases n,
{
    if n <= 0 {
        Seq::empty()
    } else if is_constant_assignment(stmts[n - 1]) {
        constants_of(stmts, n - 1).push(
            (stmts[n - 1].lhs.kind->Identifier_0, literal_text(stmts[n - 1].rhs)),
        )
    } else {
        constants_of(stmts, n - 1)
    }
}

/// The strings named by the first `n` statements; a later assignment of a
/// name replaces an earlier one.
pub open spec fn strings_of(stmts: Seq<SpecStatement>, n: int) -> Map<Seq<char>, Seq<char>>
    decreases n,
{
    if n <= 0 {
        Map::empty()
    } else if is_string_assignment(stmts[n - 1]) {
        strings_of(stmts, n - 1).insert(
            stmts[n - 1].lhs.kind->Identifier_0,
            stmts[n - 1].rhs.kind->StringLiteral_0,
        )
    } else {
        strings_of(stmts, n - 1)
    }
}

/// The names of the identifiers in the equations among the first `n`
/// statements.
pub open spec fn equation_idents(stmts: Seq<SpecStatement>, n: int) -> Set<Seq<char>>
    decreases n,
{
    if n <= 0 {
        Set::empty()
    } else if is_equation(stmts[n - 1]) {
        equation_idents(stmts, n - 1).union(statement_idents(stmts[n - 1]))
    } else {
        equation_idents(stmts, n - 1)
    }
}

/// The name and the number's text of a constant assignment.
fn constant_assignment(statement: &Statement) -> (r: Option<(String, String)>)
    ensures
        r is Some <==> is_constant_assignment(statement@),
        r matches Some(p) ==> p.0@ == statement@.lhs.kind->Identifier_0 && p.1@ == literal_text(
            statement@.rhs,
        ),
{
    match &statement.kind {
        StatementKind::Assignment { lhs, rhs } => match &lhs.kind {
            ExprKind::Identifier(name) => match &rhs.kind {
                ExprKind::Number(text) => Some((name.clone(), text.clone())),
                ExprKind::QuantityLiteral { value, .. } => Some((name.clone(), value.clone())),
                _ => None,
            },
            _ => None,
        },
    }
}

/// The name and the text of a string assignment.
fn string_assignment(statement: &Statement) -> (r: Option<(String, String)>)
    ensures
        r is Some <==> is_string_assignment(statement@),
        r matches Some(p) ==> p.0@ == statement@.lhs.kind->Identifier_0 && p.1@
            == statement@.rhs.kind->StringLiteral_0,
{
    match &statement.kind {
        StatementKind::Assignment { lhs, rhs } => match &lhs.kind {
            ExprKind::Identifier(name) => match &rhs.kind {
                ExprKind::StringLiteral(text) => Some((name.clone(), text.clone())),
                _ => None,
            },
            _ => None,
        },
    }
}

/// Whether a statement is an equation for the solver.
pub fn is_equation_statement(statement: &Statement) -> (b: bool)
    ensures
        b == is_equation(statement@),
{
    match &statement.kind {
        StatementKind::Assignment { lhs, rhs } => match &lhs.kind {
            ExprKind::Identifier(_) => match &rhs.kind {
                ExprKind::Number(_) => false,
                ExprKind::QuantityLiteral { .. } => false,
                ExprKind::StringLiteral(_) => false,
                _ => true,
            },
            _ => true,
        },
    }
}

/// The indices of the statements that are equations, in order.
pub fn extract_equations(program: &Program) -> (r: Vec<usize>)
    ensures
        r@ == equation_indices(program@, program@.len() as int),
{
    let mut r: Vec<usize> = Vec::new();
    let mut i: usize = 0;
    while i < program.statements.len()
        invariant
            i <= program.statements.len(),
            program@.len() == program.statements.len(),
            r@ == equation_indices(program@, i as int),
        decreases program.statements.len() - i,
    {
        proof {
            assert(program@[i as int] == program.statements@[i as int]@);
        }
        if is_equation_statement(&program.statements[i]) {
            r.push(i);
        }
        i = i + 1;
    }
    r
}

/// The constants that the program fixes, as pairs of a name and the text of
/// its number, in the order of the statements.
pub fn constant_assignments(program: &Program) -> (r: Vec<(String, String)>)
    ensures
        r@.map_values(|p: (String, String)| (p.0@, p.1@)) == constants_of(
            program@,
            program@.len() as int,
        ),
{
    let mut r: Vec<(String, String)> = Vec::new();
    let mut i: usize = 0;
    while i < program.statements.len()
        invariant
            i <= program.statements.len(),
            program@.len() == program.statements.len(),
            r@.map_values(|p: (String, String)| (p.0@, p.1@)) == constants_of(program@, i as int),
        decreases program.statements.len() - i,
    {
        proof {
            assert(program@[i as int] == program.statements@[i as int]@);
        }
        let ghost before = r@;
        match constant_assignment(&program.statements[i]) {
            Some(p) => {
                r.push(p);
                assert(r@.map_values(|p: (String, String)| (p.0@, p.1@)) =~= before.map_values(
                    |p: (String, String)| (p.0@, p.1@),
                ).push((r@.last().0@, r@.last().1@)));
            },
            None => {},
        }
        i = i + 1;
    }
    r
}

/// The strings that the program names; where a name is assigned twice, the
/// later text counts.
pub fn known_strings(program: &Program) -> (r: NameMap<String>)
    ensures
        r.view().dom() == strings_of(program@, program@.len() as int).dom(),
        forall|k: Seq<char>| #[trigger]
            r.view().contains_key(k) ==> r.view()[k]@ == strings_of(
                program@,
                program@.len() as int,
            )[k],
{
    let mut r: NameMap<String> = NameMap::new();
    let mut i: usize = 0;
    assert(r.view().dom() =~= strings_of(program@, 0).dom());
    while i < program.statements.len()
        invariant
            i <= program.statements.len(),
            program@.len() == program.statements.len(),
            r.view().dom() == strings_of(program@, i as int).dom(),
            forall|k: Seq<char>| #[trigger]
                r.view().contains_key(k) ==> r.view()[k]@ == strings_of(program@, i as int)[k],
        decreases program.statements.len() - i,
    {
        proof {
            assert(program@[i as int] == program.statements@[i as int]@);
        }
        match string_assignment(&program.statements[i]) {
            Some(p) => {
                let (name, text) = p;
                r.insert(name, text);
                assert(r.view().dom() =~= strings_of(program@, i + 1).dom());
            },
            None => {},
        }
        i = i + 1;
    }
    r
}

fn contains_name(names: &Vec<String>, name: &String) -> (b: bool)
    ensures
        b == names_view(names@).contains(name@),
{
    let mut i: usize = 0;
    while i < names.len()
        invariant
            i <= names.len(),
            forall|j: int| 0 <= j < i ==> #[trigger] names@[j]@ != name@,
        decreases names.len() - i,
    {
        if names[i] == *name {
            assert(names_view(names@)[i as int] == name@);
            return true;
        }
        i = i + 1;
    }
    assert forall|j: int| 0 <= j < names_view(names@).len() implies #[trigger] names_view(
        names@,
    )[j] != name@ by {
        assert(names@[j]@ != name@);
    }
    false
}

/// The unknowns of a system: the variables of its equations that `known`
/// does not name, sorted, each once.
pub fn discover_unknowns(program: &Program, known: &Vec<String>) -> (r: Vec<String>)
    ensures
        strictly_sorted(names_view(r@)),
        names_view(r@).to_set() == equation_idents(program@, program@.len() as int).difference(
            names_view(known@).to_set(),
        ),
{
    let mut all: Vec<String> = Vec::new();
    assert(names_view(all@).to_set() =~= Set::empty());
    let mut i: usize = 0;
    while i < program.statements.len()
        invariant
            i <= program.statements.len(),
            program@.len() == program.statements.len(),
            strictly_sorted(names_view(all@)),
            names_view(all@).to_set() == equation_idents(program@, i as int),
        decreases program.statements.len() - i,
    {
        proof {
            assert(program@[i as int] == program.statements@[i as int]@);
        }
        if is_equation_statement(&program.statements[i]) {
            let statement = &program.statements[i];
            match &statement.kind {
                StatementKind::Assignment { lhs, rhs } => {
                    collect_identifiers(lhs, &mut all);
                    collect_identifiers(rhs, &mut all);
                },
            }
            assert(names_view(all@).to_set() =~= equation_idents(program@, i + 1));
        }
        i = i + 1;
    }
    let ghost all_names = names_view(all@);
    let ghost known_set = names_view(known@).to_set();
    let mut r: Vec<String> = Vec::new();
    let mut j: usize = 0;
    while j < all.len()
        invariant
            j <= all.len(),
            all_names == names_view(all@),
            strictly_sorted(all_names),
            known_set == names_view(known@).to_set(),
            forall|a: int| 0 <= a < r@.len() ==> exists|b: int| 0 <= b < j && #[trigger] names_view(r@)[a] == all_names[b],
            strictly_sorted(names_view(r@)),
            names_view(r@).to_set() == all_names.subrange(0, j as int).to_set().difference(known_set),
        decreases all.len() - j,
    {
        let ghost before = names_view(r@);
        if !contains_name(known, &all[j]) {
            r.push(all[j].clone());
        }
        proof {
            let after = names_view(r@);
            assert(all_names.subrange(0, j + 1) =~= all_names.subrange(0, j as int).push(all_names[j as int]));
            if after.len() > before.len() {
                assert(after =~= before.push(all_names[j as int]));
                assert forall|p: int, q: int| 0 <= p < q < after.len() implies seq_lt(
                    #[trigger] after[p],
                    #[trigger] after[q],
                ) by {
                    if q == after.len() - 1 {
                        let b = choose|b: int| 0 <= b < j && before[p] == all_names[b];
                        assert(seq_lt(all_names[b], all_names[j as int]));
                    }
                }
            } else {
                assert(after =~= before);
            }
            all_names.subrange(0, j as int).lemma_push_to_set_commute(all_names[j as int]);
            before.lemma_push_to_set_commute(all_names[j as int]);
            assert(after.to_set() =~= all_names.subrange(0, j + 1).to_set().difference(known_set));
        }
        j = j + 1;
    }
    assert(all_names.subrange(0, all.len() as int) =~= all_names);
    r
}

// ---------------------------------------------------------------------------
// The shape of a system and what a solve reports
// ---------------------------------------------------------------------------

/// How a solve ended.
#[derive(Debug, Clone, Copy, PartialEq, Eq, Structural)]
pub enum ConvergenceStatus {
    Converged,
    MaxIterations,
    InvalidSystem,
    SingularJacobian,
    EvaluationError,
    LineSearchFailed,
}

/// How the counts of equations and unknowns stand: with no unknowns the
/// equations are only checked; with a different count of each the system
/// cannot be solved; otherwise Newton's method runs.
#[derive(Debug, Clone, Copy, PartialEq, Eq, Structural)]
pub enum SystemShape {
    NoUnknowns,
    NotSquare,
    Square,
}

pub open spec fn system_shape_spec(equations: nat, unknowns: nat) -> SystemShape {
    if unknowns == 0 {
        SystemShape::NoUnknowns
    } else if equations != unknowns {
        SystemShape::NotSquare
    } else {
        SystemShape::Square
    }
}

pub fn classify_system(equations: usize, unknowns: usize) -> (s: SystemShape)
    ensures
        s == system_shape_spec(equations as nat, unknowns as nat),
{
    if unknowns == 0 {
        SystemShape::NoUnknowns
    } else if equations != unknowns {
        SystemShape::NotSquare
    } else {
        SystemShape::Square
    }
}

pub open spec fn not_square_spec(equations: nat, unknowns: nat) -> Seq<char> {
    "System is not square: "@ + decimal(equations) + " equations for "@ + decimal(unknowns)
        + " unknowns"@
}

pub fn not_square_message(equations: usize, unknowns: usize) -> (m: String)
    ensures
        m@ == not_square_spec(equations as nat, unknowns as nat),
{
    let mut m = String::from_str("System is not square: ");
    push_decimal(&mut m, equations);
    m.append(" equations for ");
    push_decimal(&mut m, unknowns);
    m.append(" unknowns");
    m
}

pub open spec fn not_converged_spec(max_iters: nat) -> Seq<char> {
    "Solver did not converge in "@ + decimal(max_iters) + " iterations"@
}

pub fn not_converged_message(max_iters: usize) -> (m: String)
    ensures
        m@ == not_converged_spec(max_iters as nat),
{
    let mut m = String::from_str("Solver did not converge in ");
    push_decimal(&mut m, max_iters);
    m.append(" iterations");
    m
}

/// What evaluation reports of a name that has no value: an unknown of the
/// system that has none yet, or a name that nothing defines.
pub open spec fn identifier_error_spec(name: Seq<char>, unknowns: Seq<Seq<char>>) -> Seq<char> {
    if unknowns.contains(name) {
        "Unknown variable '"@ + name + "' has no value in environment"@
    } else {
        "Identifier '"@ + name + "' is not defined"@
    }
}

pub fn identifier_error(name: &String, unknowns: &Vec<String>) -> (m: String)
    ensures
        m@ == identifier_error_spec(name@, names_view(unknowns@)),
{
    if contains_name(unknowns, name) {
        let mut m = String::from_str("Unknown variable '");
        m.append(name.as_str());
        m.append("' has no value in environment");
        m
    } else {
        let mut m = String::from_str("Identifier '");
        m.append(name.as_str());
        m.append("' is not defined");
        m
    }
}

/// The status a front end shows for a failed solve.
pub open spec fn status_label_spec(s: ConvergenceStatus) -> Seq<char> {
    match s {
        ConvergenceStatus::Converged => "solver_converged"@,
        ConvergenceStatus::MaxIterations => "solver_maxiterations"@,
        ConvergenceStatus::InvalidSystem => "solver_invalidsystem"@,
        ConvergenceStatus::SingularJacobian => "solver_singularjacobian"@,
        ConvergenceStatus::EvaluationError => "solver_evaluationerror"@,
        ConvergenceStatus::LineSearchFailed => "solver_linesearchfailed"@,
    }
}

pub fn status_label(s: ConvergenceStatus) -> (r: &'static str)
    ensures
        r@ == status_label_spec(s),
{
    match s {
        ConvergenceStatus::Converged => "solver_converged",
        ConvergenceStatus::MaxIterations => "solver_maxiterations",
        ConvergenceStatus::InvalidSystem => "solver_invalidsystem",
        ConvergenceStatus::SingularJacobian => "solver_singularjacobian",
        ConvergenceStatus::EvaluationError => "solver_evaluationerror",
        ConvergenceStatus::LineSearchFailed => "solver_linesearchfailed",
    }
}

/// Every variable of an equation is an identifier of the program: the
/// unknowns that `discover_unknowns` finds are among the names that
/// `discover_identifiers` lists, whatever is known.
pub proof fn lemma_equation_idents_within_program(stmts: Seq<SpecStatement>, n: int)
    ensures
        equation_idents(stmts, n).subset_of(program_idents(stmts, n)),
    decreases n,
{
    if n > 0 {
        lemma_equation_idents_within_program(stmts, n - 1);
    }
}

/// A statement is exactly one of a constant assignment, a string assignment
/// and an equation.
pub proof fn lemma_statement_kinds_partition(st: SpecStatement)
    ensures
        is_constant_assignment(st) ==> !is_string_assignment(st) && !is_equation(st),
        is_string_assignment(st) ==> !is_constant_assignment(st) && !is_equation(st),
        is_constant_assignment(st) || is_string_assignment(st) || is_equation(st),
{
}

/// With at least one unknown, a system is square exactly when it has as
/// many equations as unknowns; with more or fewer equations it is not
/// square; with no unknowns it is only checked.
pub proof fn lemma_square_exactly_when_counts_match(equations: nat, unknowns: nat)
    ensures
        unknowns == 0 ==> system_shape_spec(equations, unknowns) == SystemShape::NoUnknowns,
        unknowns > 0 ==> (system_shape_spec(equations, unknowns) == SystemShape::Square
            <==> equations == unknowns),
        unknowns > 0 && equations != unknowns ==> system_shape_spec(equations, unknowns)
            == SystemShape::NotSquare,
{
}

} // verus!
