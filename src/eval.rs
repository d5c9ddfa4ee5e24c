use vstd::prelude::*;
use crate::nodes::{BinaryOp, Expression, ExprView, ParseError, UnaryOp, expr_models, substitute};
use crate::parser::Parser;
use crate::grammar::{PState, parse_line};
use crate::lexer::lex;
use crate::operators::{
    cross, dedup, dedup_result, dedup_values, iterate_one_arg, iterate_two_args, negate_all,
    negations, result_view,
};
use crate::values::{Value, ValueView, value_models};

verus! {

/// Why a line could not be evaluated.
#[derive(Debug)]
pub enum Error {
    ParseError(ParseError),
    /// An operator received an operand of the wrong kind.
    MismatchedType,
    /// An exact result, or a step towards it, does not fit in `isize`.
    Overflow,
    /// Addition or subtraction met a zero denominator.
    ZeroDivisor,
    /// Function applications nested deeper than the evaluator allows.
    DepthExceeded,
}

/// How deeply function applications may nest in one evaluation.
pub const MAX_DEPTH: usize = 100;

/// A name and the values bound to it.
pub type Binding = (Seq<char>, Seq<ValueView>);

/// The values bound to `name` in one scope: its latest binding there.
pub open spec fn lookup_scope(s: Seq<Binding>, name: Seq<char>) -> Option<Seq<ValueView>>
    decreases s.len(),
{
    if s.len() == 0 {
        None
    } else if s.last().0 == name {
        Some(s.last().1)
    } else {
        lookup_scope(s.drop_last(), name)
    }
}

/// The values bound to `name` in a scope stack, searched from the innermost
/// (last) scope outwards.
pub open spec fn lookup(d: Seq<Seq<Binding>>, name: Seq<char>) -> Option<Seq<ValueView>>
    decreases d.len(),
{
    if d.len() == 0 {
        None
    } else {
        match lookup_scope(d.last(), name) {
            Some(v) => Some(v),
            None => lookup(d.drop_last(), name),
        }
    }
}

/// The scope stack with `name` bound to `vs` in its innermost scope.
pub open spec fn bind(d: Seq<Seq<Binding>>, name: Seq<char>, vs: Seq<ValueView>) -> Seq<Seq<Binding>> {
    d.update(d.len() - 1, bind_scope(d.last(), name, vs))
}

/// Whether the scope has an entry for `name`.
pub open spec fn scope_has(s: Seq<Binding>, name: Seq<char>) -> bool {
    exists|k: int| 0 <= k < s.len() && #[trigger] s[k].0 == name
}

/// The scope with `name` bound to `vs`: its entry replaced where it has one,
/// else a new entry at the end.
pub open spec fn bind_scope(s: Seq<Binding>, name: Seq<char>, vs: Seq<ValueView>) -> Seq<Binding>
    decreases s.len(),
{
    if s.len() == 0 {
        seq![(name, vs)]
    } else if s.last().0 == name {
        s.drop_last().push((name, vs))
    } else if scope_has(s.drop_last(), name) {
        bind_scope(s.drop_last(), name, vs).push(s.last())
    } else {
        s.push((name, vs))
    }
}

/// No name has two entries in the scope.
pub open spec fn distinct_names(s: Seq<Binding>) -> bool {
    forall|i: int, j: int| 0 <= i < j < s.len() ==> #[trigger] s[i].0 != #[trigger] s[j].0
}

proof fn lemma_bind_scope_present(s: Seq<Binding>, name: Seq<char>, vs: Seq<ValueView>, j: int)
    requires
        distinct_names(s),
        0 <= j < s.len(),
        s[j].0 == name,
    ensures
        bind_scope(s, name, vs) == s.update(j, (name, vs)),
    decreases s.len(),
{
    if s.last().0 == name {
        assert(j == s.len() - 1);
        assert(s.drop_last().push((name, vs)) =~= s.update(j, (name, vs)));
    } else {
        assert(s.drop_last()[j].0 == name);
        assert(scope_has(s.drop_last(), name));
        lemma_bind_scope_present(s.drop_last(), name, vs, j);
        assert(s.drop_last().update(j, (name, vs)).push(s.last()) =~= s.update(j, (name, vs)));
    }
}

proof fn lemma_bind_scope_absent(s: Seq<Binding>, name: Seq<char>, vs: Seq<ValueView>)
    requires
        forall|k: int| 0 <= k < s.len() ==> #[trigger] s[k].0 != name,
    ensures
        bind_scope(s, name, vs) == s.push((name, vs)),
    decreases s.len(),
{
    if s.len() > 0 {
        assert(s.last().0 != name);
        assert(!scope_has(s.drop_last(), name)) by {
            if scope_has(s.drop_last(), name) {
                let k = choose|k: int| 0 <= k < s.drop_last().len() && #[trigger] s.drop_last()[k].0 == name;
                assert(s[k].0 == name);
            }
        }
    }
}

proof fn lemma_lookup_bind_scope(s: Seq<Binding>, name: Seq<char>, vs: Seq<ValueView>)
    ensures
        lookup_scope(bind_scope(s, name, vs), name) == Some(vs),
    decreases s.len(),
{
    if s.len() > 0 && s.last().0 != name {
        if scope_has(s.drop_last(), name) {
            lemma_lookup_bind_scope(s.drop_last(), name, vs);
            let b = bind_scope(s.drop_last(), name, vs).push(s.last());
            assert(b.drop_last() =~= bind_scope(s.drop_last(), name, vs));
        }
    }
}

/// The name that the left side `l` of `l = r` defines and the expression
/// bound to it: `f x y = r` defines `f` as `x => (y => r)`.
pub open spec fn curry(l: ExprView, r: ExprView) -> Option<(Seq<char>, ExprView)>
    decreases l,
{
    match l {
        ExprView::Variable(_, n) => Some((n, r)),
        ExprView::Binary(i, BinaryOp::Call, f, x) => curry(*f, ExprView::Function(i, x, Box::new(r))),
        _ => None,
    }
}

pub open spec fn is_arithmetic(op: BinaryOp) -> bool {
    op == BinaryOp::Multiply || op == BinaryOp::Divide || op == BinaryOp::Add || op
        == BinaryOp::Subtract
}

/// What evaluating `e` in the scope stack `d` gives: the scope stack after it
/// and every value that `e` denotes, or the first error. `fuel` bounds the
/// nesting of function applications.
pub open spec fn eval(d: Seq<Seq<Binding>>, e: ExprView, fuel: nat) -> (
    Seq<Seq<Binding>>,
    Result<Seq<ValueView>, Error>,
)
    decreases fuel, e,
{
    match e {
        ExprView::Number(_, a, b) => (d, Ok(seq![ValueView::ComplexNumber(a, b, 0, 1)])),
        ExprView::ImaginaryConstant(_) => (d, Ok(seq![ValueView::ComplexNumber(0, 1, 1, 1)])),
        ExprView::Boolean(_, b) => (d, Ok(seq![ValueView::Boolean(b)])),
        ExprView::Variable(_, n) => (
            d,
            Ok(
                match lookup(d, n) {
                    Some(v) => v,
                    None => seq![],
                },
            ),
        ),
        ExprView::Function(_, p, b) => (d, Ok(seq![ValueView::Function(*p, *b)])),
        ExprView::Define(_, l, r) => match *l {
            ExprView::Variable(_, n) => {
                let (d1, res) = eval(d, *r, fuel);
                match res {
                    Ok(vs) => (bind(d1, n, vs), Ok(vs)),
                    Err(err) => (d1, Err(err)),
                }
            },
            ExprView::Binary(i, BinaryOp::Call, f, x) => match curry(
                *f,
                ExprView::Function(i, x, r),
            ) {
                Some((n, ExprView::Function(_, p, b))) => (
                    bind(d, n, seq![ValueView::Function(*p, *b)]),
                    Ok(seq![ValueView::Function(*p, *b)]),
                ),
                _ => (d, Ok(seq![])),
            },
            _ => (d, Ok(seq![])),
        },
        ExprView::Tuple(_, es) => {
            let (d1, res) = eval_list(d, es, fuel);
            match res {
                Ok(vs) => (d1, Ok(seq![ValueView::Tuple(vs)])),
                Err(err) => (d1, Err(err)),
            }
        },
        ExprView::Unary(_, UnaryOp::Negate, x) => {
            let (d1, res) = eval(d, *x, fuel);
            match res {
                Ok(vs) => (d1, dedup_result(negations(vs))),
                Err(err) => (d1, Err(err)),
            }
        },
        ExprView::Unary(_, UnaryOp::PlusMinus, x) => {
            let (d1, res) = eval(d, *x, fuel);
            match res {
                Ok(vs) => match negations(vs) {
                    Ok(ns) => (d1, Ok(dedup(vs + ns))),
                    Err(err) => (d1, Err(err)),
                },
                Err(err) => (d1, Err(err)),
            }
        },
        ExprView::Unary(_, _, _) => (d, Ok(seq![])),
        ExprView::Binary(_, BinaryOp::Call, f, x) => {
            let (d1, rf) = eval(d, *f, fuel);
            match rf {
                Err(err) => (d1, Err(err)),
                Ok(fv) => if fv.len() == 1 && fv[0] is Function {
                    if fuel == 0 {
                        (d1, Err(Error::DepthExceeded))
                    } else {
                        eval(
                            d1,
                            substitute(fv[0]->Function_1, fv[0]->Function_0, *x),
                            (fuel - 1) as nat,
                        )
                    }
                } else {
                    let (d2, rx) = eval(d1, *x, fuel);
                    match rx {
                        Err(err) => (d2, Err(err)),
                        Ok(xv) => (d2, dedup_result(cross(BinaryOp::Call, fv, xv))),
                    }
                },
            }
        },
        ExprView::Binary(_, op, x, y) => if is_arithmetic(op) {
            let (d1, rx) = eval(d, *x, fuel);
            match rx {
                Err(err) => (d1, Err(err)),
                Ok(xv) => {
                    let (d2, ry) = eval(d1, *y, fuel);
                    match ry {
                        Err(err) => (d2, Err(err)),
                        Ok(yv) => (d2, dedup_result(cross(op, xv, yv))),
                    }
                },
            }
        } else {
            (d, Ok(seq![]))
        },
    }
}

/// Evaluates `es` from left to right and concatenates their values.
pub open spec fn eval_list(d: Seq<Seq<Binding>>, es: Seq<ExprView>, fuel: nat) -> (
    Seq<Seq<Binding>>,
    Result<Seq<ValueView>, Error>,
)
    decreases fuel, es,
{
    if es.len() == 0 {
        (d, Ok(seq![]))
    } else {
        let (d1, r1) = eval_list(d, es.subrange(0, es.len() - 1), fuel);
        match r1 {
            Err(err) => (d1, Err(err)),
            Ok(acc) => {
                let (d2, r2) = eval(d1, es[es.len() - 1], fuel);
                match r2 {
                    Err(err) => (d2, Err(err)),
                    Ok(v) => (d2, Ok(acc + v)),
                }
            },
        }
    }
}

/// Evaluation never adds or removes scopes.
pub proof fn lemma_eval_keeps_scopes(d: Seq<Seq<Binding>>, e: ExprView, fuel: nat)
    requires
        d.len() >= 1,
    ensures
        eval(d, e, fuel).0.len() == d.len(),
    decreases fuel, e,
{
    match e {
        ExprView::Define(_, l, r) => {
            if *l is Variable {
                lemma_eval_keeps_scopes(d, *r, fuel);
            }
        },
        ExprView::Tuple(_, es) => {
            lemma_eval_list_keeps_scopes(d, es, fuel);
        },
        ExprView::Unary(_, op, x) => {
            lemma_eval_keeps_scopes(d, *x, fuel);
        },
        ExprView::Binary(_, op, x, y) => {
            lemma_eval_keeps_scopes(d, *x, fuel);
            let d1 = eval(d, *x, fuel).0;
            lemma_eval_keeps_scopes(d1, *y, fuel);
            if op == BinaryOp::Call {
                let fv = eval(d, *x, fuel).1;
                if fv is Ok && fv->Ok_0.len() == 1 && fv->Ok_0[0] is Function && fuel > 0 {
                    let v = fv->Ok_0;
                    lemma_eval_keeps_scopes(
                        d1,
                        substitute(v[0]->Function_1, v[0]->Function_0, *y),
                        (fuel - 1) as nat,
                    );
                }
            }
        },
        _ => {},
    }
}

proof fn lemma_eval_list_keeps_scopes(d: Seq<Seq<Binding>>, es: Seq<ExprView>, fuel: nat)
    requires
        d.len() >= 1,
    ensures
        eval_list(d, es, fuel).0.len() == d.len(),
    decreases fuel, es,
{
    if es.len() > 0 {
        let init = es.subrange(0, es.len() - 1);
        lemma_eval_list_keeps_scopes(d, init, fuel);
        lemma_eval_keeps_scopes(eval_list(d, init, fuel).0, es[es.len() - 1], fuel);
    }
}

/// After `n = r` evaluates without error, `n` denotes exactly the values that
/// the definition gave.
pub proof fn lemma_define_then_lookup(
    d: Seq<Seq<Binding>>,
    i: usize,
    j: usize,
    n: Seq<char>,
    r: ExprView,
    fuel: nat,
)
    requires
        d.len() >= 1,
        eval(d, ExprView::Define(i, Box::new(ExprView::Variable(j, n)), Box::new(r)), fuel).1 is Ok,
    ensures
        ({
            let (d1, res) = eval(
                d,
                ExprView::Define(i, Box::new(ExprView::Variable(j, n)), Box::new(r)),
                fuel,
            );
            lookup(d1, n) == Some(res->Ok_0)
        }),
{
    lemma_eval_keeps_scopes(d, r, fuel);
    let (d0, vs) = eval(d, r, fuel);
    let d1 = bind(d0, n, vs->Ok_0);
    assert(d1.last() == bind_scope(d0.last(), n, vs->Ok_0));
    lemma_lookup_bind_scope(d0.last(), n, vs->Ok_0);
}

/// Applying a name bound to one function `p => b` evaluates `b` with the
/// argument expression, unevaluated, put in place of `p`.
pub proof fn lemma_call_by_name(
    d: Seq<Seq<Binding>>,
    i: usize,
    j: usize,
    n: Seq<char>,
    x: ExprView,
    p: ExprView,
    b: ExprView,
    fuel: nat,
)
    requires
        lookup(d, n) == Some(seq![ValueView::Function(p, b)]),
        fuel > 0,
    ensures
        eval(d, ExprView::Binary(i, BinaryOp::Call, Box::new(ExprView::Variable(j, n)), Box::new(x)), fuel)
            == eval(d, substitute(b, p, x), (fuel - 1) as nat),
{
    assert(eval(d, ExprView::Variable(j, n), fuel) == (
        d,
        Ok::<Seq<ValueView>, Error>(seq![ValueView::Function(p, b)]),
    ));
}

/// Applying a name that nothing binds gives no values.
pub proof fn lemma_apply_unbound(
    d: Seq<Seq<Binding>>,
    i: usize,
    j: usize,
    n: Seq<char>,
    x: ExprView,
    fuel: nat,
)
    requires
        lookup(d, n) is None,
        eval(d, x, fuel).1 is Ok,
    ensures
        eval(d, ExprView::Binary(i, BinaryOp::Call, Box::new(ExprView::Variable(j, n)), Box::new(x)), fuel).1
            == Ok::<Seq<ValueView>, Error>(seq![]),
{
    let xv = eval(d, x, fuel).1->Ok_0;
    assert(eval(d, ExprView::Variable(j, n), fuel) == (d, Ok::<Seq<ValueView>, Error>(seq![])));
    assert(cross(BinaryOp::Call, seq![], xv) == Ok::<Seq<ValueView>, Error>(seq![]));
    assert(dedup(seq![]) == Seq::<ValueView>::empty());
}

/// Applying a name bound to anything but a single function multiplies each
/// of its values with each value of the argument.
pub proof fn lemma_apply_non_function(
    d: Seq<Seq<Binding>>,
    i: usize,
    j: usize,
    n: Seq<char>,
    x: ExprView,
    fuel: nat,
)
    requires
        lookup(d, n) matches Some(vs) && !(vs.len() == 1 && vs[0] is Function),
        eval(d, x, fuel).1 is Ok,
    ensures
        eval(d, ExprView::Binary(i, BinaryOp::Call, Box::new(ExprView::Variable(j, n)), Box::new(x)), fuel)
            == (
            eval(d, x, fuel).0,
            dedup_result(cross(BinaryOp::Call, lookup(d, n)->Some_0, eval(d, x, fuel).1->Ok_0)),
        ),
{
    assert(eval(d, ExprView::Variable(j, n), fuel) == (
        d,
        Ok::<Seq<ValueView>, Error>(lookup(d, n)->Some_0),
    ));
}

/// One line evaluated as a whole: a line that fails leaves the scope stack
/// as it was.
pub open spec fn run_line(d: Seq<Seq<Binding>>, e: ExprView) -> (
    Seq<Seq<Binding>>,
    Result<Seq<ValueView>, Error>,
) {
    match eval(d, e, MAX_DEPTH as nat) {
        (d1, Ok(v)) => (d1, Ok(v)),
        (_, Err(err)) => (d, Err(err)),
    }
}

/// One line of text parsed and evaluated as a whole.
pub open spec fn run_text(d: Seq<Seq<Binding>>, cs: Seq<char>) -> (
    Seq<Seq<Binding>>,
    Result<Seq<ValueView>, Error>,
) {
    match parse_line(cs) {
        Err(pe) => (d, Err(Error::ParseError(pe))),
        Ok(e) => run_line(d, e),
    }
}

/// Evaluates expressions against a stack of scopes of definitions. The
/// outermost scope holds what top-level definitions bind and lasts as long
/// as the evaluator.
pub struct Evaluator {
    definitions: Vec<Vec<(String, Vec<Value>)>>,
}

pub open spec fn scope_view(s: &Vec<(String, Vec<Value>)>) -> Seq<Binding> {
    Seq::new(s.len() as nat, |j: int| (s[j].0@, value_models(&s[j].1)))
}

impl View for Evaluator {
    type V = Seq<Seq<Binding>>;

    closed spec fn view(&self) -> Seq<Seq<Binding>> {
        Seq::new(self.definitions.len() as nat, |i: int| scope_view(&self.definitions[i]))
    }
}

/// The left side `l` of `l = r` read as a function head: the name defined
/// and the function literal bound to it.
fn curry_exec(l: &Expression, r: Expression) -> (res: Option<(String, Expression)>)
    ensures
        match (res, curry(l@, r@)) {
            (Some((n, e)), Some((m, f))) => n@ == m && e@ == f,
            (None, None) => true,
            _ => false,
        },
    decreases l,
{
    match l {
        Expression::Variable(_, n) => Some((n.clone(), r)),
        Expression::Binary(i, BinaryOp::Call, f, x) => curry_exec(
            f,
            Expression::Function(*i, Box::new(x.copy()), Box::new(r)),
        ),
        _ => None,
    }
}

impl Evaluator {
    /// At least one scope is present, and no scope binds a name twice.
    pub open spec fn wf(&self) -> bool {
        &&& self@.len() >= 1
        &&& forall|i: int| 0 <= i < self@.len() ==> distinct_names(#[trigger] self@[i])
    }

    /// An evaluator with one empty scope.
    pub fn new() -> (r: Evaluator)
        ensures
            r.wf(),
            r@ == seq![Seq::<Binding>::empty()],
    {
        let r = Evaluator { definitions: vec![Vec::new()] };
        assert(r@ =~~= seq![Seq::<Binding>::empty()]);
        r
    }

    /// Opens a new innermost scope.
    pub fn push_scope(&mut self)
        ensures
            final(self)@ == old(self)@.push(Seq::<Binding>::empty()),
    {
        self.definitions.push(Vec::new());
        assert(self@ =~~= old(self)@.push(Seq::<Binding>::empty()));
    }

    /// Closes the innermost scope; the outermost one is never closed.
    pub fn pop_scope(&mut self)
        ensures
            old(self)@.len() > 1 ==> final(self)@ == old(self)@.drop_last(),
            old(self)@.len() <= 1 ==> final(self)@ == old(self)@,
    {
        if self.definitions.len() > 1 {
            self.definitions.pop();
            assert(self@ =~= old(self)@.drop_last());
        }
    }

    /// The values bound to `name`, from the innermost scope that binds it.
    pub fn get_definition(&self, name: &String) -> (r: Option<Vec<Value>>)
        ensures
            match (r, lookup(self@, name@)) {
                (Some(v), Some(w)) => value_models(&v) == w,
                (None, None) => true,
                _ => false,
            },
    {
        let ghost d = self@;
        let mut i: usize = self.definitions.len();
        assert(d.take(i as int) =~= d);
        while i > 0
            invariant
                i <= self.definitions.len(),
                d == self@,
                lookup(d, name@) == lookup(d.take(i as int), name@),
            decreases i,
        {
            let scope = &self.definitions[i - 1];
            let ghost sv = d[i - 1];
            assert(sv == scope_view(scope));
            let mut j: usize = scope.len();
            assert(sv.take(j as int) =~= sv);
            while j > 0
                invariant
                    0 < i <= self.definitions.len(),
                    d == self@,
                    lookup(d, name@) == lookup(d.take(i as int), name@),
                    sv == d[i - 1],
                    scope == &self.definitions[i - 1],
                    j <= scope.len(),
                    sv == scope_view(scope),
                    lookup_scope(sv, name@) == lookup_scope(sv.take(j as int), name@),
                decreases j,
            {
                proof {
                    assert(sv.take(j as int).drop_last() =~= sv.take(j - 1));
                }
                if scope[j - 1].0 == *name {
                    let r = value_copies(&scope[j - 1].1);
                    proof {
                        assert(d.take(i as int).drop_last() =~= d.take(i - 1));
                        assert(d.take(i as int).last() == sv);
                    }
                    return Some(r);
                }
                j = j - 1;
            }
            proof {
                assert(d.take(i as int).drop_last() =~= d.take(i - 1));
                assert(d.take(i as int).last() == sv);
                assert(sv.take(0) =~= Seq::<Binding>::empty());
            }
            i = i - 1;
        }
        assert(d.take(0) =~= Seq::<Seq<Binding>>::empty());
        None
    }

    /// Binds `name` to `values` in the innermost scope, replacing the entry
    /// the name already has there.
    fn bind(&mut self, name: String, values: Vec<Value>)
        requires
            old(self).wf(),
        ensures
            final(self).wf(),
            final(self)@ == bind(old(self)@, name@, value_models(&values)),
    {
        let ghost vm = value_models(&values);
        let ghost nm = name@;
        let ghost d = self@;
        let scope = match self.definitions.pop() {
            Some(s) => s,
            None => Vec::new(),
        };
        let ghost sv = scope_view(&scope);
        assert(sv == d.last());
        let mut j: usize = 0;
        while j < scope.len() && !same_name(&scope[j].0, &name)
            invariant
                j <= scope.len(),
                nm == name@,
                sv == scope_view(&scope),
                forall|k: int| 0 <= k < j ==> #[trigger] sv[k].0 != nm,
            decreases scope.len() - j,
        {
            assert(sv[j as int].0 == scope@[j as int].0@);
            j = j + 1;
        }
        let found = j < scope.len();
        if found {
            assert(sv[j as int].0 == nm);
        }
        let mut next: Vec<(String, Vec<Value>)> = Vec::new();
        let mut k: usize = 0;
        while k < j
            invariant
                j <= scope.len(),
                k <= j,
                sv == scope_view(&scope),
                scope_view(&next) == sv.take(k as int),
            decreases j - k,
        {
            let ghost before = scope_view(&next);
            let e = copy_entry(&scope[k]);
            next.push(e);
            assert(scope_view(&next) =~= before.push(sv[k as int]));
            assert(sv.take(k + 1) =~= sv.take(k as int).push(sv[k as int]));
            k = k + 1;
        }
        let ghost before = scope_view(&next);
        next.push((name, values));
        assert(scope_view(&next) =~= before.push((nm, vm)));
        if found {
            k = j + 1;
            while k < scope.len()
                invariant
                    j < k <= scope.len(),
                    sv == scope_view(&scope),
                    scope_view(&next) == sv.take(j as int).push((nm, vm)) + sv.subrange(j + 1, k as int),
                decreases scope.len() - k,
            {
                let ghost before = scope_view(&next);
                let e = copy_entry(&scope[k]);
                next.push(e);
                assert(scope_view(&next) =~= before.push(sv[k as int]));
                assert(sv.take(j as int).push((nm, vm)) + sv.subrange(j + 1, k + 1) =~= before.push(sv[k as int]));
                k = k + 1;
            }
        }
        proof {
            if found {
                lemma_bind_scope_present(sv, nm, vm, j as int);
                assert(scope_view(&next) =~= sv.update(j as int, (nm, vm)));
            } else {
                lemma_bind_scope_absent(sv, nm, vm);
                assert(scope_view(&next) =~= sv.push((nm, vm)));
            }
            let nv = scope_view(&next);
            assert(distinct_names(sv));
            assert forall|a: int, b: int| 0 <= a < b < nv.len() implies nv[a].0 != nv[b].0 by {
                if found {
                    assert(sv[a].0 != sv[b].0);
                } else if b < sv.len() {
                    assert(sv[a].0 != sv[b].0);
                } else {
                    assert(sv[a].0 != nm);
                }
            }
        }
        self.definitions.push(next);
        assert(self@ =~= bind(old(self)@, nm, vm));
    }
}

proof fn lemma_eval_list_err(d: Seq<Seq<Binding>>, es: Seq<ExprView>, k: int, fuel: nat)
    requires
        0 <= k <= es.len(),
        eval_list(d, es.take(k), fuel).1 is Err,
    ensures
        eval_list(d, es, fuel) == eval_list(d, es.take(k), fuel),
    decreases es.len() - k,
{
    if k < es.len() {
        assert(es.take(k + 1).subrange(0, k) =~= es.take(k));
        lemma_eval_list_err(d, es, k + 1, fuel);
    } else {
        assert(es.take(k) =~= es);
    }
}

impl Evaluator {
    /// Every value that `expr` denotes in the current scopes, in order and
    /// without repetitions where an operator combined them, or the first
    /// error. Function applications may nest `fuel` deep.
    pub fn evaluate_expression(&mut self, expr: &Expression, fuel: usize) -> (r: Result<Vec<Value>, Error>)
        requires
            old(self).wf(),
        ensures
            final(self).wf(),
            (final(self)@, result_view(r)) == eval(old(self)@, expr@, fuel as nat),
        decreases fuel, expr, 1int,
    {
        match expr {
            Expression::Number(_, a, b) => {
                let r = vec![Value::ComplexNumber(*a, *b, 0, 1)];
                assert(value_models(&r) =~= seq![ValueView::ComplexNumber(*a, *b, 0, 1)]);
                Ok(r)
            },
            Expression::ImaginaryConstant(_) => {
                let r = vec![Value::ComplexNumber(0, 1, 1, 1)];
                assert(value_models(&r) =~= seq![ValueView::ComplexNumber(0, 1, 1, 1)]);
                Ok(r)
            },
            Expression::Boolean(_, b) => {
                let r = vec![Value::Boolean(*b)];
                assert(value_models(&r) =~= seq![ValueView::Boolean(*b)]);
                Ok(r)
            },
            Expression::Variable(_, n) => match self.get_definition(n) {
                Some(v) => Ok(v),
                None => {
                    let r: Vec<Value> = Vec::new();
                    assert(value_models(&r) =~= seq![]);
                    Ok(r)
                },
            },
            Expression::Function(_, p, b) => {
                let r = vec![Value::Function(p.copy(), b.copy())];
                assert(value_models(&r) =~= seq![ValueView::Function(p@, b@)]);
                Ok(r)
            },
            Expression::Define(_, l, r) => self.define(l, r, fuel),
            Expression::Tuple(i, es) => {
                let ghost d0 = self@;
                let ghost esm = expr_models(es);
                let mut out: Vec<Value> = Vec::new();
                let mut k: usize = 0;
                proof {
                    assert(esm.take(0) =~= seq![]);
                    assert(value_models(&out) =~= seq![]);
                }
                while k < es.len()
                    invariant
                        *expr == Expression::Tuple(*i, *es),
                        esm == expr_models(es),
                        d0 == old(self)@,
                        self.wf(),
                        k <= es.len(),
                        eval_list(d0, esm.take(k as int), fuel as nat) == (
                            self@,
                            Ok::<Seq<ValueView>, Error>(value_models(&out)),
                        ),
                    decreases es.len() - k,
                {
                    proof {
                        assert(decreases_to!(*expr => (*expr)->Tuple_1));
                        assert(decreases_to!(*es => es[k as int]));
                        assert(esm.take(k + 1).subrange(0, k as int) =~= esm.take(k as int));
                        assert(esm.take(k + 1)[k as int] == es[k as int]@);
                    }
                    let ghost prev = value_models(&out);
                    match self.evaluate_expression(&es[k], fuel) {
                        Err(e) => {
                            proof {
                                lemma_eval_list_err(d0, esm, k + 1, fuel as nat);
                            }
                            return Err(e);
                        },
                        Ok(mut v) => {
                            let ghost vv = value_models(&v);
                            out.append(&mut v);
                            assert(value_models(&out) =~= prev + vv);
                        },
                    }
                    k = k + 1;
                }
                proof {
                    assert(esm.take(es.len() as int) =~= esm);
                }
                let ghost om = value_models(&out);
                let r = vec![Value::Tuple(out)];
                assert(value_models(&r) =~= seq![ValueView::Tuple(om)]);
                Ok(r)
            },
            Expression::Unary(_, UnaryOp::Negate, x) => {
                let xs = self.evaluate_expression(x, fuel)?;
                iterate_one_arg(&xs)
            },
            Expression::Unary(_, UnaryOp::PlusMinus, x) => {
                let xs = self.evaluate_expression(x, fuel)?;
                let mut ns = negate_all(&xs)?;
                let mut all = value_copies(&xs);
                let ghost am = value_models(&all);
                let ghost nm = value_models(&ns);
                all.append(&mut ns);
                assert(value_models(&all) =~= am + nm);
                Ok(dedup_values(all))
            },
            Expression::Unary(_, _, _) => {
                let r: Vec<Value> = Vec::new();
                assert(value_models(&r) =~= seq![]);
                Ok(r)
            },
            Expression::Binary(_, BinaryOp::Call, _, _) => self.call(expr, fuel),
            Expression::Binary(_, op, x, y) => {
                if *op == BinaryOp::Multiply || *op == BinaryOp::Divide || *op == BinaryOp::Add
                    || *op == BinaryOp::Subtract {
                    let xs = self.evaluate_expression(x, fuel)?;
                    let ys = self.evaluate_expression(y, fuel)?;
                    iterate_two_args(*op, &xs, &ys)
                } else {
                    let r: Vec<Value> = Vec::new();
                    assert(value_models(&r) =~= seq![]);
                    Ok(r)
                }
            },
        }
    }

    /// Evaluates `l = r`. A bare name is bound to the values of `r`; a head
    /// `f x y` binds `f` to the function literal `x => (y => r)`, unevaluated.
    /// Either way the bound values are the result. Other left sides bind
    /// nothing and give no values.
    fn define(&mut self, l: &Expression, r: &Expression, fuel: usize) -> (res: Result<Vec<Value>, Error>)
        requires
            old(self).wf(),
        ensures
            final(self).wf(),
            (final(self)@, result_view(res)) == eval(
                old(self)@,
                ExprView::Define(0, Box::new(l@), Box::new(r@)),
                fuel as nat,
            ),
        decreases fuel, r, 2int,
    {
        match l {
            Expression::Variable(_, n) => {
                let vs = self.evaluate_expression(r, fuel)?;
                self.bind(n.clone(), value_copies(&vs));
                Ok(vs)
            },
            Expression::Binary(i, BinaryOp::Call, f, x) => {
                let literal = Expression::Function(*i, Box::new(x.copy()), Box::new(r.copy()));
                match curry_exec(f, literal) {
                    Some((n, Expression::Function(_, p, b))) => {
                        let v = Value::Function(*p, *b);
                        let r = vec![v.copy()];
                        assert(value_models(&r) =~= seq![v@]);
                        let bound = vec![v];
                        assert(value_models(&bound) =~= value_models(&r));
                        self.bind(n, bound);
                        Ok(r)
                    },
                    _ => {
                        let r: Vec<Value> = Vec::new();
                        assert(value_models(&r) =~= seq![]);
                        Ok(r)
                    },
                }
            },
            _ => {
                let r: Vec<Value> = Vec::new();
                assert(value_models(&r) =~= seq![]);
                Ok(r)
            },
        }
    }

    /// Evaluates an application `f x`. When `f` denotes exactly one function
    /// `p => b`, the result is that of `b` with `x`, unevaluated, put in
    /// place of `p`. Otherwise it is the product of every value of `f` with
    /// every value of `x`.
    fn call(&mut self, node: &Expression, fuel: usize) -> (res: Result<Vec<Value>, Error>)
        requires
            old(self).wf(),
            node matches Expression::Binary(_, BinaryOp::Call, _, _),
        ensures
            final(self).wf(),
            (final(self)@, result_view(res)) == eval(old(self)@, node@, fuel as nat),
        decreases fuel, node, 0int,
    {
        let Expression::Binary(_, _, f, x) = node else {
            return Err(Error::MismatchedType);
        };
        let fv = self.evaluate_expression(f, fuel)?;
        if fv.len() == 1 {
            if let Value::Function(p, body) = &fv[0] {
                assert(value_models(&fv)[0] == fv[0]@);
                if fuel == 0 {
                    return Err(Error::DepthExceeded);
                }
                let e = body.sub(p, x);
                return self.evaluate_expression(&e, fuel - 1);
            }
        }
        assert(!(value_models(&fv).len() == 1 && value_models(&fv)[0] is Function));
        let xv = self.evaluate_expression(x, fuel)?;
        iterate_two_args(BinaryOp::Call, &fv, &xv)
    }
}

impl Evaluator {
    /// Evaluates one parsed line with function applications nested at most
    /// `MAX_DEPTH` deep. A line that fails leaves the definitions as they
    /// were, so a definition inside it takes effect only if it succeeds.
    pub fn evaluate_line(&mut self, expr: &Expression) -> (r: Result<Vec<Value>, Error>)
        requires
            old(self).wf(),
        ensures
            final(self).wf(),
            (final(self)@, result_view(r)) == run_line(old(self)@, expr@),
    {
        let saved = self.copy_definitions();
        let r = self.evaluate_expression(expr, MAX_DEPTH);
        if r.is_err() {
            self.definitions = saved;
        }
        r
    }

    /// Parses and evaluates one line of input. A line that fails, to parse
    /// or to evaluate, leaves the definitions as they were.
    pub fn evaluate(&mut self, code: String) -> (r: Result<Vec<Value>, Error>)
        requires
            old(self).wf(),
        ensures
            final(self).wf(),
            (final(self)@, result_view(r)) == run_text(old(self)@, code@),
    {
        let mut parser = Parser::new(code);
        assert(parser.state() == PState { index: lex(code@, 0).1, token: lex(code@, 0).0 });
        match parser.parse() {
            Ok(expression) => self.evaluate_line(&expression),
            Err(e) => Err(Error::ParseError(e)),
        }
    }

    fn copy_definitions(&self) -> (r: Vec<Vec<(String, Vec<Value>)>>)
        ensures
            (Evaluator { definitions: r })@ == self@,
    {
        let mut out: Vec<Vec<(String, Vec<Value>)>> = Vec::new();
        let mut i: usize = 0;
        while i < self.definitions.len()
            invariant
                i <= self.definitions.len(),
                out@.len() == i,
                forall|k: int| 0 <= k < i ==> scope_view(&#[trigger] out@[k]) == scope_view(&self.definitions@[k]),
            decreases self.definitions.len() - i,
        {
            let scope = &self.definitions[i];
            let mut copy: Vec<(String, Vec<Value>)> = Vec::new();
            let mut j: usize = 0;
            while j < scope.len()
                invariant
                    j <= scope.len(),
                    copy@.len() == j,
                    forall|k: int| 0 <= k < j ==> (#[trigger] copy@[k]).0@ == scope@[k].0@ && value_models(&copy@[k].1) == value_models(&scope@[k].1),
                decreases scope.len() - j,
            {
                copy.push((scope[j].0.clone(), value_copies(&scope[j].1)));
                j = j + 1;
            }
            assert(scope_view(&copy) =~= scope_view(scope));
            out.push(copy);
            i = i + 1;
        }
        assert((Evaluator { definitions: out })@ =~= self@);
        out
    }
}

/// Whether two names are the same text.
fn same_name(a: &String, b: &String) -> (r: bool)
    ensures
        r == (a@ == b@),
{
    *a == *b
}

/// A deep copy of one scope entry.
fn copy_entry(e: &(String, Vec<Value>)) -> (r: (String, Vec<Value>))
    ensures
        r.0@ == e.0@,
        value_models(&r.1) == value_models(&e.1),
{
    (e.0.clone(), value_copies(&e.1))
}

/// Deep copies of `xs`.
pub fn value_copies(xs: &Vec<Value>) -> (r: Vec<Value>)
    ensures
        value_models(&r) == value_models(xs),
{
    let mut out: Vec<Value> = Vec::new();
    let mut k: usize = 0;
    while k < xs.len()
        invariant
            k <= xs.len(),
            out@.len() == k,
            forall|j: int| 0 <= j < k ==> (#[trigger] out@[j])@ == xs@[j]@,
        decreases xs.len() - k,
    {
        out.push(xs[k].copy());
        k = k + 1;
    }
    assert(value_models(&out) =~= value_models(xs));
    out
}

} // verus!
