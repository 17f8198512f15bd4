//! A tree-walking evaluator over the syntax tree, with lexically nested
//! scopes kept in an arena and addressed by index.

use vstd::prelude::*;
use crate::ast::{AST, DeclarationAST, ExprAST};

verus! {

/// What went wrong during evaluation.
#[derive(Debug)]
pub enum InterpretErrorKind {
    /// No enclosing scope defines the variable.
    UnknownVariable(String),
    /// The variable is already defined in the same scope.
    ShadowedVariable(String),
    /// A block without a trailing expression has no value.
    BlockWithoutValue,
    /// The result does not fit an `i32`.
    ArithmeticOverflow,
    DivisionByZero,
}

#[derive(Debug)]
pub struct InterpretError(pub InterpretErrorKind);

/// The error as a value of the specification, with names as character sequences.
pub enum ErrorModel {
    UnknownVariable(Seq<char>),
    ShadowedVariable(Seq<char>),
    BlockWithoutValue,
    ArithmeticOverflow,
    DivisionByZero,
}

impl View for InterpretError {
    type V = ErrorModel;

    open spec fn view(&self) -> ErrorModel {
        match self.0 {
            InterpretErrorKind::UnknownVariable(n) => ErrorModel::UnknownVariable(n@),
            InterpretErrorKind::ShadowedVariable(n) => ErrorModel::ShadowedVariable(n@),
            InterpretErrorKind::BlockWithoutValue => ErrorModel::BlockWithoutValue,
            InterpretErrorKind::ArithmeticOverflow => ErrorModel::ArithmeticOverflow,
            InterpretErrorKind::DivisionByZero => ErrorModel::DivisionByZero,
        }
    }
}

/// What a run reports besides errors, in order.
#[derive(Debug, Clone, Copy, PartialEq, Eq, Structural)]
pub enum Notice {
    /// `main` evaluated to this value.
    MainValue(i32),
    /// A function other than `main` was declared; only `main` is run.
    FunctionNotRun,
    /// A block held this many statements, which are parsed but not run.
    StatementsNotRun(usize),
}

/// One scope: the index of its parent scope and its own variables.
struct Scope {
    parent: Option<usize>,
    variables: Vec<(String, i32)>,
}

impl Scope {
    /// A scope with no variables.
    fn new(parent: Option<usize>) -> (r: Scope)
        ensures
            r.parent == parent,
            r.variables@.len() == 0,
    {
        Scope { parent, variables: Vec::new() }
    }

    /// Position of the first variable named `name` at or after `i`.
    spec fn index_from(vars: Seq<(String, i32)>, name: Seq<char>, i: int) -> Option<int>
        decreases vars.len() - i,
    {
        if i < 0 || i >= vars.len() {
            None
        } else if vars[i].0@ == name {
            Some(i)
        } else {
            Self::index_from(vars, name, i + 1)
        }
    }

    spec fn local_index(&self, name: Seq<char>) -> Option<int> {
        Self::index_from(self.variables@, name, 0)
    }

    proof fn lemma_index_from(vars: Seq<(String, i32)>, name: Seq<char>, i: int)
        requires
            0 <= i,
        ensures
            Self::index_from(vars, name, i) matches Some(k) ==> i <= k < vars.len() && vars[k].0@ == name,
            Self::index_from(vars, name, i) is None ==> forall|k: int| i <= k < vars.len() ==> vars[k].0@ != name,
        decreases vars.len() - i,
    {
        if i < vars.len() {
            Self::lemma_index_from(vars, name, i + 1);
        }
    }

    /// Finds the variable named `name` in this scope alone.
    fn find(&self, name: &String) -> (r: Option<usize>)
        ensures
            r matches Some(k) ==> self.local_index(name@) == Some(k as int) && k < self.variables@.len(),
            r is None ==> self.local_index(name@) is None,
    {
        let mut i: usize = 0;
        while i < self.variables.len()
            invariant
                i <= self.variables@.len(),
                Self::index_from(self.variables@, name@, 0) == Self::index_from(self.variables@, name@, i as int),
            decreases self.variables@.len() - i,
        {
            if self.variables[i].0 == *name {
                return Some(i);
            }
            i = i + 1;
        }
        None
    }

    /// Adds a variable to this scope; a name already defined here is refused.
    fn add(&mut self, name: &String, val: i32) -> (r: Result<(), InterpretError>)
        ensures
            final(self).parent == old(self).parent,
            old(self).local_index(name@) is Some ==> r is Err && r->Err_0@ == ErrorModel::ShadowedVariable(name@)
                && final(self).variables@ == old(self).variables@,
            old(self).local_index(name@) is None ==> r is Ok && final(self).variables@.len() == old(self).variables@.len() + 1
                && final(self).variables@.last().0@ == name@ && final(self).variables@.last().1 == val
                && final(self).variables@.drop_last() == old(self).variables@,
            names_unique(old(self).variables@) ==> names_unique(final(self).variables@),
    {
        match self.find(name) {
            Some(_) => Err(InterpretError(InterpretErrorKind::ShadowedVariable(name.clone()))),
            None => {
                proof {
                    Self::lemma_index_from(self.variables@, name@, 0);
                }
                self.variables.push((name.clone(), val));
                Ok(())
            },
        }
    }
}

/// No two variables of `vars` share a name.
spec fn names_unique(vars: Seq<(String, i32)>) -> bool {
    forall|i: int, j: int| 0 <= i < j < vars.len() ==> (#[trigger] vars[i]).0@ != (#[trigger] vars[j]).0@
}

/// An evaluator: an arena of scopes whose first entry is the global scope.
pub struct Interpretter {
    scopes: Vec<Scope>,
}

/// The arithmetic operators of expressions.
pub enum Arith {
    Add,
    Subtract,
    Multiply,
    Divide,
}

/// `a op b` on `i32`, or the error when it is undefined or out of range.
/// Division rounds toward zero.
pub open spec fn arith_result(op: Arith, a: i32, b: i32) -> Result<i32, ErrorModel> {
    let x = a as int;
    let y = b as int;
    let v = match op {
        Arith::Add => x + y,
        Arith::Subtract => x - y,
        Arith::Multiply => x * y,
        Arith::Divide => crate::arith::trunc_div(x, y),
    };
    if op is Divide && y == 0 {
        Err(ErrorModel::DivisionByZero)
    } else if v < i32::MIN || v > i32::MAX {
        Err(ErrorModel::ArithmeticOverflow)
    } else {
        Ok(v as i32)
    }
}

pub open spec fn statements_notice(count: nat) -> Seq<Notice> {
    if count == 0 {
        Seq::empty()
    } else {
        seq![Notice::StatementsNotRun(count as usize)]
    }
}

/// The value of `e` where `env` gives the value of each visible variable,
/// and the notices reported on the way.
pub open spec fn eval(e: ExprAST, env: spec_fn(Seq<char>) -> Option<i32>) -> (
    Result<i32, ErrorModel>,
    Seq<Notice>,
)
    decreases e,
{
    match e {
        ExprAST::Add(l, r) => eval_binary(Arith::Add, eval(*l, env), eval(*r, env)),
        ExprAST::Subtract(l, r) => eval_binary(Arith::Subtract, eval(*l, env), eval(*r, env)),
        ExprAST::Multiply(l, r) => eval_binary(Arith::Multiply, eval(*l, env), eval(*r, env)),
        ExprAST::Divide(l, r) => eval_binary(Arith::Divide, eval(*l, env), eval(*r, env)),
        ExprAST::Literal(i) => (Ok(i), Seq::empty()),
        ExprAST::Block(statements, tail) => {
            let notes = statements_notice(statements@.len());
            match tail {
                Some(t) => {
                    let inner = eval(*t, env);
                    (inner.0, notes + inner.1)
                },
                None => (Err(ErrorModel::BlockWithoutValue), notes),
            }
        },
        ExprAST::Variable(name) => match env(name@) {
            Some(v) => (Ok(v), Seq::empty()),
            None => (Err(ErrorModel::UnknownVariable(name@)), Seq::empty()),
        },
    }
}

/// Left operand first; the right one is evaluated only when the left has a value.
pub open spec fn eval_binary(
    op: Arith,
    left: (Result<i32, ErrorModel>, Seq<Notice>),
    right: (Result<i32, ErrorModel>, Seq<Notice>),
) -> (Result<i32, ErrorModel>, Seq<Notice>) {
    match left.0 {
        Err(x) => (Err(x), left.1),
        Ok(a) => match right.0 {
            Err(x) => (Err(x), left.1 + right.1),
            Ok(b) => (arith_result(op, a, b), left.1 + right.1),
        },
    }
}

/// The scope, at or above `h` along the parent chain, that defines `name`.
spec fn owner(scopes: Seq<Scope>, h: int, name: Seq<char>) -> Option<int>
    decreases h,
{
    if h < 0 || h >= scopes.len() {
        None
    } else if scopes[h].local_index(name) is Some {
        Some(h)
    } else {
        match scopes[h].parent {
            Some(p) => if 0 <= p < h {
                owner(scopes, p as int, name)
            } else {
                None
            },
            None => None,
        }
    }
}

/// The value of `name` as seen from scope `h`.
spec fn visible_value(scopes: Seq<Scope>, h: int, name: Seq<char>) -> Option<i32> {
    match owner(scopes, h, name) {
        Some(o) => Some(scopes[o].variables@[scopes[o].local_index(name)->Some_0].1),
        None => None,
    }
}

/// `later` holds every scope of `earlier` unchanged, and perhaps more.
spec fn extends(later: Seq<Scope>, earlier: Seq<Scope>) -> bool {
    &&& later.len() >= earlier.len()
    &&& forall|i: int|
        0 <= i < earlier.len() ==> (#[trigger] later[i]).parent == earlier[i].parent
            && later[i].variables@ == earlier[i].variables@
}

proof fn lemma_extends_owner(later: Seq<Scope>, earlier: Seq<Scope>, h: int, name: Seq<char>)
    requires
        extends(later, earlier),
        0 <= h < earlier.len(),
    ensures
        owner(later, h, name) == owner(earlier, h, name),
        visible_value(later, h, name) == visible_value(earlier, h, name),
    decreases h,
{
    assert(later[h].parent == earlier[h].parent);
    if let Some(p) = earlier[h].parent {
        if 0 <= p < h {
            lemma_extends_owner(later, earlier, p as int, name);
        }
    }
    if let Some(o) = owner(earlier, h, name) {
        lemma_owner_range(earlier, h, name);
        assert(later[o].variables@ == earlier[o].variables@);
    }
}

proof fn lemma_extends_visible(later: Seq<Scope>, earlier: Seq<Scope>)
    requires
        extends(later, earlier),
    ensures
        forall|h: int, name: Seq<char>|
            0 <= h < earlier.len() ==> #[trigger] visible_value(later, h, name) == visible_value(
                earlier,
                h,
                name,
            ),
{
    assert forall|h: int, name: Seq<char>| 0 <= h < earlier.len() implies #[trigger] visible_value(
        later,
        h,
        name,
    ) == visible_value(earlier, h, name) by {
        lemma_extends_owner(later, earlier, h, name);
    }
}

proof fn lemma_owner_range(scopes: Seq<Scope>, h: int, name: Seq<char>)
    ensures
        owner(scopes, h, name) matches Some(o) ==> 0 <= o <= h && o < scopes.len()
            && scopes[o].local_index(name) is Some,
    decreases h,
{
    if 0 <= h < scopes.len() && scopes[h].local_index(name) is None {
        if let Some(p) = scopes[h].parent {
            if 0 <= p < h {
                lemma_owner_range(scopes, p as int, name);
            }
        }
    }
}

impl Interpretter {
    pub closed spec fn wf(&self) -> bool {
        &&& self.scopes@.len() >= 1
        &&& forall|h: int|
            0 <= h < self.scopes@.len() ==> ((#[trigger] self.scopes@[h]).parent matches Some(p) ==> p
                < h)
        &&& forall|h: int| 0 <= h < self.scopes@.len() ==> names_unique(#[trigger] self.scopes@[h].variables@)
    }

    /// Number of scopes in the arena.
    pub closed spec fn scope_count(&self) -> nat {
        self.scopes@.len()
    }

    /// The variables visible from scope `h`, innermost definition first.
    pub closed spec fn visible(&self, h: int) -> spec_fn(Seq<char>) -> Option<i32> {
        |name: Seq<char>| visible_value(self.scopes@, h, name)
    }

    /// An evaluator whose only scope is an empty global scope.
    pub fn new() -> (r: Interpretter)
        ensures
            r.wf(),
            r.scope_count() == 1,
            forall|name: Seq<char>| (#[trigger] (r.visible(0))(name)) is None,
    {
        let mut scopes: Vec<Scope> = Vec::new();
        scopes.push(Scope::new(None));
        let r = Interpretter { scopes };
        assert forall|name: Seq<char>| (#[trigger] (r.visible(0))(name)) is None by {
            assert(r.scopes@[0].local_index(name) is None);
        }
        r
    }

    /// Adds an empty scope under `scope` and gives its index.
    fn new_subscope(&mut self, scope: usize) -> (r: usize)
        requires
            old(self).wf(),
            scope < old(self).scopes@.len(),
        ensures
            final(self).wf(),
            extends(final(self).scopes@, old(self).scopes@),
            r == old(self).scopes@.len(),
            r < final(self).scopes@.len(),
            forall|name: Seq<char>| visible_value(final(self).scopes@, r as int, name) == visible_value(old(self).scopes@, scope as int, name),
    {
        let r = self.scopes.len();
        self.scopes.push(Scope::new(Some(scope)));
        assert forall|name: Seq<char>| visible_value(self.scopes@, r as int, name) == visible_value(old(self).scopes@, scope as int, name) by {
            assert(self.scopes@[r as int].local_index(name) is None);
            lemma_extends_owner(self.scopes@, old(self).scopes@, scope as int, name);
        }
        r
    }

    /// The value of `name` as seen from `scope`, searching outward through
    /// the enclosing scopes.
    fn lookup(&self, scope: usize, name: &String) -> (r: Result<i32, InterpretError>)
        requires
            self.wf(),
            scope < self.scopes@.len(),
        ensures
            match visible_value(self.scopes@, scope as int, name@) {
                Some(v) => r == Ok::<i32, InterpretError>(v),
                None => r is Err && r->Err_0@ == ErrorModel::UnknownVariable(name@),
            },
        decreases scope,
    {
        let s = &self.scopes[scope];
        match s.find(name) {
            Some(k) => Ok(s.variables[k].1),
            None => match s.parent {
                Some(p) => self.lookup(p, name),
                None => Err(InterpretError(InterpretErrorKind::UnknownVariable(name.clone()))),
            },
        }
    }

    /// Assigns `val` to the variable `name` in the nearest scope, from
    /// `scope` outward, that defines it; an undefined name is an error.
    fn set(&mut self, scope: usize, name: &String, val: i32) -> (r: Result<(), InterpretError>)
        requires
            old(self).wf(),
            scope < old(self).scopes@.len(),
        ensures
            final(self).wf(),
            final(self).scopes@.len() == old(self).scopes@.len(),
            match owner(old(self).scopes@, scope as int, name@) {
                Some(o) => r is Ok && (forall|i: int| 0 <= i < old(self).scopes@.len() && i != o
                    ==> #[trigger] final(self).scopes@[i] == old(self).scopes@[i])
                    && final(self).scopes@[o].parent == old(self).scopes@[o].parent
                    && final(self).scopes@[o].variables@ == old(self).scopes@[o].variables@.update(
                        old(self).scopes@[o].local_index(name@)->Some_0,
                        (old(self).scopes@[o].variables@[old(self).scopes@[o].local_index(name@)->Some_0].0, val),
                    ),
                None => r is Err && r->Err_0@ == ErrorModel::UnknownVariable(name@) && final(self).scopes@ == old(self).scopes@,
            },
        decreases scope,
    {
        match self.scopes[scope].find(name) {
            Some(k) => {
                let mut target = Scope::new(None);
                std::mem::swap(&mut target, &mut self.scopes[scope]);
                let key = target.variables[k].0.clone();
                target.variables.set(k, (key, val));
                std::mem::swap(&mut target, &mut self.scopes[scope]);
                Ok(())
            },
            None => match self.scopes[scope].parent {
                Some(p) => self.set(p, name, val),
                None => Err(InterpretError(InterpretErrorKind::UnknownVariable(name.clone()))),
            },
        }
    }

    /// Runs the program: evaluates the body of each function named `main`
    /// in a fresh scope under the global one and reports its value; every
    /// other function is reported as not run. Notices go to `notices` in
    /// order; the first error ends the run.
    pub fn run(&mut self, ast: AST, notices: &mut Vec<Notice>) -> (r: Result<(), InterpretError>)
        requires
            old(self).wf(),
        ensures
            final(self).wf(),
            final(self).scope_count() >= old(self).scope_count(),
            forall|h: int, name: Seq<char>|
                0 <= h < old(self).scope_count() ==> #[trigger] (final(self).visible(h))(name) == (old(
                    self,
                ).visible(h))(name),
            ({
                let (res, notes) = run_from(ast.declarations@, 0, old(self).visible(0));
                &&& final(notices)@ == old(notices)@ + notes
                &&& match res {
                    Ok(()) => r is Ok,
                    Err(x) => r is Err && r->Err_0@ == x,
                }
            }),
    {
        let ghost env = self.visible(0);
        let ghost scopes0 = self.scopes@;
        assert(scopes0.len() >= 1);
        let main_name = "main".to_owned();
        let mut i: usize = 0;
        while i < ast.declarations.len()
            invariant
                self.wf(),
                extends(self.scopes@, scopes0),
                scopes0 == old(self).scopes@,
                scopes0.len() >= 1,
                env == old(self).visible(0),
                main_name@ == "main"@,
                i <= ast.declarations@.len(),
                ({
                    let whole = run_from(ast.declarations@, 0, env);
                    let rest = run_from(ast.declarations@, i as int, env);
                    &&& whole.0 == rest.0
                    &&& old(notices)@ + whole.1 == notices@ + rest.1
                }),
            decreases ast.declarations@.len() - i,
        {
            proof {
                assert forall|name: Seq<char>| visible_value(self.scopes@, 0, name) == visible_value(scopes0, 0, name) by {
                    lemma_extends_owner(self.scopes@, scopes0, 0, name);
                }
                assert(self.visible(0) =~= env);
            }
            let ghost before = notices@;
            let ghost rest = run_from(ast.declarations@, i as int + 1, env);
            match &ast.declarations[i] {
                DeclarationAST::Function { name, parameters: _, block } => {
                    if *name == main_name {
                        let scope = self.new_subscope(0);
                        assert(self.visible(scope as int) =~= env);
                        match self.evaluate_expr(block, scope, notices) {
                            Ok(v) => {
                                notices.push(Notice::MainValue(v));
                                assert(before + (eval(*block, env).1 + seq![Notice::MainValue(v)] + rest.1) =~= notices@ + rest.1);
                            },
                            Err(e) => {
                                proof {
                                    lemma_extends_visible(self.scopes@, scopes0);
                                }
                                return Err(e);
                            },
                        }
                    } else {
                        notices.push(Notice::FunctionNotRun);
                        assert(before + (seq![Notice::FunctionNotRun] + rest.1) =~= notices@ + rest.1);
                    }
                },
            }
            i = i + 1;
        }
        assert(notices@ + Seq::<Notice>::empty() =~= notices@);
        proof {
            lemma_extends_visible(self.scopes@, scopes0);
        }
        Ok(())
    }

    /// Evaluates `ast` in `scope`, appending the notices it gives to `notices`.
    fn evaluate_expr(&mut self, ast: &ExprAST, scope: usize, notices: &mut Vec<Notice>) -> (r: Result<i32, InterpretError>)
        requires
            old(self).wf(),
            scope < old(self).scopes@.len(),
        ensures
            final(self).wf(),
            extends(final(self).scopes@, old(self).scopes@),
            ({
                let (res, notes) = eval(*ast, old(self).visible(scope as int));
                &&& final(notices)@ == old(notices)@ + notes
                &&& match res {
                    Ok(v) => r == Ok::<i32, InterpretError>(v),
                    Err(x) => r is Err && r->Err_0@ == x,
                }
            }),
        decreases ast,
    {
        let (op, left, right) = match ast {
            ExprAST::Add(l, r) => (Arith::Add, l, r),
            ExprAST::Subtract(l, r) => (Arith::Subtract, l, r),
            ExprAST::Multiply(l, r) => (Arith::Multiply, l, r),
            ExprAST::Divide(l, r) => (Arith::Divide, l, r),
            ExprAST::Literal(i) => {
                assert(notices@ + Seq::<Notice>::empty() =~= notices@);
                return Ok(*i);
            },
            ExprAST::Block(statements, tail) => {
                let ghost env = self.visible(scope as int);
                let inner = self.new_subscope(scope);
                assert(self.visible(inner as int) =~= env);
                if statements.len() > 0 {
                    notices.push(Notice::StatementsNotRun(statements.len()));
                }
                assert(old(notices)@ + statements_notice(statements@.len()) =~= notices@);
                return match tail {
                    Some(t) => {
                        let r = self.evaluate_expr(t, inner, notices);
                        assert(old(notices)@ + (statements_notice(statements@.len()) + eval(**t, env).1) =~= notices@);
                        r
                    },
                    None => Err(InterpretError(InterpretErrorKind::BlockWithoutValue)),
                };
            },
            ExprAST::Variable(name) => {
                assert(notices@ + Seq::<Notice>::empty() =~= notices@);
                assert((self.visible(scope as int))(name@) == visible_value(self.scopes@, scope as int, name@));
                return self.lookup(scope, name);
            },
        };
        let ghost env = self.visible(scope as int);
        let ghost scopes0 = self.scopes@;
        let a = match self.evaluate_expr(left, scope, notices) {
            Ok(v) => v,
            Err(e) => return Err(e),
        };
        proof {
            assert forall|name: Seq<char>| visible_value(self.scopes@, scope as int, name) == visible_value(scopes0, scope as int, name) by {
                lemma_extends_owner(self.scopes@, scopes0, scope as int, name);
            }
            assert(self.visible(scope as int) =~= env);
        }
        let b = match self.evaluate_expr(right, scope, notices) {
            Ok(v) => v,
            Err(e) => {
                assert(old(notices)@ + (eval(**left, env).1 + eval(**right, env).1) =~= notices@);
                return Err(e);
            },
        };
        assert(old(notices)@ + (eval(**left, env).1 + eval(**right, env).1) =~= notices@);
        arith(op, a, b)
    }
}

/// A run over the declarations from index `i`, seeing the global variables
/// through `env`: the outcome and the notices reported.
pub open spec fn run_from(decls: Seq<DeclarationAST>, i: int, env: spec_fn(Seq<char>) -> Option<i32>) -> (
    Result<(), ErrorModel>,
    Seq<Notice>,
)
    decreases decls.len() - i,
{
    if i < 0 || i >= decls.len() {
        (Ok(()), Seq::empty())
    } else {
        match decls[i] {
            DeclarationAST::Function { name, parameters: _, block } => if name@ == "main"@ {
                let (res, notes) = eval(block, env);
                match res {
                    Err(x) => (Err(x), notes),
                    Ok(v) => {
                        let rest = run_from(decls, i + 1, env);
                        (rest.0, notes + seq![Notice::MainValue(v)] + rest.1)
                    },
                }
            } else {
                let rest = run_from(decls, i + 1, env);
                (rest.0, seq![Notice::FunctionNotRun] + rest.1)
            },
        }
    }
}

/// `a op b` on `i32`, with overflow and division by zero as errors.
fn arith(op: Arith, a: i32, b: i32) -> (r: Result<i32, InterpretError>)
    ensures
        match arith_result(op, a, b) {
            Ok(v) => r == Ok::<i32, InterpretError>(v),
            Err(x) => r is Err && r->Err_0@ == x,
        },
{
    let x = a as i64;
    let y = b as i64;
    let v: i64 = match op {
        Arith::Add => x + y,
        Arith::Subtract => x - y,
        Arith::Multiply => {
            assert(-0x8000_0000 * 0x7fff_ffff <= x * y <= 0x8000_0000 * 0x8000_0000) by (nonlinear_arith)
                requires
                    -0x8000_0000 <= x <= 0x7fff_ffff,
                    -0x8000_0000 <= y <= 0x7fff_ffff,
            ;
            x * y
        },
        Arith::Divide => {
            if y == 0 {
                return Err(InterpretError(InterpretErrorKind::DivisionByZero));
            }
            let xa: u64 = if x < 0 { (-x) as u64 } else { x as u64 };
            let ya: u64 = if y < 0 { (-y) as u64 } else { y as u64 };
            let q = xa / ya;
            assert(q <= xa) by (nonlinear_arith)
                requires
                    ya >= 1,
                    q == xa / ya,
            ;
            if (x < 0) == (y < 0) {
                q as i64
            } else {
                -(q as i64)
            }
        },
    };
    if v < i32::MIN as i64 || v > i32::MAX as i64 {
        return Err(InterpretError(InterpretErrorKind::ArithmeticOverflow));
    }
    Ok(v as i32)
}

} // verus!
