//! Small arithmetic formulas over named character variables.
//!
//! Spell magnitudes and debuff strengths are data, not code: a sheet or
//! status definition carries a formula which the engine evaluates against
//! the acting character's variables. Evaluation is total: a missing
//! variable or a value outside `i64` reports an error instead of panicking.

use vstd::prelude::*;

verus! {

/// A named character variable a formula may mention.
#[derive(Clone, Copy, Debug, PartialEq, Eq, Structural)]
pub enum Variable {
    Hp,
    Sp,
    Level,
    Speed,
    Heart,
    Soul,
    Power,
    Defense,
    Magic,
    Resistance,
    /// The accumulated magnitude of a status effect; bound only while a
    /// debuff formula is evaluated.
    Magnitude,
}

/// Why a formula could not be evaluated.
#[derive(Clone, Copy, Debug, PartialEq, Eq, Structural)]
pub enum Error {
    /// The formula mentions a variable the scope does not bind.
    MissingVariable(Variable),
    /// An intermediate value fell outside the range of `i64`.
    Overflow,
}

/// An arithmetic formula over integers and character variables.
#[derive(Debug)]
pub enum Expression {
    Constant(i64),
    Variable(Variable),
    Add(Box<Expression>, Box<Expression>),
    Sub(Box<Expression>, Box<Expression>),
    Mul(Box<Expression>, Box<Expression>),
}

impl Clone for Expression {
    fn clone(&self) -> (r: Self)
        ensures
            r == *self,
        decreases *self,
    {
        match self {
            Expression::Constant(c) => Expression::Constant(*c),
            Expression::Variable(v) => Expression::Variable(*v),
            Expression::Add(a, b) => Expression::Add(
                Box::new((**a).clone()),
                Box::new((**b).clone()),
            ),
            Expression::Sub(a, b) => Expression::Sub(
                Box::new((**a).clone()),
                Box::new((**b).clone()),
            ),
            Expression::Mul(a, b) => Expression::Mul(
                Box::new((**a).clone()),
                Box::new((**b).clone()),
            ),
        }
    }
}

/// The variable bindings a formula is evaluated under.
#[derive(Clone, Debug)]
pub struct Scope {
    /// Bindings, looked up front to back; the first match wins.
    pub entries: Vec<(Variable, i64)>,
}

/// The first value bound to `v`, if any.
pub open spec fn lookup_spec(entries: Seq<(Variable, i64)>, v: Variable) -> Option<i64>
    decreases entries.len(),
{
    if entries.len() == 0 {
        None
    } else if entries[0].0 == v {
        Some(entries[0].1)
    } else {
        lookup_spec(entries.skip(1), v)
    }
}

/// Mathematical meaning of evaluation: the exact value of the formula
/// under the scope, or the error evaluation reports.
pub open spec fn eval_spec(e: Expression, entries: Seq<(Variable, i64)>) -> Result<int, Error>
    decreases e,
{
    match e {
        Expression::Constant(c) => Ok(c as int),
        Expression::Variable(v) => match lookup_spec(entries, v) {
            Some(x) => Ok(x as int),
            None => Err(Error::MissingVariable(v)),
        },
        Expression::Add(a, b) => eval_bin_spec(eval_spec(*a, entries), eval_spec(*b, entries), 0),
        Expression::Sub(a, b) => eval_bin_spec(eval_spec(*a, entries), eval_spec(*b, entries), 1),
        Expression::Mul(a, b) => eval_bin_spec(eval_spec(*a, entries), eval_spec(*b, entries), 2),
    }
}

/// Combines two sub-results with the operator selected by `op`
/// (0 add, 1 sub, 2 mul), reporting overflow outside `i64`.
pub open spec fn eval_bin_spec(a: Result<int, Error>, b: Result<int, Error>, op: int) -> Result<
    int,
    Error,
> {
    match (a, b) {
        (Ok(x), Ok(y)) => {
            let r = if op == 0 {
                x + y
            } else if op == 1 {
                x - y
            } else {
                x * y
            };
            if i64::MIN <= r <= i64::MAX {
                Ok(r)
            } else {
                Err(Error::Overflow)
            }
        },
        (Err(e), _) => Err(e),
        (_, Err(e)) => Err(e),
    }
}

impl Scope {
    /// A scope with no bindings.
    pub fn new() -> (r: Scope)
        ensures
            r.entries@ == Seq::<(Variable, i64)>::empty(),
    {
        Scope { entries: Vec::new() }
    }

    /// Appends a binding; earlier bindings shadow it.
    pub fn bind(&mut self, v: Variable, x: i64)
        ensures
            final(self).entries@ == old(self).entries@.push((v, x)),
    {
        self.entries.push((v, x));
    }

    /// Looks `v` up, front to back.
    pub fn lookup(&self, v: Variable) -> (r: Option<i64>)
        ensures
            r == lookup_spec(self.entries@, v),
    {
        let mut i: usize = 0;
        assert(self.entries@.skip(0) =~= self.entries@);
        while i < self.entries.len()
            invariant
                0 <= i <= self.entries.len(),
                lookup_spec(self.entries@, v) == lookup_spec(self.entries@.skip(i as int), v),
            decreases self.entries.len() - i,
        {
            let (w, x) = self.entries[i];
            if w == v {
                assert(self.entries@.skip(i as int)[0] == self.entries@[i as int]);
                return Some(x);
            }
            assert(self.entries@.skip(i as int).skip(1) =~= self.entries@.skip(i + 1));
            i = i + 1;
        }
        assert(self.entries@.skip(i as int) =~= Seq::<(Variable, i64)>::empty());
        None
    }
}

impl Expression {
    /// Evaluates the formula under `scope`.
    pub fn eval(&self, scope: &Scope) -> (r: Result<i64, Error>)
        ensures
            match (r, eval_spec(*self, scope.entries@)) {
                (Ok(x), Ok(y)) => x as int == y,
                (Err(e), Err(f)) => e == f,
                _ => false,
            },
        decreases *self,
    {
        match self {
            Expression::Constant(c) => Ok(*c),
            Expression::Variable(v) => match scope.lookup(*v) {
                Some(x) => Ok(x),
                None => Err(Error::MissingVariable(*v)),
            },
            Expression::Add(a, b) => {
                let x = a.eval(scope)?;
                let y = b.eval(scope)?;
                match x.checked_add(y) {
                    Some(r) => Ok(r),
                    None => Err(Error::Overflow),
                }
            },
            Expression::Sub(a, b) => {
                let x = a.eval(scope)?;
                let y = b.eval(scope)?;
                match x.checked_sub(y) {
                    Some(r) => Ok(r),
                    None => Err(Error::Overflow),
                }
            },
            Expression::Mul(a, b) => {
                let x = a.eval(scope)?;
                let y = b.eval(scope)?;
                match x.checked_mul(y) {
                    Some(r) => Ok(r),
                    None => Err(Error::Overflow),
                }
            },
        }
    }
}

} // verus!
