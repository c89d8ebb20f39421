//! The mathematical model of expression trees.
//!
//! Every executable tree type has a view into this model, and every contract
//! of the library is stated over it: the model fixes what a variable, a
//! constant term, a variable term, a summation and a multiplication are, how
//! two terms merge, and what the infix rendering of a tree is.

use vstd::prelude::*;
use crate::text::{lex_lt, int_str};

verus! {

/// The runtime kind tag: composite nodes use it to decide whether two
/// children are structurally comparable.
#[derive(Debug, Clone, Copy, PartialEq, Eq, Structural)]
pub enum EntityKind {
    Constant,
    Variable,
    Function,
}

/// The failures of the rewriting engine, made explicit instead of fatal.
#[derive(Debug, Clone, Copy, PartialEq, Eq, Structural)]
pub enum ExprError {
    /// A variable term held a nested variable coefficient whose name differs
    /// from the active variable: the model supports only one free variable.
    MixedVariables,
    /// Two terms were added or multiplied whose incidental-variable lists do
    /// not line up, so the operation has no meaning.
    IncompatibleTerms,
    /// A term did not have the shape the merge logic expects (a variable
    /// term whose trailing coefficient is not a constant).
    KindMismatch,
    /// An intermediate coefficient or exponent left the machine-integer
    /// range.
    Overflow,
    /// A product of two composite functions on the differentiation path:
    /// simplifying it nests products without bound, so differentiation
    /// rejects it up front. One inside a coefficient list is only copied
    /// and is accepted.
    FunctionProduct,
}

/// A variable with its exponent.
#[verifier::ext_equal]
pub struct VarM {
    pub name: Seq<char>,
    pub power: int,
}

/// A constant term: a coefficient with incidental variables not being
/// differentiated.
#[verifier::ext_equal]
pub struct ConstM {
    pub value: int,
    pub vars: Seq<VarM>,
}

/// A variable term: the active variable with its exponent, and an ordered
/// list of coefficient sub-expressions.
#[verifier::ext_equal]
pub struct VarTermM {
    pub var: VarM,
    pub coeffs: Seq<ExprM>,
}

/// An expression tree.
#[verifier::ext_equal]
pub enum ExprM {
    Constant(ConstM),
    Variable(VarTermM),
    Summation(Seq<ExprM>),
    Multiplication(Box<ExprM>, Box<ExprM>),
}

/// The constant one, the multiplicative identity.
pub open spec fn one_m() -> ConstM {
    ConstM { value: 1, vars: Seq::empty() }
}

/// The constant zero.
pub open spec fn zero_m() -> ConstM {
    ConstM { value: 0, vars: Seq::empty() }
}

pub open spec fn kind_of(e: ExprM) -> EntityKind {
    match e {
        ExprM::Constant(_) => EntityKind::Constant,
        ExprM::Variable(_) => EntityKind::Variable,
        ExprM::Summation(_) => EntityKind::Function,
        ExprM::Multiplication(_, _) => EntityKind::Function,
    }
}

/// Whether a value is representable as a signed 64-bit machine integer.
pub open spec fn fits_i64(x: int) -> bool {
    i64::MIN <= x <= i64::MAX
}

/// Structural equality of two incidental-variable lists: same names with the
/// same exponents in the same order.
pub open spec fn vars_equal(a: Seq<VarM>, b: Seq<VarM>) -> bool {
    a.len() == b.len() && forall|i: int|
        0 <= i < a.len() ==> a[i].name == b[i].name && a[i].power == b[i].power
}

/// Pointwise product of two incidental-variable lists: exponents are summed
/// position by position. The lists must pair the same variables in the same
/// order; anything else is rejected.
pub open spec fn vars_mul(a: Seq<VarM>, b: Seq<VarM>) -> Result<Seq<VarM>, ExprError>
    decreases a.len(),
{
    if a.len() != b.len() {
        Err(ExprError::IncompatibleTerms)
    } else if a.len() == 0 {
        Ok(Seq::empty())
    } else if a[0].name != b[0].name {
        Err(ExprError::IncompatibleTerms)
    } else if !fits_i64(a[0].power + b[0].power) {
        Err(ExprError::Overflow)
    } else {
        match vars_mul(a.drop_first(), b.drop_first()) {
            Ok(rest) => Ok(
                seq![VarM { name: a[0].name, power: a[0].power + b[0].power }] + rest,
            ),
            Err(e) => Err(e),
        }
    }
}

/// Two constant terms merge additively exactly when their incidental
/// variables are structurally equal.
pub open spec fn const_can_add(a: ConstM, b: ConstM) -> bool {
    vars_equal(a.vars, b.vars)
}

/// Sum of two constant terms: values add, the incidental variables carry
/// over unchanged.
pub open spec fn const_add(a: ConstM, b: ConstM) -> Result<ConstM, ExprError> {
    if !const_can_add(a, b) {
        Err(ExprError::IncompatibleTerms)
    } else if !fits_i64(a.value + b.value) {
        Err(ExprError::Overflow)
    } else {
        Ok(ConstM { value: a.value + b.value, vars: a.vars })
    }
}

/// Product of two constant terms: values multiply, exponents of the paired
/// incidental variables add.
pub open spec fn const_mul(a: ConstM, b: ConstM) -> Result<ConstM, ExprError> {
    match vars_mul(a.vars, b.vars) {
        Err(e) => Err(e),
        Ok(vs) => if !fits_i64(a.value * b.value) {
            Err(ExprError::Overflow)
        } else {
            Ok(ConstM { value: a.value * b.value, vars: vs })
        },
    }
}

/// Whether a pair of coefficients at the same position blocks a merge.
/// Constant coefficients never block; coefficients of different kinds never
/// block; variable coefficients must merge recursively; composite
/// coefficients are always treated as compatible.
pub open spec fn coeff_compatible(x: ExprM, y: ExprM) -> bool
    decreases x, 0int,
{
    if kind_of(x) == EntityKind::Constant {
        true
    } else if kind_of(x) != kind_of(y) {
        true
    } else {
        match (x, y) {
            (ExprM::Variable(tx), ExprM::Variable(ty)) => var_can_add(tx, ty),
            _ => true,
        }
    }
}

/// Position-by-position compatibility of two coefficient lists, starting at
/// index `i` of the first list.
pub open spec fn coeffs_compatible_from(a: Seq<ExprM>, b: Seq<ExprM>, i: int) -> bool
    decreases a, a.len() - i,
{
    if i < 0 || i >= a.len() {
        true
    } else if kind_of(a[i]) == EntityKind::Constant {
        coeffs_compatible_from(a, b, i + 1)
    } else if i >= b.len() {
        false
    } else {
        coeff_compatible(a[i], b[i]) && coeffs_compatible_from(a, b, i + 1)
    }
}

/// Unfolds the coefficient compatibility scan one position.
pub proof fn lemma_coeffs_compatible_step(a: Seq<ExprM>, b: Seq<ExprM>, i: int)
    requires
        0 <= i < a.len(),
    ensures
        coeffs_compatible_from(a, b, i) == (if kind_of(a[i]) == EntityKind::Constant {
            coeffs_compatible_from(a, b, i + 1)
        } else if i >= b.len() {
            false
        } else {
            coeff_compatible(a[i], b[i]) && coeffs_compatible_from(a, b, i + 1)
        }),
{
}

/// Unfolds the compatibility of one coefficient pair.
pub proof fn lemma_coeff_compatible_unfold(x: ExprM, y: ExprM)
    ensures
        coeff_compatible(x, y) == (if kind_of(x) == EntityKind::Constant {
            true
        } else if kind_of(x) != kind_of(y) {
            true
        } else {
            match (x, y) {
                (ExprM::Variable(tx), ExprM::Variable(ty)) => var_can_add(tx, ty),
                _ => true,
            }
        }),
{
}

/// Two variable terms merge additively exactly when their active variables
/// match in name and exponent and their coefficient lists are compatible.
pub open spec fn var_can_add(a: VarTermM, b: VarTermM) -> bool
    decreases a, 1int,
{
    a.var.name == b.var.name && a.var.power == b.var.power
        && coeffs_compatible_from(a.coeffs, b.coeffs, 0)
}

/// Sum of two mergeable variable terms: the active variable is kept and only
/// the trailing constant coefficients are added; every other coefficient is
/// carried over from the first operand.
pub open spec fn var_add(a: VarTermM, b: VarTermM) -> Result<VarTermM, ExprError> {
    if !var_can_add(a, b) {
        Err(ExprError::IncompatibleTerms)
    } else if a.coeffs.len() == 0 || !(a.coeffs.last() is Constant) || b.coeffs.len() == 0
        || !(b.coeffs.last() is Constant) {
        Err(ExprError::KindMismatch)
    } else {
        match const_add(a.coeffs.last()->Constant_0, b.coeffs.last()->Constant_0) {
            Ok(c) => Ok(
                VarTermM { var: a.var, coeffs: a.coeffs.drop_last().push(ExprM::Constant(c)) },
            ),
            Err(e) => Err(e),
        }
    }
}

/// One pass over the second operand's coefficients during a variable-term
/// product: constants fold into a running product, variable coefficients add
/// their exponent to a running total, composite coefficients are carried
/// through in order.
pub open spec fn var_mul_scan(
    coeffs: Seq<ExprM>,
    i: int,
    acc: ConstM,
    funcs: Seq<ExprM>,
    pow: int,
) -> Result<(ConstM, Seq<ExprM>, int), ExprError>
    decreases coeffs.len() - i,
{
    if i < 0 || i >= coeffs.len() {
        Ok((acc, funcs, pow))
    } else {
        match coeffs[i] {
            ExprM::Constant(c) => match const_mul(acc, c) {
                Ok(acc2) => var_mul_scan(coeffs, i + 1, acc2, funcs, pow),
                Err(e) => Err(e),
            },
            ExprM::Variable(t) => if !fits_i64(pow + t.var.power) {
                Err(ExprError::Overflow)
            } else {
                var_mul_scan(coeffs, i + 1, acc, funcs, pow + t.var.power)
            },
            f => var_mul_scan(coeffs, i + 1, acc, funcs.push(f), pow),
        }
    }
}

/// Unfolds the coefficient-distribution scan one position.
pub proof fn lemma_var_mul_scan_step(
    coeffs: Seq<ExprM>,
    i: int,
    acc: ConstM,
    funcs: Seq<ExprM>,
    pow: int,
)
    requires
        0 <= i,
    ensures
        i >= coeffs.len() ==> var_mul_scan(coeffs, i, acc, funcs, pow) == Ok::<
            (ConstM, Seq<ExprM>, int),
            ExprError,
        >((acc, funcs, pow)),
        i < coeffs.len() ==> var_mul_scan(coeffs, i, acc, funcs, pow) == (match coeffs[i] {
            ExprM::Constant(c) => match const_mul(acc, c) {
                Ok(acc2) => var_mul_scan(coeffs, i + 1, acc2, funcs, pow),
                Err(e) => Err::<(ConstM, Seq<ExprM>, int), ExprError>(e),
            },
            ExprM::Variable(t) => if !fits_i64(pow + t.var.power) {
                Err::<(ConstM, Seq<ExprM>, int), ExprError>(ExprError::Overflow)
            } else {
                var_mul_scan(coeffs, i + 1, acc, funcs, pow + t.var.power)
            },
            f => var_mul_scan(coeffs, i + 1, acc, funcs.push(f), pow),
        }),
{
}

/// Unfolds a variable-term product.
pub proof fn lemma_var_mul_unfold(a: VarTermM, b: VarTermM)
    ensures
        var_mul(a, b) == (match var_mul_scan(b.coeffs, 0, one_m(), Seq::empty(), 0) {
            Err(e) => Err::<VarTermM, ExprError>(e),
            Ok((acc, funcs, pow)) => if !fits_i64(a.var.power + b.var.power) {
                Err::<VarTermM, ExprError>(ExprError::Overflow)
            } else if !fits_i64(pow + a.var.power + b.var.power) {
                Err::<VarTermM, ExprError>(ExprError::Overflow)
            } else {
                Ok::<VarTermM, ExprError>(
                    VarTermM {
                        var: VarM { name: a.var.name, power: pow + a.var.power + b.var.power },
                        coeffs: funcs.push(ExprM::Constant(acc)),
                    },
                )
            },
        }),
{
}

/// Product of two variable terms: the second operand's coefficients are
/// distributed, both active exponents are absorbed into the total, and the
/// folded constant is appended last. The first operand's own coefficients
/// other than its active variable do not take part.
pub open spec fn var_mul(a: VarTermM, b: VarTermM) -> Result<VarTermM, ExprError> {
    match var_mul_scan(b.coeffs, 0, one_m(), Seq::empty(), 0) {
        Err(e) => Err(e),
        Ok((acc, funcs, pow)) => if !fits_i64(a.var.power + b.var.power) {
            Err(ExprError::Overflow)
        } else if !fits_i64(pow + a.var.power + b.var.power) {
            Err(ExprError::Overflow)
        } else {
            Ok(
                VarTermM {
                    var: VarM { name: a.var.name, power: pow + a.var.power + b.var.power },
                    coeffs: funcs.push(ExprM::Constant(acc)),
                },
            )
        },
    }
}

/// The rendering of one variable: its name, with `^exponent` appended unless
/// the exponent is one.
pub open spec fn var_str(v: VarM) -> Seq<char> {
    if v.power != 1 {
        v.name + seq!['^'] + int_str(v.power)
    } else {
        v.name
    }
}

/// The rendering of an incidental-variable list: each variable preceded by a
/// `*` separator.
pub open spec fn const_vars_str(vars: Seq<VarM>) -> Seq<char>
    decreases vars.len(),
{
    if vars.len() == 0 {
        Seq::empty()
    } else {
        seq!['*'] + var_str(vars[0]) + const_vars_str(vars.drop_first())
    }
}

/// The outcome of rendering a coefficient list: a coefficient rendering that
/// starts with the zero digit makes the whole term render as zero;
/// coefficients rendering as the literal one are skipped; the rest are
/// joined with `*`.
pub enum CoeffsRender {
    Zero,
    NoneKept,
    Joined(Seq<char>),
}

pub open spec fn render_coeffs(c: Seq<ExprM>, i: int) -> CoeffsRender
    decreases c, c.len() - i,
{
    if i < 0 || i >= c.len() {
        CoeffsRender::NoneKept
    } else {
        let s = render(c[i]);
        if s == seq!['1'] {
            render_coeffs(c, i + 1)
        } else if s.len() > 0 && s[0] == '0' {
            CoeffsRender::Zero
        } else {
            match render_coeffs(c, i + 1) {
                CoeffsRender::Zero => CoeffsRender::Zero,
                CoeffsRender::NoneKept => CoeffsRender::Joined(s),
                CoeffsRender::Joined(r) => CoeffsRender::Joined(s + seq!['*'] + r),
            }
        }
    }
}

/// The rendering of a summation's terms from index `i` on: terms whose
/// rendering starts with the zero digit are skipped, the rest are joined
/// with ` + `; `None` when nothing is kept.
pub open spec fn render_terms(ts: Seq<ExprM>, i: int) -> Option<Seq<char>>
    decreases ts, ts.len() - i,
{
    if i < 0 || i >= ts.len() {
        None
    } else {
        let s = render(ts[i]);
        if s.len() > 0 && s[0] == '0' {
            render_terms(ts, i + 1)
        } else {
            match render_terms(ts, i + 1) {
                None => Some(s),
                Some(r) => Some(s + seq![' ', '+', ' '] + r),
            }
        }
    }
}

/// The canonical infix rendering of a tree.
///
/// An active variable with exponent zero is the empty factor: the term
/// renders as its joined coefficients alone, and as the literal one when
/// every coefficient was skipped — so the derivative of a bare first-power
/// variable renders as a constant one.
pub open spec fn render(e: ExprM) -> Seq<char>
    decreases e, 0int,
{
    match e {
        ExprM::Constant(c) => if c.value == 0 {
            seq!['0']
        } else {
            int_str(c.value) + const_vars_str(c.vars)
        },
        ExprM::Variable(t) => match render_coeffs(t.coeffs, 0) {
            CoeffsRender::Zero => seq!['0'],
            CoeffsRender::NoneKept => if t.var.power == 0 {
                seq!['1']
            } else {
                var_str(t.var)
            },
            CoeffsRender::Joined(j) => if t.var.power == 0 {
                j
            } else {
                j + var_str(t.var)
            },
        },
        ExprM::Summation(ts) => match render_terms(ts, 0) {
            None => Seq::empty(),
            Some(r) => r,
        },
        ExprM::Multiplication(a, b) => {
            let sa = render(*a);
            let sb = render(*b);
            if sa == seq!['1'] {
                sb
            } else if sb == seq!['1'] {
                sa
            } else {
                sa + seq!['*'] + sb
            }
        },
    }
}

/// Unfolds the rendering of one node.
pub proof fn lemma_render_unfold(e: ExprM)
    ensures
        render(e) == (match e {
            ExprM::Constant(c) => if c.value == 0 {
                seq!['0']
            } else {
                int_str(c.value) + const_vars_str(c.vars)
            },
            ExprM::Variable(t) => match render_coeffs(t.coeffs, 0) {
                CoeffsRender::Zero => seq!['0'],
                CoeffsRender::NoneKept => if t.var.power == 0 {
                    seq!['1']
                } else {
                    var_str(t.var)
                },
                CoeffsRender::Joined(j) => if t.var.power == 0 {
                    j
                } else {
                    j + var_str(t.var)
                },
            },
            ExprM::Summation(ts) => match render_terms(ts, 0) {
                None => Seq::empty(),
                Some(r) => r,
            },
            ExprM::Multiplication(a, b) => if render(*a) == seq!['1'] {
                render(*b)
            } else if render(*b) == seq!['1'] {
                render(*a)
            } else {
                render(*a) + seq!['*'] + render(*b)
            },
        }),
{
}

/// Unfolds the coefficient rendering one position.
pub proof fn lemma_render_coeffs_step(c: Seq<ExprM>, i: int)
    requires
        0 <= i,
    ensures
        i >= c.len() ==> render_coeffs(c, i) == CoeffsRender::NoneKept,
        i < c.len() && render(c[i]) == seq!['1'] ==> render_coeffs(c, i) == render_coeffs(
            c,
            i + 1,
        ),
        i < c.len() && render(c[i]) != seq!['1'] && render(c[i]).len() > 0 && render(c[i])[0]
            == '0' ==> render_coeffs(c, i) == CoeffsRender::Zero,
        i < c.len() && render(c[i]) != seq!['1'] && !(render(c[i]).len() > 0 && render(
            c[i],
        )[0] == '0') ==> render_coeffs(c, i) == (match render_coeffs(c, i + 1) {
            CoeffsRender::Zero => CoeffsRender::Zero,
            CoeffsRender::NoneKept => CoeffsRender::Joined(render(c[i])),
            CoeffsRender::Joined(r) => CoeffsRender::Joined(render(c[i]) + seq!['*'] + r),
        }),
{
}

/// Unfolds the term rendering one position.
pub proof fn lemma_render_terms_step(ts: Seq<ExprM>, i: int)
    requires
        0 <= i,
    ensures
        i >= ts.len() ==> render_terms(ts, i) is None,
        i < ts.len() && render(ts[i]).len() > 0 && render(ts[i])[0] == '0' ==> render_terms(
            ts,
            i,
        ) == render_terms(ts, i + 1),
        i < ts.len() && !(render(ts[i]).len() > 0 && render(ts[i])[0] == '0')
            ==> render_terms(ts, i) == (match render_terms(ts, i + 1) {
            None => Some(render(ts[i])),
            Some(r) => Some(render(ts[i]) + seq![' ', '+', ' '] + r),
        }),
{
}

/// Unfolds the incidental-variable rendering one position.
pub proof fn lemma_const_vars_str_step(vars: Seq<VarM>, i: int)
    requires
        0 <= i <= vars.len(),
    ensures
        i == vars.len() ==> const_vars_str(vars.skip(i)) == Seq::<char>::empty(),
        i < vars.len() ==> const_vars_str(vars.skip(i)) == seq!['*'] + var_str(vars[i])
            + const_vars_str(vars.skip(i + 1)),
{
    if i == vars.len() {
        assert(vars.skip(i).len() == 0);
    } else {
        assert(vars.skip(i)[0] == vars[i]);
        assert(vars.skip(i).drop_first() =~= vars.skip(i + 1));
    }
}

} // verus!
