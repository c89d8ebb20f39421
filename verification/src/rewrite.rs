//! The rewriting engine, at the specification level: collapse (the
//! canonicalizing simplification) and differentiation, defined as total
//! functions over the model.

use vstd::prelude::*;
use crate::text::lex_lt;
use crate::model::{
    EntityKind, ExprError, VarM, ConstM, VarTermM, ExprM, one_m, zero_m, kind_of, fits_i64,
    const_can_add, const_add, const_mul, var_can_add, var_add, var_mul, render,
};

verus! {

/// Inserts one variable into a list kept strictly sorted by name: an equal
/// name absorbs the exponent, otherwise the variable lands at its sorted
/// position.
pub open spec fn merge_var(acc: Seq<VarM>, v: VarM) -> Result<Seq<VarM>, ExprError>
    decreases acc.len(),
{
    if acc.len() == 0 {
        Ok(seq![v])
    } else if lex_lt(v.name, acc[0].name) {
        Ok(seq![v] + acc)
    } else if v.name == acc[0].name {
        if !fits_i64(acc[0].power + v.power) {
            Err(ExprError::Overflow)
        } else {
            Ok(seq![VarM { name: acc[0].name, power: acc[0].power + v.power }] + acc.drop_first())
        }
    } else {
        match merge_var(acc.drop_first(), v) {
            Ok(r) => Ok(seq![acc[0]] + r),
            Err(e) => Err(e),
        }
    }
}

/// Folds a whole variable list into a sorted accumulator, left to right.
pub open spec fn insert_all(acc: Seq<VarM>, vars: Seq<VarM>) -> Result<Seq<VarM>, ExprError>
    decreases vars.len(),
{
    if vars.len() == 0 {
        Ok(acc)
    } else {
        match merge_var(acc, vars[0]) {
            Ok(a2) => insert_all(a2, vars.drop_first()),
            Err(e) => Err(e),
        }
    }
}

/// The collapsed form of an incidental-variable list: variables grouped by
/// name with exponents summed, sorted by name. Zero exponents are kept.
pub open spec fn collapse_vars(vars: Seq<VarM>) -> Result<Seq<VarM>, ExprError> {
    insert_all(Seq::empty(), vars)
}

/// The collapsed form of a constant term.
pub open spec fn collapse_const(c: ConstM) -> Result<ConstM, ExprError> {
    match collapse_vars(c.vars) {
        Ok(vs) => Ok(ConstM { value: c.value, vars: vs }),
        Err(e) => Err(e),
    }
}

/// One pass over a variable term's coefficients during collapse: each
/// coefficient is collapsed first; nested variable coefficients fold their
/// exponent into the active exponent (rejecting a second variable name);
/// constant coefficients fold into one running product; composite
/// coefficients are kept in order.
pub open spec fn collapse_var_scan(
    name: Seq<char>,
    coeffs: Seq<ExprM>,
    i: int,
    pow: int,
    acc: Option<ConstM>,
    funcs: Seq<ExprM>,
) -> Result<(int, Option<ConstM>, Seq<ExprM>), ExprError>
    decreases coeffs, coeffs.len() - i,
{
    if i < 0 || i >= coeffs.len() {
        Ok((pow, acc, funcs))
    } else {
        match collapse_e(coeffs[i]) {
            Err(e) => Err(e),
            Ok(c) => match c {
                ExprM::Variable(v) => if v.var.name == name {
                    if !fits_i64(pow + v.var.power) {
                        Err(ExprError::Overflow)
                    } else {
                        collapse_var_scan(name, coeffs, i + 1, pow + v.var.power, acc, funcs)
                    }
                } else {
                    Err(ExprError::MixedVariables)
                },
                ExprM::Constant(k) => match acc {
                    None => collapse_var_scan(name, coeffs, i + 1, pow, Some(k), funcs),
                    Some(p) => match const_mul(p, k) {
                        Ok(pk) => collapse_var_scan(name, coeffs, i + 1, pow, Some(pk), funcs),
                        Err(e) => Err(e),
                    },
                },
                f => collapse_var_scan(name, coeffs, i + 1, pow, acc, funcs.push(f)),
            },
        }
    }
}

/// The collapsed form of a variable term: composite coefficients in their
/// original order, then the folded constant (one when no constant
/// coefficient existed), itself collapsed.
pub open spec fn collapse_var(t: VarTermM) -> Result<VarTermM, ExprError>
    decreases t, 2int,
{
    match collapse_var_scan(t.var.name, t.coeffs, 0, t.var.power, None, Seq::empty()) {
        Err(e) => Err(e),
        Ok((pow, acc, funcs)) => {
            let folded = match acc {
                Some(c) => c,
                None => one_m(),
            };
            match collapse_const(folded) {
                Err(e) => Err(e),
                Ok(cc) => Ok(
                    VarTermM {
                        var: VarM { name: t.var.name, power: pow },
                        coeffs: funcs.push(ExprM::Constant(cc)),
                    },
                ),
            }
        },
    }
}

/// Whether two terms are like terms: equal kind and mergeable by the
/// kind-specific rule. Composite nodes never merge.
pub open spec fn mergeable(x: ExprM, y: ExprM) -> bool {
    match (x, y) {
        (ExprM::Constant(a), ExprM::Constant(b)) => const_can_add(a, b),
        (ExprM::Variable(a), ExprM::Variable(b)) => var_can_add(a, b),
        _ => false,
    }
}

/// The kind-specific sum of two like terms.
pub open spec fn add_pair(x: ExprM, y: ExprM) -> Result<ExprM, ExprError> {
    match (x, y) {
        (ExprM::Constant(a), ExprM::Constant(b)) => match const_add(a, b) {
            Ok(c) => Ok(ExprM::Constant(c)),
            Err(e) => Err(e),
        },
        (ExprM::Variable(a), ExprM::Variable(b)) => match var_add(a, b) {
            Ok(c) => Ok(ExprM::Variable(c)),
            Err(e) => Err(e),
        },
        _ => Err(ExprError::KindMismatch),
    }
}

/// The first mergeable ordered pair `(i, j)`, `i != j`, in scan order:
/// `i` outer from the front, `j` inner from the front.
pub open spec fn find_pair_from(ts: Seq<ExprM>, i: int, j: int) -> Option<(int, int)>
    decreases ts.len() - i, ts.len() - j,
{
    if i >= ts.len() {
        None
    } else if j >= ts.len() {
        find_pair_from(ts, i + 1, 0)
    } else if i == j || !mergeable(ts[i], ts[j]) {
        find_pair_from(ts, i, j + 1)
    } else {
        Some((i, j))
    }
}

pub proof fn lemma_find_pair_valid(ts: Seq<ExprM>, i: int, j: int)
    requires
        0 <= i,
        0 <= j,
    ensures
        match find_pair_from(ts, i, j) {
            Some(p) => 0 <= p.0 < ts.len() && 0 <= p.1 < ts.len() && p.0 != p.1
                && mergeable(ts[p.0], ts[p.1]),
            None => true,
        },
    decreases ts.len() - i, ts.len() - j,
{
    if i >= ts.len() {
    } else if j >= ts.len() {
        lemma_find_pair_valid(ts, i + 1, 0);
    } else if i == j || !mergeable(ts[i], ts[j]) {
        lemma_find_pair_valid(ts, i, j + 1);
    }
}

/// Removal of the element at `k` by swapping in the last element, as a
/// sequence operation.
pub open spec fn swap_remove_seq(s: Seq<ExprM>, k: int) -> Seq<ExprM> {
    s.update(k, s.last()).drop_last()
}

/// Removal of the pair `(i, j)`: the element at `i` is swap-removed first;
/// if that removal moved the element that was at `j` (because `j` was the
/// last position), the second removal picks it up at `i`.
pub open spec fn remove_pair(s: Seq<ExprM>, i: int, j: int) -> Seq<ExprM> {
    let s1 = swap_remove_seq(s, i);
    if j < s1.len() {
        swap_remove_seq(s1, j)
    } else {
        swap_remove_seq(s1, i)
    }
}

/// The merge fixed point: while a mergeable pair exists, both elements are
/// removed and their sum is inserted at the front. Each merge removes one
/// element, so the loop terminates.
pub open spec fn merge_loop(ts: Seq<ExprM>) -> Result<Seq<ExprM>, ExprError>
    decreases ts.len(),
{
    match find_pair_from(ts, 0, 0) {
        None => Ok(ts),
        Some(p) => {
            let (i, j) = p;
            if !(0 <= i < ts.len() && 0 <= j < ts.len() && i != j) {
                // the search never returns indices out of range
                Ok(ts)
            } else {
                match add_pair(ts[i], ts[j]) {
                    Err(e) => Err(e),
                    Ok(m) => merge_loop(seq![m] + remove_pair(ts, i, j)),
                }
            }
        },
    }
}

/// Collapses every term of a list from index `i` on, keeping the order.
pub open spec fn collapse_each(ts: Seq<ExprM>, i: int) -> Result<Seq<ExprM>, ExprError>
    decreases ts, ts.len() - i,
{
    if i < 0 || i >= ts.len() {
        Ok(Seq::empty())
    } else {
        match collapse_e(ts[i]) {
            Err(e) => Err(e),
            Ok(c) => match collapse_each(ts, i + 1) {
                Ok(rest) => Ok(seq![c] + rest),
                Err(e) => Err(e),
            },
        }
    }
}

/// The collapsed form of a summation's term list: every term collapsed,
/// then like terms merged to a fixed point.
pub open spec fn collapse_sum(ts: Seq<ExprM>) -> Result<Seq<ExprM>, ExprError>
    decreases ts, ts.len() + 1,
{
    match collapse_each(ts, 0) {
        Err(e) => Err(e),
        Ok(cs) => merge_loop(cs),
    }
}

/// The collapsed (canonical) form of a tree.
///
/// A multiplication whose operands share a kind folds them into its first
/// operand and resets the second to the constant one; afterwards, if either
/// operand renders as the literal zero, both become the constant zero.
pub open spec fn collapse_e(e: ExprM) -> Result<ExprM, ExprError>
    decreases e, 3int,
{
    match e {
        ExprM::Constant(c) => match collapse_const(c) {
            Ok(cc) => Ok(ExprM::Constant(cc)),
            Err(er) => Err(er),
        },
        ExprM::Variable(t) => match collapse_var(t) {
            Ok(ct) => Ok(ExprM::Variable(ct)),
            Err(er) => Err(er),
        },
        ExprM::Summation(ts) => match collapse_sum(ts) {
            Ok(cs) => Ok(ExprM::Summation(cs)),
            Err(er) => Err(er),
        },
        ExprM::Multiplication(a, b) => match collapse_e(*a) {
            Err(er) => Err(er),
            Ok(ca) => match collapse_e(*b) {
                Err(er) => Err(er),
                Ok(cb) => {
                    let folded: Result<(ExprM, ExprM), ExprError> = if kind_of(ca) == kind_of(
                        cb,
                    ) {
                        match (ca, cb) {
                            (ExprM::Constant(x), ExprM::Constant(y)) => match const_mul(x, y) {
                                Ok(pr) => Ok(
                                    (ExprM::Constant(pr), ExprM::Constant(one_m())),
                                ),
                                Err(er) => Err(er),
                            },
                            (ExprM::Variable(x), ExprM::Variable(y)) => match var_mul(x, y) {
                                Ok(pr) => Ok(
                                    (ExprM::Variable(pr), ExprM::Constant(one_m())),
                                ),
                                Err(er) => Err(er),
                            },
                            _ => Ok(
                                (
                                    ExprM::Multiplication(Box::new(ca), Box::new(cb)),
                                    ExprM::Constant(one_m()),
                                ),
                            ),
                        }
                    } else {
                        Ok((ca, cb))
                    };
                    match folded {
                        Err(er) => Err(er),
                        Ok(fs) => if render(fs.0) == seq!['0'] || render(fs.1) == seq!['0'] {
                            Ok(
                                ExprM::Multiplication(
                                    Box::new(ExprM::Constant(zero_m())),
                                    Box::new(ExprM::Constant(zero_m())),
                                ),
                            )
                        } else {
                            Ok(ExprM::Multiplication(Box::new(fs.0), Box::new(fs.1)))
                        },
                    }
                },
            },
        },
    }
}

/// Unfolds the coefficient-folding scan one position.
pub proof fn lemma_collapse_var_scan_step(
    name: Seq<char>,
    coeffs: Seq<ExprM>,
    i: int,
    pow: int,
    acc: Option<ConstM>,
    funcs: Seq<ExprM>,
)
    requires
        0 <= i,
    ensures
        i >= coeffs.len() ==> collapse_var_scan(name, coeffs, i, pow, acc, funcs) == Ok::<
            (int, Option<ConstM>, Seq<ExprM>),
            ExprError,
        >((pow, acc, funcs)),
        i < coeffs.len() ==> collapse_var_scan(name, coeffs, i, pow, acc, funcs) == (
        match collapse_e(coeffs[i]) {
            Err(e) => Err::<(int, Option<ConstM>, Seq<ExprM>), ExprError>(e),
            Ok(c) => match c {
                ExprM::Variable(v) => if v.var.name == name {
                    if !fits_i64(pow + v.var.power) {
                        Err::<(int, Option<ConstM>, Seq<ExprM>), ExprError>(ExprError::Overflow)
                    } else {
                        collapse_var_scan(name, coeffs, i + 1, pow + v.var.power, acc, funcs)
                    }
                } else {
                    Err::<(int, Option<ConstM>, Seq<ExprM>), ExprError>(
                        ExprError::MixedVariables,
                    )
                },
                ExprM::Constant(k) => match acc {
                    None => collapse_var_scan(name, coeffs, i + 1, pow, Some(k), funcs),
                    Some(p) => match const_mul(p, k) {
                        Ok(pk) => collapse_var_scan(name, coeffs, i + 1, pow, Some(pk), funcs),
                        Err(e) => Err::<(int, Option<ConstM>, Seq<ExprM>), ExprError>(e),
                    },
                },
                f => collapse_var_scan(name, coeffs, i + 1, pow, acc, funcs.push(f)),
            },
        }),
{
}

/// Unfolds a variable-term collapse.
pub proof fn lemma_collapse_var_unfold(t: VarTermM)
    ensures
        collapse_var(t) == (match collapse_var_scan(
            t.var.name,
            t.coeffs,
            0,
            t.var.power,
            None,
            Seq::empty(),
        ) {
            Err(e) => Err::<VarTermM, ExprError>(e),
            Ok((pow, acc, funcs)) => {
                let folded = match acc {
                    Some(c) => c,
                    None => one_m(),
                };
                match collapse_const(folded) {
                    Err(e) => Err::<VarTermM, ExprError>(e),
                    Ok(cc) => Ok::<VarTermM, ExprError>(
                        VarTermM {
                            var: VarM { name: t.var.name, power: pow },
                            coeffs: funcs.push(ExprM::Constant(cc)),
                        },
                    ),
                }
            },
        }),
{
}

/// Unfolds the term-by-term collapse one position.
pub proof fn lemma_collapse_each_step(ts: Seq<ExprM>, i: int)
    requires
        0 <= i,
    ensures
        i >= ts.len() ==> collapse_each(ts, i) == Ok::<Seq<ExprM>, ExprError>(Seq::empty()),
        i < ts.len() ==> collapse_each(ts, i) == (match collapse_e(ts[i]) {
            Err(e) => Err::<Seq<ExprM>, ExprError>(e),
            Ok(c) => match collapse_each(ts, i + 1) {
                Ok(rest) => Ok::<Seq<ExprM>, ExprError>(seq![c] + rest),
                Err(e) => Err::<Seq<ExprM>, ExprError>(e),
            },
        }),
{
}

/// Unfolds the pair search one step.
pub proof fn lemma_find_pair_step(ts: Seq<ExprM>, i: int, j: int)
    requires
        0 <= i,
        0 <= j,
    ensures
        i >= ts.len() ==> find_pair_from(ts, i, j) is None,
        i < ts.len() && j >= ts.len() ==> find_pair_from(ts, i, j) == find_pair_from(
            ts,
            i + 1,
            0,
        ),
        i < ts.len() && j < ts.len() && (i == j || !mergeable(ts[i], ts[j]))
            ==> find_pair_from(ts, i, j) == find_pair_from(ts, i, j + 1),
        i < ts.len() && j < ts.len() && i != j && mergeable(ts[i], ts[j]) ==> find_pair_from(
            ts,
            i,
            j,
        ) == Some((i, j)),
{
}

/// Unfolds one round of the merge fixed point.
pub proof fn lemma_merge_loop_step(ts: Seq<ExprM>)
    ensures
        find_pair_from(ts, 0, 0) is None ==> merge_loop(ts) == Ok::<Seq<ExprM>, ExprError>(ts),
        match find_pair_from(ts, 0, 0) {
            Some(p) => 0 <= p.0 < ts.len() && 0 <= p.1 < ts.len() && p.0 != p.1
                && mergeable(ts[p.0], ts[p.1]) && merge_loop(ts) == (match add_pair(
                ts[p.0],
                ts[p.1],
            ) {
                Err(e) => Err::<Seq<ExprM>, ExprError>(e),
                Ok(m) => merge_loop(seq![m] + remove_pair(ts, p.0, p.1)),
            }),
            None => true,
        },
{
    lemma_find_pair_valid(ts, 0, 0);
}

/// Unfolds the sum collapse into its two phases.
pub proof fn lemma_collapse_sum_unfold(ts: Seq<ExprM>)
    ensures
        collapse_sum(ts) == (match collapse_each(ts, 0) {
            Err(e) => Err::<Seq<ExprM>, ExprError>(e),
            Ok(cs) => merge_loop(cs),
        }),
{
}

/// Unfolds the mergeability test on a pair of terms.
pub proof fn lemma_mergeable_unfold(x: ExprM, y: ExprM)
    ensures
        mergeable(x, y) == (match (x, y) {
            (ExprM::Constant(a), ExprM::Constant(b)) => const_can_add(a, b),
            (ExprM::Variable(a), ExprM::Variable(b)) => var_can_add(a, b),
            _ => false,
        }),
        add_pair(x, y) == (match (x, y) {
            (ExprM::Constant(a), ExprM::Constant(b)) => match const_add(a, b) {
                Ok(c) => Ok::<ExprM, ExprError>(ExprM::Constant(c)),
                Err(e) => Err::<ExprM, ExprError>(e),
            },
            (ExprM::Variable(a), ExprM::Variable(b)) => match var_add(a, b) {
                Ok(c) => Ok::<ExprM, ExprError>(ExprM::Variable(c)),
                Err(e) => Err::<ExprM, ExprError>(e),
            },
            _ => Err::<ExprM, ExprError>(ExprError::KindMismatch),
        }),
{
}

/// Unfolds the collapse of a constant node.
pub proof fn lemma_collapse_e_const(c: ConstM)
    ensures
        collapse_e(ExprM::Constant(c)) == (match collapse_const(c) {
            Ok(cc) => Ok::<ExprM, ExprError>(ExprM::Constant(cc)),
            Err(er) => Err::<ExprM, ExprError>(er),
        }),
{
}

/// Unfolds the collapse of a variable-term node.
pub proof fn lemma_collapse_e_var(t: VarTermM)
    ensures
        collapse_e(ExprM::Variable(t)) == (match collapse_var(t) {
            Ok(ct) => Ok::<ExprM, ExprError>(ExprM::Variable(ct)),
            Err(er) => Err::<ExprM, ExprError>(er),
        }),
{
}

/// Unfolds the collapse of a summation node.
pub proof fn lemma_collapse_e_sum(ts: Seq<ExprM>)
    ensures
        collapse_e(ExprM::Summation(ts)) == (match collapse_sum(ts) {
            Ok(cs) => Ok::<ExprM, ExprError>(ExprM::Summation(cs)),
            Err(er) => Err::<ExprM, ExprError>(er),
        }),
{
}

/// Unfolds the collapse of a multiplication node: operands are collapsed,
/// folded when they share a kind, and zero-absorbed by rendering.
pub proof fn lemma_collapse_e_mul(a: ExprM, b: ExprM)
    ensures
        collapse_e(ExprM::Multiplication(Box::new(a), Box::new(b))) == (match collapse_e(a) {
            Err(er) => Err::<ExprM, ExprError>(er),
            Ok(ca) => match collapse_e(b) {
                Err(er) => Err::<ExprM, ExprError>(er),
                Ok(cb) => {
                    let folded: Result<(ExprM, ExprM), ExprError> = if kind_of(ca) == kind_of(
                        cb,
                    ) {
                        match (ca, cb) {
                            (ExprM::Constant(x), ExprM::Constant(y)) => match const_mul(x, y) {
                                Ok(pr) => Ok(
                                    (ExprM::Constant(pr), ExprM::Constant(one_m())),
                                ),
                                Err(er) => Err(er),
                            },
                            (ExprM::Variable(x), ExprM::Variable(y)) => match var_mul(x, y) {
                                Ok(pr) => Ok(
                                    (ExprM::Variable(pr), ExprM::Constant(one_m())),
                                ),
                                Err(er) => Err(er),
                            },
                            _ => Ok(
                                (
                                    ExprM::Multiplication(Box::new(ca), Box::new(cb)),
                                    ExprM::Constant(one_m()),
                                ),
                            ),
                        }
                    } else {
                        Ok((ca, cb))
                    };
                    match folded {
                        Err(er) => Err::<ExprM, ExprError>(er),
                        Ok(fs) => if render(fs.0) == seq!['0'] || render(fs.1) == seq!['0'] {
                            Ok::<ExprM, ExprError>(
                                ExprM::Multiplication(
                                    Box::new(ExprM::Constant(zero_m())),
                                    Box::new(ExprM::Constant(zero_m())),
                                ),
                            )
                        } else {
                            Ok::<ExprM, ExprError>(
                                ExprM::Multiplication(Box::new(fs.0), Box::new(fs.1)),
                            )
                        },
                    }
                },
            },
        }),
{
    let e = ExprM::Multiplication(Box::new(a), Box::new(b));
    assert(*e->Multiplication_0 == a);
    assert(*e->Multiplication_1 == b);
}

/// The number of composite (function) nodes on the differentiation path:
/// summation terms and multiplication operands count, while a variable
/// term's coefficient list does not — the power rule copies coefficients
/// verbatim and differentiation never recurses into them. Collapse never
/// increases this measure — except on a product of two composite operands,
/// which is why differentiation rejects those — and that makes it the
/// termination measure for differentiation, whose recursion runs through
/// collapsed subtrees rather than through the original ones.
pub open spec fn mu(e: ExprM) -> nat
    decreases e,
{
    match e {
        ExprM::Constant(_) => 0,
        ExprM::Variable(_) => 0,
        ExprM::Summation(ts) => 1 + mu_seq(ts),
        ExprM::Multiplication(a, b) => 1 + mu(*a) + mu(*b),
    }
}

pub open spec fn mu_seq(s: Seq<ExprM>) -> nat
    decreases s,
{
    if s.len() == 0 {
        0
    } else {
        mu(s[0]) + mu_seq(s.drop_first())
    }
}

/// No multiplication node on the differentiation path — through summation
/// terms and multiplication operands, but not into a variable term's
/// coefficient list — has two composite operands. Simplifying such a
/// product wraps it in a fresh product without bound, so differentiation —
/// which simplifies before recursing — does not terminate when one sits on
/// its path; one inside a coefficient list is only copied and is accepted.
pub open spec fn fn_product_free(e: ExprM) -> bool
    decreases e,
{
    match e {
        ExprM::Constant(_) => true,
        ExprM::Variable(_) => true,
        ExprM::Summation(ts) => fn_product_free_seq(ts),
        ExprM::Multiplication(a, b) => !(kind_of(*a) == EntityKind::Function && kind_of(*b)
            == EntityKind::Function) && fn_product_free(*a) && fn_product_free(*b),
    }
}

pub open spec fn fn_product_free_seq(s: Seq<ExprM>) -> bool
    decreases s,
{
    if s.len() == 0 {
        true
    } else {
        fn_product_free(s[0]) && fn_product_free_seq(s.drop_first())
    }
}

/// Every element of the list is free of composite-composite products.
pub open spec fn all_fpf(s: Seq<ExprM>) -> bool {
    forall|k: int| 0 <= k < s.len() ==> fn_product_free(s[k])
}

/// Unfolds the product-freedom predicate on one node.
pub proof fn lemma_fpf_unfold(e: ExprM)
    ensures
        fn_product_free(e) == (match e {
            ExprM::Constant(_) => true,
            ExprM::Variable(_) => true,
            ExprM::Summation(ts) => fn_product_free_seq(ts),
            ExprM::Multiplication(a, b) => !(kind_of(*a) == EntityKind::Function && kind_of(
                *b,
            ) == EntityKind::Function) && fn_product_free(*a) && fn_product_free(*b),
        }),
        mu(e) == (match e {
            ExprM::Constant(_) => 0nat,
            ExprM::Variable(_) => 0nat,
            ExprM::Summation(ts) => 1nat + mu_seq(ts),
            ExprM::Multiplication(a, b) => 1nat + mu(*a) + mu(*b),
        }),
{
}

pub proof fn lemma_fpf_seq(s: Seq<ExprM>)
    ensures
        fn_product_free_seq(s) <==> all_fpf(s),
    decreases s.len(),
{
    if s.len() > 0 {
        lemma_fpf_seq(s.drop_first());
        assert(forall|k: int| 1 <= k < s.len() ==> s[k] == #[trigger] s.drop_first()[k - 1]);
        if fn_product_free(s[0]) && all_fpf(s.drop_first()) {
            assert forall|k: int| 0 <= k < s.len() implies fn_product_free(s[k]) by {
                if k > 0 {
                    assert(fn_product_free(s.drop_first()[k - 1]));
                }
            }
        }
    }
}

pub proof fn lemma_mu_seq_index(s: Seq<ExprM>, i: int)
    requires
        0 <= i < s.len(),
    ensures
        mu(s[i]) <= mu_seq(s),
    decreases s.len(),
{
    if i > 0 {
        lemma_mu_seq_index(s.drop_first(), i - 1);
        assert(s.drop_first()[i - 1] == s[i]);
    }
}

pub proof fn lemma_mu_seq_cons(x: ExprM, s: Seq<ExprM>)
    ensures
        mu_seq(seq![x] + s) == mu(x) + mu_seq(s),
{
    assert((seq![x] + s).len() == s.len() + 1);
    assert((seq![x] + s)[0] == x);
    assert((seq![x] + s).drop_first() =~= s);
}

pub proof fn lemma_mu_seq_update(s: Seq<ExprM>, k: int, x: ExprM)
    requires
        0 <= k < s.len(),
    ensures
        mu_seq(s.update(k, x)) + mu(s[k]) == mu_seq(s) + mu(x),
    decreases s.len(),
{
    if k == 0 {
        assert(s.update(0, x)[0] == x);
        assert(s.update(0, x).drop_first() =~= s.drop_first());
    } else {
        lemma_mu_seq_update(s.drop_first(), k - 1, x);
        assert(s.update(k, x)[0] == s[0]);
        assert(s.update(k, x).drop_first() =~= s.drop_first().update(k - 1, x));
        assert(s.drop_first()[k - 1] == s[k]);
    }
}

pub proof fn lemma_mu_seq_drop_last(s: Seq<ExprM>)
    requires
        s.len() > 0,
    ensures
        mu_seq(s.drop_last()) + mu(s.last()) == mu_seq(s),
    decreases s.len(),
{
    if s.len() == 1 {
        assert(s.drop_last() =~= Seq::<ExprM>::empty());
        assert(s.drop_first() =~= Seq::<ExprM>::empty());
    } else {
        lemma_mu_seq_drop_last(s.drop_first());
        assert(s.drop_last().drop_first() =~= s.drop_first().drop_last());
        assert(s.drop_last()[0] == s[0]);
        assert(s.drop_first().last() == s.last());
        assert(s.drop_last().len() > 0);
    }
}

pub proof fn lemma_mu_seq_skip_step(s: Seq<ExprM>, i: int)
    requires
        0 <= i < s.len(),
    ensures
        mu_seq(s.skip(i)) == mu(s[i]) + mu_seq(s.skip(i + 1)),
{
    assert(s.skip(i).len() > 0);
    assert(s.skip(i)[0] == s[i]);
    assert(s.skip(i).drop_first() =~= s.skip(i + 1));
}

pub proof fn lemma_swap_remove_elems(s: Seq<ExprM>, k: int)
    requires
        0 <= k < s.len(),
    ensures
        swap_remove_seq(s, k).len() == s.len() - 1,
        forall|m: int| 0 <= m < s.len() - 1 ==> swap_remove_seq(s, k)[m] == (if m == k {
            s.last()
        } else {
            s[m]
        }),
        mu_seq(swap_remove_seq(s, k)) + mu(s[k]) == mu_seq(s),
{
    let u = s.update(k, s.last());
    lemma_mu_seq_update(s, k, s.last());
    lemma_mu_seq_drop_last(u);
    assert(u.last() == s.last());
}

pub proof fn lemma_remove_pair(s: Seq<ExprM>, i: int, j: int)
    requires
        0 <= i < s.len(),
        0 <= j < s.len(),
        i != j,
    ensures
        remove_pair(s, i, j).len() == s.len() - 2,
        mu_seq(remove_pair(s, i, j)) + mu(s[i]) + mu(s[j]) == mu_seq(s),
        all_fpf(s) ==> all_fpf(remove_pair(s, i, j)),
{
    let s1 = swap_remove_seq(s, i);
    lemma_swap_remove_elems(s, i);
    if j < s1.len() {
        lemma_swap_remove_elems(s1, j);
        assert(s1[j] == s[j]);
        assert(s1.last() == (if s.len() - 2 == i {
            s.last()
        } else {
            s[s.len() - 2]
        }));
    } else {
        assert(j == s.len() - 1);
        assert(i < s1.len());
        lemma_swap_remove_elems(s1, i);
        assert(s1[i] == s.last());
        assert(s1[i] == s[j]);
    }
}

/// The kind-specific sum of two like terms never gains composite nodes, and
/// stays free of composite-composite products when its first operand is.
pub proof fn lemma_add_pair_mu(x: ExprM, y: ExprM)
    requires
        fn_product_free(x),
    ensures
        add_pair(x, y) matches Ok(m) ==> mu(m) <= mu(x) + mu(y) && fn_product_free(m)
            && kind_of(m) == kind_of(x),
{
    match add_pair(x, y) {
        Ok(m) => {
            lemma_fpf_unfold(m);
        },
        Err(_) => {},
    }
}

/// The merge fixed point never gains composite nodes.
pub proof fn lemma_merge_loop_mu(ts: Seq<ExprM>)
    requires
        all_fpf(ts),
    ensures
        merge_loop(ts) matches Ok(us) ==> mu_seq(us) <= mu_seq(ts) && all_fpf(us),
    decreases ts.len(),
{
    lemma_find_pair_valid(ts, 0, 0);
    match find_pair_from(ts, 0, 0) {
        None => {},
        Some(p) => {
            let (i, j) = p;
            match add_pair(ts[i], ts[j]) {
                Err(_) => {},
                Ok(m) => {
                    lemma_add_pair_mu(ts[i], ts[j]);
                    lemma_remove_pair(ts, i, j);
                    lemma_mu_seq_cons(m, remove_pair(ts, i, j));
                    let next = seq![m] + remove_pair(ts, i, j);
                    assert forall|k: int| 0 <= k < next.len() implies fn_product_free(
                        next[k],
                    ) by {
                        if k > 0 {
                            assert(next[k] == remove_pair(ts, i, j)[k - 1]);
                        }
                    }
                    lemma_merge_loop_mu(next);
                },
            }
        },
    }
}

/// Collapsing every term of a list never gains composite nodes.
pub proof fn lemma_collapse_each_mu(ts: Seq<ExprM>, i: int)
    requires
        0 <= i <= ts.len(),
        all_fpf(ts),
    ensures
        collapse_each(ts, i) matches Ok(cs) ==> mu_seq(cs) <= mu_seq(ts.skip(i)) && all_fpf(cs),
    decreases ts, ts.len() - i,
{
    if i < ts.len() {
        lemma_mu_seq_skip_step(ts, i);
        lemma_collapse_mu(ts[i]);
        match collapse_e(ts[i]) {
            Err(_) => {},
            Ok(c) => {
                lemma_collapse_each_mu(ts, i + 1);
                match collapse_each(ts, i + 1) {
                    Ok(rest) => {
                        lemma_mu_seq_cons(c, rest);
                        assert forall|k: int| 0 <= k < (seq![c] + rest).len() implies
                            fn_product_free((seq![c] + rest)[k]) by {
                            if k > 0 {
                                assert((seq![c] + rest)[k] == rest[k - 1]);
                            }
                        }
                    },
                    Err(_) => {},
                }
            },
        }
    } else {
        assert(ts.skip(i).len() == 0);
    }
}

/// Collapse preserves the kind of a tree, keeps it free of
/// composite-composite products, and never increases the number of
/// composite nodes.
pub proof fn lemma_collapse_mu(e: ExprM)
    requires
        fn_product_free(e),
    ensures
        collapse_e(e) matches Ok(u) ==> fn_product_free(u) && mu(u) <= mu(e) && kind_of(u)
            == kind_of(e),
    decreases e, 3int,
{
    match e {
        ExprM::Constant(_) => {},
        ExprM::Variable(t) => {
            lemma_collapse_e_var(t);
            match collapse_var(t) {
                Ok(ct) => {
                    lemma_fpf_unfold(ExprM::Variable(ct));
                },
                Err(_) => {},
            }
        },
        ExprM::Summation(ts) => {
            lemma_fpf_seq(ts);
            lemma_collapse_each_mu(ts, 0);
            assert(ts.skip(0) =~= ts);
            match collapse_each(ts, 0) {
                Err(_) => {
                    assert(collapse_sum(ts) is Err);
                },
                Ok(cs) => {
                    lemma_merge_loop_mu(cs);
                    match merge_loop(cs) {
                        Err(_) => {
                            assert(collapse_sum(ts) is Err);
                        },
                        Ok(us) => {
                            assert(collapse_sum(ts) == Ok::<Seq<ExprM>, ExprError>(us));
                            assert(collapse_e(e) == Ok::<ExprM, ExprError>(
                                ExprM::Summation(us),
                            ));
                            lemma_fpf_seq(us);
                        },
                    }
                },
            }
        },
        ExprM::Multiplication(a, b) => {
            lemma_collapse_mu(*a);
            lemma_collapse_mu(*b);
            match collapse_e(*a) {
                Err(_) => {},
                Ok(ca) => match collapse_e(*b) {
                    Err(_) => {},
                    Ok(cb) => {
                        if kind_of(ca) == kind_of(cb) {
                            match (ca, cb) {
                                (ExprM::Constant(x), ExprM::Constant(y)) => {
                                    match const_mul(x, y) {
                                        Ok(pr) => {
                                            lemma_collapse_mul_finish(
                                                e,
                                                ExprM::Constant(pr),
                                                ExprM::Constant(one_m()),
                                            );
                                        },
                                        Err(_) => {},
                                    }
                                },
                                (ExprM::Variable(x), ExprM::Variable(y)) => {
                                    match var_mul(x, y) {
                                        Ok(pr) => {
                                            lemma_fpf_unfold(ExprM::Variable(pr));
                                            lemma_collapse_mul_finish(
                                                e,
                                                ExprM::Variable(pr),
                                                ExprM::Constant(one_m()),
                                            );
                                        },
                                        Err(_) => {},
                                    }
                                },
                                _ => {
                                    assert(kind_of(ca) == EntityKind::Function);
                                    assert(false);
                                },
                            }
                        } else {
                            lemma_collapse_mul_finish(e, ca, cb);
                        }
                    },
                },
            }
        },
    }
}

/// Unfolds the measure and the product-freedom predicate on a
/// multiplication node.
pub proof fn lemma_fpf_mul(a: ExprM, b: ExprM)
    ensures
        fn_product_free(ExprM::Multiplication(Box::new(a), Box::new(b))) == (!(kind_of(a)
            == EntityKind::Function && kind_of(b) == EntityKind::Function)
            && fn_product_free(a) && fn_product_free(b)),
        mu(ExprM::Multiplication(Box::new(a), Box::new(b))) == 1 + mu(a) + mu(b),
{
    let u = ExprM::Multiplication(Box::new(a), Box::new(b));
    assert(*u->Multiplication_0 == a);
    assert(*u->Multiplication_1 == b);
    assert(fn_product_free(u) == (!(kind_of(*u->Multiplication_0) == EntityKind::Function
        && kind_of(*u->Multiplication_1) == EntityKind::Function)
        && fn_product_free(*u->Multiplication_0) && fn_product_free(*u->Multiplication_1)));
    assert(mu(u) == 1 + mu(*u->Multiplication_0) + mu(*u->Multiplication_1));
}

/// The zero-absorption step at the end of collapsing a multiplication: both
/// possible outcomes keep the bound and the shape.
proof fn lemma_collapse_mul_finish(e: ExprM, f: ExprM, s: ExprM)
    requires
        fn_product_free(f),
        fn_product_free(s),
        !(kind_of(f) == EntityKind::Function && kind_of(s) == EntityKind::Function),
        mu(f) + mu(s) + 1 <= mu(e),
        collapse_e(e) == (if render(f) == seq!['0'] || render(s) == seq!['0'] {
            Ok::<ExprM, ExprError>(
                ExprM::Multiplication(
                    Box::new(ExprM::Constant(zero_m())),
                    Box::new(ExprM::Constant(zero_m())),
                ),
            )
        } else {
            Ok::<ExprM, ExprError>(ExprM::Multiplication(Box::new(f), Box::new(s)))
        }),
    ensures
        collapse_e(e) matches Ok(u) ==> fn_product_free(u) && mu(u) <= mu(e) && kind_of(u)
            == EntityKind::Function,
{
    if render(f) == seq!['0'] || render(s) == seq!['0'] {
        let z = ExprM::Constant(zero_m());
        let u = ExprM::Multiplication(Box::new(z), Box::new(z));
        lemma_fpf_mul(z, z);
        assert(collapse_e(e) == Ok::<ExprM, ExprError>(u));
        assert(fn_product_free(u));
        assert(mu(u) == 1);
    } else {
        let u = ExprM::Multiplication(Box::new(f), Box::new(s));
        lemma_fpf_mul(f, s);
        assert(collapse_e(e) == Ok::<ExprM, ExprError>(u));
        assert(fn_product_free(u));
        assert(mu(u) == 1 + mu(f) + mu(s));
    }
}

/// Collapsing a summation's term list never gains composite nodes.
pub proof fn lemma_collapse_sum_mu(ts: Seq<ExprM>)
    requires
        all_fpf(ts),
    ensures
        collapse_sum(ts) matches Ok(cs) ==> mu_seq(cs) <= mu_seq(ts) && all_fpf(cs),
{
    lemma_collapse_each_mu(ts, 0);
    assert(ts.skip(0) =~= ts);
    match collapse_each(ts, 0) {
        Err(_) => {},
        Ok(cs) => {
            lemma_merge_loop_mu(cs);
        },
    }
}

/// The derivative of every term of a list from index `i` on, in order.
pub open spec fn diff_each(ts: Seq<ExprM>, i: int) -> Result<Seq<ExprM>, ExprError>
    decreases mu_seq(ts), ts.len() - i,
        via diff_each_dec
{
    if i < 0 || i >= ts.len() {
        Ok(Seq::empty())
    } else {
        match diff_e(ts[i]) {
            Err(e) => Err(e),
            Ok(d) => match diff_each(ts, i + 1) {
                Ok(rest) => Ok(seq![d] + rest),
                Err(e) => Err(e),
            },
        }
    }
}

#[via_fn]
proof fn diff_each_dec(ts: Seq<ExprM>, i: int) {
    if 0 <= i < ts.len() {
        lemma_mu_seq_index(ts, i);
    }
}

/// The symbolic derivative with respect to the one differentiation variable.
///
/// A constant differentiates to zero. A variable term follows the power
/// rule: the exponent drops by one and the old exponent is prepended as a
/// new constant coefficient. A summation is collapsed, differentiated term
/// by term, and collapsed again. A multiplication is collapsed and then
/// rewritten by the product rule into a collapsed two-term summation.
/// A product of two composite operands on the differentiation path is
/// rejected: its simplification nests products without bound, and the
/// rewriting would recurse into it forever. One that sits inside a variable
/// term's coefficient list is accepted: coefficients are copied, never
/// differentiated.
pub open spec fn diff_e(e: ExprM) -> Result<ExprM, ExprError>
    decreases mu(e), 0int,
        via diff_e_dec
{
    match e {
        ExprM::Constant(_) => Ok(ExprM::Constant(zero_m())),
        ExprM::Variable(t) => if !fits_i64(t.var.power - 1) {
            Err(ExprError::Overflow)
        } else {
            Ok(
                ExprM::Variable(
                    VarTermM {
                        var: VarM { name: t.var.name, power: t.var.power - 1 },
                        coeffs: seq![
                            ExprM::Constant(ConstM { value: t.var.power, vars: Seq::empty() }),
                        ] + t.coeffs,
                    },
                ),
            )
        },
        ExprM::Summation(ts) => if !fn_product_free(e) {
            Err(ExprError::FunctionProduct)
        } else {
            match collapse_sum(ts) {
                Err(e1) => Err(e1),
                Ok(ts1) => match diff_each(ts1, 0) {
                    Err(e1) => Err(e1),
                    Ok(ds) => match collapse_sum(ds) {
                        Err(e1) => Err(e1),
                        Ok(ts2) => Ok(ExprM::Summation(ts2)),
                    },
                },
            }
        },
        ExprM::Multiplication(_, _) => if !fn_product_free(e) {
            Err(ExprError::FunctionProduct)
        } else {
            match collapse_e(e) {
                Err(e1) => Err(e1),
                Ok(u) => match u {
                    ExprM::Multiplication(f, s) => match diff_e(*f) {
                        Err(e1) => Err(e1),
                        Ok(df) => match diff_e(*s) {
                            Err(e1) => Err(e1),
                            Ok(ds) => match collapse_sum(
                                seq![
                                    ExprM::Multiplication(f, Box::new(ds)),
                                    ExprM::Multiplication(s, Box::new(df)),
                                ],
                            ) {
                                Err(e1) => Err(e1),
                                Ok(ts2) => Ok(ExprM::Summation(ts2)),
                            },
                        },
                    },
                    // collapsing a multiplication always yields a multiplication
                    _ => Err(ExprError::KindMismatch),
                },
            }
        },
    }
}

#[via_fn]
proof fn diff_e_dec(e: ExprM) {
    if fn_product_free(e) {
        match e {
            ExprM::Summation(ts) => {
                lemma_fpf_seq(ts);
                lemma_collapse_sum_mu(ts);
            },
            ExprM::Multiplication(_, _) => {
                lemma_collapse_mu(e);
            },
            _ => {},
        }
    }
}

/// Unfolds the derivative of a constant node.
pub proof fn lemma_diff_const(c: ConstM)
    ensures
        diff_e(ExprM::Constant(c)) == Ok::<ExprM, ExprError>(ExprM::Constant(zero_m())),
{
}

/// Unfolds the derivative of a variable-term node: the power rule.
pub proof fn lemma_diff_var(t: VarTermM)
    ensures
        diff_e(ExprM::Variable(t)) == (if !fits_i64(t.var.power - 1) {
            Err::<ExprM, ExprError>(ExprError::Overflow)
        } else {
            Ok::<ExprM, ExprError>(
                ExprM::Variable(
                    VarTermM {
                        var: VarM { name: t.var.name, power: t.var.power - 1 },
                        coeffs: seq![
                            ExprM::Constant(ConstM { value: t.var.power, vars: Seq::empty() }),
                        ] + t.coeffs,
                    },
                ),
            )
        }),
{
}

/// Unfolds the derivative of a summation node.
pub proof fn lemma_diff_sum(ts: Seq<ExprM>)
    ensures
        diff_e(ExprM::Summation(ts)) == (if !fn_product_free(ExprM::Summation(ts)) {
            Err::<ExprM, ExprError>(ExprError::FunctionProduct)
        } else {
            match collapse_sum(ts) {
                Err(e1) => Err::<ExprM, ExprError>(e1),
                Ok(ts1) => match diff_each(ts1, 0) {
                    Err(e1) => Err::<ExprM, ExprError>(e1),
                    Ok(ds) => match collapse_sum(ds) {
                        Err(e1) => Err::<ExprM, ExprError>(e1),
                        Ok(ts2) => Ok::<ExprM, ExprError>(ExprM::Summation(ts2)),
                    },
                },
            }
        }),
{
}

/// Unfolds the derivative of a multiplication node: the product rule on the
/// collapsed operands.
pub proof fn lemma_diff_mul(a: ExprM, b: ExprM)
    ensures
        diff_e(ExprM::Multiplication(Box::new(a), Box::new(b))) == (if !fn_product_free(
            ExprM::Multiplication(Box::new(a), Box::new(b)),
        ) {
            Err::<ExprM, ExprError>(ExprError::FunctionProduct)
        } else {
            match collapse_e(ExprM::Multiplication(Box::new(a), Box::new(b))) {
                Err(e1) => Err::<ExprM, ExprError>(e1),
                Ok(u) => match u {
                    ExprM::Multiplication(f, s) => match diff_e(*f) {
                        Err(e1) => Err::<ExprM, ExprError>(e1),
                        Ok(df) => match diff_e(*s) {
                            Err(e1) => Err::<ExprM, ExprError>(e1),
                            Ok(ds) => match collapse_sum(
                                seq![
                                    ExprM::Multiplication(f, Box::new(ds)),
                                    ExprM::Multiplication(s, Box::new(df)),
                                ],
                            ) {
                                Err(e1) => Err::<ExprM, ExprError>(e1),
                                Ok(ts2) => Ok::<ExprM, ExprError>(ExprM::Summation(ts2)),
                            },
                        },
                    },
                    _ => Err::<ExprM, ExprError>(ExprError::KindMismatch),
                },
            }
        }),
{
}

/// Unfolds the term-by-term differentiation one position.
pub proof fn lemma_diff_each_step(ts: Seq<ExprM>, i: int)
    requires
        0 <= i,
    ensures
        i >= ts.len() ==> diff_each(ts, i) == Ok::<Seq<ExprM>, ExprError>(Seq::empty()),
        i < ts.len() ==> diff_each(ts, i) == (match diff_e(ts[i]) {
            Err(e) => Err::<Seq<ExprM>, ExprError>(e),
            Ok(d) => match diff_each(ts, i + 1) {
                Ok(rest) => Ok::<Seq<ExprM>, ExprError>(seq![d] + rest),
                Err(e) => Err::<Seq<ExprM>, ExprError>(e),
            },
        }),
{
}

} // verus!
