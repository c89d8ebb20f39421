//! The algebraic laws of the rewriting engine, proved over the model:
//! the derivative of a constant renders as zero, the power rule, zero
//! absorption in products, soundness of merging like constant terms, and
//! idempotence of collapse.

use vstd::prelude::*;
use crate::text::{lex_lt, int_str, lemma_int_str_basics, lemma_lex_lt_total, lemma_lex_lt_trans};
use crate::model::{
    EntityKind, ExprError, VarM, ConstM, VarTermM, ExprM, one_m, zero_m, kind_of, fits_i64,
    const_mul, var_add, var_mul, render, vars_equal,
    vars_mul, var_str, const_vars_str, CoeffsRender, lemma_render_unfold,
    lemma_render_coeffs_step, lemma_const_vars_str_step,
};
use crate::rewrite::{
    merge_var, insert_all, collapse_vars, collapse_const, collapse_var_scan, collapse_var,
    mergeable, add_pair, find_pair_from, swap_remove_seq, remove_pair, merge_loop,
    collapse_each, collapse_sum, collapse_e, diff_e,
    lemma_collapse_e_const, lemma_collapse_e_var, lemma_collapse_e_sum, lemma_collapse_e_mul,
    lemma_collapse_each_step, lemma_merge_loop_step, lemma_mergeable_unfold,
    lemma_find_pair_step, lemma_collapse_var_unfold, lemma_collapse_var_scan_step,
    lemma_diff_const, lemma_diff_var,
};

verus! {

/// A constant renders as the literal zero exactly when its value is zero.
pub proof fn lemma_const_render_zero(c: ConstM)
    ensures
        (render(ExprM::Constant(c)) == seq!['0']) <==> c.value == 0,
{
    lemma_render_unfold(ExprM::Constant(c));
    if c.value != 0 {
        lemma_int_str_basics(c.value);
        assert(render(ExprM::Constant(c))[0] == int_str(c.value)[0]);
        assert(render(ExprM::Constant(c)) != seq!['0']) by {
            assert(render(ExprM::Constant(c))[0] != '0');
        }
    }
}

/// The multiplicative identity renders as the literal one.
pub proof fn lemma_one_renders_one()
    ensures
        render(ExprM::Constant(one_m())) == seq!['1'],
{
    lemma_render_unfold(ExprM::Constant(one_m()));
    lemma_int_str_basics(1);
    lemma_const_vars_str_step(Seq::<VarM>::empty(), 0);
    assert(Seq::<VarM>::empty().skip(0) =~= Seq::<VarM>::empty());
    assert(int_str(1) + Seq::<char>::empty() =~= int_str(1));
}

/// Collapse keeps the kind of a tree.
pub proof fn lemma_collapse_kind(e: ExprM)
    ensures
        collapse_e(e) matches Ok(u) ==> kind_of(u) == kind_of(e),
{
    match e {
        ExprM::Constant(c) => {
            lemma_collapse_e_const(c);
        },
        ExprM::Variable(t) => {
            lemma_collapse_e_var(t);
        },
        ExprM::Summation(ts) => {
            lemma_collapse_e_sum(ts);
        },
        ExprM::Multiplication(a, b) => {
            assert(*e->Multiplication_0 == *a);
            assert(*e->Multiplication_1 == *b);
            lemma_collapse_e_mul(*a, *b);
        },
    }
}

/// The derivative of any constant is the bare constant zero, which renders
/// as the literal zero.
pub proof fn lemma_constant_derivative_renders_zero(c: ConstM)
    ensures
        diff_e(ExprM::Constant(c)) == Ok::<ExprM, ExprError>(ExprM::Constant(zero_m())),
        render(ExprM::Constant(zero_m())) == seq!['0'],
{
    lemma_diff_const(c);
    lemma_render_unfold(ExprM::Constant(zero_m()));
}

/// The power rule: differentiating a bare variable with exponent `n` gives
/// the term with constant coefficient `n` and exponent `n - 1`. It renders
/// as the literal zero when `n` is zero, as the literal one when `n` is one
/// (the coefficient one is skipped and the power-zero variable is the empty
/// factor), and as the coefficient followed by the variable otherwise.
pub proof fn lemma_power_rule(name: Seq<char>, n: int)
    requires
        fits_i64(n - 1),
    ensures
        diff_e(ExprM::Variable(VarTermM { var: VarM { name, power: n }, coeffs: Seq::empty() }))
            == Ok::<ExprM, ExprError>(
            ExprM::Variable(
                VarTermM {
                    var: VarM { name, power: n - 1 },
                    coeffs: seq![ExprM::Constant(ConstM { value: n, vars: Seq::empty() })],
                },
            ),
        ),
        n == 0 ==> render(
            ExprM::Variable(
                VarTermM {
                    var: VarM { name, power: n - 1 },
                    coeffs: seq![ExprM::Constant(ConstM { value: n, vars: Seq::empty() })],
                },
            ),
        ) == seq!['0'],
        n == 1 ==> render(
            ExprM::Variable(
                VarTermM {
                    var: VarM { name, power: n - 1 },
                    coeffs: seq![ExprM::Constant(ConstM { value: n, vars: Seq::empty() })],
                },
            ),
        ) == seq!['1'],
        n != 0 && n != 1 ==> render(
            ExprM::Variable(
                VarTermM {
                    var: VarM { name, power: n - 1 },
                    coeffs: seq![ExprM::Constant(ConstM { value: n, vars: Seq::empty() })],
                },
            ),
        ) == int_str(n) + var_str(VarM { name, power: n - 1 }),
{
    let t = VarTermM { var: VarM { name, power: n }, coeffs: Seq::empty() };
    lemma_diff_var(t);
    assert(seq![ExprM::Constant(ConstM { value: n, vars: Seq::empty() })] + Seq::<
        ExprM,
    >::empty() =~= seq![ExprM::Constant(ConstM { value: n, vars: Seq::empty() })]);
    let d = VarTermM {
        var: VarM { name, power: n - 1 },
        coeffs: seq![ExprM::Constant(ConstM { value: n, vars: Seq::empty() })],
    };
    assert(diff_e(ExprM::Variable(t)) == Ok::<ExprM, ExprError>(ExprM::Variable(d)));
    lemma_render_unfold(ExprM::Variable(d));
    lemma_render_coeffs_step(d.coeffs, 0);
    lemma_render_coeffs_step(d.coeffs, 1);
    let c0 = ConstM { value: n, vars: Seq::empty() };
    lemma_render_unfold(ExprM::Constant(c0));
    lemma_int_str_basics(n);
    lemma_const_vars_str_step(Seq::<VarM>::empty(), 0);
    assert(Seq::<VarM>::empty().skip(0) =~= Seq::<VarM>::empty());
    if n == 1 {
        assert(render(ExprM::Constant(c0)) =~= seq!['1']);
        assert(crate::model::render_coeffs(d.coeffs, 0) == CoeffsRender::NoneKept);
        assert(d.var.power == 0);
    } else if n != 0 {
        assert(render(ExprM::Constant(c0)) =~= int_str(n));
        assert(render(ExprM::Constant(c0)) != seq!['1']) by {
            assert(int_str(n) != seq!['1']);
        }
        assert(render(ExprM::Constant(c0))[0] != '0');
        assert(crate::model::render_coeffs(d.coeffs, 0) == CoeffsRender::Joined(int_str(n)));
        assert(d.var.power != 0);
    } else {
        assert(render(ExprM::Constant(c0)) == seq!['0']);
        assert(render(ExprM::Constant(c0))[0] == '0');
        assert(crate::model::render_coeffs(d.coeffs, 0) == CoeffsRender::Zero);
    }
}

/// Zero absorption: when one operand of a multiplication collapses to a
/// tree rendering as the literal zero, the collapsed multiplication has
/// both operands rendering as the literal zero. Proved for operands of
/// different kinds and for two constants; a product of two variable terms
/// can drop the zero-carrying coefficient during folding.
pub proof fn lemma_zero_absorption(a: ExprM, b: ExprM)
    requires
        (collapse_e(a) matches Ok(u) && render(u) == seq!['0']) || (collapse_e(b) matches Ok(
            u,
        ) && render(u) == seq!['0']),
        kind_of(a) != kind_of(b) || (a is Constant && b is Constant),
    ensures
        collapse_e(ExprM::Multiplication(Box::new(a), Box::new(b))) matches Ok(u) ==> u
            == ExprM::Multiplication(
            Box::new(ExprM::Constant(zero_m())),
            Box::new(ExprM::Constant(zero_m())),
        ) && render(*u->Multiplication_0) == seq!['0'] && render(*u->Multiplication_1)
            == seq!['0'],
{
    lemma_collapse_e_mul(a, b);
    lemma_collapse_kind(a);
    lemma_collapse_kind(b);
    lemma_render_unfold(ExprM::Constant(zero_m()));
    match collapse_e(a) {
        Err(_) => {},
        Ok(ca) => match collapse_e(b) {
            Err(_) => {},
            Ok(cb) => {
                if kind_of(a) != kind_of(b) {
                    assert(kind_of(ca) != kind_of(cb));
                } else {
                    match (ca, cb) {
                        (ExprM::Constant(x), ExprM::Constant(y)) => {
                            lemma_const_render_zero(x);
                            lemma_const_render_zero(y);
                            match const_mul(x, y) {
                                Err(_) => {},
                                Ok(p) => {
                                    assert(p.value == x.value * y.value);
                                    assert(x.value == 0 || y.value == 0);
                                    assert(p.value == 0);
                                    lemma_const_render_zero(p);
                                },
                            }
                        },
                        _ => {
                            lemma_collapse_e_const(a->Constant_0);
                            lemma_collapse_e_const(b->Constant_0);
                            assert(ca is Constant);
                            assert(cb is Constant);
                        },
                    }
                }
            },
        },
    }
}

/// Merge soundness: a summation of two constant terms whose collapsed
/// incidental-variable lists agree collapses to exactly one term whose
/// value is the sum of the two values.
pub proof fn lemma_merge_soundness(a: ConstM, b: ConstM)
    requires
        collapse_const(a) is Ok,
        collapse_const(b) is Ok,
        vars_equal(collapse_const(a)->Ok_0.vars, collapse_const(b)->Ok_0.vars),
        fits_i64(a.value + b.value),
    ensures
        collapse_sum(seq![ExprM::Constant(a), ExprM::Constant(b)]) == Ok::<
            Seq<ExprM>,
            ExprError,
        >(
            seq![
                ExprM::Constant(
                    ConstM { value: a.value + b.value, vars: collapse_const(a)->Ok_0.vars },
                ),
            ],
        ),
{
    let ca = collapse_const(a)->Ok_0;
    let cb = collapse_const(b)->Ok_0;
    assert(ca.value == a.value);
    assert(cb.value == b.value);
    let ts = seq![ExprM::Constant(a), ExprM::Constant(b)];
    lemma_collapse_e_const(a);
    lemma_collapse_e_const(b);
    lemma_collapse_each_step(ts, 0);
    lemma_collapse_each_step(ts, 1);
    lemma_collapse_each_step(ts, 2);
    let cs = seq![ExprM::Constant(ca), ExprM::Constant(cb)];
    assert(seq![ExprM::Constant(ca)] + (seq![ExprM::Constant(cb)] + Seq::<ExprM>::empty())
        =~= cs);
    assert(collapse_each(ts, 0) == Ok::<Seq<ExprM>, ExprError>(cs));
    // the first scanned pair is (0, 1), and it merges
    lemma_find_pair_step(cs, 0, 0);
    lemma_find_pair_step(cs, 0, 1);
    lemma_mergeable_unfold(cs[0], cs[1]);
    assert(mergeable(cs[0], cs[1]));
    assert(find_pair_from(cs, 0, 0) == Some((0int, 1int)));
    let m = ExprM::Constant(ConstM { value: a.value + b.value, vars: ca.vars });
    assert(add_pair(cs[0], cs[1]) == Ok::<ExprM, ExprError>(m));
    lemma_merge_loop_step(cs);
    // removing the pair leaves the merged term alone
    let s1 = swap_remove_seq(cs, 0);
    assert(s1 =~= seq![ExprM::Constant(cb)]);
    assert(remove_pair(cs, 0, 1) =~= Seq::<ExprM>::empty());
    let one_term = seq![m] + remove_pair(cs, 0, 1);
    assert(one_term =~= seq![m]);
    // the single remaining term has no partner
    lemma_find_pair_step(seq![m], 0, 0);
    lemma_find_pair_step(seq![m], 0, 1);
    lemma_find_pair_step(seq![m], 1, 0);
    assert(find_pair_from(seq![m], 0, 0) is None);
    lemma_merge_loop_step(seq![m]);
    assert(merge_loop(one_term) == Ok::<Seq<ExprM>, ExprError>(seq![m]));
    crate::rewrite::lemma_collapse_sum_unfold(ts);
}

/// Strictly sorted by name in lexicographic order (so names are unique).
pub open spec fn vars_sorted(vs: Seq<VarM>) -> bool {
    forall|i: int| 0 <= i < vs.len() - 1 ==> lex_lt(#[trigger] vs[i].name, vs[i + 1].name)
}

/// The canonical reduced form that collapse produces: constants hold sorted
/// variable lists; variable terms hold composite coefficients followed by
/// one constant; summations hold no mergeable pair; multiplications are
/// folded and zero-absorbed.
pub open spec fn canonical_e(e: ExprM) -> bool
    decreases e, 1int,
{
    match e {
        ExprM::Constant(c) => vars_sorted(c.vars),
        ExprM::Variable(t) => t.coeffs.len() >= 1 && (t.coeffs.last() is Constant)
            && vars_sorted(t.coeffs.last()->Constant_0.vars) && (forall|i: int|
            0 <= i < t.coeffs.len() - 1 ==> kind_of(#[trigger] t.coeffs[i])
                == EntityKind::Function) && canonical_seq(t.coeffs),
        ExprM::Summation(ts) => canonical_seq(ts) && find_pair_from(ts, 0, 0) is None,
        ExprM::Multiplication(a, b) => canonical_e(*a) && canonical_e(*b) && ((*a
            == ExprM::Constant(zero_m()) && *b == ExprM::Constant(zero_m())) || (render(*a)
            != seq!['0'] && render(*b) != seq!['0'] && (kind_of(*a) == kind_of(*b) ==> ((*a
            is Constant) && *b == ExprM::Constant(one_m()))))),
    }
}

pub open spec fn canonical_seq(s: Seq<ExprM>) -> bool
    decreases s, 0int,
{
    if s.len() == 0 {
        true
    } else {
        canonical_e(s[0]) && canonical_seq(s.drop_first())
    }
}

pub proof fn lemma_canonical_seq(s: Seq<ExprM>)
    ensures
        canonical_seq(s) <==> (forall|k: int| 0 <= k < s.len() ==> canonical_e(#[trigger] s[k])),
    decreases s.len(),
{
    if s.len() > 0 {
        lemma_canonical_seq(s.drop_first());
        assert(forall|k: int| 1 <= k < s.len() ==> s[k] == #[trigger] s.drop_first()[k - 1]);
        if canonical_e(s[0]) && (forall|k: int|
            0 <= k < s.drop_first().len() ==> canonical_e(#[trigger] s.drop_first()[k])) {
            assert forall|k: int| 0 <= k < s.len() implies canonical_e(#[trigger] s[k]) by {
                if k > 0 {
                    assert(canonical_e(s.drop_first()[k - 1]));
                }
            }
        }
    }
}

/// In a strictly sorted list every earlier name precedes every later one.
pub proof fn lemma_vars_sorted_pair(vs: Seq<VarM>, k: int, m: int)
    requires
        vars_sorted(vs),
        0 <= k < m < vs.len(),
    ensures
        lex_lt(vs[k].name, vs[m].name),
    decreases m - k,
{
    if m == k + 1 {
    } else {
        lemma_vars_sorted_pair(vs, k, m - 1);
        lemma_lex_lt_trans(vs[k].name, vs[m - 1].name, vs[m].name);
    }
}

/// Inserting a variable whose name follows every accumulator entry appends
/// it at the end.
proof fn lemma_merge_var_all_less(acc: Seq<VarM>, v: VarM)
    requires
        forall|k: int| 0 <= k < acc.len() ==> lex_lt(#[trigger] acc[k].name, v.name),
    ensures
        merge_var(acc, v) == Ok::<Seq<VarM>, ExprError>(acc.push(v)),
    decreases acc.len(),
{
    if acc.len() == 0 {
        assert(acc.push(v) =~= seq![v]);
    } else {
        crate::text::lemma_lex_lt_irrefl(acc[0].name);
        assert(!lex_lt(v.name, acc[0].name)) by {
            if lex_lt(v.name, acc[0].name) {
                lemma_lex_lt_trans(acc[0].name, v.name, acc[0].name);
            }
        }
        assert(v.name != acc[0].name) by {
            if v.name == acc[0].name {
                assert(lex_lt(acc[0].name, acc[0].name));
            }
        }
        assert(forall|k: int|
            0 <= k < acc.drop_first().len() ==> #[trigger] acc.drop_first()[k] == acc[k + 1]);
        lemma_merge_var_all_less(acc.drop_first(), v);
        assert(seq![acc[0]] + acc.drop_first().push(v) =~= acc.push(v));
    }
}

/// Folding a sorted list into a sorted prefix leaves the whole list.
proof fn lemma_insert_all_prefix(vs: Seq<VarM>, i: int)
    requires
        vars_sorted(vs),
        0 <= i <= vs.len(),
    ensures
        insert_all(vs.take(i), vs.skip(i)) == Ok::<Seq<VarM>, ExprError>(vs),
    decreases vs.len() - i,
{
    if i == vs.len() {
        assert(vs.skip(i).len() == 0);
        assert(vs.take(i) =~= vs);
    } else {
        assert forall|k: int| 0 <= k < vs.take(i).len() implies lex_lt(
            #[trigger] vs.take(i)[k].name,
            vs[i].name,
        ) by {
            lemma_vars_sorted_pair(vs, k, i);
        }
        lemma_merge_var_all_less(vs.take(i), vs[i]);
        assert(vs.take(i).push(vs[i]) =~= vs.take(i + 1));
        lemma_insert_all_prefix(vs, i + 1);
        assert(vs.skip(i)[0] == vs[i]);
        assert(vs.skip(i).drop_first() =~= vs.skip(i + 1));
    }
}

/// Collapsing an already sorted variable list leaves it unchanged.
pub proof fn lemma_collapse_vars_sorted_id(vs: Seq<VarM>)
    requires
        vars_sorted(vs),
    ensures
        collapse_vars(vs) == Ok::<Seq<VarM>, ExprError>(vs),
{
    lemma_insert_all_prefix(vs, 0);
    assert(vs.take(0) =~= Seq::<VarM>::empty());
    assert(vs.skip(0) =~= vs);
}

/// Collapsing a canonical constant leaves it unchanged.
proof fn lemma_fixed_const(c: ConstM)
    requires
        vars_sorted(c.vars),
    ensures
        collapse_const(c) == Ok::<ConstM, ExprError>(c),
{
    lemma_collapse_vars_sorted_id(c.vars);
    assert(collapse_const(c)->Ok_0 =~= c);
}

/// Sorted insertion keeps the accumulator sorted, and the head is either
/// the old head or the inserted variable.
proof fn lemma_merge_var_sorted(acc: Seq<VarM>, v: VarM)
    requires
        vars_sorted(acc),
    ensures
        merge_var(acc, v) matches Ok(r) ==> vars_sorted(r) && r.len() >= 1 && (r[0].name
            == v.name || (acc.len() > 0 && r[0].name == acc[0].name)),
    decreases acc.len(),
{
    if acc.len() == 0 {
    } else if lex_lt(v.name, acc[0].name) {
        let r = seq![v] + acc;
        assert forall|i: int| 0 <= i < r.len() - 1 implies lex_lt(#[trigger] r[i].name, r[i + 1].name) by {
            if i > 0 {
                assert(r[i] == acc[i - 1]);
                assert(r[i + 1] == acc[i]);
            }
        }
    } else if v.name == acc[0].name {
        if fits_i64(acc[0].power + v.power) {
            let r = seq![VarM { name: acc[0].name, power: acc[0].power + v.power }]
                + acc.drop_first();
            assert forall|i: int| 0 <= i < r.len() - 1 implies lex_lt(#[trigger] r[i].name, r[i + 1].name)
                by {
                if i == 0 {
                    assert(r[1] == acc[1]);
                } else {
                    assert(r[i] == acc[i]);
                    assert(r[i + 1] == acc[i + 1]);
                }
            }
        }
    } else {
        assert(vars_sorted(acc.drop_first())) by {
            assert(forall|k: int|
                0 <= k < acc.drop_first().len() ==> #[trigger] acc.drop_first()[k] == acc[k
                    + 1]);
        }
        lemma_merge_var_sorted(acc.drop_first(), v);
        lemma_lex_lt_total(v.name, acc[0].name);
        assert(lex_lt(acc[0].name, v.name));
        match merge_var(acc.drop_first(), v) {
            Ok(r2) => {
                let r = seq![acc[0]] + r2;
                if acc.len() == 1 {
                    assert(r2[0].name == v.name);
                }
                assert forall|i: int| 0 <= i < r.len() - 1 implies lex_lt(
                    #[trigger] r[i].name,
                    r[i + 1].name,
                ) by {
                    if i == 0 {
                        assert(r[1] == r2[0]);
                        if r2[0].name == v.name {
                        } else {
                            assert(r2[0].name == acc.drop_first()[0].name);
                        }
                    } else {
                        assert(r[i] == r2[i - 1]);
                        assert(r[i + 1] == r2[i]);
                    }
                }
            },
            Err(_) => {},
        }
    }
}

/// Folding any variable list into a sorted accumulator keeps it sorted.
proof fn lemma_insert_all_sorted(acc: Seq<VarM>, vars: Seq<VarM>)
    requires
        vars_sorted(acc),
    ensures
        insert_all(acc, vars) matches Ok(r) ==> vars_sorted(r),
    decreases vars.len(),
{
    if vars.len() > 0 {
        lemma_merge_var_sorted(acc, vars[0]);
        match merge_var(acc, vars[0]) {
            Ok(a2) => {
                lemma_insert_all_sorted(a2, vars.drop_first());
            },
            Err(_) => {},
        }
    }
}

/// A collapsed constant has a sorted variable list.
proof fn lemma_collapse_const_sorted(c: ConstM)
    ensures
        collapse_const(c) matches Ok(cc) ==> vars_sorted(cc.vars) && cc.value == c.value,
{
    lemma_insert_all_sorted(Seq::<VarM>::empty(), c.vars);
}

/// A pointwise product keeps the first operand's names and length.
proof fn lemma_vars_mul_names(a: Seq<VarM>, b: Seq<VarM>)
    ensures
        vars_mul(a, b) matches Ok(r) ==> r.len() == a.len() && (forall|i: int|
            0 <= i < a.len() ==> #[trigger] r[i].name == a[i].name),
    decreases a.len(),
{
    if a.len() == b.len() && a.len() > 0 && a[0].name == b[0].name && fits_i64(
        a[0].power + b[0].power,
    ) {
        lemma_vars_mul_names(a.drop_first(), b.drop_first());
        match vars_mul(a.drop_first(), b.drop_first()) {
            Ok(rest) => {
                let r = seq![VarM { name: a[0].name, power: a[0].power + b[0].power }] + rest;
                assert forall|i: int| 0 <= i < a.len() implies #[trigger] r[i].name
                    == a[i].name by {
                    if i > 0 {
                        assert(r[i] == rest[i - 1]);
                        assert(rest[i - 1].name == a.drop_first()[i - 1].name);
                    }
                }
            },
            Err(_) => {},
        }
    }
}

/// A constant product keeps the first operand's sortedness.
proof fn lemma_const_mul_sorted(a: ConstM, b: ConstM)
    requires
        vars_sorted(a.vars),
    ensures
        const_mul(a, b) matches Ok(p) ==> vars_sorted(p.vars),
{
    lemma_vars_mul_names(a.vars, b.vars);
    match vars_mul(a.vars, b.vars) {
        Ok(r) => {
            assert forall|i: int| 0 <= i < r.len() - 1 implies lex_lt(#[trigger] r[i].name, r[i + 1].name)
                by {
                assert(r[i].name == a.vars[i].name);
                assert(r[i + 1].name == a.vars[i + 1].name);
            }
        },
        Err(_) => {},
    }
}

/// No multiplication node anywhere in the tree — coefficient lists
/// included — has two composite operands. This is the domain on which
/// collapse can reach a fixed point: a composite-composite product is
/// re-wrapped in a fresh product by every collapse, wherever it sits, so
/// idempotence fails on trees that hold one. (Differentiation uses the
/// weaker `fn_product_free`, which ignores coefficient lists: it copies
/// coefficients instead of recursing into them.)
pub open spec fn product_free_deep(e: ExprM) -> bool
    decreases e, 1int,
{
    match e {
        ExprM::Constant(_) => true,
        ExprM::Variable(t) => product_free_deep_seq(t.coeffs),
        ExprM::Summation(ts) => product_free_deep_seq(ts),
        ExprM::Multiplication(a, b) => !(kind_of(*a) == EntityKind::Function && kind_of(*b)
            == EntityKind::Function) && product_free_deep(*a) && product_free_deep(*b),
    }
}

pub open spec fn product_free_deep_seq(s: Seq<ExprM>) -> bool
    decreases s, 0int,
{
    if s.len() == 0 {
        true
    } else {
        product_free_deep(s[0]) && product_free_deep_seq(s.drop_first())
    }
}

/// Every element of the list is deeply product-free.
pub open spec fn all_deep(s: Seq<ExprM>) -> bool {
    forall|k: int| 0 <= k < s.len() ==> product_free_deep(#[trigger] s[k])
}

pub proof fn lemma_deep_seq(s: Seq<ExprM>)
    ensures
        product_free_deep_seq(s) <==> all_deep(s),
    decreases s.len(),
{
    if s.len() > 0 {
        lemma_deep_seq(s.drop_first());
        assert(forall|k: int| 1 <= k < s.len() ==> s[k] == #[trigger] s.drop_first()[k - 1]);
        if product_free_deep(s[0]) && all_deep(s.drop_first()) {
            assert forall|k: int| 0 <= k < s.len() implies product_free_deep(
                #[trigger] s[k],
            ) by {
                if k > 0 {
                    assert(product_free_deep(s.drop_first()[k - 1]));
                }
            }
        }
    }
}

/// Every element of the list is canonical.
pub open spec fn all_canonical(s: Seq<ExprM>) -> bool {
    forall|k: int| 0 <= k < s.len() ==> canonical_e(#[trigger] s[k])
}

/// The kind-specific sum of two canonical like terms is canonical.
proof fn lemma_add_pair_canonical(x: ExprM, y: ExprM)
    requires
        canonical_e(x),
    ensures
        add_pair(x, y) matches Ok(m) ==> canonical_e(m),
{
    lemma_mergeable_unfold(x, y);
    match (x, y) {
        (ExprM::Constant(a), ExprM::Constant(b)) => {},
        (ExprM::Variable(a), ExprM::Variable(b)) => {
            match var_add(a, b) {
                Ok(c) => {
                    lemma_canonical_seq(a.coeffs);
                    lemma_canonical_seq(c.coeffs);
                    assert forall|k: int| 0 <= k < c.coeffs.len() implies canonical_e(
                        #[trigger] c.coeffs[k],
                    ) by {
                        if k < c.coeffs.len() - 1 {
                            assert(c.coeffs[k] == a.coeffs[k]);
                        } else {
                            assert(c.coeffs[k] is Constant);
                        }
                    }
                    assert(canonical_e(ExprM::Variable(c)));
                },
                Err(_) => {},
            }
        },
        _ => {},
    }
}

/// The merge fixed point keeps every element canonical and ends with no
/// mergeable pair.
proof fn lemma_merge_loop_canonical(ts: Seq<ExprM>)
    requires
        all_canonical(ts),
    ensures
        merge_loop(ts) matches Ok(us) ==> all_canonical(us) && find_pair_from(us, 0, 0)
            is None,
    decreases ts.len(),
{
    lemma_merge_loop_step(ts);
    match find_pair_from(ts, 0, 0) {
        None => {},
        Some(p) => {
            let (i, j) = p;
            match add_pair(ts[i], ts[j]) {
                Err(_) => {},
                Ok(m) => {
                    lemma_add_pair_canonical(ts[i], ts[j]);
                    crate::rewrite::lemma_remove_pair(ts, i, j);
                    let next = seq![m] + remove_pair(ts, i, j);
                    assert forall|k: int| 0 <= k < next.len() implies canonical_e(
                        #[trigger] next[k],
                    ) by {
                        if k > 0 {
                            assert(next[k] == remove_pair(ts, i, j)[k - 1]);
                        }
                    }
                    lemma_merge_loop_canonical(next);
                },
            }
        },
    }
}

/// Distributing coefficients keeps the collected composite coefficients
/// canonical and the folded constant's variable list sorted.
proof fn lemma_var_mul_scan_canonical(
    coeffs: Seq<ExprM>,
    i: int,
    acc: ConstM,
    funcs: Seq<ExprM>,
    pow: int,
)
    requires
        0 <= i,
        all_canonical(coeffs),
        all_canonical(funcs),
        forall|k: int| 0 <= k < funcs.len() ==> kind_of(#[trigger] funcs[k])
            == EntityKind::Function,
        vars_sorted(acc.vars),
    ensures
        crate::model::var_mul_scan(coeffs, i, acc, funcs, pow) matches Ok(r) ==> all_canonical(
            r.1,
        ) && (forall|k: int| 0 <= k < r.1.len() ==> kind_of(#[trigger] r.1[k])
            == EntityKind::Function) && vars_sorted(r.0.vars),
    decreases coeffs.len() - i,
{
    crate::model::lemma_var_mul_scan_step(coeffs, i, acc, funcs, pow);
    if i < coeffs.len() {
        match coeffs[i] {
            ExprM::Constant(c) => {
                lemma_const_mul_sorted(acc, c);
                match const_mul(acc, c) {
                    Ok(acc2) => {
                        lemma_var_mul_scan_canonical(coeffs, i + 1, acc2, funcs, pow);
                    },
                    Err(_) => {},
                }
            },
            ExprM::Variable(t) => {
                if fits_i64(pow + t.var.power) {
                    lemma_var_mul_scan_canonical(coeffs, i + 1, acc, funcs, pow + t.var.power);
                }
            },
            f => {
                let f2 = funcs.push(f);
                assert(all_canonical(f2) && forall|k: int|
                    0 <= k < f2.len() ==> kind_of(#[trigger] f2[k]) == EntityKind::Function)
                    by {
                    assert(forall|k: int|
                        0 <= k < funcs.len() ==> f2[k] == #[trigger] funcs[k]);
                    assert(f2[funcs.len() as int] == f);
                    assert(canonical_e(coeffs[i]));
                }
                lemma_var_mul_scan_canonical(coeffs, i + 1, acc, f2, pow);
            },
        }
    }
}

/// A product of a variable term with a canonical variable term is
/// canonical.
proof fn lemma_var_mul_canonical(x: VarTermM, y: VarTermM)
    requires
        canonical_e(ExprM::Variable(y)),
    ensures
        var_mul(x, y) matches Ok(t) ==> canonical_e(ExprM::Variable(t)),
{
    crate::model::lemma_var_mul_unfold(x, y);
    lemma_canonical_seq(y.coeffs);
    lemma_var_mul_scan_canonical(y.coeffs, 0, one_m(), Seq::empty(), 0);
    match crate::model::var_mul_scan(y.coeffs, 0, one_m(), Seq::empty(), 0) {
        Ok(r) => {
            if var_mul(x, y) is Ok {
                let t = var_mul(x, y)->Ok_0;
                lemma_canonical_seq(t.coeffs);
                assert forall|k: int| 0 <= k < t.coeffs.len() implies canonical_e(
                    #[trigger] t.coeffs[k],
                ) by {
                    if k < r.1.len() {
                        assert(t.coeffs[k] == r.1[k]);
                    } else {
                        assert(t.coeffs[k] == ExprM::Constant(r.0));
                    }
                }
                assert forall|k: int| 0 <= k < t.coeffs.len() - 1 implies kind_of(
                    #[trigger] t.coeffs[k],
                ) == EntityKind::Function by {
                    assert(t.coeffs[k] == r.1[k]);
                }
                assert(t.coeffs.last() == ExprM::Constant(r.0));
            }
        },
        Err(_) => {},
    }
}

/// Folding a variable term's coefficients during collapse yields canonical
/// composite coefficients only.
proof fn lemma_collapse_var_scan_canonical(
    name: Seq<char>,
    coeffs: Seq<ExprM>,
    i: int,
    pow: int,
    acc: Option<ConstM>,
    funcs: Seq<ExprM>,
)
    requires
        0 <= i,
        all_deep(coeffs),
        all_canonical(funcs),
        forall|k: int| 0 <= k < funcs.len() ==> kind_of(#[trigger] funcs[k])
            == EntityKind::Function,
    ensures
        collapse_var_scan(name, coeffs, i, pow, acc, funcs) matches Ok(r) ==> all_canonical(
            r.2,
        ) && (forall|k: int| 0 <= k < r.2.len() ==> kind_of(#[trigger] r.2[k])
            == EntityKind::Function),
    decreases coeffs, coeffs.len() - i,
{
    lemma_collapse_var_scan_step(name, coeffs, i, pow, acc, funcs);
    if i < coeffs.len() {
        lemma_collapse_canonical(coeffs[i]);
        lemma_collapse_kind(coeffs[i]);
        match collapse_e(coeffs[i]) {
            Err(_) => {},
            Ok(c) => match c {
                ExprM::Variable(v) => {
                    if v.var.name == name && fits_i64(pow + v.var.power) {
                        lemma_collapse_var_scan_canonical(
                            name,
                            coeffs,
                            i + 1,
                            pow + v.var.power,
                            acc,
                            funcs,
                        );
                    }
                },
                ExprM::Constant(k) => {
                    match acc {
                        None => {
                            lemma_collapse_var_scan_canonical(
                                name,
                                coeffs,
                                i + 1,
                                pow,
                                Some(k),
                                funcs,
                            );
                        },
                        Some(p) => {
                            match const_mul(p, k) {
                                Ok(pk) => {
                                    lemma_collapse_var_scan_canonical(
                                        name,
                                        coeffs,
                                        i + 1,
                                        pow,
                                        Some(pk),
                                        funcs,
                                    );
                                },
                                Err(_) => {},
                            }
                        },
                    }
                },
                f => {
                    let f2 = funcs.push(f);
                    assert(all_canonical(f2) && forall|k: int|
                        0 <= k < f2.len() ==> kind_of(#[trigger] f2[k])
                            == EntityKind::Function) by {
                        assert(forall|k: int|
                            0 <= k < funcs.len() ==> f2[k] == #[trigger] funcs[k]);
                        assert(f2[funcs.len() as int] == f);
                    }
                    lemma_collapse_var_scan_canonical(name, coeffs, i + 1, pow, acc, f2);
                },
            },
        }
    }
}

/// Collapsing every term of a list yields canonical terms.
proof fn lemma_collapse_each_canonical(ts: Seq<ExprM>, i: int)
    requires
        0 <= i,
        all_deep(ts),
    ensures
        collapse_each(ts, i) matches Ok(cs) ==> all_canonical(cs),
    decreases ts, ts.len() - i,
{
    lemma_collapse_each_step(ts, i);
    if i < ts.len() {
        lemma_collapse_canonical(ts[i]);
        match collapse_e(ts[i]) {
            Err(_) => {},
            Ok(c) => {
                lemma_collapse_each_canonical(ts, i + 1);
                match collapse_each(ts, i + 1) {
                    Ok(rest) => {
                        assert forall|k: int| 0 <= k < (seq![c] + rest).len() implies
                            canonical_e(#[trigger] (seq![c] + rest)[k]) by {
                            if k > 0 {
                                assert((seq![c] + rest)[k] == rest[k - 1]);
                            }
                        }
                    },
                    Err(_) => {},
                }
            },
        }
    }
}

/// Collapse produces a canonical tree, on trees that hold no
/// composite-composite product anywhere.
#[verifier::rlimit(100)]
pub proof fn lemma_collapse_canonical(e: ExprM)
    requires
        product_free_deep(e),
    ensures
        collapse_e(e) matches Ok(u) ==> canonical_e(u),
    decreases e, 3int,
{
    match e {
        ExprM::Constant(c) => {
            lemma_collapse_e_const(c);
            lemma_collapse_const_sorted(c);
        },
        ExprM::Variable(t) => {
            lemma_collapse_e_var(t);
            lemma_collapse_var_unfold(t);
            lemma_deep_seq(t.coeffs);
            lemma_collapse_var_scan_canonical(
                t.var.name,
                t.coeffs,
                0,
                t.var.power,
                None,
                Seq::empty(),
            );
            match collapse_var_scan(t.var.name, t.coeffs, 0, t.var.power, None, Seq::empty()) {
                Err(_) => {},
                Ok(r) => {
                    let folded = match r.1 {
                        Some(c) => c,
                        None => one_m(),
                    };
                    lemma_collapse_const_sorted(folded);
                    match collapse_const(folded) {
                        Err(_) => {},
                        Ok(cc) => {
                            let ct = VarTermM {
                                var: VarM { name: t.var.name, power: r.0 },
                                coeffs: r.2.push(ExprM::Constant(cc)),
                            };
                            assert(collapse_var(t) == Ok::<VarTermM, ExprError>(ct));
                            lemma_canonical_seq(ct.coeffs);
                            assert forall|k: int| 0 <= k < ct.coeffs.len() implies canonical_e(
                                #[trigger] ct.coeffs[k],
                            ) by {
                                if k < r.2.len() {
                                    assert(ct.coeffs[k] == r.2[k]);
                                } else {
                                    assert(ct.coeffs[k] == ExprM::Constant(cc));
                                }
                            }
                            assert forall|k: int| 0 <= k < ct.coeffs.len() - 1 implies kind_of(
                                #[trigger] ct.coeffs[k],
                            ) == EntityKind::Function by {
                                assert(ct.coeffs[k] == r.2[k]);
                            }
                            assert(ct.coeffs.last() == ExprM::Constant(cc));
                            assert(canonical_e(ExprM::Variable(ct)));
                        },
                    }
                },
            }
        },
        ExprM::Summation(ts) => {
            lemma_collapse_e_sum(ts);
            crate::rewrite::lemma_collapse_sum_unfold(ts);
            lemma_deep_seq(ts);
            lemma_collapse_each_canonical(ts, 0);
            match collapse_each(ts, 0) {
                Err(_) => {},
                Ok(cs) => {
                    lemma_merge_loop_canonical(cs);
                    match crate::rewrite::merge_loop(cs) {
                        Ok(us) => {
                            lemma_canonical_seq(us);
                        },
                        Err(_) => {},
                    }
                },
            }
        },
        ExprM::Multiplication(a, b) => {
            lemma_collapse_e_mul(*a, *b);
            lemma_collapse_canonical(*a);
            lemma_collapse_canonical(*b);
            lemma_collapse_kind(*a);
            lemma_collapse_kind(*b);
            assert(*e->Multiplication_0 == *a);
            assert(*e->Multiplication_1 == *b);
            match collapse_e(*a) {
                Err(_) => {},
                Ok(ca) => match collapse_e(*b) {
                    Err(_) => {},
                    Ok(cb) => {
                        lemma_render_unfold(ExprM::Constant(zero_m()));
                        if kind_of(ca) == kind_of(cb) {
                            match (ca, cb) {
                                (ExprM::Constant(x), ExprM::Constant(y)) => {
                                    lemma_const_mul_sorted(x, y);
                                    match const_mul(x, y) {
                                        Ok(pr) => {
                                            lemma_mul_finish_canonical(
                                                e,
                                                ExprM::Constant(pr),
                                                ExprM::Constant(one_m()),
                                            );
                                        },
                                        Err(_) => {},
                                    }
                                },
                                (ExprM::Variable(x), ExprM::Variable(y)) => {
                                    lemma_var_mul_canonical(x, y);
                                    match var_mul(x, y) {
                                        Ok(pr) => {
                                            lemma_mul_finish_canonical(
                                                e,
                                                ExprM::Variable(pr),
                                                ExprM::Constant(one_m()),
                                            );
                                        },
                                        Err(_) => {},
                                    }
                                },
                                _ => {
                                    assert(kind_of(ca) == EntityKind::Function);
                                    assert(false);
                                },
                            }
                        } else {
                            lemma_mul_finish_canonical(e, ca, cb);
                        }
                    },
                },
            }
        },
    }
}

/// The zero-absorption step produces a canonical multiplication when its
/// pair is either folded (constant or variable first, one second) or of
/// differing kinds.
proof fn lemma_mul_finish_canonical(e: ExprM, f: ExprM, s: ExprM)
    requires
        canonical_e(f),
        canonical_e(s),
        kind_of(f) == kind_of(s) ==> (f is Constant && s == ExprM::Constant(one_m())),
        collapse_e(e) == (if render(f) == seq!['0'] || render(s) == seq!['0'] {
            Ok::<ExprM, ExprError>(
                ExprM::Multiplication(
                    Box::new(ExprM::Constant(zero_m())),
                    Box::new(ExprM::Constant(zero_m())),
                ),
            )
        } else {
            Ok::<ExprM, ExprError>(ExprM::Multiplication(Box::new(f), Box::new(s)))
        }),
    ensures
        collapse_e(e) matches Ok(u) ==> canonical_e(u),
{
    if render(f) == seq!['0'] || render(s) == seq!['0'] {
        let z = ExprM::Constant(zero_m());
        let u = ExprM::Multiplication(Box::new(z), Box::new(z));
        assert(*u->Multiplication_0 == z);
        assert(*u->Multiplication_1 == z);
        assert(canonical_e(z)) by {
            assert(vars_sorted(zero_m().vars));
        }
        assert(canonical_e(u) == (canonical_e(*u->Multiplication_0) && canonical_e(
            *u->Multiplication_1,
        ) && ((*u->Multiplication_0 == ExprM::Constant(zero_m()) && *u->Multiplication_1
            == ExprM::Constant(zero_m())) || (render(*u->Multiplication_0) != seq!['0']
            && render(*u->Multiplication_1) != seq!['0'] && (kind_of(*u->Multiplication_0)
            == kind_of(*u->Multiplication_1) ==> ((*u->Multiplication_0 is Constant)
            && *u->Multiplication_1 == ExprM::Constant(one_m())))))));
        assert(canonical_e(u));
    } else {
        let u = ExprM::Multiplication(Box::new(f), Box::new(s));
        assert(*u->Multiplication_0 == f);
        assert(*u->Multiplication_1 == s);
        assert(canonical_e(u) == (canonical_e(*u->Multiplication_0) && canonical_e(
            *u->Multiplication_1,
        ) && ((*u->Multiplication_0 == ExprM::Constant(zero_m()) && *u->Multiplication_1
            == ExprM::Constant(zero_m())) || (render(*u->Multiplication_0) != seq!['0']
            && render(*u->Multiplication_1) != seq!['0'] && (kind_of(*u->Multiplication_0)
            == kind_of(*u->Multiplication_1) ==> ((*u->Multiplication_0 is Constant)
            && *u->Multiplication_1 == ExprM::Constant(one_m())))))));
        assert(canonical_e(u));
    }
}

/// Folding the coefficients of a canonical variable term collects exactly
/// its composite prefix and its trailing constant.
proof fn lemma_fixed_scan(name: Seq<char>, coeffs: Seq<ExprM>, i: int, pow: int, funcs: Seq<
    ExprM,
>)
    requires
        coeffs.len() >= 1,
        coeffs.last() is Constant,
        vars_sorted(coeffs.last()->Constant_0.vars),
        forall|k: int| 0 <= k < coeffs.len() - 1 ==> kind_of(#[trigger] coeffs[k])
            == EntityKind::Function,
        canonical_seq(coeffs),
        0 <= i <= coeffs.len() - 1,
    ensures
        collapse_var_scan(name, coeffs, i, pow, None, funcs) matches Ok(r) ==> r.0 == pow
            && r.1 == Some(coeffs.last()->Constant_0) && r.2 == funcs + coeffs.subrange(
            i,
            coeffs.len() - 1,
        ),
    decreases coeffs, coeffs.len() - i,
{
    lemma_collapse_var_scan_step(name, coeffs, i, pow, None, funcs);
    lemma_canonical_seq(coeffs);
    lemma_fixed(coeffs[i]);
    if i == coeffs.len() - 1 {
        let c = coeffs.last()->Constant_0;
        lemma_collapse_e_const(c);
        lemma_fixed_const(c);
        assert(collapse_e(coeffs[i]) == Ok::<ExprM, ExprError>(coeffs[i]));
        lemma_collapse_var_scan_step(name, coeffs, i + 1, pow, Some(c), funcs);
        assert(funcs + coeffs.subrange(i, coeffs.len() - 1) =~= funcs);
    } else {
        match collapse_e(coeffs[i]) {
            Err(_) => {},
            Ok(c) => {
                assert(c == coeffs[i]);
                assert(kind_of(c) == EntityKind::Function);
                assert(!(c is Variable) && !(c is Constant));
                lemma_fixed_scan(name, coeffs, i + 1, pow, funcs.push(coeffs[i]));
                match collapse_var_scan(name, coeffs, i + 1, pow, None, funcs.push(coeffs[i])) {
                    Ok(r) => {
                        assert(funcs.push(coeffs[i]) + coeffs.subrange(i + 1, coeffs.len() - 1)
                            =~= funcs + coeffs.subrange(i, coeffs.len() - 1));
                    },
                    Err(_) => {},
                }
            },
        }
    }
}

/// Collapsing a list of canonical terms leaves every term unchanged.
proof fn lemma_fixed_each(ts: Seq<ExprM>, i: int)
    requires
        0 <= i <= ts.len(),
        all_canonical(ts),
    ensures
        collapse_each(ts, i) matches Ok(cs) ==> cs == ts.skip(i),
    decreases ts, ts.len() - i,
{
    lemma_collapse_each_step(ts, i);
    if i == ts.len() {
        assert(ts.skip(i) =~= Seq::<ExprM>::empty());
    } else {
        lemma_fixed(ts[i]);
        match collapse_e(ts[i]) {
            Err(_) => {},
            Ok(c) => {
                lemma_fixed_each(ts, i + 1);
                match collapse_each(ts, i + 1) {
                    Ok(rest) => {
                        assert(seq![ts[i]] + ts.skip(i + 1) =~= ts.skip(i));
                    },
                    Err(_) => {},
                }
            },
        }
    }
}

/// The constant zero times itself is the constant zero.
proof fn lemma_const_mul_zero_zero()
    ensures
        const_mul(zero_m(), zero_m()) == Ok::<ConstM, ExprError>(zero_m()),
{
    let z = zero_m();
    assert(z.vars.len() == 0);
    assert(vars_mul(z.vars, z.vars) == Ok::<Seq<VarM>, ExprError>(Seq::empty()));
    assert(z.value * z.value == 0);
    assert(fits_i64(z.value * z.value));
    assert(ConstM { value: z.value * z.value, vars: Seq::empty() } =~= z);
}

/// Multiplying a bare constant by one gives it back when its value stays
/// in range; a constant carrying incidental variables cannot be multiplied
/// by the bare one.
proof fn lemma_const_mul_one(x: ConstM)
    ensures
        x.vars.len() == 0 && fits_i64(x.value) ==> const_mul(x, one_m()) == Ok::<
            ConstM,
            ExprError,
        >(x),
        x.vars.len() == 0 && !fits_i64(x.value) ==> const_mul(x, one_m()) == Err::<
            ConstM,
            ExprError,
        >(ExprError::Overflow),
        x.vars.len() != 0 ==> const_mul(x, one_m()) == Err::<ConstM, ExprError>(
            ExprError::IncompatibleTerms,
        ),
{
    if x.vars.len() == 0 {
        assert(vars_mul(x.vars, one_m().vars) == Ok::<Seq<VarM>, ExprError>(Seq::empty()));
        assert(x.value * 1 == x.value);
        if fits_i64(x.value) {
            assert(ConstM { value: x.value * 1, vars: Seq::empty() } =~= x);
        }
    } else {
        assert(x.vars.len() != one_m().vars.len());
        assert(vars_mul(x.vars, one_m().vars) == Err::<Seq<VarM>, ExprError>(
            ExprError::IncompatibleTerms,
        ));
    }
}

/// A canonical tree is a fixed point of collapse: when collapsing it
/// succeeds, it returns the tree itself.
#[verifier::rlimit(100)]
pub proof fn lemma_fixed(e: ExprM)
    requires
        canonical_e(e),
    ensures
        collapse_e(e) matches Ok(v) ==> v == e,
    decreases e, 3int,
{
    match e {
        ExprM::Constant(c) => {
            lemma_collapse_e_const(c);
            lemma_fixed_const(c);
        },
        ExprM::Variable(t) => {
            lemma_collapse_e_var(t);
            lemma_collapse_var_unfold(t);
            lemma_fixed_scan(t.var.name, t.coeffs, 0, t.var.power, Seq::empty());
            match collapse_var_scan(t.var.name, t.coeffs, 0, t.var.power, None, Seq::empty()) {
                Err(_) => {},
                Ok(r) => {
                    let c = t.coeffs.last()->Constant_0;
                    lemma_fixed_const(c);
                    assert(r.2 =~= t.coeffs.subrange(0, t.coeffs.len() - 1));
                    let ct = VarTermM {
                        var: VarM { name: t.var.name, power: r.0 },
                        coeffs: r.2.push(ExprM::Constant(c)),
                    };
                    assert(collapse_var(t) == Ok::<VarTermM, ExprError>(ct));
                    assert(ct.coeffs =~= t.coeffs);
                    assert(ct =~= t);
                },
            }
        },
        ExprM::Summation(ts) => {
            lemma_collapse_e_sum(ts);
            crate::rewrite::lemma_collapse_sum_unfold(ts);
            lemma_canonical_seq(ts);
            lemma_fixed_each(ts, 0);
            match collapse_each(ts, 0) {
                Err(_) => {},
                Ok(cs) => {
                    assert(cs == ts.skip(0));
                    assert(ts.skip(0) =~= ts);
                    lemma_merge_loop_step(ts);
                },
            }
        },
        ExprM::Multiplication(a, b) => {
            lemma_collapse_e_mul(*a, *b);
            assert(*e->Multiplication_0 == *a);
            assert(*e->Multiplication_1 == *b);
            lemma_fixed(*a);
            lemma_fixed(*b);
            lemma_render_unfold(ExprM::Constant(zero_m()));
            lemma_one_renders_one();
            match collapse_e(*a) {
                Err(_) => {},
                Ok(ca) => match collapse_e(*b) {
                    Err(_) => {},
                    Ok(cb) => {
                        assert(ca == *a);
                        assert(cb == *b);
                        if *a == ExprM::Constant(zero_m()) && *b == ExprM::Constant(zero_m()) {
                            let z = zero_m();
                            lemma_const_mul_zero_zero();
                            assert(render(ExprM::Constant(z)) == seq!['0']);
                            match collapse_e(e) {
                                Ok(v) => {
                                    assert(v =~= e);
                                },
                                Err(_) => {},
                            }
                        } else {
                            if kind_of(*a) == kind_of(*b) {
                                let x = (*a)->Constant_0;
                                assert(*b == ExprM::Constant(one_m()));
                                lemma_const_mul_one(x);
                                if x.vars.len() == 0 && fits_i64(x.value) {
                                    match const_mul(x, one_m()) {
                                        Ok(p) => {
                                            assert(p =~= x);
                                            assert(render(*a) != seq!['0']);
                                            assert(render(ExprM::Constant(one_m()))
                                                != seq!['0']) by {
                                                assert(seq!['1'][0] != seq!['0'][0]);
                                            }
                                            match collapse_e(e) {
                                                Ok(v) => {
                                                    assert(v =~= e);
                                                },
                                                Err(_) => {},
                                            }
                                        },
                                        Err(_) => {},
                                    }
                                } else {
                                    assert(collapse_e(e) is Err);
                                }
                            } else {
                                assert(render(*a) != seq!['0'] && render(*b) != seq!['0']);
                                match collapse_e(e) {
                                    Ok(v) => {
                                        assert(v =~= e);
                                    },
                                    Err(_) => {},
                                }
                            }
                        }
                    },
                },
            }
        },
    }
}

/// Idempotence of simplification: on a tree that holds no
/// composite-composite product anywhere, collapsing an already collapsed
/// tree gives it back unchanged whenever that second collapse succeeds.
pub proof fn lemma_simplify_idempotent(e: ExprM)
    requires
        product_free_deep(e),
    ensures
        collapse_e(e) matches Ok(u) ==> (collapse_e(u) matches Ok(v) ==> v == u),
{
    lemma_collapse_canonical(e);
    match collapse_e(e) {
        Ok(u) => {
            lemma_fixed(u);
        },
        Err(_) => {},
    }
}

} // verus!
