//! The executable expression types and their verified operations.
//!
//! The four node kinds form one closed enum, `Entity`, so merge logic
//! dispatches by pattern matching instead of runtime downcasts. Every
//! operation's contract is stated over the mathematical model in
//! `crate::model` and `crate::rewrite`.

use vstd::prelude::*;
use crate::model::{
    EntityKind, ExprError, VarM, ConstM, VarTermM, ExprM, one_m, zero_m, kind_of, fits_i64,
    const_can_add, const_add, const_mul, var_can_add, var_add, var_mul, var_mul_scan,
    coeffs_compatible_from, render, vars_mul,
};
use crate::model::CoeffsRender;
use crate::rewrite::{
    merge_var, insert_all, collapse_vars, collapse_const, collapse_var_scan, collapse_var,
    mergeable, add_pair, find_pair_from, swap_remove_seq, remove_pair, merge_loop,
    collapse_each, collapse_sum, collapse_e, diff_e, diff_each, fn_product_free,
    fn_product_free_seq, mu, mu_seq, lemma_fpf_seq, lemma_mu_seq_index, lemma_collapse_mu,
    lemma_collapse_sum_mu, lemma_fpf_mul, all_fpf,
};
use crate::text::{lex_lt, str_lex_lt, i64_to_string, int_str};

verus! {

/// The name of one symbolic variable.
#[derive(Debug)]
pub struct VariableIdentifier {
    name: String,
}

/// A variable raised to an integer exponent.
#[derive(Debug)]
pub struct VariableEntity {
    variable: VariableIdentifier,
    power: i64,
}

/// A numeric coefficient together with incidental variables that are not
/// being differentiated.
#[derive(Debug)]
pub struct ConstantTerm {
    value: i64,
    non_wrt_variables: Vec<VariableEntity>,
}

/// The term being differentiated: one active variable with its exponent and
/// an ordered list of coefficient sub-expressions.
#[derive(Debug)]
pub struct VariableTerm {
    variable: VariableEntity,
    coeffs: Vec<Entity>,
}

/// An ordered list of sub-expressions combined additively.
#[derive(Debug)]
pub struct SummationFunction {
    terms: Vec<Entity>,
}

/// Exactly two sub-expressions combined multiplicatively.
#[derive(Debug)]
pub struct MultiplicationFunction {
    first: Box<Entity>,
    second: Box<Entity>,
}

/// An expression tree node of any kind.
#[derive(Debug)]
pub enum Entity {
    Constant(ConstantTerm),
    Variable(VariableTerm),
    Summation(SummationFunction),
    Multiplication(MultiplicationFunction),
}

/// The model of a list of variables.
pub open spec fn var_views(vs: Seq<VariableEntity>) -> Seq<VarM> {
    vs.map_values(|v: VariableEntity| v@)
}

/// The model of one tree node.
pub closed spec fn entity_model(e: Entity) -> ExprM
    decreases e,
{
    match e {
        Entity::Constant(c) => ExprM::Constant(c@),
        Entity::Variable(t) => ExprM::Variable(var_term_model(t)),
        Entity::Summation(s) => ExprM::Summation(entity_models(s.terms@)),
        Entity::Multiplication(m) => ExprM::Multiplication(
            Box::new(entity_model(*m.first)),
            Box::new(entity_model(*m.second)),
        ),
    }
}

pub closed spec fn var_term_model(t: VariableTerm) -> VarTermM
    decreases t,
{
    VarTermM { var: t.variable@, coeffs: entity_models(t.coeffs@) }
}

/// The models of a list of tree nodes, in order.
pub closed spec fn entity_models(s: Seq<Entity>) -> Seq<ExprM>
    decreases s,
{
    if s.len() == 0 {
        Seq::empty()
    } else {
        seq![entity_model(s[0])] + entity_models(s.drop_first())
    }
}

/// `entity_models` maps the list pointwise.
pub proof fn lemma_entity_models(s: Seq<Entity>)
    ensures
        entity_models(s).len() == s.len(),
        forall|i: int| 0 <= i < s.len() ==> entity_models(s)[i] == entity_model(s[i]),
    decreases s.len(),
{
    if s.len() > 0 {
        lemma_entity_models(s.drop_first());
        assert forall|i: int| 0 <= i < s.len() implies entity_models(s)[i] == entity_model(
            s[i],
        ) by {
            if i > 0 {
                assert(entity_models(s)[i] == entity_models(s.drop_first())[i - 1]);
                assert(s.drop_first()[i - 1] == s[i]);
            }
        }
    }
}

impl View for VariableIdentifier {
    type V = Seq<char>;

    closed spec fn view(&self) -> Seq<char> {
        self.name@
    }
}

impl View for VariableEntity {
    type V = VarM;

    closed spec fn view(&self) -> VarM {
        VarM { name: self.variable@, power: self.power as int }
    }
}

impl View for ConstantTerm {
    type V = ConstM;

    closed spec fn view(&self) -> ConstM {
        ConstM { value: self.value as int, vars: var_views(self.non_wrt_variables@) }
    }
}

impl View for VariableTerm {
    type V = VarTermM;

    closed spec fn view(&self) -> VarTermM {
        var_term_model(*self)
    }
}

impl View for SummationFunction {
    type V = Seq<ExprM>;

    closed spec fn view(&self) -> Seq<ExprM> {
        entity_models(self.terms@)
    }
}

impl View for MultiplicationFunction {
    type V = (ExprM, ExprM);

    closed spec fn view(&self) -> (ExprM, ExprM) {
        (entity_model(*self.first), entity_model(*self.second))
    }
}

impl View for Entity {
    type V = ExprM;

    closed spec fn view(&self) -> ExprM {
        entity_model(*self)
    }
}

impl VariableIdentifier {
    /// Wraps a variable name.
    pub fn new(name: String) -> (r: Self)
        ensures
            r@ == name@,
    {
        VariableIdentifier { name }
    }
}

impl VariableEntity {
    /// Pairs a variable with its exponent.
    pub fn new(variable: VariableIdentifier, power: i64) -> (r: Self)
        ensures
            r@ == (VarM { name: variable@, power: power as int }),
    {
        VariableEntity { variable, power }
    }

    /// Renders the variable as `name` when the exponent is one, and as
    /// `name^exponent` otherwise.
    pub fn to_string(&self) -> (r: String)
        ensures
            r@ == crate::model::var_str(self@),
    {
        if self.power != 1 {
            proof { reveal_strlit("^"); }
            let mut s = self.variable.name.clone();
            s.append("^");
            let p = i64_to_string(self.power);
            s.append(p.as_str());
            proof {
                assert(s@ =~= crate::model::var_str(self@));
            }
            s
        } else {
            self.variable.name.clone()
        }
    }

    /// Makes a copy with the same name and exponent.
    pub fn duplicate(&self) -> (r: Self)
        ensures
            r@ == self@,
    {
        VariableEntity {
            variable: VariableIdentifier { name: self.variable.name.clone() },
            power: self.power,
        }
    }
}

impl PartialEq for VariableEntity {
    /// Equal exactly when both the name and the exponent agree.
    fn eq(&self, other: &Self) -> (r: bool) {
        self.variable.name == other.variable.name && self.power == other.power
    }
}

impl vstd::std_specs::cmp::PartialEqSpecImpl for VariableEntity {
    open spec fn obeys_eq_spec() -> bool {
        true
    }

    open spec fn eq_spec(&self, other: &Self) -> bool {
        self@.name == other@.name && self@.power == other@.power
    }
}

/// The model of a constant-term result.
pub open spec fn const_res(r: Result<ConstantTerm, ExprError>) -> Result<ConstM, ExprError> {
    match r {
        Ok(c) => Ok(c@),
        Err(e) => Err(e),
    }
}

/// The model of a variable-list result.
pub open spec fn vars_res(r: Result<Vec<VariableEntity>, ExprError>) -> Result<
    Seq<VarM>,
    ExprError,
> {
    match r {
        Ok(vs) => Ok(var_views(vs@)),
        Err(e) => Err(e),
    }
}

/// The model of a variable-term result.
pub open spec fn varterm_res(r: Result<VariableTerm, ExprError>) -> Result<
    VarTermM,
    ExprError,
> {
    match r {
        Ok(t) => Ok(t@),
        Err(e) => Err(e),
    }
}

/// The model of a tree result.
pub open spec fn entity_res(r: Result<Entity, ExprError>) -> Result<ExprM, ExprError> {
    match r {
        Ok(e) => Ok(e@),
        Err(e) => Err(e),
    }
}

/// The model of a summation result.
pub open spec fn sum_res(r: Result<SummationFunction, ExprError>) -> Result<
    Seq<ExprM>,
    ExprError,
> {
    match r {
        Ok(s) => Ok(s@),
        Err(e) => Err(e),
    }
}

/// The model of a multiplication result.
pub open spec fn mul_res(r: Result<MultiplicationFunction, ExprError>) -> Result<
    ExprM,
    ExprError,
> {
    match r {
        Ok(m) => Ok(ExprM::Multiplication(Box::new(m@.0), Box::new(m@.1))),
        Err(e) => Err(e),
    }
}

/// Copies a variable list.
fn dup_vars(vs: &Vec<VariableEntity>) -> (r: Vec<VariableEntity>)
    ensures
        var_views(r@) == var_views(vs@),
{
    let mut r: Vec<VariableEntity> = Vec::new();
    let mut i: usize = 0;
    while i < vs.len()
        invariant
            i <= vs.len(),
            r@.len() == i,
            forall|j: int| 0 <= j < i ==> r@[j]@ == vs@[j]@,
        decreases vs.len() - i,
    {
        r.push(vs[i].duplicate());
        i = i + 1;
    }
    proof {
        assert(var_views(r@) =~= var_views(vs@));
    }
    r
}

/// Unfolds the pointwise product of two variable lists at position `k`.
proof fn lemma_vars_mul_step(a: Seq<VarM>, b: Seq<VarM>, k: int)
    requires
        a.len() == b.len(),
        0 <= k < a.len(),
    ensures
        vars_mul(a.skip(k), b.skip(k)) == (if a[k].name != b[k].name {
            Err::<Seq<VarM>, ExprError>(ExprError::IncompatibleTerms)
        } else if !fits_i64(a[k].power + b[k].power) {
            Err::<Seq<VarM>, ExprError>(ExprError::Overflow)
        } else {
            match vars_mul(a.skip(k + 1), b.skip(k + 1)) {
                Ok(rest) => Ok::<Seq<VarM>, ExprError>(
                    seq![VarM { name: a[k].name, power: a[k].power + b[k].power }] + rest,
                ),
                Err(e) => Err::<Seq<VarM>, ExprError>(e),
            }
        }),
{
    assert(a.skip(k).len() == b.skip(k).len());
    assert(a.skip(k)[0] == a[k]);
    assert(b.skip(k)[0] == b[k]);
    assert(a.skip(k).drop_first() =~= a.skip(k + 1));
    assert(b.skip(k).drop_first() =~= b.skip(k + 1));
}

/// Multiplies the variable lists pointwise from position `i` on.
fn mul_vars_from(a: &Vec<VariableEntity>, b: &Vec<VariableEntity>, i: usize) -> (r: Result<
    Vec<VariableEntity>,
    ExprError,
>)
    requires
        a@.len() == b@.len(),
        i <= a@.len(),
    ensures
        vars_res(r) == vars_mul(var_views(a@).skip(i as int), var_views(b@).skip(i as int)),
    decreases a@.len() - i,
{
    let ghost va = var_views(a@);
    let ghost vb = var_views(b@);
    if i == a.len() {
        proof {
            assert(va.skip(i as int).len() == 0);
        }
        let empty: Vec<VariableEntity> = Vec::new();
        proof {
            assert(var_views(empty@) =~= Seq::<VarM>::empty());
        }
        Ok(empty)
    } else {
        proof {
            lemma_vars_mul_step(va, vb, i as int);
        }
        if !(a[i].variable.name == b[i].variable.name) {
            return Err(ExprError::IncompatibleTerms);
        }
        match a[i].power.checked_add(b[i].power) {
            None => Err(ExprError::Overflow),
            Some(p) => {
                match mul_vars_from(a, b, i + 1) {
                    Err(e) => Err(e),
                    Ok(rest) => {
                        let mut rest = rest;
                        let ghost rest0 = rest@;
                        rest.insert(
                            0,
                            VariableEntity {
                                variable: VariableIdentifier {
                                    name: a[i].variable.name.clone(),
                                },
                                power: p,
                            },
                        );
                        proof {
                            assert(var_views(rest@) =~= seq![
                                VarM { name: va[i as int].name, power: va[i as int].power + vb[
                                    i as int].power },
                            ] + var_views(rest0));
                        }
                        Ok(rest)
                    },
                }
            },
        }
    }
}

/// Unfolds the sorted insertion of one variable at position `k` of the
/// accumulator.
proof fn lemma_merge_var_step(s: Seq<VarM>, v: VarM, k: int)
    requires
        0 <= k < s.len(),
    ensures
        merge_var(s.skip(k), v) == (if lex_lt(v.name, s[k].name) {
            Ok::<Seq<VarM>, ExprError>(seq![v] + s.skip(k))
        } else if v.name == s[k].name {
            if !fits_i64(s[k].power + v.power) {
                Err::<Seq<VarM>, ExprError>(ExprError::Overflow)
            } else {
                Ok::<Seq<VarM>, ExprError>(
                    seq![VarM { name: s[k].name, power: s[k].power + v.power }] + s.skip(k + 1),
                )
            }
        } else {
            match merge_var(s.skip(k + 1), v) {
                Ok(r) => Ok::<Seq<VarM>, ExprError>(seq![s[k]] + r),
                Err(e) => Err::<Seq<VarM>, ExprError>(e),
            }
        }),
{
    assert(s.skip(k).len() > 0);
    assert(s.skip(k)[0] == s[k]);
    assert(s.skip(k).drop_first() =~= s.skip(k + 1));
}

/// Inserts one variable into a name-sorted accumulator, merging exponents on
/// an equal name.
#[verifier::loop_isolation(false)]
fn merge_var_exec(list: Vec<VariableEntity>, v: VariableEntity) -> (r: Result<
    Vec<VariableEntity>,
    ExprError,
>)
    ensures
        vars_res(r) == merge_var(var_views(list@), v@),
{
    let ghost views = var_views(list@);
    let ghost goal = merge_var(views, v@);
    let mut cur = list;
    let mut k: usize = 0;
    proof {
        assert(views.skip(0) =~= views);
        match goal {
            Ok(rr) => {
                assert(views.take(0) + rr =~= rr);
            },
            Err(_) => {},
        }
        assert(goal == (match merge_var(views.skip(0), v@) {
            Ok(rr) => Ok::<Seq<VarM>, ExprError>(views.take(0) + rr),
            Err(e) => Err::<Seq<VarM>, ExprError>(e),
        }));
    }
    loop
        invariant
            k <= cur.len(),
            var_views(cur@) == views,
            goal == merge_var(views, v@),
            goal == (match merge_var(views.skip(k as int), v@) {
                Ok(rr) => Ok::<Seq<VarM>, ExprError>(views.take(k as int) + rr),
                Err(e) => Err::<Seq<VarM>, ExprError>(e),
            }),
        decreases cur.len() - k,
    {
        if k == cur.len() {
            proof {
                assert(views.skip(k as int).len() == 0);
                assert(merge_var(views.skip(k as int), v@) == Ok::<Seq<VarM>, ExprError>(
                    seq![v@],
                ));
            }
            cur.push(v);
            proof {
                assert(var_views(cur@) =~= views.take(k as int) + seq![v@]);
            }
            return Ok(cur);
        }
        proof {
            lemma_merge_var_step(views, v@, k as int);
        }
        if str_lex_lt(v.variable.name.as_str(), cur[k].variable.name.as_str()) {
            proof {
                assert(cur@[k as int]@ == views[k as int]);
            }
            cur.insert(k, v);
            proof {
                assert(var_views(cur@) =~= views.take(k as int) + (seq![v@] + views.skip(
                    k as int,
                )));
            }
            return Ok(cur);
        }
        if v.variable.name == cur[k].variable.name {
            proof {
                assert(cur@[k as int]@ == views[k as int]);
                assert(v@.name == views[k as int].name);
            }
            match cur[k].power.checked_add(v.power) {
                None => {
                    return Err(ExprError::Overflow);
                },
                Some(p) => {
                    let name = cur[k].variable.name.clone();
                    cur.set(k, VariableEntity { variable: VariableIdentifier { name }, power: p });
                    proof {
                        assert(var_views(cur@) =~= views.take(k as int) + (seq![
                            VarM { name: views[k as int].name, power: views[k as int].power
                                + v@.power },
                        ] + views.skip(k as int + 1)));
                    }
                    return Ok(cur);
                },
            }
        }
        proof {
            assert(cur@[k as int]@ == views[k as int]);
            match merge_var(views.skip(k as int + 1), v@) {
                Ok(rr) => {
                    assert(views.take(k as int) + (seq![views[k as int]] + rr) =~= views.take(
                        k as int + 1,
                    ) + rr);
                },
                Err(_) => {},
            }
        }
        k = k + 1;
    }
}

/// Groups a variable list by name, summing exponents, and sorts it by name.
fn collapse_vars_exec(vs: &Vec<VariableEntity>) -> (r: Result<Vec<VariableEntity>, ExprError>)
    ensures
        vars_res(r) == collapse_vars(var_views(vs@)),
{
    let ghost views = var_views(vs@);
    let mut acc: Vec<VariableEntity> = Vec::new();
    let mut i: usize = 0;
    proof {
        assert(var_views(acc@) =~= Seq::<VarM>::empty());
        assert(views.skip(0) =~= views);
    }
    loop
        invariant
            i <= vs.len(),
            views == var_views(vs@),
            insert_all(var_views(acc@), views.skip(i as int)) == collapse_vars(views),
        decreases vs.len() - i,
    {
        if i == vs.len() {
            proof {
                assert(views.skip(i as int).len() == 0);
            }
            return Ok(acc);
        }
        proof {
            assert(views.skip(i as int)[0] == views[i as int]);
            assert(views.skip(i as int).drop_first() =~= views.skip(i as int + 1));
            assert(views[i as int] == vs@[i as int]@);
        }
        match merge_var_exec(acc, vs[i].duplicate()) {
            Err(e) => {
                return Err(e);
            },
            Ok(a2) => {
                acc = a2;
            },
        }
        i = i + 1;
    }
}

impl ConstantTerm {
    /// Builds a constant term from its coefficient and incidental variables.
    pub fn new(value: i64, non_wrt_variables: Vec<VariableEntity>) -> (r: Self)
        ensures
            r@ == (ConstM { value: value as int, vars: var_views(non_wrt_variables@) }),
    {
        ConstantTerm { value, non_wrt_variables }
    }

    /// Two constant terms merge exactly when their incidental-variable lists
    /// are structurally equal.
    pub fn can_add_if_collapsed(&self, other: &Self) -> (r: bool)
        ensures
            r == const_can_add(self@, other@),
    {
        if self.non_wrt_variables.len() != other.non_wrt_variables.len() {
            return false;
        }
        let mut i: usize = 0;
        while i < self.non_wrt_variables.len()
            invariant
                i <= self.non_wrt_variables.len(),
                self.non_wrt_variables.len() == other.non_wrt_variables.len(),
                forall|j: int| 0 <= j < i ==> self@.vars[j].name == other@.vars[j].name
                    && self@.vars[j].power == other@.vars[j].power,
            decreases self.non_wrt_variables.len() - i,
        {
            proof {
                assert(self@.vars[i as int] == self.non_wrt_variables@[i as int]@);
                assert(other@.vars[i as int] == other.non_wrt_variables@[i as int]@);
            }
            if !(self.non_wrt_variables[i].variable.name
                == other.non_wrt_variables[i].variable.name) {
                proof {
                    assert(self@.vars[i as int].name != other@.vars[i as int].name);
                }
                return false;
            }
            if self.non_wrt_variables[i].power != other.non_wrt_variables[i].power {
                proof {
                    assert(self@.vars[i as int].power != other@.vars[i as int].power);
                }
                return false;
            }
            i = i + 1;
        }
        true
    }

    /// Sums two mergeable constant terms; the incidental variables carry
    /// over from the first operand.
    pub fn add(&self, other: &Self) -> (r: Result<Self, ExprError>)
        ensures
            const_res(r) == const_add(self@, other@),
    {
        if !self.can_add_if_collapsed(other) {
            return Err(ExprError::IncompatibleTerms);
        }
        match self.value.checked_add(other.value) {
            None => Err(ExprError::Overflow),
            Some(v) => Ok(ConstantTerm { value: v, non_wrt_variables: dup_vars(&self.non_wrt_variables) }),
        }
    }

    /// Multiplies two constant terms whose incidental-variable lists pair
    /// the same variables in the same order.
    pub fn multiply(&self, other: &Self) -> (r: Result<Self, ExprError>)
        ensures
            const_res(r) == const_mul(self@, other@),
    {
        if self.non_wrt_variables.len() != other.non_wrt_variables.len() {
            return Err(ExprError::IncompatibleTerms);
        }
        proof {
            assert(var_views(self.non_wrt_variables@).skip(0) =~= var_views(
                self.non_wrt_variables@,
            ));
            assert(var_views(other.non_wrt_variables@).skip(0) =~= var_views(
                other.non_wrt_variables@,
            ));
        }
        match mul_vars_from(&self.non_wrt_variables, &other.non_wrt_variables, 0) {
            Err(e) => Err(e),
            Ok(vars) => match self.value.checked_mul(other.value) {
                None => Err(ExprError::Overflow),
                Some(v) => Ok(ConstantTerm { value: v, non_wrt_variables: vars }),
            },
        }
    }

    /// Canonicalizes the incidental variables: grouped by name with
    /// exponents summed, sorted by name; zero exponents are kept.
    pub fn collapse(&self) -> (r: Result<Self, ExprError>)
        ensures
            const_res(r) == collapse_const(self@),
    {
        match collapse_vars_exec(&self.non_wrt_variables) {
            Err(e) => Err(e),
            Ok(nv) => Ok(ConstantTerm { value: self.value, non_wrt_variables: nv }),
        }
    }

    /// A constant differentiates to the bare constant zero.
    pub fn differentiate(&self) -> (r: Result<Entity, ExprError>)
        ensures
            entity_res(r) == diff_e(ExprM::Constant(self@)),
            r is Ok,
    {
        let z: Vec<VariableEntity> = Vec::new();
        proof {
            assert(var_views(z@) =~= Seq::<VarM>::empty());
        }
        Ok(Entity::Constant(ConstantTerm { value: 0, non_wrt_variables: z }))
    }

    /// The kind tag of a constant term.
    pub fn get_kind(&self) -> (r: EntityKind)
        ensures
            r == EntityKind::Constant,
    {
        EntityKind::Constant
    }

    /// Makes a structural copy.
    pub fn duplicate(&self) -> (r: Self)
        ensures
            r@ == self@,
    {
        let r = ConstantTerm { value: self.value, non_wrt_variables: dup_vars(&self.non_wrt_variables) };
        proof {
            assert(r@ =~= self@);
        }
        r
    }
}

/// The model of an optional folded constant.
pub open spec fn opt_const(o: Option<ConstantTerm>) -> Option<ConstM> {
    match o {
        Some(c) => Some(c@),
        None => None,
    }
}

/// Copies a list of trees.
#[verifier::loop_isolation(false)]
fn dup_entities(v: &Vec<Entity>) -> (r: Vec<Entity>)
    ensures
        entity_models(r@) == entity_models(v@),
    decreases v@, 0int,
{
    let mut r: Vec<Entity> = Vec::new();
    let mut i: usize = 0;
    while i < v.len()
        invariant
            i <= v.len(),
            r@.len() == i,
            forall|j: int| 0 <= j < i ==> entity_model(r@[j]) == entity_model(v@[j]),
        decreases v.len() - i,
    {
        r.push(v[i].duplicate());
        i = i + 1;
    }
    proof {
        lemma_entity_models(r@);
        lemma_entity_models(v@);
        assert(entity_models(r@) =~= entity_models(v@));
    }
    r
}

impl Entity {
    /// Makes a structural copy of the tree.
    pub fn duplicate(&self) -> (r: Entity)
        ensures
            r@ == self@,
        decreases *self, 1int,
    {
        match self {
            Entity::Constant(c) => Entity::Constant(c.duplicate()),
            Entity::Variable(t) => Entity::Variable(t.duplicate()),
            Entity::Summation(s) => Entity::Summation(s.duplicate()),
            Entity::Multiplication(m) => Entity::Multiplication(m.duplicate()),
        }
    }
}

impl VariableTerm {
    /// Makes a structural copy.
    pub fn duplicate(&self) -> (r: Self)
        ensures
            r@ == self@,
        decreases *self, 0int,
    {
        let r = VariableTerm {
            variable: self.variable.duplicate(),
            coeffs: dup_entities(&self.coeffs),
        };
        proof {
            assert(r@ =~= self@);
        }
        r
    }
}

impl SummationFunction {
    /// Makes a structural copy.
    pub fn duplicate(&self) -> (r: Self)
        ensures
            r@ == self@,
        decreases *self, 0int,
    {
        SummationFunction { terms: dup_entities(&self.terms) }
    }
}

impl MultiplicationFunction {
    /// Makes a structural copy.
    pub fn duplicate(&self) -> (r: Self)
        ensures
            r@ == self@,
        decreases *self, 0int,
    {
        let r = MultiplicationFunction {
            first: Box::new(self.first.duplicate()),
            second: Box::new(self.second.duplicate()),
        };
        proof {
            assert(r@ =~= self@);
        }
        r
    }
}

/// Position-by-position compatibility of two coefficient lists from index
/// `i` on.
#[verifier::loop_isolation(false)]
fn coeffs_compat(a: &Vec<Entity>, b: &Vec<Entity>, i: usize) -> (r: bool)
    requires
        i <= a@.len(),
    ensures
        r == coeffs_compatible_from(entity_models(a@), entity_models(b@), i as int),
    decreases a@, a@.len() - i,
{
    let ghost ma = entity_models(a@);
    let ghost mb = entity_models(b@);
    proof {
        lemma_entity_models(a@);
        lemma_entity_models(b@);
        if (i as int) < ma.len() {
            crate::model::lemma_coeffs_compatible_step(ma, mb, i as int);
            crate::model::lemma_coeff_compatible_unfold(ma[i as int], mb[i as int]);
        }
    }
    if i == a.len() {
        return true;
    }
    match &a[i] {
        Entity::Constant(_) => coeffs_compat(a, b, i + 1),
        _ => {
            proof {
                assert(kind_of(ma[i as int]) != EntityKind::Constant);
            }
            if i >= b.len() {
                return false;
            }
            let ok = match (&a[i], &b[i]) {
                (Entity::Variable(x), Entity::Variable(y)) => {
                    let e = x.can_add_if_collapsed(y);
                    proof {
                        assert(ma[i as int] == ExprM::Variable(x@));
                        assert(mb[i as int] == ExprM::Variable(y@));
                    }
                    e
                },
                _ => {
                    proof {
                        assert(crate::model::coeff_compatible(ma[i as int], mb[i as int]));
                    }
                    true
                },
            };
            ok && coeffs_compat(a, b, i + 1)
        },
    }
}

impl VariableTerm {
    /// Builds a variable term from its active variable and coefficients.
    pub fn new(variable: VariableEntity, coeffs: Vec<Entity>) -> (r: Self)
        ensures
            r@ == (VarTermM { var: variable@, coeffs: entity_models(coeffs@) }),
    {
        VariableTerm { variable, coeffs }
    }

    /// Coefficient-list compatibility: constant coefficients never block a
    /// merge, coefficients of different kinds never block, nested variable
    /// coefficients must merge recursively, and composite coefficients are
    /// always treated as compatible.
    pub fn equal_coeffs(&self, other: &Self) -> (r: bool)
        ensures
            r == coeffs_compatible_from(self@.coeffs, other@.coeffs, 0),
        decreases *self, 2int,
    {
        coeffs_compat(&self.coeffs, &other.coeffs, 0)
    }

    /// Two variable terms merge exactly when their active variables match in
    /// name and exponent and their coefficients are compatible.
    pub fn can_add_if_collapsed(&self, other: &Self) -> (r: bool)
        ensures
            r == var_can_add(self@, other@),
        decreases *self, 3int,
    {
        self.variable.variable.name == other.variable.variable.name && self.variable.power
            == other.variable.power && coeffs_compat(&self.coeffs, &other.coeffs, 0)
    }

    /// Sums two mergeable variable terms: the active variable is kept and
    /// only the trailing constant coefficients are added.
    pub fn add(&self, other: &Self) -> (r: Result<Self, ExprError>)
        ensures
            varterm_res(r) == var_add(self@, other@),
    {
        proof {
            lemma_entity_models(self.coeffs@);
            lemma_entity_models(other.coeffs@);
        }
        if !self.can_add_if_collapsed(other) {
            return Err(ExprError::IncompatibleTerms);
        }
        if self.coeffs.len() == 0 || other.coeffs.len() == 0 {
            return Err(ExprError::KindMismatch);
        }
        let na = self.coeffs.len() - 1;
        let nb = other.coeffs.len() - 1;
        match (&self.coeffs[na], &other.coeffs[nb]) {
            (Entity::Constant(c1), Entity::Constant(c2)) => {
                proof {
                    assert(self@.coeffs.last() == ExprM::Constant(c1@));
                    assert(other@.coeffs.last() == ExprM::Constant(c2@));
                }
                match c1.add(c2) {
                    Err(e) => Err(e),
                    Ok(csum) => {
                        let mut cs: Vec<Entity> = Vec::new();
                        let mut i: usize = 0;
                        while i < na
                            invariant
                                i <= na,
                                na == self.coeffs@.len() - 1,
                                cs@.len() == i,
                                forall|j: int| 0 <= j < i ==> entity_model(cs@[j])
                                    == entity_model(self.coeffs@[j]),
                            decreases na - i,
                        {
                            cs.push(self.coeffs[i].duplicate());
                            i = i + 1;
                        }
                        cs.push(Entity::Constant(csum));
                        let r = VariableTerm { variable: self.variable.duplicate(), coeffs: cs };
                        proof {
                            lemma_entity_models(r.coeffs@);
                            assert(r@.coeffs =~= self@.coeffs.drop_last().push(
                                ExprM::Constant(csum@),
                            ));
                            assert(r@ =~= var_add(self@, other@)->Ok_0);
                        }
                        Ok(r)
                    },
                }
            },
            _ => {
                proof {
                    assert(!(self@.coeffs.last() is Constant) || !(other@.coeffs.last()
                        is Constant));
                }
                Err(ExprError::KindMismatch)
            },
        }
    }
}

proof fn lemma_model_constant(c: ConstantTerm)
    ensures
        entity_model(Entity::Constant(c)) == ExprM::Constant(c@),
{
}

proof fn lemma_model_variable(t: VariableTerm)
    ensures
        entity_model(Entity::Variable(t)) == ExprM::Variable(t@),
{
}

proof fn lemma_model_summation(s: SummationFunction)
    ensures
        entity_model(Entity::Summation(s)) == ExprM::Summation(s@),
{
}

proof fn lemma_model_multiplication(m: MultiplicationFunction)
    ensures
        entity_model(Entity::Multiplication(m)) == ExprM::Multiplication(
            Box::new(m@.0),
            Box::new(m@.1),
        ),
{
}

/// The model of a multiplication node built from this pair of operands.
pub open spec fn product_model(m: MultiplicationFunction) -> ExprM {
    ExprM::Multiplication(Box::new(m@.0), Box::new(m@.1))
}

/// Whether a string is exactly the literal one.
fn str_is_one(s: &String) -> (r: bool)
    ensures
        r == (s@ == seq!['1']),
{
    if s.as_str().unicode_len() == 1 {
        if s.as_str().get_char(0) == '1' {
            proof {
                assert(s@ =~= seq!['1']);
            }
            true
        } else {
            proof {
                assert(s@ != seq!['1']) by {
                    assert(s@[0] != '1');
                }
            }
            false
        }
    } else {
        proof {
            assert(s@ != seq!['1']) by {
                assert(s@.len() != 1);
            }
        }
        false
    }
}

/// Whether a string is exactly the literal zero.
fn str_is_zero(s: &String) -> (r: bool)
    ensures
        r == (s@ == seq!['0']),
{
    if s.as_str().unicode_len() == 1 {
        if s.as_str().get_char(0) == '0' {
            proof {
                assert(s@ =~= seq!['0']);
            }
            true
        } else {
            proof {
                assert(s@ != seq!['0']) by {
                    assert(s@[0] != '0');
                }
            }
            false
        }
    } else {
        proof {
            assert(s@ != seq!['0']) by {
                assert(s@.len() != 1);
            }
        }
        false
    }
}

/// Whether a string starts with the zero digit.
fn str_starts_zero(s: &String) -> (r: bool)
    ensures
        r == (s@.len() > 0 && s@[0] == '0'),
{
    s.as_str().unicode_len() > 0 && s.as_str().get_char(0) == '0'
}

impl ConstantTerm {
    /// Renders the constant: the literal zero for value zero, otherwise the
    /// value followed by each incidental variable, separated by `*`.
    pub fn to_str(&self) -> (r: String)
        ensures
            r@ == render(ExprM::Constant(self@)),
        decreases *self, 0int,
    {
        proof {
            crate::model::lemma_render_unfold(ExprM::Constant(self@));
        }
        if self.value == 0 {
            proof { reveal_strlit("0"); }
            let mut z = String::new();
            z.append("0");
            proof {
                assert(z@ =~= seq!['0']);
            }
            return z;
        }
        let ghost views = var_views(self.non_wrt_variables@);
        let mut s = i64_to_string(self.value);
        let mut i: usize = 0;
        proof {
            crate::model::lemma_const_vars_str_step(views, 0);
            assert(views.skip(0) =~= views);
        }
        while i < self.non_wrt_variables.len()
            invariant
                i <= self.non_wrt_variables.len(),
                views == var_views(self.non_wrt_variables@),
                self.value != 0,
                s@ + crate::model::const_vars_str(views.skip(i as int)) == int_str(
                    self.value as int,
                ) + crate::model::const_vars_str(views),
            decreases self.non_wrt_variables.len() - i,
        {
            proof {
                crate::model::lemma_const_vars_str_step(views, i as int);
                reveal_strlit("*");
            }
            let ghost s0 = s@;
            s.append("*");
            let vstr = self.non_wrt_variables[i].to_string();
            s.append(vstr.as_str());
            proof {
                assert(views[i as int] == self.non_wrt_variables@[i as int]@);
                assert(s@ =~= s0 + (seq!['*'] + crate::model::var_str(views[i as int])));
                assert(s@ + crate::model::const_vars_str(views.skip(i as int + 1)) =~= s0
                    + crate::model::const_vars_str(views.skip(i as int)));
            }
            i = i + 1;
        }
        proof {
            crate::model::lemma_const_vars_str_step(views, i as int);
            assert(s@ + Seq::<char>::empty() =~= s@);
        }
        s
    }
}

/// Whether every tree in the list is free of composite-composite products
/// on its differentiation path.
#[verifier::loop_isolation(false)]
fn entities_product_free(v: &Vec<Entity>) -> (r: bool)
    ensures
        r == fn_product_free_seq(entity_models(v@)),
    decreases v@, 0int,
{
    let ghost m = entity_models(v@);
    proof {
        lemma_entity_models(v@);
        lemma_fpf_seq(m);
    }
    let mut i: usize = 0;
    while i < v.len()
        invariant
            i <= v.len(),
            forall|j: int| 0 <= j < i ==> fn_product_free(m[j]),
        decreases v.len() - i,
    {
        if !v[i].product_free() {
            proof {
                assert(!all_fpf(m)) by {
                    assert(!fn_product_free(m[i as int]));
                }
            }
            return false;
        }
        i = i + 1;
    }
    proof {
        assert(all_fpf(m));
    }
    true
}

impl Entity {
    /// The kind tag of the node.
    pub fn get_kind(&self) -> (r: EntityKind)
        ensures
            r == kind_of(self@),
    {
        match self {
            Entity::Constant(c) => {
                proof { lemma_model_constant(*c); }
                EntityKind::Constant
            },
            Entity::Variable(t) => {
                proof { lemma_model_variable(*t); }
                EntityKind::Variable
            },
            Entity::Summation(s) => {
                proof { lemma_model_summation(*s); }
                EntityKind::Function
            },
            Entity::Multiplication(m) => {
                proof { lemma_model_multiplication(*m); }
                EntityKind::Function
            },
        }
    }

    /// Whether no multiplication node on the differentiation path — through
    /// summation terms and multiplication operands, but not into a variable
    /// term's coefficient list — has two composite operands. Differentiation
    /// requires this: simplifying such a product nests products without
    /// bound, while one inside a coefficient list is only copied.
    pub fn product_free(&self) -> (r: bool)
        ensures
            r == fn_product_free(self@),
        decreases *self, 1int,
    {
        proof {
            crate::rewrite::lemma_fpf_unfold(self@);
        }
        match self {
            Entity::Constant(c) => {
                proof { lemma_model_constant(*c); }
                true
            },
            Entity::Variable(t) => {
                proof { lemma_model_variable(*t); }
                true
            },
            Entity::Summation(s) => {
                proof { lemma_model_summation(*s); }
                entities_product_free(&s.terms)
            },
            Entity::Multiplication(m) => {
                proof { lemma_model_multiplication(*m); }
                let k1 = m.first.get_kind();
                let k2 = m.second.get_kind();
                if k1 == EntityKind::Function && k2 == EntityKind::Function {
                    false
                } else {
                    m.first.product_free() && m.second.product_free()
                }
            },
        }
    }

    /// The canonical reduced form of the tree.
    pub fn collapse(&self) -> (r: Result<Entity, ExprError>)
        ensures
            entity_res(r) == collapse_e(self@),
        decreases *self, 3int,
    {
        match self {
            Entity::Constant(c) => {
                proof {
                    lemma_model_constant(*c);
                    crate::rewrite::lemma_collapse_e_const(c@);
                }
                match c.collapse() {
                    Ok(cc) => Ok(Entity::Constant(cc)),
                    Err(e) => Err(e),
                }
            },
            Entity::Variable(t) => {
                proof {
                    lemma_model_variable(*t);
                    crate::rewrite::lemma_collapse_e_var(t@);
                }
                match t.collapse() {
                    Ok(ct) => Ok(Entity::Variable(ct)),
                    Err(e) => Err(e),
                }
            },
            Entity::Summation(s) => {
                proof {
                    lemma_model_summation(*s);
                    crate::rewrite::lemma_collapse_e_sum(s@);
                }
                match s.collapse() {
                    Ok(cs) => Ok(Entity::Summation(cs)),
                    Err(e) => Err(e),
                }
            },
            Entity::Multiplication(m) => {
                proof {
                    lemma_model_multiplication(*m);
                }
                match m.collapse() {
                    Ok(cm) => {
                        proof {
                            lemma_model_multiplication(cm);
                        }
                        Ok(Entity::Multiplication(cm))
                    },
                    Err(e) => Err(e),
                }
            },
        }
    }

    /// The canonical infix rendering of the tree.
    pub fn to_str(&self) -> (r: String)
        ensures
            r@ == render(self@),
        decreases *self, 1int,
    {
        match self {
            Entity::Constant(c) => {
                proof { lemma_model_constant(*c); }
                c.to_str()
            },
            Entity::Variable(t) => {
                proof { lemma_model_variable(*t); }
                t.to_str()
            },
            Entity::Summation(s) => {
                proof { lemma_model_summation(*s); }
                s.to_str()
            },
            Entity::Multiplication(m) => {
                proof { lemma_model_multiplication(*m); }
                m.to_str()
            },
        }
    }

    /// The symbolic derivative of the tree with respect to the one
    /// differentiation variable.
    pub fn differentiate(&self) -> (r: Result<Entity, ExprError>)
        ensures
            entity_res(r) == diff_e(self@),
        decreases mu(self@), 2int,
    {
        match self {
            Entity::Constant(c) => {
                proof { lemma_model_constant(*c); }
                c.differentiate()
            },
            Entity::Variable(t) => {
                proof { lemma_model_variable(*t); }
                t.differentiate()
            },
            Entity::Summation(s) => {
                proof {
                    lemma_model_summation(*s);
                    crate::rewrite::lemma_fpf_unfold(self@);
                }
                s.differentiate()
            },
            Entity::Multiplication(m) => {
                proof {
                    lemma_model_multiplication(*m);
                    crate::rewrite::lemma_fpf_unfold(self@);
                }
                m.differentiate()
            },
        }
    }
}

/// Distributes the second operand's coefficients during a variable-term
/// product, from position `i` on.
fn var_mul_scan_exec(
    coeffs: &Vec<Entity>,
    i: usize,
    acc: ConstantTerm,
    funcs: Vec<Entity>,
    pow: i64,
) -> (r: Result<(ConstantTerm, Vec<Entity>, i64), ExprError>)
    requires
        i <= coeffs@.len(),
    ensures
        match r {
            Ok(t) => var_mul_scan(
                entity_models(coeffs@),
                i as int,
                acc@,
                entity_models(funcs@),
                pow as int,
            ) == Ok::<(ConstM, Seq<ExprM>, int), ExprError>(
                (t.0@, entity_models(t.1@), t.2 as int),
            ),
            Err(e) => var_mul_scan(
                entity_models(coeffs@),
                i as int,
                acc@,
                entity_models(funcs@),
                pow as int,
            ) == Err::<(ConstM, Seq<ExprM>, int), ExprError>(e),
        },
    decreases coeffs@.len() - i,
{
    let ghost m = entity_models(coeffs@);
    proof {
        lemma_entity_models(coeffs@);
        crate::model::lemma_var_mul_scan_step(m, i as int, acc@, entity_models(funcs@),
            pow as int);
    }
    if i == coeffs.len() {
        return Ok((acc, funcs, pow));
    }
    match &coeffs[i] {
        Entity::Constant(c) => {
            proof { lemma_model_constant(*c); }
            match acc.multiply(c) {
                Err(e) => Err(e),
                Ok(acc2) => var_mul_scan_exec(coeffs, i + 1, acc2, funcs, pow),
            }
        },
        Entity::Variable(v) => {
            proof { lemma_model_variable(*v); }
            match pow.checked_add(v.variable.power) {
                None => Err(ExprError::Overflow),
                Some(p2) => var_mul_scan_exec(coeffs, i + 1, acc, funcs, p2),
            }
        },
        f => {
            let mut funcs = funcs;
            let ghost f0 = funcs@;
            funcs.push(f.duplicate());
            proof {
                lemma_entity_models(funcs@);
                lemma_entity_models(f0);
                assert(entity_models(funcs@) =~= entity_models(f0).push(m[i as int]));
            }
            var_mul_scan_exec(coeffs, i + 1, acc, funcs, pow)
        },
    }
}

/// Folds a variable term's coefficients during collapse, from position `i`
/// on: each coefficient is collapsed, nested variables fold into the active
/// exponent, constants fold into one product, composite coefficients are
/// kept.
fn collapse_var_scan_exec(
    name: &String,
    coeffs: &Vec<Entity>,
    i: usize,
    pow: i64,
    acc: Option<ConstantTerm>,
    funcs: Vec<Entity>,
) -> (r: Result<(i64, Option<ConstantTerm>, Vec<Entity>), ExprError>)
    requires
        i <= coeffs@.len(),
    ensures
        match r {
            Ok(t) => collapse_var_scan(
                name@,
                entity_models(coeffs@),
                i as int,
                pow as int,
                opt_const(acc),
                entity_models(funcs@),
            ) == Ok::<(int, Option<ConstM>, Seq<ExprM>), ExprError>(
                (t.0 as int, opt_const(t.1), entity_models(t.2@)),
            ),
            Err(e) => collapse_var_scan(
                name@,
                entity_models(coeffs@),
                i as int,
                pow as int,
                opt_const(acc),
                entity_models(funcs@),
            ) == Err::<(int, Option<ConstM>, Seq<ExprM>), ExprError>(e),
        },
    decreases coeffs@, coeffs@.len() - i,
{
    let ghost m = entity_models(coeffs@);
    proof {
        lemma_entity_models(coeffs@);
        crate::rewrite::lemma_collapse_var_scan_step(name@, m, i as int, pow as int,
            opt_const(acc), entity_models(funcs@));
    }
    if i == coeffs.len() {
        return Ok((pow, acc, funcs));
    }
    match coeffs[i].collapse() {
        Err(e) => Err(e),
        Ok(c) => match c {
            Entity::Variable(v) => {
                proof { lemma_model_variable(v); }
                if v.variable.variable.name == *name {
                    match pow.checked_add(v.variable.power) {
                        None => Err(ExprError::Overflow),
                        Some(p2) => collapse_var_scan_exec(name, coeffs, i + 1, p2, acc, funcs),
                    }
                } else {
                    Err(ExprError::MixedVariables)
                }
            },
            Entity::Constant(k) => {
                proof { lemma_model_constant(k); }
                match acc {
                    None => collapse_var_scan_exec(name, coeffs, i + 1, pow, Some(k), funcs),
                    Some(p) => match p.multiply(&k) {
                        Ok(pk) => collapse_var_scan_exec(name, coeffs, i + 1, pow, Some(pk),
                            funcs),
                        Err(e) => Err(e),
                    },
                }
            },
            f => {
                let ghost fm = f@;
                let mut funcs = funcs;
                let ghost f0 = funcs@;
                funcs.push(f);
                proof {
                    lemma_entity_models(funcs@);
                    lemma_entity_models(f0);
                    assert(entity_models(funcs@) =~= entity_models(f0).push(fm));
                    assert(match fm {
                        ExprM::Variable(_) => false,
                        ExprM::Constant(_) => false,
                        _ => true,
                    });
                }
                collapse_var_scan_exec(name, coeffs, i + 1, pow, acc, funcs)
            },
        },
    }
}

impl VariableTerm {
    /// The kind tag of a variable term.
    pub fn get_kind(&self) -> (r: EntityKind)
        ensures
            r == EntityKind::Variable,
    {
        EntityKind::Variable
    }

    /// Multiplies two variable terms: the second operand's coefficients are
    /// distributed, both active exponents are absorbed, and the folded
    /// constant is appended last.
    pub fn multiply(&self, other: &Self) -> (r: Result<Self, ExprError>)
        ensures
            varterm_res(r) == var_mul(self@, other@),
    {
        proof {
            crate::model::lemma_var_mul_unfold(self@, other@);
        }
        let one = ConstantTerm { value: 1, non_wrt_variables: Vec::new() };
        let empty: Vec<Entity> = Vec::new();
        proof {
            assert(one@ =~= one_m());
            assert(entity_models(empty@) =~= Seq::<ExprM>::empty());
        }
        match var_mul_scan_exec(&other.coeffs, 0, one, empty, 0) {
            Err(e) => Err(e),
            Ok((acc, funcs, pow)) => {
                match self.variable.power.checked_add(other.variable.power) {
                    None => Err(ExprError::Overflow),
                    Some(s2) => match pow.checked_add(s2) {
                        None => Err(ExprError::Overflow),
                        Some(total) => {
                            let mut funcs = funcs;
                            let ghost f0 = funcs@;
                            funcs.push(Entity::Constant(acc));
                            let r = VariableTerm {
                                variable: VariableEntity {
                                    variable: VariableIdentifier {
                                        name: self.variable.variable.name.clone(),
                                    },
                                    power: total,
                                },
                                coeffs: funcs,
                            };
                            proof {
                                lemma_entity_models(r.coeffs@);
                                lemma_entity_models(f0);
                                lemma_model_constant(acc);
                                assert(r@.coeffs =~= entity_models(f0).push(
                                    ExprM::Constant(acc@),
                                ));
                                assert(r@ =~= var_mul(self@, other@)->Ok_0);
                            }
                            Ok(r)
                        },
                    },
                }
            },
        }
    }

    /// Canonicalizes the variable term: nested variable coefficients fold
    /// into the active exponent, constants fold into one trailing constant
    /// (one when none existed), composite coefficients keep their order.
    pub fn collapse(&self) -> (r: Result<Self, ExprError>)
        ensures
            varterm_res(r) == collapse_var(self@),
        decreases *self, 2int,
    {
        proof {
            crate::rewrite::lemma_collapse_var_unfold(self@);
            assert(entity_models(Seq::<Entity>::empty()) =~= Seq::<ExprM>::empty());
        }
        let empty: Vec<Entity> = Vec::new();
        match collapse_var_scan_exec(
            &self.variable.variable.name,
            &self.coeffs,
            0,
            self.variable.power,
            None,
            empty,
        ) {
            Err(e) => Err(e),
            Ok((pow, acc, funcs)) => {
                let folded = match acc {
                    Some(c) => c,
                    None => {
                        let one = ConstantTerm { value: 1, non_wrt_variables: Vec::new() };
                        proof {
                            assert(one@ =~= one_m());
                        }
                        one
                    },
                };
                match folded.collapse() {
                    Err(e) => Err(e),
                    Ok(cc) => {
                        let mut funcs = funcs;
                        let ghost f0 = funcs@;
                        funcs.push(Entity::Constant(cc));
                        let r = VariableTerm {
                            variable: VariableEntity {
                                variable: VariableIdentifier {
                                    name: self.variable.variable.name.clone(),
                                },
                                power: pow,
                            },
                            coeffs: funcs,
                        };
                        proof {
                            lemma_entity_models(r.coeffs@);
                            lemma_entity_models(f0);
                            lemma_model_constant(cc);
                            assert(r@.coeffs =~= entity_models(f0).push(ExprM::Constant(cc@)));
                            assert(r@ =~= collapse_var(self@)->Ok_0);
                        }
                        Ok(r)
                    },
                }
            },
        }
    }

    /// The power rule: the exponent drops by one and the old exponent is
    /// prepended as a new constant coefficient.
    pub fn differentiate(&self) -> (r: Result<Entity, ExprError>)
        ensures
            entity_res(r) == diff_e(ExprM::Variable(self@)),
    {
        proof {
            crate::rewrite::lemma_diff_var(self@);
        }
        match self.variable.power.checked_sub(1) {
            None => Err(ExprError::Overflow),
            Some(p) => {
                let mut cs: Vec<Entity> = Vec::new();
                let lead = ConstantTerm { value: self.variable.power, non_wrt_variables: Vec::new() };
                proof {
                    assert(lead@ =~= (ConstM { value: self@.var.power, vars: Seq::empty() }));
                }
                cs.push(Entity::Constant(lead));
                let mut i: usize = 0;
                while i < self.coeffs.len()
                    invariant
                        i <= self.coeffs.len(),
                        cs@.len() == i + 1,
                        entity_model(cs@[0]) == ExprM::Constant(
                            ConstM { value: self@.var.power, vars: Seq::empty() },
                        ),
                        forall|j: int| 0 <= j < i ==> entity_model(cs@[j + 1]) == entity_model(
                            self.coeffs@[j],
                        ),
                    decreases self.coeffs.len() - i,
                {
                    cs.push(self.coeffs[i].duplicate());
                    i = i + 1;
                }
                let r = VariableTerm {
                    variable: VariableEntity {
                        variable: VariableIdentifier {
                            name: self.variable.variable.name.clone(),
                        },
                        power: p,
                    },
                    coeffs: cs,
                };
                proof {
                    lemma_entity_models(r.coeffs@);
                    lemma_entity_models(self.coeffs@);
                    lemma_model_variable(r);
                    assert(r@.coeffs =~= seq![
                        ExprM::Constant(ConstM { value: self@.var.power, vars: Seq::empty() }),
                    ] + self@.coeffs);
                    assert(r@ =~= diff_e(ExprM::Variable(self@))->Ok_0->Variable_0);
                }
                Ok(Entity::Variable(r))
            },
        }
    }

    /// Renders the term: coefficients joined with `*` (those rendering as
    /// the literal one are skipped; one starting with the zero digit renders
    /// the whole term as zero), then the active variable.
    #[verifier::loop_isolation(false)]
    pub fn to_str(&self) -> (r: String)
        ensures
            r@ == render(ExprM::Variable(self@)),
        decreases *self, 0int,
    {
        proof {
            crate::model::lemma_render_unfold(ExprM::Variable(self@));
            lemma_entity_models(self.coeffs@);
        }
        let ghost m = self@.coeffs;
        let mut acc = String::new();
        let mut any = false;
        let mut i: usize = 0;
        loop
            invariant
                i <= self.coeffs.len(),
                m == self@.coeffs,
                m.len() == self.coeffs@.len(),
                crate::model::render_coeffs(m, 0) == (if any {
                    match crate::model::render_coeffs(m, i as int) {
                        CoeffsRender::Zero => CoeffsRender::Zero,
                        CoeffsRender::NoneKept => CoeffsRender::Joined(acc@),
                        CoeffsRender::Joined(r2) => CoeffsRender::Joined(
                            acc@ + seq!['*'] + r2,
                        ),
                    }
                } else {
                    crate::model::render_coeffs(m, i as int)
                }),
                !any ==> acc@ == Seq::<char>::empty(),
            decreases self.coeffs.len() - i,
        {
            proof {
                crate::model::lemma_render_coeffs_step(m, i as int);
            }
            if i == self.coeffs.len() {
                break;
            }
            let s = self.coeffs[i].to_str();
            proof {
                assert(s@ == crate::model::render(m[i as int]));
            }
            if str_is_one(&s) {
                i = i + 1;
                continue;
            }
            if str_starts_zero(&s) {
                proof { reveal_strlit("0"); }
                let mut z = String::new();
                z.append("0");
                proof {
                    assert(z@ =~= seq!['0']);
                }
                return z;
            }
            let ghost a0 = acc@;
            if any {
                proof { reveal_strlit("*"); }
                acc.append("*");
            }
            acc.append(s.as_str());
            proof {
                if any {
                    assert(acc@ =~= a0 + seq!['*'] + s@);
                    match crate::model::render_coeffs(m, i as int + 1) {
                        CoeffsRender::Joined(r2) => {
                            assert((a0 + seq!['*'] + s@) + seq!['*'] + r2 =~= a0 + seq!['*']
                                + (s@ + seq!['*'] + r2));
                        },
                        _ => {},
                    }
                } else {
                    assert(acc@ =~= s@);
                }
            }
            any = true;
            i = i + 1;
        }
        proof {
            assert(self@.var == self.variable@);
        }
        if self.variable.power == 0 {
            // the active variable is the empty factor: the coefficients
            // alone, or the literal one when all were skipped
            if !any {
                proof { reveal_strlit("1"); }
                let mut one_str = String::new();
                one_str.append("1");
                proof {
                    assert(one_str@ =~= seq!['1']);
                }
                return one_str;
            }
            return acc;
        }
        let vs = self.variable.to_string();
        let ghost afinal = acc@;
        acc.append(vs.as_str());
        proof {
            if any {
                assert(acc@ =~= afinal + crate::model::var_str(self@.var));
            } else {
                assert(acc@ =~= crate::model::var_str(self@.var));
            }
        }
        acc
    }
}

/// Decides whether two nodes are like terms that can merge.
fn mergeable_exec(x: &Entity, y: &Entity) -> (r: bool)
    ensures
        r == mergeable(x@, y@),
{
    proof {
        crate::rewrite::lemma_mergeable_unfold(x@, y@);
    }
    match (x, y) {
        (Entity::Constant(a), Entity::Constant(b)) => {
            proof {
                lemma_model_constant(*a);
                lemma_model_constant(*b);
            }
            a.can_add_if_collapsed(b)
        },
        (Entity::Variable(a), Entity::Variable(b)) => {
            proof {
                lemma_model_variable(*a);
                lemma_model_variable(*b);
            }
            a.can_add_if_collapsed(b)
        },
        _ => {
            proof {
                match (x, y) {
                    (Entity::Constant(a), Entity::Constant(b)) => {},
                    (Entity::Variable(a), Entity::Variable(b)) => {},
                    _ => {
                        match x {
                            Entity::Constant(a) => { lemma_model_constant(*a); },
                            Entity::Variable(a) => { lemma_model_variable(*a); },
                            Entity::Summation(a) => { lemma_model_summation(*a); },
                            Entity::Multiplication(a) => { lemma_model_multiplication(*a); },
                        }
                        match y {
                            Entity::Constant(a) => { lemma_model_constant(*a); },
                            Entity::Variable(a) => { lemma_model_variable(*a); },
                            Entity::Summation(a) => { lemma_model_summation(*a); },
                            Entity::Multiplication(a) => { lemma_model_multiplication(*a); },
                        }
                    },
                }
            }
            false
        },
    }
}

/// Finds the first mergeable ordered pair, scanning `i` outer and `j` inner
/// from the front.
#[verifier::loop_isolation(false)]
fn find_pair_exec(ts: &Vec<Entity>) -> (r: Option<(usize, usize)>)
    ensures
        match r {
            Some(p) => p.0 < ts@.len() && p.1 < ts@.len() && find_pair_from(
                entity_models(ts@),
                0,
                0,
            ) == Some((p.0 as int, p.1 as int)),
            None => find_pair_from(entity_models(ts@), 0, 0) is None,
        },
{
    let ghost m = entity_models(ts@);
    proof {
        lemma_entity_models(ts@);
    }
    let mut i: usize = 0;
    while i < ts.len()
        invariant
            i <= ts.len(),
            find_pair_from(m, i as int, 0) == find_pair_from(m, 0, 0),
        decreases ts.len() - i,
    {
        let mut j: usize = 0;
        while j < ts.len()
            invariant
                j <= ts.len(),
                i < ts.len(),
                find_pair_from(m, i as int, j as int) == find_pair_from(m, 0, 0),
            decreases ts.len() - j,
        {
            proof {
                crate::rewrite::lemma_find_pair_step(m, i as int, j as int);
            }
            if i != j && mergeable_exec(&ts[i], &ts[j]) {
                return Some((i, j));
            }
            j = j + 1;
        }
        proof {
            crate::rewrite::lemma_find_pair_step(m, i as int, j as int);
        }
        i = i + 1;
    }
    proof {
        crate::rewrite::lemma_find_pair_step(m, i as int, 0);
    }
    None
}

impl SummationFunction {
    /// Builds a summation from its ordered terms.
    pub fn new(terms: Vec<Entity>) -> (r: Self)
        ensures
            r@ == entity_models(terms@),
    {
        SummationFunction { terms }
    }

    /// The kind tag of a summation.
    pub fn get_kind(&self) -> (r: EntityKind)
        ensures
            r == EntityKind::Function,
    {
        EntityKind::Function
    }

    /// Canonicalizes the summation: every term is collapsed, then like
    /// terms are merged to a fixed point, each merged pair replaced by its
    /// sum at the front of the list.
    #[verifier::loop_isolation(false)]
    pub fn collapse(&self) -> (r: Result<Self, ExprError>)
        ensures
            sum_res(r) == collapse_sum(self@),
        decreases *self, 2int,
    {
        let ghost m0 = self@;
        proof {
            crate::rewrite::lemma_collapse_sum_unfold(m0);
            lemma_entity_models(self.terms@);
        }
        let mut cs: Vec<Entity> = Vec::new();
        let mut i: usize = 0;
        proof {
            assert(entity_models(cs@) =~= Seq::<ExprM>::empty());
        }
        while i < self.terms.len()
            invariant
                i <= self.terms.len(),
                m0.len() == self.terms@.len(),
                match collapse_each(m0, i as int) {
                    Ok(rest) => collapse_each(m0, 0) == Ok::<Seq<ExprM>, ExprError>(
                        entity_models(cs@) + rest,
                    ),
                    Err(e) => collapse_each(m0, 0) == Err::<Seq<ExprM>, ExprError>(e),
                },
            decreases self.terms.len() - i,
        {
            proof {
                crate::rewrite::lemma_collapse_each_step(m0, i as int);
                assert(m0[i as int] == entity_model(self.terms@[i as int]));
            }
            match self.terms[i].collapse() {
                Err(e) => {
                    return Err(e);
                },
                Ok(c) => {
                    let ghost cs0 = cs@;
                    cs.push(c);
                    proof {
                        lemma_entity_models(cs@);
                        lemma_entity_models(cs0);
                        assert(entity_models(cs@) =~= entity_models(cs0).push(c@));
                        match collapse_each(m0, i as int + 1) {
                            Ok(rest) => {
                                assert(entity_models(cs0) + (seq![c@] + rest) =~= entity_models(
                                    cs@,
                                ) + rest);
                            },
                            Err(_) => {},
                        }
                    }
                },
            }
            i = i + 1;
        }
        proof {
            crate::rewrite::lemma_collapse_each_step(m0, i as int);
            assert(entity_models(cs@) + Seq::<ExprM>::empty() =~= entity_models(cs@));
        }
        let mut cur = cs;
        let ghost target = collapse_sum(m0);
        loop
            invariant
                merge_loop(entity_models(cur@)) == target,
            decreases cur@.len(),
        {
            let ghost mc = entity_models(cur@);
            proof {
                crate::rewrite::lemma_merge_loop_step(mc);
                lemma_entity_models(cur@);
            }
            match find_pair_exec(&cur) {
                None => {
                    return Ok(SummationFunction { terms: cur });
                },
                Some((i, j)) => {
                    proof {
                        crate::rewrite::lemma_mergeable_unfold(mc[i as int], mc[j as int]);
                    }
                    let merged = match (&cur[i], &cur[j]) {
                        (Entity::Constant(a), Entity::Constant(b)) => {
                            proof {
                                lemma_model_constant(*a);
                                lemma_model_constant(*b);
                            }
                            match a.add(b) {
                                Err(e) => {
                                    return Err(e);
                                },
                                Ok(c) => {
                                    proof { lemma_model_constant(c); }
                                    Entity::Constant(c)
                                },
                            }
                        },
                        (Entity::Variable(a), Entity::Variable(b)) => {
                            proof {
                                lemma_model_variable(*a);
                                lemma_model_variable(*b);
                            }
                            match a.add(b) {
                                Err(e) => {
                                    return Err(e);
                                },
                                Ok(c) => {
                                    proof { lemma_model_variable(c); }
                                    Entity::Variable(c)
                                },
                            }
                        },
                        _ => {
                            proof {
                                assert(false);
                            }
                            return Err(ExprError::KindMismatch);
                        },
                    };
                    proof {
                        assert(add_pair(mc[i as int], mc[j as int]) == Ok::<ExprM, ExprError>(
                            merged@,
                        ));
                    }
                    cur.swap_remove(i);
                    proof {
                        lemma_entity_models(cur@);
                        assert(entity_models(cur@) =~= swap_remove_seq(mc, i as int));
                    }
                    if j < cur.len() {
                        cur.swap_remove(j);
                    } else {
                        cur.swap_remove(i);
                    }
                    proof {
                        lemma_entity_models(cur@);
                        assert(entity_models(cur@) =~= remove_pair(mc, i as int, j as int));
                    }
                    let ghost m2 = entity_models(cur@);
                    cur.insert(0, merged);
                    proof {
                        lemma_entity_models(cur@);
                        assert(entity_models(cur@) =~= seq![merged@] + m2);
                    }
                },
            }
        }
    }

    /// Renders the summation: term renderings joined with ` + `, skipping
    /// terms whose rendering starts with the zero digit.
    #[verifier::loop_isolation(false)]
    pub fn to_str(&self) -> (r: String)
        ensures
            r@ == render(ExprM::Summation(self@)),
        decreases *self, 0int,
    {
        proof {
            crate::model::lemma_render_unfold(ExprM::Summation(self@));
            lemma_entity_models(self.terms@);
        }
        let ghost m = self@;
        let mut acc = String::new();
        let mut any = false;
        let mut i: usize = 0;
        loop
            invariant
                i <= self.terms.len(),
                m.len() == self.terms@.len(),
                crate::model::render_terms(m, 0) == (if any {
                    match crate::model::render_terms(m, i as int) {
                        None => Some(acc@),
                        Some(r2) => Some(acc@ + seq![' ', '+', ' '] + r2),
                    }
                } else {
                    crate::model::render_terms(m, i as int)
                }),
                !any ==> acc@ == Seq::<char>::empty(),
            decreases self.terms.len() - i,
        {
            proof {
                crate::model::lemma_render_terms_step(m, i as int);
            }
            if i == self.terms.len() {
                break;
            }
            let s = self.terms[i].to_str();
            proof {
                assert(s@ == crate::model::render(m[i as int]));
            }
            if str_starts_zero(&s) {
                i = i + 1;
                continue;
            }
            let ghost a0 = acc@;
            if any {
                proof { reveal_strlit(" + "); }
                acc.append(" + ");
            }
            acc.append(s.as_str());
            proof {
                if any {
                    assert(a0 + seq![' ', '+', ' '] + s@ =~= acc@);
                    match crate::model::render_terms(m, i as int + 1) {
                        Some(r2) => {
                            assert((a0 + seq![' ', '+', ' '] + s@) + seq![' ', '+', ' '] + r2
                                =~= a0 + seq![' ', '+', ' '] + (s@ + seq![' ', '+', ' ']
                                + r2));
                        },
                        None => {},
                    }
                } else {
                    assert(acc@ =~= s@);
                }
            }
            any = true;
            i = i + 1;
        }
        proof {
            if !any {
                assert(acc@ =~= Seq::<char>::empty());
            }
        }
        acc
    }

    /// The sum rule: the summation is collapsed, each term differentiated
    /// independently, and the results collapsed again.
    #[verifier::loop_isolation(false)]
    pub fn differentiate(&self) -> (r: Result<Entity, ExprError>)
        ensures
            entity_res(r) == diff_e(ExprM::Summation(self@)),
        decreases 1nat + mu_seq(self@), 1int,
    {
        proof {
            crate::rewrite::lemma_diff_sum(self@);
            crate::rewrite::lemma_fpf_unfold(ExprM::Summation(self@));
        }
        if !entities_product_free(&self.terms) {
            return Err(ExprError::FunctionProduct);
        }
        proof {
            lemma_fpf_seq(self@);
            lemma_collapse_sum_mu(self@);
        }
        let c = match self.collapse() {
            Err(e) => {
                return Err(e);
            },
            Ok(c) => c,
        };
        let ghost cm = c@;
        proof {
            lemma_entity_models(c.terms@);
        }
        let mut ds: Vec<Entity> = Vec::new();
        let mut i: usize = 0;
        proof {
            assert(entity_models(ds@) =~= Seq::<ExprM>::empty());
        }
        while i < c.terms.len()
            invariant
                i <= c.terms.len(),
                cm.len() == c.terms@.len(),
                mu_seq(cm) <= mu_seq(self@),
                match diff_each(cm, i as int) {
                    Ok(rest) => diff_each(cm, 0) == Ok::<Seq<ExprM>, ExprError>(
                        entity_models(ds@) + rest,
                    ),
                    Err(e) => diff_each(cm, 0) == Err::<Seq<ExprM>, ExprError>(e),
                },
            decreases c.terms.len() - i,
        {
            proof {
                crate::rewrite::lemma_diff_each_step(cm, i as int);
                assert(cm[i as int] == entity_model(c.terms@[i as int]));
                crate::rewrite::lemma_mu_seq_index(cm, i as int);
            }
            match c.terms[i].differentiate() {
                Err(e) => {
                    return Err(e);
                },
                Ok(d) => {
                    let ghost ds0 = ds@;
                    ds.push(d);
                    proof {
                        lemma_entity_models(ds@);
                        lemma_entity_models(ds0);
                        assert(entity_models(ds@) =~= entity_models(ds0).push(d@));
                        match diff_each(cm, i as int + 1) {
                            Ok(rest) => {
                                assert(entity_models(ds0) + (seq![d@] + rest) =~= entity_models(
                                    ds@,
                                ) + rest);
                            },
                            Err(_) => {},
                        }
                    }
                },
            }
            i = i + 1;
        }
        proof {
            crate::rewrite::lemma_diff_each_step(cm, i as int);
            assert(entity_models(ds@) + Seq::<ExprM>::empty() =~= entity_models(ds@));
        }
        let temp = SummationFunction { terms: ds };
        match temp.collapse() {
            Err(e) => Err(e),
            Ok(c2) => Ok(Entity::Summation(c2)),
        }
    }
}

impl MultiplicationFunction {
    /// Builds a multiplication from its two operands.
    pub fn new(first: Entity, second: Entity) -> (r: Self)
        ensures
            r@ == (first@, second@),
    {
        MultiplicationFunction { first: Box::new(first), second: Box::new(second) }
    }

    /// The kind tag of a multiplication.
    pub fn get_kind(&self) -> (r: EntityKind)
        ensures
            r == EntityKind::Function,
    {
        EntityKind::Function
    }

    /// Canonicalizes the multiplication: both operands are collapsed;
    /// operands of one kind are folded into the first with the second reset
    /// to the constant one; a zero-rendering operand turns both to zero.
    pub fn collapse(&self) -> (r: Result<Self, ExprError>)
        ensures
            match r {
                Ok(m) => collapse_e(product_model(*self)) == Ok::<ExprM, ExprError>(
                    ExprM::Multiplication(Box::new(m@.0), Box::new(m@.1)),
                ),
                Err(e) => collapse_e(product_model(*self)) == Err::<ExprM, ExprError>(e),
            },
        decreases *self, 2int,
    {
        proof {
            crate::rewrite::lemma_collapse_e_mul(self@.0, self@.1);
        }
        let ca = match self.first.collapse() {
            Err(e) => {
                return Err(e);
            },
            Ok(v) => v,
        };
        let cb = match self.second.collapse() {
            Err(e) => {
                return Err(e);
            },
            Ok(v) => v,
        };
        let k1 = ca.get_kind();
        let k2 = cb.get_kind();
        let (f, s) = if k1 == k2 {
            match (ca, cb) {
                (Entity::Constant(x), Entity::Constant(y)) => {
                    proof {
                        lemma_model_constant(x);
                        lemma_model_constant(y);
                    }
                    match x.multiply(&y) {
                        Err(e) => {
                            return Err(e);
                        },
                        Ok(p) => {
                            proof { lemma_model_constant(p); }
                            let one = ConstantTerm { value: 1, non_wrt_variables: Vec::new() };
                            proof {
                                lemma_model_constant(one);
                                assert(one@ =~= one_m());
                            }
                            (Entity::Constant(p), Entity::Constant(one))
                        },
                    }
                },
                (Entity::Variable(x), Entity::Variable(y)) => {
                    proof {
                        lemma_model_variable(x);
                        lemma_model_variable(y);
                    }
                    match x.multiply(&y) {
                        Err(e) => {
                            return Err(e);
                        },
                        Ok(p) => {
                            proof { lemma_model_variable(p); }
                            let one = ConstantTerm { value: 1, non_wrt_variables: Vec::new() };
                            proof {
                                lemma_model_constant(one);
                                assert(one@ =~= one_m());
                            }
                            (Entity::Variable(p), Entity::Constant(one))
                        },
                    }
                },
                (a, b) => {
                    let pr = MultiplicationFunction { first: Box::new(a), second: Box::new(b) };
                    proof {
                        lemma_model_multiplication(pr);
                    }
                    let one = ConstantTerm { value: 1, non_wrt_variables: Vec::new() };
                    proof {
                        lemma_model_constant(one);
                        assert(one@ =~= one_m());
                    }
                    (Entity::Multiplication(pr), Entity::Constant(one))
                },
            }
        } else {
            (ca, cb)
        };
        let s1 = f.to_str();
        let s2 = s.to_str();
        if str_is_zero(&s1) || str_is_zero(&s2) {
            let z1 = ConstantTerm { value: 0, non_wrt_variables: Vec::new() };
            let z2 = ConstantTerm { value: 0, non_wrt_variables: Vec::new() };
            proof {
                lemma_model_constant(z1);
                lemma_model_constant(z2);
                assert(z1@ =~= zero_m());
                assert(z2@ =~= zero_m());
            }
            let r = MultiplicationFunction {
                first: Box::new(Entity::Constant(z1)),
                second: Box::new(Entity::Constant(z2)),
            };
            Ok(r)
        } else {
            let r = MultiplicationFunction { first: Box::new(f), second: Box::new(s) };
            Ok(r)
        }
    }

    /// Renders the multiplication: an operand rendering as the literal one
    /// is dropped; otherwise the two renderings are joined with `*`.
    pub fn to_str(&self) -> (r: String)
        ensures
            r@ == render(product_model(*self)),
        decreases *self, 0int,
    {
        proof {
            crate::model::lemma_render_unfold(product_model(*self));
        }
        let s1 = self.first.to_str();
        let s2 = self.second.to_str();
        if str_is_one(&s1) {
            s2
        } else if str_is_one(&s2) {
            s1
        } else {
            proof { reveal_strlit("*"); }
            let mut r = s1;
            let ghost r0 = r@;
            r.append("*");
            r.append(s2.as_str());
            proof {
                assert(r@ =~= r0 + seq!['*'] + s2@);
            }
            r
        }
    }

    /// The product rule: the multiplication is collapsed, each collapsed
    /// operand is paired with the derivative of the other, and the two
    /// products are summed and collapsed.
    pub fn differentiate(&self) -> (r: Result<Entity, ExprError>)
        ensures
            entity_res(r) == diff_e(product_model(*self)),
        decreases 1nat + mu(self@.0) + mu(self@.1), 1int,
    {
        proof {
            crate::rewrite::lemma_diff_mul(self@.0, self@.1);
            crate::rewrite::lemma_fpf_unfold(product_model(*self));
        }
        let k1 = self.first.get_kind();
        let k2 = self.second.get_kind();
        if k1 == EntityKind::Function && k2 == EntityKind::Function {
            return Err(ExprError::FunctionProduct);
        }
        let pf = self.first.product_free() && self.second.product_free();
        if !pf {
            return Err(ExprError::FunctionProduct);
        }
        proof {
            crate::rewrite::lemma_collapse_mu(product_model(*self));
            crate::rewrite::lemma_fpf_mul(self@.0, self@.1);
        }
        let cm = match self.collapse() {
            Err(e) => {
                return Err(e);
            },
            Ok(v) => v,
        };
        proof {
            crate::rewrite::lemma_fpf_mul(cm@.0, cm@.1);
        }
        let MultiplicationFunction { first, second } = cm;
        let df = match first.differentiate() {
            Err(e) => {
                return Err(e);
            },
            Ok(v) => v,
        };
        let ds = match second.differentiate() {
            Err(e) => {
                return Err(e);
            },
            Ok(v) => v,
        };
        let n1 = MultiplicationFunction { first, second: Box::new(ds) };
        proof {
            lemma_model_multiplication(n1);
        }
        let n2 = MultiplicationFunction { first: second, second: Box::new(df) };
        proof {
            lemma_model_multiplication(n2);
        }
        let mut terms: Vec<Entity> = Vec::new();
        terms.push(Entity::Multiplication(n1));
        terms.push(Entity::Multiplication(n2));
        let temp = SummationFunction { terms };
        proof {
            lemma_entity_models(temp.terms@);
            assert(temp@ =~= seq![entity_model(temp.terms@[0]), entity_model(temp.terms@[1])]);
        }
        match temp.collapse() {
            Err(e) => Err(e),
            Ok(c2) => Ok(Entity::Summation(c2)),
        }
    }
}

/// Builds a bare constant with no incidental variables.
pub fn create_number(number: i64) -> (r: Entity)
    ensures
        r@ == ExprM::Constant(ConstM { value: number as int, vars: Seq::empty() }),
{
    let c = ConstantTerm { value: number, non_wrt_variables: Vec::new() };
    proof {
        lemma_model_constant(c);
        assert(c@ =~= (ConstM { value: number as int, vars: Seq::empty() }));
    }
    Entity::Constant(c)
}

/// Builds a bare variable term with an empty coefficient list.
pub fn create_variable(name: &str, power: i64) -> (r: Entity)
    ensures
        r@ == ExprM::Variable(
            VarTermM { var: VarM { name: name@, power: power as int }, coeffs: Seq::empty() },
        ),
{
    let t = VariableTerm {
        variable: VariableEntity {
            variable: VariableIdentifier { name: name.to_owned() },
            power,
        },
        coeffs: Vec::new(),
    };
    proof {
        lemma_model_variable(t);
        lemma_entity_models(t.coeffs@);
        assert(t@ =~= (VarTermM {
            var: VarM { name: name@, power: power as int },
            coeffs: Seq::empty(),
        }));
    }
    Entity::Variable(t)
}

/// A term that can present itself as a variable term.
pub trait TermEntity {
    /// The variable-term model that `compute_result` promises to produce.
    spec fn result_model(&self) -> VarTermM;

    /// Re-expresses the term as a variable term.
    fn compute_result(&self) -> (r: VariableTerm)
        ensures
            r@ == self.result_model(),
    ;
}

impl TermEntity for ConstantTerm {
    /// A constant re-expressed over an unnamed active variable with exponent
    /// zero and itself as the only coefficient.
    open spec fn result_model(&self) -> VarTermM {
        VarTermM {
            var: VarM { name: Seq::empty(), power: 0 },
            coeffs: seq![ExprM::Constant(self@)],
        }
    }

    fn compute_result(&self) -> (r: VariableTerm) {
        let mut cs: Vec<Entity> = Vec::new();
        cs.push(Entity::Constant(self.duplicate()));
        let r = VariableTerm {
            variable: VariableEntity {
                variable: VariableIdentifier { name: String::new() },
                power: 0,
            },
            coeffs: cs,
        };
        proof {
            lemma_entity_models(r.coeffs@);
            assert(r@.coeffs =~= seq![ExprM::Constant(self@)]);
            assert(r@ =~= self.result_model());
        }
        r
    }
}

impl TermEntity for VariableTerm {
    /// A variable term already is one.
    open spec fn result_model(&self) -> VarTermM {
        self@
    }

    fn compute_result(&self) -> (r: VariableTerm) {
        self.duplicate()
    }
}

/// The marker for composite nodes that combine sub-expressions.
pub trait Function {

}

impl Function for SummationFunction {

}

impl Function for MultiplicationFunction {

}

/// The shared state of one differentiation run: the variable that the whole
/// expression is differentiated with respect to.
#[derive(Debug)]
pub struct DataState {
    variable_wrt: VariableIdentifier,
}

impl View for DataState {
    type V = Seq<char>;

    closed spec fn view(&self) -> Seq<char> {
        self.variable_wrt@
    }
}

impl DataState {
    /// Fixes the differentiation variable.
    pub fn new(variable_wrt: VariableIdentifier) -> (r: Self)
        ensures
            r@ == variable_wrt@,
    {
        DataState { variable_wrt }
    }
}

} // verus!
