use symdiff::entity::{
    create_number, create_variable, ConstantTerm, DataState, Entity, MultiplicationFunction,
    SummationFunction, TermEntity, VariableEntity, VariableIdentifier, VariableTerm,
};
use symdiff::model::{EntityKind, ExprError};

fn var(name: &str, power: i64) -> VariableEntity {
    VariableEntity::new(VariableIdentifier::new(name.to_string()), power)
}

#[test]
fn constant_derivative_renders_zero() {
    for c in [-7i64, 0, 1, 42] {
        let d = create_number(c).differentiate().unwrap();
        assert_eq!(d.to_str(), "0");
    }
}

#[test]
fn power_rule_general() {
    let d = create_variable("x", 4).differentiate().unwrap();
    assert_eq!(d.to_str(), "4x^3");
    let d = create_variable("x", 2).differentiate().unwrap();
    assert_eq!(d.to_str(), "2x");
    let d = create_variable("x", -3).differentiate().unwrap();
    assert_eq!(d.to_str(), "-3x^-4");
}

#[test]
fn power_rule_zero_exponent() {
    let d = create_variable("x", 0).differentiate().unwrap();
    assert_eq!(d.to_str(), "0");
}

#[test]
fn power_rule_exponent_one() {
    // the power-zero variable is the empty factor, so the derivative is a
    // constant one
    let d = create_variable("x", 1).differentiate().unwrap();
    assert_eq!(d.to_str(), "1");
}

#[test]
fn power_rule_exponent_one_with_coefficient() {
    let t = VariableTerm::new(var("x", 1), vec![create_number(5)]);
    let d = t.differentiate().unwrap();
    assert_eq!(d.to_str(), "5");
}

#[test]
fn product_rule_concrete() {
    let f = MultiplicationFunction::new(create_variable("x", 3), create_variable("x", 2));
    let df = f.differentiate().unwrap();
    assert_eq!(df.to_str(), "5x^4");
    let straight = create_variable("x", 5).differentiate().unwrap();
    assert_eq!(df.to_str(), straight.to_str());
}

#[test]
fn sum_rule_concrete() {
    let s = SummationFunction::new(vec![create_variable("x", 3), create_variable("x", 2)]);
    let ds = s.differentiate().unwrap();
    assert_eq!(ds.to_str(), "3x^2 + 2x");
}

#[test]
fn simplify_is_idempotent_on_a_sum() {
    let s = SummationFunction::new(vec![
        create_number(2),
        create_number(3),
        create_variable("x", 1),
    ]);
    let once = s.collapse().unwrap();
    let twice = once.collapse().unwrap();
    assert_eq!(once.to_str(), twice.to_str());
    assert_eq!(once.to_str(), "5 + x");
}

#[test]
fn zero_absorption_in_a_product() {
    let m = MultiplicationFunction::new(create_number(0), create_variable("x", 2));
    let c = m.collapse().unwrap();
    assert_eq!(c.to_str(), "0*0");
}

#[test]
fn merge_soundness_for_constant_terms() {
    let a = ConstantTerm::new(2, vec![var("y", 1)]);
    let b = ConstantTerm::new(3, vec![var("y", 1)]);
    let s = SummationFunction::new(vec![Entity::Constant(a), Entity::Constant(b)]);
    let c = s.collapse().unwrap();
    assert_eq!(c.to_str(), "5*y");
}

#[test]
fn constants_with_different_variables_do_not_merge() {
    let a = ConstantTerm::new(2, vec![var("y", 1)]);
    let b = ConstantTerm::new(3, vec![var("z", 1)]);
    let s = SummationFunction::new(vec![Entity::Constant(a), Entity::Constant(b)]);
    let c = s.collapse().unwrap();
    assert_eq!(c.to_str(), "2*y + 3*z");
}

#[test]
fn constant_collapse_groups_and_sorts() {
    let c = ConstantTerm::new(4, vec![var("z", 2), var("a", 1), var("z", 3)]);
    let cc = c.collapse().unwrap();
    assert_eq!(cc.to_str(), "4*a*z^5");
}

#[test]
fn constant_collapse_keeps_zero_exponents() {
    let c = ConstantTerm::new(4, vec![var("z", 2), var("z", -2)]);
    let cc = c.collapse().unwrap();
    assert_eq!(cc.to_str(), "4*z^0");
}

#[test]
fn mixed_variables_are_rejected() {
    let t = VariableTerm::new(var("x", 2), vec![create_variable("y", 1)]);
    assert_eq!(t.collapse().unwrap_err(), ExprError::MixedVariables);
}

#[test]
fn incompatible_constant_terms_are_rejected() {
    let a = ConstantTerm::new(2, vec![var("y", 1)]);
    let b = ConstantTerm::new(3, vec![]);
    assert_eq!(a.add(&b).unwrap_err(), ExprError::IncompatibleTerms);
    assert_eq!(a.multiply(&b).unwrap_err(), ExprError::IncompatibleTerms);
}

#[test]
fn adding_terms_without_a_trailing_constant_is_rejected() {
    let a = VariableTerm::new(var("x", 1), vec![]);
    let b = VariableTerm::new(var("x", 1), vec![]);
    assert_eq!(a.add(&b).unwrap_err(), ExprError::KindMismatch);
}

#[test]
fn overflow_is_reported() {
    let a = ConstantTerm::new(i64::MAX, vec![]);
    let b = ConstantTerm::new(1, vec![]);
    assert_eq!(a.add(&b).unwrap_err(), ExprError::Overflow);
}

#[test]
fn product_of_two_composites_is_rejected() {
    let s1 = SummationFunction::new(vec![create_variable("x", 1)]);
    let s2 = SummationFunction::new(vec![create_variable("x", 2)]);
    let m = MultiplicationFunction::new(Entity::Summation(s1), Entity::Summation(s2));
    assert_eq!(m.differentiate().unwrap_err(), ExprError::FunctionProduct);
}

#[test]
fn composite_product_inside_a_coefficient_list_is_accepted() {
    // the product of two summations sits in a coefficient list, where the
    // power rule copies it verbatim; only a product on the differentiation
    // path itself is rejected
    let s1 = Entity::Summation(SummationFunction::new(vec![create_variable("x", 1)]));
    let s2 = Entity::Summation(SummationFunction::new(vec![create_variable("x", 3)]));
    let m = Entity::Multiplication(MultiplicationFunction::new(s1, s2));
    let t = VariableTerm::new(var("x", 2), vec![m]);
    let s = SummationFunction::new(vec![Entity::Variable(t)]);
    let ds = s.differentiate().unwrap();
    assert_eq!(ds.to_str(), "x*x^3*2x");
}

#[test]
fn rendering_numbers() {
    assert_eq!(create_number(-12).to_str(), "-12");
    assert_eq!(create_number(i64::MIN).to_str(), "-9223372036854775808");
    assert_eq!(create_number(i64::MAX).to_str(), "9223372036854775807");
}

#[test]
fn rendering_skips_ones_and_zero_terms() {
    let m = MultiplicationFunction::new(create_number(1), create_variable("x", 2));
    assert_eq!(m.to_str(), "x^2");
    let s = SummationFunction::new(vec![create_number(0), create_number(2)]);
    assert_eq!(s.to_str(), "2");
}

#[test]
fn variable_entity_to_string() {
    assert_eq!(var("y", 1).to_string(), "y");
    assert_eq!(var("y", 5).to_string(), "y^5");
    assert_eq!(var("y", -2).to_string(), "y^-2");
    assert!(var("y", 3) == var("y", 3));
    assert!(!(var("y", 3) == var("y", 4)));
    assert!(!(var("y", 3) == var("z", 3)));
}

#[test]
fn kind_tags() {
    assert_eq!(create_number(1).get_kind(), EntityKind::Constant);
    assert_eq!(create_variable("x", 1).get_kind(), EntityKind::Variable);
    let s = SummationFunction::new(vec![]);
    assert_eq!(Entity::Summation(s).get_kind(), EntityKind::Function);
    let m = MultiplicationFunction::new(create_number(1), create_number(2));
    assert_eq!(Entity::Multiplication(m).get_kind(), EntityKind::Function);
}

#[test]
fn variable_terms_merge_by_variable_and_coefficients() {
    let a = VariableTerm::new(var("x", 2), vec![create_number(3)]);
    let b = VariableTerm::new(var("x", 2), vec![create_number(8)]);
    assert!(a.can_add_if_collapsed(&b));
    assert!(a.equal_coeffs(&b));
    let sum = a.add(&b).unwrap();
    assert_eq!(sum.to_str(), "11x^2");
    let c = VariableTerm::new(var("x", 3), vec![create_number(8)]);
    assert!(!a.can_add_if_collapsed(&c));
}

#[test]
fn variable_term_multiply_accumulates_exponents() {
    let a = VariableTerm::new(var("x", 3), vec![]);
    let b = VariableTerm::new(var("x", 2), vec![create_number(4)]);
    let p = a.multiply(&b).unwrap();
    assert_eq!(p.to_str(), "4x^5");
}

#[test]
fn variable_term_collapse_folds_nested_variables() {
    let t = VariableTerm::new(var("x", 2), vec![create_variable("x", 3), create_number(5)]);
    let c = t.collapse().unwrap();
    assert_eq!(c.to_str(), "5x^5");
}

#[test]
fn compute_result_views_terms_as_variable_terms() {
    let t = VariableTerm::new(var("x", 2), vec![create_number(3)]);
    assert_eq!(t.compute_result().to_str(), t.to_str());
    let c = ConstantTerm::new(7, vec![]);
    // a constant becomes a term over an unnamed variable with exponent
    // zero, which is the empty factor
    assert_eq!(c.compute_result().to_str(), "7");
}

#[test]
fn duplicate_copies_structurally() {
    let s = SummationFunction::new(vec![create_variable("x", 3), create_number(2)]);
    let e = Entity::Summation(s);
    let d = e.duplicate();
    assert_eq!(d.to_str(), e.to_str());
}

#[test]
fn data_state_holds_the_differentiation_variable() {
    let _state = DataState::new(VariableIdentifier::new("x".to_string()));
}

#[test]
fn driver_expression() {
    let f = MultiplicationFunction::new(create_variable("x", 3), create_variable("x", 2));
    let df = f.differentiate().unwrap();
    assert_eq!(format!("\nOutput1: {}\n\n", df.to_str()), "\nOutput1: 5x^4\n\n");
}
