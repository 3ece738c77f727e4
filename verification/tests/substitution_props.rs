use dimtypes::substitutions::{ApplySubstitution, Substitution, SubstitutionError};
use dimtypes::typed_ast::{DType, DTypeFactor, Expression, Statement, StructInfo, Type, TypeVariable};

fn tv(n: u64) -> TypeVariable {
    TypeVariable(n)
}

#[test]
fn lookup_after_single_finds_the_binding() {
    let sub = Substitution::single(tv(1), Type::Boolean);
    assert_eq!(sub.lookup(&tv(1)), Some(&Type::Boolean));
    assert_eq!(sub.lookup(&tv(2)), None);
}

#[test]
fn lookup_in_empty_substitution_is_unbound() {
    let sub = Substitution::empty();
    assert_eq!(sub.lookup(&tv(0)), None);
}

#[test]
fn first_binding_is_authoritative() {
    let mut sub = Substitution(vec![(tv(1), Type::Boolean), (tv(1), Type::String)]);
    assert_eq!(sub.lookup(&tv(1)), Some(&Type::Boolean));
    sub.extend(Substitution::single(tv(9), Type::DateTime));
    assert_eq!(sub.lookup(&tv(1)), Some(&Type::Boolean));
}

#[test]
fn composition_matches_sequential_application() {
    // s1 maps a to b, s2 maps b to Boolean: after composing, a resolves to
    // Boolean in one pass.
    let a = tv(1);
    let b = tv(2);
    let t = Type::Fn(
        vec![Type::TVar(a), Type::List(Box::new(Type::TVar(b)))],
        Box::new(Type::TVar(a)),
    );

    let s1 = Substitution::single(a, Type::TVar(b));
    let s2 = Substitution::single(b, Type::Boolean);

    let mut sequential = t.clone();
    sequential.apply(&s1).unwrap();
    sequential.apply(&s2).unwrap();

    let mut composed_sub = s1;
    composed_sub.extend(s2);
    let mut one_pass = t.clone();
    one_pass.apply(&composed_sub).unwrap();

    assert_eq!(one_pass, sequential);
    assert_eq!(
        one_pass,
        Type::Fn(
            vec![Type::Boolean, Type::List(Box::new(Type::Boolean))],
            Box::new(Type::Boolean),
        )
    );
}

#[test]
fn applying_unrelated_substitution_is_a_no_op() {
    let bound = tv(7);
    let free = tv(8);
    let t = Type::Struct(StructInfo {
        name: "point".to_string(),
        fields: vec![
            ("x".to_string(), Type::TVar(free)),
            ("y".to_string(), Type::List(Box::new(Type::DateTime))),
        ],
    });
    let sub = Substitution::single(bound, Type::Boolean);
    let mut applied = t.clone();
    applied.apply(&sub).unwrap();
    assert_eq!(applied, t);
}

#[test]
fn applying_unrelated_substitution_to_a_statement_is_a_no_op() {
    let bound = tv(20);
    let free = tv(21);
    let sub = Substitution::single(bound, Type::Boolean);
    let build = || {
        Statement::DefineDerivedUnit(
            "speed".to_string(),
            Expression::Identifier("v".to_string(), Type::TVar(free)),
            Type::TVar(free),
        )
    };
    let mut applied = build();
    applied.apply(&sub).unwrap();
    assert_eq!(applied, build());
}

#[test]
fn function_type_parameters_and_return_are_substituted() {
    // Applying {a -> Boolean} to fn([a]) -> a yields fn([Boolean]) -> Boolean.
    let a = tv(3);
    let sub = Substitution::single(a, Type::Boolean);
    let mut t = Type::Fn(vec![Type::TVar(a)], Box::new(Type::TVar(a)));
    t.apply(&sub).unwrap();
    assert_eq!(t, Type::Fn(vec![Type::Boolean], Box::new(Type::Boolean)));
}

#[test]
fn dimension_variable_resolved_to_dimension_is_spliced() {
    let a = tv(4);
    let metre = DTypeFactor::BaseDimension("length".to_string(), 1);
    let second = DTypeFactor::BaseDimension("time".to_string(), -1);
    let sub = Substitution::single(
        a,
        Type::Dimension(DType { factors: vec![metre.clone()] }),
    );
    let mut t = Type::Dimension(DType { factors: vec![second.clone(), DTypeFactor::TVar(a)] });
    t.apply(&sub).unwrap();
    assert_eq!(t, Type::Dimension(DType { factors: vec![second, metre] }));
}

#[test]
fn dimension_variable_resolved_to_non_dimension_fails() {
    let a = tv(5);
    let sub = Substitution::single(a, Type::Boolean);
    let original = Type::Dimension(DType { factors: vec![DTypeFactor::TVar(a)] });
    let mut t = original.clone();
    let err = t.apply(&sub).unwrap_err();
    assert_eq!(
        err,
        SubstitutionError::SubstitutedNonDTypeWithinDType(Type::Boolean)
    );
    // Application is all-or-nothing: the node is unchanged on failure.
    assert_eq!(t, original);
}

#[test]
fn unbound_dimension_variable_is_kept() {
    let a = tv(6);
    let sub = Substitution::empty();
    let mut t = Type::Dimension(DType { factors: vec![DTypeFactor::TVar(a)] });
    t.apply(&sub).unwrap();
    assert_eq!(t, Type::Dimension(DType { factors: vec![DTypeFactor::TVar(a)] }));
}

#[test]
fn expressions_are_substituted_throughout() {
    let a = tv(10);
    let sub = Substitution::single(a, Type::String);
    let mut e = Expression::BinaryOperator(
        Box::new(Expression::Identifier("x".to_string(), Type::TVar(a))),
        Box::new(Expression::Scalar(2, Type::TVar(a))),
        Type::TVar(a),
    );
    e.apply(&sub).unwrap();
    assert_eq!(
        e,
        Expression::BinaryOperator(
            Box::new(Expression::Identifier("x".to_string(), Type::String)),
            Box::new(Expression::Scalar(2, Type::String)),
            Type::String,
        )
    );
}

#[test]
fn expression_error_aborts_and_leaves_the_node_unchanged() {
    let a = tv(11);
    let sub = Substitution::single(a, Type::String);
    let original = Expression::FunctionCall(
        "speed".to_string(),
        vec![
            Expression::Identifier("d".to_string(), Type::Boolean),
            Expression::Identifier(
                "t".to_string(),
                Type::Dimension(DType { factors: vec![DTypeFactor::TVar(a)] }),
            ),
        ],
        Type::TVar(a),
    );
    let mut e = clone_expr(&original);
    let err = e.apply(&sub).unwrap_err();
    assert_eq!(
        err,
        SubstitutionError::SubstitutedNonDTypeWithinDType(Type::String)
    );
    assert_eq!(e, original);
}

// Expressions do not implement `Clone`; applying the empty substitution
// rebuilds an equal expression.
fn clone_expr(e: &Expression) -> Expression {
    dimtypes::substitutions::subst_expr(e, &Substitution::empty()).unwrap()
}

#[test]
fn statements_are_substituted_throughout() {
    let a = tv(12);
    let sub = Substitution::single(a, Type::DateTime);
    let mut st = Statement::DefineFunction(
        "now_plus".to_string(),
        vec![("offset".to_string(), Type::TVar(a))],
        Some(Expression::Identifier("offset".to_string(), Type::TVar(a))),
        Type::TVar(a),
    );
    st.apply(&sub).unwrap();
    assert_eq!(
        st,
        Statement::DefineFunction(
            "now_plus".to_string(),
            vec![("offset".to_string(), Type::DateTime)],
            Some(Expression::Identifier("offset".to_string(), Type::DateTime)),
            Type::DateTime,
        )
    );
}

#[test]
fn struct_metadata_fields_are_substituted() {
    let a = tv(13);
    let sub = Substitution::single(a, Type::Boolean);
    let mut st = Statement::DefineStruct(StructInfo {
        name: "flagged".to_string(),
        fields: vec![("flag".to_string(), Type::TVar(a))],
    });
    st.apply(&sub).unwrap();
    assert_eq!(
        st,
        Statement::DefineStruct(StructInfo {
            name: "flagged".to_string(),
            fields: vec![("flag".to_string(), Type::Boolean)],
        })
    );
}
