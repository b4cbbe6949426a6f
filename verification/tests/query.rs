use diesel_d1::backend::{D1Backend, D1Type, DeclaredType};
use diesel_d1::bind_collector::D1BindCollector;
use diesel_d1::limit_offset::{BoxedLimitOffsetClause, LimitOffsetClause};
use diesel_d1::query_builder::D1QueryBuilder;
use diesel_d1::statement::{render_statement, Fragment};
use diesel_d1::types::D1Scalar;
use diesel_d1::value::TypedValue;
use diesel_d1::date_and_time::D1Date;
use diesel_d1::utils::{AdapterError, EncodeError};

#[test]
fn identifier_quoting_doubles_backticks() {
    let mut qb = D1QueryBuilder::new();
    qb.push_identifier("a`b").unwrap();
    assert_eq!(qb.finish(), "`a``b`");
}

#[test]
fn identifier_quoting_wraps_safe_identifiers() {
    let mut qb = D1QueryBuilder::new();
    qb.push_identifier("users").unwrap();
    assert_eq!(qb.finish(), "`users`");
}

#[test]
fn builder_accumulates_raw_sql_and_placeholders() {
    let mut qb = D1QueryBuilder::new();
    qb.push_sql("SELECT * FROM ");
    qb.push_identifier("t").unwrap();
    qb.push_sql(" WHERE id = ");
    qb.push_bind_param();
    assert_eq!(qb.finish(), "SELECT * FROM `t` WHERE id = ?");
}

#[test]
fn limit_offset_no_clause_emits_nothing() {
    let mut qb = D1QueryBuilder::new();
    let mut binds = D1BindCollector::new();
    let clause = BoxedLimitOffsetClause { limit: None, offset: None };
    clause.walk_ast(&mut qb, &mut binds).unwrap();
    assert_eq!(qb.finish(), "");
    assert!(binds.binds.is_empty());
}

#[test]
fn limit_offset_limit_only_emits_limit_clause() {
    let mut qb = D1QueryBuilder::new();
    let mut binds = D1BindCollector::new();
    let clause = BoxedLimitOffsetClause { limit: Some(5), offset: None };
    clause.walk_ast(&mut qb, &mut binds).unwrap();
    assert_eq!(qb.finish(), " LIMIT ?");
    assert_eq!(binds.binds, vec![(TypedValue::Integer(5), D1Type::Integer)]);
}

#[test]
fn limit_offset_offset_only_emits_unbounded_sentinel() {
    let mut qb = D1QueryBuilder::new();
    let mut binds = D1BindCollector::new();
    let clause = BoxedLimitOffsetClause { limit: None, offset: Some(10) };
    clause.walk_ast(&mut qb, &mut binds).unwrap();
    assert_eq!(qb.finish(), " LIMIT -1  OFFSET ?");
    assert_eq!(binds.binds, vec![(TypedValue::Integer(10), D1Type::Integer)]);
}

#[test]
fn limit_offset_both_emits_limit_then_offset() {
    let mut qb = D1QueryBuilder::new();
    let mut binds = D1BindCollector::new();
    let clause = BoxedLimitOffsetClause { limit: Some(5), offset: Some(10) };
    clause.walk_ast(&mut qb, &mut binds).unwrap();
    assert_eq!(qb.finish(), " LIMIT ? OFFSET ?");
    assert_eq!(
        binds.binds,
        vec![
            (TypedValue::Integer(5), D1Type::Integer),
            (TypedValue::Integer(10), D1Type::Integer),
        ]
    );
}

#[test]
fn static_and_boxed_limit_offset_render_alike() {
    let cases = [
        LimitOffsetClause::NoClause,
        LimitOffsetClause::LimitOnly(5),
        LimitOffsetClause::OffsetOnly(10),
        LimitOffsetClause::Both(5, 10),
    ];
    for c in cases {
        let mut qb1 = D1QueryBuilder::new();
        let mut b1 = D1BindCollector::new();
        c.walk_ast(&mut qb1, &mut b1).unwrap();
        let mut qb2 = D1QueryBuilder::new();
        let mut b2 = D1BindCollector::new();
        c.into_boxed().walk_ast(&mut qb2, &mut b2).unwrap();
        assert_eq!(qb1.finish(), qb2.finish());
        assert_eq!(b1.binds, b2.binds);
    }
}

#[test]
fn bind_collector_keeps_push_order_and_tags() {
    let mut binds = D1BindCollector::new();
    binds.push_bound_value(&D1Scalar::Bool(true), DeclaredType::Bool).unwrap();
    binds.push_bound_value(&D1Scalar::Text(String::from("x")), DeclaredType::Text).unwrap();
    binds.push_bound_value(&D1Scalar::Null, DeclaredType::Double).unwrap();
    assert_eq!(
        binds.binds,
        vec![
            (TypedValue::Integer(1), D1Type::Integer),
            (TypedValue::Text(String::from("x")), D1Type::Text),
            (TypedValue::Null, D1Type::Double),
        ]
    );
}

#[test]
fn metadata_maps_declared_types_to_wire_tags() {
    assert_eq!(D1Backend::metadata(DeclaredType::Bool), D1Type::Integer);
    assert_eq!(D1Backend::metadata(DeclaredType::BigInt), D1Type::Integer);
    assert_eq!(D1Backend::metadata(DeclaredType::Float), D1Type::Double);
    assert_eq!(D1Backend::metadata(DeclaredType::Binary), D1Type::Binary);
    assert_eq!(D1Backend::metadata(DeclaredType::Timestamp), D1Type::Text);
}

#[test]
fn rendered_statement_has_one_bind_per_placeholder() {
    let fragments = vec![
        Fragment::Raw(String::from("UPDATE ")),
        Fragment::Identifier(String::from("t")),
        Fragment::Raw(String::from(" SET a = ")),
        Fragment::Bind(D1Scalar::Integer(1), DeclaredType::Integer),
        Fragment::Raw(String::from(" WHERE b = ")),
        Fragment::Bind(D1Scalar::Text(String::from("k")), DeclaredType::Text),
    ];
    let st = render_statement(&fragments).unwrap();
    assert_eq!(st.sql, "UPDATE `t` SET a = ? WHERE b = ?");
    let placeholders = st.sql.chars().filter(|c| *c == '?').count();
    assert_eq!(st.binds.len(), placeholders);
    assert_eq!(st.binds[0], (TypedValue::Integer(1), D1Type::Integer));
    assert_eq!(st.binds[1], (TypedValue::Text(String::from("k")), D1Type::Text));
}

#[test]
fn rendered_statement_rejects_malformed_binds_whole() {
    let fragments = vec![
        Fragment::Raw(String::from("INSERT INTO t VALUES (")),
        Fragment::Bind(
            D1Scalar::Date(D1Date { year: 2023, month: 13, day: 1 }),
            DeclaredType::Date,
        ),
        Fragment::Raw(String::from(")")),
    ];
    assert!(matches!(
        render_statement(&fragments),
        Err(AdapterError::Encode(EncodeError::MalformedScalar))
    ));
}
