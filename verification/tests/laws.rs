use helios_exec::acl_views::{
    pg_authid_columns, pg_authid_rows, pg_roles_columns, pg_roles_rows, pg_user_columns, pg_user_rows,
    psql_du_columns, psql_du_rows, role_table_grants_rows, table_privileges_columns,
    table_privileges_rows, AclRecord, Catalog, RoleRecord,
};
use helios_exec::compare::{compare_direct_values, compare_values};
use helios_exec::evaluator::Evaluator;
use helios_exec::executor::filter::{DirectCompareOp, DirectFilterPredicate};
use helios_exec::executor::join_table::{JoinKey, JoinTable};
use helios_exec::executor::operator::PhysicalOperator;
use helios_exec::executor::scan::{GenerateSeriesOperator, VectorScanOperator};
use helios_exec::executor::set_ops::{count_rows_with, pick_rows, SetOperation};
use helios_exec::executor::table_function::build_table_function_schema;
use helios_exec::executor::window::plan_window;
use helios_exec::logical_plan::{BinaryOperator, LogicalExpr, UnaryOperator};
use helios_exec::parsing::{day_midnight, timestamp_day};
use helios_exec::schema::{Column, Schema, Tuple};
use helios_exec::text::Order;
use helios_exec::value::{DataType, Value};
use std::sync::Arc;

fn text(s: &str) -> Value {
    Value::String(s.to_string())
}

fn role(name: &str, can_log_in: bool) -> RoleRecord {
    RoleRecord {
        oid: 99,
        name: name.to_string(),
        rolsuper: false,
        rolinherit: true,
        rolcreaterole: false,
        rolcreatedb: false,
        rolcanlogin: can_log_in,
        rolreplication: false,
        rolbypassrls: false,
        rolconnlimit: 7,
        rolvaliduntil: None,
        password: Some("hidden".to_string()),
    }
}

fn catalog() -> Catalog {
    Catalog {
        roles: vec![role("ann", true), role("group", false)],
        acls: vec![AclRecord {
            object_type: "table".to_string(),
            object_name: "sales.orders".to_string(),
            grantee: "ann".to_string(),
            grantor: "helios".to_string(),
            privileges: vec![("SELECT".to_string(), true), ("INSERT".to_string(), false)],
        }],
    }
}

fn schema() -> Arc<Schema> {
    Arc::new(Schema {
        columns: vec![Column::new("a", DataType::Int4), Column::new("b", DataType::Text)],
    })
}

fn col(name: &str) -> LogicalExpr {
    LogicalExpr::Column { table: None, name: name.to_string() }
}

fn lit(v: Value) -> LogicalExpr {
    LogicalExpr::Literal(v)
}

fn bin(left: LogicalExpr, op: BinaryOperator, right: LogicalExpr) -> LogicalExpr {
    LogicalExpr::BinaryExpr { left: Box::new(left), op, right: Box::new(right) }
}

fn rows() -> Vec<Tuple> {
    vec![
        Tuple::new(vec![Value::Int4(1), text("x")]),
        Tuple::new(vec![Value::Int4(2), Value::Null]),
        Tuple::new(vec![Value::Null, text("y")]),
    ]
}

fn shown(r: Result<Value, helios_exec::schema::Error>) -> String {
    match r {
        Ok(v) => format!("{:?}", v),
        Err(e) => e.to_string(),
    }
}

#[test]
fn no_view_shows_a_password() {
    let c = catalog();
    for view in [pg_roles_rows(&c), pg_user_rows(&c), pg_authid_rows(&c), psql_du_rows(&c)] {
        for t in &view {
            assert!(!t.values.contains(&text("hidden")));
        }
    }
    let masked = pg_roles_rows(&c).iter().filter(|t| t.values.contains(&text("********"))).count();
    assert_eq!(masked, 2);
}

#[test]
fn roles_are_shown_behind_the_built_in_ones() {
    let c = catalog();
    let names: Vec<Value> = pg_roles_rows(&c).iter().map(|t| t.values[1].clone()).collect();
    assert_eq!(names, vec![text("postgres"), text("helios"), text("ann"), text("group")]);
    assert_eq!(pg_roles_rows(&c)[0].values.len(), pg_roles_columns().len());
    assert_eq!(psql_du_rows(&c)[0].values.len(), psql_du_columns().len());
}

#[test]
fn users_are_the_roles_that_can_log_in() {
    let names: Vec<Value> = pg_user_rows(&catalog()).iter().map(|t| t.values[0].clone()).collect();
    assert_eq!(names, vec![text("postgres"), text("helios"), text("ann")]);
    assert_eq!(pg_user_rows(&catalog())[0].values.len(), pg_user_columns().len());
}

#[test]
fn only_grants_that_are_stored_are_shown() {
    let c = catalog();
    let found = table_privileges_rows(&c);
    assert_eq!(found.len(), 2);
    assert_eq!(found[0].values.len(), table_privileges_columns().len());
    assert!(found[0].values.contains(&text("SELECT")) && found[0].values.contains(&text("YES")));
    assert!(found[1].values.contains(&text("INSERT")) && found[1].values.contains(&text("NO")));
    assert_eq!(role_table_grants_rows(&c).len(), 2);
    assert_eq!(table_privileges_rows(&Catalog { roles: Vec::new(), acls: Vec::new() }).len(), 0);
}

#[test]
fn a_reversed_comparison_compares_the_other_way() {
    let values = [Value::Int4(1), Value::Int8(2), Value::Null, text("a")];
    for op in [BinaryOperator::Lt, BinaryOperator::LtEq, BinaryOperator::Eq, BinaryOperator::NotEq] {
        let direct = DirectCompareOp::try_from_binary_op(op).unwrap_or_else(|| panic!("no comparison"));
        for a in &values {
            for b in &values {
                assert_eq!(direct.matches(a, b), direct.reversed().matches(b, a));
            }
        }
    }
    assert!(DirectCompareOp::try_from_binary_op(BinaryOperator::Plus).is_none());
}

#[test]
fn the_direct_form_of_a_filter_agrees_with_the_evaluator() {
    let evaluator = Evaluator::new(schema());
    let predicates = vec![
        bin(col("a"), BinaryOperator::Gt, lit(Value::Int4(1))),
        bin(lit(Value::Int8(2)), BinaryOperator::GtEq, col("a")),
        LogicalExpr::IsNull { expr: Box::new(col("b")), is_null: true },
    ];
    for p in predicates {
        let direct = match DirectFilterPredicate::try_from_expr(&schema(), &p, &Vec::new()) {
            Some(d) => d,
            None => continue,
        };
        for t in rows() {
            if let Some(kept) = direct.matches(&t) {
                let value = evaluator.evaluate(&p, &t).unwrap_or(Value::Null);
                assert_eq!(kept, value == Value::Boolean(true));
            }
        }
    }
}

#[test]
fn binding_columns_keeps_the_meaning() {
    let evaluator = Evaluator::new(schema());
    let p = bin(
        bin(col("a"), BinaryOperator::Eq, lit(Value::Int4(2))),
        BinaryOperator::Or,
        LogicalExpr::UnaryExpr {
            op: UnaryOperator::Not,
            expr: Box::new(bin(col("b"), BinaryOperator::Eq, lit(text("x")))),
        },
    );
    let bound = evaluator.bind(p.clone());
    for t in rows() {
        assert_eq!(shown(evaluator.evaluate(&p, &t)), shown(evaluator.evaluate(&bound, &t)));
    }
}

#[test]
fn a_set_means_its_list() {
    let evaluator = Evaluator::new(schema());
    for negated in [false, true] {
        for values in [vec![Value::Int4(1)], vec![Value::Int8(2), Value::Null], Vec::new()] {
            let list = LogicalExpr::InList {
                expr: Box::new(col("a")),
                list: values.iter().cloned().map(lit).collect(),
                negated,
            };
            let set = LogicalExpr::InSet { expr: Box::new(col("a")), values, negated };
            for t in rows() {
                assert_eq!(shown(evaluator.evaluate(&list, &t)), shown(evaluator.evaluate(&set, &t)));
            }
        }
    }
}

#[test]
fn errors_of_evaluation_name_what_went_wrong() {
    let evaluator = Evaluator::new(schema());
    let t = &rows()[0];
    assert!(shown(evaluator.evaluate(&col("nowhere"), t)).contains("nowhere"));
    assert_eq!(
        shown(evaluator.evaluate(&bin(lit(Value::Int4(1)), BinaryOperator::And, lit(Value::Null)), t)),
        "Cannot convert Int4(1) to boolean"
    );
    assert_eq!(
        shown(evaluator.evaluate(&bin(col("a"), BinaryOperator::Lt, col("b")), t)),
        "Cannot compare Int4 with String"
    );
}

#[test]
fn keys_meet_across_widths_and_never_at_null() {
    let key = |v: Value| JoinKey::from_single_value(v);
    assert!(key(Value::Int2(5)).meets(&key(Value::Int8(5))));
    assert!(key(Value::Int8(5)).meets(&key(Value::Int2(5))));
    assert!(!key(Value::Int4(5)).meets(&key(Value::Int4(6))));
    assert!(!key(Value::Null).meets(&key(Value::Null)));
    assert_eq!(key(Value::Int2(-5)).hash_code(), key(Value::Int8(-5)).hash_code());
    assert_eq!(key(text("ab")).hash_code(), key(text("ab")).hash_code());
    assert_ne!(key(text("ab")).hash_code(), key(text("ba")).hash_code());
    let mut table = JoinTable::new();
    table.insert(key(Value::Int4(1)), rows()[0].clone());
    table.insert(key(Value::Int8(1)), rows()[1].clone());
    assert_eq!(table.len(), 1);
    match table.find(&key(Value::Int2(1))) {
        Some(i) => assert_eq!(table.bucket(i).len(), 2),
        None => panic!("no bucket"),
    }
}

#[test]
fn the_sort_order_is_an_order() {
    let values = [
        Value::Null,
        Value::Boolean(false),
        Value::Int4(-3),
        Value::Int8(7),
        text("a"),
        text("b"),
        Value::Uuid(1),
        Value::Date(5),
    ];
    let flip = |o: Order| match o {
        Order::Less => Order::Greater,
        Order::Equal => Order::Equal,
        Order::Greater => Order::Less,
    };
    for a in &values {
        assert_eq!(compare_values(a, a), Order::Equal);
        assert_ne!(compare_values(&Value::Null, a), Order::Greater);
        for b in &values {
            assert_eq!(compare_values(b, a), flip(compare_values(a, b)));
            assert_eq!(compare_direct_values(b, a), compare_direct_values(a, b).map(flip));
            for c in &values {
                if compare_values(a, b) != Order::Greater && compare_values(b, c) != Order::Greater {
                    assert_ne!(compare_values(a, c), Order::Greater);
                }
            }
        }
    }
}

#[test]
fn a_text_compares_with_the_uuid_that_it_spells() {
    let spelled = text("00000000-0000-0000-0000-000000000009");
    assert_eq!(compare_direct_values(&Value::Uuid(9), &spelled), Some(Order::Equal));
    assert_eq!(compare_direct_values(&Value::Uuid(9), &text("nine")), None);
}

#[test]
fn midnight_falls_on_its_day() {
    for day in [-1000, 0, 1, 719163, 800000] {
        assert_eq!(timestamp_day(day_midnight(day)), Some(day));
    }
}

#[test]
fn a_series_ends_at_its_bound() {
    let series = |start: i64, stop: i64, step: i64| {
        let mut op = GenerateSeriesOperator::new(
            start,
            stop,
            step,
            build_table_function_schema("generate_series", &None),
        );
        let mut out = Vec::new();
        while let Some(t) = op.next().unwrap_or(None) {
            out.push(t.values[0].clone());
        }
        out
    };
    assert_eq!(series(1, 4, 2), vec![Value::Int8(1), Value::Int8(3)]);
    assert_eq!(series(3, 1, -1).len(), 3);
    assert_eq!(series(3, 1, 1).len(), 0);
    assert_eq!(series(i64::MAX - 1, i64::MAX, 1).len(), 2);
}

#[test]
fn a_vector_scan_shows_the_distance_of_the_row_it_gave() {
    let mut op = VectorScanOperator::new(
        "t".to_string(),
        schema(),
        vec![(10, 5), (11, 6), (12, 7)],
        rows(),
    )
    .with_prefilter(LogicalExpr::IsNull { expr: Box::new(col("b")), is_null: true });
    assert_eq!(op.current_distance(), None);
    let row = op.next().unwrap().unwrap();
    assert_eq!(row.values, vec![Value::Int4(2), Value::Null]);
    assert_eq!(op.current_distance(), Some(6));
    assert!(op.next().unwrap().is_none());
}

#[test]
fn a_key_of_a_borrowed_value_is_the_key_of_the_value() {
    for v in [Value::Int2(7), Value::Int8(7), text("k"), Value::Null] {
        let owned = JoinKey::from_single_value(v.clone());
        let borrowed = JoinKey::from_single_value_ref(&v);
        assert_eq!(borrowed.len(), 1);
        assert_eq!(borrowed.meets(&owned), v != Value::Null);
    }
}

#[test]
fn the_columns_of_the_password_view_are_those_of_the_roles() {
    let names = |cs: Vec<Column>| cs.into_iter().map(|c| c.name).collect::<Vec<_>>();
    assert_eq!(names(pg_authid_columns()), names(pg_roles_columns()));
}

#[test]
fn window_functions_become_columns_that_the_list_reads() {
    let over = || LogicalExpr::WindowFunction {
        fun: "row_number".to_string(),
        args: Vec::new(),
        partition_by: Vec::new(),
        order_by: vec![(col("a"), true)],
    };
    let list = vec![col("b"), over(), over()];
    let aliases: Vec<String> = ["b", "n", "m"].iter().map(|s| s.to_string()).collect();
    let stage = plan_window(&list, &aliases, &schema());
    let names: Vec<&str> = stage.schema.columns.iter().map(|c| c.name.as_str()).collect();
    assert_eq!(names, vec!["a", "b", "n", "m"]);
    assert!(stage.schema.columns[2..].iter().all(|c| matches!(c.data_type, DataType::Int8) && c.nullable));
    let windows: Vec<&str> = stage.window_exprs.iter().map(|w| w.1.as_str()).collect();
    assert_eq!(windows, vec!["n", "m"]);
    let read: Vec<String> = stage.items.iter().map(|e| format!("{:?}", e)).collect();
    let expected: Vec<String> =
        [col("b"), col("n"), col("m")].iter().map(|e| format!("{:?}", e)).collect();
    assert_eq!(read, expected);

    // A window function without a name stays where it is.
    let stage = plan_window(&list, &aliases[..2].to_vec(), &schema());
    assert_eq!(stage.window_exprs.len(), 1);
    assert!(matches!(stage.items[2], LogicalExpr::WindowFunction { .. }));
}

#[test]
fn picked_rows_are_counted_by_kind() {
    let row = |n: i32| Tuple::new(vec![Value::Int4(n)]);
    let left = vec![row(1), row(2), row(1), row(1)];
    let right = vec![row(1), row(3)];
    let count = |op, all| pick_rows(op, all, &left, &right).len();
    assert_eq!(count(SetOperation::Intersect, true), 1);
    assert_eq!(count(SetOperation::Intersect, false), 1);
    assert_eq!(count(SetOperation::Except, true), 3);
    assert_eq!(count(SetOperation::Except, false), 1);
    assert_eq!(count_rows_with(&left, 3, &vec![Value::Int4(1)]), 2);
}
