use helios_exec::executor::any_operator::AnyOperator;
use helios_exec::executor::cluster::{
    alias_change_given, answer_set_node_alias, check_switchover, handle_cluster_status,
    handle_set_node_alias, handle_show_topology, handle_switchover, handle_switchover_check,
    switch_over, AliasChange, ClusterView, HaRole, NodeConfig, NodeName, StandbyNode, TopologyNode,
};
use helios_exec::executor::operator::PhysicalOperator;
use helios_exec::executor::query::Executor;
use helios_exec::logical_plan::LogicalPlan;
use helios_exec::schema::Error;
use helios_exec::value::Value;

const NODE: u128 = 0x0123_4567_89ab_cdef_0123_4567_89ab_cdef;
const NODE_TEXT: &str = "01234567-89ab-cdef-0123-456789abcdef";

fn cluster() -> ClusterView {
    ClusterView {
        role: HaRole::Primary,
        lsn: 50,
        config: Some(NodeConfig {
            node_id: 1,
            listen_addr: "host-a".to_string(),
            replication_port: 5433,
        }),
        standbys: vec![StandbyNode {
            node_id: NODE,
            address: "host-b".to_string(),
            apply_lsn: 47,
            lag_ms: 12,
        }],
        topology: vec![TopologyNode {
            node_id: NODE,
            alias: Some("bee".to_string()),
            display_name: "bee (host-b)".to_string(),
            priority: 3,
            weight: 4,
            health_message: None,
        }],
        names: vec![NodeName { name: "bee".to_string(), node_id: NODE }],
        accepts_alias: true,
    }
}

fn rows(op: AnyOperator) -> Vec<Vec<Value>> {
    let mut op = op;
    let mut out = Vec::new();
    while let Some(t) = op.next().unwrap_or(None) {
        out.push(t.values);
    }
    out
}

fn answer(r: Result<AnyOperator, Error>) -> Vec<Vec<Value>> {
    match r {
        Ok(op) => rows(op),
        Err(e) => panic!("{}", e.to_string()),
    }
}

fn error(r: Result<AnyOperator, Error>) -> String {
    match r {
        Ok(_) => panic!("it went through"),
        Err(e) => e.to_string(),
    }
}

fn text(s: &str) -> Value {
    Value::String(s.to_string())
}

#[test]
fn a_switchover_goes_to_a_connected_standby() {
    let message = format!(
        "Switchover to node bee (host-b) ({}) initiated. This is a placeholder - full async switchover requires runtime integration.",
        NODE_TEXT
    );
    assert_eq!(answer(handle_switchover(&cluster(), None, NODE_TEXT)), vec![vec![text(&message)]]);
    assert_eq!(answer(handle_switchover(&cluster(), Some(NODE), "bee")), vec![vec![text(&message)]]);
}

#[test]
fn a_switchover_is_refused_for_a_reason() {
    let mut c = cluster();
    assert_eq!(
        error(handle_switchover(&c, None, "nobody")),
        "Target node 'nobody' not found. Specify a valid node alias or UUID."
    );
    assert_eq!(
        error(switch_over(&c, "other", Some(2))),
        "Target standby 'other' (00000000-0000-0000-0000-000000000002) not found or not connected"
    );
    c.role = HaRole::Observer;
    assert_eq!(
        error(handle_switchover(&c, Some(NODE), "bee")),
        "Switchover can only be initiated from the primary node"
    );
}

#[test]
fn a_check_says_what_a_switchover_would_meet() {
    assert_eq!(
        answer(handle_switchover_check(&cluster(), None, NODE_TEXT)),
        vec![vec![
            Value::Boolean(true),
            Value::Boolean(true),
            Value::Int8(47),
            Value::Int8(50),
            Value::Int8(3),
            text("Target standby is 3 LSN behind"),
            text(""),
        ]]
    );
    let mut c = cluster();
    c.role = HaRole::Standby;
    assert_eq!(
        answer(check_switchover(&c, "other", Some(2))),
        vec![vec![
            Value::Boolean(false),
            Value::Boolean(false),
            Value::Int8(0),
            Value::Int8(50),
            Value::Int8(50),
            text(""),
            text("This node is not the primary; Target node other (00000000-0000-0000-0000-000000000002) not found"),
        ]]
    );
    assert!(error(handle_switchover_check(&c, None, "nobody")).contains("'nobody'"));
}

#[test]
fn the_status_lists_this_node_and_its_standbys() {
    assert_eq!(
        rows(handle_cluster_status(&cluster())),
        vec![
            vec![
                text("00000000-0000-0000-0000-000000000001"),
                text("primary"),
                text("host-a"),
                Value::Boolean(true),
                Value::Int8(50),
                Value::Int8(0),
                Value::Int4(100),
            ],
            vec![
                text(NODE_TEXT),
                text("standby"),
                text("host-b"),
                Value::Boolean(true),
                Value::Int8(47),
                Value::Int8(12),
                Value::Int4(0),
            ],
        ]
    );
}

#[test]
fn the_topology_adds_what_is_known_of_the_nodes() {
    let shown = rows(handle_show_topology(&cluster()));
    assert_eq!(
        shown[0],
        vec![
            text("00000000-0000-0000-0000-000000000001"),
            Value::Null,
            text("Primary"),
            text("host-a"),
            text("host-a:5433"),
            Value::Boolean(true),
            text("OK"),
            Value::Int8(0),
            Value::Int8(50),
            Value::Int8(0),
            Value::Int4(100),
            Value::Int4(100),
        ]
    );
    assert_eq!(
        shown[1],
        vec![
            text(NODE_TEXT),
            text("bee"),
            text("Standby"),
            text("host-b"),
            text("host-b"),
            Value::Boolean(true),
            text("Connected"),
            Value::Int8(0),
            Value::Int8(47),
            Value::Int8(12),
            Value::Int4(3),
            Value::Int4(4),
        ]
    );
    let mut alone = cluster();
    alone.config = None;
    assert_eq!(rows(handle_show_topology(&alone)).len(), 1);
    assert_eq!(rows(handle_cluster_status(&alone)).len(), 1);
}

#[test]
fn an_alias_has_to_be_a_name() {
    let named = |alias: Option<&str>| {
        let alias = alias.map(|a| a.to_string());
        match handle_set_node_alias("bee", Some(NODE), &alias) {
            Ok(c) => format!("{} {:?}", c.node == NODE, c.alias),
            Err(e) => e.to_string(),
        }
    };
    assert_eq!(named(Some("wasp")), "true Some(\"wasp\")");
    assert_eq!(named(None), "true None");
    assert_eq!(named(Some("two words")), "Alias cannot contain spaces");
    assert_eq!(named(Some(NODE_TEXT)), "Alias cannot be a valid UUID format");
    assert_eq!(named(Some("")), "Alias cannot be empty");
    match alias_change_given("nobody", None, &None, false) {
        Ok(_) => panic!("there is no such node"),
        Err(e) => assert_eq!(
            e.to_string(),
            "Node 'nobody' not found in cluster topology. Use SHOW TOPOLOGY to see available nodes."
        ),
    }
}

#[test]
fn the_answer_to_an_alias_names_node_and_alias() {
    let change = |alias: Option<&str>| AliasChange { node: NODE, alias: alias.map(|a| a.to_string()) };
    assert_eq!(
        answer(answer_set_node_alias(&change(Some("wasp")), true)),
        vec![vec![text(&format!("Node alias 'wasp' set for node '{}'", NODE_TEXT))]]
    );
    assert_eq!(
        error(answer_set_node_alias(&change(Some("wasp")), false)),
        "Failed to set alias: 'wasp' is already in use by another node"
    );
    assert_eq!(
        answer(answer_set_node_alias(&change(None), false)),
        vec![vec![text(&format!("Node alias removed for node '{}'", NODE_TEXT))]]
    );
}

fn run(c: &ClusterView, plan: &LogicalPlan) -> Vec<Vec<Value>> {
    match Executor::new().with_cluster(c).execute(plan) {
        Ok(rows) => rows.into_iter().map(|t| t.values).collect(),
        Err(e) => vec![vec![text(&e.to_string())]],
    }
}

#[test]
fn statements_on_a_cluster_are_plans() {
    let mut c = cluster();
    let to = |name: &str| LogicalPlan::Switchover { target_node: name.to_string() };
    assert_eq!(run(&c, &to("bee")), answer(handle_switchover(&c, Some(NODE), "bee")));
    assert_eq!(run(&c, &to(NODE_TEXT)), answer(handle_switchover(&c, None, NODE_TEXT)));
    assert_eq!(
        run(&c, &to("nobody")),
        vec![vec![text("Target node 'nobody' not found. Specify a valid node alias or UUID.")]]
    );
    let check = LogicalPlan::SwitchoverCheck { target_node: "bee".to_string() };
    assert_eq!(run(&c, &check), answer(handle_switchover_check(&c, Some(NODE), "bee")));
    assert_eq!(run(&c, &LogicalPlan::ClusterStatus), rows(handle_cluster_status(&c)));
    assert_eq!(run(&c, &LogicalPlan::ShowTopology), rows(handle_show_topology(&c)));
    let named = LogicalPlan::SetNodeAlias { node_id: "bee".to_string(), alias: Some("wasp".to_string()) };
    assert_eq!(
        run(&c, &named),
        vec![vec![text(&format!("Node alias 'wasp' set for node '{}'", NODE_TEXT))]]
    );
    c.accepts_alias = false;
    assert_eq!(
        run(&c, &named),
        vec![vec![text("Failed to set alias: 'wasp' is already in use by another node")]]
    );
}

#[test]
fn a_node_without_a_cluster_has_no_such_operator() {
    match Executor::new().execute(&LogicalPlan::ShowTopology) {
        Ok(_) => panic!("there is no cluster"),
        Err(e) => assert_eq!(e.to_string(), "Operator not yet implemented: ShowTopology"),
    }
    let statements = vec![
        (LogicalPlan::Switchover { target_node: "bee".to_string() }, "Switchover { target_node: \"bee\" }"),
        (
            LogicalPlan::SwitchoverCheck { target_node: "b\"".to_string() },
            "SwitchoverCheck { target_node: \"b\\\"\" }",
        ),
        (
            LogicalPlan::SetNodeAlias { node_id: "bee".to_string(), alias: Some("wasp".to_string()) },
            "SetNodeAlias { node_id: \"bee\", alias: Some(\"wasp\") }",
        ),
        (
            LogicalPlan::SetNodeAlias { node_id: "bee".to_string(), alias: None },
            "SetNodeAlias { node_id: \"bee\", alias: None }",
        ),
        (LogicalPlan::ClusterStatus, "ClusterStatus"),
    ];
    for (plan, shown) in statements {
        assert_eq!(format!("{:?}", plan), shown);
        match Executor::new().execute(&plan) {
            Ok(_) => panic!("there is no cluster"),
            Err(e) => {
                assert!(!e.is_refusal());
                assert_eq!(e.to_string(), format!("Operator not yet implemented: {}", shown));
            }
        }
    }
}
