use helios_exec::acl_views::{
    all_privileges_for, is_valid_privilege, mysql_show_grants_lines, split_schema_key, AclRecord,
};

fn acl(object: &str, grantee: &str, privileges: &[(&str, bool)]) -> AclRecord {
    AclRecord {
        object_type: "table".to_string(),
        object_name: object.to_string(),
        grantee: grantee.to_string(),
        grantor: "helios".to_string(),
        privileges: privileges.iter().map(|(p, g)| ((*p).to_string(), *g)).collect(),
    }
}

#[test]
fn show_grants_without_acls_is_usage_only() {
    let lines = mysql_show_grants_lines("app", &[]);
    assert_eq!(lines, vec!["GRANT USAGE ON *.* TO 'app'@'%'".to_string()]);
    assert!(
        !lines.iter().any(|l| l.contains("ALL PRIVILEGES")),
        "SHOW GRANTS must never fabricate ALL PRIVILEGES: {lines:?}"
    );
}

#[test]
fn show_grants_renders_stored_privileges_without_grant_option() {
    let lines =
        mysql_show_grants_lines("app", &[acl("orders", "app", &[("SELECT", false), ("INSERT", false)])]);
    assert_eq!(lines.len(), 2, "usage baseline + one grant line: {lines:?}");
    assert_eq!(
        lines[1],
        "GRANT SELECT, INSERT ON `public`.`orders` TO 'app'@'%'".to_string()
    );
    assert!(!lines[1].contains("WITH GRANT OPTION"));
}

#[test]
fn show_grants_marks_grantable_and_splits_schema() {
    let lines = mysql_show_grants_lines("app", &[acl("sales.orders", "app", &[("SELECT", true)])]);
    assert_eq!(
        lines[1],
        "GRANT SELECT ON `sales`.`orders` TO 'app'@'%' WITH GRANT OPTION".to_string()
    );
}

#[test]
fn show_grants_skips_non_table_and_empty_records() {
    let mut sequence = acl("order_id_seq", "app", &[("USAGE", false)]);
    sequence.object_type = "sequence".to_string();
    let empty = acl("orders", "app", &[]);
    let lines = mysql_show_grants_lines("app", &[sequence, empty]);
    assert_eq!(lines.len(), 1, "only the USAGE baseline should survive: {lines:?}");
}

#[test]
fn all_privileges_expansion_is_object_type_aware() {
    assert_eq!(
        all_privileges_for("table"),
        Some(vec!["SELECT", "INSERT", "UPDATE", "DELETE", "TRUNCATE", "REFERENCES", "TRIGGER"])
    );
    assert_eq!(all_privileges_for("sequence"), Some(vec!["USAGE", "SELECT", "UPDATE"]));
    assert_eq!(
        all_privileges_for("schema"),
        None,
        "an unmodelled object type must be None so the caller errors loudly"
    );
    assert!(is_valid_privilege("table", "TRUNCATE"));
    assert!(!is_valid_privilege("table", "USAGE"));
    assert!(is_valid_privilege("sequence", "USAGE"));
    assert!(!is_valid_privilege("sequence", "DELETE"));
}

#[test]
fn split_schema_key_defaults_to_public() {
    assert_eq!(split_schema_key("orders"), ("public".to_string(), "orders".to_string()));
    assert_eq!(
        split_schema_key("sales.orders"),
        ("sales".to_string(), "orders".to_string())
    );
}
