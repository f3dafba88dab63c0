use schemr::config::{Config, ConfigError, Environment};
use schemr::schema::{column_from_row, indexes_from_rows};

fn env(host: &str) -> Environment {
    Environment {
        host: host.to_string(),
        port: 3306,
        username: "root".to_string(),
        password_env: "DB_PASS".to_string(),
        database: "app".to_string(),
    }
}

#[test]
fn environments_are_found_by_name() {
    let mut cfg = Config::new();
    cfg.set_env("qa".to_string(), env("qa-host"));
    cfg.set_env("prod".to_string(), env("prod-host"));
    assert_eq!(cfg.get_env("qa").unwrap().host, "qa-host");
    assert_eq!(cfg.get_env("prod").unwrap().host, "prod-host");
    assert_eq!(
        cfg.get_env("dev").unwrap_err(),
        ConfigError::NotFound { name: "dev".to_string() }
    );
}

#[test]
fn setting_an_environment_again_replaces_it() {
    let mut cfg = Config::new();
    cfg.set_env("qa".to_string(), env("old"));
    cfg.set_env("qa".to_string(), env("new"));
    assert_eq!(cfg.environments.len(), 1);
    assert_eq!(cfg.get_env("qa").unwrap().host, "new");
}

#[test]
fn index_rows_are_grouped_by_name() {
    let row = |n: &str, c: &str, u: u8| (n.to_string(), c.to_string(), u);
    let rows = vec![row("z_idx", "a", 1), row("a_idx", "x", 0), row("z_idx", "b", 1), row("a_idx", "y", 0)];
    let ixs = indexes_from_rows(&rows);
    assert_eq!(ixs.len(), 2);
    assert_eq!(ixs[0].name, "a_idx");
    assert_eq!(ixs[0].columns, vec!["x".to_string(), "y".to_string()]);
    assert!(ixs[0].is_unique);
    assert_eq!(ixs[1].name, "z_idx");
    assert_eq!(ixs[1].columns, vec!["a".to_string(), "b".to_string()]);
    assert!(!ixs[1].is_unique);
}

#[test]
fn nullability_reads_yes() {
    let c = column_from_row("id".to_string(), "int".to_string(), "YES".to_string(), None);
    assert!(c.is_nullable);
    let d = column_from_row("id".to_string(), "int".to_string(), "NO".to_string(), Some("1".to_string()));
    assert!(!d.is_nullable);
    assert_eq!(d.default, Some("1".to_string()));
}
