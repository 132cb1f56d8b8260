use idle_backend::utils::{env_find, env_get};

fn vars() -> Vec<(String, String)> {
    vec![
        ("PG_USER".to_string(), "game".to_string()),
        ("PG_PORT".to_string(), "5432".to_string()),
        ("PG_USER".to_string(), "shadowed".to_string()),
        ("EMPTY".to_string(), String::new()),
    ]
}

#[test]
fn env_get_returns_the_first_value_of_the_key() {
    assert_eq!(env_get(&vars(), "PG_USER"), "game");
    assert_eq!(env_get(&vars(), "PG_PORT"), "5432");
    assert_eq!(env_get(&vars(), "EMPTY"), "");
}

#[test]
fn env_find_tells_a_missing_key() {
    assert_eq!(env_find(&vars(), "PG_HOST"), None);
    assert_eq!(env_find(&vars(), "pg_user"), None);
    assert_eq!(env_find(&[], "PG_USER"), None);
    assert_eq!(env_find(&vars(), "PG_USER"), Some("game".to_string()));
}
