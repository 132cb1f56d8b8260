use idle_backend::config::{parse_port, Config};

fn vars(port: &str) -> Vec<(String, String)> {
    vec![
        ("PG_USER".to_string(), "game".to_string()),
        ("PG_PASSWORD".to_string(), "secret".to_string()),
        ("PG_HOST".to_string(), "localhost".to_string()),
        ("PG_PORT".to_string(), port.to_string()),
        ("PG_DBNAME".to_string(), "idle".to_string()),
    ]
}

#[test]
fn port_is_read_as_u16_from_str_reads_it() {
    let texts = [
        "0", "5432", "65535", "65536", "99999999999999999999", "+80", "+", "", "-1", "80 ", " 80",
        "0080", "8o", "0x50", "\u{661}\u{662}", "++1", "1+", "+0", "00000000000000000001",
    ];
    for text in texts {
        assert_eq!(parse_port(text), text.parse::<u16>().ok(), "port {text:?}");
    }
    assert_eq!(parse_port("5432"), Some(5432));
}

#[test]
fn config_holds_the_five_settings() {
    let config = Config::new(&vars("5432"));
    assert_eq!(config.pg.user, "game");
    assert_eq!(config.pg.password, "secret");
    assert_eq!(config.pg.host, "localhost");
    assert_eq!(config.pg.port, 5432);
    assert_eq!(config.pg.dbname, "idle");
}

#[test]
fn incomplete_config_is_none() {
    assert!(Config::load(&vars("port")).is_none());
    assert!(Config::load(&vars("")).is_none());
    for missing in 0..5 {
        let mut incomplete = vars("5432");
        incomplete.remove(missing);
        assert!(Config::load(&incomplete).is_none());
    }
    assert!(Config::load(&vars("5432")).is_some());
}
