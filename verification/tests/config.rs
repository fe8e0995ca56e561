use board_store::board::Board;
use board_store::config::Config;

fn sample_config() -> Config {
    Config {
        name: "site".to_string(),
        boards: vec![
            Board {
                short_name: "b".to_string(),
                long_name: "Board".to_string(),
                description: "d".to_string(),
                post_counter: 0,
            },
            Board {
                short_name: "c".to_string(),
                long_name: "Culture".to_string(),
                description: "d2".to_string(),
                post_counter: 3,
            },
        ],
        rules: vec!["be kind".to_string()],
        port: None,
        proxy_ip_header: None,
    }
}

#[test]
fn config_get_board_finds_configured_boards() {
    let cfg = sample_config();
    let key = "c".to_string();
    let found = cfg.get_board(&key).unwrap();
    assert_eq!(found.long_name, "Culture");
    assert_eq!(found.post_counter, 3);
}

#[test]
fn config_get_board_misses_unknown_names() {
    let cfg = sample_config();
    let key = "z".to_string();
    assert!(cfg.get_board(&key).is_none());
}
