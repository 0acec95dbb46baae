use opensourcellmrouter::cli::{parse_args, Command};

fn args(a: &[&str]) -> Vec<String> {
    a.iter().map(|s| s.to_string()).collect()
}

#[test]
fn arguments_choose_watch_tui_or_serve() {
    assert_eq!(parse_args(&args(&[])), Command::Serve { config_path: "config.toml".to_string() });
    assert_eq!(parse_args(&args(&["my.toml"])), Command::Serve { config_path: "my.toml".to_string() });
    assert_eq!(parse_args(&args(&["watch"])), Command::Watch { base_url: "http://localhost:8090".to_string() });
    assert_eq!(parse_args(&args(&["tui", "http://h:1"])), Command::Tui { base_url: "http://h:1".to_string() });
}
