use rtcm_view::config::{config_text, parse_config};

#[test]
fn config_defaults_when_empty() {
    assert_eq!(parse_config(""), ("127.0.0.1".to_string(), "2101".to_string()));
}

#[test]
fn config_reads_host_and_port() {
    assert_eq!(
        parse_config("host=caster.example.net\nport=2102\n"),
        ("caster.example.net".to_string(), "2102".to_string())
    );
}

#[test]
fn config_accepts_crlf_and_missing_final_newline() {
    assert_eq!(
        parse_config("port=80\r\nhost=10.0.0.1"),
        ("10.0.0.1".to_string(), "80".to_string())
    );
}

#[test]
fn config_last_line_wins_and_others_are_ignored() {
    assert_eq!(
        parse_config("host=a\n# comment\nhostname=b\n host=c\nhost=d\nport=1\n"),
        ("d".to_string(), "1".to_string())
    );
}

#[test]
fn config_keeps_only_port_when_host_missing() {
    assert_eq!(parse_config("port=9999\n"), ("127.0.0.1".to_string(), "9999".to_string()));
}

#[test]
fn config_text_format() {
    assert_eq!(config_text("192.168.1.5", "2101"), "host=192.168.1.5\nport=2101\n");
}

#[test]
fn config_round_trip() {
    for (h, p) in [("localhost", "2101"), ("", ""), ("a b\tc", "port=x"), ("host=", "\r5")] {
        let text = config_text(h, p);
        assert_eq!(parse_config(&text), (h.to_string(), p.to_string()));
    }
}
