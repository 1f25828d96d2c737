use nurbs_kernel::cli::InputMethod;
use nurbs_kernel::config::{config_degree, config_name, parse_config, resolve_method, MethodSource};

#[test]
fn parses_key_value_pairs() {
    let text = "method = direct\nname = test\n";
    let config = parse_config(text).ok().unwrap();
    assert_eq!(config.get("method"), Some(&"direct".to_string()));
    assert_eq!(config.get("name"), Some(&"test".to_string()));
}

#[test]
fn comments_and_blank_lines_are_skipped() {
    let text = "# header\n\n  key =  value  # trailing\n   \t\nother=1\r\n";
    let config = parse_config(text).ok().unwrap();
    assert_eq!(config.get("key"), Some(&"value".to_string()));
    assert_eq!(config.get("other"), Some(&"1".to_string()));
    assert_eq!(config.get("header"), None);
}

#[test]
fn later_setting_replaces_earlier() {
    let config = parse_config("a = 1\nb = 2\na = 3").ok().unwrap();
    assert_eq!(config.get("a"), Some(&"3".to_string()));
    assert_eq!(config.get("b"), Some(&"2".to_string()));
}

#[test]
fn value_keeps_later_equals_signs() {
    let config = parse_config("expr = x = y").ok().unwrap();
    assert_eq!(config.get("expr"), Some(&"x = y".to_string()));
}

#[test]
fn empty_key_and_value_are_kept() {
    let config = parse_config("= \nk =").ok().unwrap();
    assert_eq!(config.get(""), Some(&"".to_string()));
    assert_eq!(config.get("k"), Some(&"".to_string()));
}

#[test]
fn line_without_equals_is_an_error() {
    match parse_config("a = 1\n\njust text\nb = 2") {
        Err(e) => assert_eq!(e.line, 3),
        Ok(_) => panic!("expected an error"),
    }
    match parse_config("only") {
        Err(e) => assert_eq!(e.line, 1),
        Ok(_) => panic!("expected an error"),
    }
}

#[test]
fn comment_hides_equals_sign() {
    match parse_config("key # = value") {
        Err(e) => assert_eq!(e.line, 1),
        Ok(_) => panic!("expected an error"),
    }
}

#[test]
fn empty_text_is_empty_config() {
    let config = parse_config("").ok().unwrap();
    assert_eq!(config.get("method"), None);
}

#[test]
fn method_from_config_strips_quotes() {
    let config = parse_config("method = \"interpolated\"").ok().unwrap();
    assert_eq!(
        resolve_method(None, &config).ok(),
        Some((InputMethod::Interpolated, MethodSource::Config))
    );
    let config = parse_config("method = 'direct'").ok().unwrap();
    assert_eq!(
        resolve_method(None, &config).ok(),
        Some((InputMethod::Direct, MethodSource::Config))
    );
}

#[test]
fn command_line_method_wins() {
    let config = parse_config("method = interpolated").ok().unwrap();
    assert_eq!(
        resolve_method(Some(InputMethod::Direct), &config).ok(),
        Some((InputMethod::Direct, MethodSource::CommandLine))
    );
}

#[test]
fn missing_method_defaults_to_direct() {
    let config = parse_config("name = x").ok().unwrap();
    assert_eq!(
        resolve_method(None, &config).ok(),
        Some((InputMethod::Direct, MethodSource::Default))
    );
}

#[test]
fn unknown_configured_method_is_reported() {
    let config = parse_config("method = \"spline\"").ok().unwrap();
    assert_eq!(resolve_method(None, &config).err(), Some("spline".to_string()));
}

#[test]
fn name_and_degrees() {
    let config = parse_config("name = wing\ndegree_u = 2\ndegree_v = x").ok().unwrap();
    assert_eq!(config_name(&config), "wing");
    assert_eq!(config_degree(&config, "degree_u"), 2);
    assert_eq!(config_degree(&config, "degree_v"), 3);
    assert_eq!(config_degree(&config, "degree_w"), 3);
    let empty = parse_config("").ok().unwrap();
    assert_eq!(config_name(&empty), "unnamed");
}
