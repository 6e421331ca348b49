use atldp::catenary::Method;
use atldp::cli::{
    check_conductor, method_of, parse_command, parse_flags, required_flag, CommandKind, Flags, USAGE,
};

fn strings(v: &[&str]) -> Vec<String> {
    v.iter().map(|s| s.to_string()).collect()
}

#[test]
fn parse_flags_reads_pairs() {
    let f = parse_flags(&strings(&["--span", "400", "--rise", "30"])).unwrap();
    assert_eq!(f.get("span").map(String::as_str), Some("400"));
    assert_eq!(f.get("rise").map(String::as_str), Some("30"));
    assert_eq!(f.get("weight"), None);
}

#[test]
fn parse_flags_last_value_wins() {
    let f = parse_flags(&strings(&["--span", "400", "--span", "500"])).unwrap();
    assert_eq!(f.get("span").map(String::as_str), Some("500"));
}

#[test]
fn parse_flags_empty_and_odd_values() {
    let f = parse_flags(&[]).unwrap();
    assert_eq!(f.get("span"), None);
    // A value may itself look like a flag, and a bare `--` names the empty flag.
    let f = parse_flags(&strings(&["--rise", "--5", "--", "x"])).unwrap();
    assert_eq!(f.get("rise").map(String::as_str), Some("--5"));
    assert_eq!(f.get("").map(String::as_str), Some("x"));
}

#[test]
fn parse_flags_errors() {
    assert_eq!(
        parse_flags(&strings(&["span", "400"])).err().unwrap(),
        "expected a --flag, got \"span\""
    );
    assert_eq!(
        parse_flags(&strings(&["-s", "400"])).err().unwrap(),
        "expected a --flag, got \"-s\""
    );
    assert_eq!(
        parse_flags(&strings(&["--span", "400", "--rise"])).err().unwrap(),
        "flag --rise expects a value"
    );
}

#[test]
fn method_flag_defaults_to_auto() {
    let f = Flags::new();
    assert_eq!(method_of(&f), Ok(Method::Auto));
    let f = parse_flags(&strings(&["--method", "parabola"])).unwrap();
    assert_eq!(method_of(&f), Ok(Method::Parabola));
    let f = parse_flags(&strings(&["--method", "fem"])).unwrap();
    assert_eq!(
        method_of(&f),
        Err("unknown method \"fem\"; expected auto, catenary or parabola".to_string())
    );
}

#[test]
fn conductor_flag_must_name_builtin() {
    let builtin = "ACSR Drake 26/7";
    assert!(check_conductor(&Flags::new(), builtin).is_ok());
    let f = parse_flags(&strings(&["--conductor", "ACSR Drake 26/7"])).unwrap();
    assert!(check_conductor(&f, builtin).is_ok());
    let f = parse_flags(&strings(&["--conductor", "Linnet"])).unwrap();
    assert_eq!(
        check_conductor(&f, builtin),
        Err("unknown conductor \"Linnet\"; only \"ACSR Drake 26/7\" is built in".to_string())
    );
}

#[test]
fn command_dispatch() {
    let c = parse_command(&strings(&["catenary", "--span", "300"])).unwrap();
    assert_eq!(c.kind, CommandKind::Catenary);
    assert_eq!(c.flags.get("span").map(String::as_str), Some("300"));
    let c = parse_command(&strings(&["cos", "--ref-H", "31500"])).unwrap();
    assert_eq!(c.kind, CommandKind::Cos);
    assert_eq!(c.flags.get("ref-H").map(String::as_str), Some("31500"));
    for h in ["-h", "--help", "help"] {
        let c = parse_command(&strings(&[h, "ignored"])).unwrap();
        assert_eq!(c.kind, CommandKind::Help);
        assert_eq!(c.flags.get("ignored"), None);
    }
}

#[test]
fn command_errors() {
    assert_eq!(
        parse_command(&[]).err().unwrap(),
        format!("missing command\n\n{USAGE}")
    );
    assert_eq!(
        parse_command(&strings(&["solve"])).err().unwrap(),
        format!("unknown command: \"solve\"\n\n{USAGE}")
    );
    assert_eq!(
        parse_command(&strings(&["catenary", "--span"])).err().unwrap(),
        "flag --span expects a value"
    );
}

#[test]
fn usage_text() {
    assert!(USAGE.starts_with("atldp — ATLDP sag-tension core\n\nUSAGE:\n"));
    assert!(USAGE.contains("    atldp catenary --span S --weight w --tension H [--rise h] [--method auto|catenary|parabola]\n"));
    assert!(USAGE.ends_with("Only the built-in 'ACSR Drake 26/7' conductor is available in Phase G1."));
}

#[test]
fn required_flag_present_or_named_in_error() {
    let f = parse_flags(&strings(&["--span", "400"])).unwrap();
    assert_eq!(required_flag(&f, "span").map(String::as_str), Ok("400"));
    assert_eq!(
        required_flag(&f, "weight"),
        Err("missing required flag --weight".to_string())
    );
}
