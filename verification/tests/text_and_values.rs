use releez::runner::prompts::{confirmation_answer, is_quit_command, is_quit_word, is_truthy_word};
use releez::runner::release_version::{gen_vars_data, parse_release_version};
use releez::error::ReleezError;
use releez::types::ConfigValue;
use releez::utils::system_val_resolver::{key_matches_os, resolve_system_dependent_value_config};
use releez::utils::text::{is_whitespace_char, str_equal, trim};
use releez::utils::var_subs::{referenced_variable_names, substitute_in_parts, substitute_variable_in_text, VarTable};

fn table(entries: &[(&str, &str)]) -> VarTable {
    let mut t = VarTable::new();
    for (k, v) in entries {
        t.insert(k.to_string(), v.to_string());
    }
    t
}

#[test]
fn trim_matches_std() {
    for s in ["", "   ", " a b ", "\u{3000}x\u{85}", "\t\nline\r\n", "x", "\u{200b}y"] {
        assert_eq!(trim(s), s.trim());
    }
    assert_eq!(trim(trim("  a  ")), "a");
}

#[test]
fn whitespace_matches_std() {
    for c in ['\u{9}', '\u{d}', ' ', '\u{85}', '\u{a0}', '\u{1680}', '\u{2000}', '\u{200a}', '\u{2028}', '\u{2029}',
        '\u{202f}', '\u{205f}', '\u{3000}', 'a', '\u{200b}', '\u{180e}', '\u{feff}', '0'] {
        assert_eq!(is_whitespace_char(c), c.is_whitespace(), "{:?}", c);
    }
}

#[test]
fn string_equality() {
    assert!(str_equal("abc", "abc"));
    assert!(!str_equal("abc", "abd"));
    assert!(!str_equal("ab", "abc"));
}


#[test]
fn substitutes_both_forms() {
    let vars = table(&[("VERSION", "1.2.3"), ("NAME", "app")]);
    let env = VarTable::new();
    assert_eq!(substitute_variable_in_text("v$VERSION of ${ NAME }!", &vars, &env), "v1.2.3 of app!");
    assert_eq!(substitute_variable_in_text("${VERSION}-rc", &vars, &env), "1.2.3-rc");
}

#[test]
fn unknown_variable_becomes_empty() {
    let vars = VarTable::new();
    let env = VarTable::new();
    assert_eq!(substitute_variable_in_text("a $MISSING b", &vars, &env), "a  b");
}

#[test]
fn release_variables_win_over_environment() {
    let vars = table(&[("VERSION", "2.0.0")]);
    let env = table(&[("VERSION", "9.9.9"), ("USER", "me")]);
    assert_eq!(substitute_variable_in_text("$VERSION by $USER", &vars, &env), "2.0.0 by me");
}

#[test]
fn text_without_references_is_unchanged() {
    let vars = table(&[("A", "x")]);
    let env = VarTable::new();
    assert_eq!(substitute_variable_in_text("no variables here", &vars, &env), "no variables here");
    assert_eq!(substitute_variable_in_text("lone $ and ${ }", &vars, &env), "lone $ and ${ }");
    assert_eq!(substitute_variable_in_text("", &vars, &env), "");
}

#[test]
fn names_of_references() {
    assert_eq!(referenced_variable_names("$A ${ B } $ ${C}"), vec!["A", "B", "C"]);
    assert!(referenced_variable_names("plain").is_empty());
}

#[test]
fn later_insert_replaces_value() {
    let t = table(&[("A", "1"), ("A", "2")]);
    assert_eq!(t.get("A"), Some(&"2".to_string()));
    assert_eq!(t.get("B"), None);
}

#[test]
fn string_and_list_values() {
    assert_eq!(resolve_system_dependent_value_config(&ConfigValue::Text("x".into()), "linux"), vec!["x"]);
    let list = ConfigValue::List(vec![
        ConfigValue::Text("a".into()),
        ConfigValue::Number("3".into()),
        ConfigValue::Text("b".into()),
        ConfigValue::Null,
    ]);
    assert_eq!(resolve_system_dependent_value_config(&list, "linux"), vec!["a", "b"]);
    assert!(resolve_system_dependent_value_config(&ConfigValue::Bool(true), "linux").is_empty());
}

#[test]
fn table_values_by_operating_system() {
    let v = ConfigValue::Table(vec![
        ("macos + linux".into(), ConfigValue::List(vec![ConfigValue::Text("unix".into())])),
        ("windows".into(), ConfigValue::Text("win".into())),
        ("linux".into(), ConfigValue::Text("second".into())),
    ]);
    assert_eq!(resolve_system_dependent_value_config(&v, "linux"), vec!["unix"]);
    assert_eq!(resolve_system_dependent_value_config(&v, "macos"), vec!["unix"]);
    assert_eq!(resolve_system_dependent_value_config(&v, "windows"), vec!["win"]);
    assert!(resolve_system_dependent_value_config(&v, "freebsd").is_empty());
}

#[test]
fn operating_system_keys() {
    assert!(key_matches_os("macos + linux", "linux"));
    assert!(key_matches_os(" linux ", "linux"));
    assert!(!key_matches_os("macos+linuxx", "linux"));
    assert!(key_matches_os("+", ""));
    assert!(!key_matches_os("a", ""));
}

#[test]
fn release_version_with_v_prefix() {
    assert_eq!(parse_release_version("v1.0.2").unwrap().to_string(), "1.0.2");
    assert_eq!(parse_release_version(" vv1.0.2 ").unwrap().to_string(), "1.0.2");
    assert_eq!(parse_release_version("1.0.2").unwrap().to_string(), "1.0.2");
}

#[test]
fn release_version_with_pre_and_build() {
    let v = parse_release_version("1.2.3-alpha.1+build.5").unwrap();
    assert_eq!(v.major, 1);
    assert_eq!(v.minor, 2);
    assert_eq!(v.patch, 3);
    assert_eq!(v.to_string(), "1.2.3-alpha.1+build.5");
}

#[test]
fn invalid_release_version() {
    let e = parse_release_version("next").unwrap_err();
    assert!(matches!(e, ReleezError::InvalidReleaseVersion { ref input, .. } if input == "next"));
    assert_eq!(e.message(), "Invalid release version provided: 'next'");
}

#[test]
fn version_variable() {
    let v = parse_release_version("v2.1.0").unwrap();
    let vars = gen_vars_data(&v);
    assert_eq!(vars.get("VERSION"), Some(&"2.1.0".to_string()));
    let env = table(&[("VERSION", "0.0.1")]);
    assert_eq!(substitute_variable_in_text("release $VERSION", &vars, &env), "release 2.1.0");
}

#[test]
fn confirmation_answers() {
    assert!(confirmation_answer("", "yes"));
    assert!(!confirmation_answer("", "no"));
    assert!(confirmation_answer("Y", "no"));
    assert!(confirmation_answer("YES", "no"));
    assert!(!confirmation_answer("yeah", "yes"));
    assert!(!confirmation_answer("n", "yes"));
}

#[test]
fn quit_command() {
    assert!(is_quit_command("q"));
    assert!(is_quit_command("Q"));
    assert!(!is_quit_command("quit"));
    assert!(!is_quit_command(""));
}

#[test]
fn dollar_without_name_is_kept() {
    let vars = table(&[("A", "x")]);
    let env = VarTable::new();
    assert_eq!(substitute_variable_in_text("cost $ 5 or ${}", &vars, &env), "cost $ 5 or ${}");
    assert_eq!(substitute_variable_in_text("${ A", &vars, &env), "${ A");
}

#[test]
fn unicode_digits_are_name_characters() {
    let vars = table(&[("A\u{661}", "one")]);
    let env = VarTable::new();
    assert_eq!(substitute_variable_in_text("$A\u{661}!", &vars, &env), "one!");
    assert_eq!(referenced_variable_names("${\u{3000}B_2\u{3000}}"), vec!["B_2"]);
}

#[test]
fn substitution_from_parts() {
    let vars = table(&[("A", "x")]);
    let env = table(&[("B", "y")]);
    let pieces = vec!["<".to_string(), "|".to_string(), ">".to_string()];
    let caps = vec![
        ("$A".to_string(), Some("A".to_string()), None),
        ("${ B }".to_string(), None, Some("B".to_string())),
    ];
    assert_eq!(substitute_in_parts(&pieces, &caps, &vars, &env), "<x|y>");
}

#[test]
fn answer_words() {
    assert!(is_truthy_word("yes"));
    assert!(is_truthy_word("y"));
    assert!(!is_truthy_word("Yes"));
    assert!(is_quit_word("q"));
    assert!(!is_quit_word("Q"));
}

#[test]
fn release_version_with_surrounding_whitespace() {
    let a = parse_release_version(" v1.2.3 ").unwrap().to_string();
    let b = parse_release_version("1.2.3").unwrap().to_string();
    assert_eq!(a, b);
    assert_eq!(parse_release_version("\t1.2.3\n").unwrap().to_string(), "1.2.3");
}
