use ongrow_server::args::{
    arg_name, get_arg, get_arg_opt, get_arg_or, get_var, init_args, set_arg, Environment,
};

fn environment(vars: &[(&str, &str)]) -> Environment {
    Environment {
        vars: pairs(vars),
    }
}

fn pairs(list: &[(&str, &str)]) -> Vec<(String, String)> {
    list.iter()
        .map(|(name, value)| (name.to_string(), value.to_string()))
        .collect()
}

#[test]
fn argument_names_ignore_case_and_separator() {
    let aliases = [
        "RUSTDESK-CONFIG-ALIAS-TEST",
        "RUSTDESK_CONFIG_ALIAS_TEST",
        "rustdesk-config-alias-test",
        "rustdesk_config_alias_test",
        "RustDesk_Config-Alias_Test",
    ];
    for alias in aliases {
        let env = environment(&[(alias, alias)]);
        assert_eq!(get_arg(&env, "RUSTDESK_CONFIG_ALIAS_TEST"), alias);
    }
    let mut env = environment(&[]);
    set_arg(&mut env, "rustdesk_config_alias_test", "normalized");
    assert_eq!(
        get_var(&env, "RUSTDESK-CONFIG-ALIAS-TEST").unwrap(),
        "normalized"
    );
    env.vars.push((
        "RUSTDESK_CONFIG_ALIAS_TEST".to_owned(),
        "inherited".to_owned(),
    ));
    set_arg(&mut env, "rustdesk-config-alias-test", "higher-priority");
    assert_eq!(
        get_arg(&env, "rustdesk_config_alias_test"),
        "higher-priority"
    );
}

#[test]
fn names_are_normalised() {
    assert_eq!(arg_name("max_database_connections"), "MAX-DATABASE-CONNECTIONS");
    assert_eq!(arg_name("A-b_C"), "A-B-C");
    assert_eq!(arg_name(""), "");
    assert_eq!(arg_name("stra\u{df}e_\u{e4}"), "STRASSE-\u{c4}");
}

#[test]
fn case_of_ascii_changes_letters_alone() {
    let all: String = (0u8..128).map(char::from).collect();
    let expected: String = all
        .chars()
        .map(|c| if c == '_' { '-' } else { c.to_ascii_uppercase() })
        .collect();
    assert_eq!(arg_name(&all), expected);
    let env = environment(&[(&expected.replace('-', "_").to_ascii_lowercase(), "found")]);
    assert_eq!(get_arg(&env, &all), "found");
}

#[test]
fn usual_spellings_come_in_order() {
    let all = [
        ("a_b", "4"),
        ("a-b", "3"),
        ("A_B", "2"),
        ("A-B", "1"),
        ("A-b", "5"),
    ];
    for kept in 1..=all.len() {
        let mut vars = all[..kept].to_vec();
        vars.sort();
        let least = all[..kept.min(4)].iter().map(|(_, value)| *value).min().unwrap();
        assert_eq!(get_arg(&environment(&vars), "a_B"), least);
    }
}

#[test]
fn unusual_spellings_go_by_name() {
    let env = environment(&[("aB-c", "2"), ("Ab-c", "1"), ("Ab_C", "3"), ("Ab-c", "4")]);
    assert_eq!(get_arg_opt(&env, "AB-C").unwrap(), "1");
    let env = environment(&[("aB-c", "2"), ("Ab_C", "3"), ("AB-cd", "0")]);
    assert_eq!(get_arg_opt(&env, "AB-C").unwrap(), "3");
    assert!(get_arg_opt(&env, "AB").is_none());
    assert!(get_arg_opt(&environment(&[]), "AB").is_none());
}

#[test]
fn names_outside_ascii_do_not_disturb() {
    let env = environment(&[("\u{e9}", "0"), ("max_database-connections", "3"), ("Stra\u{df}e", "4")]);
    assert_eq!(get_arg(&env, "MAX_DATABASE_CONNECTIONS"), "3");
    assert_eq!(get_arg(&env, "strasse"), "4");
    assert_eq!(get_arg(&env, "\u{c9}"), "0");
}

#[test]
fn first_occurrence_counts() {
    let mut env = environment(&[("X", "1"), ("X", "2")]);
    assert_eq!(get_arg(&env, "x"), "1");
    set_arg(&mut env, "x", "3");
    assert_eq!(get_arg(&env, "X"), "3");
    assert_eq!(env.vars, pairs(&[("X", "3"), ("X", "2")]));
}

#[test]
fn default_stands_in() {
    let env = environment(&[("PORT", "21116")]);
    assert_eq!(get_arg_or(&env, "port", "1".to_owned()), "21116");
    assert_eq!(get_arg_or(&env, "key", "1".to_owned()), "1");
    assert_eq!(get_arg(&env, "key"), "");
}

#[test]
fn setting_one_leaves_the_others() {
    let mut env = environment(&[("KEY", "k"), ("PORT", "1")]);
    set_arg(&mut env, "port", "2");
    set_arg(&mut env, "rmem", "3");
    assert_eq!(
        env.vars,
        pairs(&[("KEY", "k"), ("PORT", "2"), ("RMEM", "3")])
    );
    let mut env = environment(&[("Key_File", "k")]);
    set_arg(&mut env, "key", "1");
    set_arg(&mut env, "key_fil", "2");
    assert_eq!(get_arg(&env, "KEY-FILE"), "k");
}

#[test]
fn command_line_wins_over_files() {
    let mut env = environment(&[("A", "environment"), ("E", "environment")]);
    init_args(
        &mut env,
        &pairs(&[("a", ".env"), ("b", ".env"), ("c_c", ".env"), ("b", ".env again")]),
        &pairs(&[("A", "config"), ("C-C", "config")]),
        &vec![
            ("a".to_owned(), vec!["line".to_owned(), "second".to_owned()]),
            ("b".to_owned(), vec![]),
            ("d".to_owned(), vec!["line".to_owned()]),
        ],
    );
    assert_eq!(get_arg(&env, "a"), "line");
    assert_eq!(get_arg(&env, "b"), ".env again");
    assert_eq!(get_arg(&env, "c-c"), "config");
    assert_eq!(get_arg(&env, "d"), "line");
    assert_eq!(get_arg(&env, "e"), "environment");
}
