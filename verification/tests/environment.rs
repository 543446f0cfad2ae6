use zc::envs::{
    docker, eval, evaluate_expr, nmap, parse_exported_variable, skip_first_char_if_slash, update,
    update_setup_commands, vars, vars_command, Env, CONFIG_DIR, CONFIG_FILE,
};

fn env_of(pairs: &[(&str, &str)]) -> Env {
    let mut e = Env::new();
    for (k, v) in pairs.iter() {
        e.set(k.to_string(), v.to_string());
    }
    e
}

#[test]
fn env_get_after_set() {
    let mut e = Env::new();
    assert_eq!(e.get("HOME"), None);
    e.set("HOME".to_string(), "/root".to_string());
    e.set("HOME".to_string(), "/home/u".to_string());
    assert_eq!(e.get("HOME"), Some("/home/u".to_string()));
    assert_eq!(e.get("HOM"), None);
    let f = Env::from_pairs(vec![("A".to_string(), "1".to_string()), ("A".to_string(), "2".to_string())]);
    assert_eq!(f.get("A"), Some("2".to_string()));
}

#[test]
fn binary_locations() {
    assert_eq!(docker(true), "/usr/bin/docker");
    assert_eq!(docker(false), "/usr/local/bin/docker");
    assert_eq!(nmap(true), "/opt/homebrew/bin/nmap");
    assert_eq!(nmap(false), "/usr/bin/nmap");
}

#[test]
fn exported_variable_lines() {
    assert_eq!(
        parse_exported_variable(" ZAKURO_HOME = /opt/zakuro "),
        Some(("ZAKURO_HOME".to_string(), "/opt/zakuro".to_string()))
    );
    assert_eq!(parse_exported_variable("A=b=c"), Some(("A".to_string(), "b=c".to_string())));
    assert_eq!(parse_exported_variable("A="), Some(("A".to_string(), "".to_string())));
    assert_eq!(parse_exported_variable("no assignment"), None);
}

#[test]
fn exported_variable_roundtrip() {
    let line = format!("{}={}", " NAME ", " some value ");
    assert_eq!(parse_exported_variable(&line), Some(("NAME".to_string(), "some value".to_string())));
}

#[test]
fn vars_later_line_wins() {
    assert_eq!(vars_command(), format!("source {} && env", CONFIG_FILE));
    let e = vars("A=1\nB = two\r\nnoise\nA=3\n");
    assert_eq!(e.get("A"), Some("3".to_string()));
    assert_eq!(e.get("B"), Some("two".to_string()));
    assert_eq!(e.get("noise"), None);
}

#[test]
fn expand_paths_with_variables() {
    let e = env_of(&[("HOME", "/home/u")]);
    assert_eq!(evaluate_expr("/usr/bin:$HOME/bin", &e), "/usr/bin:/home/u/bin");
    assert_eq!(evaluate_expr("$HOME", &e), "/home/u");
    assert_eq!(evaluate_expr("$NOPE/x", &e), "$NOPE/x");
    assert_eq!(evaluate_expr("relative", &e), "relative");
    assert_eq!(eval("a/b", &e), "/a/b");
}

#[test]
fn expand_keeps_quoted_values() {
    let e = env_of(&[("HOME", "/home/u")]);
    assert_eq!(evaluate_expr("'$HOME:/a:/a'", &e), "'$HOME:/a:/a'");
}

#[test]
fn expand_names_each_path_once() {
    let e = env_of(&[("BIN", "/usr/bin")]);
    let out = evaluate_expr("/usr/bin:$BIN:/opt:/usr/bin", &e);
    assert_eq!(out, "/usr/bin:/opt");
    let pieces: Vec<&str> = out.split(':').collect();
    let mut sorted = pieces.clone();
    sorted.sort();
    sorted.dedup();
    assert_eq!(sorted.len(), pieces.len());
}

#[test]
fn slash_skipping() {
    assert_eq!(skip_first_char_if_slash("/abc"), Ok("abc".to_string()));
    assert_eq!(skip_first_char_if_slash("abc"), Ok("abc".to_string()));
    assert_eq!(skip_first_char_if_slash(""), Err("String is empty!".to_string()));
}

#[test]
fn update_sets_only_new_names() {
    let mut e = env_of(&[("ZAKURO_AUTH", "secret")]);
    let made = update("ZAKURO_AUTH=other\nA=1\nB=$A/x\nA=2\n# comment\n", &mut e);
    assert_eq!(
        made,
        vec![("A".to_string(), "1".to_string()), ("B".to_string(), "1/x".to_string())]
    );
    assert_eq!(e.get("ZAKURO_AUTH"), Some("secret".to_string()));
    assert_eq!(e.get("A"), Some("1".to_string()));
    assert_eq!(e.get("B"), Some("1/x".to_string()));
}

#[test]
fn setup_commands_of_update() {
    assert_eq!(
        update_setup_commands(),
        vec![
            format!("sudo mkdir -p {}", CONFIG_DIR),
            format!("sudo chown -R $USER {}", CONFIG_DIR),
            format!("wget -q 'http://get.zakuro.ai/env' -O {}", CONFIG_FILE),
        ]
    );
}

#[test]
fn running_the_script_twice_changes_nothing() {
    let script = "A=1\nB=$A/x\nC=$HOME:$HOME\n";
    let mut e = env_of(&[("HOME", "/h")]);
    let first = update(script, &mut e);
    assert_eq!(first.len(), 3);
    let second = update(script, &mut e);
    assert!(second.is_empty());
    assert_eq!(e.get("A"), Some("1".to_string()));
    assert_eq!(e.get("B"), Some("1/x".to_string()));
    assert_eq!(e.get("C"), Some("/h".to_string()));
}
