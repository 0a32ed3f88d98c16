use mercury::env_parser::{parse_env_content, substitute_variables};
use mercury::vars::{extract, parse_env, substitute, EnvVars};

fn vars() -> EnvVars {
    parse_env("host=api.example.com\ntoken=abc123")
}

#[test]
fn parse_env_handles_comments_and_quotes() {
    let v = parse_env("# c\n\nA=1\nB=\"two words\"\nC='x'\nD=\"unbalanced\nE=a=b");
    assert_eq!(v.get("A").unwrap(), "1");
    assert_eq!(v.get("B").unwrap(), "two words");
    assert_eq!(v.get("C").unwrap(), "x");
    assert_eq!(v.get("D").unwrap(), "\"unbalanced");
    assert_eq!(v.get("E").unwrap(), "a=b");
}

#[test]
fn substitute_replaces_known_and_keeps_unknown() {
    let out = substitute("https://{{host}}/u?t={{ token }}&x={{missing}}", &vars());
    assert_eq!(out, "https://api.example.com/u?t=abc123&x={{missing}}");
    assert_eq!(substitute("{{unclosed", &vars()), "{{unclosed");
}

#[test]
fn substitute_does_not_recurse_into_values() {
    let v = parse_env("a={{b}}\nb=x");
    assert_eq!(substitute("{{a}}", &v), "{{b}}");
}

#[test]
fn extract_lists_names() {
    assert_eq!(extract("{{a}} and {{ b }} and {{}}"), vec!["a", "b"]);
}

#[test]
fn test_substitute_variables() {
    let mut vars = EnvVars::new();
    vars.insert("host".to_string(), "api.example.com".to_string());
    vars.insert("token".to_string(), "abc123".to_string());

    let input = "https://{{host}}/users?token={{token}}";
    let output = substitute_variables(input, &vars);

    assert_eq!(output, "https://api.example.com/users?token=abc123");
}

#[test]
fn env_content_warns_about_skipped_and_repeated_lines() {
    let r = parse_env_content("A=1\nnoequals\n# comment\nA=2\n");
    assert_eq!(r.vars.get("A").unwrap(), "2");
    assert_eq!(
        r.warnings,
        vec![
            "Line 2: skipped (no '=' found)".to_string(),
            "Line 4: duplicate key 'A'".to_string()
        ]
    );
}

#[test]
fn later_assignment_wins() {
    let v = parse_env("K=1\nK=2");
    assert_eq!(v.len(), 1);
    assert_eq!(v.get("K").unwrap(), "2");
}

#[test]
fn substitute_variables_replaces_every_occurrence() {
    let mut vars = EnvVars::new();
    vars.insert("x".to_string(), "1".to_string());
    assert_eq!(substitute_variables("{{x}}-{{x}}-{{ x }}", &vars), "1-1-{{ x }}");
}

#[test]
fn undefined_vars_are_sorted_and_unique() {
    let env = mercury::vars::parse_env("HOST=x\nTOKEN=t");
    let names = mercury::vars::undefined_vars(
        "{{HOST}}/{{ zeta }}/{{alpha}}",
        "Authorization: Bearer {{TOKEN}}\nX: {{alpha}}",
        "{{beta}}{{}}",
        &env,
    );
    assert_eq!(names, vec!["alpha".to_string(), "beta".to_string(), "zeta".to_string()]);
    let none = mercury::vars::undefined_vars("{{HOST}}", "", "", &env);
    assert!(none.is_empty());
}
