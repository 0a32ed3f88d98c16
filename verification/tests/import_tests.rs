use mercury::import::{
    escape_env_value, plan_insomnia, plan_postman, postman_url, sanitize_env_key,
    sanitize_filename, ImportStep, InsomniaBody, InsomniaHeader, InsomniaResource,
    PostmanCollection, PostmanItem, PostmanKeyValue, PostmanRequest, PostmanUrl,
};
use mercury::model::HttpMethod;

#[test]
fn postman_prefers_raw_url() {
    let url = PostmanUrl::Object {
        raw: Some("https://example.com/api".into()),
        protocol: None,
        host: vec![],
        path: vec![],
        query: vec![],
    };
    assert_eq!(postman_url(&url), "https://example.com/api");
}

#[test]
fn sanitize_filename_cases() {
    assert_eq!(sanitize_filename("My API: v1/users?all"), "my-api-v1-users-all");
    assert_eq!(sanitize_filename("back\\slash"), "back-slash");
    assert_eq!(sanitize_filename("what?"), "what");
    assert_eq!(sanitize_filename("???"), "untitled");
    assert_eq!(sanitize_filename(".hidden"), "hidden");
}

#[test]
fn malicious_names_stay_inside_the_folder() {
    assert_eq!(sanitize_filename("Get ../../Secret?"), "get-..-..-secret");
    assert_eq!(sanitize_filename(".."), "untitled");
    assert_eq!(sanitize_filename("../x"), "-x");
}

#[test]
fn env_keys_and_values() {
    assert_eq!(sanitize_env_key("1 bad-key"), "_1_bad_key");
    assert_eq!(sanitize_env_key("host"), "host");
    assert_eq!(escape_env_value("has space"), "\"has space\"");
    assert_eq!(escape_env_value("plain"), "plain");
    assert_eq!(escape_env_value("say \"hi\""), "\"say \\\"hi\\\"\"");
}

#[test]
fn postman_url_from_parts() {
    let url = PostmanUrl::Object {
        raw: None,
        protocol: Some("https".into()),
        host: vec!["{{host}}".into()],
        path: vec!["v1".into(), "users".into(), "{{id}}".into()],
        query: vec![
            PostmanKeyValue { key: "page".into(), value: "1".into(), disabled: false },
            PostmanKeyValue { key: "x".into(), value: "y".into(), disabled: true },
        ],
    };
    assert_eq!(postman_url(&url), "https://{{host}}/v1/users/{{id}}?page=1");
    let bare = PostmanUrl::Object { raw: None, protocol: None, host: vec![], path: vec![], query: vec![] };
    assert_eq!(postman_url(&bare), "https://localhost");
}

fn request(method: &str, url: &str) -> PostmanRequest {
    PostmanRequest {
        method: method.into(),
        header: vec![
            PostmanKeyValue { key: "Content-Type".into(), value: "application/json".into(), disabled: false },
            PostmanKeyValue { key: "Off".into(), value: "x".into(), disabled: true },
        ],
        url: PostmanUrl::String(url.into()),
        body: None,
    }
}

#[test]
fn postman_plan_writes_tree_env_and_requests() {
    let c = PostmanCollection {
        name: "Comprehensive API".into(),
        item: vec![
            PostmanItem {
                name: "Auth".into(),
                item: vec![PostmanItem { name: "Login".into(), item: vec![], request: Some(request("POST", "{{host}}/auth/login")) }],
                request: None,
            },
            PostmanItem { name: "Health".into(), item: vec![], request: Some(request("get", "{{host}}/health")) },
            PostmanItem { name: "Empty folder".into(), item: vec![], request: None },
        ],
        variable: vec![("host".into(), "api.test.com".into()), ("1 bad-key".into(), "has space".into())],
    };
    let plan = plan_postman(&c);
    assert_eq!((plan.requests, plan.envs), (2, 1));
    assert_eq!(plan.steps.len(), 4);
    match &plan.steps[0] {
        ImportStep::WriteEnv { file, content } => {
            assert_eq!(file, ".env.comprehensive-api");
            assert_eq!(content, "host=api.test.com\n_1_bad_key=\"has space\"\n");
        }
        other => panic!("unexpected {other:?}"),
    }
    match &plan.steps[1] {
        ImportStep::CreateDir { dir } => assert_eq!(dir, &vec!["auth".to_string()]),
        other => panic!("unexpected {other:?}"),
    }
    match &plan.steps[2] {
        ImportStep::WriteRequest { dir, file, request } => {
            assert_eq!(dir, &vec!["auth".to_string()]);
            assert_eq!(file, "login.json");
            assert_eq!(request.method, HttpMethod::POST);
            assert!(request.headers.contains_key("Content-Type") && !request.headers.contains_key("Off"));
        }
        other => panic!("unexpected {other:?}"),
    }
    match &plan.steps[3] {
        ImportStep::WriteRequest { dir, file, request } => {
            assert!(dir.is_empty());
            assert_eq!(file, "health.json");
            assert_eq!(request.method, HttpMethod::GET);
        }
        other => panic!("unexpected {other:?}"),
    }
}

#[test]
fn insomnia_plan_groups_requests_and_sorts_env() {
    let rs = vec![
        InsomniaResource::Group { id: "fld_1".into(), name: "User API".into() },
        InsomniaResource::Request {
            name: "Get ../../Secret?".into(),
            method: "POST".into(),
            url: "https://example.com/api".into(),
            headers: vec![
                InsomniaHeader { name: "A".into(), value: "1".into(), disabled: false },
                InsomniaHeader { name: "B".into(), value: "2".into(), disabled: true },
            ],
            body: Some(InsomniaBody { text: Some("{}".into()) }),
            parent_id: Some("fld_1".into()),
        },
        InsomniaResource::Request {
            name: "Root One".into(),
            method: "GET".into(),
            url: "https://example.com".into(),
            headers: vec![],
            body: None,
            parent_id: Some("wrk_1".into()),
        },
        InsomniaResource::Environment {
            name: "Base Env".into(),
            data: vec![("token".into(), "a b".into()), ("port".into(), "8080".into())],
        },
        InsomniaResource::Other,
    ];
    let plan = plan_insomnia(&rs);
    assert_eq!((plan.requests, plan.envs), (2, 1));
    match &plan.steps[1] {
        ImportStep::WriteRequest { dir, file, request } => {
            assert_eq!(dir, &vec!["user-api".to_string()]);
            assert_eq!(file, "get-..-..-secret.json");
            assert_eq!(request.headers.len(), 1);
            assert_eq!(request.body, "{}");
        }
        other => panic!("unexpected {other:?}"),
    }
    match &plan.steps[2] {
        ImportStep::CreateDir { dir } => assert_eq!(dir, &vec!["imported".to_string()]),
        other => panic!("unexpected {other:?}"),
    }
    match &plan.steps[4] {
        ImportStep::WriteEnv { file, content } => {
            assert_eq!(file, ".env.base-env");
            assert_eq!(content, "port=8080\ntoken=\"a b\"\n");
        }
        other => panic!("unexpected {other:?}"),
    }
}

#[test]
fn imported_env_file_reads_back() {
    let vars = vec![
        ("base url".to_string(), "http://localhost:3000".to_string()),
        ("1token".to_string(), " two words ".to_string()),
        ("mode".to_string(), "a=b".to_string()),
        ("base-url".to_string(), "later wins".to_string()),
    ];
    let content = mercury::import::env_file_content(&vars);
    let env = mercury::vars::parse_env(&content);
    assert_eq!(env.get("base_url").map(|s| s.as_str()), Some("later wins"));
    assert_eq!(env.get("_1token").map(|s| s.as_str()), Some(" two words "));
    assert_eq!(env.get("mode").map(|s| s.as_str()), Some("a=b"));
    assert_eq!(env.len(), 3);
}

#[test]
fn one_escaped_env_line_reads_back() {
    for v in ["has space", "a=b", "plain", ""] {
        let content = format!("K={}", escape_env_value(v));
        let env = mercury::vars::parse_env(&content);
        assert_eq!(env.get("K").map(|s| s.as_str()), Some(v));
    }
}
