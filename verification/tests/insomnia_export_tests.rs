use mercury::import::{InsomniaBody, InsomniaHeader, InsomniaResource};
use mercury::insomnia_importer::{
    dashed_name, env_text, http_file_text, plan_insomnia_export, ExportWrite,
};

fn resources() -> Vec<InsomniaResource> {
    vec![
        InsomniaResource::Request {
            name: "List Users".into(),
            method: "GET".into(),
            url: "https://example.com/users".into(),
            headers: vec![
                InsomniaHeader { name: "Accept".into(), value: "*/*".into(), disabled: false },
                InsomniaHeader { name: "X-Off".into(), value: "1".into(), disabled: true },
            ],
            body: None,
            parent_id: Some("fld_1".into()),
        },
        InsomniaResource::Group { id: "fld_1".into(), name: "User API".into() },
        InsomniaResource::Environment {
            name: "Base Env".into(),
            data: vec![("host".into(), "localhost".into()), ("port".into(), "8080".into())],
        },
        InsomniaResource::Environment { name: "Empty".into(), data: vec![] },
        InsomniaResource::Request {
            name: "Create".into(),
            method: "POST".into(),
            url: "https://example.com/users".into(),
            headers: vec![],
            body: Some(InsomniaBody { text: Some("{\"a\":1}".into()) }),
            parent_id: None,
        },
        InsomniaResource::Other,
    ]
}

#[test]
fn insomnia_export_writes_envs_first_then_requests() {
    let plan = plan_insomnia_export(&resources());
    assert_eq!((plan.requests, plan.envs), (2, 1));
    assert_eq!(plan.writes.len(), 5);
    match &plan.writes[0] {
        ExportWrite::File { dir, file, content } => {
            assert!(dir.is_empty());
            assert_eq!(file, ".env.base-env");
            assert_eq!(content, "host=localhost\nport=8080\n");
        }
        other => panic!("unexpected {other:?}"),
    }
    match &plan.writes[1] {
        ExportWrite::Folder { path } => assert_eq!(path, &vec!["user-api".to_string()]),
        other => panic!("unexpected {other:?}"),
    }
    match &plan.writes[2] {
        ExportWrite::File { dir, file, content } => {
            assert_eq!(dir, &vec!["user-api".to_string()]);
            assert_eq!(file, "list-users.http");
            assert_eq!(content, "GET https://example.com/users\nAccept: */*\n");
        }
        other => panic!("unexpected {other:?}"),
    }
    match &plan.writes[4] {
        ExportWrite::File { dir, file, content } => {
            assert_eq!(dir, &vec!["imported".to_string()]);
            assert_eq!(file, "create.http");
            assert_eq!(content, "POST https://example.com/users\n\n{\"a\":1}\n");
        }
        other => panic!("unexpected {other:?}"),
    }
}

#[test]
fn insomnia_export_names_are_lowercase_with_dashes() {
    assert_eq!(dashed_name("My  Big API"), "my--big-api");
    assert_eq!(dashed_name(""), "");
}

#[test]
fn insomnia_export_texts() {
    assert_eq!(env_text(&vec![]), "");
    assert_eq!(
        http_file_text("PUT", "u", &vec![("A".to_string(), "1".to_string())], ""),
        "PUT u\nA: 1\n"
    );
}

#[test]
fn insomnia_export_of_nothing_writes_nothing() {
    let plan = plan_insomnia_export(&vec![]);
    assert!(plan.writes.is_empty());
    assert_eq!((plan.requests, plan.envs), (0, 0));
}
