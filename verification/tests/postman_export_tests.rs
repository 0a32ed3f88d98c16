use mercury::insomnia_importer::ExportWrite;
use mercury::postman_importer::{
    plan_collection, PostmanBody, PostmanCollection, PostmanHeader, PostmanItem, PostmanQueryParam,
    PostmanRequest, PostmanUrl,
};

fn request(method: &str, url: PostmanUrl, body: Option<&str>) -> PostmanRequest {
    PostmanRequest {
        method: method.into(),
        header: vec![
            PostmanHeader { key: "Accept".into(), value: "*/*".into(), disabled: false },
            PostmanHeader { key: "X-Off".into(), value: "1".into(), disabled: true },
        ],
        url,
        body: body.map(|b| PostmanBody { raw: Some(b.into()) }),
    }
}

fn leaf(name: &str, req: PostmanRequest) -> PostmanItem {
    PostmanItem { name: name.into(), item: vec![], request: Some(req) }
}

#[test]
fn postman_export_writes_env_folders_and_requests() {
    let c = PostmanCollection {
        name: "My API".into(),
        item: vec![
            leaf("Get Users", request("GET", PostmanUrl::String("https://x/users".into()), None)),
            PostmanItem {
                name: "Admin Area".into(),
                item: vec![
                    PostmanItem { name: "Empty".into(), item: vec![], request: None },
                    PostmanItem {
                        name: "Deep".into(),
                        item: vec![leaf(
                            "Create",
                            request(
                                "POST",
                                PostmanUrl::Object {
                                    raw: None,
                                    protocol: None,
                                    host: vec!["api".into(), "example".into(), "com".into()],
                                    path: vec!["v1".into(), "items".into()],
                                    query: vec![
                                        PostmanQueryParam { key: "a".into(), value: "1".into(), disabled: false },
                                        PostmanQueryParam { key: "b".into(), value: "2".into(), disabled: true },
                                    ],
                                },
                                Some("{}"),
                            ),
                        )],
                        request: None,
                    },
                ],
                request: None,
            },
        ],
        variable: vec![("host".into(), "localhost".into())],
    };
    let plan = plan_collection(&c);
    assert_eq!((plan.requests, plan.envs), (2, 1));
    let mut seen = Vec::new();
    for w in &plan.writes {
        match w {
            ExportWrite::Folder { path } => seen.push(format!("dir {}", path.join("/"))),
            ExportWrite::File { dir, file, content } => {
                seen.push(format!("file {}|{}|{}", dir.join("/"), file, content))
            }
        }
    }
    assert_eq!(
        seen,
        vec![
            "file |.env.my-api|host=localhost\n".to_string(),
            "file |get-users.http|GET https://x/users\nAccept: */*\n".to_string(),
            "dir admin-area".to_string(),
            "dir admin-area/deep".to_string(),
            "file admin-area/deep|create.http|POST https://api.example.com/v1/items?a=1\nAccept: */*\n\n{}\n"
                .to_string(),
        ]
    );
}

#[test]
fn postman_export_without_variables_writes_no_env() {
    let c = PostmanCollection { name: "X".into(), item: vec![], variable: vec![] };
    let plan = plan_collection(&c);
    assert!(plan.writes.is_empty());
    assert_eq!((plan.requests, plan.envs), (0, 0));
}
