use http_serve::meta::{build_metadata, insert_header, Metadata};

fn pair(k: &str, v: &str) -> (String, String) {
    (String::from(k), String::from(v))
}

#[test]
fn duplicate_header_last_occurrence_wins() {
    let meta = build_metadata(
        String::from("GET"),
        String::from("/"),
        vec![pair("X-Test", "1"), pair("X-Test", "2")],
        None,
    );
    assert_eq!(meta.header_value("X-Test"), Some(&String::from("2")));
}

#[test]
fn headers_keep_other_names_intact() {
    let meta = build_metadata(
        String::from("POST"),
        String::from("/upload"),
        vec![
            pair("Host", "localhost"),
            pair("X-Test", "1"),
            pair("Accept", "*/*"),
            pair("X-Test", "2"),
        ],
        None,
    );
    assert_eq!(meta.header_value("Host"), Some(&String::from("localhost")));
    assert_eq!(meta.header_value("Accept"), Some(&String::from("*/*")));
    assert_eq!(meta.header_value("X-Test"), Some(&String::from("2")));
    assert_eq!(meta.header_value("Absent"), None);
    assert_eq!(meta.method, "POST");
    assert_eq!(meta.path, "/upload");
}

#[test]
fn metadata_parses_its_query() {
    let meta = build_metadata(
        String::from("GET"),
        String::from("/q"),
        vec![],
        Some("a=1&b=2=3&c"),
    );
    assert_eq!(
        meta.params,
        vec![
            vec![String::from("a"), String::from("1")],
            vec![String::from("b"), String::from("2"), String::from("3")],
            vec![String::from("c")],
        ]
    );
}

#[test]
fn no_query_means_no_params() {
    let meta = build_metadata(String::from("GET"), String::from("/"), vec![], None);
    assert!(meta.params.is_empty());
}

#[test]
fn insert_replaces_in_place() {
    let mut headers: Vec<(String, String)> = Vec::new();
    insert_header(&mut headers, String::from("a"), String::from("1"));
    insert_header(&mut headers, String::from("b"), String::from("2"));
    insert_header(&mut headers, String::from("a"), String::from("3"));
    assert_eq!(headers, vec![pair("a", "3"), pair("b", "2")]);
}

#[test]
fn record_is_plain_data() {
    let meta = Metadata {
        method: String::from("GET"),
        path: String::from("/x"),
        headers: vec![pair("k", "v")],
        params: vec![],
    };
    assert_eq!(meta.header_value("k"), Some(&String::from("v")));
}
