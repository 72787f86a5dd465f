use http_serve::query::{parse_query, split_str};

#[test]
fn query_splits_on_every_equals() {
    let parsed = parse_query("a=1&b=2=3&c");
    assert_eq!(
        parsed,
        vec![
            vec![String::from("a"), String::from("1")],
            vec![String::from("b"), String::from("2"), String::from("3")],
            vec![String::from("c")],
        ]
    );
}

#[test]
fn empty_query_yields_one_empty_fragment_list() {
    let parsed = parse_query("");
    assert_eq!(parsed, vec![vec![String::new()]]);
}

#[test]
fn adjacent_separators_yield_empty_fragments() {
    let parsed = parse_query("a&&b==c");
    assert_eq!(
        parsed,
        vec![
            vec![String::from("a")],
            vec![String::new()],
            vec![
                String::from("b"),
                String::new(),
                String::from("c"),
            ],
        ]
    );
}

#[test]
fn split_matches_std_split() {
    for s in ["", "x", "=x=", "a=b=c", "==", "key=value"] {
        let ours = split_str(s, '=');
        let std_split: Vec<String> = s.split('=').map(String::from).collect();
        assert_eq!(ours, std_split);
    }
}
