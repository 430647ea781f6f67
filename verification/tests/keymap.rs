use fuzzy_finder::keymap::parse_bind_spec;

fn chars(s: &str) -> Vec<char> {
    s.chars().collect()
}

fn strings(pairs: Vec<(Vec<char>, Vec<char>)>) -> Vec<(String, String)> {
    pairs
        .into_iter()
        .map(|(k, a)| (k.into_iter().collect(), a.into_iter().collect()))
        .collect()
}

#[test]
fn parses_comma_separated_bindings() {
    let r = parse_bind_spec(&chars("ctrl-j:accept,ctrl-k:kill-line")).unwrap();
    assert_eq!(
        strings(r),
        vec![
            ("ctrl-j".to_string(), "accept".to_string()),
            ("ctrl-k".to_string(), "kill-line".to_string()),
        ]
    );
}

#[test]
fn splits_each_entry_at_its_first_colon() {
    let r = parse_bind_spec(&chars("key:a:b")).unwrap();
    assert_eq!(strings(r), vec![("key".to_string(), "a:b".to_string())]);
}

#[test]
fn reports_the_first_malformed_entry() {
    assert_eq!(parse_bind_spec(&chars("a:b,nocolon,c:d")), Err(1));
    // an empty spec is one entry with no colon
    assert_eq!(parse_bind_spec(&chars("")), Err(0));
}
