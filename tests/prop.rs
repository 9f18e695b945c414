use hybrid_mount::prop::parse_module_prop;

fn lines(v: &[&str]) -> Vec<String> {
    v.iter().map(|s| s.to_string()).collect()
}

#[test]
fn reads_known_keys_trimmed() {
    let p = parse_module_prop(&lines(&[
        "id=demo",
        " name = Demo Module ",
        "version=v1.2",
        "author=someone",
        "description=a = b",
        "no equals here",
    ]));
    assert_eq!(p.name, "Demo Module");
    assert_eq!(p.version, "v1.2");
    assert_eq!(p.author, "someone");
    assert_eq!(p.description, "a = b");
}

#[test]
fn last_line_wins_and_missing_is_empty() {
    let p = parse_module_prop(&lines(&["name=first", "name=second"]));
    assert_eq!(p.name, "second");
    assert_eq!(p.version, "");
    assert_eq!(p.author, "");
    assert_eq!(p.description, "");
    let e = parse_module_prop(&Vec::new());
    assert_eq!(e.name, "");
}
