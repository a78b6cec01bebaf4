use minigrep::config::Config;

fn args(v: &[&str]) -> Vec<String> {
    v.iter().map(|s| s.to_string()).collect()
}

#[test]
fn program_name_alone_is_insufficient() {
    let r = Config::new(&args(&["prog"]));
    assert_eq!(r.err(), Some("not enough arguments"));
}

#[test]
fn missing_path_is_insufficient() {
    assert!(Config::new(&args(&[])).is_err());
    let r = Config::new(&args(&["prog", "query"]));
    assert_eq!(r.err(), Some("not enough arguments"));
}

#[test]
fn three_arguments_give_query_and_path() {
    let c = Config::new(&args(&["prog", "needle", "poem.txt"])).ok().unwrap();
    assert_eq!(c.query, "needle");
    assert_eq!(c.filename, "poem.txt");
}

#[test]
fn extra_arguments_are_ignored() {
    let c = Config::new(&args(&["prog", "a", "b", "c", "d"])).ok().unwrap();
    assert_eq!(c.query, "a");
    assert_eq!(c.filename, "b");
}
