use dotfiles::config::Config;
use dotfiles::error::{Error, Errors};
use dotfiles::path::RelPath;
use dotfiles::peeker::{dir, file_plan, print_variables};
use dotfiles::walker::merge;

fn rel(names: &[&str]) -> RelPath {
    let mut path = RelPath::root();
    for name in names {
        path = path.child(name);
    }
    path
}

fn config() -> Config {
    Config {
        template_dir: "tpl".to_string(),
        build_dir: "build".to_string(),
        link_dir: "home".to_string(),
        variables_path: "vars.toml".to_string(),
        flags: vec![],
    }
}

fn names(list: &[&str]) -> Vec<String> {
    list.iter().map(|name| name.to_string()).collect()
}

#[test]
fn templates_are_looked_into() {
    assert_eq!(file_plan(&config(), &rel(&["a", "rc.tpl"])), Some("tpl/a/rc.tpl".to_string()));
}

#[test]
fn other_files_contribute_nothing() {
    assert_eq!(file_plan(&config(), &rel(&["a", "rc"])), None);
    assert_eq!(file_plan(&config(), &rel(&[".tpl"])), None);
}

#[test]
fn scanned_directories_have_no_mirror() {
    let step = dir(&config(), &rel(&["a"]));
    assert_eq!(step.relative, rel(&["a"]));
    assert_eq!(step.source, "tpl/a");
    assert_eq!(step.dest, None);
    assert_eq!(dir(&config(), &RelPath::root()).source, "tpl/");
}

#[test]
fn two_templates_referencing_a_and_a_b() {
    let files: Vec<Result<Vec<String>, Error>> = vec![Ok(names(&["a"])), Ok(names(&["a", "b"]))];
    let dirs: Vec<Result<Vec<String>, Errors>> = vec![];
    let found = merge(Errors::new(), files, dirs).unwrap();
    assert_eq!(print_variables(found), names(&["a", "b"]));
}

#[test]
fn names_are_sorted_and_reported_once() {
    let found = names(&["zeta", "b", "alpha", "b", "B", "alpha", "", "a1", "a", "ab"]);
    assert_eq!(print_variables(found), names(&["", "B", "a", "a1", "ab", "alpha", "b", "zeta"]));
}

#[test]
fn names_are_ordered_like_strings() {
    let found = names(&["é", "z", "e", "ez", "日本", "~", "Z", "ée", "\u{10000}", "\u{ffff}"]);
    let mut expected = found.clone();
    expected.sort_unstable();
    expected.dedup();
    assert_eq!(print_variables(found), expected);
}

#[test]
fn no_variable_gives_no_line() {
    assert_eq!(print_variables(vec![]), names(&[]));
}

#[test]
fn reporting_is_idempotent() {
    let once = print_variables(names(&["c", "a", "b", "a"]));
    let twice = print_variables(print_variables(names(&["c", "a", "b", "a"])));
    assert_eq!(once, twice);
}
