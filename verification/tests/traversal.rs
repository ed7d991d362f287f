use dotfiles::builder::{dir, file_plan, FilePlan};
use dotfiles::config::Config;
use dotfiles::error::{Error, ErrorLocation, Errors, InnerError, IoFailure, IoKind};
use dotfiles::path::RelPath;
use dotfiles::walker::{
    classify, merge, prepared, DirStep, Entry, EntryKind, ListFailure, Listing,
};

/// A template tree held in memory.
enum Node {
    File,
    Unreadable,
    Link,
    Dir(Vec<(&'static str, Node)>),
    Locked,
    Vanished,
}

fn config() -> Config {
    Config {
        template_dir: "tpl".to_string(),
        build_dir: "build".to_string(),
        link_dir: "home".to_string(),
        variables_path: "vars.toml".to_string(),
        flags: vec![],
    }
}

fn denied() -> IoFailure {
    IoFailure { kind: IoKind::Other, message: "permission denied".to_string() }
}

/// What a build left behind: the directories made and the files written.
struct Built {
    dirs: Vec<String>,
    files: Vec<String>,
    exists: Vec<String>,
}

/// Runs the traversal over `node` the way a caller does, one level at a
/// time, and keeps a record of what would be written.
fn walk(cfg: &Config, node: &Node, step: DirStep, built: &mut Built) -> Result<Vec<String>, Errors> {
    let entries = match node {
        Node::Dir(entries) => entries,
        _ => unreachable!(),
    };
    let dest = step.dest.clone().unwrap();
    let made = if built.exists.contains(&dest) {
        Err(IoFailure { kind: IoKind::AlreadyExists, message: "File exists".to_string() })
    } else {
        Ok(())
    };
    prepared(&dest, made)?;
    built.dirs.push(dest);
    let listing = Listing {
        entries: entries
            .iter()
            .map(|(name, below)| Entry {
                name: name.to_string(),
                kind: match below {
                    Node::File | Node::Unreadable => Ok(EntryKind::File),
                    Node::Dir(_) | Node::Locked => Ok(EntryKind::Directory),
                    Node::Link => Ok(EntryKind::Other),
                    Node::Vanished => Err(IoFailure {
                        kind: IoKind::NotFound,
                        message: "No such file or directory".to_string(),
                    }),
                },
            })
            .collect(),
        failure: None,
    };
    let work = classify(&step, listing)?;
    let below = |relative: &RelPath| {
        let name = relative.file_name().unwrap();
        &entries.iter().find(|(entry, _)| *entry == name).unwrap().1
    };
    let mut files = Vec::new();
    for relative in &work.files {
        let plan = file_plan(cfg, relative);
        files.push(match below(relative) {
            Node::Unreadable => Err(denied().with_location(plan.source())),
            _ => {
                built.files.push(plan.target().to_string());
                Ok(vec![plan.source().to_string()])
            }
        });
    }
    let mut dirs = Vec::new();
    for relative in &work.dirs {
        let next = dir(cfg, relative);
        dirs.push(match below(relative) {
            Node::Locked => {
                let failure = Some(ListFailure::Open(denied()));
                classify(&next, Listing { entries: vec![], failure }).map(|_| vec![])
            }
            node => walk(cfg, node, next, built),
        });
    }
    merge(work.unreadable, files, dirs)
}

fn build(tree: &Node, exists: &[&str]) -> (Result<Vec<String>, Errors>, Built) {
    let cfg = config();
    let mut built = Built {
        dirs: vec![],
        files: vec![],
        exists: exists.iter().map(|path| path.to_string()).collect(),
    };
    let outcome = walk(&cfg, tree, dir(&cfg, &RelPath::root()), &mut built);
    built.dirs.sort();
    built.files.sort();
    (outcome, built)
}

fn sample() -> Node {
    Node::Dir(vec![
        ("bashrc.tpl", Node::File),
        ("notes", Node::File),
        (
            "config",
            Node::Dir(vec![
                ("git.tpl", Node::Dir(vec![("ignore", Node::File), ("config.tpl", Node::File)])),
                ("empty", Node::Dir(vec![])),
                ("a.b.tpl", Node::File),
            ]),
        ),
    ])
}

#[test]
fn build_tree_mirrors_template_tree_without_the_suffix() {
    let (outcome, built) = build(&sample(), &[]);
    assert_eq!(outcome.unwrap().len(), 5);
    assert_eq!(
        built.dirs,
        vec!["build/", "build/config", "build/config/empty", "build/config/git.tpl"]
    );
    assert_eq!(
        built.files,
        vec![
            "build/bashrc",
            "build/config/a.b",
            "build/config/git.tpl/config",
            "build/config/git.tpl/ignore",
            "build/notes",
        ]
    );
}

#[test]
fn every_file_is_read_where_it_lies() {
    let (outcome, _) = build(&sample(), &[]);
    let mut sources = outcome.unwrap();
    sources.sort();
    assert_eq!(
        sources,
        vec![
            "tpl/bashrc.tpl",
            "tpl/config/a.b.tpl",
            "tpl/config/git.tpl/config.tpl",
            "tpl/config/git.tpl/ignore",
            "tpl/notes",
        ]
    );
}

#[test]
fn building_again_into_a_populated_tree_succeeds() {
    let exists = ["build/", "build/config", "build/config/empty", "build/config/git.tpl"];
    let (first, built_first) = build(&sample(), &[]);
    let (again, built_again) = build(&sample(), &exists);
    assert_eq!(first.unwrap().len(), again.unwrap().len());
    assert_eq!(built_first.files, built_again.files);
    assert_eq!(built_first.dirs, built_again.dirs);
}

#[test]
fn links_and_the_like_are_passed_over() {
    let tree = Node::Dir(vec![("real", Node::File), ("link", Node::Link)]);
    let (outcome, built) = build(&tree, &[]);
    assert_eq!(outcome.unwrap(), vec!["tpl/real"]);
    assert_eq!(built.files, vec!["build/real"]);
}

#[test]
fn one_unreadable_file_and_nine_healthy_ones() {
    let mut entries = vec![("f3", Node::Unreadable)];
    for name in ["f0", "f1", "f2", "f4", "f5", "f6", "f7", "f8", "f9"] {
        entries.push((name, Node::File));
    }
    let (outcome, built) = build(&Node::Dir(entries), &[]);
    assert_eq!(
        outcome.unwrap_err(),
        Errors::from(Error::new("tpl/f3".to_string(), InnerError::Io(denied())))
    );
    assert_eq!(built.files.len(), 9);
}

#[test]
fn failures_in_separate_subtrees_are_all_reported() {
    let tree = Node::Dir(vec![
        ("a", Node::Dir(vec![("x", Node::Unreadable), ("y", Node::File)])),
        ("top", Node::Unreadable),
        ("locked", Node::Locked),
        ("b", Node::Dir(vec![("deep", Node::Dir(vec![("z", Node::Unreadable)]))])),
        ("fine", Node::File),
    ]);
    let (outcome, built) = build(&tree, &[]);
    let errors = outcome.unwrap_err();
    let mut places: Vec<String> = Vec::new();
    for i in 0..errors.len() {
        places.push(errors.get(i).location().to_string());
    }
    places.sort();
    assert_eq!(places, vec!["tpl/a/x", "tpl/b/deep/z", "tpl/locked", "tpl/top"]);
    assert_eq!(built.files, vec!["build/a/y", "build/fine"]);
    assert_eq!(errors.log().len(), 1 + 2 * 4);
}

#[test]
fn plans_tell_rendering_from_copying() {
    let cfg = config();
    let render = file_plan(&cfg, &RelPath::root().child("rc.tpl"));
    assert!(matches!(render, FilePlan::Render { .. }));
    let copy = file_plan(&cfg, &RelPath::root().child("rc"));
    assert!(matches!(copy, FilePlan::Copy { .. }));
}

#[test]
fn entry_that_vanished_after_the_listing() {
    let tree = Node::Dir(vec![
        ("a", Node::File),
        ("e", Node::Vanished),
        ("b.tpl", Node::File),
        ("d", Node::Dir(vec![("c", Node::File)])),
    ]);
    let (outcome, built) = build(&tree, &[]);
    let vanished = IoFailure {
        kind: IoKind::NotFound,
        message: "No such file or directory".to_string(),
    };
    assert_eq!(
        outcome.unwrap_err(),
        Errors::from(Error::new("tpl/e".to_string(), InnerError::Io(vanished)))
    );
    assert_eq!(built.files, vec!["build/a", "build/b", "build/d/c"]);
    assert_eq!(built.dirs, vec!["build/", "build/d"]);
}

#[test]
fn vanished_entries_at_several_levels_are_all_reported() {
    let tree = Node::Dir(vec![
        ("e", Node::Vanished),
        ("d", Node::Dir(vec![("x", Node::Vanished), ("y", Node::Unreadable), ("z", Node::File)])),
    ]);
    let (outcome, built) = build(&tree, &[]);
    let errors = outcome.unwrap_err();
    let mut places: Vec<String> = Vec::new();
    for i in 0..errors.len() {
        places.push(errors.get(i).location().to_string());
    }
    assert_eq!(places, vec!["tpl/e", "tpl/d/x", "tpl/d/y"]);
    assert_eq!(built.files, vec!["build/d/z"]);
}
