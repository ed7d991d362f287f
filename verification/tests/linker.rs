use dotfiles::config::Config;
use dotfiles::error::{Error, InnerError, IoFailure, IoKind};
use dotfiles::linker::{dir, file_plan, link_target, link_tree, removed, LinkPlan};
use dotfiles::path::RelPath;

fn rel(names: &[&str]) -> RelPath {
    let mut path = RelPath::root();
    for name in names {
        path = path.child(name);
    }
    path
}

fn config(build: &str, link: &str) -> Config {
    Config {
        template_dir: "tpl".to_string(),
        build_dir: build.to_string(),
        link_dir: link.to_string(),
        variables_path: "vars.toml".to_string(),
        flags: vec![],
    }
}

fn failure(kind: IoKind) -> IoFailure {
    IoFailure { kind, message: "it failed".to_string() }
}

/// Resolves `target` from the directory `from`, both relative and without dots.
fn resolve(from: &str, target: &str) -> String {
    let mut reached: Vec<&str> = from.split('/').filter(|piece| !piece.is_empty()).collect();
    for piece in target.split('/') {
        if piece == ".." {
            reached.pop();
        } else if !piece.is_empty() {
            reached.push(piece);
        }
    }
    reached.join("/")
}

#[test]
fn relative_target_climbs_out_of_the_link_directory() {
    let target = link_target("build_root/sub/file", "link_root/sub/file");
    assert_eq!(target, "../../build_root/sub/file");
    assert_eq!(resolve("link_root/sub/", &target), "build_root/sub/file");
}

#[test]
fn absolute_build_path_is_the_target() {
    assert_eq!(link_target("/var/cache/build/sub/file", "link_root/sub/file"), "/var/cache/build/sub/file");
    assert_eq!(link_target("/b/f", "/home/me/f"), "/b/f");
}

#[test]
fn link_beside_the_working_directory_needs_no_climb() {
    assert_eq!(link_target("build/file", "file"), "build/file");
    assert_eq!(link_target("build/file", "./file"), "build/file");
}

#[test]
fn climb_counts_names_only() {
    assert_eq!(link_target("b/f", "l/f"), "../b/f");
    assert_eq!(link_target("b/f", "./l//x/./f"), "../../b/f");
    assert_eq!(link_target("b/f", "a/b/c/d/f"), "../../../../b/f");
}

#[test]
fn link_plan_for_a_file() {
    let plan = file_plan(&config("build_root", "link_root"), &rel(&["sub", "file"]));
    assert_eq!(
        plan,
        LinkPlan {
            link: "link_root/sub/file".to_string(),
            target: "../../build_root/sub/file".to_string()
        }
    );
}

#[test]
fn link_plan_with_absolute_build_root() {
    let plan = file_plan(&config("/cache/dotfiles", "/home/me"), &rel(&[".bashrc"]));
    assert_eq!(plan.link, "/home/me/.bashrc");
    assert_eq!(plan.target, "/cache/dotfiles/.bashrc");
}

#[test]
fn nothing_to_remove_is_no_failure() {
    assert_eq!(removed("home/rc", Err(failure(IoKind::NotFound))), Ok(()));
    assert_eq!(removed("home/rc", Ok(())), Ok(()));
}

#[test]
fn other_removal_failures_are_located_at_the_link() {
    assert_eq!(
        removed("home/rc", Err(failure(IoKind::Other))),
        Err(Error::new("home/rc".to_string(), InnerError::Io(failure(IoKind::Other))))
    );
    assert_eq!(
        removed("home/rc", Err(failure(IoKind::AlreadyExists))),
        Err(Error::new("home/rc".to_string(), InnerError::Io(failure(IoKind::AlreadyExists))))
    );
}

#[test]
fn link_directories_mirror_build_directories() {
    let step = dir(&config("build", "home"), &rel(&["a", "b"]));
    assert_eq!(step.relative, rel(&["a", "b"]));
    assert_eq!(step.source, "build/a/b");
    assert_eq!(step.dest, Some("home/a/b".to_string()));
}

#[test]
fn linking_starts_at_the_roots() {
    let step = link_tree(&config("build", "home"));
    assert_eq!(step.relative, RelPath::root());
    assert_eq!(step.source, "build/");
    assert_eq!(step.dest, Some("home/".to_string()));
}
