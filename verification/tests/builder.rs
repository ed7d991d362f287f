use dotfiles::builder::{
    build_tree, dir, file_plan, is_template, names_template, target, FilePlan, Step,
    TEMPLATE_EXTENSION,
};
use dotfiles::config::Config;
use dotfiles::env::{Host, Value};
use dotfiles::error::{Error, Errors, InnerError, IoFailure, IoKind, TemplateFailure};
use dotfiles::path::RelPath;

fn rel(names: &[&str]) -> RelPath {
    let mut path = RelPath::root();
    for name in names {
        path = path.child(name);
    }
    path
}

fn config(flags: &[&str]) -> Config {
    Config {
        template_dir: "tpl".to_string(),
        build_dir: "build".to_string(),
        link_dir: "home".to_string(),
        variables_path: "conf/variables.toml".to_string(),
        flags: flags.iter().map(|flag| flag.to_string()).collect(),
    }
}

fn host() -> Host {
    Host { hostname: "box".to_string(), username: "me".to_string(), os: "linux".to_string() }
}

#[test]
fn the_template_extension() {
    assert_eq!(TEMPLATE_EXTENSION, "tpl");
}

#[test]
fn template_names() {
    assert!(names_template("a.tpl"));
    assert!(names_template("a.b.tpl"));
    assert!(names_template(".bashrc.tpl"));
    assert!(names_template("..tpl"));
    assert!(!names_template(".tpl"));
    assert!(!names_template("tpl"));
    assert!(!names_template(""));
    assert!(!names_template("a.tpl.bak"));
    assert!(!names_template("a.TPL"));
    assert!(!names_template("atpl"));
    assert!(!names_template("a.tpl "));
}

#[test]
fn template_paths_go_by_the_final_segment() {
    assert!(is_template(&rel(&["dir", "a.tpl"])));
    assert!(!is_template(&rel(&["dir.tpl", "a"])));
    assert!(!is_template(&RelPath::root()));
}

#[test]
fn targets_lose_the_suffix() {
    assert_eq!(target(&rel(&["dir", "a.tpl"])), rel(&["dir", "a"]));
    assert_eq!(target(&rel(&["a.b.tpl"])), rel(&["a.b"]));
    assert_eq!(target(&rel(&["dir.tpl", "a"])), rel(&["dir.tpl", "a"]));
    assert_eq!(target(&rel(&[".tpl"])), rel(&[".tpl"]));
    assert_eq!(target(&RelPath::root()), RelPath::root());
    assert_eq!(target(&rel(&["ö.tpl"])), rel(&["ö"]));
}

#[test]
fn a_template_is_rendered() {
    let plan = file_plan(&config(&[]), &rel(&["sub", "rc.tpl"]));
    assert_eq!(
        plan,
        FilePlan::Render {
            source: "tpl/sub/rc.tpl".to_string(),
            target: "build/sub/rc".to_string()
        }
    );
    assert_eq!(plan.source(), "tpl/sub/rc.tpl");
    assert_eq!(plan.target(), "build/sub/rc");
}

#[test]
fn another_file_is_copied() {
    let plan = file_plan(&config(&[]), &rel(&["sub", "rc"]));
    assert_eq!(
        plan,
        FilePlan::Copy { source: "tpl/sub/rc".to_string(), target: "build/sub/rc".to_string() }
    );
}

#[test]
fn failures_are_located_by_step() {
    let plan = file_plan(&config(&[]), &rel(&["rc.tpl"]));
    let at_source = [Step::Open, Step::Read, Step::Permissions, Step::Parse, Step::Render, Step::Copy];
    for step in at_source {
        assert_eq!(
            plan.failed(step, InnerError::Type),
            Error::new("tpl/rc.tpl".to_string(), InnerError::Type)
        );
    }
    let at_target = [Step::Create, Step::Write, Step::SetPermissions];
    for step in at_target {
        assert_eq!(
            plan.failed(step, InnerError::Type),
            Error::new("build/rc".to_string(), InnerError::Type)
        );
    }
}

#[test]
fn failures_keep_their_cause() {
    let plan = file_plan(&config(&[]), &rel(&["rc.tpl"]));
    let cause = InnerError::Template(TemplateFailure::Render("undefined variable".to_string()));
    let error = plan.failed(Step::Render, cause);
    assert_eq!(
        error.inner(),
        &InnerError::Template(TemplateFailure::Render("undefined variable".to_string()))
    );
    let copy = file_plan(&config(&[]), &rel(&["rc"]));
    let io = InnerError::Io(IoFailure { kind: IoKind::Other, message: "disk full".to_string() });
    assert_eq!(copy.failed(Step::Copy, io).location(), "tpl/rc");
}

#[test]
fn directories_are_mirrored_under_their_own_name() {
    let step = dir(&config(&[]), &rel(&["a.tpl", "b"]));
    assert_eq!(step.relative, rel(&["a.tpl", "b"]));
    assert_eq!(step.source, "tpl/a.tpl/b");
    assert_eq!(step.dest, Some("build/a.tpl/b".to_string()));
}

#[test]
fn build_without_variables_file() {
    let build = build_tree(&config(&["work"]), host(), None).unwrap();
    assert_eq!(build.env.len(), 4);
    assert_eq!(build.env.get("hostname"), Some(&Value::Str("box".to_string())));
    assert_eq!(build.env.get("username"), Some(&Value::Str("me".to_string())));
    assert_eq!(build.env.get("os"), Some(&Value::Str("linux".to_string())));
    assert_eq!(build.env.get("work"), Some(&Value::Bool(true)));
    assert_eq!(build.env.get("play"), None);
    assert_eq!(build.root.relative, RelPath::root());
    assert_eq!(build.root.source, "tpl/");
    assert_eq!(build.root.dest, Some("build/".to_string()));
}

#[test]
fn flag_overrides_file_defined_key() {
    let build = build_tree(&config(&["k"]), host(), Some("k = false\n")).unwrap();
    assert_eq!(build.env.get("k"), Some(&Value::Bool(true)));
}

#[test]
fn file_overrides_computed_binding() {
    let text = "hostname = \"override\"\neditor = \"vi\"\ndark = false\n";
    let build = build_tree(&config(&[]), host(), Some(text)).unwrap();
    assert_eq!(build.env.get("hostname"), Some(&Value::Str("override".to_string())));
    assert_eq!(build.env.get("editor"), Some(&Value::Str("vi".to_string())));
    assert_eq!(build.env.get("dark"), Some(&Value::Bool(false)));
    assert_eq!(build.env.get("os"), Some(&Value::Str("linux".to_string())));
    assert_eq!(build.env.len(), 5);
}

#[test]
fn flag_overrides_computed_binding() {
    let build = build_tree(&config(&["os", "os"]), host(), None).unwrap();
    assert_eq!(build.env.get("os"), Some(&Value::Bool(true)));
    assert_eq!(build.env.len(), 3);
}

#[test]
fn unsupported_variable_type_fails_the_build() {
    let errors = build_tree(&config(&[]), host(), Some("a = \"x\"\nn = 1\n")).unwrap_err();
    assert_eq!(
        errors,
        Errors::from(Error::new("conf/variables.toml".to_string(), InnerError::Type))
    );
}

#[test]
fn broken_variables_file_fails_the_build() {
    let errors = build_tree(&config(&[]), host(), Some("a = = 1")).unwrap_err();
    assert_eq!(errors.len(), 1);
    assert_eq!(errors.get(0).location(), "conf/variables.toml");
    assert!(matches!(errors.get(0).inner(), InnerError::Toml(_)));
    assert_eq!(errors.get(0).inner().message(), "Failed to parse toml file");
}

#[test]
fn template_names_agree_with_path_extensions() {
    let samples = [
        "a.tpl", "a.b.tpl", ".tpl", "tpl", "a.tpl.bak", "a.TPL", "..tpl", "a.", "a", ".a.tpl",
        "x.tplx", "tpl.tpl",
    ];
    for name in samples {
        let path = std::path::Path::new(name);
        let expected = path.extension().and_then(|extension| extension.to_str()) == Some("tpl");
        assert_eq!(names_template(name), expected);
        let mut stripped = path.to_path_buf();
        if expected {
            stripped.set_extension("");
        }
        assert_eq!(target(&rel(&["d", name])).render(), format!("d/{}", stripped.to_str().unwrap()));
    }
}
