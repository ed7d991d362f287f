//! The builder: what becomes of each file of the template tree.

use crate::config::Config;
use crate::env::{
    bound, environment, environment_spec, supported, toml_table, variables, Env, Host, ValueView,
};
use crate::error::{Error, ErrorLocation, ErrorView, Errors, InnerError};
use crate::path::{join_spec, rendered, RelPath};
use crate::text::{chars_of, ends_with, ends_with_spec, texts};
use crate::walker::DirStep;
use vstd::prelude::*;
use vstd::string::*;

verus! {

/// The extension that marks a file as a template.
pub const TEMPLATE_EXTENSION: &'static str = "tpl";

/// The end of a template's name: a dot and the template extension.
pub open spec fn template_suffix() -> Seq<char> {
    seq!['.', 't', 'p', 'l']
}

/// The template suffix is the dot followed by [`TEMPLATE_EXTENSION`].
pub proof fn lemma_suffix_holds_extension()
    ensures
        template_suffix() == seq!['.'] + TEMPLATE_EXTENSION@,
{
    reveal_strlit("tpl");
    assert(template_suffix() =~= seq!['.'] + "tpl"@);
}

/// A file name marks a template when it ends in the template suffix and
/// something stands before the suffix.
pub open spec fn is_template_name(name: Seq<char>) -> bool {
    name.len() > template_suffix().len() && ends_with_spec(name, template_suffix())
}

/// The name under which a file is built: a template's name loses the suffix.
pub open spec fn built_name(name: Seq<char>) -> Seq<char> {
    if is_template_name(name) {
        name.take(name.len() - template_suffix().len())
    } else {
        name
    }
}

/// A relative path denotes a template when its final segment names one.
pub open spec fn is_template_spec(relative: Seq<Seq<char>>) -> bool {
    relative.len() > 0 && is_template_name(relative.last())
}

/// Where in the build tree the file at `relative` of the template tree goes.
pub open spec fn target_spec(relative: Seq<Seq<char>>) -> Seq<Seq<char>> {
    if relative.len() > 0 {
        relative.drop_last().push(built_name(relative.last()))
    } else {
        relative
    }
}

/// Whether `name` is the name of a template.
pub fn names_template(name: &str) -> (template: bool)
    ensures
        template == is_template_name(name@),
{
    let chars = chars_of(name);
    let suffix: Vec<char> = vec!['.', 't', 'p', 'l'];
    assert(suffix@ =~= template_suffix());
    chars.len() > suffix.len() && ends_with(&chars, &suffix)
}

/// Whether the file at `relative` is a template.
pub fn is_template(relative: &RelPath) -> (template: bool)
    ensures
        template == is_template_spec(relative@),
{
    match relative.file_name() {
        None => false,
        Some(name) => names_template(name),
    }
}

/// Where in the build tree the file at `relative` of the template tree goes.
pub fn target(relative: &RelPath) -> (built: RelPath)
    ensures
        built@ == target_spec(relative@),
{
    let n = relative.len();
    if n == 0 {
        return relative.duplicate();
    }
    let name = relative.segment(n - 1);
    let parent = relative.prefix(n - 1);
    assert(relative@.take(n - 1) =~= relative@.drop_last());
    if names_template(name) {
        let length = name.unicode_len();
        let stem = name.substring_char(0, length - 4);
        assert(name@.subrange(0, length - 4) =~= name@.take(length - 4));
        parent.child(stem)
    } else {
        parent.child(name)
    }
}

/// What is to be done with one file of the template tree.
#[derive(Debug, PartialEq, Eq)]
pub enum FilePlan {
    /// Read `source` as a template, render it, and write the result to `target`.
    Render { source: String, target: String },
    /// Copy `source` to `target` byte for byte.
    Copy { source: String, target: String },
}

/// Whether `plan` is the plan for the file at `relative` under `cfg`: a
/// template is rendered from its place in the template tree to its place
/// in the build tree without the suffix; any other file is copied from
/// the one place to the other.
pub open spec fn plans_file(plan: FilePlan, cfg: Config, relative: Seq<Seq<char>>) -> bool {
    &&& is_template_spec(relative) ==> (plan matches FilePlan::Render { source, target }
        && source@ == join_spec(cfg.template_dir@, rendered(relative)) && target@ == join_spec(
        cfg.build_dir@,
        rendered(target_spec(relative)),
    ))
    &&& !is_template_spec(relative) ==> (plan matches FilePlan::Copy { source, target }
        && source@ == join_spec(cfg.template_dir@, rendered(relative)) && target@ == join_spec(
        cfg.build_dir@,
        rendered(relative),
    ))
}

/// Decides what is to be done with the file at `relative`.
pub fn file_plan(cfg: &Config, relative: &RelPath) -> (plan: FilePlan)
    ensures
        plans_file(plan, *cfg, relative@),
{
    let source = cfg.template_path(relative);
    if is_template(relative) {
        let built = target(relative);
        FilePlan::Render { source, target: cfg.build_path(&built) }
    } else {
        FilePlan::Copy { source, target: cfg.build_path(relative) }
    }
}

/// The steps in which a file is built.
#[derive(Debug, Clone, Copy, PartialEq, Eq, Structural)]
pub enum Step {
    /// Opening the template.
    Open,
    /// Reading the template as text.
    Read,
    /// Reading the template's permission bits.
    Permissions,
    /// Parsing the template.
    Parse,
    /// Rendering the template with the bindings.
    Render,
    /// Creating the built file.
    Create,
    /// Writing the rendered bytes.
    Write,
    /// Setting the built file's permission bits.
    SetPermissions,
    /// Copying a file that is no template.
    Copy,
}

/// Whether a failure of `step` concerns the built file rather than the source.
pub open spec fn concerns_target(step: Step) -> bool {
    step == Step::Create || step == Step::Write || step == Step::SetPermissions
}

impl FilePlan {
    /// The file that is read.
    pub open spec fn source_spec(self) -> Seq<char> {
        match self {
            FilePlan::Render { source, target } => source@,
            FilePlan::Copy { source, target } => source@,
        }
    }

    /// The file that is written.
    pub open spec fn target_spec(self) -> Seq<char> {
        match self {
            FilePlan::Render { source, target } => target@,
            FilePlan::Copy { source, target } => target@,
        }
    }

    /// The file that is read.
    pub fn source(&self) -> (path: &str)
        ensures
            path@ == self.source_spec(),
    {
        match self {
            FilePlan::Render { source, target } => source.as_str(),
            FilePlan::Copy { source, target } => source.as_str(),
        }
    }

    /// The file that is written.
    pub fn target(&self) -> (path: &str)
        ensures
            path@ == self.target_spec(),
    {
        match self {
            FilePlan::Render { source, target } => target.as_str(),
            FilePlan::Copy { source, target } => target.as_str(),
        }
    }

    /// Locates the failure `inner` of `step`: at the written file when the
    /// step creates or writes it or sets its permissions, at the source
    /// otherwise.
    pub fn failed(&self, step: Step, inner: InnerError) -> (error: Error)
        ensures
            error@ == (ErrorView {
                location: if concerns_target(step) {
                    self.target_spec()
                } else {
                    self.source_spec()
                },
                inner,
            }),
    {
        match step {
            Step::Create | Step::Write | Step::SetPermissions => inner.with_location(self.target()),
            _ => inner.with_location(self.source()),
        }
    }
}

/// The directory at `relative` of the template tree, mirrored in the build tree.
pub fn dir(cfg: &Config, relative: &RelPath) -> (step: DirStep)
    ensures
        step.relative@ == relative@,
        step.source@ == join_spec(cfg.template_dir@, rendered(relative@)),
        step.dest matches Some(dest) && dest@ == join_spec(cfg.build_dir@, rendered(relative@)),
{
    DirStep {
        relative: relative.duplicate(),
        source: cfg.template_path(relative),
        dest: Some(cfg.build_path(relative)),
    }
}

/// A build that is ready to start: the binding set to render with, and
/// the root of the template tree as the first directory to enter.
#[derive(Debug)]
pub struct Build {
    pub env: Env,
    pub root: DirStep,
}

/// Whether `build` is the build of `cfg` on the machine `host` with the
/// variables `defined` by the variables file.
pub open spec fn is_build_of(
    build: Build,
    cfg: Config,
    host: Host,
    defined: Seq<(Seq<char>, ValueView)>,
) -> bool {
    &&& build.env@ == environment_spec(
        host.hostname@,
        host.username@,
        host.os@,
        defined,
        texts(cfg.flags@),
    )
    &&& build.root.relative@ == Seq::<Seq<char>>::empty()
    &&& build.root.source@ == join_spec(cfg.template_dir@, Seq::empty())
    &&& build.root.dest matches Some(dest) && dest@ == join_spec(cfg.build_dir@, Seq::empty())
}

/// Prepares the build of the template tree: assembles the binding set
/// from what is known of the machine, from the text of the variables file
/// where there is one, and from the flags, and names the root directory.
/// A variables file that cannot be used fails the build with one error
/// located at the file.
pub fn build_tree(cfg: &Config, host: Host, variables_text: Option<&str>) -> (r: Result<
    Build,
    Errors,
>)
    ensures
        match variables_text {
            None => r matches Ok(build) && is_build_of(build, *cfg, host, Seq::empty()),
            Some(text) => match toml_table(text@) {
                None => r matches Err(errors) && errors@.len() == 1 && errors@[0].location
                    == cfg.variables_path@ && errors@[0].inner is Toml,
                Some(entries) => if supported(entries) {
                    r matches Ok(build) && is_build_of(build, *cfg, host, bound(entries))
                } else {
                    r matches Err(errors) && errors@ == seq![
                        ErrorView { location: cfg.variables_path@, inner: InnerError::Type },
                    ]
                },
            },
        },
{
    let defined = match variables_text {
        None => Vec::new(),
        Some(text) => match variables(text) {
            Ok(defined) => defined,
            Err(inner) => {
                return Err(Errors::single(inner.with_location(cfg.variables_path.as_str())));
            },
        },
    };
    proof {
        if variables_text is None {
            assert(crate::env::pairs(defined@) =~= Seq::empty());
        }
    }
    let env = environment(host, defined, &cfg.flags);
    let start = RelPath::root();
    Ok(Build { env, root: dir(cfg, &start) })
}

/// Building again plans the same: what is done with a file, from where
/// and to where, depends on the configuration and on the file's relative
/// path alone, not on what an earlier build left behind.
pub proof fn lemma_rebuilding_plans_the_same(
    cfg: Config,
    relative: Seq<Seq<char>>,
    first: FilePlan,
    second: FilePlan,
)
    requires
        plans_file(first, cfg, relative),
        plans_file(second, cfg, relative),
    ensures
        first is Render <==> second is Render,
        first.source_spec() == second.source_spec(),
        first.target_spec() == second.target_spec(),
{
}

} // verus!
