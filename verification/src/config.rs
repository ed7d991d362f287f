//! What a run is configured with.

use crate::path::{join, join_spec, rendered, RelPath};
use vstd::prelude::*;

verus! {

/// The roots of the three trees, the variables file, and the flags of a run.
#[derive(Debug, PartialEq, Eq)]
pub struct Config {
    pub template_dir: String,
    pub build_dir: String,
    pub link_dir: String,
    pub variables_path: String,
    pub flags: Vec<String>,
}

impl Config {
    /// Where `relative` lies in the template tree.
    pub fn template_path(&self, relative: &RelPath) -> (path: String)
        ensures
            path@ == join_spec(self.template_dir@, rendered(relative@)),
    {
        let tail = relative.render();
        join(self.template_dir.as_str(), tail.as_str())
    }

    /// Where `relative` lies in the build tree.
    pub fn build_path(&self, relative: &RelPath) -> (path: String)
        ensures
            path@ == join_spec(self.build_dir@, rendered(relative@)),
    {
        let tail = relative.render();
        join(self.build_dir.as_str(), tail.as_str())
    }

    /// Where `relative` lies in the link tree.
    pub fn link_path(&self, relative: &RelPath) -> (path: String)
        ensures
            path@ == join_spec(self.link_dir@, rendered(relative@)),
    {
        let tail = relative.render();
        join(self.link_dir.as_str(), tail.as_str())
    }
}

/// What the user asked for.
#[derive(Debug, Clone, Copy, PartialEq, Eq, Structural)]
pub enum Action {
    Sync,
    Diff,
    Print,
}

/// One pass over a tree.
#[derive(Debug, Clone, Copy, PartialEq, Eq, Structural)]
pub enum Phase {
    /// Render the template tree into the build tree.
    Build,
    /// Link the build tree into the link tree.
    Link,
    /// Compare the build tree with what is linked.
    Compare,
    /// Collect the variables that the templates use.
    Scan,
}

/// The passes that `action` stands for, in the order they run.
pub open spec fn phases_spec(action: Action) -> Seq<Phase> {
    match action {
        Action::Sync => seq![Phase::Build, Phase::Link],
        Action::Diff => seq![Phase::Build, Phase::Compare],
        Action::Print => seq![Phase::Scan],
    }
}

/// The passes that `action` stands for. A pass starts only when the one
/// before it has succeeded.
pub fn phases(action: Action) -> (passes: Vec<Phase>)
    ensures
        passes@ == phases_spec(action),
{
    let mut passes: Vec<Phase> = Vec::new();
    match action {
        Action::Sync => {
            passes.push(Phase::Build);
            passes.push(Phase::Link);
        },
        Action::Diff => {
            passes.push(Phase::Build);
            passes.push(Phase::Compare);
        },
        Action::Print => {
            passes.push(Phase::Scan);
        },
    }
    assert(passes@ =~= phases_spec(action));
    passes
}

/// How much of the diagnostic output is shown.
#[derive(Debug, Clone, Copy, PartialEq, Eq, Structural)]
pub enum Verbosity {
    Warn,
    Info,
    Debug,
    Trace,
}

/// The level that `count` repetitions of the verbosity flag select.
pub open spec fn verbosity_spec(count: u8) -> Verbosity {
    if count == 0 {
        Verbosity::Warn
    } else if count == 1 {
        Verbosity::Info
    } else if count == 2 {
        Verbosity::Debug
    } else {
        Verbosity::Trace
    }
}

/// The level that `count` repetitions of the verbosity flag select.
pub fn verbosity(count: u8) -> (level: Verbosity)
    ensures
        level == verbosity_spec(count),
{
    match count {
        0 => Verbosity::Warn,
        1 => Verbosity::Info,
        2 => Verbosity::Debug,
        _ => Verbosity::Trace,
    }
}

} // verus!
