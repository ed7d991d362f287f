//! The linker: every file of the build tree gets a symbolic link in the
//! link tree.

use crate::config::Config;
use crate::error::{Error, ErrorLocation, ErrorView, InnerError, IoFailure, IoKind};
use crate::path::{
    component_count, components, is_absolute, is_absolute_spec, join, join_spec,
    lemma_components_of_join, named, names_something, pieces, rendered, RelPath,
};
use crate::walker::DirStep;
use vstd::prelude::*;
use vstd::string::*;

verus! {

/// The step from a directory to its parent.
pub open spec fn parent_step() -> Seq<char> {
    seq!['.', '.']
}

/// The path that climbs `steps` directories.
pub open spec fn ascent(steps: nat) -> Seq<char>
    decreases steps,
{
    if steps == 0 {
        Seq::empty()
    } else {
        join_spec(ascent((steps - 1) as nat), parent_step())
    }
}

/// How many directories lie between the place paths are relative to and the
/// directory that holds the link at `link`: one for every component of
/// `link` but the last.
pub open spec fn parent_depth(link: Seq<char>) -> nat {
    let count = components(link).len();
    if count == 0 {
        0
    } else {
        (count - 1) as nat
    }
}

/// What the link at `link` holds so that it leads to `build`: `build`
/// itself when that is absolute; otherwise the climb from the link's
/// directory, followed by `build`.
pub open spec fn link_target_spec(build: Seq<char>, link: Seq<char>) -> Seq<char> {
    if is_absolute_spec(build) {
        build
    } else {
        join_spec(ascent(parent_depth(link)), build)
    }
}

/// Computes what the link at `link` holds so that it leads to `build`.
pub fn link_target(build: &str, link: &str) -> (target: String)
    ensures
        target@ == link_target_spec(build@, link@),
{
    if is_absolute(build) {
        return String::from_str(build);
    }
    let count = component_count(link);
    let depth = if count == 0 {
        0
    } else {
        count - 1
    };
    let mut climb = String::new();
    let mut i: usize = 0;
    while i < depth
        invariant
            i <= depth,
            climb@ == ascent(i as nat),
        decreases depth - i,
    {
        proof {
            reveal_strlit("..");
            assert(".."@ =~= parent_step());
        }
        climb = join(climb.as_str(), "..");
        i = i + 1;
    }
    join(climb.as_str(), build)
}

/// What is to be done for one file of the build tree: a link at `link`
/// that holds `target`.
#[derive(Debug, PartialEq, Eq)]
pub struct LinkPlan {
    pub link: String,
    pub target: String,
}

/// Whether `plan` is the plan for the file at `relative` under `cfg`: the
/// link stands at the file's place in the link tree and holds what leads
/// from there to the file's place in the build tree.
pub open spec fn plans_link(plan: LinkPlan, cfg: Config, relative: Seq<Seq<char>>) -> bool {
    &&& plan.link@ == join_spec(cfg.link_dir@, rendered(relative))
    &&& plan.target@ == link_target_spec(
        join_spec(cfg.build_dir@, rendered(relative)),
        join_spec(cfg.link_dir@, rendered(relative)),
    )
}

/// Decides where the link for the file at `relative` stands and what it holds.
pub fn file_plan(cfg: &Config, relative: &RelPath) -> (plan: LinkPlan)
    ensures
        plans_link(plan, *cfg, relative@),
{
    let link = cfg.link_path(relative);
    let build = cfg.build_path(relative);
    let target = link_target(build.as_str(), link.as_str());
    LinkPlan { link, target }
}

/// Whether the outcome of removing what stood at a link's place leaves
/// the place free: something was removed, or nothing stood there.
pub open spec fn cleared(outcome: Result<(), IoFailure>) -> bool {
    outcome is Ok || outcome->Err_0.kind == IoKind::NotFound
}

/// Judges the outcome of removing what stood at `link` before. That
/// nothing stood there is no failure; any other failure is located at
/// `link`, and the file gets no link.
pub fn removed(link: &str, outcome: Result<(), IoFailure>) -> (r: Result<(), Error>)
    ensures
        r is Ok <==> cleared(outcome),
        !cleared(outcome) ==> r->Err_0@ == (ErrorView {
            location: link@,
            inner: InnerError::Io(outcome->Err_0),
        }),
{
    match outcome {
        Ok(_) => Ok(()),
        Err(failure) => {
            if failure.kind == IoKind::NotFound {
                Ok(())
            } else {
                Err(failure.with_location(link))
            }
        },
    }
}

/// The directory at `relative` of the build tree, mirrored in the link tree.
pub fn dir(cfg: &Config, relative: &RelPath) -> (step: DirStep)
    ensures
        step.relative@ == relative@,
        step.source@ == join_spec(cfg.build_dir@, rendered(relative@)),
        step.dest matches Some(dest) && dest@ == join_spec(cfg.link_dir@, rendered(relative@)),
{
    DirStep {
        relative: relative.duplicate(),
        source: cfg.build_path(relative),
        dest: Some(cfg.link_path(relative)),
    }
}

/// Where linking starts: at the root of the build tree, mirrored at the
/// root of the link tree.
pub fn link_tree(cfg: &Config) -> (step: DirStep)
    ensures
        step.relative@ == Seq::<Seq<char>>::empty(),
        step.source@ == join_spec(cfg.build_dir@, Seq::empty()),
        step.dest matches Some(dest) && dest@ == join_spec(cfg.link_dir@, Seq::empty()),
{
    let root = RelPath::root();
    dir(cfg, &root)
}

/// Where one gets by following `components` from the place that `reached`
/// names: a parent step takes back the last name where there is one to
/// take back; anything else is a name to descend into.
pub open spec fn followed(reached: Seq<Seq<char>>, components: Seq<Seq<char>>) -> Seq<Seq<char>>
    decreases components.len(),
{
    if components.len() == 0 {
        reached
    } else if components[0] == parent_step() && reached.len() > 0 && reached.last()
        != parent_step() {
        followed(reached.drop_last(), components.drop_first())
    } else {
        followed(reached.push(components[0]), components.drop_first())
    }
}

/// Where a relative path leads, seen from the place it is relative to.
pub open spec fn resolved(components: Seq<Seq<char>>) -> Seq<Seq<char>> {
    followed(Seq::empty(), components)
}

/// The components of a climb of `steps` directories.
pub open spec fn climb(steps: nat) -> Seq<Seq<char>> {
    Seq::new(steps, |i: int| parent_step())
}

proof fn lemma_followed_appended(
    reached: Seq<Seq<char>>,
    first: Seq<Seq<char>>,
    second: Seq<Seq<char>>,
)
    ensures
        followed(reached, first + second) == followed(followed(reached, first), second),
    decreases first.len(),
{
    if first.len() == 0 {
        assert(first + second =~= second);
    } else {
        let whole = first + second;
        assert(whole[0] == first[0]);
        assert(whole.drop_first() =~= first.drop_first() + second);
        if first[0] == parent_step() && reached.len() > 0 && reached.last() != parent_step() {
            lemma_followed_appended(reached.drop_last(), first.drop_first(), second);
        } else {
            lemma_followed_appended(reached.push(first[0]), first.drop_first(), second);
        }
    }
}

proof fn lemma_followed_names(reached: Seq<Seq<char>>, names: Seq<Seq<char>>)
    requires
        forall|i: int| 0 <= i < names.len() ==> names[i] != parent_step(),
    ensures
        followed(reached, names) == reached + names,
    decreases names.len(),
{
    if names.len() == 0 {
        assert(reached + names =~= reached);
    } else {
        lemma_followed_names(reached.push(names[0]), names.drop_first());
        assert(reached.push(names[0]) + names.drop_first() =~= reached + names);
    }
}

proof fn lemma_followed_climb(names: Seq<Seq<char>>)
    requires
        forall|i: int| 0 <= i < names.len() ==> names[i] != parent_step(),
    ensures
        followed(names, climb(names.len())) == Seq::<Seq<char>>::empty(),
    decreases names.len(),
{
    let steps = climb(names.len());
    if names.len() > 0 {
        assert(steps[0] == parent_step());
        assert(steps.drop_first() =~= climb((names.len() - 1) as nat));
        lemma_followed_climb(names.drop_last());
    }
}

proof fn lemma_components_of_parent_step()
    ensures
        components(parent_step()) == seq![parent_step()],
{
    let none = Seq::<char>::empty();
    let dot = seq!['.'];
    let step = parent_step();
    assert(step.drop_last() =~= dot);
    assert(dot.drop_last() =~= none);
    assert(pieces(none) =~= seq![none]);
    assert(pieces(dot) =~= seq![dot]) by {
        assert(pieces(none).drop_last().push(pieces(none).last().push('.')) =~= seq![dot]);
    }
    assert(pieces(step) =~= seq![step]) by {
        assert(dot.push('.') =~= step);
        assert(pieces(dot).last() == dot);
        assert(pieces(dot).drop_last() =~= Seq::<Seq<char>>::empty());
    }
    let one = pieces(step);
    assert(one.last() == step);
    assert(names_something(one.last()));
    assert(one.drop_last() =~= Seq::<Seq<char>>::empty());
    assert(named(one.drop_last()) =~= Seq::<Seq<char>>::empty());
    assert(named(one) =~= seq![step]);
}

proof fn lemma_components_of_ascent(steps: nat)
    ensures
        components(ascent(steps)) == climb(steps),
    decreases steps,
{
    if steps == 0 {
        let none = Seq::<char>::empty();
        let one = pieces(none);
        assert(one =~= seq![none]);
        assert(!names_something(one.last()));
        assert(one.drop_last() =~= Seq::<Seq<char>>::empty());
        assert(named(one.drop_last()) =~= Seq::<Seq<char>>::empty());
        assert(named(one) =~= climb(0));
    } else {
        lemma_components_of_ascent((steps - 1) as nat);
        lemma_components_of_parent_step();
        lemma_components_of_join(ascent((steps - 1) as nat), parent_step());
        assert(climb((steps - 1) as nat) + seq![parent_step()] =~= climb(steps));
    }
}

/// A link leads to what it was made for. Let `build` be a path that is not
/// absolute, and `link` a path whose components before the last are names
/// (none is a parent step). Then following the link's target from the
/// directory that holds the link leads to the same place as following
/// `build` from the place both paths are relative to.
pub proof fn lemma_link_leads_to_build(build: Seq<char>, link: Seq<char>)
    requires
        !is_absolute_spec(build),
        components(link).len() > 0,
        forall|i: int|
            0 <= i < components(link).len() - 1 ==> (#[trigger] components(link)[i])
                != parent_step(),
    ensures
        resolved(components(link).drop_last() + components(link_target_spec(build, link)))
            == resolved(components(build)),
{
    let holder = components(link).drop_last();
    let steps = parent_depth(link);
    assert(steps == holder.len());
    lemma_components_of_ascent(steps);
    lemma_components_of_join(ascent(steps), build);
    let target = components(link_target_spec(build, link));
    assert(target == climb(steps) + components(build));
    assert(holder + target =~= (holder + climb(steps)) + components(build));
    lemma_followed_appended(Seq::empty(), holder + climb(steps), components(build));
    lemma_followed_appended(Seq::empty(), holder, climb(steps));
    assert forall|i: int| 0 <= i < holder.len() implies holder[i] != parent_step() by {
        assert(holder[i] == components(link)[i]);
    }
    lemma_followed_names(Seq::empty(), holder);
    assert(Seq::<Seq<char>>::empty() + holder =~= holder);
    lemma_followed_climb(holder);
}

/// Linking again plans the same: where a link stands and what it holds
/// depends on the configuration and on the file's relative path alone,
/// not on the links that an earlier run left behind.
pub proof fn lemma_relinking_plans_the_same(
    cfg: Config,
    relative: Seq<Seq<char>>,
    first: LinkPlan,
    second: LinkPlan,
)
    requires
        plans_link(first, cfg, relative),
        plans_link(second, cfg, relative),
    ensures
        first.link@ == second.link@,
        first.target@ == second.target@,
{
}

} // verus!
