//! The peeker: which variables the templates of the template tree use.

use crate::builder::{is_template, is_template_spec};
use crate::config::Config;
use crate::error::Errors;
use crate::path::{join_spec, rendered, RelPath};
use crate::record::{lemma_values_are_the_produced, produced, results_in, Record};
use crate::text::{lemma_precedes_transitive, precedes, rank, texts, Rank};
use crate::walker::DirStep;
use vstd::prelude::*;
use vstd::std_specs::iter::IteratorSpec;

verus! {

/// The directory at `relative` of the template tree. Nothing mirrors it.
pub fn dir(cfg: &Config, relative: &RelPath) -> (step: DirStep)
    ensures
        step.relative@ == relative@,
        step.source@ == join_spec(cfg.template_dir@, rendered(relative@)),
        step.dest is None,
{
    DirStep { relative: relative.duplicate(), source: cfg.template_path(relative), dest: None }
}

/// Decides whether the file at `relative` is looked into: a template is,
/// and the result names the file to read and parse; any other file
/// contributes no variable.
pub fn file_plan(cfg: &Config, relative: &RelPath) -> (template: Option<String>)
    ensures
        is_template_spec(relative@) ==> (template matches Some(path) && path@ == join_spec(
            cfg.template_dir@,
            rendered(relative@),
        )),
        !is_template_spec(relative@) ==> template is None,
{
    if is_template(relative) {
        Some(cfg.template_path(relative))
    } else {
        None
    }
}

/// Every name comes before all that follow it: the names are in order and
/// none occurs twice.
pub open spec fn ascending(names: Seq<Seq<char>>) -> bool {
    forall|i: int, j: int| 0 <= i < j < names.len() ==> precedes(names[i], names[j])
}

/// Inserting a name where it belongs keeps the order.
proof fn lemma_insert_keeps_ascending(names: Seq<Seq<char>>, at: int, name: Seq<char>)
    requires
        ascending(names),
        0 <= at <= names.len(),
        forall|k: int| 0 <= k < at ==> precedes(names[k], name),
        at < names.len() ==> precedes(name, names[at]),
    ensures
        ascending(names.insert(at, name)),
{
    let longer = names.insert(at, name);
    assert forall|i: int, j: int| 0 <= i < j < longer.len() implies precedes(
        longer[i],
        longer[j],
    ) by {
        if j == at {
        } else if i == at {
            if j - 1 > at {
                lemma_precedes_transitive(name, names[at], names[j - 1]);
            }
        } else if i < at && j > at {
            assert(precedes(names[i], names[j - 1]));
        } else if i < at {
            assert(precedes(names[i], names[j]));
        } else {
            assert(precedes(names[i - 1], names[j - 1]));
        }
    }
}

/// What a sequence holds after an insertion: what it held, and the new element.
proof fn lemma_insert_members(names: Seq<Seq<char>>, at: int, name: Seq<char>)
    requires
        0 <= at <= names.len(),
    ensures
        forall|s: Seq<char>| names.insert(at, name).contains(s) <==> (names.contains(s) || s == name),
{
    let longer = names.insert(at, name);
    assert forall|s: Seq<char>| longer.contains(s) <==> (names.contains(s) || s == name) by {
        if longer.contains(s) {
            let i = choose|i: int| 0 <= i < longer.len() && longer[i] == s;
            if i < at {
                assert(names[i] == s);
            } else if i > at {
                assert(names[i - 1] == s);
            }
        }
        if names.contains(s) {
            let i = choose|i: int| 0 <= i < names.len() && names[i] == s;
            if i < at {
                assert(longer[i] == s);
            } else {
                assert(longer[i + 1] == s);
            }
        }
        if s == name {
            assert(longer[at] == s);
        }
    }
}

/// Where `name` belongs among the ascending `lines`, and whether it stands there already.
fn position(lines: &Vec<String>, name: &str) -> (found: (usize, bool))
    requires
        ascending(texts(lines@)),
    ensures
        found.0 <= lines@.len(),
        forall|k: int| 0 <= k < found.0 ==> precedes(texts(lines@)[k], name@),
        found.1 ==> found.0 < lines@.len() && texts(lines@)[found.0 as int] == name@,
        !found.1 && found.0 < lines@.len() ==> precedes(name@, texts(lines@)[found.0 as int]),
{
    let n = lines.len();
    let mut at: usize = 0;
    while at < n
        invariant
            n == lines@.len(),
            at <= n,
            forall|k: int| 0 <= k < at ==> precedes(texts(lines@)[k], name@),
        decreases n - at,
    {
        match rank(lines[at].as_str(), name) {
            Rank::Before => {
                at = at + 1;
            },
            Rank::Same => {
                return (at, true);
            },
            Rank::After => {
                return (at, false);
            },
        }
    }
    (at, false)
}

/// The names to report for the variables `found` in the templates: each
/// name once, in ascending order.
pub fn print_variables(found: Vec<String>) -> (lines: Vec<String>)
    ensures
        ascending(texts(lines@)),
        forall|name: Seq<char>| texts(lines@).contains(name) <==> texts(found@).contains(name),
{
    let mut lines: Vec<String> = Vec::new();
    for name in it: found.into_iter()
        invariant
            it.seq() == found@,
            ascending(texts(lines@)),
            forall|s: Seq<char>|
                texts(lines@).contains(s) <==> texts(found@.take(it.index() as int)).contains(s),
    {
        let ghost seen = texts(found@.take(it.index() as int));
        let ghost before = texts(lines@);
        proof {
            assert(texts(found@.take(it.index() + 1)) =~= seen.push(name@));
            assert(seen.push(name@) =~= seen.insert(seen.len() as int, name@));
            lemma_insert_members(seen, seen.len() as int, name@);
        }
        let (at, present) = position(&lines, name.as_str());
        if present {
            assert(before.contains(name@));
        } else {
            proof {
                lemma_insert_keeps_ascending(before, at as int, name@);
                lemma_insert_members(before, at as int, name@);
            }
            lines.insert(at, name);
            assert(texts(lines@) =~= before.insert(at as int, name@));
        }
        assert forall|s: Seq<char>| texts(lines@).contains(s) <==> texts(
            found@.take(it.index() + 1),
        ).contains(s) by {
            assert(before.contains(s) <==> seen.contains(s));
            assert(seen.push(name@).contains(s) <==> (seen.contains(s) || s == name@));
        }
    }
    assert(found@.take(found@.len() as int) =~= found@);
    lines
}

/// Over a whole tree, no name is missing from the report and none is
/// invented: where the traversal `record` succeeds with `found`, a report
/// that holds the names of `found` holds a name exactly if some file task
/// of the traversal, however deep in the tree, produced it.
pub proof fn lemma_reported_names_are_the_found(
    record: Record<String>,
    found: Vec<String>,
    lines: Seq<String>,
    name: Seq<char>,
)
    requires
        results_in(record, Ok::<Vec<String>, Errors>(found)),
        forall|s: Seq<char>| texts(lines).contains(s) <==> texts(found@).contains(s),
    ensures
        texts(lines).contains(name) <==> exists|value: String|
            #[trigger] produced(record, value) && value@ == name,
{
    let result = Ok::<Vec<String>, Errors>(found);
    if texts(lines).contains(name) {
        let all = texts(found@);
        let at = choose|at: int| 0 <= at < all.len() && all[at] == name;
        let value = found@[at];
        assert(found@.contains(value));
        lemma_values_are_the_produced(record, result, value);
        assert(produced(record, value) && value@ == name);
    }
    if exists|value: String| #[trigger] produced(record, value) && value@ == name {
        let value = choose|value: String| #[trigger] produced(record, value) && value@ == name;
        lemma_values_are_the_produced(record, result, value);
        let at = choose|at: int| 0 <= at < found@.len() && found@[at] == value;
        assert(texts(found@)[at] == name);
    }
}

} // verus!
