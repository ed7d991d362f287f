//! Paths as text: joining, relative paths as segment sequences, and the
//! components a path is made of.
//!
//! A path is a string in which `/` separates components. The caller uses the
//! strings computed here verbatim when it touches the file system.

use crate::text::chars_of;
use vstd::prelude::*;
use vstd::string::*;

verus! {

/// The path separator.
pub const SEPARATOR: char = '/';

/// A path is absolute when it starts at the root.
pub open spec fn is_absolute_spec(path: Seq<char>) -> bool {
    path.len() > 0 && path[0] == SEPARATOR
}

/// `rel` appended to `base`: an absolute `rel` replaces `base`; otherwise one
/// separator stands between the two, unless `base` is empty or already ends
/// in one.
pub open spec fn join_spec(base: Seq<char>, rel: Seq<char>) -> Seq<char> {
    if is_absolute_spec(rel) {
        rel
    } else if base.len() == 0 || base.last() == SEPARATOR {
        base + rel
    } else {
        base + seq![SEPARATOR] + rel
    }
}

/// Whether `path` starts at the root.
pub fn is_absolute(path: &str) -> (absolute: bool)
    ensures
        absolute == is_absolute_spec(path@),
{
    !path.is_empty() && path.get_char(0) == SEPARATOR
}

/// Joins `rel` onto `base`.
pub fn join(base: &str, rel: &str) -> (joined: String)
    ensures
        joined@ == join_spec(base@, rel@),
{
    if is_absolute(rel) {
        String::from_str(rel)
    } else {
        let n = base.unicode_len();
        if n == 0 || base.get_char(n - 1) == SEPARATOR {
            String::from_str(base).concat(rel)
        } else {
            proof {
                reveal_strlit("/");
                assert("/"@ =~= seq![SEPARATOR]);
            }
            String::from_str(base).concat("/").concat(rel)
        }
    }
}

/// A path relative to each of the roots: the names to descend through, outermost first.
#[derive(Debug, PartialEq, Eq)]
pub struct RelPath {
    segments: Vec<String>,
}

impl View for RelPath {
    type V = Seq<Seq<char>>;

    closed spec fn view(&self) -> Seq<Seq<char>> {
        Seq::new(self.segments@.len(), |i: int| self.segments@[i]@)
    }
}

/// The text of a relative path: its segments joined in order.
pub open spec fn rendered(segments: Seq<Seq<char>>) -> Seq<char>
    decreases segments.len(),
{
    if segments.len() == 0 {
        Seq::empty()
    } else {
        join_spec(rendered(segments.drop_last()), segments.last())
    }
}

impl RelPath {
    /// The empty relative path, which denotes a root itself.
    pub fn root() -> (path: RelPath)
        ensures
            path@ == Seq::<Seq<char>>::empty(),
    {
        let path = RelPath { segments: Vec::new() };
        assert(path@ =~= Seq::<Seq<char>>::empty());
        path
    }

    /// The number of segments.
    pub fn len(&self) -> (n: usize)
        ensures
            n == self@.len(),
    {
        self.segments.len()
    }

    /// The segment at position `i`.
    pub fn segment(&self, i: usize) -> (name: &str)
        requires
            i < self@.len(),
        ensures
            name@ == self@[i as int],
    {
        self.segments[i].as_str()
    }

    /// The final segment, if there is one.
    pub fn file_name(&self) -> (name: Option<&str>)
        ensures
            self@.len() == 0 ==> name is None,
            self@.len() > 0 ==> (name matches Some(n) && n@ == self@.last()),
    {
        let n = self.segments.len();
        if n == 0 {
            None
        } else {
            Some(self.segments[n - 1].as_str())
        }
    }

    /// The first `n` segments of this path.
    pub fn prefix(&self, n: usize) -> (path: RelPath)
        requires
            n <= self@.len(),
        ensures
            path@ == self@.take(n as int),
    {
        let mut segments: Vec<String> = Vec::new();
        let mut i: usize = 0;
        while i < n
            invariant
                n <= self.segments@.len(),
                i <= n,
                segments@.len() == i,
                forall|k: int| 0 <= k < i ==> segments@[k]@ == self.segments@[k]@,
            decreases n - i,
        {
            segments.push(self.segments[i].clone());
            i = i + 1;
        }
        let path = RelPath { segments };
        assert(path@ =~= self@.take(n as int));
        path
    }

    /// A copy of this path.
    pub fn duplicate(&self) -> (path: RelPath)
        ensures
            path@ == self@,
    {
        assert(self@.take(self@.len() as int) =~= self@);
        self.prefix(self.segments.len())
    }

    /// This path extended by the entry `name`.
    pub fn child(&self, name: &str) -> (path: RelPath)
        ensures
            path@ == self@.push(name@),
    {
        let mut path = self.duplicate();
        path.segments.push(String::from_str(name));
        assert(path@ =~= self@.push(name@));
        path
    }

    /// The path as text.
    pub fn render(&self) -> (text: String)
        ensures
            text@ == rendered(self@),
    {
        let mut text = String::new();
        let n = self.segments.len();
        let mut i: usize = 0;
        while i < n
            invariant
                n == self.segments@.len(),
                i <= n,
                text@ == rendered(self@.take(i as int)),
            decreases n - i,
        {
            proof {
                let next = self@.take(i + 1);
                assert(next.drop_last() =~= self@.take(i as int));
                assert(next.last() == self.segments@[i as int]@);
            }
            text = join(text.as_str(), self.segments[i].as_str());
            i = i + 1;
        }
        assert(self@.take(n as int) =~= self@);
        text
    }
}

/// The pieces between the separators of `path`, empty ones included.
pub open spec fn pieces(path: Seq<char>) -> Seq<Seq<char>>
    decreases path.len(),
{
    if path.len() == 0 {
        seq![Seq::empty()]
    } else {
        let before = pieces(path.drop_last());
        if path.last() == SEPARATOR {
            before.push(Seq::empty())
        } else {
            before.drop_last().push(before.last().push(path.last()))
        }
    }
}

/// A piece names something unless it is empty or a lone dot.
pub open spec fn names_something(piece: Seq<char>) -> bool {
    piece.len() > 0 && !is_lone_dot(piece)
}

/// The piece that stands for the directory itself.
pub open spec fn is_lone_dot(piece: Seq<char>) -> bool {
    piece.len() == 1 && piece[0] == '.'
}

/// The pieces that name something, in order.
pub open spec fn named(pieces: Seq<Seq<char>>) -> Seq<Seq<char>>
    decreases pieces.len(),
{
    if pieces.len() == 0 {
        Seq::empty()
    } else if names_something(pieces.last()) {
        named(pieces.drop_last()).push(pieces.last())
    } else {
        named(pieces.drop_last())
    }
}

/// The components of `path`: what stands between its separators, without
/// the empty pieces and the lone dots.
pub open spec fn components(path: Seq<char>) -> Seq<Seq<char>> {
    named(pieces(path))
}

/// There is always a last piece.
pub proof fn lemma_pieces_nonempty(path: Seq<char>)
    ensures
        pieces(path).len() >= 1,
    decreases path.len(),
{
    if path.len() > 0 {
        lemma_pieces_nonempty(path.drop_last());
    }
}

/// The number of components of `path`.
pub fn component_count(path: &str) -> (count: usize)
    ensures
        count == components(path@).len(),
{
    let chars = chars_of(path);
    let n = chars.len();
    let mut done: usize = 0;
    let mut current: usize = 0;
    let mut lone_dot = false;
    let mut i: usize = 0;
    assert(chars@.take(0) =~= Seq::<char>::empty());
    assert(pieces(Seq::<char>::empty()).drop_last() =~= Seq::<Seq<char>>::empty());
    while i < n
        invariant
            n == chars@.len(),
            i <= n,
            pieces(chars@.take(i as int)).len() >= 1,
            done == named(pieces(chars@.take(i as int)).drop_last()).len(),
            current == pieces(chars@.take(i as int)).last().len(),
            lone_dot == is_lone_dot(pieces(chars@.take(i as int)).last()),
            done + current <= i,
        decreases n - i,
    {
        let c = chars[i];
        proof {
            let before = chars@.take(i as int);
            let after = chars@.take(i + 1);
            assert(after.drop_last() =~= before);
            assert(after.last() == c);
            let ps = pieces(before);
            if c == SEPARATOR {
                assert(pieces(after) == ps.push(Seq::empty()));
                assert(pieces(after).drop_last() =~= ps);
            } else {
                assert(pieces(after) == ps.drop_last().push(ps.last().push(c)));
                assert(pieces(after).drop_last() =~= ps.drop_last());
            }
        }
        if c == SEPARATOR {
            if current > 0 && !lone_dot {
                done = done + 1;
            }
            current = 0;
            lone_dot = false;
        } else {
            lone_dot = current == 0 && c == '.';
            current = current + 1;
        }
        i = i + 1;
    }
    assert(chars@.take(n as int) =~= chars@);
    if current > 0 && !lone_dot {
        done + 1
    } else {
        done
    }
}

/// Splitting at a separator: the pieces of two texts joined by a separator
/// are the pieces of the first followed by the pieces of the second.
pub proof fn lemma_pieces_of_joined(front: Seq<char>, back: Seq<char>)
    ensures
        pieces(front + seq![SEPARATOR] + back) == pieces(front) + pieces(back),
    decreases back.len(),
{
    let whole = front + seq![SEPARATOR] + back;
    lemma_pieces_nonempty(back);
    if back.len() == 0 {
        assert(whole.drop_last() =~= front);
        assert(pieces(whole) =~= pieces(front) + pieces(back));
    } else {
        let shorter = back.drop_last();
        assert(whole.drop_last() =~= front + seq![SEPARATOR] + shorter);
        assert(whole.last() == back.last());
        lemma_pieces_of_joined(front, shorter);
        lemma_pieces_nonempty(shorter);
        let before = pieces(front) + pieces(shorter);
        if back.last() == SEPARATOR {
            assert(pieces(whole) =~= pieces(front) + pieces(back));
        } else {
            assert(before.last() == pieces(shorter).last());
            assert(before.drop_last() =~= pieces(front) + pieces(shorter).drop_last());
            assert(pieces(whole) =~= pieces(front) + pieces(back));
        }
    }
}

/// Picking out the names goes piece by piece.
pub proof fn lemma_named_of_appended(front: Seq<Seq<char>>, back: Seq<Seq<char>>)
    ensures
        named(front + back) == named(front) + named(back),
    decreases back.len(),
{
    if back.len() == 0 {
        assert(front + back =~= front);
        assert(named(front) + named(back) =~= named(front));
    } else {
        let whole = front + back;
        assert(whole.drop_last() =~= front + back.drop_last());
        assert(whole.last() == back.last());
        lemma_named_of_appended(front, back.drop_last());
        assert(named(whole) =~= named(front) + named(back));
    }
}

/// The components of a joined path are those of the base followed by
/// those of what was joined on, unless that is absolute.
pub proof fn lemma_components_of_join(base: Seq<char>, rel: Seq<char>)
    requires
        !is_absolute_spec(rel),
    ensures
        components(join_spec(base, rel)) == components(base) + components(rel),
{
    let none = Seq::<char>::empty();
    assert(named(pieces(none)) =~= Seq::<Seq<char>>::empty()) by {
        let one = pieces(none);
        assert(one =~= seq![none]);
        assert(!names_something(one.last()));
        assert(one.drop_last() =~= Seq::<Seq<char>>::empty());
        assert(named(one) == named(one.drop_last()));
    }
    if base.len() == 0 {
        assert(base + rel =~= rel);
        assert(components(base) + components(rel) =~= components(rel));
    } else if base.last() == SEPARATOR {
        let stem = base.drop_last();
        assert(base =~= stem + seq![SEPARATOR] + none);
        assert(base + rel =~= stem + seq![SEPARATOR] + rel);
        lemma_pieces_of_joined(stem, none);
        lemma_pieces_of_joined(stem, rel);
        lemma_named_of_appended(pieces(stem), pieces(none));
        lemma_named_of_appended(pieces(stem), pieces(rel));
        assert(components(base) =~= components(stem));
    } else {
        lemma_pieces_of_joined(base, rel);
        lemma_named_of_appended(pieces(base), pieces(rel));
    }
}

} // verus!
