//! The binding set that templates are rendered with.

use crate::error::InnerError;
use crate::text::{same, texts};
use toml::de::Error as TomlError;
use vstd::prelude::*;
use vstd::std_specs::iter::IteratorSpec;
use vstd::string::*;

verus! {

/// What a variable is bound to.
#[derive(Debug, PartialEq, Eq)]
pub enum Value {
    Str(String),
    Bool(bool),
}

/// The mathematical content of a [`Value`].
pub enum ValueView {
    Str(Seq<char>),
    Bool(bool),
}

impl View for Value {
    type V = ValueView;

    open spec fn view(&self) -> ValueView {
        match self {
            Value::Str(text) => ValueView::Str(text@),
            Value::Bool(flag) => ValueView::Bool(*flag),
        }
    }
}

impl Value {
    /// A copy of this value.
    pub fn duplicate(&self) -> (copy: Value)
        ensures
            copy@ == self@,
    {
        match self {
            Value::Str(text) => Value::Str(text.clone()),
            Value::Bool(flag) => Value::Bool(*flag),
        }
    }
}

/// Some binding among `bindings` has the name `name`.
spec fn binds(bindings: Seq<(String, Value)>, name: Seq<char>) -> bool {
    exists|i: int| 0 <= i < bindings.len() && (#[trigger] bindings[i]).0@ == name
}

/// A position at which `name` is bound among `bindings`.
spec fn index_of(bindings: Seq<(String, Value)>, name: Seq<char>) -> int {
    choose|i: int| 0 <= i < bindings.len() && (#[trigger] bindings[i]).0@ == name
}

/// No name is bound twice among `bindings`.
spec fn distinct(bindings: Seq<(String, Value)>) -> bool {
    forall|i: int, j: int|
        0 <= i < j < bindings.len() ==> (#[trigger] bindings[i]).0@ != (#[trigger] bindings[j]).0@
}

/// The map that `bindings` stand for.
spec fn model(bindings: Seq<(String, Value)>) -> Map<Seq<char>, ValueView> {
    Map::new(
        |name: Seq<char>| binds(bindings, name),
        |name: Seq<char>| bindings[index_of(bindings, name)].1@,
    )
}

/// The names bound at the first `count` positions.
spec fn names_before(bindings: Seq<(String, Value)>, count: nat) -> Set<Seq<char>>
    decreases count,
{
    if count == 0 {
        Set::empty()
    } else {
        names_before(bindings, (count - 1) as nat).insert(bindings[count - 1].0@)
    }
}

proof fn lemma_lookup(bindings: Seq<(String, Value)>, i: int)
    requires
        distinct(bindings),
        0 <= i < bindings.len(),
    ensures
        binds(bindings, bindings[i].0@),
        index_of(bindings, bindings[i].0@) == i,
        model(bindings).contains_key(bindings[i].0@),
        model(bindings)[bindings[i].0@] == bindings[i].1@,
{
    let name = bindings[i].0@;
    assert(binds(bindings, name));
    let found = index_of(bindings, name);
    assert(0 <= found < bindings.len() && bindings[found].0@ == name);
    if found < i {
        assert(bindings[found].0@ != bindings[i].0@);
    } else if i < found {
        assert(bindings[i].0@ != bindings[found].0@);
    }
}

proof fn lemma_replaced(bindings: Seq<(String, Value)>, at: int, binding: (String, Value))
    requires
        distinct(bindings),
        0 <= at < bindings.len(),
        bindings[at].0@ == binding.0@,
    ensures
        distinct(bindings.update(at, binding)),
        model(bindings.update(at, binding)) == model(bindings).insert(binding.0@, binding.1@),
{
    let after = bindings.update(at, binding);
    assert forall|i: int, j: int| 0 <= i < j < after.len() implies (#[trigger] after[i]).0@ != (
    #[trigger] after[j]).0@ by {
        assert(bindings[i].0@ != bindings[j].0@);
    }
    assert forall|name: Seq<char>| binds(after, name) == binds(bindings, name) by {
        if binds(bindings, name) {
            assert(after[index_of(bindings, name)].0@ == name);
        }
        if binds(after, name) {
            assert(bindings[index_of(after, name)].0@ == name);
        }
    }
    assert forall|name: Seq<char>| binds(after, name) implies model(after)[name] == (if name
        == binding.0@ {
        binding.1@
    } else {
        model(bindings)[name]
    }) by {
        let i = index_of(after, name);
        lemma_lookup(after, i);
        lemma_lookup(bindings, i);
    }
    lemma_lookup(bindings, at);
    assert(model(after) =~= model(bindings).insert(binding.0@, binding.1@));
}

proof fn lemma_appended(bindings: Seq<(String, Value)>, binding: (String, Value))
    requires
        distinct(bindings),
        !binds(bindings, binding.0@),
    ensures
        distinct(bindings.push(binding)),
        model(bindings.push(binding)) == model(bindings).insert(binding.0@, binding.1@),
{
    let after = bindings.push(binding);
    let n = bindings.len() as int;
    assert forall|i: int, j: int| 0 <= i < j < after.len() implies (#[trigger] after[i]).0@ != (
    #[trigger] after[j]).0@ by {
        if j < n {
            assert(bindings[i].0@ != bindings[j].0@);
        } else {
            assert(bindings[i].0@ != binding.0@);
        }
    }
    assert forall|name: Seq<char>| binds(after, name) == (binds(bindings, name) || name
        == binding.0@) by {
        if binds(bindings, name) {
            assert(after[index_of(bindings, name)].0@ == name);
        }
        if name == binding.0@ {
            assert(after[n].0@ == name);
        }
        if binds(after, name) && name != binding.0@ {
            assert(bindings[index_of(after, name)].0@ == name);
        }
    }
    assert forall|name: Seq<char>| binds(after, name) implies model(after)[name] == (if name
        == binding.0@ {
        binding.1@
    } else {
        model(bindings)[name]
    }) by {
        let i = index_of(after, name);
        lemma_lookup(after, i);
        if i < n {
            lemma_lookup(bindings, i);
        }
    }
    assert(model(after) =~= model(bindings).insert(binding.0@, binding.1@));
}

proof fn lemma_names_before(bindings: Seq<(String, Value)>, count: nat)
    requires
        count <= bindings.len(),
    ensures
        forall|name: Seq<char>|
            names_before(bindings, count).contains(name) <==> exists|i: int|
                0 <= i < count && (#[trigger] bindings[i]).0@ == name,
    decreases count,
{
    if count > 0 {
        lemma_names_before(bindings, (count - 1) as nat);
        assert forall|name: Seq<char>| names_before(bindings, count).contains(name) <==> exists|
            i: int,
        |
            0 <= i < count && (#[trigger] bindings[i]).0@ == name by {
            if names_before(bindings, (count - 1) as nat).contains(name) {
                let i = choose|i: int| 0 <= i < count - 1 && (#[trigger] bindings[i]).0@ == name;
                assert(0 <= i < count && bindings[i].0@ == name);
            }
            if exists|i: int| 0 <= i < count && (#[trigger] bindings[i]).0@ == name {
                let i = choose|i: int| 0 <= i < count && (#[trigger] bindings[i]).0@ == name;
                if i < count - 1 {
                    assert(0 <= i < count - 1 && bindings[i].0@ == name);
                }
            }
        }
    }
}

proof fn lemma_names_counted(bindings: Seq<(String, Value)>, count: nat)
    requires
        count <= bindings.len(),
        distinct(bindings),
    ensures
        names_before(bindings, count).finite(),
        names_before(bindings, count).len() == count,
    decreases count,
{
    if count > 0 {
        lemma_names_counted(bindings, (count - 1) as nat);
        lemma_names_before(bindings, (count - 1) as nat);
        let last = bindings[count - 1].0@;
        if names_before(bindings, (count - 1) as nat).contains(last) {
            let i = choose|i: int| 0 <= i < count - 1 && (#[trigger] bindings[i]).0@ == last;
            assert(bindings[i].0@ != bindings[count - 1].0@);
        }
    }
}

proof fn lemma_domain_counted(bindings: Seq<(String, Value)>)
    requires
        distinct(bindings),
    ensures
        model(bindings).dom().finite(),
        model(bindings).dom().len() == bindings.len(),
{
    lemma_names_counted(bindings, bindings.len());
    lemma_names_before(bindings, bindings.len());
    assert(model(bindings).dom() =~= names_before(bindings, bindings.len()));
}

fn find(bindings: &Vec<(String, Value)>, name: &str) -> (at: Option<usize>)
    ensures
        match at {
            Some(i) => i < bindings@.len() && bindings@[i as int].0@ == name@,
            None => !binds(bindings@, name@),
        },
{
    let n = bindings.len();
    let mut i: usize = 0;
    while i < n
        invariant
            n == bindings@.len(),
            i <= n,
            forall|k: int| 0 <= k < i ==> (#[trigger] bindings@[k]).0@ != name@,
        decreases n - i,
    {
        if same(bindings[i].0.as_str(), name) {
            return Some(i);
        }
        i = i + 1;
    }
    None
}

/// The binding set: every name is bound at most once.
#[derive(Debug)]
pub struct Env {
    bindings: Vec<(String, Value)>,
}

impl View for Env {
    type V = Map<Seq<char>, ValueView>;

    closed spec fn view(&self) -> Map<Seq<char>, ValueView> {
        model(self.bindings@)
    }
}

impl Env {
    #[verifier::type_invariant]
    closed spec fn well_formed(&self) -> bool {
        distinct(self.bindings@)
    }

    /// The name bound at position `i`.
    pub closed spec fn name_at(&self, i: int) -> Seq<char> {
        self.bindings@[i].0@
    }

    /// The empty binding set.
    pub fn new() -> (env: Env)
        ensures
            env@ == Map::<Seq<char>, ValueView>::empty(),
    {
        let env = Env { bindings: Vec::new() };
        assert(env@ =~= Map::<Seq<char>, ValueView>::empty());
        env
    }

    /// The number of bindings. The positions below it hold the bound
    /// names, every one of them, each once.
    pub fn len(&self) -> (n: usize)
        ensures
            self@.dom().finite(),
            n == self@.dom().len(),
            forall|i: int, j: int| 0 <= i < j < n ==> self.name_at(i) != self.name_at(j),
            forall|name: Seq<char>|
                self@.contains_key(name) ==> exists|i: int|
                    0 <= i < n && #[trigger] self.name_at(i) == name,
    {
        proof {
            use_type_invariant(self);
            lemma_domain_counted(self.bindings@);
            assert forall|name: Seq<char>| self@.contains_key(name) implies exists|i: int|
                0 <= i < self.bindings@.len() && #[trigger] self.name_at(i) == name by {
                assert(self.name_at(index_of(self.bindings@, name)) == name);
            }
        }
        self.bindings.len()
    }

    /// The binding at position `i`, in no particular order.
    pub fn entry(&self, i: usize) -> (binding: (&str, &Value))
        requires
            i < self@.dom().len(),
        ensures
            binding.0@ == self.name_at(i as int),
            self@.contains_key(binding.0@),
            self@[binding.0@] == binding.1@,
    {
        proof {
            use_type_invariant(self);
            lemma_domain_counted(self.bindings@);
            lemma_lookup(self.bindings@, i as int);
        }
        (self.bindings[i].0.as_str(), &self.bindings[i].1)
    }

    /// What `name` is bound to, if it is bound.
    pub fn get(&self, name: &str) -> (value: Option<&Value>)
        ensures
            match value {
                Some(found) => self@.contains_key(name@) && self@[name@] == found@,
                None => !self@.contains_key(name@),
            },
    {
        proof {
            use_type_invariant(self);
        }
        match find(&self.bindings, name) {
            Some(i) => {
                proof {
                    lemma_lookup(self.bindings@, i as int);
                }
                Some(&self.bindings[i].1)
            },
            None => None,
        }
    }

    /// Binds `name` to `value`. A binding that `name` had before is replaced.
    pub fn insert(&mut self, name: String, value: Value)
        ensures
            final(self)@ == old(self)@.insert(name@, value@),
    {
        proof {
            use_type_invariant(&*self);
        }
        let mut bindings: Vec<(String, Value)> = Vec::new();
        core::mem::swap(&mut self.bindings, &mut bindings);
        let ghost before = bindings@;
        match find(&bindings, name.as_str()) {
            Some(i) => {
                proof {
                    lemma_replaced(before, i as int, (name, value));
                }
                bindings.set(i, (name, value));
            },
            None => {
                proof {
                    lemma_appended(before, (name, value));
                }
                bindings.push((name, value));
            },
        }
        core::mem::swap(&mut self.bindings, &mut bindings);
    }
}

/// What is known of the machine and the account.
#[derive(Debug, PartialEq, Eq)]
pub struct Host {
    pub hostname: String,
    pub username: String,
    pub os: String,
}

/// The names and views of a sequence of bindings.
pub open spec fn pairs(bindings: Seq<(String, Value)>) -> Seq<(Seq<char>, ValueView)> {
    Seq::new(bindings.len(), |i: int| (bindings[i].0@, bindings[i].1@))
}

/// The bindings that are computed from the machine and the account.
pub open spec fn computed(hostname: Seq<char>, username: Seq<char>, os: Seq<char>) -> Map<
    Seq<char>,
    ValueView,
> {
    Map::<Seq<char>, ValueView>::empty().insert("hostname"@, ValueView::Str(hostname)).insert(
        "username"@,
        ValueView::Str(username),
    ).insert("os"@, ValueView::Str(os))
}

/// `base` with the bindings of `variables` inserted in order: a later
/// binding of a name replaces an earlier one.
pub open spec fn with_variables(
    base: Map<Seq<char>, ValueView>,
    variables: Seq<(Seq<char>, ValueView)>,
) -> Map<Seq<char>, ValueView>
    decreases variables.len(),
{
    if variables.len() == 0 {
        base
    } else {
        with_variables(base, variables.drop_last()).insert(
            variables.last().0,
            variables.last().1,
        )
    }
}

/// `base` with every flag bound to true.
pub open spec fn with_flags(base: Map<Seq<char>, ValueView>, flags: Seq<Seq<char>>) -> Map<
    Seq<char>,
    ValueView,
>
    decreases flags.len(),
{
    if flags.len() == 0 {
        base
    } else {
        with_flags(base, flags.drop_last()).insert(flags.last(), ValueView::Bool(true))
    }
}

/// The binding set of a run: the computed bindings, overridden by the
/// variables of the variables file, overridden by the flags.
pub open spec fn environment_spec(
    hostname: Seq<char>,
    username: Seq<char>,
    os: Seq<char>,
    variables: Seq<(Seq<char>, ValueView)>,
    flags: Seq<Seq<char>>,
) -> Map<Seq<char>, ValueView> {
    with_flags(with_variables(computed(hostname, username, os), variables), flags)
}

/// Assembles the binding set of a run.
pub fn environment(host: Host, variables: Vec<(String, Value)>, flags: &Vec<String>) -> (env: Env)
    ensures
        env@ == environment_spec(
            host.hostname@,
            host.username@,
            host.os@,
            pairs(variables@),
            texts(flags@),
        ),
{
    let mut env = Env::new();
    env.insert(String::from_str("hostname"), Value::Str(host.hostname));
    env.insert(String::from_str("username"), Value::Str(host.username));
    env.insert(String::from_str("os"), Value::Str(host.os));
    let ghost base = env@;
    assert(pairs(variables@).take(0) =~= Seq::<(Seq<char>, ValueView)>::empty());
    for binding in it: variables.into_iter()
        invariant
            it.seq() == variables@,
            env@ == with_variables(base, pairs(variables@).take(it.index() as int)),
    {
        proof {
            let next = pairs(variables@).take(it.index() + 1);
            assert(next.drop_last() =~= pairs(variables@).take(it.index() as int));
            assert(next.last() == (binding.0@, binding.1@));
        }
        let (name, value) = binding;
        env.insert(name, value);
    }
    assert(pairs(variables@).take(variables@.len() as int) =~= pairs(variables@));
    let ghost filled = env@;
    let n = flags.len();
    let mut i: usize = 0;
    assert(texts(flags@).take(0) =~= Seq::<Seq<char>>::empty());
    while i < n
        invariant
            n == flags@.len(),
            i <= n,
            env@ == with_flags(filled, texts(flags@).take(i as int)),
        decreases n - i,
    {
        proof {
            let next = texts(flags@).take(i + 1);
            assert(next.drop_last() =~= texts(flags@).take(i as int));
            assert(next.last() == flags@[i as int]@);
        }
        env.insert(flags[i].clone(), Value::Bool(true));
        i = i + 1;
    }
    assert(texts(flags@).take(n as int) =~= texts(flags@));
    env
}

/// The table that a TOML document holds: its top-level keys, each with
/// its value where that is a string or a boolean and with nothing where it
/// is of another kind. `None` where the text is no TOML document.
pub uninterp spec fn toml_table(text: Seq<char>) -> Option<Seq<(Seq<char>, Option<ValueView>)>>;

/// The names and views of a sequence of table entries.
pub open spec fn settings(entries: Seq<(String, Option<Value>)>) -> Seq<
    (Seq<char>, Option<ValueView>),
> {
    Seq::new(
        entries.len(),
        |i: int|
            (
                entries[i].0@,
                match entries[i].1 {
                    Some(value) => Some(value@),
                    None => None,
                },
            ),
    )
}

/// Calls `toml::from_str` for a `toml::Table` and hands out the table's
/// entries in the order the table iterates them. The call succeeds exactly
/// on the texts that are TOML documents, and the entries are those of the
/// document's table.
#[verifier::external_body]
fn parse_table(text: &str) -> (parsed: Result<Vec<(String, Option<Value>)>, TomlError>)
    ensures
        parsed is Ok <==> toml_table(text@) is Some,
        parsed matches Ok(entries) ==> Some(settings(entries@)) == toml_table(text@),
{
    let table: toml::Table = toml::from_str(text)?;
    let bindable = |value| match value {
        toml::Value::String(text) => Some(Value::Str(text)),
        toml::Value::Boolean(flag) => Some(Value::Bool(flag)),
        toml::Value::Integer(_) | toml::Value::Float(_) | toml::Value::Datetime(_) => None,
        toml::Value::Array(_) | toml::Value::Table(_) => None,
    };
    Ok(table.into_iter().map(|(name, value)| (name, bindable(value))).collect())
}

/// Every entry has a value that a variable can be bound to.
pub open spec fn supported(entries: Seq<(Seq<char>, Option<ValueView>)>) -> bool {
    forall|i: int| 0 <= i < entries.len() ==> (#[trigger] entries[i]).1 is Some
}

/// The bindings that supported entries stand for.
pub open spec fn bound(entries: Seq<(Seq<char>, Option<ValueView>)>) -> Seq<
    (Seq<char>, ValueView),
> {
    Seq::new(entries.len(), |i: int| (entries[i].0, entries[i].1->0))
}

/// Turns the entries of a variables table into bindings. A value that is
/// neither a string nor a boolean makes the whole table unusable.
pub fn bindings_of(entries: Vec<(String, Option<Value>)>) -> (r: Result<
    Vec<(String, Value)>,
    InnerError,
>)
    ensures
        supported(settings(entries@)) ==> (r matches Ok(bindings) && pairs(bindings@) == bound(
            settings(entries@),
        )),
        !supported(settings(entries@)) ==> r matches Err(InnerError::Type),
{
    let mut bindings: Vec<(String, Value)> = Vec::new();
    for entry in it: entries.into_iter()
        invariant
            it.seq() == entries@,
            bindings@.len() == it.index(),
            forall|k: int|
                0 <= k < it.index() ==> (#[trigger] settings(entries@)[k]).1 is Some && pairs(
                    bindings@,
                )[k] == bound(settings(entries@))[k],
    {
        let ghost at = it.index() as int;
        let ghost before = bindings@;
        let (name, value) = entry;
        match value {
            Some(value) => {
                bindings.push((name, value));
                assert(forall|k: int| 0 <= k < at ==> bindings@[k] == before[k]);
                assert(pairs(bindings@)[at] == bound(settings(entries@))[at]);
            },
            None => {
                assert(settings(entries@)[at].1 is None);
                return Err(InnerError::Type);
            },
        }
    }
    assert(pairs(bindings@) =~= bound(settings(entries@)));
    Ok(bindings)
}

/// Reads the variables that a variables file defines from its text.
pub fn variables(text: &str) -> (r: Result<Vec<(String, Value)>, InnerError>)
    ensures
        match toml_table(text@) {
            None => r matches Err(InnerError::Toml(_)),
            Some(entries) => if supported(entries) {
                r matches Ok(bindings) && pairs(bindings@) == bound(entries)
            } else {
                r matches Err(InnerError::Type)
            },
        },
{
    match parse_table(text) {
        Ok(entries) => bindings_of(entries),
        Err(cause) => Err(InnerError::Toml(cause)),
    }
}

proof fn lemma_flag_bound(base: Map<Seq<char>, ValueView>, flags: Seq<Seq<char>>, name: Seq<char>)
    requires
        flags.contains(name),
    ensures
        with_flags(base, flags).contains_key(name),
        with_flags(base, flags)[name] == ValueView::Bool(true),
    decreases flags.len(),
{
    if flags.last() != name {
        let i = choose|i: int| 0 <= i < flags.len() && flags[i] == name;
        assert(flags.drop_last()[i] == name);
        lemma_flag_bound(base, flags.drop_last(), name);
    }
}

proof fn lemma_flags_keep(base: Map<Seq<char>, ValueView>, flags: Seq<Seq<char>>, name: Seq<char>)
    requires
        !flags.contains(name),
    ensures
        with_flags(base, flags).contains_key(name) == base.contains_key(name),
        with_flags(base, flags)[name] == base[name],
    decreases flags.len(),
{
    if flags.len() > 0 {
        assert(flags[flags.len() - 1] != name);
        assert forall|i: int| 0 <= i < flags.drop_last().len() implies flags.drop_last()[i]
            != name by {
            assert(flags[i] != name);
        }
        lemma_flags_keep(base, flags.drop_last(), name);
    }
}

proof fn lemma_variable_bound(
    base: Map<Seq<char>, ValueView>,
    variables: Seq<(Seq<char>, ValueView)>,
    at: int,
)
    requires
        0 <= at < variables.len(),
        forall|later: int| at < later < variables.len() ==> variables[later].0 != variables[at].0,
    ensures
        with_variables(base, variables).contains_key(variables[at].0),
        with_variables(base, variables)[variables[at].0] == variables[at].1,
    decreases variables.len(),
{
    if at < variables.len() - 1 {
        assert(variables[variables.len() - 1].0 != variables[at].0);
        lemma_variable_bound(base, variables.drop_last(), at);
    }
}

proof fn lemma_variables_keep(
    base: Map<Seq<char>, ValueView>,
    variables: Seq<(Seq<char>, ValueView)>,
    name: Seq<char>,
)
    requires
        forall|i: int| 0 <= i < variables.len() ==> variables[i].0 != name,
    ensures
        with_variables(base, variables).contains_key(name) == base.contains_key(name),
        with_variables(base, variables)[name] == base[name],
    decreases variables.len(),
{
    if variables.len() > 0 {
        assert(variables[variables.len() - 1].0 != name);
        assert forall|i: int| 0 <= i < variables.drop_last().len() implies variables.drop_last()[i].0
            != name by {
            assert(variables[i].0 != name);
        }
        lemma_variables_keep(base, variables.drop_last(), name);
    }
}

/// Flags win: a name that is given as a flag is bound to true, whatever
/// the variables file and the machine say of it.
pub proof fn lemma_flags_override(
    hostname: Seq<char>,
    username: Seq<char>,
    os: Seq<char>,
    variables: Seq<(Seq<char>, ValueView)>,
    flags: Seq<Seq<char>>,
    name: Seq<char>,
)
    requires
        flags.contains(name),
    ensures
        environment_spec(hostname, username, os, variables, flags).contains_key(name),
        environment_spec(hostname, username, os, variables, flags)[name] == ValueView::Bool(true),
{
    lemma_flag_bound(with_variables(computed(hostname, username, os), variables), flags, name);
}

/// The variables file wins over the machine: a name that is no flag and
/// that the file defines is bound to what the file's last definition of
/// it says.
pub proof fn lemma_variables_override_computed(
    hostname: Seq<char>,
    username: Seq<char>,
    os: Seq<char>,
    variables: Seq<(Seq<char>, ValueView)>,
    flags: Seq<Seq<char>>,
    at: int,
)
    requires
        0 <= at < variables.len(),
        forall|later: int| at < later < variables.len() ==> variables[later].0 != variables[at].0,
        !flags.contains(variables[at].0),
    ensures
        environment_spec(hostname, username, os, variables, flags).contains_key(variables[at].0),
        environment_spec(hostname, username, os, variables, flags)[variables[at].0]
            == variables[at].1,
{
    let base = computed(hostname, username, os);
    lemma_variable_bound(base, variables, at);
    lemma_flags_keep(with_variables(base, variables), flags, variables[at].0);
}

/// What neither the flags nor the variables file name stays as computed:
/// such a name is bound exactly if it is one of the computed names, and
/// then to the computed value.
pub proof fn lemma_computed_remain(
    hostname: Seq<char>,
    username: Seq<char>,
    os: Seq<char>,
    variables: Seq<(Seq<char>, ValueView)>,
    flags: Seq<Seq<char>>,
    name: Seq<char>,
)
    requires
        !flags.contains(name),
        forall|i: int| 0 <= i < variables.len() ==> variables[i].0 != name,
    ensures
        environment_spec(hostname, username, os, variables, flags).contains_key(name) == computed(
            hostname,
            username,
            os,
        ).contains_key(name),
        environment_spec(hostname, username, os, variables, flags)[name] == computed(
            hostname,
            username,
            os,
        )[name],
{
    let base = computed(hostname, username, os);
    lemma_variables_keep(base, variables, name);
    lemma_flags_keep(with_variables(base, variables), flags, name);
}

} // verus!
