//! The dependency injector and the typed accessors of a manifest and a lock
//! document.
use vstd::prelude::*;

use crate::document::{entries_map, has_key, lemma_entries_map, lemma_entries_map_push,
    lemma_entries_map_update, ShapeError, Table, Value};

verus! {

/// The options of one invocation, as the command line gave them.
pub struct Args {
    pub cmd_test: bool,
    pub cmd_dupes: bool,
    pub flag_stdxgit: Option<String>,
    pub flag_stdxversion: Option<String>,
}

/// How the injected dependency is resolved.
#[derive(Debug, PartialEq, Eq)]
pub enum StdxOpt {
    /// A repository to fetch it from.
    Git(String),
    /// A published version.
    Version(String),
}

/// Why a dependency could not be injected.
#[derive(Debug, PartialEq, Eq)]
pub enum InjectError {
    /// The manifest has no `dependencies` table.
    Shape(ShapeError),
    /// The dependency is already there; the manifest was left as it was.
    AlreadyPresent,
}

impl StdxOpt {
    /// The source of the dependency: a version where one was given, else the
    /// repository.
    pub fn from(args: &Args) -> (r: StdxOpt)
        requires
            args.flag_stdxversion is Some || args.flag_stdxgit is Some,
        ensures
            match args.flag_stdxversion {
                Some(v) => r == StdxOpt::Version(v),
                None => r == StdxOpt::Git(args.flag_stdxgit->Some_0),
            },
    {
        match &args.flag_stdxversion {
            Some(version) => StdxOpt::Version(version.clone()),
            None => match &args.flag_stdxgit {
                Some(git) => StdxOpt::Git(git.clone()),
                None => unreached(),
            },
        }
    }
}

/// The key of the dependency table of a manifest.
pub open spec fn dependencies_key() -> Seq<char> {
    seq!['d', 'e', 'p', 'e', 'n', 'd', 'e', 'n', 'c', 'i', 'e', 's']
}

/// The key of the package list of a lock document.
pub open spec fn package_key() -> Seq<char> {
    seq!['p', 'a', 'c', 'k', 'a', 'g', 'e']
}

/// The key of the repository entry of a dependency given by its repository.
pub open spec fn git_key() -> Seq<char> {
    seq!['g', 'i', 't']
}

/// The key of a package's name.
pub open spec fn name_key() -> Seq<char> {
    seq!['n', 'a', 'm', 'e']
}

/// The dependency table of a manifest, as a map; empty where there is none.
pub open spec fn deps_of(doc: Map<Seq<char>, Value>) -> Map<Seq<char>, Value> {
    match doc[dependencies_key()] {
        Value::Table(t) => t@,
        _ => Map::empty(),
    }
}

/// Whether the manifest has a dependency table.
pub open spec fn has_deps_table(doc: Map<Seq<char>, Value>) -> bool {
    doc.contains_key(dependencies_key()) && doc[dependencies_key()] is Table
}

/// Whether `v` is the entry that stands for `dep`: the version as a string, or
/// a table whose one entry gives the repository.
pub open spec fn is_dep_value(v: Value, dep: StdxOpt) -> bool {
    match dep {
        StdxOpt::Version(version) => v == Value::Str(version),
        StdxOpt::Git(url) => match v {
            Value::Table(t) => t@ == map![git_key() => Value::Str(url)],
            _ => false,
        },
    }
}

/// Whether `after` is `before` with `name` added to its dependency table as
/// the entry that stands for `dep`, all else unchanged.
pub open spec fn injected(
    before: Map<Seq<char>, Value>,
    after: Map<Seq<char>, Value>,
    name: Seq<char>,
    dep: StdxOpt,
) -> bool {
    &&& after.dom() == before.dom()
    &&& forall|k: Seq<char>| k != dependencies_key() && #[trigger] before.contains_key(k) ==> after[k] == before[k]
    &&& has_deps_table(after)
    &&& deps_of(after).contains_key(name)
    &&& is_dep_value(deps_of(after)[name], dep)
    &&& deps_of(after) == deps_of(before).insert(name, deps_of(after)[name])
}

/// After an injection, the dependency table holds the original entries,
/// unchanged, and the injected one, and nothing else; the rest of the
/// manifest is as it was.
pub proof fn injection_adds_exactly_one(
    before: Map<Seq<char>, Value>,
    after: Map<Seq<char>, Value>,
    name: Seq<char>,
    dep: StdxOpt,
)
    requires
        !deps_of(before).contains_key(name),
        injected(before, after, name, dep),
    ensures
        forall|k: Seq<char>| #[trigger] deps_of(after).contains_key(k) <==> (deps_of(before).contains_key(k) || k == name),
        forall|k: Seq<char>| #[trigger] deps_of(before).contains_key(k) ==> deps_of(after)[k] == deps_of(before)[k],
        is_dep_value(deps_of(after)[name], dep),
        forall|k: Seq<char>| k != dependencies_key() && #[trigger] before.contains_key(k) ==> after.contains_key(k) && after[k] == before[k],
{
    assert forall|k: Seq<char>| #[trigger] deps_of(before).contains_key(k) implies deps_of(after)[k] == deps_of(before)[k] by {
        assert(k != name);
    }
}

/// The dependency table of a manifest.
pub fn get_dependencies(toml: &Table) -> (r: Result<&Table, ShapeError>)
    ensures
        r == Err::<&Table, ShapeError>(ShapeError::Missing) <==> !toml@.contains_key(dependencies_key()),
        r is Ok <==> has_deps_table(toml@),
        r is Ok ==> toml@[dependencies_key()] == Value::Table(*r->Ok_0),
{
    let key = "dependencies".to_owned();
    proof {
        reveal_strlit("dependencies");
        assert(key@ =~= dependencies_key());
    }
    toml.get_table(&key)
}

/// The package list of a lock document.
pub fn get_packages(toml: &Table) -> (r: Result<&Vec<Value>, ShapeError>)
    ensures
        r == Err::<&Vec<Value>, ShapeError>(ShapeError::Missing) <==> !toml@.contains_key(package_key()),
        r is Ok <==> toml@.contains_key(package_key()) && toml@[package_key()] is Array,
        r is Ok ==> toml@[package_key()] == Value::Array(*r->Ok_0),
{
    let key = "package".to_owned();
    proof {
        reveal_strlit("package");
        assert(key@ =~= package_key());
    }
    toml.get_array(&key)
}

/// The entry that stands for `dep`.
pub fn dep_value(dep: &StdxOpt) -> (r: Value)
    ensures
        is_dep_value(r, *dep),
{
    match dep {
        StdxOpt::Version(version) => Value::Str(version.clone()),
        StdxOpt::Git(git) => {
            let mut t = Table::new();
            let key = "git".to_owned();
            let entry = (key, Value::Str(git.clone()));
            proof {
                reveal_strlit("git");
                assert(key@ =~= git_key());
                lemma_entries_map_push(t.entries@, entry);
            }
            t.entries.push(entry);
            proof {
                assert(t@ =~= map![git_key() => Value::Str(*git)]);
            }
            Value::Table(t)
        },
    }
}

/// Adds `name` to the dependency table of `doc`, as the entry that stands for
/// `dep`. Fails, and leaves `doc` as it was, where there is no dependency
/// table or `name` is in it already.
pub fn inject(doc: &mut Table, name: &String, dep: &StdxOpt) -> (r: Result<(), InjectError>)
    ensures
        old(doc).wf() ==> final(doc).wf(),
        r == Err::<(), InjectError>(InjectError::Shape(ShapeError::Missing)) <==> !old(doc)@.contains_key(dependencies_key()),
        r == Err::<(), InjectError>(InjectError::Shape(ShapeError::WrongType)) <==> (
            old(doc)@.contains_key(dependencies_key()) && !has_deps_table(old(doc)@)),
        r == Err::<(), InjectError>(InjectError::AlreadyPresent) <==> (has_deps_table(old(doc)@)
            && deps_of(old(doc)@).contains_key(name@)),
        r is Ok <==> has_deps_table(old(doc)@) && !deps_of(old(doc)@).contains_key(name@),
        r is Ok ==> injected(old(doc)@, final(doc)@, name@, *dep),
        r is Err ==> *final(doc) == *old(doc),
{
    let key = "dependencies".to_owned();
    proof {
        reveal_strlit("dependencies");
        assert(key@ =~= dependencies_key());
        lemma_entries_map(doc.entries@);
    }
    let i = match doc.find(&key) {
        None => {
            return Err(InjectError::Shape(ShapeError::Missing));
        },
        Some(i) => i,
    };
    match &doc.entries[i].1 {
        Value::Table(deps) => {
            proof {
                lemma_entries_map(deps.entries@);
            }
            if deps.find(name).is_some() {
                return Err(InjectError::AlreadyPresent);
            }
        },
        _ => {
            return Err(InjectError::Shape(ShapeError::WrongType));
        },
    }
    let ghost before = doc.entries@;
    let (k, v) = doc.entries.remove(i);
    let mut deps = match v {
        Value::Table(t) => t,
        _ => Table::new(),
    };
    let entry = (name.clone(), dep_value(dep));
    proof {
        lemma_entries_map_push(deps.entries@, entry);
    }
    deps.entries.push(entry);
    let ghost new_deps = deps;
    doc.entries.insert(i, (k, Value::Table(deps)));
    proof {
        assert(doc.entries@ =~= before.update(i as int, (k, Value::Table(new_deps))));
        lemma_entries_map_update(before, i as int, (k, Value::Table(new_deps)));
        assert(doc@.dom() =~= entries_map(before).dom());
    }
    Ok(())
}

/// The entry under `name` in the dependency table of `doc`: after an
/// injection failed with `AlreadyPresent`, the entry that stood in its way.
pub fn existing_dependency<'a>(doc: &'a Table, name: &String) -> (r: Option<&'a Value>)
    ensures
        r is Some <==> has_deps_table(doc@) && deps_of(doc@).contains_key(name@),
        r matches Some(v) ==> *v == deps_of(doc@)[name@],
{
    match get_dependencies(doc) {
        Ok(deps) => {
            proof {
                lemma_entries_map(deps.entries@);
            }
            match deps.find(name) {
                Some(i) => Some(&deps.entries[i].1),
                None => None,
            }
        },
        Err(_) => None,
    }
}

/// Adds the `stdx` dependency to a manifest.
pub fn insert_stdx_dep(toml: &mut Table, stdx_opt: &StdxOpt) -> (r: Result<(), InjectError>)
    ensures
        old(toml).wf() ==> final(toml).wf(),
        r is Ok <==> has_deps_table(old(toml)@) && !deps_of(old(toml)@).contains_key(stdx_name()),
        r is Ok ==> injected(old(toml)@, final(toml)@, stdx_name(), *stdx_opt),
        r is Err ==> *final(toml) == *old(toml),
{
    let name = "stdx".to_owned();
    proof {
        reveal_strlit("stdx");
        assert(name@ =~= stdx_name());
    }
    inject(toml, &name, stdx_opt)
}

/// The name under which the dependency is injected.
pub open spec fn stdx_name() -> Seq<char> {
    seq!['s', 't', 'd', 'x']
}

/// The name of a package entry: its `name` field, where it is a table that
/// holds one as a string.
pub open spec fn name_of(v: Value) -> Option<Seq<char>> {
    match v {
        Value::Table(t) => if t@.contains_key(name_key()) {
            match t@[name_key()] {
                Value::Str(s) => Some(s@),
                _ => None,
            }
        } else {
            None
        },
        _ => None,
    }
}

/// The name of a package entry, where it is a table with a `name` string.
pub fn extract_name(val: &Value) -> (r: Option<&String>)
    ensures
        r matches Some(s) ==> name_of(*val) == Some(s@),
        r is None ==> name_of(*val) is None,
{
    match val {
        Value::Table(entries) => {
            let key = "name".to_owned();
            proof {
                reveal_strlit("name");
                assert(key@ =~= name_key());
                lemma_entries_map(entries.entries@);
            }
            match entries.find(&key) {
                Some(i) => match &entries.entries[i].1 {
                    Value::Str(name) => Some(name),
                    _ => None,
                },
                None => None,
            }
        },
        _ => None,
    }
}

} // verus!
