//! The global namespace: every declaration of every schema under its path,
//! numbered in the order of insertion.

use super::scope::Path;
use super::scope::PathView;
use super::scope::Scope;
use super::scope::Segment;
use crate::ast::Span;
use super::complex_entity::PartialComplexEntity;
use super::instantiables::Instantiables;
use crate::error::path_views;
use crate::error::plain_error;
use crate::error::ErrorKind;
use crate::error::ErrorView;
use crate::error::SemanticError;
use vstd::prelude::*;

verus! {

/// Which node of the syntax tree a declaration is, by position: a schema
/// among the schemas, an entity or a type among those of its schema.
#[derive(Debug, Clone, Copy, PartialEq, Eq, Hash, Structural)]
pub enum Node {
    Schema { schema: usize },
    Entity { schema: usize, entity: usize },
    Type { schema: usize, ty: usize },
}

/// A handle to a node of the syntax tree: which node, and where it stands
/// in the input. It owns nothing and is good for one compilation.
#[derive(Debug, Clone, Copy, PartialEq, Eq, Hash, Structural)]
pub struct AstRef {
    pub node: Node,
    pub span: Span,
}

/// An entry of the namespace as plain values.
pub struct EntryView {
    pub path: PathView,
    pub ast: AstRef,
}

/// The entries of a sequence as plain values.
pub open spec fn entry_views(s: Seq<(Path, AstRef)>) -> Seq<EntryView> {
    s.map_values(|e: (Path, AstRef)| EntryView { path: e.0@, ast: e.1 })
}

/// No two entries have the same path.
pub open spec fn unique_paths(ns: Seq<EntryView>) -> bool {
    forall|i: int, j: int| 0 <= i < j < ns.len() ==> ns[i].path != ns[j].path
}

/// Entry `i` is the declaration `path`.
pub open spec fn is_at(ns: Seq<EntryView>, path: PathView, i: int) -> bool {
    0 <= i < ns.len() && ns[i].path == path
}

/// Entry `i` is the first that is the declaration `path`.
pub open spec fn is_first_at(ns: Seq<EntryView>, path: PathView, i: int) -> bool {
    is_at(ns, path, i) && forall|k: int| 0 <= k < i ==> !is_at(ns, path, k)
}

/// The index of the declaration `path`.
pub open spec fn index_of(ns: Seq<EntryView>, path: PathView) -> int {
    choose|i: int| is_first_at(ns, path, i)
}

/// Some entry is the declaration `path`.
pub open spec fn declares(ns: Seq<EntryView>, path: PathView) -> bool {
    exists|i: int| is_at(ns, path, i)
}

/// Entry `i` declares `name`, as whatever kind, directly in `scope`.
pub open spec fn is_hit(ns: Seq<EntryView>, scope: Seq<Segment>, name: Seq<char>, i: int) -> bool {
    0 <= i < ns.len() && ns[i].path.scope == scope && ns[i].path.name == name
}

/// What a name resolves to.
pub enum Resolution {
    /// The one declaration of the name in the nearest scope that has any
    Found(int),
    /// The nearest scope that declares the name declares it more than once
    Ambiguous,
    /// Neither the scope nor any scope around it declares the name
    Unresolved,
}

/// Resolves `name` as seen from `scope`: the scope itself is searched, then
/// the scope around it, and so on out to the root. The first scope that
/// declares the name decides.
pub open spec fn resolve(ns: Seq<EntryView>, scope: Seq<Segment>, name: Seq<char>) -> Resolution
    decreases scope.len(),
{
    if exists|i: int| is_hit(ns, scope, name, i) {
        let i = choose|i: int| is_hit(ns, scope, name, i);
        if forall|j: int| is_hit(ns, scope, name, j) ==> j == i {
            Resolution::Found(i)
        } else {
            Resolution::Ambiguous
        }
    } else if scope.len() == 0 {
        Resolution::Unresolved
    } else {
        resolve(ns, scope.drop_last(), name)
    }
}

/// There is one first entry for a path.
pub proof fn lemma_first_is_one(ns: Seq<EntryView>, path: PathView, i: int)
    requires
        is_first_at(ns, path, i),
    ensures
        declares(ns, path),
        index_of(ns, path) == i,
{
    let j = index_of(ns, path);
    assert(is_first_at(ns, path, j));
    if j < i {
        assert(!is_at(ns, path, j));
    } else if i < j {
        assert(!is_at(ns, path, i));
    }
}

/// The paths of the declarations with the indices `indices`.
pub open spec fn paths_at(ns: Seq<EntryView>, indices: Seq<usize>) -> Seq<PathView> {
    indices.map_values(|i: usize| ns[i as int].path)
}

/// Every index is one of the namespace.
pub open spec fn indices_within(ns: Seq<EntryView>, indices: Seq<usize>) -> bool {
    forall|k: int| 0 <= k < indices.len() ==> #[trigger] indices[k] < ns.len()
}

/// The diagnostic for a second declaration of `path`, made at `span` when
/// the first stands at `first`.
pub open spec fn duplicate_error(path: PathView, span: Span, first: Span) -> ErrorView {
    ErrorView {
        span,
        secondary: Some(first),
        ..plain_error(ErrorKind::DuplicatePath, path.scope, path.name)
    }
}

/// The paths of all declarations and the syntax tree node of each,
/// numbered densely in the order of insertion.
pub struct Namespace {
    entries: Vec<(Path, AstRef)>,
}

impl View for Namespace {
    type V = Seq<EntryView>;

    closed spec fn view(&self) -> Seq<EntryView> {
        entry_views(self.entries@)
    }
}

impl Namespace {
    /// No path is declared twice. This holds of every namespace made by
    /// [`Namespace::new`] and [`Namespace::insert`].
    pub open spec fn wf(&self) -> bool {
        unique_paths(self@)
    }

    /// The namespace without any declaration.
    pub fn new() -> (r: Self)
        ensures
            r@ == Seq::<EntryView>::empty(),
            r.wf(),
    {
        let entries: Vec<(Path, AstRef)> = Vec::new();
        proof {
            assert(entry_views(entries@) =~= Seq::<EntryView>::empty());
        }
        Namespace { entries }
    }

    /// The number of declarations.
    pub fn len(&self) -> (r: usize)
        ensures
            r == self@.len(),
    {
        self.entries.len()
    }

    /// The index of the declaration `path`, if there is one.
    pub fn position(&self, path: &Path) -> (r: Option<usize>)
        ensures
            match r {
                Some(i) => declares(self@, path@) && i == index_of(self@, path@),
                None => !declares(self@, path@),
            },
            r is Some ==> is_first_at(self@, path@, r->0 as int),
    {
        let mut i: usize = 0;
        while i < self.entries.len()
            invariant
                i <= self.entries.len(),
                forall|k: int| 0 <= k < i ==> self@[k].path != path@,
            decreases self.entries.len() - i,
        {
            proof {
                assert(self@[i as int].path == self.entries@[i as int].0@);
            }
            if self.entries[i].0 == *path {
                proof {
                    lemma_first_is_one(self@, path@, i as int);
                }
                return Some(i);
            }
            i += 1;
        }
        None
    }

    /// Adds the declaration `path`, which is the node `ast` of the syntax
    /// tree, and returns its index: the number of declarations before it.
    ///
    /// A path can be declared once. A second declaration changes nothing
    /// and is answered with a `DuplicatePath` diagnostic at the place of
    /// `ast`, which points back at the place of the first.
    pub fn insert(&mut self, path: Path, ast: AstRef) -> (r: Result<usize, SemanticError>)
        ensures
            old(self).wf() ==> final(self).wf(),
            match r {
                Ok(i) => {
                    &&& !declares(old(self)@, path@)
                    &&& i == old(self)@.len()
                    &&& final(self)@ == old(self)@.push(EntryView { path: path@, ast })
                },
                Err(e) => {
                    &&& final(self)@ == old(self)@
                    &&& declares(old(self)@, path@)
                    &&& e@ == duplicate_error(
                        path@,
                        ast.span,
                        old(self)@[index_of(old(self)@, path@)].ast.span,
                    )
                },
            },
    {
        match self.position(&path) {
            Some(k) => {
                let first = self.entries[k].1.span;
                proof {
                    assert(self@[k as int].ast == self.entries@[k as int].1);
                    assert(is_at(self@, path@, k as int));
                }
                let e = SemanticError::new(
                    ErrorKind::DuplicatePath,
                    &path.scope,
                    path.name.as_str(),
                ).at(ast.span).with_secondary(first);
                Err(e)
            },
            None => {
                let i = self.entries.len();
                let ghost before = self.entries@;
                let ghost entry = EntryView { path: path@, ast };
                self.entries.push((path, ast));
                proof {
                    assert(entry_views(self.entries@) =~= entry_views(before).push(entry));
                    if unique_paths(entry_views(before)) {
                        assert forall|a: int, b: int| 0 <= a < b < self@.len() implies self@[a].path
                            != self@[b].path by {
                            if b == before.len() {
                                assert(!is_at(entry_views(before), entry.path, a));
                            } else {
                                assert(entry_views(before)[a].path != entry_views(before)[b].path);
                            }
                        }
                    }
                }
                Ok(i)
            },
        }
    }

    /// The declaration with the index `i`: its path and its node.
    pub fn indexed(&self, i: usize) -> (r: (&Path, AstRef))
        requires
            i < self@.len(),
        ensures
            r.0@ == self@[i as int].path,
            r.1 == self@[i as int].ast,
    {
        (&self.entries[i].0, self.entries[i].1)
    }

    /// The node and the index of the declaration `path`.
    ///
    /// Where nothing is declared under `path`, the answer is an
    /// `Unresolved` diagnostic for the name and the scope of the path.
    pub fn get(&self, path: &Path) -> (r: Result<(AstRef, usize), SemanticError>)
        ensures
            match r {
                Ok((ast, i)) => declares(self@, path@) && i == index_of(self@, path@) && is_at(
                    self@,
                    path@,
                    i as int,
                ) && ast == self@[i as int].ast,
                Err(e) => !declares(self@, path@) && e@ == plain_error(
                    ErrorKind::Unresolved,
                    path@.scope,
                    path@.name,
                ),
            },
    {
        match self.position(path) {
            Some(i) => Ok((self.entries[i].1, i)),
            None => Err(SemanticError::new(ErrorKind::Unresolved, &path.scope, path.name.as_str())),
        }
    }

    /// How many declarations of `name` stand directly in `scope`, counted
    /// up to two, and the index of the first.
    fn hits(&self, scope: &Scope, name: &String) -> (r: (usize, usize))
        ensures
            r.0 == 0 ==> !exists|i: int| is_hit(self@, scope@, name@, i),
            r.0 == 1 ==> is_hit(self@, scope@, name@, r.1 as int) && forall|j: int|
                is_hit(self@, scope@, name@, j) ==> j == r.1,
            r.0 >= 2 ==> exists|i: int, j: int|
                i != j && is_hit(self@, scope@, name@, i) && is_hit(self@, scope@, name@, j),
            r.0 <= 2,
    {
        let mut count: usize = 0;
        let mut first: usize = 0;
        let mut i: usize = 0;
        while i < self.entries.len()
            invariant
                i <= self.entries.len(),
                count <= 1,
                count == 0 ==> forall|k: int| 0 <= k < i ==> !is_hit(self@, scope@, name@, k),
                count == 1 ==> first < i && is_hit(self@, scope@, name@, first as int) && forall|
                    k: int,
                |
                    0 <= k < i && is_hit(self@, scope@, name@, k) ==> k == first,
            decreases self.entries.len() - i,
        {
            proof {
                assert(self@[i as int].path == self.entries@[i as int].0@);
            }
            if self.entries[i].0.name == *name && self.entries[i].0.scope == *scope {
                if count == 1 {
                    proof {
                        assert(is_hit(self@, scope@, name@, i as int));
                        assert(first != i);
                    }
                    return (2, first);
                }
                count = 1;
                first = i;
            }
            i += 1;
        }
        (count, first)
    }

    /// Resolves the identifier `name` used in `scope`: the node and the
    /// index of the declaration it names.
    ///
    /// `scope` is searched first, then each scope around it out to the
    /// root; the first that declares `name` decides. If it declares the
    /// name once, that declaration is the answer; if more than once, an
    /// `Ambiguous` diagnostic. If no scope declares it, the answer is an
    /// `Unresolved` diagnostic. Both name `name` and `scope`.
    pub fn lookup(&self, scope: &Scope, name: &str) -> (r: Result<(AstRef, usize), SemanticError>)
        ensures
            match resolve(self@, scope@, name@) {
                Resolution::Found(i) => r matches Ok((ast, index)) && ast == self@[i].ast && index
                    == i && 0 <= i < self@.len(),
                Resolution::Ambiguous => r is Err && r->Err_0@ == plain_error(
                    ErrorKind::Ambiguous,
                    scope@,
                    name@,
                ),
                Resolution::Unresolved => r is Err && r->Err_0@ == plain_error(
                    ErrorKind::Unresolved,
                    scope@,
                    name@,
                ),
            },
    {
        let owned = name.to_owned();
        let mut cur = scope.clone();
        loop
            invariant
                owned@ == name@,
                resolve(self@, scope@, name@) == resolve(self@, cur@, name@),
            decreases cur@.len(),
        {
            let (count, first) = self.hits(&cur, &owned);
            if count == 1 {
                proof {
                    let i = choose|i: int| is_hit(self@, cur@, name@, i);
                    assert(i == first);
                    assert(self@[first as int].ast == self.entries@[first as int].1);
                }
                return Ok((self.entries[first].1, first));
            }
            if count >= 2 {
                proof {
                    let (a, b) = choose|a: int, b: int|
                        a != b && is_hit(self@, cur@, name@, a) && is_hit(self@, cur@, name@, b);
                    let i = choose|i: int| is_hit(self@, cur@, name@, i);
                    assert(a != i || b != i);
                }
                return Err(SemanticError::new(ErrorKind::Ambiguous, scope, name));
            }
            match cur.popped() {
                None => {
                    return Err(SemanticError::new(ErrorKind::Unresolved, scope, name));
                },
                Some(outer) => {
                    cur = outer;
                },
            }
        }
    }
}

/// A declaration is found again under its own name, looked up from its own
/// scope, provided that the scope holds no declaration of another kind
/// with the same name (which would make the name ambiguous there).
pub proof fn declaration_resolves_to_its_index(ns: Seq<EntryView>, i: int)
    requires
        unique_paths(ns),
        0 <= i < ns.len(),
        forall|j: int| #[trigger]
            is_hit(ns, ns[i].path.scope, ns[i].path.name, j) ==> ns[j].path.ty == ns[i].path.ty,
    ensures
        resolve(ns, ns[i].path.scope, ns[i].path.name) == Resolution::Found(i),
{
    let scope = ns[i].path.scope;
    let name = ns[i].path.name;
    assert(is_hit(ns, scope, name, i));
    assert forall|j: int| is_hit(ns, scope, name, j) implies j == i by {
        assert(ns[j].path == ns[i].path);
        if j < i {
            assert(ns[j].path != ns[i].path);
        } else if i < j {
            assert(ns[i].path != ns[j].path);
        }
    }
    let c = choose|k: int| is_hit(ns, scope, name, k);
    assert(c == i);
}

/// What was just inserted is found under its own name from its own scope,
/// at the index that the insertion returned, provided that the scope
/// holds no declaration of another kind with the same name.
pub proof fn inserted_resolves_to_its_index(ns: Seq<EntryView>, entry: EntryView)
    requires
        unique_paths(ns),
        !declares(ns, entry.path),
        forall|j: int| #[trigger]
            is_hit(ns, entry.path.scope, entry.path.name, j) ==> ns[j].path.ty == entry.path.ty,
    ensures
        resolve(ns.push(entry), entry.path.scope, entry.path.name) == Resolution::Found(
            ns.len() as int,
        ),
{
    let after = ns.push(entry);
    assert forall|a: int, b: int| 0 <= a < b < after.len() implies after[a].path
        != after[b].path by {
        if b == ns.len() {
            assert(!is_at(ns, entry.path, a));
        } else {
            assert(ns[a].path != ns[b].path);
        }
    }
    assert forall|j: int| #[trigger]
        is_hit(after, entry.path.scope, entry.path.name, j) implies after[j].path.ty
        == entry.path.ty by {
        if j < ns.len() {
            assert(is_hit(ns, entry.path.scope, entry.path.name, j));
        }
    }
    declaration_resolves_to_its_index(after, ns.len() as int);
}

/// The paths of the alternatives of a sequence.
pub open spec fn path_lists(s: Seq<Vec<Path>>) -> Seq<Seq<PathView>> {
    s.map_values(|v: Vec<Path>| path_views(v@))
}

/// The paths of the declarations that each alternative names.
pub open spec fn paths_of_parts(ns: Seq<EntryView>, parts: Seq<Seq<usize>>) -> Seq<Seq<PathView>> {
    parts.map_values(|p: Seq<usize>| paths_at(ns, p))
}

impl PartialComplexEntity {
    /// Restore Path from namespace index
    pub fn as_path(&self, ns: &Namespace) -> (r: Vec<Path>)
        requires
            indices_within(ns@, self@),
        ensures
            path_views(r@) == paths_at(ns@, self@),
    {
        let mut out: Vec<Path> = Vec::new();
        let mut k: usize = 0;
        proof {
            assert(path_views(out@) =~= paths_at(ns@, self@.take(0)));
        }
        while k < self.indices.len()
            invariant
                k <= self.indices.len(),
                indices_within(ns@, self@),
                path_views(out@) == paths_at(ns@, self@.take(k as int)),
            decreases self.indices.len() - k,
        {
            let ghost before = out@;
            let path = ns.indexed(self.indices[k]).0.clone();
            out.push(path);
            proof {
                assert(path_views(out@) =~= path_views(before).push(path@));
                assert(paths_at(ns@, self@.take(k + 1)) =~= paths_at(ns@, self@.take(k as int)).push(
                    path@,
                ));
            }
            k += 1;
        }
        proof {
            assert(self@.take(k as int) =~= self@);
        }
        out
    }
}

impl Instantiables {
    /// Restore Path from namespace index
    pub fn as_path(&self, ns: &Namespace) -> (r: Vec<Vec<Path>>)
        requires
            forall|i: int| 0 <= i < self@.len() ==> indices_within(ns@, #[trigger] self@[i]),
        ensures
            path_lists(r@) == paths_of_parts(ns@, self@),
    {
        let mut out: Vec<Vec<Path>> = Vec::new();
        let mut k: usize = 0;
        proof {
            assert(path_lists(out@) =~= paths_of_parts(ns@, self@.take(0)));
        }
        while k < self.parts.len()
            invariant
                k <= self.parts.len(),
                forall|i: int| 0 <= i < self@.len() ==> indices_within(ns@, #[trigger] self@[i]),
                path_lists(out@) == paths_of_parts(ns@, self@.take(k as int)),
            decreases self.parts.len() - k,
        {
            let ghost before = out@;
            proof {
                assert(self@[k as int] == self.parts@[k as int]@);
            }
            let paths = self.parts[k].as_path(ns);
            out.push(paths);
            proof {
                assert(path_lists(out@) =~= path_lists(before).push(path_views(paths@)));
                assert(paths_of_parts(ns@, self@.take(k + 1)) =~= paths_of_parts(
                    ns@,
                    self@.take(k as int),
                ).push(paths_at(ns@, self@[k as int])));
            }
            k += 1;
        }
        proof {
            assert(self@.take(k as int) =~= self@);
        }
        out
    }
}

} // verus!
