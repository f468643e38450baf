//! Scopes and paths: where a declaration stands and what it is called.

use core::cmp::Ordering;
use itertools::Itertools;
use vstd::prelude::*;
use vstd::std_specs::cmp::PartialEqSpecImpl;
use vstd::std_specs::cmp::PartialOrdSpecImpl;
use vstd::string::StringExecFns;

verus! {

/// The kinds of item that open a scope or define an identifier
/// (ISO 10303-11, table 9).
#[derive(Debug, Clone, Copy, PartialEq, Eq, PartialOrd, Ord, Hash, Structural)]
pub enum ScopeType {
    Entity,
    Alias,
    Function,
    Procedure,
    Query,
    Repeat,
    Rule,
    Schema,
    SubType,
    Type,
}

/// The name of a kind, as it is printed.
pub open spec fn kind_name(ty: ScopeType) -> Seq<char> {
    match ty {
        ScopeType::Entity => "Entity"@,
        ScopeType::Alias => "Alias"@,
        ScopeType::Function => "Function"@,
        ScopeType::Procedure => "Procedure"@,
        ScopeType::Query => "Query"@,
        ScopeType::Repeat => "Repeat"@,
        ScopeType::Rule => "Rule"@,
        ScopeType::Schema => "Schema"@,
        ScopeType::SubType => "SubType"@,
        ScopeType::Type => "Type"@,
    }
}

impl ScopeType {
    /// The name of the kind.
    pub fn name(&self) -> (r: &'static str)
        ensures
            r@ == kind_name(*self),
    {
        match self {
            ScopeType::Entity => "Entity",
            ScopeType::Alias => "Alias",
            ScopeType::Function => "Function",
            ScopeType::Procedure => "Procedure",
            ScopeType::Query => "Query",
            ScopeType::Repeat => "Repeat",
            ScopeType::Rule => "Rule",
            ScopeType::Schema => "Schema",
            ScopeType::SubType => "SubType",
            ScopeType::Type => "Type",
        }
    }
}

/// One step of a scope: the kind of the enclosing item and its name.
pub type Segment = (ScopeType, Seq<char>);

/// The steps of a scope as plain values.
pub open spec fn segment_views(s: Seq<(ScopeType, String)>) -> Seq<Segment> {
    s.map_values(|e: (ScopeType, String)| (e.0, e.1@))
}

/// The names of the steps.
pub open spec fn segment_names(s: Seq<Segment>) -> Seq<Seq<char>> {
    s.map_values(|e: Segment| e.1)
}

/// `parts` written one after another with `sep` between neighbours.
pub open spec fn joined(parts: Seq<Seq<char>>, sep: Seq<char>) -> Seq<char>
    decreases parts.len(),
{
    if parts.len() == 0 {
        Seq::empty()
    } else if parts.len() == 1 {
        parts[0]
    } else {
        joined(parts.drop_last(), sep) + sep + parts.last()
    }
}

/// A step as it is printed for inspection: `name[Kind]`.
pub open spec fn segment_text(e: Segment) -> Seq<char> {
    e.1 + "["@ + kind_name(e.0) + "]"@
}

/// The steps before `n` printed for inspection, `.` between neighbours.
pub open spec fn segments_text(s: Seq<Segment>, n: int) -> Seq<char>
    decreases n,
{
    if n <= 0 {
        Seq::empty()
    } else if n == 1 {
        segment_text(s[0])
    } else {
        segments_text(s, n - 1) + "."@ + segment_text(s[n - 1])
    }
}

/// A scope as it is printed for inspection: `Scope(schema[Schema].entity[Entity])`.
pub open spec fn scope_debug_text(s: Seq<Segment>) -> Seq<char> {
    "Scope("@ + segments_text(s, s.len() as int) + ")"@
}

/// A scope: the chain of enclosing items, outermost first. The root scope
/// is the empty chain.
///
/// Scopes are partially ordered by enclosure: `a <= b` when `a` is `b` or
/// encloses it, that is when the chain of `a` is a prefix of that of `b`.
/// Two scopes of which neither encloses the other are not comparable.
#[derive(Debug, Hash)]
pub struct Scope(Vec<(ScopeType, String)>);

impl View for Scope {
    type V = Seq<Segment>;

    closed spec fn view(&self) -> Seq<Segment> {
        segment_views(self.0@)
    }
}

/// Joins the names of a scope with `Itertools::join`.
///
/// Trusted: the result is the names in order with `sep` between
/// neighbours, and nothing for no name.
#[verifier::external_body]
fn join_names(segments: &Vec<(ScopeType, String)>, sep: &str) -> (r: String)
    ensures
        r@ == joined(segment_names(segment_views(segments@)), sep@),
{
    segments.iter().map(|(_ty, name)| name).join(sep)
}

impl Scope {
    /// The root scope.
    pub fn root() -> (r: Self)
        ensures
            r@ == Seq::<Segment>::empty(),
    {
        let r = Scope(Vec::new());
        proof {
            assert(r@ =~= Seq::<Segment>::empty());
        }
        r
    }

    /// The number of enclosing items.
    pub fn depth(&self) -> (r: usize)
        ensures
            r == self@.len(),
    {
        self.0.len()
    }

    /// The scope of the item `name` of kind `ty` declared in this scope.
    pub fn pushed(&self, ty: ScopeType, name: &str) -> (r: Self)
        ensures
            r@ == self@.push((ty, name@)),
    {
        let mut new = self.clone();
        let ghost before = new.0@;
        let owned = name.to_owned();
        new.0.push((ty, owned));
        proof {
            assert(new.0@ == before.push((ty, owned)));
            assert(segment_views(new.0@) =~= segment_views(before).push((ty, name@)));
        }
        new
    }

    /// Add Entity scope
    pub fn entity(&self, name: &str) -> (r: Self)
        ensures
            r@ == self@.push((ScopeType::Entity, name@)),
    {
        self.pushed(ScopeType::Entity, name)
    }

    /// Add Alias scope
    pub fn alias(&self, name: &str) -> (r: Self)
        ensures
            r@ == self@.push((ScopeType::Alias, name@)),
    {
        self.pushed(ScopeType::Alias, name)
    }

    /// Add Function scope
    pub fn function(&self, name: &str) -> (r: Self)
        ensures
            r@ == self@.push((ScopeType::Function, name@)),
    {
        self.pushed(ScopeType::Function, name)
    }

    /// Add Procedure scope
    pub fn procedure(&self, name: &str) -> (r: Self)
        ensures
            r@ == self@.push((ScopeType::Procedure, name@)),
    {
        self.pushed(ScopeType::Procedure, name)
    }

    /// Add Query scope
    pub fn query(&self, name: &str) -> (r: Self)
        ensures
            r@ == self@.push((ScopeType::Query, name@)),
    {
        self.pushed(ScopeType::Query, name)
    }

    /// Add Repeat scope
    pub fn repeat(&self, name: &str) -> (r: Self)
        ensures
            r@ == self@.push((ScopeType::Repeat, name@)),
    {
        self.pushed(ScopeType::Repeat, name)
    }

    /// Add Rule scope
    pub fn rule(&self, name: &str) -> (r: Self)
        ensures
            r@ == self@.push((ScopeType::Rule, name@)),
    {
        self.pushed(ScopeType::Rule, name)
    }

    /// Add Schema scope
    pub fn schema(&self, name: &str) -> (r: Self)
        ensures
            r@ == self@.push((ScopeType::Schema, name@)),
    {
        self.pushed(ScopeType::Schema, name)
    }

    /// Add SubType scope
    pub fn subtype(&self, name: &str) -> (r: Self)
        ensures
            r@ == self@.push((ScopeType::SubType, name@)),
    {
        self.pushed(ScopeType::SubType, name)
    }

    /// Add Type scope
    pub fn type_(&self, name: &str) -> (r: Self)
        ensures
            r@ == self@.push((ScopeType::Type, name@)),
    {
        self.pushed(ScopeType::Type, name)
    }

    /// Pop the last scope
    ///
    /// Returns `None` when `self` is root.
    pub fn popped(&self) -> (r: Option<Self>)
        ensures
            self@.len() == 0 ==> r is None,
            self@.len() > 0 ==> r is Some && r->0@ == self@.drop_last(),
    {
        let mut new = self.clone();
        let ghost before = new.0@;
        match new.0.pop() {
            None => None,
            Some(_current) => {
                proof {
                    assert(segment_views(new.0@) =~= segment_views(before).drop_last());
                }
                Some(new)
            },
        }
    }

    /// Whether `self` is `other` or encloses it.
    pub fn is_prefix_of(&self, other: &Scope) -> (r: bool)
        ensures
            r == self@.is_prefix_of(other@),
    {
        let n = self.0.len();
        if n > other.0.len() {
            return false;
        }
        let mut i: usize = 0;
        while i < n
            invariant
                i <= n,
                n == self@.len(),
                n <= other@.len(),
                forall|k: int| 0 <= k < i ==> self@[k] == other@[k],
            decreases n - i,
        {
            let same = self.0[i].0 == other.0[i].0 && self.0[i].1 == other.0[i].1;
            proof {
                assert(self@[i as int] == (self.0@[i as int].0, self.0@[i as int].1@));
                assert(other@[i as int] == (other.0@[i as int].0, other.0@[i as int].1@));
            }
            if !same {
                proof {
                    assert(other@.subrange(0, n as int)[i as int] == other@[i as int]);
                }
                return false;
            }
            i += 1;
        }
        proof {
            assert(self@ =~= other@.subrange(0, n as int));
        }
        true
    }

    /// The names of the enclosing items with `.` between them, e.g. `schema.entity`.
    pub fn to_string(&self) -> (r: String)
        ensures
            r@ == joined(segment_names(self@), "."@),
    {
        join_names(&self.0, ".")
    }

    /// The scope as it is printed for inspection, e.g.
    /// `Scope(schema[Schema].entity[Entity])`.
    pub fn to_debug_string(&self) -> (r: String)
        ensures
            r@ == scope_debug_text(self@),
    {
        let mut out = String::from_str("Scope(");
        let ghost head = out@;
        let mut i: usize = 0;
        while i < self.0.len()
            invariant
                i <= self.0.len(),
                head == "Scope("@,
                out@ == head + segments_text(self@, i as int),
            decreases self.0.len() - i,
        {
            let ghost before = out@;
            if i != 0 {
                out.append(".");
            }
            out.append(self.0[i].1.as_str());
            out.append("[");
            out.append(self.0[i].0.name());
            out.append("]");
            proof {
                let e = self@[i as int];
                assert(e == (self.0@[i as int].0, self.0@[i as int].1@));
                let t = segment_text(e);
                assert(t =~= e.1 + "["@ + kind_name(e.0) + "]"@);
                if i == 0 {
                    assert(segments_text(self@, 0) =~= Seq::<char>::empty());
                    assert(out@ =~= head + t);
                } else {
                    assert(out@ =~= head + (segments_text(self@, i as int) + "."@ + t));
                }
            }
            i += 1;
        }
        out.append(")");
        out
    }
}

impl Clone for Scope {
    fn clone(&self) -> (r: Self)
        ensures
            r@ == self@,
    {
        let mut v: Vec<(ScopeType, String)> = Vec::new();
        let mut i: usize = 0;
        while i < self.0.len()
            invariant
                i <= self.0.len(),
                segment_views(v@) == self@.take(i as int),
            decreases self.0.len() - i,
        {
            let ghost prior = v@;
            let e = (self.0[i].0, self.0[i].1.clone());
            v.push(e);
            proof {
                assert(v@ == prior.push(e));
                assert(segment_views(v@) =~= segment_views(prior).push((e.0, e.1@)));
                assert(self@.take(i + 1) =~= self@.take(i as int).push(self@[i as int]));
            }
            i += 1;
        }
        proof {
            assert(self@.take(i as int) =~= self@);
        }
        Scope(v)
    }
}

impl PartialEq for Scope {
    fn eq(&self, other: &Self) -> (r: bool) {
        let r = self.0.len() == other.0.len() && self.is_prefix_of(other);
        proof {
            if r {
                assert(other@.subrange(0, self@.len() as int) =~= other@);
            }
            if self@ == other@ {
                assert(other@.subrange(0, self@.len() as int) =~= other@);
            }
        }
        r
    }
}

impl Eq for Scope {

}

impl PartialEqSpecImpl for Scope {
    open spec fn obeys_eq_spec() -> bool {
        true
    }

    open spec fn eq_spec(&self, other: &Self) -> bool {
        self@ == other@
    }
}

impl PartialOrdSpecImpl for Scope {
    open spec fn obeys_partial_cmp_spec() -> bool {
        true
    }

    open spec fn partial_cmp_spec(&self, other: &Self) -> Option<Ordering> {
        if self@ == other@ {
            Some(Ordering::Equal)
        } else if self@.is_prefix_of(other@) {
            Some(Ordering::Less)
        } else if other@.is_prefix_of(self@) {
            Some(Ordering::Greater)
        } else {
            None
        }
    }
}

impl PartialOrd for Scope {
    fn partial_cmp(&self, other: &Self) -> (r: Option<Ordering>) {
        let below = self.is_prefix_of(other);
        let above = other.is_prefix_of(self);
        proof {
            lemma_mutual_prefix(self@, other@);
        }
        if below && above {
            Some(Ordering::Equal)
        } else if below {
            Some(Ordering::Less)
        } else if above {
            Some(Ordering::Greater)
        } else {
            None
        }
    }
}

/// Two chains that are prefixes of each other are the same chain, and a
/// chain is a prefix of itself.
pub proof fn lemma_mutual_prefix<T>(a: Seq<T>, b: Seq<T>)
    ensures
        a.is_prefix_of(b) && b.is_prefix_of(a) <==> a == b,
{
    if a.is_prefix_of(b) && b.is_prefix_of(a) {
        assert(b.subrange(0, a.len() as int) =~= b);
    }
    if a == b {
        assert(b.subrange(0, a.len() as int) =~= b);
    }
}

/// A path as plain values.
pub struct PathView {
    pub scope: Seq<Segment>,
    pub ty: ScopeType,
    pub name: Seq<char>,
}

/// A path as it is printed: `schema.entity.name`.
pub open spec fn path_text(p: PathView) -> Seq<char> {
    joined(segment_names(p.scope), "."@) + "."@ + p.name
}

/// A path as it is printed for inspection: `Scope(schema[Schema]).name[Entity]`.
pub open spec fn path_debug_text(p: PathView) -> Seq<char> {
    scope_debug_text(p.scope) + "."@ + p.name + "["@ + kind_name(p.ty) + "]"@
}

/// The full name of a declaration: the scope it stands in, its kind, and
/// its own name. Two declarations are the same when all three agree.
#[derive(Debug, Hash)]
pub struct Path {
    pub scope: Scope,
    pub ty: ScopeType,
    pub name: String,
}

impl View for Path {
    type V = PathView;

    open spec fn view(&self) -> PathView {
        PathView { scope: self.scope@, ty: self.ty, name: self.name@ }
    }
}

impl Path {
    /// The path of the item `name` of kind `ty` declared in `scope`.
    pub fn new(scope: &Scope, ty: ScopeType, name: &str) -> (r: Self)
        ensures
            r@ == (PathView { scope: scope@, ty, name: name@ }),
    {
        Path { scope: scope.clone(), ty, name: name.to_owned() }
    }

    /// The path of an entity
    pub fn entity(scope: &Scope, name: &str) -> (r: Self)
        ensures
            r@ == (PathView { scope: scope@, ty: ScopeType::Entity, name: name@ }),
    {
        Path::new(scope, ScopeType::Entity, name)
    }

    /// The path of an alias
    pub fn alias(scope: &Scope, name: &str) -> (r: Self)
        ensures
            r@ == (PathView { scope: scope@, ty: ScopeType::Alias, name: name@ }),
    {
        Path::new(scope, ScopeType::Alias, name)
    }

    /// The path of a function
    pub fn function(scope: &Scope, name: &str) -> (r: Self)
        ensures
            r@ == (PathView { scope: scope@, ty: ScopeType::Function, name: name@ }),
    {
        Path::new(scope, ScopeType::Function, name)
    }

    /// The path of a procedure
    pub fn procedure(scope: &Scope, name: &str) -> (r: Self)
        ensures
            r@ == (PathView { scope: scope@, ty: ScopeType::Procedure, name: name@ }),
    {
        Path::new(scope, ScopeType::Procedure, name)
    }

    /// The path of a query
    pub fn query(scope: &Scope, name: &str) -> (r: Self)
        ensures
            r@ == (PathView { scope: scope@, ty: ScopeType::Query, name: name@ }),
    {
        Path::new(scope, ScopeType::Query, name)
    }

    /// The path of a repeat statement
    pub fn repeat(scope: &Scope, name: &str) -> (r: Self)
        ensures
            r@ == (PathView { scope: scope@, ty: ScopeType::Repeat, name: name@ }),
    {
        Path::new(scope, ScopeType::Repeat, name)
    }

    /// The path of a rule
    pub fn rule(scope: &Scope, name: &str) -> (r: Self)
        ensures
            r@ == (PathView { scope: scope@, ty: ScopeType::Rule, name: name@ }),
    {
        Path::new(scope, ScopeType::Rule, name)
    }

    /// The path of a schema
    pub fn schema(scope: &Scope, name: &str) -> (r: Self)
        ensures
            r@ == (PathView { scope: scope@, ty: ScopeType::Schema, name: name@ }),
    {
        Path::new(scope, ScopeType::Schema, name)
    }

    /// The path of a subtype constraint
    pub fn subtype(scope: &Scope, name: &str) -> (r: Self)
        ensures
            r@ == (PathView { scope: scope@, ty: ScopeType::SubType, name: name@ }),
    {
        Path::new(scope, ScopeType::SubType, name)
    }

    /// The path of a type
    pub fn type_(scope: &Scope, name: &str) -> (r: Self)
        ensures
            r@ == (PathView { scope: scope@, ty: ScopeType::Type, name: name@ }),
    {
        Path::new(scope, ScopeType::Type, name)
    }

    /// The path as it is printed, e.g. `schema.entity.name`.
    pub fn to_string(&self) -> (r: String)
        ensures
            r@ == path_text(self@),
    {
        let mut out = self.scope.to_string();
        out.append(".");
        out.append(self.name.as_str());
        out
    }

    /// The path as it is printed for inspection, e.g.
    /// `Scope(schema[Schema]).name[Entity]`.
    pub fn to_debug_string(&self) -> (r: String)
        ensures
            r@ == path_debug_text(self@),
    {
        let mut out = self.scope.to_debug_string();
        out.append(".");
        out.append(self.name.as_str());
        out.append("[");
        out.append(self.ty.name());
        out.append("]");
        out
    }
}

impl Clone for Path {
    fn clone(&self) -> (r: Self)
        ensures
            r@ == self@,
    {
        Path { scope: self.scope.clone(), ty: self.ty, name: self.name.clone() }
    }
}

impl PartialEq for Path {
    fn eq(&self, other: &Self) -> (r: bool) {
        self.ty == other.ty && self.name == other.name && self.scope == other.scope
    }
}

impl Eq for Path {

}

impl PartialEqSpecImpl for Path {
    open spec fn obeys_eq_spec() -> bool {
        true
    }

    open spec fn eq_spec(&self, other: &Self) -> bool {
        self@ == other@
    }
}

} // verus!
