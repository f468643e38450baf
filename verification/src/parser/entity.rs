//! Entity declarations in their plainest form: a head, explicit
//! attributes, and the end. Between the tokens only blanks may stand.

use super::is_at;
use super::is_blank;
use super::is_blank_exec;
use super::name_views;
use super::spec_simple_id;
use super::word_at;
use super::Source;
use super::TokenizeFailed;
use crate::ast::SimpleType;
use vstd::prelude::*;
use vstd::std_specs::convert::FromSpecImpl;

verus! {

/// The type of an attribute, as written.
#[derive(Debug, PartialEq, Eq)]
pub enum ParameterType {
    Named(String),
    Simple(SimpleType),
}

/// The type of an attribute as plain values.
pub enum ParameterTypeView {
    Named(Seq<char>),
    Simple(SimpleType),
}

impl View for ParameterType {
    type V = ParameterTypeView;

    open spec fn view(&self) -> ParameterTypeView {
        match self {
            ParameterType::Named(name) => ParameterTypeView::Named(name@),
            ParameterType::Simple(ty) => ParameterTypeView::Simple(*ty),
        }
    }
}

impl FromSpecImpl<String> for ParameterType {
    open spec fn obeys_from_spec() -> bool {
        true
    }

    open spec fn from_spec(name: String) -> Self {
        ParameterType::Named(name)
    }
}

impl From<String> for ParameterType {
    fn from(name: String) -> (r: Self) {
        ParameterType::Named(name)
    }
}

impl FromSpecImpl<SimpleType> for ParameterType {
    open spec fn obeys_from_spec() -> bool {
        true
    }

    open spec fn from_spec(ty: SimpleType) -> Self {
        ParameterType::Simple(ty)
    }
}

impl From<SimpleType> for ParameterType {
    fn from(ty: SimpleType) -> (r: Self) {
        ParameterType::Simple(ty)
    }
}

impl Clone for ParameterType {
    fn clone(&self) -> (r: Self)
        ensures
            r@ == self@,
    {
        match self {
            ParameterType::Named(name) => ParameterType::Named(name.clone()),
            ParameterType::Simple(ty) => ParameterType::Simple(*ty),
        }
    }
}

/// Parsed result of EXPRESS's ENTITY
#[derive(Debug, PartialEq, Eq)]
pub struct Entity {
    /// Name of this entity type
    pub name: String,
    /// attribute name and types
    ///
    /// Be sure that this "type" is a string, not validated type in this timing
    pub attributes: Vec<(String, ParameterType)>,
}

/// An attribute as plain values: its name and its type.
pub type AttributeView = (Seq<char>, ParameterTypeView);

/// The attributes declared together as plain values: their names and their type.
pub type GroupView = (Seq<Seq<char>>, ParameterTypeView);

/// An entity as plain values.
pub struct EntityView {
    pub name: Seq<char>,
    pub attributes: Seq<AttributeView>,
}

/// The attributes of a sequence as plain values.
pub open spec fn attribute_views(s: Seq<(String, ParameterType)>) -> Seq<AttributeView> {
    s.map_values(|a: (String, ParameterType)| (a.0@, a.1@))
}

/// The groups of a sequence as plain values.
pub open spec fn group_views(s: Seq<(Vec<String>, ParameterType)>) -> Seq<GroupView> {
    s.map_values(|g: (Vec<String>, ParameterType)| (name_views(g.0@), g.1@))
}

impl View for Entity {
    type V = EntityView;

    open spec fn view(&self) -> EntityView {
        EntityView { name: self.name@, attributes: attribute_views(self.attributes@) }
    }
}

/// Where the run of blanks from `pos` on ends.
pub open spec fn blanks_end(s: Seq<char>, pos: int) -> int
    decreases s.len() - pos,
{
    if 0 <= pos < s.len() && is_blank(s[pos]) {
        blanks_end(s, pos + 1)
    } else {
        pos
    }
}

/// simple_types = BINARY | BOOLEAN | INTEGER | LOGICAL | REAL | STRING .
pub open spec fn spec_simple_types(s: Seq<char>, pos: int) -> Result<(SimpleType, int), int> {
    if word_at(s, pos, "BINARY"@) {
        Ok((SimpleType::Binary, pos + "BINARY"@.len()))
    } else if word_at(s, pos, "BOOLEAN"@) {
        Ok((SimpleType::Boolean, pos + "BOOLEAN"@.len()))
    } else if word_at(s, pos, "INTEGER"@) {
        Ok((SimpleType::Integer, pos + "INTEGER"@.len()))
    } else if word_at(s, pos, "LOGICAL"@) {
        Ok((SimpleType::Logical, pos + "LOGICAL"@.len()))
    } else if word_at(s, pos, "REAL"@) {
        Ok((SimpleType::Real, pos + "REAL"@.len()))
    } else if word_at(s, pos, "STRING"@) {
        Ok((SimpleType::String, pos + "STRING"@.len()))
    } else {
        Err(pos)
    }
}

/// 266 parameter_type = generalized_types | named_types | simple_types .
///
/// An identifier names a type; else a simple type is expected.
pub open spec fn spec_paramter_type(s: Seq<char>, pos: int) -> Result<(ParameterTypeView, int), int> {
    match spec_simple_id(s, pos) {
        Ok((name, end)) => Ok((ParameterTypeView::Named(name), end)),
        Err(_) => match spec_simple_types(s, pos) {
            Ok((ty, end)) => Ok((ParameterTypeView::Simple(ty), end)),
            Err(at) => Err(at),
        },
    }
}

/// `{ , id }`: the names that follow, each behind a comma, as long as a
/// comma and a name follow. Blanks may stand around the comma.
pub open spec fn spec_more_names(s: Seq<char>, pos: int) -> (Seq<Seq<char>>, int)
    decreases s.len() - pos,
{
    let p1 = blanks_end(s, pos);
    if 0 <= pos <= p1 && is_at(s, p1, ',') {
        match spec_simple_id(s, blanks_end(s, p1 + 1)) {
            Ok((name, end)) => if pos < end <= s.len() {
                (seq![name] + spec_more_names(s, end).0, spec_more_names(s, end).1)
            } else {
                (Seq::empty(), pos)
            },
            Err(_) => (Seq::empty(), pos),
        }
    } else {
        (Seq::empty(), pos)
    }
}

/// 215 explicit_attr = attribute_decl { `,` attribute_decl } `:` \[ OPTIONAL \] parameter_type `;` .
///
/// The names declared, and the type they share.
pub open spec fn spec_explicit_attr(s: Seq<char>, pos: int) -> Result<(GroupView, int), int> {
    match spec_simple_id(s, pos) {
        Err(at) => Err(at),
        Ok((first, p1)) => {
            let (more, p2) = spec_more_names(s, p1);
            let p3 = blanks_end(s, p2);
            if !is_at(s, p3, ':') {
                Err(p3)
            } else {
                match spec_paramter_type(s, blanks_end(s, p3 + 1)) {
                    Err(at) => Err(at),
                    Ok((ty, p5)) => {
                        let p6 = blanks_end(s, p5);
                        if is_at(s, p6, ';') {
                            Ok(((seq![first] + more, ty), p6 + 1))
                        } else {
                            Err(p6)
                        }
                    },
                }
            }
        },
    }
}

/// 207 entity_head = ENTITY entity_id subsuper `;` .
///
/// At least one blank stands between `ENTITY` and the name.
pub open spec fn spec_entity_head(s: Seq<char>, pos: int) -> Result<(Seq<char>, int), int> {
    if !word_at(s, pos, "ENTITY"@) {
        Err(pos)
    } else {
        let p1 = pos + "ENTITY"@.len();
        let p2 = blanks_end(s, p1);
        if p2 == p1 {
            Err(p1)
        } else {
            match spec_simple_id(s, p2) {
                Err(at) => Err(at),
                Ok((name, p3)) => {
                    let p4 = blanks_end(s, p3);
                    if is_at(s, p4, ';') {
                        Ok((name, p4 + 1))
                    } else {
                        Err(p4)
                    }
                },
            }
        }
    }
}

/// `END_ENTITY ;`
pub open spec fn spec_entity_end(s: Seq<char>, pos: int) -> Result<int, int> {
    if !word_at(s, pos, "END_ENTITY"@) {
        Err(pos)
    } else {
        let p1 = blanks_end(s, pos + "END_ENTITY"@.len());
        if is_at(s, p1, ';') {
            Ok(p1 + 1)
        } else {
            Err(p1)
        }
    }
}

/// The attribute declarations behind the first: each stands behind at
/// least one blank. Where one has been read and what follows stands
/// directly behind it, without a blank, the list fails.
pub open spec fn spec_more_attrs(s: Seq<char>, pos: int) -> Result<(Seq<GroupView>, int), int>
    decreases s.len() - pos,
{
    let p1 = blanks_end(s, pos);
    if p1 == pos {
        Err(pos)
    } else {
        match spec_explicit_attr(s, p1) {
            Err(_) => Ok((Seq::empty(), pos)),
            Ok((group, end)) => if pos < end <= s.len() {
                match spec_more_attrs(s, end) {
                    Ok((rest, last)) => Ok((seq![group] + rest, last)),
                    Err(at) => Err(at),
                }
            } else {
                Ok((Seq::empty(), pos))
            },
        }
    }
}

/// `{ explicit_attr }`, blanks between them.
pub open spec fn spec_attrs(s: Seq<char>, pos: int) -> Result<(Seq<GroupView>, int), int> {
    match spec_explicit_attr(s, pos) {
        Err(_) => Ok((Seq::empty(), pos)),
        Ok((group, end)) => match spec_more_attrs(s, end) {
            Ok((rest, last)) => Ok((seq![group] + rest, last)),
            Err(at) => Err(at),
        },
    }
}

/// The attributes of one declaration: each name with the type.
pub open spec fn spread(group: GroupView) -> Seq<AttributeView> {
    group.0.map_values(|name: Seq<char>| (name, group.1))
}

/// The attributes of the first `n` declarations, one after another.
pub open spec fn flattened(groups: Seq<GroupView>, n: nat) -> Seq<AttributeView>
    decreases n,
{
    if n == 0 || n > groups.len() {
        Seq::empty()
    } else {
        flattened(groups, (n - 1) as nat) + spread(groups[n - 1])
    }
}

/// 206 entity_decl = entity_head entity_body END_ENTITY `;` .
pub open spec fn spec_entity(s: Seq<char>, pos: int) -> Result<(EntityView, int), int> {
    match spec_entity_head(s, pos) {
        Err(at) => Err(at),
        Ok((name, p1)) => match spec_attrs(s, blanks_end(s, p1)) {
            Err(at) => Err(at),
            Ok((groups, p3)) => match spec_entity_end(s, blanks_end(s, p3)) {
                Err(at) => Err(at),
                Ok(end) => Ok(
                    (EntityView { name, attributes: flattened(groups, groups.len()) }, end),
                ),
            },
        },
    }
}

/// The views after a push are the views before it, and the view of what was pushed.
proof fn lemma_group_views_push(a: Seq<(Vec<String>, ParameterType)>, g: (Vec<String>, ParameterType))
    ensures
        group_views(a.push(g)) == group_views(a).push((name_views(g.0@), g.1@)),
{
    assert(group_views(a.push(g)) =~= group_views(a).push((name_views(g.0@), g.1@)));
}

impl<'a> Source<'a> {
    /// Where the run of blanks from `pos` on ends.
    pub fn blanks_end(&self, pos: usize) -> (r: usize)
        requires
            pos <= self@.len(),
        ensures
            r == blanks_end(self@, pos as int),
            pos <= r <= self@.len(),
    {
        let n = self.len();
        let mut i = pos;
        while i < n && is_blank_exec(self.at(i))
            invariant
                pos <= i <= n,
                n == self@.len(),
                blanks_end(self@, pos as int) == blanks_end(self@, i as int),
            decreases n - i,
        {
            i += 1;
        }
        i
    }

    /// A simple type at `pos`.
    fn simple_types_at(&self, pos: usize) -> (r: Result<(SimpleType, usize), usize>)
        ensures
            match spec_simple_types(self@, pos as int) {
                Ok((ty, end)) => r matches Ok(x) && x.0 == ty && x.1 == end && pos <= end
                    <= self@.len(),
                Err(at) => r matches Err(e) && e == at,
            },
    {
        if let Some(end) = self.keyword(pos, "BINARY") {
            Ok((SimpleType::Binary, end))
        } else if let Some(end) = self.keyword(pos, "BOOLEAN") {
            Ok((SimpleType::Boolean, end))
        } else if let Some(end) = self.keyword(pos, "INTEGER") {
            Ok((SimpleType::Integer, end))
        } else if let Some(end) = self.keyword(pos, "LOGICAL") {
            Ok((SimpleType::Logical, end))
        } else if let Some(end) = self.keyword(pos, "REAL") {
            Ok((SimpleType::Real, end))
        } else if let Some(end) = self.keyword(pos, "STRING") {
            Ok((SimpleType::String, end))
        } else {
            Err(pos)
        }
    }

    /// The type of an attribute at `pos`.
    fn paramter_type_at(&self, pos: usize) -> (r: Result<(ParameterType, usize), usize>)
        ensures
            match spec_paramter_type(self@, pos as int) {
                Ok((ty, end)) => r matches Ok(x) && x.0@ == ty && x.1 == end && pos <= end
                    <= self@.len(),
                Err(at) => r matches Err(e) && e == at,
            },
    {
        match self.simple_id_at(pos) {
            Ok((name, end)) => Ok((ParameterType::Named(name), end)),
            Err(_) => match self.simple_types_at(pos) {
                Ok((ty, end)) => Ok((ParameterType::Simple(ty), end)),
                Err(at) => Err(at),
            },
        }
    }

    /// `{ , id }` at `pos`: puts the names behind `names` and returns
    /// where the list ends.
    fn more_names_at(&self, pos: usize, names: &mut Vec<String>) -> (end: usize)
        requires
            pos <= self@.len(),
        ensures
            name_views(final(names)@) == name_views(old(names)@) + spec_more_names(
                self@,
                pos as int,
            ).0,
            end == spec_more_names(self@, pos as int).1,
            pos <= end <= self@.len(),
    {
        let ghost names0 = name_views(names@);
        let ghost mut done = Seq::<Seq<char>>::empty();
        let mut cur = pos;
        proof {
            assert(names0 + done =~= names0);
            assert(done + spec_more_names(self@, pos as int).0 =~= spec_more_names(
                self@,
                pos as int,
            ).0);
        }
        loop
            invariant
                pos <= cur <= self@.len(),
                names0 == name_views(old(names)@),
                name_views(names@) == names0 + done,
                spec_more_names(self@, pos as int).0 == done + spec_more_names(self@, cur as int).0,
                spec_more_names(self@, pos as int).1 == spec_more_names(self@, cur as int).1,
            decreases self@.len() - cur,
        {
            let ghost rest = spec_more_names(self@, cur as int);
            let p1 = self.blanks_end(cur);
            if !self.is_at(p1, ',') {
                proof {
                    assert(rest == (Seq::<Seq<char>>::empty(), cur as int));
                    assert(done + Seq::<Seq<char>>::empty() =~= done);
                }
                return cur;
            }
            let p2 = self.blanks_end(p1 + 1);
            match self.simple_id_at(p2) {
                Err(_) => {
                    proof {
                        assert(rest == (Seq::<Seq<char>>::empty(), cur as int));
                        assert(done + Seq::<Seq<char>>::empty() =~= done);
                    }
                    return cur;
                },
                Ok((name, end)) => {
                    let ghost next = spec_more_names(self@, end as int);
                    let ghost before = names@;
                    names.push(name);
                    proof {
                        assert(rest.0 == seq![name@] + next.0);
                        assert(name_views(names@) =~= name_views(before).push(name@));
                        assert((names0 + done).push(name@) =~= names0 + done.push(name@));
                        assert(done + (seq![name@] + next.0) =~= done.push(name@) + next.0);
                        done = done.push(name@);
                    }
                    cur = end;
                },
            }
        }
    }

    /// An attribute declaration at `pos`.
    fn explicit_attr_at(&self, pos: usize) -> (r: Result<
        ((Vec<String>, ParameterType), usize),
        usize,
    >)
        ensures
            match spec_explicit_attr(self@, pos as int) {
                Ok((group, end)) => r matches Ok(((names, ty), last)) && name_views(names@)
                    == group.0 && ty@ == group.1 && last == end && pos < end <= self@.len(),
                Err(at) => r matches Err(e) && e == at,
            },
    {
        match self.simple_id_at(pos) {
            Err(at) => Err(at),
            Ok((first, p1)) => {
                let mut names: Vec<String> = Vec::new();
                names.push(first);
                proof {
                    assert(name_views(names@) =~= seq![first@]);
                }
                let p2 = self.more_names_at(p1, &mut names);
                let p3 = self.blanks_end(p2);
                if !self.is_at(p3, ':') {
                    return Err(p3);
                }
                let p4 = self.blanks_end(p3 + 1);
                match self.paramter_type_at(p4) {
                    Err(at) => Err(at),
                    Ok((ty, p5)) => {
                        let p6 = self.blanks_end(p5);
                        if self.is_at(p6, ';') {
                            Ok(((names, ty), p6 + 1))
                        } else {
                            Err(p6)
                        }
                    },
                }
            },
        }
    }

    /// The head of an entity at `pos`.
    fn entity_head_at(&self, pos: usize) -> (r: Result<(String, usize), usize>)
        ensures
            match spec_entity_head(self@, pos as int) {
                Ok((name, end)) => r matches Ok(x) && x.0@ == name && x.1 == end && pos < end
                    <= self@.len(),
                Err(at) => r matches Err(e) && e == at,
            },
    {
        let p1 = match self.keyword(pos, "ENTITY") {
            None => {
                return Err(pos);
            },
            Some(p1) => p1,
        };
        let p2 = self.blanks_end(p1);
        if p2 == p1 {
            return Err(p1);
        }
        match self.simple_id_at(p2) {
            Err(at) => Err(at),
            Ok((name, p3)) => {
                let p4 = self.blanks_end(p3);
                if self.is_at(p4, ';') {
                    Ok((name, p4 + 1))
                } else {
                    Err(p4)
                }
            },
        }
    }

    /// The end of an entity at `pos`.
    fn entity_end_at(&self, pos: usize) -> (r: Result<usize, usize>)
        ensures
            match spec_entity_end(self@, pos as int) {
                Ok(end) => r matches Ok(x) && x == end && pos < end <= self@.len(),
                Err(at) => r matches Err(e) && e == at,
            },
    {
        let p0 = match self.keyword(pos, "END_ENTITY") {
            None => {
                return Err(pos);
            },
            Some(p0) => p0,
        };
        let p1 = self.blanks_end(p0);
        if self.is_at(p1, ';') {
            Ok(p1 + 1)
        } else {
            Err(p1)
        }
    }

    /// The attribute declarations behind the first, from `pos` on: puts
    /// them behind `groups` and returns where the list ends, or where it fails.
    fn more_attrs_at(&self, pos: usize, groups: &mut Vec<(Vec<String>, ParameterType)>) -> (r:
        Result<usize, usize>)
        requires
            pos <= self@.len(),
        ensures
            match spec_more_attrs(self@, pos as int) {
                Ok((more, end)) => r matches Ok(x) && x == end && pos <= end <= self@.len()
                    && group_views(final(groups)@) == group_views(old(groups)@) + more,
                Err(at) => r matches Err(e) && e == at,
            },
    {
        let ghost groups0 = group_views(groups@);
        let ghost mut done = Seq::<GroupView>::empty();
        let mut cur = pos;
        proof {
            assert(groups0 + done =~= groups0);
        }
        loop
            invariant
                pos <= cur <= self@.len(),
                groups0 == group_views(old(groups)@),
                group_views(groups@) == groups0 + done,
                match spec_more_attrs(self@, cur as int) {
                    Ok((more, end)) => spec_more_attrs(self@, pos as int) == Ok::<
                        (Seq<GroupView>, int),
                        int,
                    >((done + more, end)),
                    Err(at) => spec_more_attrs(self@, pos as int) == Err::<
                        (Seq<GroupView>, int),
                        int,
                    >(at),
                },
            decreases self@.len() - cur,
        {
            let p1 = self.blanks_end(cur);
            if p1 == cur {
                return Err(cur);
            }
            match self.explicit_attr_at(p1) {
                Err(_) => {
                    proof {
                        assert(done + Seq::<GroupView>::empty() =~= done);
                    }
                    return Ok(cur);
                },
                Ok((group, end)) => {
                    let ghost gv = (name_views(group.0@), group.1@);
                    let ghost before = groups@;
                    groups.push(group);
                    proof {
                        lemma_group_views_push(before, group);
                        assert((groups0 + done).push(gv) =~= groups0 + done.push(gv));
                        match spec_more_attrs(self@, end as int) {
                            Ok((rest, last)) => {
                                assert(done + (seq![gv] + rest) =~= done.push(gv) + rest);
                            },
                            Err(_) => {},
                        }
                        done = done.push(gv);
                    }
                    cur = end;
                },
            }
        }
    }

    /// `{ explicit_attr }` at `pos`.
    fn attrs_at(&self, pos: usize) -> (r: Result<(Vec<(Vec<String>, ParameterType)>, usize), usize>)
        requires
            pos <= self@.len(),
        ensures
            match spec_attrs(self@, pos as int) {
                Ok((groups, end)) => r matches Ok(x) && group_views(x.0@) == groups && x.1 == end
                    && pos <= end <= self@.len(),
                Err(at) => r matches Err(e) && e == at,
            },
    {
        let mut groups: Vec<(Vec<String>, ParameterType)> = Vec::new();
        match self.explicit_attr_at(pos) {
            Err(_) => {
                proof {
                    assert(group_views(groups@) =~= Seq::<GroupView>::empty());
                }
                Ok((groups, pos))
            },
            Ok((group, end)) => {
                let ghost gv = (name_views(group.0@), group.1@);
                groups.push(group);
                proof {
                    assert(group_views(groups@) =~= seq![gv]);
                }
                match self.more_attrs_at(end, &mut groups) {
                    Ok(last) => Ok((groups, last)),
                    Err(at) => Err(at),
                }
            },
        }
    }

    /// An entity at `pos`.
    fn entity_at(&self, pos: usize) -> (r: Result<(Entity, usize), usize>)
        ensures
            match spec_entity(self@, pos as int) {
                Ok((entity, end)) => r matches Ok(x) && x.0@ == entity && x.1 == end && pos < end
                    <= self@.len(),
                Err(at) => r matches Err(e) && e == at,
            },
    {
        match self.entity_head_at(pos) {
            Err(at) => Err(at),
            Ok((name, p1)) => {
                let p2 = self.blanks_end(p1);
                match self.attrs_at(p2) {
                    Err(at) => Err(at),
                    Ok((groups, p3)) => {
                        let p4 = self.blanks_end(p3);
                        match self.entity_end_at(p4) {
                            Err(at) => Err(at),
                            Ok(end) => Ok((Entity { name, attributes: flatten(&groups) }, end)),
                        }
                    },
                }
            },
        }
    }
}

/// The attributes of the declarations, one after another: each name with
/// the type of its declaration.
pub fn flatten(groups: &Vec<(Vec<String>, ParameterType)>) -> (r: Vec<(String, ParameterType)>)
    ensures
        attribute_views(r@) == flattened(group_views(groups@), groups@.len()),
{
    let ghost gs = group_views(groups@);
    let mut out: Vec<(String, ParameterType)> = Vec::new();
    let mut k: usize = 0;
    proof {
        assert(attribute_views(out@) =~= flattened(gs, 0));
    }
    while k < groups.len()
        invariant
            k <= groups.len(),
            gs == group_views(groups@),
            attribute_views(out@) == flattened(gs, k as nat),
        decreases groups.len() - k,
    {
        let names = &groups[k].0;
        let ty = &groups[k].1;
        let ghost start = attribute_views(out@);
        let ghost all = spread(gs[k as int]);
        let mut j: usize = 0;
        proof {
            assert(gs[k as int] == (name_views(names@), ty@));
            assert(start + all.take(0) =~= start);
        }
        while j < names.len()
            invariant
                j <= names.len(),
                k < groups.len(),
                gs == group_views(groups@),
                gs[k as int] == (name_views(names@), ty@),
                all == spread(gs[k as int]),
                attribute_views(out@) == start + all.take(j as int),
            decreases names.len() - j,
        {
            let ghost before = out@;
            let a = (names[j].clone(), ty.clone());
            out.push(a);
            proof {
                assert(attribute_views(out@) =~= attribute_views(before).push((a.0@, a.1@)));
                assert(all[j as int] == (names@[j as int]@, ty@));
                assert(start + all.take(j + 1) =~= (start + all.take(j as int)).push((a.0@, a.1@)));
            }
            j += 1;
        }
        proof {
            assert(all.take(j as int) =~= all);
        }
        k += 1;
    }
    out
}

/// 266 parameter_type = generalized_types | named_types | simple_types .
pub fn paramter_type<'a>(input: &'a str) -> (r: Result<(&'a str, ParameterType), TokenizeFailed>)
    ensures
        match spec_paramter_type(input@, 0) {
            Ok((ty, end)) => r matches Ok((rest, value)) && rest@ == input@.skip(end) && value@
                == ty,
            Err(at) => r matches Err(e) && e.offset == at,
        },
{
    let src = Source::new(input);
    match src.paramter_type_at(0) {
        Ok((ty, end)) => Ok((src.rest(end), ty)),
        Err(at) => Err(TokenizeFailed { offset: at }),
    }
}

/// 215 explicit_attr = attribute_decl { ’,’ attribute_decl } ’:’ [ OPTIONAL ] parameter_type ’;’ .
pub fn explicit_attr<'a>(input: &'a str) -> (r: Result<
    (&'a str, (Vec<String>, ParameterType)),
    TokenizeFailed,
>)
    ensures
        match spec_explicit_attr(input@, 0) {
            Ok((group, end)) => r matches Ok((rest, value)) && rest@ == input@.skip(end)
                && name_views(value.0@) == group.0 && value.1@ == group.1,
            Err(at) => r matches Err(e) && e.offset == at,
        },
{
    let src = Source::new(input);
    match src.explicit_attr_at(0) {
        Ok((group, end)) => Ok((src.rest(end), group)),
        Err(at) => Err(TokenizeFailed { offset: at }),
    }
}

/// 207 entity_head = ENTITY entity_id subsuper ’;’ .
pub fn entity_head<'a>(input: &'a str) -> (r: Result<(&'a str, String), TokenizeFailed>)
    ensures
        match spec_entity_head(input@, 0) {
            Ok((name, end)) => r matches Ok((rest, value)) && rest@ == input@.skip(end) && value@
                == name,
            Err(at) => r matches Err(e) && e.offset == at,
        },
{
    let src = Source::new(input);
    match src.entity_head_at(0) {
        Ok((name, end)) => Ok((src.rest(end), name)),
        Err(at) => Err(TokenizeFailed { offset: at }),
    }
}

/// `END_ENTITY ;`
pub fn entity_end<'a>(input: &'a str) -> (r: Result<(&'a str, ()), TokenizeFailed>)
    ensures
        match spec_entity_end(input@, 0) {
            Ok(end) => r matches Ok((rest, value)) && rest@ == input@.skip(end),
            Err(at) => r matches Err(e) && e.offset == at,
        },
{
    let src = Source::new(input);
    match src.entity_end_at(0) {
        Ok(end) => Ok((src.rest(end), ())),
        Err(at) => Err(TokenizeFailed { offset: at }),
    }
}

/// 9.2 Entity declaration
///
/// ```text
/// 206 entity_decl = entity_head entity_body END_ENTITY ’;’ .
/// 207 entity_head = ENTITY entity_id subsuper ’;’ .
/// 204 entity_body = { explicit_attr } [ derive_clause ] [ inverse_clause ] [ unique_clause ] [ where_clause ] .
/// 208 entity_id = simple_id .
/// ```
pub fn entity<'a>(input: &'a str) -> (r: Result<(&'a str, Entity), TokenizeFailed>)
    ensures
        match spec_entity(input@, 0) {
            Ok((entity, end)) => r matches Ok((rest, value)) && rest@ == input@.skip(end)
                && value@ == entity,
            Err(at) => r matches Err(e) && e.offset == at,
        },
{
    let src = Source::new(input);
    match src.entity_at(0) {
        Ok((entity, end)) => Ok((src.rest(end), entity)),
        Err(at) => Err(TokenizeFailed { offset: at }),
    }
}

} // verus!
