//! Productions of the schema level: interface specifications and rule heads.

use super::extend_remarks;
use super::finished;
use super::remark_views;
use super::spec_simple_id;
use super::spec_spaces;
use super::word_at;
use super::RemarkView;
use super::ParseResult;
use super::Source;
use super::TokenizeFailed;
use crate::ast::Remark;
use vstd::prelude::*;

verus! {

/// A name taken from another schema, and the name it goes by here.
#[derive(Debug, PartialEq, Eq)]
pub struct Renamed {
    pub name: String,
    pub rename: Option<String>,
}

/// An imported name as plain values.
pub struct RenamedView {
    pub name: Seq<char>,
    pub rename: Option<Seq<char>>,
}

impl View for Renamed {
    type V = RenamedView;

    open spec fn view(&self) -> RenamedView {
        RenamedView {
            name: self.name@,
            rename: match self.rename {
                Some(id) => Some(id@),
                None => None,
            },
        }
    }
}

/// The imported names of a sequence as plain values.
pub open spec fn renamed_views(s: Seq<Renamed>) -> Seq<RenamedView> {
    s.map_values(|r: Renamed| r@)
}

/// What is taken from another schema: everything, or the listed names.
#[derive(Debug, PartialEq, Eq)]
pub struct Interface {
    pub schema: String,
    pub items: Option<Vec<Renamed>>,
}

/// An interface as plain values.
pub struct InterfaceView {
    pub schema: Seq<char>,
    pub items: Option<Seq<RenamedView>>,
}

impl View for Interface {
    type V = InterfaceView;

    open spec fn view(&self) -> InterfaceView {
        InterfaceView {
            schema: self.schema@,
            items: match self.items {
                Some(items) => Some(renamed_views(items@)),
                None => None,
            },
        }
    }
}

/// 242 interface_specification = reference_clause | use_clause .
#[derive(Debug, PartialEq, Eq)]
pub enum InterfaceSpecification {
    Reference(Interface),
    Use(Interface),
}

/// An interface specification as plain values.
pub enum InterfaceSpecificationView {
    Reference(InterfaceView),
    Use(InterfaceView),
}

impl View for InterfaceSpecification {
    type V = InterfaceSpecificationView;

    open spec fn view(&self) -> InterfaceSpecificationView {
        match self {
            InterfaceSpecification::Reference(i) => InterfaceSpecificationView::Reference(i@),
            InterfaceSpecification::Use(i) => InterfaceSpecificationView::Use(i@),
        }
    }
}

/// The head of a rule: its name and the entities it is about.
#[derive(Debug, PartialEq, Eq)]
pub struct RuleHead {
    pub name: String,
    pub entities: Vec<String>,
}

/// A rule head as plain values.
pub struct RuleHeadView {
    pub name: Seq<char>,
    pub entities: Seq<Seq<char>>,
}

impl View for RuleHead {
    type V = RuleHeadView;

    open spec fn view(&self) -> RuleHeadView {
        RuleHeadView { name: self.name@, entities: super::name_views(self.entities@) }
    }
}

/// What a production yields at a position: the value, the remarks between
/// its tokens and where it ends; or where it fails.
pub type Parsed<V> = Result<(V, Seq<RemarkView>, int), int>;

/// The name without a rename.
pub open spec fn plain(name: Seq<char>) -> RenamedView {
    RenamedView { name, rename: None }
}

/// `id [ AS id ]`: a name and, if `AS` and an identifier follow, its
/// rename. Where they do not follow, the production ends behind the name.
pub open spec fn spec_renamed(s: Seq<char>, pos: int) -> Parsed<RenamedView> {
    match spec_simple_id(s, pos) {
        Err(at) => Err(at),
        Ok((name, p1)) => {
            let (r1, p2) = spec_spaces(s, p1);
            if word_at(s, p2, "AS"@) {
                let (r2, p3) = spec_spaces(s, p2 + "AS"@.len());
                match spec_simple_id(s, p3) {
                    Ok((id, p4)) => Ok((RenamedView { name, rename: Some(id) }, r1 + r2, p4)),
                    Err(_) => Ok((plain(name), Seq::empty(), p1)),
                }
            } else {
                Ok((plain(name), Seq::empty(), p1))
            }
        },
    }
}

/// An item of a list: a name with its optional rename, or a name alone.
pub open spec fn spec_item(s: Seq<char>, pos: int, renames: bool) -> Parsed<RenamedView> {
    if renames {
        spec_renamed(s, pos)
    } else {
        match spec_simple_id(s, pos) {
            Err(at) => Err(at),
            Ok((name, end)) => Ok((plain(name), Seq::empty(), end)),
        }
    }
}

/// `{ , item }`: the items that follow, each behind a comma, as long as
/// a comma and an item follow.
pub open spec fn spec_more(s: Seq<char>, pos: int, renames: bool) -> (
    Seq<RenamedView>,
    Seq<RemarkView>,
    int,
)
    decreases s.len() - pos,
{
    let (r1, p1) = spec_spaces(s, pos);
    if 0 <= pos <= p1 < s.len() && s[p1] == ',' {
        let (r2, p2) = spec_spaces(s, p1 + 1);
        match spec_item(s, p2, renames) {
            Ok((item, r3, p3)) => if pos < p3 <= s.len() {
                let (items, rs, end) = spec_more(s, p3, renames);
                (seq![item] + items, r1 + r2 + r3 + rs, end)
            } else {
                (Seq::empty(), Seq::empty(), pos)
            },
            Err(_) => (Seq::empty(), Seq::empty(), pos),
        }
    } else {
        (Seq::empty(), Seq::empty(), pos)
    }
}

/// `( item { , item } )`
pub open spec fn spec_list(s: Seq<char>, pos: int, renames: bool) -> Parsed<Seq<RenamedView>> {
    if 0 <= pos < s.len() && s[pos] == '(' {
        let (r1, p1) = spec_spaces(s, pos + 1);
        match spec_item(s, p1, renames) {
            Err(at) => Err(at),
            Ok((first, r2, p2)) => {
                let (items, r3, p3) = spec_more(s, p2, renames);
                let (r4, p4) = spec_spaces(s, p3);
                if 0 <= p4 < s.len() && s[p4] == ')' {
                    Ok((seq![first] + items, r1 + r2 + r3 + r4, p4 + 1))
                } else {
                    Err(p4)
                }
            },
        }
    } else {
        Err(pos)
    }
}

/// `keyword FROM schema_ref [ ( item { , item } ) ] ;`
pub open spec fn spec_interface(s: Seq<char>, pos: int, keyword: Seq<char>) -> Parsed<
    InterfaceView,
> {
    if !word_at(s, pos, keyword) {
        Err(pos)
    } else {
        let (r1, p1) = spec_spaces(s, pos + keyword.len());
        if !word_at(s, p1, "FROM"@) {
            Err(p1)
        } else {
            let (r2, p2) = spec_spaces(s, p1 + "FROM"@.len());
            match spec_simple_id(s, p2) {
                Err(at) => Err(at),
                Ok((schema, p3)) => {
                    let (r3, p4) = spec_spaces(s, p3);
                    match spec_list(s, p4, true) {
                        Ok((items, r4, p5)) => {
                            let (r5, p6) = spec_spaces(s, p5);
                            if 0 <= p6 < s.len() && s[p6] == ';' {
                                Ok(
                                    (
                                        InterfaceView { schema, items: Some(items) },
                                        r1 + r2 + r3 + r4 + r5,
                                        p6 + 1,
                                    ),
                                )
                            } else {
                                Err(p6)
                            }
                        },
                        Err(_) => if 0 <= p4 < s.len() && s[p4] == ';' {
                            Ok((InterfaceView { schema, items: None }, r1 + r2 + r3, p4 + 1))
                        } else {
                            Err(p4)
                        },
                    }
                },
            }
        }
    }
}

/// 281 reference_clause = REFERENCE FROM schema_ref \[ `(` resource_or_rename { `,` resource_or_rename } `)` \] `;` .
pub open spec fn spec_reference_clause(s: Seq<char>, pos: int) -> Parsed<InterfaceView> {
    spec_interface(s, pos, "REFERENCE"@)
}

/// 336 use_clause = USE FROM schema_ref \[ `(` named_type_or_rename { `,` named_type_or_rename } `)` \] `;` .
pub open spec fn spec_use_clause(s: Seq<char>, pos: int) -> Parsed<InterfaceView> {
    spec_interface(s, pos, "USE"@)
}

/// 242 interface_specification = reference_clause | use_clause .
///
/// Where neither is there, the failure is that of the use clause.
pub open spec fn spec_interface_specification(s: Seq<char>, pos: int) -> Parsed<
    InterfaceSpecificationView,
> {
    match spec_reference_clause(s, pos) {
        Ok((i, remarks, end)) => Ok((InterfaceSpecificationView::Reference(i), remarks, end)),
        Err(_) => match spec_use_clause(s, pos) {
            Ok((i, remarks, end)) => Ok((InterfaceSpecificationView::Use(i), remarks, end)),
            Err(at) => Err(at),
        },
    }
}

/// The names of the items.
pub open spec fn item_names(items: Seq<RenamedView>) -> Seq<Seq<char>> {
    items.map_values(|i: RenamedView| i.name)
}

/// 292 rule_head = RULE rule_id FOR `(` entity_ref { `,` entity_ref } `)` `;` .
pub open spec fn spec_rule_head(s: Seq<char>, pos: int) -> Parsed<RuleHeadView> {
    if !word_at(s, pos, "RULE"@) {
        Err(pos)
    } else {
        let (r1, p1) = spec_spaces(s, pos + "RULE"@.len());
        match spec_simple_id(s, p1) {
            Err(at) => Err(at),
            Ok((name, p2)) => {
                let (r2, p3) = spec_spaces(s, p2);
                if !word_at(s, p3, "FOR"@) {
                    Err(p3)
                } else {
                    let (r3, p4) = spec_spaces(s, p3 + "FOR"@.len());
                    match spec_list(s, p4, false) {
                        Err(at) => Err(at),
                        Ok((items, r4, p5)) => {
                            let (r5, p6) = spec_spaces(s, p5);
                            if 0 <= p6 < s.len() && s[p6] == ';' {
                                Ok(
                                    (
                                        RuleHeadView { name, entities: item_names(items) },
                                        r1 + r2 + r3 + r4 + r5,
                                        p6 + 1,
                                    ),
                                )
                            } else {
                                Err(p6)
                            }
                        },
                    }
                }
            },
        }
    }
}

/// The views after a push are the views before it, and the view of what was pushed.
proof fn lemma_renamed_views_push(a: Seq<Renamed>, r: Renamed)
    ensures
        renamed_views(a.push(r)) == renamed_views(a).push(r@),
{
    assert(renamed_views(a.push(r)) =~= renamed_views(a).push(r@));
}

/// The list of items ends within the text, not before `pos`.
pub proof fn lemma_more(s: Seq<char>, pos: int, renames: bool)
    requires
        0 <= pos <= s.len(),
    ensures
        pos <= spec_more(s, pos, renames).2 <= s.len(),
    decreases s.len() - pos,
{
    let (r1, p1) = spec_spaces(s, pos);
    if 0 <= pos <= p1 < s.len() && s[p1] == ',' {
        let (r2, p2) = spec_spaces(s, p1 + 1);
        match spec_item(s, p2, renames) {
            Ok((item, r3, p3)) => {
                if pos < p3 <= s.len() {
                    lemma_more(s, p3, renames);
                }
            },
            Err(_) => {},
        }
    }
}

impl<'a> Source<'a> {
    /// `id [ AS id ]` at `pos`.
    fn renamed_at(&self, pos: usize) -> (r: Result<(Renamed, Vec<Remark>, usize), usize>)
        ensures
            match spec_renamed(self@, pos as int) {
                Ok((v, remarks, end)) => r matches Ok(x) && x.0@ == v && remark_views(x.1@)
                    == remarks && x.2 == end && pos < end <= self@.len(),
                Err(at) => r matches Err(e) && e == at,
            },
    {
        match self.simple_id_at(pos) {
            Err(at) => Err(at),
            Ok((name, p1)) => {
                let (r1, p2) = self.spaces_at(p1);
                match self.keyword(p2, "AS") {
                    Some(after) => {
                        let (r2, p3) = self.spaces_at(after);
                        match self.simple_id_at(p3) {
                            Ok((id, p4)) => {
                                let mut remarks = r1;
                                extend_remarks(&mut remarks, r2);
                                Ok((Renamed { name, rename: Some(id) }, remarks, p4))
                            },
                            Err(_) => {
                                let remarks: Vec<Remark> = Vec::new();
                                proof {
                                    assert(remark_views(remarks@) =~= Seq::<RemarkView>::empty());
                                }
                                Ok((Renamed { name, rename: None }, remarks, p1))
                            },
                        }
                    },
                    None => {
                        let remarks: Vec<Remark> = Vec::new();
                        proof {
                            assert(remark_views(remarks@) =~= Seq::<RemarkView>::empty());
                        }
                        Ok((Renamed { name, rename: None }, remarks, p1))
                    },
                }
            },
        }
    }

    /// An item of a list at `pos`.
    fn item_at(&self, pos: usize, renames: bool) -> (r: Result<
        (Renamed, Vec<Remark>, usize),
        usize,
    >)
        ensures
            match spec_item(self@, pos as int, renames) {
                Ok((v, remarks, end)) => r matches Ok(x) && x.0@ == v && remark_views(x.1@)
                    == remarks && x.2 == end && pos < end <= self@.len(),
                Err(at) => r matches Err(e) && e == at,
            },
    {
        if renames {
            self.renamed_at(pos)
        } else {
            match self.simple_id_at(pos) {
                Err(at) => Err(at),
                Ok((name, end)) => {
                    let remarks: Vec<Remark> = Vec::new();
                    proof {
                        assert(remark_views(remarks@) =~= Seq::<RemarkView>::empty());
                    }
                    Ok((Renamed { name, rename: None }, remarks, end))
                },
            }
        }
    }

    /// `{ , item }` at `pos`: puts the items behind `items` and the
    /// remarks behind `remarks`, and returns where the list ends.
    fn more_at(
        &self,
        pos: usize,
        renames: bool,
        items: &mut Vec<Renamed>,
        remarks: &mut Vec<Remark>,
    ) -> (end: usize)
        requires
            pos <= self@.len(),
        ensures
            renamed_views(final(items)@) == renamed_views(old(items)@) + spec_more(
                self@,
                pos as int,
                renames,
            ).0,
            remark_views(final(remarks)@) == remark_views(old(remarks)@) + spec_more(
                self@,
                pos as int,
                renames,
            ).1,
            end == spec_more(self@, pos as int, renames).2,
            pos <= end <= self@.len(),
    {
        let ghost items0 = renamed_views(items@);
        let ghost remarks0 = remark_views(remarks@);
        let mut cur = pos;
        proof {
            lemma_more(self@, pos as int, renames);
            assert(items0 + Seq::<RenamedView>::empty() =~= items0);
            assert(remarks0 + Seq::<RemarkView>::empty() =~= remarks0);
        }
        let ghost mut done_items = Seq::<RenamedView>::empty();
        let ghost mut done_remarks = Seq::<RemarkView>::empty();
        loop
            invariant
                pos <= cur <= self@.len(),
                items0 == renamed_views(old(items)@),
                remarks0 == remark_views(old(remarks)@),
                renamed_views(items@) == items0 + done_items,
                remark_views(remarks@) == remarks0 + done_remarks,
                spec_more(self@, pos as int, renames).0 == done_items + spec_more(
                    self@,
                    cur as int,
                    renames,
                ).0,
                spec_more(self@, pos as int, renames).1 == done_remarks + spec_more(
                    self@,
                    cur as int,
                    renames,
                ).1,
                spec_more(self@, pos as int, renames).2 == spec_more(self@, cur as int, renames).2,
            decreases self@.len() - cur,
        {
            let ghost rest = spec_more(self@, cur as int, renames);
            let (r1, p1) = self.spaces_at(cur);
            if !self.is_at(p1, ',') {
                proof {
                    assert(rest == (Seq::<RenamedView>::empty(), Seq::<RemarkView>::empty(), cur as int));
                    assert(done_items + Seq::<RenamedView>::empty() =~= done_items);
                    assert(done_remarks + Seq::<RemarkView>::empty() =~= done_remarks);
                }
                return cur;
            }
            let (r2, p2) = self.spaces_at(p1 + 1);
            match self.item_at(p2, renames) {
                Err(_) => {
                    proof {
                        assert(rest == (Seq::<RenamedView>::empty(), Seq::<RemarkView>::empty(), cur as int));
                        assert(done_items + Seq::<RenamedView>::empty() =~= done_items);
                        assert(done_remarks + Seq::<RemarkView>::empty() =~= done_remarks);
                    }
                    return cur;
                },
                Ok((item, r3, p3)) => {
                    let ghost next = spec_more(self@, p3 as int, renames);
                    let ghost iv = item@;
                    let ghost v1 = remark_views(r1@);
                    let ghost v2 = remark_views(r2@);
                    let ghost v3 = remark_views(r3@);
                    let ghost before = items@;
                    items.push(item);
                    proof {
                        lemma_renamed_views_push(before, item);
                    }
                    extend_remarks(remarks, r1);
                    extend_remarks(remarks, r2);
                    extend_remarks(remarks, r3);
                    proof {
                        assert(rest.0 == seq![iv] + next.0);
                        assert(rest.1 == v1 + v2 + v3 + next.1);
                        assert((items0 + done_items).push(iv) =~= items0 + done_items.push(iv));
                        assert(done_items + (seq![iv] + next.0) =~= done_items.push(iv) + next.0);
                        assert(remarks0 + done_remarks + v1 + v2 + v3 =~= remarks0 + (done_remarks
                            + v1 + v2 + v3));
                        assert(done_remarks + (v1 + v2 + v3 + next.1) =~= (done_remarks + v1 + v2
                            + v3) + next.1);
                        done_items = done_items.push(iv);
                        done_remarks = done_remarks + v1 + v2 + v3;
                    }
                    cur = p3;
                },
            }
        }
    }

    /// `( item { , item } )` at `pos`.
    fn list_at(&self, pos: usize, renames: bool) -> (r: Result<
        (Vec<Renamed>, Vec<Remark>, usize),
        usize,
    >)
        ensures
            match spec_list(self@, pos as int, renames) {
                Ok((v, remarks, end)) => r matches Ok(x) && renamed_views(x.0@) == v
                    && remark_views(x.1@) == remarks && x.2 == end && pos < end <= self@.len(),
                Err(at) => r matches Err(e) && e == at,
            },
    {
        if !self.is_at(pos, '(') {
            return Err(pos);
        }
        let (r1, p1) = self.spaces_at(pos + 1);
        match self.item_at(p1, renames) {
            Err(at) => Err(at),
            Ok((first, r2, p2)) => {
                let ghost fv = first@;
                let ghost v1 = remark_views(r1@);
                let ghost v2 = remark_views(r2@);
                let mut items: Vec<Renamed> = Vec::new();
                items.push(first);
                let mut remarks = r1;
                extend_remarks(&mut remarks, r2);
                proof {
                    assert(renamed_views(items@) =~= seq![fv]);
                }
                let p3 = self.more_at(p2, renames, &mut items, &mut remarks);
                let (r4, p4) = self.spaces_at(p3);
                if self.is_at(p4, ')') {
                    extend_remarks(&mut remarks, r4);
                    Ok((items, remarks, p4 + 1))
                } else {
                    Err(p4)
                }
            },
        }
    }

    /// `keyword FROM schema_ref [ ( item { , item } ) ] ;` at `pos`.
    fn interface_at(&self, pos: usize, keyword: &str) -> (r: Result<
        (Interface, Vec<Remark>, usize),
        usize,
    >)
        ensures
            match spec_interface(self@, pos as int, keyword@) {
                Ok((v, remarks, end)) => r matches Ok(x) && x.0@ == v && remark_views(x.1@)
                    == remarks && x.2 == end && pos <= end <= self@.len(),
                Err(at) => r matches Err(e) && e == at,
            },
    {
        let after = match self.keyword(pos, keyword) {
            None => {
                return Err(pos);
            },
            Some(after) => after,
        };
        let (r1, p1) = self.spaces_at(after);
        let after = match self.keyword(p1, "FROM") {
            None => {
                return Err(p1);
            },
            Some(after) => after,
        };
        let (r2, p2) = self.spaces_at(after);
        match self.simple_id_at(p2) {
            Err(at) => Err(at),
            Ok((schema, p3)) => {
                let (r3, p4) = self.spaces_at(p3);
                let mut remarks = r1;
                extend_remarks(&mut remarks, r2);
                extend_remarks(&mut remarks, r3);
                match self.list_at(p4, true) {
                    Ok((items, r4, p5)) => {
                        let (r5, p6) = self.spaces_at(p5);
                        if self.is_at(p6, ';') {
                            extend_remarks(&mut remarks, r4);
                            extend_remarks(&mut remarks, r5);
                            Ok((Interface { schema, items: Some(items) }, remarks, p6 + 1))
                        } else {
                            Err(p6)
                        }
                    },
                    Err(_) => {
                        if self.is_at(p4, ';') {
                            Ok((Interface { schema, items: None }, remarks, p4 + 1))
                        } else {
                            Err(p4)
                        }
                    },
                }
            },
        }
    }

    /// A rule head at `pos`.
    fn rule_head_at(&self, pos: usize) -> (r: Result<(RuleHead, Vec<Remark>, usize), usize>)
        ensures
            match spec_rule_head(self@, pos as int) {
                Ok((v, remarks, end)) => r matches Ok(x) && x.0@ == v && remark_views(x.1@)
                    == remarks && x.2 == end && pos <= end <= self@.len(),
                Err(at) => r matches Err(e) && e == at,
            },
    {
        let after = match self.keyword(pos, "RULE") {
            None => {
                return Err(pos);
            },
            Some(after) => after,
        };
        let (r1, p1) = self.spaces_at(after);
        match self.simple_id_at(p1) {
            Err(at) => Err(at),
            Ok((name, p2)) => {
                let (r2, p3) = self.spaces_at(p2);
                let after = match self.keyword(p3, "FOR") {
                    None => {
                        return Err(p3);
                    },
                    Some(after) => after,
                };
                let (r3, p4) = self.spaces_at(after);
                match self.list_at(p4, false) {
                    Err(at) => Err(at),
                    Ok((items, r4, p5)) => {
                        let (r5, p6) = self.spaces_at(p5);
                        if self.is_at(p6, ';') {
                            let mut remarks = r1;
                            extend_remarks(&mut remarks, r2);
                            extend_remarks(&mut remarks, r3);
                            extend_remarks(&mut remarks, r4);
                            extend_remarks(&mut remarks, r5);
                            let entities = names_of(items);
                            Ok((RuleHead { name, entities }, remarks, p6 + 1))
                        } else {
                            Err(p6)
                        }
                    },
                }
            },
        }
    }
}

/// The names of the items, in their order.
fn names_of(items: Vec<Renamed>) -> (r: Vec<String>)
    ensures
        super::name_views(r@) == item_names(renamed_views(items@)),
{
    let mut out: Vec<String> = Vec::new();
    let mut i: usize = 0;
    while i < items.len()
        invariant
            i <= items.len(),
            super::name_views(out@) == item_names(renamed_views(items@)).take(i as int),
        decreases items.len() - i,
    {
        let ghost before = out@;
        let name = items[i].name.clone();
        out.push(name);
        proof {
            let all = item_names(renamed_views(items@));
            assert(all[i as int] == name@);
            assert(super::name_views(out@) =~= super::name_views(before).push(name@));
            assert(all.take(i + 1) =~= all.take(i as int).push(name@));
        }
        i += 1;
    }
    proof {
        let all = item_names(renamed_views(items@));
        assert(all.take(i as int) =~= all);
    }
    out
}

/// 288 resource_or_rename = resource_ref \[ AS rename_id \] .
pub fn resource_or_rename<'a>(input: &'a str) -> (r: ParseResult<'a, Renamed>)
    ensures
        match spec_renamed(input@, 0) {
            Ok((v, remarks, end)) => r matches Ok((rest, (value, found))) && rest@ == input@.skip(
                end,
            ) && value@ == v && remark_views(found@) == remarks,
            Err(at) => r matches Err(e) && e.offset == at,
        },
{
    let src = Source::new(input);
    finished(&src, src.renamed_at(0))
}

/// 259 named_type_or_rename = named_types \[ AS ( entity_id | type_id ) \] .
pub fn named_type_or_rename<'a>(input: &'a str) -> (r: ParseResult<'a, Renamed>)
    ensures
        match spec_renamed(input@, 0) {
            Ok((v, remarks, end)) => r matches Ok((rest, (value, found))) && rest@ == input@.skip(
                end,
            ) && value@ == v && remark_views(found@) == remarks,
            Err(at) => r matches Err(e) && e.offset == at,
        },
{
    let src = Source::new(input);
    finished(&src, src.renamed_at(0))
}

/// 281 reference_clause = REFERENCE FROM schema_ref \[ `(` resource_or_rename { `,` resource_or_rename } `)` \] `;` .
pub fn reference_clause<'a>(input: &'a str) -> (r: ParseResult<'a, Interface>)
    ensures
        match spec_reference_clause(input@, 0) {
            Ok((v, remarks, end)) => r matches Ok((rest, (value, found))) && rest@ == input@.skip(
                end,
            ) && value@ == v && remark_views(found@) == remarks,
            Err(at) => r matches Err(e) && e.offset == at,
        },
{
    let src = Source::new(input);
    finished(&src, src.interface_at(0, "REFERENCE"))
}

/// 336 use_clause = USE FROM schema_ref \[ `(` named_type_or_rename { `,` named_type_or_rename } `)` \] `;` .
pub fn use_clause<'a>(input: &'a str) -> (r: ParseResult<'a, Interface>)
    ensures
        match spec_use_clause(input@, 0) {
            Ok((v, remarks, end)) => r matches Ok((rest, (value, found))) && rest@ == input@.skip(
                end,
            ) && value@ == v && remark_views(found@) == remarks,
            Err(at) => r matches Err(e) && e.offset == at,
        },
{
    let src = Source::new(input);
    finished(&src, src.interface_at(0, "USE"))
}

/// 242 interface_specification = reference_clause | use_clause .
pub fn interface_specification<'a>(input: &'a str) -> (r: ParseResult<
    'a,
    InterfaceSpecification,
>)
    ensures
        match spec_interface_specification(input@, 0) {
            Ok((v, remarks, end)) => r matches Ok((rest, (value, found))) && rest@ == input@.skip(
                end,
            ) && value@ == v && remark_views(found@) == remarks,
            Err(at) => r matches Err(e) && e.offset == at,
        },
{
    let src = Source::new(input);
    match src.interface_at(0, "REFERENCE") {
        Ok((i, remarks, end)) => Ok(
            (src.rest(end), (InterfaceSpecification::Reference(i), remarks)),
        ),
        Err(_) => match src.interface_at(0, "USE") {
            Ok((i, remarks, end)) => Ok((src.rest(end), (InterfaceSpecification::Use(i), remarks))),
            Err(at) => Err(TokenizeFailed { offset: at }),
        },
    }
}

/// 292 rule_head = RULE rule_id FOR `(` entity_ref { `,` entity_ref } `)` `;` .
pub fn rule_head<'a>(input: &'a str) -> (r: ParseResult<'a, RuleHead>)
    ensures
        match spec_rule_head(input@, 0) {
            Ok((v, remarks, end)) => r matches Ok((rest, (value, found))) && rest@ == input@.skip(
                end,
            ) && value@ == v && remark_views(found@) == remarks,
            Err(at) => r matches Err(e) && e.offset == at,
        },
{
    let src = Source::new(input);
    finished(&src, src.rule_head_at(0))
}

} // verus!
