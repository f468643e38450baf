//! The types of attributes and what a type is declared as.

use super::entity::spec_simple_types;
use super::is_digit;
use super::is_digit_exec;
use super::name_views;
use super::is_at;
use super::sp;
use super::span;
use super::subsuper::spec_reference;
use super::subsuper::spec_references;
use super::word_at;
use super::remark_views;
use super::remarks_in;
use super::Source;
use super::TokenizeFailed;
use crate::ast::Remark;
use crate::ast::reference_views;
use crate::ast::AggregateKind;
use crate::ast::Bounds;
use crate::ast::Place;
use crate::ast::Reference;
use crate::ast::ReferenceView;
use crate::ast::SimpleType;
use crate::ast::TypeDecl;
use crate::ast::TypeDeclView;
use crate::ast::Underlying;
use crate::ast::UnderlyingView;
use vstd::prelude::*;

verus! {

/// Where the run of digits from `pos` on ends.
pub open spec fn digits_end(s: Seq<char>, pos: int) -> int
    decreases s.len() - pos,
{
    if 0 <= pos < s.len() && is_digit(s[pos]) {
        digits_end(s, pos + 1)
    } else {
        pos
    }
}

/// The value of the digit `c`.
pub open spec fn digit_value(c: char) -> int {
    c as int - '0' as int
}

/// The number written by the digits from `from` up to `to`.
pub open spec fn digits_value(s: Seq<char>, from: int, to: int) -> int
    decreases to - from,
{
    if to <= from {
        0
    } else {
        10 * digits_value(s, from, to - 1) + digit_value(s[to - 1])
    }
}

/// An integer at `pos`: digits, behind `-` or not, whose number is no
/// more than the greatest `i64`. Fails at `pos`.
pub open spec fn spec_integer(s: Seq<char>, pos: int) -> Result<(i64, int), int> {
    let start = if is_at(s, pos, '-') {
        pos + 1
    } else {
        pos
    };
    let end = digits_end(s, start);
    let number = digits_value(s, start, end);
    if end <= start || number > i64::MAX {
        Err(pos)
    } else if is_at(s, pos, '-') {
        Ok(((-number) as i64, end))
    } else {
        Ok((number as i64, end))
    }
}

/// `[ lower : upper ]`, where `?` stands for no upper bound.
pub open spec fn spec_bounds(s: Seq<char>, pos: int) -> Result<(Bounds, int), int> {
    if !is_at(s, pos, '[') {
        Err(pos)
    } else {
        match spec_integer(s, sp(s, pos + 1)) {
            Err(at) => Err(at),
            Ok((lower, p1)) => {
                let p2 = sp(s, p1);
                if !is_at(s, p2, ':') {
                    Err(p2)
                } else {
                    let p3 = sp(s, p2 + 1);
                    if is_at(s, p3, '?') {
                        let p4 = sp(s, p3 + 1);
                        if is_at(s, p4, ']') {
                            Ok((Bounds { lower, upper: None }, p4 + 1))
                        } else {
                            Err(p4)
                        }
                    } else {
                        match spec_integer(s, p3) {
                            Err(at) => Err(at),
                            Ok((upper, p4)) => {
                                let p5 = sp(s, p4);
                                if is_at(s, p5, ']') {
                                    Ok((Bounds { lower, upper: Some(upper) }, p5 + 1))
                                } else {
                                    Err(p5)
                                }
                            },
                        }
                    }
                }
            },
        }
    }
}

/// `ARRAY`, `LIST`, `BAG` or `SET` at `pos`, and where it ends.
pub open spec fn spec_aggregate_kind(s: Seq<char>, pos: int) -> Option<(AggregateKind, int)> {
    if word_at(s, pos, "ARRAY"@) {
        Some((AggregateKind::ArrayOf, pos + "ARRAY"@.len()))
    } else if word_at(s, pos, "LIST"@) {
        Some((AggregateKind::ListOf, pos + "LIST"@.len()))
    } else if word_at(s, pos, "BAG"@) {
        Some((AggregateKind::BagOf, pos + "BAG"@.len()))
    } else if word_at(s, pos, "SET"@) {
        Some((AggregateKind::SetOf, pos + "SET"@.len()))
    } else {
        None
    }
}

/// The type of an attribute: an aggregate `kind [bounds] OF type`, a
/// simple type, or the name of a type or entity.
pub open spec fn spec_type(s: Seq<char>, pos: int) -> Result<(UnderlyingView, int), int>
    decreases s.len() - pos,
{
    match spec_aggregate_kind(s, pos) {
        Some((kind, p1)) => {
            let p2 = sp(s, p1);
            let (bounds, p3) = match spec_bounds(s, p2) {
                Ok((b, end)) => (Some(b), sp(s, end)),
                Err(_) => (None, p2),
            };
            if !word_at(s, p3, "OF"@) {
                Err(p3)
            } else {
                let p4 = sp(s, p3 + "OF"@.len());
                if !(pos < p4 <= s.len()) {
                    Err(p4)
                } else {
                    match spec_type(s, p4) {
                        Err(at) => Err(at),
                        Ok((element, end)) => Ok(
                            (
                                UnderlyingView::Aggregate { kind, bounds, element: Box::new(element) },
                                end,
                            ),
                        ),
                    }
                }
            }
        },
        None => match spec_simple_types(s, pos) {
            Ok((ty, end)) => Ok((UnderlyingView::Simple(ty), end)),
            Err(_) => match spec_reference(s, pos) {
                Ok((r, end)) => Ok((UnderlyingView::Named(r), end)),
                Err(at) => Err(at),
            },
        },
    }
}

/// The names of references.
pub open spec fn reference_names(refs: Seq<ReferenceView>) -> Seq<Seq<char>> {
    refs.map_values(|r: ReferenceView| r.name)
}

/// 332 underlying_type = concrete_types | constructed_types .
///
/// `ENUMERATION OF ( id { , id } )`, `SELECT ( id { , id } )`, or what
/// an attribute may hold.
pub open spec fn spec_underlying(s: Seq<char>, pos: int) -> Result<(UnderlyingView, int), int> {
    if word_at(s, pos, "ENUMERATION"@) {
        let p1 = sp(s, pos + "ENUMERATION"@.len());
        if !word_at(s, p1, "OF"@) {
            Err(p1)
        } else {
            match spec_references(s, sp(s, p1 + "OF"@.len())) {
                Ok((items, end)) => Ok((UnderlyingView::Enumeration(reference_names(items)), end)),
                Err(at) => Err(at),
            }
        }
    } else if word_at(s, pos, "SELECT"@) {
        match spec_references(s, sp(s, pos + "SELECT"@.len())) {
            Ok((refs, end)) => Ok((UnderlyingView::Select(refs), end)),
            Err(at) => Err(at),
        }
    } else {
        spec_type(s, pos)
    }
}

/// 327 type_decl = TYPE type_id `=` underlying_type `;` \[ where_clause \] END_TYPE `;` .
pub open spec fn spec_type_decl(s: Seq<char>, pos: int) -> Result<(TypeDeclView, int), int> {
    if !word_at(s, pos, "TYPE"@) {
        Err(pos)
    } else {
        match super::spec_simple_id(s, sp(s, pos + "TYPE"@.len())) {
            Err(at) => Err(at),
            Ok((name, p1)) => {
                let p2 = sp(s, p1);
                if !is_at(s, p2, '=') {
                    Err(p2)
                } else {
                    match spec_underlying(s, sp(s, p2 + 1)) {
                        Err(at) => Err(at),
                        Ok((underlying, p3)) => {
                            let p4 = sp(s, p3);
                            if !is_at(s, p4, ';') {
                                Err(p4)
                            } else {
                                let p5 = sp(s, p4 + 1);
                                if !word_at(s, p5, "END_TYPE"@) {
                                    Err(p5)
                                } else {
                                    let p6 = sp(s, p5 + "END_TYPE"@.len());
                                    if is_at(s, p6, ';') {
                                        Ok(
                                            (
                                                TypeDeclView {
                                                    name,
                                                    underlying,
                                                    span: span(pos, p6 + 1),
                                                },
                                                p6 + 1,
                                            ),
                                        )
                                    } else {
                                        Err(p6)
                                    }
                                }
                            }
                        },
                    }
                }
            },
        }
    }
}

/// A run of digits ends within the text, not before `pos`.
pub proof fn lemma_digits_end(s: Seq<char>, pos: int)
    requires
        0 <= pos <= s.len(),
    ensures
        pos <= digits_end(s, pos) <= s.len(),
        forall|k: int| pos <= k < digits_end(s, pos) ==> is_digit(s[k]),
    decreases s.len() - pos,
{
    if pos < s.len() && is_digit(s[pos]) {
        lemma_digits_end(s, pos + 1);
    }
}

/// More digits do not write a smaller number.
pub proof fn lemma_digits_value_grows(s: Seq<char>, from: int, mid: int, to: int)
    requires
        0 <= from <= mid <= to <= s.len(),
        forall|k: int| from <= k < to ==> is_digit(s[k]),
    ensures
        0 <= digits_value(s, from, mid) <= digits_value(s, from, to),
    decreases to - mid, mid - from,
{
    if mid < to {
        lemma_digits_value_grows(s, from, mid, to - 1);
    } else if from < mid {
        lemma_digits_value_grows(s, from, mid - 1, mid - 1);
    }
}

impl<'a> Source<'a> {
    /// An integer at `pos`.
    fn integer_at(&self, pos: usize) -> (r: Result<(i64, usize), usize>)
        requires
            pos <= self@.len(),
        ensures
            match spec_integer(self@, pos as int) {
                Ok((v, end)) => r matches Ok(x) && x.0 == v && x.1 == end && pos < end
                    <= self@.len(),
                Err(at) => r matches Err(e) && e == at,
            },
    {
        let n = self.len();
        let negative = self.is_at(pos, '-');
        let start = if negative {
            pos + 1
        } else {
            pos
        };
        let mut i = start;
        let mut acc: u64 = 0;
        proof {
            lemma_digits_end(self@, start as int);
        }
        while i < n && is_digit_exec(self.at(i))
            invariant
                start <= i <= n,
                pos <= start <= pos + 1,
                n == self@.len(),
                negative == is_at(self@, pos as int, '-'),
                start == if negative {
                    pos + 1
                } else {
                    pos as int
                },
                digits_end(self@, start as int) == digits_end(self@, i as int),
                forall|k: int| start <= k < i ==> is_digit(self@[k]),
                acc == digits_value(self@, start as int, i as int),
                acc <= i64::MAX,
            decreases n - i,
        {
            let c = self.at(i);
            let d = digit_of(c);
            if acc > 922337203685477580 || acc * 10 + d > 9223372036854775807 {
                proof {
                    let end = digits_end(self@, start as int);
                    lemma_digits_end(self@, i as int);
                    assert(digits_end(self@, i as int) == digits_end(self@, i + 1));
                    lemma_digits_end(self@, i + 1);
                    assert(digits_value(self@, start as int, i + 1) == 10 * acc + d);
                    lemma_digits_value_grows(self@, start as int, i + 1, end);
                }
                return Err(pos);
            }
            acc = acc * 10 + d;
            i += 1;
        }
        if i == start {
            return Err(pos);
        }
        if negative {
            Ok((0 - (acc as i64), i))
        } else {
            Ok((acc as i64, i))
        }
    }

    /// Bounds at `pos`.
    fn bounds_at(&self, pos: usize) -> (r: Result<(Bounds, usize), usize>)
        requires
            pos <= self@.len(),
        ensures
            match spec_bounds(self@, pos as int) {
                Ok((v, end)) => r matches Ok(x) && x.0 == v && x.1 == end && pos < end
                    <= self@.len(),
                Err(at) => r matches Err(e) && e == at,
            },
    {
        if !self.is_at(pos, '[') {
            return Err(pos);
        }
        let p0 = self.skip(pos + 1);
        match self.integer_at(p0) {
            Err(at) => Err(at),
            Ok((lower, p1)) => {
                let p2 = self.skip(p1);
                if !self.is_at(p2, ':') {
                    return Err(p2);
                }
                let p3 = self.skip(p2 + 1);
                if self.is_at(p3, '?') {
                    let p4 = self.skip(p3 + 1);
                    if self.is_at(p4, ']') {
                        Ok((Bounds { lower, upper: None }, p4 + 1))
                    } else {
                        Err(p4)
                    }
                } else {
                    match self.integer_at(p3) {
                        Err(at) => Err(at),
                        Ok((upper, p4)) => {
                            let p5 = self.skip(p4);
                            if self.is_at(p5, ']') {
                                Ok((Bounds { lower, upper: Some(upper) }, p5 + 1))
                            } else {
                                Err(p5)
                            }
                        },
                    }
                }
            },
        }
    }

    /// The kind of an aggregate at `pos`.
    fn aggregate_kind_at(&self, pos: usize) -> (r: Option<(AggregateKind, usize)>)
        ensures
            match spec_aggregate_kind(self@, pos as int) {
                Some((kind, end)) => r matches Some(x) && x.0 == kind && x.1 == end && pos <= end
                    <= self@.len(),
                None => r is None,
            },
    {
        if let Some(end) = self.keyword(pos, "ARRAY") {
            Some((AggregateKind::ArrayOf, end))
        } else if let Some(end) = self.keyword(pos, "LIST") {
            Some((AggregateKind::ListOf, end))
        } else if let Some(end) = self.keyword(pos, "BAG") {
            Some((AggregateKind::BagOf, end))
        } else if let Some(end) = self.keyword(pos, "SET") {
            Some((AggregateKind::SetOf, end))
        } else {
            None
        }
    }

    /// A simple type at `pos`.
    fn simple_type_at(&self, pos: usize) -> (r: Result<(SimpleType, usize), usize>)
        ensures
            match spec_simple_types(self@, pos as int) {
                Ok((ty, end)) => r matches Ok(x) && x.0 == ty && x.1 == end && pos < end
                    <= self@.len(),
                Err(at) => r matches Err(e) && e == at,
            },
    {
        proof {
            reveal_strlit("BINARY");
            reveal_strlit("BOOLEAN");
            reveal_strlit("INTEGER");
            reveal_strlit("LOGICAL");
            reveal_strlit("REAL");
            reveal_strlit("STRING");
        }
        if let Some(end) = self.keyword(pos, "BINARY") {
            Ok((SimpleType::Binary, end))
        } else if let Some(end) = self.keyword(pos, "BOOLEAN") {
            Ok((SimpleType::Boolean, end))
        } else if let Some(end) = self.keyword(pos, "INTEGER") {
            Ok((SimpleType::Integer, end))
        } else if let Some(end) = self.keyword(pos, "LOGICAL") {
            Ok((SimpleType::Logical, end))
        } else if let Some(end) = self.keyword(pos, "REAL") {
            Ok((SimpleType::Real, end))
        } else if let Some(end) = self.keyword(pos, "STRING") {
            Ok((SimpleType::String, end))
        } else {
            Err(pos)
        }
    }

    /// The type of an attribute at `pos`.
    pub fn type_at(&self, pos: usize) -> (r: Result<(Underlying, usize), usize>)
        requires
            pos <= self@.len(),
        ensures
            match spec_type(self@, pos as int) {
                Ok((v, end)) => r matches Ok(x) && x.0@ == v && x.1 == end && pos < end
                    <= self@.len(),
                Err(at) => r matches Err(e) && e == at,
            },
        decreases self@.len() - pos,
    {
        proof {
            reveal_strlit("ARRAY");
            reveal_strlit("LIST");
            reveal_strlit("BAG");
            reveal_strlit("SET");
        }
        match self.aggregate_kind_at(pos) {
            Some((kind, p1)) => {
                let p2 = self.skip(p1);
                let (bounds, p3) = match self.bounds_at(p2) {
                    Ok((b, end)) => (Some(b), self.skip(end)),
                    Err(_) => (None, p2),
                };
                let after = match self.keyword(p3, "OF") {
                    None => {
                        return Err(p3);
                    },
                    Some(after) => after,
                };
                let p4 = self.skip(after);
                match self.type_at(p4) {
                    Err(at) => Err(at),
                    Ok((element, end)) => Ok(
                        (Underlying::Aggregate { kind, bounds, element: Box::new(element) }, end),
                    ),
                }
            },
            None => match self.simple_type_at(pos) {
                Ok((ty, end)) => Ok((Underlying::Simple(ty), end)),
                Err(_) => match self.reference_at(pos) {
                    Ok((r, end)) => Ok((Underlying::Named(r), end)),
                    Err(at) => Err(at),
                },
            },
        }
    }

    /// What a type is declared as, at `pos`.
    pub fn underlying_at(&self, pos: usize) -> (r: Result<(Underlying, usize), usize>)
        requires
            pos <= self@.len(),
        ensures
            match spec_underlying(self@, pos as int) {
                Ok((v, end)) => r matches Ok(x) && x.0@ == v && x.1 == end && pos < end
                    <= self@.len(),
                Err(at) => r matches Err(e) && e == at,
            },
    {
        if let Some(after) = self.keyword(pos, "ENUMERATION") {
            let p1 = self.skip(after);
            let after = match self.keyword(p1, "OF") {
                None => {
                    return Err(p1);
                },
                Some(after) => after,
            };
            let p0 = self.skip(after);
            match self.references_at(p0) {
                Ok((items, end)) => Ok((Underlying::Enumeration(names_of(items)), end)),
                Err(at) => Err(at),
            }
        } else if let Some(after) = self.keyword(pos, "SELECT") {
            let p0 = self.skip(after);
            match self.references_at(p0) {
                Ok((refs, end)) => Ok((Underlying::Select(refs), end)),
                Err(at) => Err(at),
            }
        } else {
            self.type_at(pos)
        }
    }

    /// A type declaration at `pos`.
    pub fn type_decl_at(&self, pos: usize) -> (r: Result<(TypeDecl, usize), usize>)
        requires
            pos <= self@.len(),
        ensures
            match spec_type_decl(self@, pos as int) {
                Ok((v, end)) => r matches Ok(x) && x.0@ == v && x.1 == end && pos < end
                    <= self@.len(),
                Err(at) => r matches Err(e) && e == at,
            },
    {
        let after = match self.keyword(pos, "TYPE") {
            None => {
                return Err(pos);
            },
            Some(after) => after,
        };
        let p0 = self.skip(after);
        match self.simple_id_at(p0) {
            Err(at) => Err(at),
            Ok((name, p1)) => {
                let p2 = self.skip(p1);
                if !self.is_at(p2, '=') {
                    return Err(p2);
                }
                let q = self.skip(p2 + 1);
                match self.underlying_at(q) {
                    Err(at) => Err(at),
                    Ok((underlying, p3)) => {
                        let p4 = self.skip(p3);
                        if !self.is_at(p4, ';') {
                            return Err(p4);
                        }
                        let p5 = self.skip(p4 + 1);
                        let after = match self.keyword(p5, "END_TYPE") {
                            None => {
                                return Err(p5);
                            },
                            Some(after) => after,
                        };
                        let p6 = self.skip(after);
                        if self.is_at(p6, ';') {
                            Ok((TypeDecl { name, underlying, span: Place::new(pos, p6 + 1) }, p6 + 1))
                        } else {
                            Err(p6)
                        }
                    },
                }
            },
        }
    }
}

/// The value of a digit.
fn digit_of(c: char) -> (d: u64)
    requires
        is_digit(c),
    ensures
        d == digit_value(c),
        d <= 9,
{
    (c as u32 - '0' as u32) as u64
}

/// The names of the references, in their order.
fn names_of(refs: Vec<Reference>) -> (r: Vec<String>)
    ensures
        name_views(r@) == reference_names(reference_views(refs@)),
{
    let mut out: Vec<String> = Vec::new();
    let mut i: usize = 0;
    while i < refs.len()
        invariant
            i <= refs.len(),
            name_views(out@) == reference_names(reference_views(refs@)).take(i as int),
        decreases refs.len() - i,
    {
        let ghost before = out@;
        let name = refs[i].name.clone();
        out.push(name);
        proof {
            let all = reference_names(reference_views(refs@));
            assert(all[i as int] == name@);
            assert(name_views(out@) =~= name_views(before).push(name@));
            assert(all.take(i + 1) =~= all.take(i as int).push(name@));
        }
        i += 1;
    }
    proof {
        let all = reference_names(reference_views(refs@));
        assert(all.take(i as int) =~= all);
    }
    out
}

/// 240 instantiable_type = [concrete_types] | [entity_ref] .
///
/// An aggregate, a simple type, or the name of a type or entity.
pub fn instantiable_type<'a>(input: &'a str) -> (r: Result<
    (&'a str, (Underlying, Vec<Remark>)),
    TokenizeFailed,
>)
    ensures
        match spec_type(input@, 0) {
            Ok((v, end)) => r matches Ok((rest, (value, found))) && rest@ == input@.skip(end)
                && value@ == v && remark_views(found@) == remarks_in(input@, 0, end),
            Err(at) => r matches Err(e) && e.offset == at,
        },
{
    let src = Source::new(input);
    match src.type_at(0) {
        Ok((value, end)) => Ok((src.rest(end), (value, src.remarks_in(0, end)))),
        Err(at) => Err(TokenizeFailed { offset: at }),
    }
}

} // verus!
