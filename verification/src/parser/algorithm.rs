//! The heads of functions and procedures.

use super::remark_views;
use super::remarks_in;
use super::spec_simple_id;
use super::is_at;
use super::subsuper::lemma_reference_views_push;
use super::sp;
use super::subsuper::spec_more_references;
use super::subsuper::spec_reference;
use super::types::spec_type;
use super::word_at;
use super::ParseResult;
use super::Source;
use super::TokenizeFailed;
use crate::ast::reference_views;
use crate::ast::Reference;
use crate::ast::ReferenceView;
use crate::ast::Underlying;
use crate::ast::UnderlyingView;
use vstd::prelude::*;

verus! {

/// A parameter of a function or procedure.
#[derive(Debug, PartialEq, Eq)]
pub struct FormalParameter {
    pub name: String,
    pub ty: Underlying,
    /// `true` if specified with `VAR` in `PROCEDURE`. Always `false` for `FUNCTION`
    pub is_variable: bool,
}

/// A parameter as plain values.
pub struct FormalParameterView {
    pub name: Seq<char>,
    pub ty: UnderlyingView,
    pub is_variable: bool,
}

impl View for FormalParameter {
    type V = FormalParameterView;

    open spec fn view(&self) -> FormalParameterView {
        FormalParameterView { name: self.name@, ty: self.ty@, is_variable: self.is_variable }
    }
}

/// The parameters of a sequence as plain values.
pub open spec fn formal_views(s: Seq<FormalParameter>) -> Seq<FormalParameterView> {
    s.map_values(|p: FormalParameter| p@)
}

/// The parameters declared together: one for each name, all of the type `ty`.
pub open spec fn formals_of(names: Seq<ReferenceView>, ty: UnderlyingView, is_variable: bool) -> Seq<
    FormalParameterView,
> {
    names.map_values(|r: ReferenceView| FormalParameterView { name: r.name, ty, is_variable })
}

/// `parameter_id { , parameter_id } : parameter_type`, each parameter
/// variable or not as `is_variable` says.
pub open spec fn spec_formals(s: Seq<char>, pos: int, is_variable: bool) -> Result<
    (Seq<FormalParameterView>, int),
    int,
> {
    match spec_reference(s, pos) {
        Err(at) => Err(at),
        Ok((first, p1)) => {
            let (more, p2) = spec_more_references(s, p1);
            let p3 = sp(s, p2);
            if !is_at(s, p3, ':') {
                Err(p3)
            } else {
                match spec_type(s, sp(s, p3 + 1)) {
                    Err(at) => Err(at),
                    Ok((ty, end)) => Ok((formals_of(seq![first] + more, ty, is_variable), end)),
                }
            }
        },
    }
}

/// 218 formal_parameter = parameter_id { `,` parameter_id } `:` parameter_type .
pub open spec fn spec_formal_parameter(s: Seq<char>, pos: int) -> Result<
    (Seq<FormalParameterView>, int),
    int,
> {
    spec_formals(s, pos, false)
}

/// `[ VAR ] formal_parameter`
pub open spec fn spec_var_parameter(s: Seq<char>, pos: int) -> Result<
    (Seq<FormalParameterView>, int),
    int,
> {
    if word_at(s, pos, "VAR"@) {
        spec_formals(s, sp(s, pos + "VAR"@.len()), true)
    } else {
        spec_formals(s, pos, false)
    }
}

/// A declaration of parameters at `pos`, with or without `VAR` before it
/// as `with_var` says.
pub open spec fn spec_parameters(s: Seq<char>, pos: int, with_var: bool) -> Result<
    (Seq<FormalParameterView>, int),
    int,
> {
    if with_var {
        spec_var_parameter(s, pos)
    } else {
        spec_formal_parameter(s, pos)
    }
}

/// The declarations of parameters that follow: in a procedure each
/// behind `;`, in a function each behind blanks alone.
pub open spec fn spec_more_parameters(s: Seq<char>, pos: int, with_var: bool) -> (
    Seq<FormalParameterView>,
    int,
)
    decreases s.len() - pos,
{
    let p1 = sp(s, pos);
    let start = if with_var {
        if is_at(s, p1, ';') {
            sp(s, p1 + 1)
        } else {
            -1
        }
    } else {
        p1
    };
    if start < 0 {
        (Seq::empty(), pos)
    } else {
        match spec_parameters(s, start, with_var) {
            Ok((group, end)) => if 0 <= pos < end <= s.len() {
                (
                    group + spec_more_parameters(s, end, with_var).0,
                    spec_more_parameters(s, end, with_var).1,
                )
            } else {
                (Seq::empty(), pos)
            },
            Err(_) => (Seq::empty(), pos),
        }
    }
}

/// `( parameters .. )`, or `None` where no such list stands at `pos`.
pub open spec fn spec_parameter_clause(s: Seq<char>, pos: int, with_var: bool) -> Option<
    (Seq<FormalParameterView>, int),
> {
    if !is_at(s, pos, '(') {
        None
    } else {
        match spec_parameters(s, sp(s, pos + 1), with_var) {
            Err(_) => None,
            Ok((first, p1)) => {
                let (more, p2) = spec_more_parameters(s, p1, with_var);
                let p3 = sp(s, p2);
                if is_at(s, p3, ')') {
                    Some((first + more, p3 + 1))
                } else {
                    None
                }
            },
        }
    }
}

/// 272 procedure_head = PROCEDURE procedure_id \[ `(` \[ VAR \] formal_parameter { `;` \[ VAR \] formal_parameter } `)` \] `;` .
///
/// The name of the procedure and its parameters.
pub open spec fn spec_procedure_head(s: Seq<char>, pos: int) -> Result<
    ((Seq<char>, Seq<FormalParameterView>), int),
    int,
> {
    if !word_at(s, pos, "PROCEDURE"@) {
        Err(pos)
    } else {
        match spec_simple_id(s, sp(s, pos + "PROCEDURE"@.len())) {
            Err(at) => Err(at),
            Ok((name, p1)) => {
                let p2 = sp(s, p1);
                let (parameters, p3) = match spec_parameter_clause(s, p2, true) {
                    Some((ps, end)) => (ps, sp(s, end)),
                    None => (Seq::empty(), p2),
                };
                if is_at(s, p3, ';') {
                    Ok(((name, parameters), p3 + 1))
                } else {
                    Err(p3)
                }
            },
        }
    }
}

/// 221 function_head = FUNCTION function_id \[ `(` formal_parameter { formal_parameter } `)` \] `:` parameter_type `;` .
///
/// The name of the function, its parameters and the type of its result.
/// The declarations of parameters stand one after another, blanks
/// between them.
pub open spec fn spec_function_head(s: Seq<char>, pos: int) -> Result<
    ((Seq<char>, Seq<FormalParameterView>, UnderlyingView), int),
    int,
> {
    if !word_at(s, pos, "FUNCTION"@) {
        Err(pos)
    } else {
        match spec_simple_id(s, sp(s, pos + "FUNCTION"@.len())) {
            Err(at) => Err(at),
            Ok((name, p1)) => {
                let p2 = sp(s, p1);
                let (parameters, p3) = match spec_parameter_clause(s, p2, false) {
                    Some((ps, end)) => (ps, sp(s, end)),
                    None => (Seq::empty(), p2),
                };
                if !is_at(s, p3, ':') {
                    Err(p3)
                } else {
                    match spec_type(s, sp(s, p3 + 1)) {
                        Err(at) => Err(at),
                        Ok((ty, p4)) => {
                            let p5 = sp(s, p4);
                            if is_at(s, p5, ';') {
                                Ok(((name, parameters, ty), p5 + 1))
                            } else {
                                Err(p5)
                            }
                        },
                    }
                }
            },
        }
    }
}

/// The views of a concatenation are the concatenation of the views.
proof fn lemma_formal_views_add(a: Seq<FormalParameter>, b: Seq<FormalParameter>)
    ensures
        formal_views(a + b) == formal_views(a) + formal_views(b),
{
    assert(formal_views(a + b) =~= formal_views(a) + formal_views(b));
}

impl<'a> Source<'a> {
    /// `{ , id }` at `pos`: puts the names behind `refs`.
    fn more_parameter_names(&self, pos: usize, refs: &mut Vec<Reference>) -> (end: usize)
        requires
            pos <= self@.len(),
        ensures
            reference_views(final(refs)@) == reference_views(old(refs)@) + spec_more_references(
                self@,
                pos as int,
            ).0,
            end == spec_more_references(self@, pos as int).1,
            pos <= end <= self@.len(),
        decreases self@.len() - pos,
    {
        let ghost before = reference_views(refs@);
        proof {
            assert(before + Seq::<ReferenceView>::empty() =~= before);
        }
        let p1 = self.skip(pos);
        if !self.is_at(p1, ',') {
            return pos;
        }
        let p2 = self.skip(p1 + 1);
        match self.reference_at(p2) {
            Err(_) => pos,
            Ok((r, end)) => {
                let ghost rv = r@;
                let ghost old_refs = refs@;
                refs.push(r);
                proof {
                    lemma_reference_views_push(old_refs, r);
                }
                let last = self.more_parameter_names(end, refs);
                proof {
                    let rest = spec_more_references(self@, end as int).0;
                    assert(before.push(rv) + rest =~= before + (seq![rv] + rest));
                }
                last
            },
        }
    }

    /// `parameter_id { , parameter_id } : parameter_type` at `pos`.
    fn formals_at(&self, pos: usize, is_variable: bool) -> (r: Result<
        (Vec<FormalParameter>, usize),
        usize,
    >)
        requires
            pos <= self@.len(),
        ensures
            match spec_formals(self@, pos as int, is_variable) {
                Ok((v, end)) => r matches Ok(x) && formal_views(x.0@) == v && x.1 == end && pos
                    < end <= self@.len(),
                Err(at) => r matches Err(e) && e == at,
            },
    {
        match self.reference_at(pos) {
            Err(at) => Err(at),
            Ok((first, p1)) => {
                let ghost fv = first@;
                let mut names: Vec<Reference> = Vec::new();
                names.push(first);
                proof {
                    assert(reference_views(names@) =~= seq![fv]);
                }
                let p2 = self.more_parameter_names(p1, &mut names);
                let p3 = self.skip(p2);
                if !self.is_at(p3, ':') {
                    return Err(p3);
                }
                let p4 = self.skip(p3 + 1);
                match self.type_at(p4) {
                    Err(at) => Err(at),
                    Ok((ty, end)) => {
                        let ghost tv = ty@;
                        let ghost all = formals_of(reference_views(names@), tv, is_variable);
                        let mut out: Vec<FormalParameter> = Vec::new();
                        let mut k: usize = 0;
                        proof {
                            assert(formal_views(out@) =~= all.take(0));
                        }
                        while k < names.len()
                            invariant
                                k <= names.len(),
                                p4 <= self@.len(),
                                spec_type(self@, p4 as int) matches Ok(x) && x.0 == tv,
                                all == formals_of(reference_views(names@), tv, is_variable),
                                formal_views(out@) == all.take(k as int),
                            decreases names.len() - k,
                        {
                            let ghost before = out@;
                            match self.type_at(p4) {
                                Ok((again, _)) => {
                                    let p = FormalParameter {
                                        name: names[k].name.clone(),
                                        ty: again,
                                        is_variable,
                                    };
                                    out.push(p);
                                    proof {
                                        assert(all[k as int] == p@);
                                        assert(formal_views(out@) =~= formal_views(before).push(p@));
                                        assert(all.take(k + 1) =~= all.take(k as int).push(p@));
                                    }
                                },
                                Err(_) => {
                                    proof {
                                        assert(false);
                                    }
                                },
                            }
                            k += 1;
                        }
                        proof {
                            assert(all.take(k as int) =~= all);
                        }
                        Ok((out, end))
                    },
                }
            },
        }
    }

    /// A declaration of parameters at `pos`.
    fn parameters_at(&self, pos: usize, with_var: bool) -> (r: Result<
        (Vec<FormalParameter>, usize),
        usize,
    >)
        requires
            pos <= self@.len(),
        ensures
            match spec_parameters(self@, pos as int, with_var) {
                Ok((v, end)) => r matches Ok(x) && formal_views(x.0@) == v && x.1 == end && pos
                    < end <= self@.len(),
                Err(at) => r matches Err(e) && e == at,
            },
    {
        if with_var {
            match self.keyword(pos, "VAR") {
                Some(after) => {
                    let p = self.skip(after);
                    self.formals_at(p, true)
                },
                None => self.formals_at(pos, false),
            }
        } else {
            self.formals_at(pos, false)
        }
    }

    /// The declarations of parameters that follow, from `pos` on: puts
    /// the parameters behind `out`.
    fn more_parameters_at(&self, pos: usize, with_var: bool, out: &mut Vec<FormalParameter>) -> (end:
        usize)
        requires
            pos <= self@.len(),
        ensures
            formal_views(final(out)@) == formal_views(old(out)@) + spec_more_parameters(
                self@,
                pos as int,
                with_var,
            ).0,
            end == spec_more_parameters(self@, pos as int, with_var).1,
            pos <= end <= self@.len(),
        decreases self@.len() - pos,
    {
        let ghost before = formal_views(out@);
        proof {
            assert(before + Seq::<FormalParameterView>::empty() =~= before);
        }
        let p1 = self.skip(pos);
        let start = if with_var {
            if !self.is_at(p1, ';') {
                return pos;
            }
            self.skip(p1 + 1)
        } else {
            p1
        };
        match self.parameters_at(start, with_var) {
            Err(_) => pos,
            Ok((group, end)) => {
                let ghost gv = formal_views(group@);
                let ghost a = out@;
                let ghost b = group@;
                let mut group = group;
                out.append(&mut group);
                proof {
                    lemma_formal_views_add(a, b);
                }
                let last = self.more_parameters_at(end, with_var, out);
                proof {
                    let rest = spec_more_parameters(self@, end as int, with_var).0;
                    assert((before + gv) + rest =~= before + (gv + rest));
                }
                last
            },
        }
    }

    /// `( parameters .. )` at `pos`, if such a list stands there.
    fn parameter_clause_at(&self, pos: usize, with_var: bool) -> (r: Option<
        (Vec<FormalParameter>, usize),
    >)
        requires
            pos <= self@.len(),
        ensures
            match spec_parameter_clause(self@, pos as int, with_var) {
                Some((v, end)) => r matches Some(x) && formal_views(x.0@) == v && x.1 == end && pos
                    < end <= self@.len(),
                None => r is None,
            },
    {
        if !self.is_at(pos, '(') {
            return None;
        }
        let p0 = self.skip(pos + 1);
        match self.parameters_at(p0, with_var) {
            Err(_) => None,
            Ok((first, p1)) => {
                let mut all = first;
                let p2 = self.more_parameters_at(p1, with_var, &mut all);
                let p3 = self.skip(p2);
                if self.is_at(p3, ')') {
                    Some((all, p3 + 1))
                } else {
                    None
                }
            },
        }
    }

    /// The head of a procedure at `pos`.
    fn procedure_head_at(&self, pos: usize) -> (r: Result<
        ((String, Vec<FormalParameter>), usize),
        usize,
    >)
        requires
            pos <= self@.len(),
        ensures
            match spec_procedure_head(self@, pos as int) {
                Ok((v, end)) => r matches Ok(((name, parameters), last)) && name@ == v.0
                    && formal_views(parameters@) == v.1 && last == end && pos < end
                    <= self@.len(),
                Err(at) => r matches Err(e) && e == at,
            },
    {
        let after = match self.keyword(pos, "PROCEDURE") {
            None => {
                return Err(pos);
            },
            Some(after) => after,
        };
        let p0 = self.skip(after);
        match self.simple_id_at(p0) {
            Err(at) => Err(at),
            Ok((name, p1)) => {
                let p2 = self.skip(p1);
                let (parameters, p3) = match self.parameter_clause_at(p2, true) {
                    Some((ps, end)) => (ps, self.skip(end)),
                    None => {
                        let none: Vec<FormalParameter> = Vec::new();
                        proof {
                            assert(formal_views(none@) =~= Seq::<FormalParameterView>::empty());
                        }
                        (none, p2)
                    },
                };
                if self.is_at(p3, ';') {
                    Ok(((name, parameters), p3 + 1))
                } else {
                    Err(p3)
                }
            },
        }
    }

    /// The head of a function at `pos`.
    fn function_head_at(&self, pos: usize) -> (r: Result<
        ((String, Vec<FormalParameter>, Underlying), usize),
        usize,
    >)
        requires
            pos <= self@.len(),
        ensures
            match spec_function_head(self@, pos as int) {
                Ok((v, end)) => r matches Ok(((name, parameters, ty), last)) && name@ == v.0
                    && formal_views(parameters@) == v.1 && ty@ == v.2 && last == end && pos < end
                    <= self@.len(),
                Err(at) => r matches Err(e) && e == at,
            },
    {
        let after = match self.keyword(pos, "FUNCTION") {
            None => {
                return Err(pos);
            },
            Some(after) => after,
        };
        let p0 = self.skip(after);
        match self.simple_id_at(p0) {
            Err(at) => Err(at),
            Ok((name, p1)) => {
                let p2 = self.skip(p1);
                let (parameters, p3) = match self.parameter_clause_at(p2, false) {
                    Some((ps, end)) => (ps, self.skip(end)),
                    None => {
                        let none: Vec<FormalParameter> = Vec::new();
                        proof {
                            assert(formal_views(none@) =~= Seq::<FormalParameterView>::empty());
                        }
                        (none, p2)
                    },
                };
                if !self.is_at(p3, ':') {
                    return Err(p3);
                }
                let q = self.skip(p3 + 1);
                match self.type_at(q) {
                    Err(at) => Err(at),
                    Ok((ty, p4)) => {
                        let p5 = self.skip(p4);
                        if self.is_at(p5, ';') {
                            Ok(((name, parameters, ty), p5 + 1))
                        } else {
                            Err(p5)
                        }
                    },
                }
            },
        }
    }
}

/// 218 formal_parameter = [parameter_id] { `,` [parameter_id] } `:` [parameter_type] .
pub fn formal_parameter<'a>(input: &'a str) -> (r: ParseResult<'a, Vec<FormalParameter>>)
    ensures
        match spec_formal_parameter(input@, 0) {
            Ok((v, end)) => r matches Ok((rest, (value, found))) && rest@ == input@.skip(end)
                && formal_views(value@) == v && remark_views(found@) == remarks_in(input@, 0, end),
            Err(at) => r matches Err(e) && e.offset == at,
        },
{
    let src = Source::new(input);
    match src.formals_at(0, false) {
        Ok((value, end)) => Ok((src.rest(end), (value, src.remarks_in(0, end)))),
        Err(at) => Err(TokenizeFailed { offset: at }),
    }
}

/// 272 procedure_head = PROCEDURE [procedure_id]
///                    \[ `(`
///                      \[ VAR \] [formal_parameter] { `;`
///                      \[ VAR \] [formal_parameter]
///                    }
///                    `)` \] `;` .
pub fn procedure_head<'a>(input: &'a str) -> (r: ParseResult<'a, (String, Vec<FormalParameter>)>)
    ensures
        match spec_procedure_head(input@, 0) {
            Ok((v, end)) => r matches Ok((rest, ((name, parameters), found))) && rest@
                == input@.skip(end) && name@ == v.0 && formal_views(parameters@) == v.1
                && remark_views(found@) == remarks_in(input@, 0, end),
            Err(at) => r matches Err(e) && e.offset == at,
        },
{
    let src = Source::new(input);
    match src.procedure_head_at(0) {
        Ok((value, end)) => Ok((src.rest(end), (value, src.remarks_in(0, end)))),
        Err(at) => Err(TokenizeFailed { offset: at }),
    }
}

/// 221 function_head = FUNCTION [function_id]
///                   \[ `(` [formal_parameter] { `;` [formal_parameter] } `)` \]
///                   `:` [parameter_type] `;` .
///
/// The declarations of parameters are read one after another, with
/// blanks between them and no `;`.
pub fn function_head<'a>(input: &'a str) -> (r: ParseResult<
    'a,
    (String, Vec<FormalParameter>, Underlying),
>)
    ensures
        match spec_function_head(input@, 0) {
            Ok((v, end)) => r matches Ok((rest, ((name, parameters, ty), found))) && rest@
                == input@.skip(end) && name@ == v.0 && formal_views(parameters@) == v.1 && ty@
                == v.2 && remark_views(found@) == remarks_in(input@, 0, end),
            Err(at) => r matches Err(e) && e.offset == at,
        },
{
    let src = Source::new(input);
    match src.function_head_at(0) {
        Ok((value, end)) => Ok((src.rest(end), (value, src.remarks_in(0, end)))),
        Err(at) => Err(TokenizeFailed { offset: at }),
    }
}

} // verus!
