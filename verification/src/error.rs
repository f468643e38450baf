//! The diagnostics of the compiler.

use crate::ast::Span;
use crate::ir::scope::Path;
use crate::ir::scope::PathView;
use crate::ir::scope::Scope;
use crate::ir::scope::Segment;
use vstd::prelude::*;
use vstd::string::StringExecFns;

verus! {

/// What went wrong.
#[derive(Debug, Clone, Copy, PartialEq, Eq, Hash, Structural)]
pub enum ErrorKind {
    /// A declaration with this path exists already
    DuplicatePath,
    /// No declaration of this name is visible from the scope
    Unresolved,
    /// Several declarations of this name stand in the nearest scope that has one
    Ambiguous,
    /// An entity is, through its supertypes, a supertype of itself
    CyclicSupertype,
    /// A supertype constraint with no operand
    EmptyConstraint,
    /// A supertype constraint that nothing can satisfy
    InfeasibleConstraint,
    /// The compiler found its own invariants broken
    Internal,
}

/// The paths of a sequence as plain values.
pub open spec fn path_views(s: Seq<Path>) -> Seq<PathView> {
    s.map_values(|p: Path| p@)
}

/// A diagnostic as plain values.
pub struct ErrorView {
    pub kind: ErrorKind,
    pub span: Span,
    pub secondary: Option<Span>,
    pub scope: Seq<Segment>,
    pub identifier: Seq<char>,
    pub involved: Seq<PathView>,
}

/// One diagnostic: its kind, where in the input it arose, and the scope and
/// identifier at fault.
#[derive(Debug, PartialEq, Eq)]
pub struct SemanticError {
    pub kind: ErrorKind,
    /// The place in the input that the diagnostic is about
    pub span: Span,
    /// For a duplicate, the place of the first declaration
    pub secondary: Option<Span>,
    /// The scope in which the identifier was declared or used
    pub scope: Scope,
    /// The identifier at fault
    pub identifier: String,
    /// For a cycle of supertypes, the entities caught in it
    pub involved: Vec<Path>,
}

impl View for SemanticError {
    type V = ErrorView;

    open spec fn view(&self) -> ErrorView {
        ErrorView {
            kind: self.kind,
            span: self.span,
            secondary: self.secondary,
            scope: self.scope@,
            identifier: self.identifier@,
            involved: path_views(self.involved@),
        }
    }
}

/// The diagnostics of a sequence as plain values.
pub open spec fn error_views(s: Seq<SemanticError>) -> Seq<ErrorView> {
    s.map_values(|e: SemanticError| e@)
}

/// A diagnostic about one identifier in one scope, with no place in the input yet.
pub open spec fn plain_error(kind: ErrorKind, scope: Seq<Segment>, identifier: Seq<char>) -> ErrorView {
    ErrorView {
        kind,
        span: Span { start: 0, end: 0 },
        secondary: None,
        scope,
        identifier,
        involved: Seq::empty(),
    }
}

/// The headline of a kind of diagnostic.
pub open spec fn kind_text(kind: ErrorKind) -> Seq<char> {
    match kind {
        ErrorKind::DuplicatePath => "duplicate declaration"@,
        ErrorKind::Unresolved => "unresolved reference"@,
        ErrorKind::Ambiguous => "ambiguous reference"@,
        ErrorKind::CyclicSupertype => "cyclic supertype"@,
        ErrorKind::EmptyConstraint => "empty constraint"@,
        ErrorKind::InfeasibleConstraint => "infeasible constraint"@,
        ErrorKind::Internal => "internal error"@,
    }
}

impl ErrorKind {
    /// The headline of the kind.
    pub fn text(&self) -> (r: &'static str)
        ensures
            r@ == kind_text(*self),
    {
        match self {
            ErrorKind::DuplicatePath => "duplicate declaration",
            ErrorKind::Unresolved => "unresolved reference",
            ErrorKind::Ambiguous => "ambiguous reference",
            ErrorKind::CyclicSupertype => "cyclic supertype",
            ErrorKind::EmptyConstraint => "empty constraint",
            ErrorKind::InfeasibleConstraint => "infeasible constraint",
            ErrorKind::Internal => "internal error",
        }
    }
}

impl SemanticError {
    /// A diagnostic of `kind` about `identifier` in `scope`, with no place
    /// in the input yet.
    pub fn new(kind: ErrorKind, scope: &Scope, identifier: &str) -> (r: Self)
        ensures
            r@ == plain_error(kind, scope@, identifier@),
    {
        let r = SemanticError {
            kind,
            span: Span::none(),
            secondary: None,
            scope: scope.clone(),
            identifier: identifier.to_owned(),
            involved: Vec::new(),
        };
        proof {
            assert(path_views(r.involved@) =~= Seq::<PathView>::empty());
        }
        r
    }

    /// The same diagnostic, about the place `span` of the input.
    pub fn at(self, span: Span) -> (r: Self)
        ensures
            r@ == (ErrorView { span, ..self@ }),
    {
        SemanticError { span, ..self }
    }

    /// The same diagnostic, pointing also at an earlier place of the input.
    pub fn with_secondary(self, first: Span) -> (r: Self)
        ensures
            r@ == (ErrorView { secondary: Some(first), ..self@ }),
    {
        SemanticError { secondary: Some(first), ..self }
    }

    /// The same diagnostic, naming the entities caught in it.
    pub fn with_involved(self, involved: Vec<Path>) -> (r: Self)
        ensures
            r@ == (ErrorView { involved: path_views(involved@), ..self@ }),
    {
        SemanticError { involved, ..self }
    }

    /// The message for the user: the headline of the kind, the identifier
    /// in quotes, and the scope it stands in.
    pub fn message(&self) -> (r: String)
        ensures
            r@ == message_text(self@),
    {
        let mut out = String::from_str(self.kind.text());
        out.append(" `");
        out.append(self.identifier.as_str());
        out.append("` in scope `");
        let scope = self.scope.to_string();
        out.append(scope.as_str());
        out.append("`");
        out
    }
}

/// The message of a diagnostic.
pub open spec fn message_text(e: ErrorView) -> Seq<char> {
    kind_text(e.kind) + " `"@ + e.identifier + "` in scope `"@ + crate::ir::scope::joined(
        crate::ir::scope::segment_names(e.scope),
        "."@,
    ) + "`"@
}

impl Clone for SemanticError {
    fn clone(&self) -> (r: Self)
        ensures
            r@ == self@,
    {
        let mut involved: Vec<Path> = Vec::new();
        let mut i: usize = 0;
        while i < self.involved.len()
            invariant
                i <= self.involved.len(),
                path_views(involved@) == path_views(self.involved@).take(i as int),
            decreases self.involved.len() - i,
        {
            let ghost prior = involved@;
            let p = self.involved[i].clone();
            involved.push(p);
            proof {
                assert(path_views(involved@) =~= path_views(prior).push(p@));
                assert(path_views(self.involved@).take(i + 1) =~= path_views(self.involved@).take(
                    i as int,
                ).push(p@));
            }
            i += 1;
        }
        proof {
            assert(path_views(self.involved@).take(i as int) =~= path_views(self.involved@));
        }
        SemanticError {
            kind: self.kind,
            span: self.span,
            secondary: self.secondary,
            scope: self.scope.clone(),
            identifier: self.identifier.clone(),
            involved,
        }
    }
}

} // verus!
