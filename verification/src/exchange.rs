//! The parameters of a record of an exchange structure (ISO 10303-21).
//!
//! A real number is kept as it is written: the verified code compares and
//! copies it, and leaves its value to whoever needs it.

use crate::parser::is_at;
use crate::parser::is_blank;
use crate::parser::is_blank_exec;
use crate::parser::is_digit;
use crate::parser::is_digit_exec;
use crate::parser::pair_at;
use crate::parser::types::digits_end;
use crate::parser::types::digits_value;
use crate::parser::types::lemma_digits_end;
use crate::parser::types::lemma_digits_value_grows;
use crate::parser::Source;
use crate::parser::TokenizeFailed;
use vstd::prelude::*;
use vstd::string::StringExecFns;

verus! {

/// A reference to an entity or a value of the exchange structure.
#[derive(Debug, PartialEq, Eq)]
pub enum RValue {
    /// `#n`
    Entity(u64),
    /// `@n`
    Value(u64),
    /// `#NAME`
    ConstantEntity(String),
    /// `@NAME`
    ConstantValue(String),
}

/// A reference as plain values.
pub enum RValueView {
    Entity(u64),
    Value(u64),
    ConstantEntity(Seq<char>),
    ConstantValue(Seq<char>),
}

impl View for RValue {
    type V = RValueView;

    open spec fn view(&self) -> RValueView {
        match self {
            RValue::Entity(n) => RValueView::Entity(*n),
            RValue::Value(n) => RValueView::Value(*n),
            RValue::ConstantEntity(name) => RValueView::ConstantEntity(name@),
            RValue::ConstantValue(name) => RValueView::ConstantValue(name@),
        }
    }
}

/// Primitive value type in STEP data
#[derive(Debug, PartialEq, Eq)]
pub enum Parameter {
    /// Inline *Typed* struct
    Typed { name: String, ty: Box<Parameter> },
    Integer(i64),
    /// A real number, as it is written
    Real(String),
    String(String),
    Enumeration(String),
    /// A reference to entity or value
    RValue(RValue),
    /// List of other parameters
    List(Vec<Parameter>),
    /// The special token dollar sign (`$`) is used to represent an object whose value is not provided in the exchange structure.
    NotProvided,
    /// Omitted parameter denoted by `*`
    Omitted,
}

/// A parameter as plain values.
pub enum ParameterView {
    Typed { name: Seq<char>, ty: Box<ParameterView> },
    Integer(i64),
    Real(Seq<char>),
    String(Seq<char>),
    Enumeration(Seq<char>),
    RValue(RValueView),
    List(Seq<ParameterView>),
    NotProvided,
    Omitted,
}

/// The first `n` parameters of a sequence as plain values.
pub open spec fn parameter_views(s: Seq<Parameter>, n: nat) -> Seq<ParameterView>
    decreases s, n,
{
    if n == 0 || n > s.len() {
        Seq::empty()
    } else {
        parameter_views(s, (n - 1) as nat).push(s[n - 1]@)
    }
}

impl View for Parameter {
    type V = ParameterView;

    open spec fn view(&self) -> ParameterView
        decreases self,
    {
        match self {
            Parameter::Typed { name, ty } => ParameterView::Typed {
                name: name@,
                ty: Box::new((**ty)@),
            },
            Parameter::Integer(i) => ParameterView::Integer(*i),
            Parameter::Real(x) => ParameterView::Real(x@),
            Parameter::String(s) => ParameterView::String(s@),
            Parameter::Enumeration(e) => ParameterView::Enumeration(e@),
            Parameter::RValue(r) => ParameterView::RValue(r@),
            Parameter::List(ps) => ParameterView::List(parameter_views(ps@, ps@.len())),
            Parameter::NotProvided => ParameterView::NotProvided,
            Parameter::Omitted => ParameterView::Omitted,
        }
    }
}

/// The views of all parameters of a sequence, one for one.
pub proof fn lemma_parameter_views(s: Seq<Parameter>, n: nat)
    requires
        n <= s.len(),
    ensures
        parameter_views(s, n).len() == n,
        forall|k: int| 0 <= k < n ==> parameter_views(s, n)[k] == (#[trigger] s[k])@,
    decreases n,
{
    if n > 0 {
        lemma_parameter_views(s, (n - 1) as nat);
        assert(parameter_views(s, n) == parameter_views(s, (n - 1) as nat).push(s[n - 1]@));
    } else {
        assert(parameter_views(s, n) == Seq::<ParameterView>::empty());
    }
}

/// The views after a push are the views before it, and the view of what was pushed.
pub proof fn lemma_parameter_views_push(s: Seq<Parameter>, p: Parameter)
    ensures
        parameter_views(s.push(p), s.len() + 1) == parameter_views(s, s.len()).push(p@),
{
    let t = s.push(p);
    lemma_parameter_views(s, s.len());
    lemma_parameter_views(t, t.len());
    let a = parameter_views(t, t.len());
    let b = parameter_views(s, s.len()).push(p@);
    assert forall|j: int| 0 <= j < a.len() implies a[j] == b[j] by {
        assert(a[j] == t[j]@);
        if j < s.len() {
            assert(t[j] == s[j]);
            assert(b[j] == s[j]@);
        }
    }
    assert(a =~= b);
}

impl Parameter {
    pub fn integer(i: i64) -> (r: Self)
        ensures
            r@ == ParameterView::Integer(i),
    {
        Parameter::Integer(i)
    }

    pub fn string(s: &str) -> (r: Self)
        ensures
            r@ == ParameterView::String(s@),
    {
        Parameter::String(s.to_owned())
    }

    /// The list of the given parameters.
    pub fn list(parameters: Vec<Parameter>) -> (r: Self)
        ensures
            r@ == ParameterView::List(parameter_views(parameters@, parameters@.len())),
    {
        Parameter::List(parameters)
    }
}

/// A capital letter or `_`.
pub open spec fn is_upper(c: char) -> bool {
    ('A' <= c && c <= 'Z') || c == '_'
}

/// What may follow the first letter of a keyword.
pub open spec fn is_keyword_char(c: char) -> bool {
    is_upper(c) || is_digit(c)
}

/// Where the comment ends whose `/*` stands just before `pos`: behind the
/// next `*/`. `None` if the text ends first.
pub open spec fn comment_end(s: Seq<char>, pos: int) -> Option<int>
    decreases s.len() - pos,
{
    if pos < 0 || pos >= s.len() {
        None
    } else if pair_at(s, pos, '*', '/') {
        Some(pos + 2)
    } else {
        comment_end(s, pos + 1)
    }
}

/// Where the run of blanks and comments from `pos` on ends.
pub open spec fn gap(s: Seq<char>, pos: int) -> int
    decreases s.len() - pos,
{
    if 0 <= pos < s.len() && is_blank(s[pos]) {
        gap(s, pos + 1)
    } else if pair_at(s, pos, '/', '*') {
        match comment_end(s, pos + 2) {
            Some(end) => if pos < end <= s.len() {
                gap(s, end)
            } else {
                pos
            },
            None => pos,
        }
    } else {
        pos
    }
}

/// Where the run of keyword characters from `pos` on ends.
pub open spec fn name_end(s: Seq<char>, pos: int) -> int
    decreases s.len() - pos,
{
    if 0 <= pos < s.len() && is_keyword_char(s[pos]) {
        name_end(s, pos + 1)
    } else {
        pos
    }
}

/// A name in capitals at `pos`: a capital letter or `_`, then capital
/// letters, `_` and digits.
pub open spec fn spec_name(s: Seq<char>, pos: int) -> Result<(Seq<char>, int), int> {
    if 0 <= pos < s.len() && is_upper(s[pos]) {
        Ok((s.subrange(pos, name_end(s, pos + 1)), name_end(s, pos + 1)))
    } else {
        Err(pos)
    }
}

/// keyword = user_defined_keyword | standard_keyword .
///
/// A name in capitals, behind `!` or not; the `!` belongs to the keyword.
pub open spec fn spec_keyword(s: Seq<char>, pos: int) -> Result<(Seq<char>, int), int> {
    let start = if is_at(s, pos, '!') {
        pos + 1
    } else {
        pos
    };
    match spec_name(s, start) {
        Ok((_, end)) => Ok((s.subrange(pos, end), end)),
        Err(_) => Err(pos),
    }
}

/// Where the digits start behind a sign at `pos`, if there is one.
pub open spec fn behind_sign(s: Seq<char>, pos: int) -> int {
    if is_at(s, pos, '+') || is_at(s, pos, '-') {
        pos + 1
    } else {
        pos
    }
}

/// integer = \[ sign \] digit { digit } .
///
/// The number is no more than the greatest `i64`. Fails at `pos`.
pub open spec fn spec_integer(s: Seq<char>, pos: int) -> Result<(i64, int), int> {
    let start = behind_sign(s, pos);
    let end = digits_end(s, start);
    let number = digits_value(s, start, end);
    if end <= start || number > i64::MAX {
        Err(pos)
    } else if is_at(s, pos, '-') {
        Ok(((-number) as i64, end))
    } else {
        Ok((number as i64, end))
    }
}

/// real = \[ sign \] digit { digit } `.` { digit } \[ `E` \[ sign \] digit { digit } \] .
///
/// The number as it is written, and where it ends. Fails at `pos`.
pub open spec fn spec_real(s: Seq<char>, pos: int) -> Result<(Seq<char>, int), int> {
    let start = behind_sign(s, pos);
    let p1 = digits_end(s, start);
    if p1 <= start || !is_at(s, p1, '.') {
        Err(pos)
    } else {
        let p2 = digits_end(s, p1 + 1);
        let p3 = behind_sign(s, p2 + 1);
        let p4 = digits_end(s, p3);
        let end = if is_at(s, p2, 'E') && p3 < p4 {
            p4
        } else {
            p2
        };
        Ok((s.subrange(pos, end), end))
    }
}

/// Where the string ends whose opening apostrophe stands just before
/// `pos`: at its closing apostrophe, which is the first that is not one
/// of a pair. `None` if the text ends first.
pub open spec fn string_end(s: Seq<char>, pos: int) -> Option<int>
    decreases s.len() - pos,
{
    if pos < 0 || pos >= s.len() {
        None
    } else if s[pos] == '\'' {
        if is_at(s, pos + 1, '\'') {
            string_end(s, pos + 2)
        } else {
            Some(pos)
        }
    } else {
        string_end(s, pos + 1)
    }
}

/// The text from `pos` up to `end`, each pair of apostrophes read as one.
pub open spec fn unquoted(s: Seq<char>, pos: int, end: int) -> Seq<char>
    decreases end - pos,
{
    if pos >= end || pos < 0 || end > s.len() {
        Seq::empty()
    } else if s[pos] == '\'' && pos + 1 < end && s[pos + 1] == '\'' {
        seq!['\''] + unquoted(s, pos + 2, end)
    } else {
        seq![s[pos]] + unquoted(s, pos + 1, end)
    }
}

/// string = `'` { character | `''` } `'` .
pub open spec fn spec_string(s: Seq<char>, pos: int) -> Result<(Seq<char>, int), int> {
    if !is_at(s, pos, '\'') {
        Err(pos)
    } else {
        match string_end(s, pos + 1) {
            Some(close) => Ok((unquoted(s, pos + 1, close), close + 1)),
            None => Err(pos),
        }
    }
}

/// enumeration = `.` upper { upper | digit } `.` .
pub open spec fn spec_enumeration(s: Seq<char>, pos: int) -> Result<(Seq<char>, int), int> {
    if !is_at(s, pos, '.') {
        Err(pos)
    } else {
        match spec_name(s, pos + 1) {
            Err(_) => Err(pos),
            Ok((name, end)) => if is_at(s, end, '.') {
                Ok((name, end + 1))
            } else {
                Err(pos)
            },
        }
    }
}

/// The number of an instance at `pos`: digits whose number is no more
/// than the greatest `u64`.
pub open spec fn spec_instance_number(s: Seq<char>, pos: int) -> Result<(u64, int), int> {
    let end = digits_end(s, pos);
    let number = digits_value(s, pos, end);
    if end <= pos || number > u64::MAX {
        Err(pos)
    } else {
        Ok((number as u64, end))
    }
}

/// rhs_occurrence_name = entity_instance_name | value_instance_name | constant_entity_name | constant_value_name .
///
/// `#` or `@`, then the number of an instance or the name of a constant.
pub open spec fn spec_rvalue(s: Seq<char>, pos: int) -> Result<(RValueView, int), int> {
    if is_at(s, pos, '#') {
        match spec_instance_number(s, pos + 1) {
            Ok((n, end)) => Ok((RValueView::Entity(n), end)),
            Err(_) => match spec_name(s, pos + 1) {
                Ok((name, end)) => Ok((RValueView::ConstantEntity(name), end)),
                Err(_) => Err(pos),
            },
        }
    } else if is_at(s, pos, '@') {
        match spec_instance_number(s, pos + 1) {
            Ok((n, end)) => Ok((RValueView::Value(n), end)),
            Err(_) => match spec_name(s, pos + 1) {
                Ok((name, end)) => Ok((RValueView::ConstantValue(name), end)),
                Err(_) => Err(pos),
            },
        }
    } else {
        Err(pos)
    }
}

/// `{ , parameter }`
pub open spec fn spec_more_parameters(s: Seq<char>, pos: int) -> (Seq<ParameterView>, int)
    decreases s.len() - pos, 3int,
{
    let p1 = gap(s, pos);
    if 0 <= pos <= p1 && is_at(s, p1, ',') {
        let p2 = gap(s, p1 + 1);
        if !(pos < p2 <= s.len()) {
            (Seq::empty(), pos)
        } else {
            match spec_parameter(s, p2) {
                Ok((p, end)) => if pos < end <= s.len() {
                    (seq![p] + spec_more_parameters(s, end).0, spec_more_parameters(s, end).1)
                } else {
                    (Seq::empty(), pos)
                },
                Err(_) => (Seq::empty(), pos),
            }
        }
    } else {
        (Seq::empty(), pos)
    }
}

/// list = `(` \[ parameter { `,` parameter } \] `)` .
pub open spec fn spec_list(s: Seq<char>, pos: int) -> Result<(ParameterView, int), int>
    decreases s.len() - pos, 1int,
{
    if !is_at(s, pos, '(') {
        Err(pos)
    } else {
        let p1 = gap(s, pos + 1);
        if !(pos < p1 <= s.len()) {
            Err(p1)
        } else {
            let (items, p2) = match spec_parameter(s, p1) {
                Ok((first, end)) => if pos < end <= s.len() {
                    (seq![first] + spec_more_parameters(s, end).0, spec_more_parameters(s, end).1)
                } else {
                    (Seq::empty(), p1)
                },
                Err(_) => (Seq::empty(), p1),
            };
            let p3 = gap(s, p2);
            if is_at(s, p3, ')') {
                Ok((ParameterView::List(items), p3 + 1))
            } else {
                Err(p3)
            }
        }
    }
}

/// typed_parameter = keyword `(` parameter `)` .
pub open spec fn spec_typed_parameter(s: Seq<char>, pos: int) -> Result<(ParameterView, int), int>
    decreases s.len() - pos, 1int,
{
    match spec_keyword(s, pos) {
        Err(at) => Err(at),
        Ok((name, p1)) => {
            let p2 = gap(s, p1);
            if !is_at(s, p2, '(') {
                Err(p2)
            } else {
                let p3 = gap(s, p2 + 1);
                if !(pos < p3 <= s.len()) {
                    Err(p3)
                } else {
                    match spec_parameter(s, p3) {
                        Err(at) => Err(at),
                        Ok((inner, p4)) => {
                            let p5 = gap(s, p4);
                            if is_at(s, p5, ')') {
                                Ok((ParameterView::Typed { name, ty: Box::new(inner) }, p5 + 1))
                            } else {
                                Err(p5)
                            }
                        },
                    }
                }
            }
        },
    }
}

/// untyped_parameter = `$` | integer | real | string | rhs_occurrence_name | enumeration | binary | list .
///
/// A number with a `.` is a real, another an integer. Where none of the
/// alternatives is there, the failure is that of the list.
pub open spec fn spec_untyped_parameter(s: Seq<char>, pos: int) -> Result<
    (ParameterView, int),
    int,
>
    decreases s.len() - pos, 2int,
{
    if is_at(s, pos, '$') {
        Ok((ParameterView::NotProvided, pos + 1))
    } else if spec_real(s, pos) is Ok {
        Ok((ParameterView::Real(spec_real(s, pos)->Ok_0.0), spec_real(s, pos)->Ok_0.1))
    } else if spec_integer(s, pos) is Ok {
        Ok((ParameterView::Integer(spec_integer(s, pos)->Ok_0.0), spec_integer(s, pos)->Ok_0.1))
    } else if spec_string(s, pos) is Ok {
        Ok((ParameterView::String(spec_string(s, pos)->Ok_0.0), spec_string(s, pos)->Ok_0.1))
    } else if spec_rvalue(s, pos) is Ok {
        Ok((ParameterView::RValue(spec_rvalue(s, pos)->Ok_0.0), spec_rvalue(s, pos)->Ok_0.1))
    } else if spec_enumeration(s, pos) is Ok {
        Ok(
            (
                ParameterView::Enumeration(spec_enumeration(s, pos)->Ok_0.0),
                spec_enumeration(s, pos)->Ok_0.1,
            ),
        )
    } else {
        spec_list(s, pos)
    }
}

/// parameter = typed_parameter | untyped_parameter | omitted_parameter .
///
/// Where none is there, the failure is at `pos`.
pub open spec fn spec_parameter(s: Seq<char>, pos: int) -> Result<(ParameterView, int), int>
    decreases s.len() - pos, 4int,
{
    match spec_typed_parameter(s, pos) {
        Ok(x) => Ok(x),
        Err(_) => match spec_untyped_parameter(s, pos) {
            Ok(x) => Ok(x),
            Err(_) => if is_at(s, pos, '*') {
                Ok((ParameterView::Omitted, pos + 1))
            } else {
                Err(pos)
            },
        },
    }
}

/// parameter_list = parameter { `,` parameter } .
pub open spec fn spec_parameter_list(s: Seq<char>, pos: int) -> Result<
    (Seq<ParameterView>, int),
    int,
> {
    match spec_parameter(s, pos) {
        Err(at) => Err(at),
        Ok((first, end)) => if 0 <= pos < end <= s.len() {
            Ok((seq![first] + spec_more_parameters(s, end).0, spec_more_parameters(s, end).1))
        } else {
            Err(pos)
        },
    }
}

/// Whether `c` is a capital letter or `_`.
fn is_upper_exec(c: char) -> (r: bool)
    ensures
        r == is_upper(c),
{
    ('A' <= c && c <= 'Z') || c == '_'
}

/// Where the comment ends whose `/*` stands just before `pos`.
fn comment_end_at(src: &Source, pos: usize) -> (r: Option<usize>)
    requires
        pos <= src@.len(),
    ensures
        match comment_end(src@, pos as int) {
            Some(end) => r matches Some(x) && x == end && pos + 2 <= end <= src@.len(),
            None => r is None,
        },
{
    let n = src.len();
    let mut i = pos;
    while i < n
        invariant
            pos <= i <= n,
            n == src@.len(),
            comment_end(src@, pos as int) == comment_end(src@, i as int),
        decreases n - i,
    {
        if src.pair_at(i, '*', '/') {
            return Some(i + 2);
        }
        i += 1;
    }
    None
}

/// Where the run of blanks and comments from `pos` on ends.
fn gap_at(src: &Source, pos: usize) -> (r: usize)
    requires
        pos <= src@.len(),
    ensures
        r == gap(src@, pos as int),
        pos <= r <= src@.len(),
{
    let n = src.len();
    let mut i = pos;
    loop
        invariant
            pos <= i <= n,
            n == src@.len(),
            gap(src@, pos as int) == gap(src@, i as int),
        decreases n - i,
    {
        if i < n && is_blank_exec(src.at(i)) {
            i += 1;
        } else if src.pair_at(i, '/', '*') {
            match comment_end_at(src, i + 2) {
                Some(end) => {
                    i = end;
                },
                None => {
                    return i;
                },
            }
        } else {
            return i;
        }
    }
}

/// Where the run of digits from `pos` on ends.
fn digits_end_at(src: &Source, pos: usize) -> (r: usize)
    requires
        pos <= src@.len(),
    ensures
        r == digits_end(src@, pos as int),
        pos <= r <= src@.len(),
{
    let n = src.len();
    let mut i = pos;
    while i < n && is_digit_exec(src.at(i))
        invariant
            pos <= i <= n,
            n == src@.len(),
            digits_end(src@, pos as int) == digits_end(src@, i as int),
        decreases n - i,
    {
        i += 1;
    }
    i
}

/// Where the digits start behind a sign at `pos`, if there is one.
fn behind_sign_at(src: &Source, pos: usize) -> (r: usize)
    requires
        pos <= src@.len(),
    ensures
        r == behind_sign(src@, pos as int),
        pos <= r <= src@.len(),
{
    if src.is_at(pos, '+') || src.is_at(pos, '-') {
        pos + 1
    } else {
        pos
    }
}

/// The number written by the digits from `start` on, if it is no more
/// than `limit`, and where they end.
fn number_at(src: &Source, start: usize, limit: u64) -> (r: Option<(u64, usize)>)
    requires
        start <= src@.len(),
        limit >= 9,
    ensures
        match r {
            Some((number, end)) => end == digits_end(src@, start as int) && start < end
                <= src@.len() && number == digits_value(src@, start as int, end as int) && number
                <= limit,
            None => digits_end(src@, start as int) <= start || digits_value(
                src@,
                start as int,
                digits_end(src@, start as int),
            ) > limit,
        },
{
    let n = src.len();
    let mut i = start;
    let mut acc: u64 = 0;
    proof {
        lemma_digits_end(src@, start as int);
    }
    while i < n && is_digit_exec(src.at(i))
        invariant
            start <= i <= n,
            n == src@.len(),
            digits_end(src@, start as int) == digits_end(src@, i as int),
            forall|k: int| start <= k < i ==> is_digit(src@[k]),
            acc == digits_value(src@, start as int, i as int),
            acc <= limit,
            limit >= 9,
        decreases n - i,
    {
        let c = src.at(i);
        let d = (c as u32 - '0' as u32) as u64;
        if acc > (limit - d) / 10 {
            proof {
                let end = digits_end(src@, start as int);
                lemma_digits_end(src@, i as int);
                assert(digits_end(src@, i as int) == digits_end(src@, i + 1));
                lemma_digits_end(src@, i + 1);
                assert(digits_value(src@, start as int, i + 1) == 10 * acc + d);
                assert(10 * acc + d > limit) by (nonlinear_arith)
                    requires
                        acc > (limit - d) / 10,
                        d <= 9,
                        d <= limit,
                ;
                lemma_digits_value_grows(src@, start as int, i + 1, end);
            }
            return None;
        }
        proof {
            assert(10 * acc + d <= limit) by (nonlinear_arith)
                requires
                    acc <= (limit - d) / 10,
                    d <= limit,
            ;
        }
        acc = acc * 10 + d;
        i += 1;
    }
    if i == start {
        None
    } else {
        Some((acc, i))
    }
}

/// An integer at `pos`.
fn integer_at(src: &Source, pos: usize) -> (r: Result<(i64, usize), usize>)
    requires
        pos <= src@.len(),
    ensures
        match spec_integer(src@, pos as int) {
            Ok((v, end)) => r matches Ok(x) && x.0 == v && x.1 == end && pos < end <= src@.len(),
            Err(at) => r matches Err(e) && e == at,
        },
{
    let negative = src.is_at(pos, '-');
    let start = behind_sign_at(src, pos);
    match number_at(src, start, 9223372036854775807) {
        None => Err(pos),
        Some((number, end)) => {
            if negative {
                Ok((0 - (number as i64), end))
            } else {
                Ok((number as i64, end))
            }
        },
    }
}

/// A real number at `pos`, as it is written.
fn real_at(src: &Source, pos: usize) -> (r: Result<(String, usize), usize>)
    requires
        pos <= src@.len(),
    ensures
        match spec_real(src@, pos as int) {
            Ok((v, end)) => r matches Ok(x) && x.0@ == v && x.1 == end && pos < end <= src@.len(),
            Err(at) => r matches Err(e) && e == at,
        },
{
    let n = src.len();
    let start = behind_sign_at(src, pos);
    let p1 = digits_end_at(src, start);
    if p1 <= start || !src.is_at(p1, '.') {
        return Err(pos);
    }
    let p2 = digits_end_at(src, p1 + 1);
    let end = if src.is_at(p2, 'E') {
        let p3 = behind_sign_at(src, p2 + 1);
        let p4 = digits_end_at(src, p3);
        if p3 < p4 {
            p4
        } else {
            p2
        }
    } else {
        p2
    };
    Ok((src.slice(pos, end).to_owned(), end))
}

/// Where the string ends whose opening apostrophe stands just before `pos`.
fn string_end_at(src: &Source, pos: usize) -> (r: Option<usize>)
    requires
        pos <= src@.len(),
    ensures
        match string_end(src@, pos as int) {
            Some(close) => r matches Some(x) && x == close && pos <= close < src@.len(),
            None => r is None,
        },
{
    let n = src.len();
    let mut i = pos;
    while i < n
        invariant
            pos <= i <= n,
            n == src@.len(),
            string_end(src@, pos as int) == string_end(src@, i as int),
        decreases n - i,
    {
        if src.at(i) == '\'' {
            if src.is_at(i + 1, '\'') {
                i += 2;
            } else {
                return Some(i);
            }
        } else {
            i += 1;
        }
    }
    None
}

/// The text from `from` up to `to`, each pair of apostrophes read as one.
fn unquote(src: &Source, from: usize, to: usize) -> (r: String)
    requires
        from <= to <= src@.len(),
    ensures
        r@ == unquoted(src@, from as int, to as int),
{
    let mut out = String::new();
    let mut seg = from;
    let mut i = from;
    proof {
        assert(src@.subrange(seg as int, i as int) =~= Seq::<char>::empty());
        assert(out@ + unquoted(src@, seg as int, to as int) =~= unquoted(
            src@,
            from as int,
            to as int,
        ));
        assert(Seq::<char>::empty() + unquoted(src@, i as int, to as int) =~= unquoted(
            src@,
            i as int,
            to as int,
        ));
    }
    while i < to
        invariant
            from <= seg <= i <= to <= src@.len(),
            unquoted(src@, seg as int, to as int) == src@.subrange(seg as int, i as int)
                + unquoted(src@, i as int, to as int),
            unquoted(src@, from as int, to as int) == out@ + unquoted(src@, seg as int, to as int),
        decreases to - i,
    {
        let ghost rest = unquoted(src@, i as int, to as int);
        if src.at(i) == '\'' && to - i >= 2 && src.at(i + 1) == '\'' {
            let ghost before = out@;
            out.append(src.slice(seg, i + 1));
            proof {
                let next = unquoted(src@, i + 2, to as int);
                assert(rest == seq!['\''] + next);
                assert(src@.subrange(seg as int, i + 1) =~= src@.subrange(seg as int, i as int)
                    + seq!['\'']);
                assert(before + (src@.subrange(seg as int, i as int) + (seq!['\''] + next))
                    =~= (before + src@.subrange(seg as int, i + 1)) + next);
                assert(src@.subrange(i + 2, i + 2) + next =~= next);
            }
            seg = i + 2;
            i = i + 2;
        } else {
            proof {
                let next = unquoted(src@, i + 1, to as int);
                assert(rest == seq![src@[i as int]] + next);
                assert(src@.subrange(seg as int, i as int) + (seq![src@[i as int]] + next)
                    =~= src@.subrange(seg as int, i + 1) + next);
            }
            i += 1;
        }
    }
    proof {
        assert(unquoted(src@, to as int, to as int) =~= Seq::<char>::empty());
        assert(src@.subrange(seg as int, to as int) + Seq::<char>::empty() =~= src@.subrange(
            seg as int,
            to as int,
        ));
    }
    out.append(src.slice(seg, to));
    out
}

/// A string at `pos`.
fn string_at(src: &Source, pos: usize) -> (r: Result<(String, usize), usize>)
    requires
        pos <= src@.len(),
    ensures
        match spec_string(src@, pos as int) {
            Ok((v, end)) => r matches Ok(x) && x.0@ == v && x.1 == end && pos < end <= src@.len(),
            Err(at) => r matches Err(e) && e == at,
        },
{
    let n = src.len();
    if !src.is_at(pos, '\'') {
        return Err(pos);
    }
    match string_end_at(src, pos + 1) {
        Some(close) => Ok((unquote(src, pos + 1, close), close + 1)),
        None => Err(pos),
    }
}

/// A name in capitals at `pos`.
fn name_at(src: &Source, pos: usize) -> (r: Option<usize>)
    requires
        pos <= src@.len(),
    ensures
        match spec_name(src@, pos as int) {
            Ok((name, end)) => r matches Some(x) && x == end && pos < end <= src@.len() && name
                == src@.subrange(pos as int, end),
            Err(_) => r is None,
        },
{
    let n = src.len();
    if !(pos < n && is_upper_exec(src.at(pos))) {
        return None;
    }
    let mut i = pos + 1;
    while i < n && (is_upper_exec(src.at(i)) || is_digit_exec(src.at(i)))
        invariant
            pos < i <= n,
            n == src@.len(),
            name_end(src@, pos + 1) == name_end(src@, i as int),
        decreases n - i,
    {
        i += 1;
    }
    Some(i)
}

/// A keyword at `pos`.
fn keyword_at(src: &Source, pos: usize) -> (r: Result<(String, usize), usize>)
    requires
        pos <= src@.len(),
    ensures
        match spec_keyword(src@, pos as int) {
            Ok((v, end)) => r matches Ok(x) && x.0@ == v && x.1 == end && pos < end <= src@.len(),
            Err(at) => r matches Err(e) && e == at,
        },
{
    let start = if src.is_at(pos, '!') {
        pos + 1
    } else {
        pos
    };
    match name_at(src, start) {
        Some(end) => Ok((src.slice(pos, end).to_owned(), end)),
        None => Err(pos),
    }
}

/// An enumeration value at `pos`.
fn enumeration_at(src: &Source, pos: usize) -> (r: Result<(String, usize), usize>)
    requires
        pos <= src@.len(),
    ensures
        match spec_enumeration(src@, pos as int) {
            Ok((v, end)) => r matches Ok(x) && x.0@ == v && x.1 == end && pos < end <= src@.len(),
            Err(at) => r matches Err(e) && e == at,
        },
{
    if !src.is_at(pos, '.') {
        return Err(pos);
    }
    match name_at(src, pos + 1) {
        None => Err(pos),
        Some(end) => {
            if src.is_at(end, '.') {
                Ok((src.slice(pos + 1, end).to_owned(), end + 1))
            } else {
                Err(pos)
            }
        },
    }
}

/// A reference at `pos`.
fn rvalue_at(src: &Source, pos: usize) -> (r: Result<(RValue, usize), usize>)
    requires
        pos <= src@.len(),
    ensures
        match spec_rvalue(src@, pos as int) {
            Ok((v, end)) => r matches Ok(x) && x.0@ == v && x.1 == end && pos < end <= src@.len(),
            Err(at) => r matches Err(e) && e == at,
        },
{
    let entity = src.is_at(pos, '#');
    if !entity && !src.is_at(pos, '@') {
        return Err(pos);
    }
    match number_at(src, pos + 1, 18446744073709551615) {
        Some((number, end)) => {
            if entity {
                Ok((RValue::Entity(number), end))
            } else {
                Ok((RValue::Value(number), end))
            }
        },
        None => match name_at(src, pos + 1) {
            Some(end) => {
                let name = src.slice(pos + 1, end).to_owned();
                if entity {
                    Ok((RValue::ConstantEntity(name), end))
                } else {
                    Ok((RValue::ConstantValue(name), end))
                }
            },
            None => Err(pos),
        },
    }
}

/// `{ , parameter }` at `pos`: puts the parameters behind `out`.
fn more_parameters_at(src: &Source, pos: usize, out: &mut Vec<Parameter>) -> (end: usize)
    requires
        pos <= src@.len(),
    ensures
        parameter_views(final(out)@, final(out)@.len()) == parameter_views(
            old(out)@,
            old(out)@.len(),
        ) + spec_more_parameters(src@, pos as int).0,
        end == spec_more_parameters(src@, pos as int).1,
        pos <= end <= src@.len(),
    decreases src@.len() - pos, 3int,
{
    let ghost before = parameter_views(out@, out@.len());
    proof {
        assert(before + Seq::<ParameterView>::empty() =~= before);
    }
    let p1 = gap_at(src, pos);
    if !src.is_at(p1, ',') {
        return pos;
    }
    let p2 = gap_at(src, p1 + 1);
    match parameter_at(src, p2) {
        Err(_) => pos,
        Ok((p, end)) => {
            let ghost pv = p@;
            let ghost old_out = out@;
            out.push(p);
            proof {
                lemma_parameter_views_push(old_out, p);
            }
            let last = more_parameters_at(src, end, out);
            proof {
                let rest = spec_more_parameters(src@, end as int).0;
                assert(before.push(pv) + rest =~= before + (seq![pv] + rest));
            }
            last
        },
    }
}

/// A list at `pos`.
fn list_at(src: &Source, pos: usize) -> (r: Result<(Parameter, usize), usize>)
    requires
        pos <= src@.len(),
    ensures
        match spec_list(src@, pos as int) {
            Ok((v, end)) => r matches Ok(x) && x.0@ == v && x.1 == end && pos < end <= src@.len(),
            Err(at) => r matches Err(e) && e == at,
        },
    decreases src@.len() - pos, 1int,
{
    if !src.is_at(pos, '(') {
        return Err(pos);
    }
    let p1 = gap_at(src, pos + 1);
    let mut items: Vec<Parameter> = Vec::new();
    proof {
        assert(parameter_views(items@, items@.len()) =~= Seq::<ParameterView>::empty());
    }
    let p2 = match parameter_at(src, p1) {
        Ok((first, end)) => {
            let ghost fv = first@;
            items.push(first);
            proof {
                lemma_parameter_views_push(Seq::<Parameter>::empty(), first);
                assert(Seq::<Parameter>::empty().push(first) =~= items@);
                assert(parameter_views(items@, items@.len()) =~= seq![fv]);
            }
            more_parameters_at(src, end, &mut items)
        },
        Err(_) => p1,
    };
    let p3 = gap_at(src, p2);
    if src.is_at(p3, ')') {
        Ok((Parameter::List(items), p3 + 1))
    } else {
        Err(p3)
    }
}

/// A typed parameter at `pos`.
fn typed_parameter_at(src: &Source, pos: usize) -> (r: Result<(Parameter, usize), usize>)
    requires
        pos <= src@.len(),
    ensures
        match spec_typed_parameter(src@, pos as int) {
            Ok((v, end)) => r matches Ok(x) && x.0@ == v && x.1 == end && pos < end <= src@.len(),
            Err(at) => r matches Err(e) && e == at,
        },
    decreases src@.len() - pos, 1int,
{
    match keyword_at(src, pos) {
        Err(at) => Err(at),
        Ok((name, p1)) => {
            let p2 = gap_at(src, p1);
            if !src.is_at(p2, '(') {
                return Err(p2);
            }
            let p3 = gap_at(src, p2 + 1);
            match parameter_at(src, p3) {
                Err(at) => Err(at),
                Ok((inner, p4)) => {
                    let p5 = gap_at(src, p4);
                    if src.is_at(p5, ')') {
                        Ok((Parameter::Typed { name, ty: Box::new(inner) }, p5 + 1))
                    } else {
                        Err(p5)
                    }
                },
            }
        },
    }
}

/// An untyped parameter at `pos`.
fn untyped_parameter_at(src: &Source, pos: usize) -> (r: Result<(Parameter, usize), usize>)
    requires
        pos <= src@.len(),
    ensures
        match spec_untyped_parameter(src@, pos as int) {
            Ok((v, end)) => r matches Ok(x) && x.0@ == v && x.1 == end && pos < end <= src@.len(),
            Err(at) => r matches Err(e) && e == at,
        },
    decreases src@.len() - pos, 2int,
{
    if src.is_at(pos, '$') {
        return Ok((Parameter::NotProvided, pos + 1));
    }
    if let Ok((x, end)) = real_at(src, pos) {
        return Ok((Parameter::Real(x), end));
    }
    if let Ok((i, end)) = integer_at(src, pos) {
        return Ok((Parameter::Integer(i), end));
    }
    if let Ok((s, end)) = string_at(src, pos) {
        return Ok((Parameter::String(s), end));
    }
    if let Ok((r, end)) = rvalue_at(src, pos) {
        return Ok((Parameter::RValue(r), end));
    }
    if let Ok((e, end)) = enumeration_at(src, pos) {
        return Ok((Parameter::Enumeration(e), end));
    }
    list_at(src, pos)
}

/// A parameter at `pos`.
fn parameter_at(src: &Source, pos: usize) -> (r: Result<(Parameter, usize), usize>)
    requires
        pos <= src@.len(),
    ensures
        match spec_parameter(src@, pos as int) {
            Ok((v, end)) => r matches Ok(x) && x.0@ == v && x.1 == end && pos < end <= src@.len(),
            Err(at) => r matches Err(e) && e == at,
        },
    decreases src@.len() - pos, 4int,
{
    match typed_parameter_at(src, pos) {
        Ok(x) => Ok(x),
        Err(_) => match untyped_parameter_at(src, pos) {
            Ok(x) => Ok(x),
            Err(_) => {
                if src.is_at(pos, '*') {
                    Ok((Parameter::Omitted, pos + 1))
                } else {
                    Err(pos)
                }
            },
        },
    }
}

/// What a parser returns: the text that is left and the value; or where
/// the text fails to match.
pub type ParseResult<'a, T> = Result<(&'a str, T), TokenizeFailed>;

/// list = `(` \[ [parameter] { `,` [parameter] } \] `)` .
pub fn list<'a>(input: &'a str) -> (r: ParseResult<'a, Parameter>)
    ensures
        match spec_list(input@, 0) {
            Ok((v, end)) => r matches Ok((rest, value)) && rest@ == input@.skip(end) && value@
                == v,
            Err(at) => r matches Err(e) && e.offset == at,
        },
{
    let src = Source::new(input);
    match list_at(&src, 0) {
        Ok((value, end)) => Ok((src.rest(end), value)),
        Err(at) => Err(TokenizeFailed { offset: at }),
    }
}

/// parameter = [typed_parameter] | [untyped_parameter] | [omitted_parameter] .
pub fn parameter<'a>(input: &'a str) -> (r: ParseResult<'a, Parameter>)
    ensures
        match spec_parameter(input@, 0) {
            Ok((v, end)) => r matches Ok((rest, value)) && rest@ == input@.skip(end) && value@
                == v,
            Err(at) => r matches Err(e) && e.offset == at,
        },
{
    let src = Source::new(input);
    match parameter_at(&src, 0) {
        Ok((value, end)) => Ok((src.rest(end), value)),
        Err(at) => Err(TokenizeFailed { offset: at }),
    }
}

/// typed_parameter = [keyword] `(` [parameter] `)` .
pub fn typed_parameter<'a>(input: &'a str) -> (r: ParseResult<'a, Parameter>)
    ensures
        match spec_typed_parameter(input@, 0) {
            Ok((v, end)) => r matches Ok((rest, value)) && rest@ == input@.skip(end) && value@
                == v,
            Err(at) => r matches Err(e) && e.offset == at,
        },
{
    let src = Source::new(input);
    match typed_parameter_at(&src, 0) {
        Ok((value, end)) => Ok((src.rest(end), value)),
        Err(at) => Err(TokenizeFailed { offset: at }),
    }
}

/// untyped_parameter = `$` | [integer] | [real] | [string] | [rhs_occurrence_name] | [enumeration] | binary | [list] .
pub fn untyped_parameter<'a>(input: &'a str) -> (r: ParseResult<'a, Parameter>)
    ensures
        match spec_untyped_parameter(input@, 0) {
            Ok((v, end)) => r matches Ok((rest, value)) && rest@ == input@.skip(end) && value@
                == v,
            Err(at) => r matches Err(e) && e.offset == at,
        },
{
    let src = Source::new(input);
    match untyped_parameter_at(&src, 0) {
        Ok((value, end)) => Ok((src.rest(end), value)),
        Err(at) => Err(TokenizeFailed { offset: at }),
    }
}

/// omitted_parameter = `*` .
pub fn omitted_parameter<'a>(input: &'a str) -> (r: ParseResult<'a, Parameter>)
    ensures
        match r {
            Ok((rest, value)) => is_at(input@, 0, '*') && rest@ == input@.skip(1) && value@
                == ParameterView::Omitted,
            Err(e) => !is_at(input@, 0, '*') && e.offset == 0,
        },
{
    let src = Source::new(input);
    if src.is_at(0, '*') {
        Ok((src.rest(1), Parameter::Omitted))
    } else {
        Err(TokenizeFailed { offset: 0 })
    }
}

/// parameter_list = [parameter] { `,` [parameter] } .
pub fn parameter_list<'a>(input: &'a str) -> (r: ParseResult<'a, Vec<Parameter>>)
    ensures
        match spec_parameter_list(input@, 0) {
            Ok((v, end)) => r matches Ok((rest, value)) && rest@ == input@.skip(end)
                && parameter_views(value@, value@.len()) == v,
            Err(at) => r matches Err(e) && e.offset == at,
        },
{
    let src = Source::new(input);
    match parameter_at(&src, 0) {
        Err(at) => Err(TokenizeFailed { offset: at }),
        Ok((first, end)) => {
            let ghost fv = first@;
            let mut items: Vec<Parameter> = Vec::new();
            items.push(first);
            proof {
                lemma_parameter_views_push(Seq::<Parameter>::empty(), first);
                assert(Seq::<Parameter>::empty().push(first) =~= items@);
                assert(parameter_views(items@, items@.len()) =~= seq![fv]);
            }
            let last = more_parameters_at(&src, end, &mut items);
            Ok((src.rest(last), items))
        },
    }
}

} // verus!
