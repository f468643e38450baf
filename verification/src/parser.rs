//! Tokenizer for the EXPRESS language.
//!
//! Every production of the grammar is laid down as a function from the
//! text and a position in it to what the production yields there and
//! where it ends, or to the position at which it fails. The parsers are
//! proved to compute exactly that.
//!
//! Identifiers are written in lower case and keywords in upper case.
//! Between the tokens of a production any run of blanks and remarks may
//! stand; the remarks are handed out beside the value.

pub mod algorithm;
pub mod declaration;
pub mod entity;
pub mod schema;
pub mod subsuper;
pub mod types;

pub use self::algorithm::formal_parameter;
pub use self::algorithm::function_head;
pub use self::algorithm::procedure_head;
pub use self::declaration::declaration;
pub use self::declaration::entity_decl;
pub use self::declaration::schema_body;
pub use self::declaration::schema_decl;
pub use self::declaration::type_decl;
pub use self::schema::interface_specification;
pub use self::schema::named_type_or_rename;
pub use self::schema::reference_clause;
pub use self::schema::resource_or_rename;
pub use self::schema::rule_head;
pub use self::schema::use_clause;
pub use self::types::instantiable_type;

use crate::ast::Remark;
use crate::ast::Span;
use vstd::prelude::*;
use vstd::string::StrSliceExecFns;

verus! {

/// Why a text is not what a parser expects: the number of characters
/// before the place where no token of the production could go on.
#[derive(Debug, Clone, Copy, PartialEq, Eq, Hash, Structural)]
pub struct TokenizeFailed {
    pub offset: usize,
}

/// What a parser returns: the text that is left, the value, and the
/// remarks in the text that was read; or where the text fails to match.
pub type ParseResult<'a, T> = Result<(&'a str, (T, Vec<Remark>)), TokenizeFailed>;

/// 128 letter = `a` | `b` | .. | `z` .
pub open spec fn is_letter(c: char) -> bool {
    'a' <= c && c <= 'z'
}

/// 124 digit = `0` | `1` | .. | `9` .
pub open spec fn is_digit(c: char) -> bool {
    '0' <= c && c <= '9'
}

/// What may follow the first letter of an identifier.
pub open spec fn is_id_char(c: char) -> bool {
    is_letter(c) || is_digit(c) || c == '_'
}

/// A blank: space, tab, line feed or carriage return.
pub open spec fn is_blank(c: char) -> bool {
    c == ' ' || c == '\t' || c == '\n' || c == '\r'
}

/// The characters `a` and `b` stand at `pos` and after it.
pub open spec fn pair_at(s: Seq<char>, pos: int, a: char, b: char) -> bool {
    0 <= pos && pos + 1 < s.len() && s[pos] == a && s[pos + 1] == b
}

/// `word` stands at `pos`.
pub open spec fn word_at(s: Seq<char>, pos: int, word: Seq<char>) -> bool {
    0 <= pos && pos + word.len() <= s.len() && s.subrange(pos, pos + word.len()) == word
}

/// Where the run of identifier characters from `pos` on ends.
pub open spec fn id_end(s: Seq<char>, pos: int) -> int
    decreases s.len() - pos,
{
    if 0 <= pos < s.len() && is_id_char(s[pos]) {
        id_end(s, pos + 1)
    } else {
        pos
    }
}

/// 143 simple_id = letter { letter | digit | `_` } .
///
/// The identifier at `pos` and where it ends.
pub open spec fn spec_simple_id(s: Seq<char>, pos: int) -> Result<(Seq<char>, int), int> {
    if 0 <= pos < s.len() && is_letter(s[pos]) {
        Ok((s.subrange(pos, id_end(s, pos + 1)), id_end(s, pos + 1)))
    } else {
        Err(pos)
    }
}

/// A remark as plain values.
pub struct RemarkView {
    pub tag: Option<Seq<Seq<char>>>,
    pub remark: Seq<char>,
}

/// The names of a sequence as plain values.
pub open spec fn name_views(s: Seq<String>) -> Seq<Seq<char>> {
    s.map_values(|n: String| n@)
}

impl View for Remark {
    type V = RemarkView;

    open spec fn view(&self) -> RemarkView {
        RemarkView {
            tag: match self.tag {
                Some(names) => Some(name_views(names@)),
                None => None,
            },
            remark: self.remark@,
        }
    }
}

/// The remarks of a sequence as plain values.
pub open spec fn remark_views(s: Seq<Remark>) -> Seq<RemarkView> {
    s.map_values(|r: Remark| r@)
}

/// Where the embedded remark ends that was opened `depth` times before
/// `pos`: behind the `*)` that closes the outermost `(*`. Embedded remarks
/// nest. `None` if the text ends first.
pub open spec fn embedded_end(s: Seq<char>, pos: int, depth: nat) -> Option<int>
    decreases s.len() - pos,
{
    if pos < 0 || pos >= s.len() {
        None
    } else if pair_at(s, pos, '(', '*') {
        embedded_end(s, pos + 2, depth + 1)
    } else if pair_at(s, pos, '*', ')') {
        if depth <= 1 {
            Some(pos + 2)
        } else {
            embedded_end(s, pos + 2, (depth - 1) as nat)
        }
    } else {
        embedded_end(s, pos + 1, depth)
    }
}

/// Where the line that holds `pos` ends: at the next line feed, or at the
/// end of the text.
pub open spec fn line_end(s: Seq<char>, pos: int) -> int
    decreases s.len() - pos,
{
    if 0 <= pos < s.len() && s[pos] != '\n' {
        line_end(s, pos + 1)
    } else {
        pos
    }
}

/// The names of a remark tag from `pos` on, and where the closing quote
/// stands: identifiers with `.` between them, then `"`.
pub open spec fn tag_names(s: Seq<char>, pos: int, limit: int) -> Option<(Seq<Seq<char>>, int)>
    decreases s.len() - pos,
{
    match spec_simple_id(s, pos) {
        Err(_) => None,
        Ok((name, end)) => if end <= pos || end >= limit || end >= s.len() {
            None
        } else if s[end] == '"' {
            Some((seq![name], end))
        } else if s[end] == '.' {
            match tag_names(s, end + 1, limit) {
                Some((names, close)) => Some((seq![name] + names, close)),
                None => None,
            }
        } else {
            None
        },
    }
}

/// The remark whose text stands from `from` up to `to`: a tag in double
/// quotes at its start is taken off and split into its names.
pub open spec fn remark_of(s: Seq<char>, from: int, to: int) -> RemarkView {
    if from < to && s[from] == '"' && tag_names(s, from + 1, to) is Some {
        let (names, close) = tag_names(s, from + 1, to)->0;
        RemarkView { tag: Some(names), remark: s.subrange(close + 1, to) }
    } else {
        RemarkView { tag: None, remark: s.subrange(from, to) }
    }
}

/// The remark that starts at `pos` and where it ends: an embedded remark
/// `(* ... *)`, or a tail remark `-- ...` up to the end of the line.
pub open spec fn spec_remark(s: Seq<char>, pos: int) -> Option<(RemarkView, int)> {
    if pair_at(s, pos, '(', '*') {
        match embedded_end(s, pos + 2, 1) {
            Some(end) => Some((remark_of(s, pos + 2, end - 2), end)),
            None => None,
        }
    } else if pair_at(s, pos, '-', '-') {
        let stop = line_end(s, pos + 2);
        Some(
            (
                remark_of(s, pos + 2, stop),
                if stop < s.len() {
                    stop + 1
                } else {
                    stop
                },
            ),
        )
    } else {
        None
    }
}

/// The remarks in the run of blanks and remarks from `pos` on, and where
/// the run ends.
pub open spec fn spec_spaces(s: Seq<char>, pos: int) -> (Seq<RemarkView>, int)
    decreases s.len() - pos,
{
    if 0 <= pos < s.len() && is_blank(s[pos]) {
        spec_spaces(s, pos + 1)
    } else {
        match spec_remark(s, pos) {
            Some((remark, end)) => if pos < end <= s.len() {
                (seq![remark] + spec_spaces(s, end).0, spec_spaces(s, end).1)
            } else {
                (Seq::empty(), pos)
            },
            None => (Seq::empty(), pos),
        }
    }
}

/// An embedded remark ends within the text, behind its `*)`.
pub proof fn lemma_embedded_end(s: Seq<char>, pos: int, depth: nat)
    requires
        0 <= pos,
    ensures
        embedded_end(s, pos, depth) is Some ==> pos + 2 <= embedded_end(s, pos, depth)->0
            <= s.len(),
    decreases s.len() - pos,
{
    if pos < s.len() {
        if pair_at(s, pos, '(', '*') {
            lemma_embedded_end(s, pos + 2, depth + 1);
        } else if pair_at(s, pos, '*', ')') {
            if depth > 1 {
                lemma_embedded_end(s, pos + 2, (depth - 1) as nat);
            }
        } else {
            lemma_embedded_end(s, pos + 1, depth);
        }
    }
}

/// A text laid out for parsing: its characters, each at hand by its position.
pub struct Source<'a> {
    text: &'a str,
    chars: Vec<char>,
}

impl<'a> View for Source<'a> {
    type V = Seq<char>;

    closed spec fn view(&self) -> Seq<char> {
        self.text@
    }
}

impl<'a> Source<'a> {
    #[verifier::type_invariant]
    spec fn chars_are_text(&self) -> bool {
        self.chars@ == self.text@
    }

    /// Lays out `text`.
    pub fn new(text: &'a str) -> (r: Self)
        ensures
            r@ == text@,
    {
        let mut chars: Vec<char> = Vec::new();
        for c in it: text.chars()
            invariant
                chars@ == it.seq().take(it.index()),
                it.seq() == text@,
        {
            chars.push(c);
        }
        proof {
            assert(chars@ =~= text@);
        }
        Source { text, chars }
    }

    /// The number of characters.
    pub fn len(&self) -> (r: usize)
        ensures
            r == self@.len(),
    {
        proof {
            use_type_invariant(self);
        }
        self.chars.len()
    }

    /// The character at `pos`.
    pub fn at(&self, pos: usize) -> (r: char)
        requires
            pos < self@.len(),
        ensures
            r == self@[pos as int],
    {
        proof {
            use_type_invariant(self);
        }
        self.chars[pos]
    }

    /// The text from `from` up to `to`.
    pub fn slice(&self, from: usize, to: usize) -> (r: &'a str)
        requires
            from <= to <= self@.len(),
        ensures
            r@ == self@.subrange(from as int, to as int),
    {
        self.text.substring_char(from, to)
    }

    /// The text from `from` on.
    pub fn rest(&self, from: usize) -> (r: &'a str)
        requires
            from <= self@.len(),
        ensures
            r@ == self@.skip(from as int),
    {
        let n = self.len();
        self.text.substring_char(from, n)
    }

    /// Whether the characters `a` and `b` stand at `pos` and after it.
    pub fn pair_at(&self, pos: usize, a: char, b: char) -> (r: bool)
        ensures
            r == pair_at(self@, pos as int, a, b),
    {
        let n = self.len();
        pos < n && n - pos >= 2 && self.at(pos) == a && self.at(pos + 1) == b
    }

    /// Whether `word` stands at `pos`.
    pub fn word_at(&self, pos: usize, word: &str) -> (r: bool)
        ensures
            r == word_at(self@, pos as int, word@),
    {
        let n = self.len();
        let m = word.unicode_len();
        if pos > n || n - pos < m {
            return false;
        }
        let mut i: usize = 0;
        while i < m
            invariant
                i <= m,
                m == word@.len(),
                n == self@.len(),
                pos + m <= n,
                forall|k: int| 0 <= k < i ==> self@[pos + k] == word@[k],
            decreases m - i,
        {
            if self.at(pos + i) != word.get_char(i) {
                proof {
                    assert(self@.subrange(pos as int, pos + m)[i as int] == self@[pos + i]);
                }
                return false;
            }
            i += 1;
        }
        proof {
            assert(self@.subrange(pos as int, pos + m) =~= word@);
        }
        true
    }

    /// Where the run of identifier characters from `pos` on ends.
    fn id_end(&self, pos: usize) -> (r: usize)
        requires
            pos <= self@.len(),
        ensures
            r == id_end(self@, pos as int),
            pos <= r <= self@.len(),
    {
        let n = self.len();
        let mut i = pos;
        while i < n && is_id_char_exec(self.at(i))
            invariant
                pos <= i <= n,
                n == self@.len(),
                id_end(self@, pos as int) == id_end(self@, i as int),
            decreases n - i,
        {
            i += 1;
        }
        i
    }

    /// The identifier at `pos` and where it ends, or `pos` if none starts there.
    pub fn simple_id_at(&self, pos: usize) -> (r: Result<(String, usize), usize>)
        ensures
            match spec_simple_id(self@, pos as int) {
                Ok((name, end)) => r is Ok && r->Ok_0.0@ == name && r->Ok_0.1 == end && pos < end
                    <= self@.len(),
                Err(at) => r == Err::<(String, usize), usize>(pos) && at == pos,
            },
    {
        if pos < self.len() && is_letter_exec(self.at(pos)) {
            let end = self.id_end(pos + 1);
            Ok((self.slice(pos, end).to_owned(), end))
        } else {
            Err(pos)
        }
    }
}

/// The views after a push are the views before it, and the view of what was pushed.
pub proof fn lemma_remark_views_push(a: Seq<Remark>, r: Remark)
    ensures
        remark_views(a.push(r)) == remark_views(a).push(r@),
{
    assert(remark_views(a.push(r)) =~= remark_views(a).push(r@));
}

/// The views of a concatenation are the concatenation of the views.
pub proof fn lemma_remark_views_add(a: Seq<Remark>, b: Seq<Remark>)
    ensures
        remark_views(a + b) == remark_views(a) + remark_views(b),
{
    assert(remark_views(a + b) =~= remark_views(a) + remark_views(b));
}

impl<'a> Source<'a> {
    /// Where the embedded remark ends whose `(*` stands just before `pos`.
    fn embedded_end(&self, pos: usize) -> (r: Option<usize>)
        requires
            pos <= self@.len(),
        ensures
            r is Some <==> embedded_end(self@, pos as int, 1) is Some,
            r is Some ==> r->0 == embedded_end(self@, pos as int, 1)->0 && pos + 2 <= r->0
                <= self@.len(),
    {
        let n = self.len();
        let mut i = pos;
        let mut depth: usize = 1;
        proof {
            lemma_embedded_end(self@, pos as int, 1);
        }
        loop
            invariant
                pos <= i <= n,
                n == self@.len(),
                1 <= depth <= 1 + i - pos,
                embedded_end(self@, pos as int, 1) == embedded_end(self@, i as int, depth as nat),
            decreases n - i,
        {
            if i >= n {
                return None;
            }
            if self.pair_at(i, '(', '*') {
                i += 2;
                depth += 1;
            } else if self.pair_at(i, '*', ')') {
                if depth == 1 {
                    return Some(i + 2);
                }
                i += 2;
                depth -= 1;
            } else {
                i += 1;
            }
        }
    }

    /// Where the line that holds `pos` ends.
    fn line_end(&self, pos: usize) -> (r: usize)
        requires
            pos <= self@.len(),
        ensures
            r == line_end(self@, pos as int),
            pos <= r <= self@.len(),
    {
        let n = self.len();
        let mut i = pos;
        while i < n && self.at(i) != '\n'
            invariant
                pos <= i <= n,
                n == self@.len(),
                line_end(self@, pos as int) == line_end(self@, i as int),
            decreases n - i,
        {
            i += 1;
        }
        i
    }

    /// The names of a remark tag from `pos` on, and where the closing quote stands.
    fn tag_names(&self, pos: usize, limit: usize) -> (r: Option<(Vec<String>, usize)>)
        requires
            pos <= self@.len(),
            limit <= self@.len(),
        ensures
            match tag_names(self@, pos as int, limit as int) {
                Some((names, close)) => r matches Some(v) && name_views(v.0@) == names && v.1
                    == close && pos < close < limit,
                None => r is None,
            },
        decreases self@.len() - pos,
    {
        match self.simple_id_at(pos) {
            Err(_) => None,
            Ok((name, end)) => {
                if end >= limit {
                    None
                } else if self.at(end) == '"' {
                    let mut names: Vec<String> = Vec::new();
                    names.push(name);
                    proof {
                        assert(name_views(names@) =~= seq![name@]);
                    }
                    Some((names, end))
                } else if self.at(end) == '.' {
                    match self.tag_names(end + 1, limit) {
                        Some((rest, close)) => {
                            let mut names = rest;
                            let ghost tail = names@;
                            names.insert(0, name);
                            proof {
                                assert(name_views(names@) =~= seq![name@] + name_views(tail));
                            }
                            Some((names, close))
                        },
                        None => None,
                    }
                } else {
                    None
                }
            },
        }
    }

    /// The remark whose text stands from `from` up to `to`.
    fn remark_of(&self, from: usize, to: usize) -> (r: Remark)
        requires
            from <= to <= self@.len(),
        ensures
            r@ == remark_of(self@, from as int, to as int),
    {
        if from < to && self.at(from) == '"' {
            match self.tag_names(from + 1, to) {
                Some((names, close)) => {
                    return Remark {
                        tag: Some(names),
                        remark: self.slice(close + 1, to).to_owned(),
                    };
                },
                None => {},
            }
        }
        Remark { tag: None, remark: self.slice(from, to).to_owned() }
    }

    /// The remark that starts at `pos` and where it ends.
    pub fn remark_at(&self, pos: usize) -> (r: Option<(Remark, usize)>)
        requires
            pos <= self@.len(),
        ensures
            match spec_remark(self@, pos as int) {
                Some((remark, end)) => r matches Some(v) && v.0@ == remark && v.1 == end && pos
                    + 2 <= end <= self@.len(),
                None => r is None,
            },
    {
        let n = self.len();
        if self.pair_at(pos, '(', '*') {
            match self.embedded_end(pos + 2) {
                Some(end) => Some((self.remark_of(pos + 2, end - 2), end)),
                None => None,
            }
        } else if self.pair_at(pos, '-', '-') {
            let stop = self.line_end(pos + 2);
            let remark = self.remark_of(pos + 2, stop);
            if stop < n {
                Some((remark, stop + 1))
            } else {
                Some((remark, stop))
            }
        } else {
            None
        }
    }

    /// Skips the run of blanks and remarks from `pos` on: the remarks in
    /// it and where it ends.
    pub fn spaces_at(&self, pos: usize) -> (r: (Vec<Remark>, usize))
        requires
            pos <= self@.len(),
        ensures
            remark_views(r.0@) == spec_spaces(self@, pos as int).0,
            r.1 == spec_spaces(self@, pos as int).1,
            pos <= r.1 <= self@.len(),
    {
        let n = self.len();
        let mut remarks: Vec<Remark> = Vec::new();
        let mut i = pos;
        proof {
            assert(remark_views(remarks@) =~= Seq::<RemarkView>::empty());
            assert(remark_views(remarks@) + spec_spaces(self@, pos as int).0 =~= spec_spaces(
                self@,
                pos as int,
            ).0);
        }
        loop
            invariant
                pos <= i <= n,
                n == self@.len(),
                spec_spaces(self@, pos as int).0 == remark_views(remarks@) + spec_spaces(
                    self@,
                    i as int,
                ).0,
                spec_spaces(self@, pos as int).1 == spec_spaces(self@, i as int).1,
            decreases n - i,
        {
            if i < n && is_blank_exec(self.at(i)) {
                i += 1;
            } else {
                match self.remark_at(i) {
                    Some((remark, end)) => {
                        let ghost before = remarks@;
                        let ghost view = remark@;
                        remarks.push(remark);
                        proof {
                            lemma_remark_views_push(before, remark);
                            assert(remark_views(before).push(view) + spec_spaces(
                                self@,
                                end as int,
                            ).0 =~= remark_views(before) + (seq![view] + spec_spaces(
                                self@,
                                end as int,
                            ).0));
                        }
                        i = end;
                    },
                    None => {
                        proof {
                            assert(remark_views(remarks@) + Seq::<RemarkView>::empty()
                                =~= remark_views(remarks@));
                        }
                        return (remarks, i);
                    },
                }
            }
        }
    }
}

/// Whether `c` is a lower-case letter.
pub fn is_letter_exec(c: char) -> (r: bool)
    ensures
        r == is_letter(c),
{
    'a' <= c && c <= 'z'
}

/// Whether `c` is a digit.
pub fn is_digit_exec(c: char) -> (r: bool)
    ensures
        r == is_digit(c),
{
    '0' <= c && c <= '9'
}

/// Whether `c` may follow the first letter of an identifier.
pub fn is_id_char_exec(c: char) -> (r: bool)
    ensures
        r == is_id_char(c),
{
    is_letter_exec(c) || is_digit_exec(c) || c == '_'
}

/// Whether `c` is a blank.
pub fn is_blank_exec(c: char) -> (r: bool)
    ensures
        r == is_blank(c),
{
    c == ' ' || c == '\t' || c == '\n' || c == '\r'
}

/// 128 letter = `a` | `b` | `c` | `d` | `e` | `f` | `g` | `h` | `i` | `j` | `k` | `l` |`m` | `n` | `o` | `p` | `q` | `r` | `s` | `t` | `u` | `v` | `w` | `x` |`y` | `z` .
///
/// The letter at the start of `input` and the text after it; fails at
/// offset 0 where `input` is empty or starts otherwise.
pub fn letter<'a>(input: &'a str) -> (r: Result<(&'a str, char), TokenizeFailed>)
    ensures
        match r {
            Ok((rest, c)) => input@.len() > 0 && is_letter(input@[0]) && c == input@[0] && rest@
                == input@.skip(1),
            Err(e) => !(input@.len() > 0 && is_letter(input@[0])) && e.offset == 0,
        },
{
    let src = Source::new(input);
    if src.len() > 0 && is_letter_exec(src.at(0)) {
        Ok((src.rest(1), src.at(0)))
    } else {
        Err(TokenizeFailed { offset: 0 })
    }
}

/// 124 digit = `0` | `1` | `2` | `3` | `4` | `5` | `6` | `7` | `8` | `9` .
///
/// The digit at the start of `input` and the text after it; fails at
/// offset 0 where `input` is empty or starts otherwise.
pub fn digit<'a>(input: &'a str) -> (r: Result<(&'a str, char), TokenizeFailed>)
    ensures
        match r {
            Ok((rest, c)) => input@.len() > 0 && is_digit(input@[0]) && c == input@[0] && rest@
                == input@.skip(1),
            Err(e) => !(input@.len() > 0 && is_digit(input@[0])) && e.offset == 0,
        },
{
    let src = Source::new(input);
    if src.len() > 0 && is_digit_exec(src.at(0)) {
        Ok((src.rest(1), src.at(0)))
    } else {
        Err(TokenizeFailed { offset: 0 })
    }
}

/// 143 simple_id = letter { letter | digit | `_` } .
///
/// The identifier at the start of `input`, as long as it goes, and the
/// text after it; fails at offset 0 where `input` does not start with a
/// letter.
pub fn simple_id<'a>(input: &'a str) -> (r: Result<(&'a str, String), TokenizeFailed>)
    ensures
        match spec_simple_id(input@, 0) {
            Ok((name, end)) => r matches Ok(v) && v.0@ == input@.skip(end) && v.1@ == name,
            Err(at) => r == Err::<(&'a str, String), TokenizeFailed>(TokenizeFailed { offset: 0 }),
        },
{
    let src = Source::new(input);
    match src.simple_id_at(0) {
        Ok((name, end)) => Ok((src.rest(end), name)),
        Err(at) => Err(TokenizeFailed { offset: at }),
    }
}

/// What a parser hands out: the text that is left, the value, and the
/// remarks found between its tokens.
pub fn finished<'a, T>(src: &Source<'a>, parsed: Result<(T, Vec<Remark>, usize), usize>) -> (r:
    Result<(&'a str, (T, Vec<Remark>)), TokenizeFailed>)
    requires
        parsed matches Ok(v) ==> v.2 <= src@.len(),
    ensures
        match parsed {
            Ok((value, remarks, end)) => r matches Ok(v) && v.0@ == src@.skip(end as int) && v.1
                == (value, remarks),
            Err(at) => r == Err::<(&'a str, (T, Vec<Remark>)), TokenizeFailed>(
                TokenizeFailed { offset: at },
            ),
        },
{
    match parsed {
        Ok((value, remarks, end)) => Ok((src.rest(end), (value, remarks))),
        Err(at) => Err(TokenizeFailed { offset: at }),
    }
}

/// Puts the remarks `more` behind `remarks`.
pub fn extend_remarks(remarks: &mut Vec<Remark>, more: Vec<Remark>)
    ensures
        remark_views(final(remarks)@) == remark_views(old(remarks)@) + remark_views(more@),
{
    let mut more = more;
    let ghost a = remarks@;
    let ghost b = more@;
    remarks.append(&mut more);
    proof {
        lemma_remark_views_add(a, b);
    }
}

/// Where the run of blanks and remarks from `pos` on ends.
pub open spec fn sp(s: Seq<char>, pos: int) -> int {
    spec_spaces(s, pos).1
}

/// The character `c` stands at `pos`.
pub open spec fn is_at(s: Seq<char>, pos: int, c: char) -> bool {
    0 <= pos < s.len() && s[pos] == c
}

/// The range from `start` up to `end`.
pub open spec fn span(start: int, end: int) -> Span {
    Span { start: start as usize, end: end as usize }
}

/// The remarks that stand in the text from `pos` up to `end`, found by
/// reading it from left to right: where a remark starts, it is taken and
/// reading goes on behind it.
pub open spec fn remarks_in(s: Seq<char>, pos: int, end: int) -> Seq<RemarkView>
    decreases end - pos,
{
    if pos >= end {
        Seq::empty()
    } else {
        match spec_remark(s, pos) {
            Some((remark, after)) => if pos < after <= end {
                seq![remark] + remarks_in(s, after, end)
            } else {
                remarks_in(s, pos + 1, end)
            },
            None => remarks_in(s, pos + 1, end),
        }
    }
}

impl<'a> Source<'a> {
    /// Where the run of blanks and remarks from `pos` on ends.
    pub fn skip(&self, pos: usize) -> (r: usize)
        requires
            pos <= self@.len(),
        ensures
            r == sp(self@, pos as int),
            pos <= r <= self@.len(),
    {
        self.spaces_at(pos).1
    }

    /// Whether the character `c` stands at `pos`.
    pub fn is_at(&self, pos: usize, c: char) -> (r: bool)
        ensures
            r == is_at(self@, pos as int, c),
            r ==> pos < usize::MAX,
    {
        pos < self.len() && self.at(pos) == c
    }

    /// Where `word` ends if it stands at `pos`.
    pub fn keyword(&self, pos: usize, word: &str) -> (r: Option<usize>)
        ensures
            r is Some <==> word_at(self@, pos as int, word@),
            r is Some ==> r->0 == pos + word@.len() && r->0 <= self@.len(),
    {
        if self.word_at(pos, word) {
            let n = self.len();
            Some(pos + word.unicode_len())
        } else {
            None
        }
    }

    /// The remarks that stand in the text from `pos` up to `end`.
    pub fn remarks_in(&self, pos: usize, end: usize) -> (r: Vec<Remark>)
        requires
            pos <= end <= self@.len(),
        ensures
            remark_views(r@) == remarks_in(self@, pos as int, end as int),
    {
        let mut out: Vec<Remark> = Vec::new();
        let mut i = pos;
        proof {
            assert(remark_views(out@) =~= Seq::<RemarkView>::empty());
            assert(remark_views(out@) + remarks_in(self@, pos as int, end as int) =~= remarks_in(
                self@,
                pos as int,
                end as int,
            ));
        }
        while i < end
            invariant
                pos <= i <= end <= self@.len(),
                remarks_in(self@, pos as int, end as int) == remark_views(out@) + remarks_in(
                    self@,
                    i as int,
                    end as int,
                ),
            decreases end - i,
        {
            match self.remark_at(i) {
                Some((remark, after)) => {
                    if after <= end {
                        let ghost before = out@;
                        let ghost view = remark@;
                        out.push(remark);
                        proof {
                            lemma_remark_views_push(before, remark);
                            assert(remark_views(before).push(view) + remarks_in(
                                self@,
                                after as int,
                                end as int,
                            ) =~= remark_views(before) + (seq![view] + remarks_in(
                                self@,
                                after as int,
                                end as int,
                            )));
                        }
                        i = after;
                    } else {
                        i += 1;
                    }
                },
                None => {
                    i += 1;
                },
            }
        }
        proof {
            assert(remark_views(out@) + Seq::<RemarkView>::empty() =~= remark_views(out@));
        }
        out
    }
}

} // verus!
