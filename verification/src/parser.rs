//! The parser: from raw text to a [`crate::types::File`].
//!
//! The grammar, pinned down precisely:
//!
//! - Spaces, tabs and carriage returns separate tokens within a line; the
//!   line break additionally ends a settings line.
//! - A bare token is a non-empty run of characters other than whitespace,
//!   braces and the double quote. A quoted string is `"` followed by any
//!   characters other than `"`, then a closing `"`; there are no escape
//!   sequences.
//! - A document is one top-level pair — a name token followed, on the same
//!   line, by a brace-delimited object — then exactly three trailing lines,
//!   then only whitespace up to the end of input. A trailing line starts at
//!   the first non-whitespace character and runs to the end of its line,
//!   taken verbatim.
//! - An object body is a possibly-empty sequence of pairs between `{` and
//!   `}`. Each pair sits on one line and ends at the line break, at the `}`
//!   closing its object, or at the end of input:
//!   - one bare token alone is a bare key;
//!   - one bare token followed by a value is a key with that value;
//!   - two bare tokens followed by a nested object are a category name and
//!     an instance name with that object;
//!   - two bare tokens with anything else after them, and any longer run of
//!     tokens, fail to parse.
//! - A value is a nested object, a quoted string, or a bare token, the
//!   latter classified as the literals `true`, `false` and `null`, a
//!   reserved keyword (rendered quoted on output), or an unquoted scalar.
//!   The reserved vocabulary is closed and consists of `enable` and
//!   `disable`.
//!
//! [`spec_parse_file`] is the grammar's meaning: the whole contract of
//! [`parse_file`] is that it returns `Ok` exactly on the inputs where
//! `spec_parse_file` yields a model, and that the parsed tree's model is
//! that one.

use vstd::prelude::*;
use vstd::string::StrSliceExecFns;

use crate::types::{
    EntryModel, File, FileModel, ObjectValue, Value, ValueModel, entries_models, false_chars,
    lines_models, null_chars, true_chars,
};

verus! {

broadcast use vstd::std_specs::vec::group_vec_axioms, vstd::seq::group_seq_axioms;

/// Whitespace that may separate tokens within a line.
pub open spec fn is_inline_space(c: char) -> bool {
    c == ' ' || c == '\t' || c == '\r'
}

/// Whitespace, including the line break.
pub open spec fn is_space(c: char) -> bool {
    is_inline_space(c) || c == '\n'
}

/// A character that may stand in a bare (unquoted) token: anything but
/// whitespace, braces and the double quote.
pub open spec fn is_token_char(c: char) -> bool {
    !is_space(c) && c != '{' && c != '}' && c != '"'
}

/// The characters of the reserved keyword `enable`.
pub open spec fn enable_chars() -> Seq<char> {
    seq!['e', 'n', 'a', 'b', 'l', 'e']
}

/// The characters of the reserved keyword `disable`.
pub open spec fn disable_chars() -> Seq<char> {
    seq!['d', 'i', 's', 'a', 'b', 'l', 'e']
}

/// The closed vocabulary of reserved keywords: bare tokens that parse to a
/// quoted string, so that the serializer renders them quoted.
pub open spec fn is_keyword(t: Seq<char>) -> bool {
    t == enable_chars() || t == disable_chars()
}

/// The first position at or after `i` that does not hold whitespace.
pub open spec fn spec_skip_ws(s: Seq<char>, i: int) -> int
    decreases s.len() - i,
{
    if i < s.len() && 0 <= i && is_space(s[i]) {
        spec_skip_ws(s, i + 1)
    } else {
        i
    }
}

/// The first position at or after `i` that does not hold inline whitespace.
pub open spec fn spec_skip_inline(s: Seq<char>, i: int) -> int
    decreases s.len() - i,
{
    if i < s.len() && 0 <= i && is_inline_space(s[i]) {
        spec_skip_inline(s, i + 1)
    } else {
        i
    }
}

/// The end of the bare token starting at `i`: the first position at or
/// after `i` that does not hold a token character.
pub open spec fn spec_scan_token(s: Seq<char>, i: int) -> int
    decreases s.len() - i,
{
    if i < s.len() && 0 <= i && is_token_char(s[i]) {
        spec_scan_token(s, i + 1)
    } else {
        i
    }
}

/// The end of the line starting at `i`: the first position at or after `i`
/// that holds a line break, or the end of input.
pub open spec fn spec_scan_line(s: Seq<char>, i: int) -> int
    decreases s.len() - i,
{
    if i < s.len() && 0 <= i && s[i] != '\n' {
        spec_scan_line(s, i + 1)
    } else {
        i
    }
}

/// The position just after the quote closing a quoted string whose contents
/// start at `i`, or nothing if the string is never closed.
pub open spec fn spec_scan_quoted(s: Seq<char>, i: int) -> Option<int>
    decreases s.len() - i,
{
    if i >= s.len() || i < 0 {
        None
    } else if s[i] == '"' {
        Some(i + 1)
    } else {
        spec_scan_quoted(s, i + 1)
    }
}

/// The value a bare token stands for: the boolean literals, the null
/// literal, a reserved keyword (a quoted string on output), or an unquoted
/// scalar.
pub open spec fn spec_classify_bare(t: Seq<char>) -> ValueModel {
    if t == true_chars() {
        ValueModel::Boolean(true)
    } else if t == false_chars() {
        ValueModel::Boolean(false)
    } else if t == null_chars() {
        ValueModel::Null
    } else if is_keyword(t) {
        ValueModel::Quoted(t)
    } else {
        ValueModel::Unquoted(t)
    }
}

/// Whether a pair ending at `i` is properly terminated: only inline
/// whitespace up to a line break, the `}` closing its object, or the end of
/// input.
pub open spec fn spec_at_pair_end(s: Seq<char>, i: int) -> bool {
    let j = spec_skip_inline(s, i);
    j >= s.len() || s[j] == '\n' || s[j] == '}'
}

/// Parse the value starting at position `i`: a nested object, a quoted
/// string, or a bare token. Yields the value's model and the position just
/// after it.
pub open spec fn spec_parse_value(s: Seq<char>, i: int) -> Option<(ValueModel, int)>
    decreases s.len() - i, 2int,
{
    if 0 <= i < s.len() && s[i] == '{' {
        let j = spec_skip_ws(s, i + 1);
        if i < j <= s.len() {
            match spec_parse_entries(s, j) {
                Some((entries, k)) => if k < s.len() && s[k] == '}' {
                    Some((ValueModel::Object(entries), k + 1))
                } else {
                    None
                },
                None => None,
            }
        } else {
            None
        }
    } else if 0 <= i < s.len() && s[i] == '"' {
        match spec_scan_quoted(s, i + 1) {
            Some(j) => if i + 1 <= j - 1 && j <= s.len() {
                Some((ValueModel::Quoted(s.subrange(i + 1, j - 1)), j))
            } else {
                None
            },
            None => None,
        }
    } else {
        let e = spec_scan_token(s, i);
        if i < e <= s.len() {
            Some((spec_classify_bare(s.subrange(i, e)), e))
        } else {
            None
        }
    }
}

/// Parse a run of pairs, starting at a position holding no whitespace, up
/// to the `}` closing the surrounding object or the end of input. Yields
/// the entries in source order and the position of the `}` or end.
pub open spec fn spec_parse_entries(s: Seq<char>, i: int) -> Option<(Seq<EntryModel>, int)>
    decreases s.len() - i, 1int,
{
    if i >= s.len() || (0 <= i && s[i] == '}') {
        Some((Seq::empty(), i))
    } else {
        match spec_parse_entry(s, i) {
            Some((e, j)) => {
                let j2 = spec_skip_ws(s, j);
                if i < j2 <= s.len() {
                    match spec_parse_entries(s, j2) {
                        Some((rest, k)) => Some((seq![e] + rest, k)),
                        None => None,
                    }
                } else {
                    None
                }
            },
            None => None,
        }
    }
}

/// Parse one pair starting at position `i`: one or two bare leading tokens
/// and an optional value, ending at a line break, at the `}` of its object,
/// or at the end of input. Yields the entry's model and the position just
/// after its last token.
pub open spec fn spec_parse_entry(s: Seq<char>, i: int) -> Option<(EntryModel, int)>
    decreases s.len() - i, 0int,
{
    let e1 = spec_scan_token(s, i);
    if !(i < e1 <= s.len()) {
        None
    } else {
        let name1 = s.subrange(i, e1);
        let j = spec_skip_inline(s, e1);
        if j >= s.len() || s[j] == '\n' || s[j] == '}' {
            Some((EntryModel::Key(name1), e1))
        } else if s[j] == '{' || s[j] == '"' {
            if i < j <= s.len() {
                match spec_parse_value(s, j) {
                    Some((v, k)) => if spec_at_pair_end(s, k) {
                        Some((EntryModel::KeyValue(name1, v), k))
                    } else {
                        None
                    },
                    None => None,
                }
            } else {
                None
            }
        } else {
            let e2 = spec_scan_token(s, j);
            if !(j < e2 <= s.len()) {
                None
            } else {
                let name2 = s.subrange(j, e2);
                let j2 = spec_skip_inline(s, e2);
                if j2 >= s.len() || s[j2] == '\n' || s[j2] == '}' {
                    Some((EntryModel::KeyValue(name1, spec_classify_bare(name2)), e2))
                } else if s[j2] == '{' && i < j2 <= s.len() {
                    match spec_parse_value(s, j2) {
                        Some((v, k)) => if spec_at_pair_end(s, k) {
                            Some((EntryModel::ObjectKeyValue(name1, name2, v), k))
                        } else {
                            None
                        },
                        None => None,
                    }
                } else {
                    None
                }
            }
        }
    }
}

/// Parse the fixed epilogue after position `k`: exactly three trailing
/// lines, then only whitespace up to the end of input.
pub open spec fn spec_parse_trailing(s: Seq<char>, k: int) -> Option<Seq<Seq<char>>> {
    let i1 = spec_skip_ws(s, k);
    if i1 >= s.len() {
        None
    } else {
        let f1 = spec_scan_line(s, i1);
        let i2 = spec_skip_ws(s, f1);
        if i2 >= s.len() {
            None
        } else {
            let f2 = spec_scan_line(s, i2);
            let i3 = spec_skip_ws(s, f2);
            if i3 >= s.len() {
                None
            } else {
                let f3 = spec_scan_line(s, i3);
                if spec_skip_ws(s, f3) == s.len() {
                    Some(seq![s.subrange(i1, f1), s.subrange(i2, f2), s.subrange(i3, f3)])
                } else {
                    None
                }
            }
        }
    }
}

/// Parse a whole document: a top-level name token followed on the same line
/// by an object, then exactly three trailing lines. The top-level pair is
/// wrapped as the single entry of the root object.
pub open spec fn spec_parse_file(s: Seq<char>) -> Option<FileModel> {
    let i0 = spec_skip_ws(s, 0);
    let e1 = spec_scan_token(s, i0);
    if !(i0 < e1 <= s.len()) {
        None
    } else {
        let name = s.subrange(i0, e1);
        let j = spec_skip_inline(s, e1);
        if j < s.len() && s[j] == '{' {
            match spec_parse_value(s, j) {
                Some((v, k)) => match spec_parse_trailing(s, k) {
                    Some(lines) => Some(
                        FileModel {
                            values: ValueModel::Object(seq![EntryModel::KeyValue(name, v)]),
                            trailing_lines: lines,
                        },
                    ),
                    None => None,
                },
                None => None,
            }
        } else {
            None
        }
    }
}

/// What the parser was looking for when it failed.
#[derive(Debug, Clone, Copy, PartialEq, Eq)]
pub enum ParseErrorKind {
    /// A bare name token was expected.
    ExpectedName,
    /// A value was expected.
    ExpectedValue,
    /// The `{` opening the top-level object was expected.
    ExpectedOpenBrace,
    /// The `}` closing an object was expected.
    ExpectedCloseBrace,
    /// A pair must end at a line break, at the `}` of its object, or at the
    /// end of input.
    ExpectedLineEnd,
    /// A quoted string was never closed.
    UnclosedString,
    /// One of the three trailing lines is missing.
    MissingTrailingLine,
    /// Text was found after the three trailing lines.
    UnexpectedTrailingText,
}

/// A structured parse error: the offending position (in characters from the
/// start of the input) and the production that was expected there. No
/// partial tree is ever returned alongside one.
#[derive(Debug, Clone, Copy, PartialEq, Eq)]
pub struct ParseError {
    /// The character position at which parsing failed.
    pub pos: usize,
    /// What was expected at that position.
    pub kind: ParseErrorKind,
}

impl ParseError {
    /// A human-readable description of the error.
    pub fn message(&self) -> (m: String)
        ensures
            m@.len() > 0,
    {
        let text = match self.kind {
            ParseErrorKind::ExpectedName => "expected a setting name",
            ParseErrorKind::ExpectedValue => "expected a value",
            ParseErrorKind::ExpectedOpenBrace => "expected an opening brace",
            ParseErrorKind::ExpectedCloseBrace => "expected a closing brace",
            ParseErrorKind::ExpectedLineEnd => "expected the end of the settings line",
            ParseErrorKind::UnclosedString => "a quoted string is never closed",
            ParseErrorKind::MissingTrailingLine => "expected three trailing lines",
            ParseErrorKind::UnexpectedTrailingText => "unexpected text after the trailing lines",
        };
        let m = text.to_owned();
        proof {
            reveal_strlit("expected a setting name");
            reveal_strlit("expected a value");
            reveal_strlit("expected an opening brace");
            reveal_strlit("expected a closing brace");
            reveal_strlit("expected the end of the settings line");
            reveal_strlit("a quoted string is never closed");
            reveal_strlit("expected three trailing lines");
            reveal_strlit("unexpected text after the trailing lines");
        }
        m
    }
}

/// Whether `c` is whitespace, including the line break.
fn space_char(c: char) -> (b: bool)
    ensures
        b == is_space(c),
{
    c == ' ' || c == '\t' || c == '\r' || c == '\n'
}

/// Whether `c` is whitespace other than the line break.
fn inline_space_char(c: char) -> (b: bool)
    ensures
        b == is_inline_space(c),
{
    c == ' ' || c == '\t' || c == '\r'
}

/// Whether `c` may stand in a bare token.
fn token_char(c: char) -> (b: bool)
    ensures
        b == is_token_char(c),
{
    !space_char(c) && c != '{' && c != '}' && c != '"'
}

/// Skip whitespace from `i` on.
fn skip_ws_from(s: &str, n: usize, i: usize) -> (r: usize)
    requires
        n == s@.len(),
        i <= n,
    ensures
        r as int == spec_skip_ws(s@, i as int),
        i <= r <= n,
{
    let mut j = i;
    while j < n && space_char(s.get_char(j))
        invariant
            n == s@.len(),
            i <= j <= n,
            spec_skip_ws(s@, i as int) == spec_skip_ws(s@, j as int),
        decreases n - j,
    {
        j = j + 1;
    }
    j
}

/// Skip inline whitespace from `i` on.
fn skip_inline_from(s: &str, n: usize, i: usize) -> (r: usize)
    requires
        n == s@.len(),
        i <= n,
    ensures
        r as int == spec_skip_inline(s@, i as int),
        i <= r <= n,
{
    let mut j = i;
    while j < n && inline_space_char(s.get_char(j))
        invariant
            n == s@.len(),
            i <= j <= n,
            spec_skip_inline(s@, i as int) == spec_skip_inline(s@, j as int),
        decreases n - j,
    {
        j = j + 1;
    }
    j
}

/// The end of the bare token starting at `i`.
fn token_end(s: &str, n: usize, i: usize) -> (r: usize)
    requires
        n == s@.len(),
        i <= n,
    ensures
        r as int == spec_scan_token(s@, i as int),
        i <= r <= n,
{
    let mut j = i;
    while j < n && token_char(s.get_char(j))
        invariant
            n == s@.len(),
            i <= j <= n,
            spec_scan_token(s@, i as int) == spec_scan_token(s@, j as int),
        decreases n - j,
    {
        j = j + 1;
    }
    j
}

/// The end of the line starting at `i`.
fn line_end(s: &str, n: usize, i: usize) -> (r: usize)
    requires
        n == s@.len(),
        i <= n,
    ensures
        r as int == spec_scan_line(s@, i as int),
        i <= r <= n,
{
    let mut j = i;
    while j < n && s.get_char(j) != '\n'
        invariant
            n == s@.len(),
            i <= j <= n,
            spec_scan_line(s@, i as int) == spec_scan_line(s@, j as int),
        decreases n - j,
    {
        j = j + 1;
    }
    j
}

/// The position just after the quote closing a quoted string whose contents
/// start at `i`, if any.
fn quoted_end(s: &str, n: usize, i: usize) -> (r: Option<usize>)
    requires
        n == s@.len(),
        i <= n,
    ensures
        match r {
            Some(j) => spec_scan_quoted(s@, i as int) == Some(j as int) && i < j <= n,
            None => spec_scan_quoted(s@, i as int) is None,
        },
{
    let mut j = i;
    while j < n && s.get_char(j) != '"'
        invariant
            n == s@.len(),
            i <= j <= n,
            spec_scan_quoted(s@, i as int) == spec_scan_quoted(s@, j as int),
        decreases n - j,
    {
        j = j + 1;
    }
    if j < n {
        Some(j + 1)
    } else {
        None
    }
}

/// Whether the pair ending at `i` is properly terminated.
fn at_pair_end(s: &str, n: usize, i: usize) -> (b: bool)
    requires
        n == s@.len(),
        i <= n,
    ensures
        b == spec_at_pair_end(s@, i as int),
{
    let j = skip_inline_from(s, n, i);
    if j >= n {
        true
    } else {
        let c = s.get_char(j);
        c == '\n' || c == '}'
    }
}

/// The value a bare token stands for.
fn classify_bare(t: String) -> (v: Value)
    ensures
        v@ == spec_classify_bare(t@),
{
    let tr = "true".to_owned();
    let fa = "false".to_owned();
    let nu = "null".to_owned();
    let en = "enable".to_owned();
    let di = "disable".to_owned();
    proof {
        reveal_strlit("true");
        reveal_strlit("false");
        reveal_strlit("null");
        reveal_strlit("enable");
        reveal_strlit("disable");
        assert(tr@ =~= true_chars());
        assert(fa@ =~= false_chars());
        assert(nu@ =~= null_chars());
        assert(en@ =~= enable_chars());
        assert(di@ =~= disable_chars());
    }
    if t == tr {
        Value::Boolean(true)
    } else if t == fa {
        Value::Boolean(false)
    } else if t == nu {
        Value::Null
    } else if t == en || t == di {
        Value::String(t)
    } else {
        Value::UnquotedString(t)
    }
}

/// Parse the value starting at `i`.
fn parse_value_at(s: &str, n: usize, i: usize) -> (r: Result<(Value, usize), ParseError>)
    requires
        n == s@.len(),
        i <= n,
    ensures
        r is Ok ==> spec_parse_value(s@, i as int) == Some((r->Ok_0.0@, r->Ok_0.1 as int)) && i
            < r->Ok_0.1 <= n,
        r is Err ==> spec_parse_value(s@, i as int) is None,
    decreases n - i, 2int,
{
    if i < n {
        let c = s.get_char(i);
        if c == '{' {
            let j = skip_ws_from(s, n, i + 1);
            match parse_entries_at(s, n, j) {
                Ok((entries, k)) => {
                    if k < n {
                        let c2 = s.get_char(k);
                        if c2 == '}' {
                            return Ok((Value::Object(entries), k + 1));
                        }
                    }
                    Err(ParseError { pos: k, kind: ParseErrorKind::ExpectedCloseBrace })
                },
                Err(e) => Err(e),
            }
        } else if c == '"' {
            match quoted_end(s, n, i + 1) {
                Some(j) => {
                    let contents = s.substring_char(i + 1, j - 1).to_owned();
                    Ok((Value::String(contents), j))
                },
                None => Err(ParseError { pos: i, kind: ParseErrorKind::UnclosedString }),
            }
        } else {
            let e = token_end(s, n, i);
            if e > i {
                let t = s.substring_char(i, e).to_owned();
                Ok((classify_bare(t), e))
            } else {
                Err(ParseError { pos: i, kind: ParseErrorKind::ExpectedValue })
            }
        }
    } else {
        Err(ParseError { pos: i, kind: ParseErrorKind::ExpectedValue })
    }
}

/// Parse a run of pairs up to the `}` closing the surrounding object or the
/// end of input.
fn parse_entries_at(s: &str, n: usize, i: usize) -> (r: Result<(Vec<ObjectValue>, usize), ParseError>)
    requires
        n == s@.len(),
        i <= n,
    ensures
        r is Ok ==> spec_parse_entries(s@, i as int) == Some(
            (entries_models(r->Ok_0.0@), r->Ok_0.1 as int),
        ) && i <= r->Ok_0.1 <= n,
        r is Err ==> spec_parse_entries(s@, i as int) is None,
    decreases n - i, 1int,
{
    let mut acc: Vec<ObjectValue> = Vec::new();
    let mut cur = i;
    proof {
        assert(entries_models(acc@) =~= Seq::<EntryModel>::empty());
    }
    while cur < n && s.get_char(cur) != '}'
        invariant
            n == s@.len(),
            i <= cur <= n,
            (match spec_parse_entries(s@, cur as int) {
                Some((rest, k)) => spec_parse_entries(s@, i as int) == Some(
                    (entries_models(acc@) + rest, k),
                ),
                None => spec_parse_entries(s@, i as int) is None,
            }),
        decreases n - cur,
    {
        match parse_entry_at(s, n, cur) {
            Ok((entry, j)) => {
                let j2 = skip_ws_from(s, n, j);
                if j2 <= cur {
                    return Err(ParseError { pos: j2, kind: ParseErrorKind::ExpectedName });
                }
                let ghost acc0 = acc@;
                acc.push(entry);
                proof {
                    assert(entries_models(acc@) =~= entries_models(acc0) + seq![entry@]);
                    if spec_parse_entries(s@, j2 as int) is Some {
                        let (rest2, k) = spec_parse_entries(s@, j2 as int)->Some_0;
                        assert(entries_models(acc0) + (seq![entry@] + rest2) =~= entries_models(
                            acc@,
                        ) + rest2);
                    }
                }
                cur = j2;
            },
            Err(e) => {
                return Err(e);
            },
        }
    }
    proof {
        assert(entries_models(acc@) + Seq::<EntryModel>::empty() =~= entries_models(acc@));
    }
    Ok((acc, cur))
}

/// Parse one pair starting at `i`.
fn parse_entry_at(s: &str, n: usize, i: usize) -> (r: Result<(ObjectValue, usize), ParseError>)
    requires
        n == s@.len(),
        i <= n,
    ensures
        r is Ok ==> spec_parse_entry(s@, i as int) == Some((r->Ok_0.0@, r->Ok_0.1 as int)) && i
            < r->Ok_0.1 <= n,
        r is Err ==> spec_parse_entry(s@, i as int) is None,
    decreases n - i, 0int,
{
    let e1 = token_end(s, n, i);
    if e1 <= i {
        return Err(ParseError { pos: i, kind: ParseErrorKind::ExpectedName });
    }
    let name1 = s.substring_char(i, e1).to_owned();
    let j = skip_inline_from(s, n, e1);
    if j >= n {
        return Ok((ObjectValue::Key(name1), e1));
    }
    let c = s.get_char(j);
    if c == '\n' || c == '}' {
        return Ok((ObjectValue::Key(name1), e1));
    }
    if c == '{' || c == '"' {
        match parse_value_at(s, n, j) {
            Ok((v, k)) => {
                if at_pair_end(s, n, k) {
                    return Ok((ObjectValue::KeyValue(name1, v), k));
                }
                return Err(ParseError { pos: k, kind: ParseErrorKind::ExpectedLineEnd });
            },
            Err(e) => {
                return Err(e);
            },
        }
    }
    let e2 = token_end(s, n, j);
    if e2 <= j {
        return Err(ParseError { pos: j, kind: ParseErrorKind::ExpectedValue });
    }
    let name2 = s.substring_char(j, e2).to_owned();
    let j2 = skip_inline_from(s, n, e2);
    if j2 >= n {
        return Ok((ObjectValue::KeyValue(name1, classify_bare(name2)), e2));
    }
    let c2 = s.get_char(j2);
    if c2 == '\n' || c2 == '}' {
        return Ok((ObjectValue::KeyValue(name1, classify_bare(name2)), e2));
    }
    if c2 == '{' {
        match parse_value_at(s, n, j2) {
            Ok((v, k)) => {
                if at_pair_end(s, n, k) {
                    return Ok((ObjectValue::ObjectKeyValue(name1, name2, v), k));
                }
                return Err(ParseError { pos: k, kind: ParseErrorKind::ExpectedLineEnd });
            },
            Err(e) => {
                return Err(e);
            },
        }
    }
    Err(ParseError { pos: j2, kind: ParseErrorKind::ExpectedValue })
}

/// Parse the fixed epilogue: exactly three trailing lines, then only
/// whitespace up to the end of input.
fn parse_trailing_at(s: &str, n: usize, k: usize) -> (r: Result<Vec<String>, ParseError>)
    requires
        n == s@.len(),
        k <= n,
    ensures
        r is Ok ==> spec_parse_trailing(s@, k as int) == Some(lines_models(r->Ok_0@)),
        r is Err ==> spec_parse_trailing(s@, k as int) is None,
{
    let i1 = skip_ws_from(s, n, k);
    if i1 >= n {
        return Err(ParseError { pos: i1, kind: ParseErrorKind::MissingTrailingLine });
    }
    let f1 = line_end(s, n, i1);
    let l1 = s.substring_char(i1, f1).to_owned();
    let i2 = skip_ws_from(s, n, f1);
    if i2 >= n {
        return Err(ParseError { pos: i2, kind: ParseErrorKind::MissingTrailingLine });
    }
    let f2 = line_end(s, n, i2);
    let l2 = s.substring_char(i2, f2).to_owned();
    let i3 = skip_ws_from(s, n, f2);
    if i3 >= n {
        return Err(ParseError { pos: i3, kind: ParseErrorKind::MissingTrailingLine });
    }
    let f3 = line_end(s, n, i3);
    let l3 = s.substring_char(i3, f3).to_owned();
    let i4 = skip_ws_from(s, n, f3);
    if i4 < n {
        return Err(ParseError { pos: i4, kind: ParseErrorKind::UnexpectedTrailingText });
    }
    let ghost m1 = l1@;
    let ghost m2 = l2@;
    let ghost m3 = l3@;
    let mut lines: Vec<String> = Vec::new();
    lines.push(l1);
    lines.push(l2);
    lines.push(l3);
    proof {
        assert(lines_models(lines@) =~= seq![m1, m2, m3]);
    }
    Ok(lines)
}

/// Parse one whole document.
///
/// Returns `Ok` exactly on the inputs the grammar accepts — then the parsed
/// tree's model is what [`spec_parse_file`] yields on the input, and the
/// top-level value is an object — and a [`ParseError`] exactly on the
/// inputs it rejects. No partial tree is ever returned.
pub fn parse_file(file: &str) -> (r: Result<File, ParseError>)
    ensures
        r is Ok ==> spec_parse_file(file@) == Some(r->Ok_0@) && r->Ok_0@.values is Object,
        r is Err ==> spec_parse_file(file@) is None,
{
    let n = file.unicode_len();
    let i0 = skip_ws_from(file, n, 0);
    let e1 = token_end(file, n, i0);
    if e1 <= i0 {
        return Err(ParseError { pos: i0, kind: ParseErrorKind::ExpectedName });
    }
    let name = file.substring_char(i0, e1).to_owned();
    let j = skip_inline_from(file, n, e1);
    if j >= n {
        return Err(ParseError { pos: j, kind: ParseErrorKind::ExpectedOpenBrace });
    }
    let c = file.get_char(j);
    if c != '{' {
        return Err(ParseError { pos: j, kind: ParseErrorKind::ExpectedOpenBrace });
    }
    match parse_value_at(file, n, j) {
        Ok((v, k)) => {
            match parse_trailing_at(file, n, k) {
                Ok(lines) => {
                    let ghost vm = v@;
                    let ghost nm = name@;
                    let mut entries: Vec<ObjectValue> = Vec::new();
                    entries.push(ObjectValue::KeyValue(name, v));
                    let f = File { values: Value::Object(entries), trailing_lines: lines };
                    proof {
                        assert(entries_models(entries@) =~= seq![EntryModel::KeyValue(nm, vm)]);
                    }
                    Ok(f)
                },
                Err(e) => Err(e),
            }
        },
        Err(e) => Err(e),
    }
}

} // verus!
