//! The laws relating the parser and the serializer.
//!
//! The central theorem is [`lemma_serialize_then_parse`]: serializing any
//! well-formed tree and parsing the result yields exactly that tree again.
//! [`lemma_structural_round_trip`] lifts it to parser output: for every
//! document the parser accepts, parse, serialize and parse again yields the
//! same tree. Around it stand the pair-arity classification laws and the
//! trailing-line arity law.

use vstd::prelude::*;

use crate::parser::{
    disable_chars, enable_chars, is_inline_space, is_keyword, is_space, is_token_char,
    spec_at_pair_end, spec_classify_bare, spec_parse_entries, spec_parse_entry, spec_parse_file,
    spec_parse_trailing, spec_parse_value, spec_scan_line, spec_scan_quoted, spec_scan_token,
    spec_skip_inline, spec_skip_ws,
};
use crate::types::{
    EntryModel, FileModel, ValueModel, false_chars, indent_unit, null_chars, spec_join_lines,
    spec_serialize_entries, spec_serialize_entry, spec_serialize_file, spec_serialize_value,
    true_chars,
};

verus! {

broadcast use
    vstd::seq::group_seq_axioms,
    vstd::seq::axiom_seq_index_decreases,
    vstd::seq::axiom_seq_subrange_decreases;

/// A well-formed bare token: non-empty, token characters only.
pub open spec fn wf_token(t: Seq<char>) -> bool {
    t.len() > 0 && forall|i: int| 0 <= i < t.len() ==> is_token_char(#[trigger] t[i])
}

/// Well-formed contents of a quoted string: no double quote inside.
pub open spec fn wf_quoted(s: Seq<char>) -> bool {
    forall|i: int| 0 <= i < s.len() ==> #[trigger] s[i] != '"'
}

/// A well-formed unquoted scalar: a token that is not one of the literals
/// and not a reserved keyword, so that re-parsing classifies it as an
/// unquoted scalar again.
pub open spec fn wf_bare(t: Seq<char>) -> bool {
    wf_token(t) && t != true_chars() && t != false_chars() && t != null_chars() && !is_keyword(t)
}

/// A well-formed trailing line: non-empty, starts with a non-whitespace
/// character, and contains no line break.
pub open spec fn wf_line(l: Seq<char>) -> bool {
    l.len() > 0 && !is_space(l[0]) && forall|i: int| 0 <= i < l.len() ==> #[trigger] l[i] != '\n'
}

/// A well-formed value model: every tree the parser can produce satisfies
/// this, and every tree satisfying it serializes to text that parses back
/// to it.
pub open spec fn wf_value(v: ValueModel) -> bool
    decreases v,
{
    match v {
        ValueModel::Object(entries) => forall|i: int|
            0 <= i < entries.len() ==> wf_entry(#[trigger] entries[i]),
        ValueModel::Quoted(s) => wf_quoted(s),
        ValueModel::Unquoted(t) => wf_bare(t),
        ValueModel::Boolean(_) => true,
        ValueModel::Null => true,
    }
}

/// A well-formed entry model. A category/instance header always carries a
/// nested object.
pub open spec fn wf_entry(e: EntryModel) -> bool
    decreases e,
{
    match e {
        EntryModel::Key(name) => wf_token(name),
        EntryModel::KeyValue(name, value) => wf_token(name) && wf_value(value),
        EntryModel::ObjectKeyValue(category, name, value) => wf_token(category) && wf_token(name)
            && wf_value(value) && value is Object,
    }
}

/// A well-formed file model: the root is an object holding exactly one
/// key/value pair whose value is an object, and there are exactly three
/// well-formed trailing lines.
pub open spec fn wf_file(f: FileModel) -> bool {
    &&& f.values is Object
    &&& f.values->Object_0.len() == 1
    &&& f.values->Object_0[0] is KeyValue
    &&& wf_token(f.values->Object_0[0]->KeyValue_0)
    &&& f.values->Object_0[0]->KeyValue_1 is Object
    &&& wf_value(f.values->Object_0[0]->KeyValue_1)
    &&& f.trailing_lines.len() == 3
    &&& forall|i: int| 0 <= i < f.trailing_lines.len() ==> wf_line(#[trigger] f.trailing_lines[i])
}

/// An indentation sequence: spaces only.
pub open spec fn wf_indent(indent: Seq<char>) -> bool {
    forall|i: int| 0 <= i < indent.len() ==> #[trigger] indent[i] == ' '
}

/// Skipping whitespace runs to the first non-whitespace position.
proof fn lemma_skip_ws_exact(s: Seq<char>, i: int, e: int)
    requires
        0 <= i <= e <= s.len(),
        forall|k: int| i <= k < e ==> is_space(#[trigger] s[k]),
        e == s.len() || !is_space(s[e]),
    ensures
        spec_skip_ws(s, i) == e,
    decreases e - i,
{
    if i < e {
        lemma_skip_ws_exact(s, i + 1, e);
    }
}

/// Skipping inline whitespace runs to the first position that holds none.
proof fn lemma_skip_inline_exact(s: Seq<char>, i: int, e: int)
    requires
        0 <= i <= e <= s.len(),
        forall|k: int| i <= k < e ==> is_inline_space(#[trigger] s[k]),
        e == s.len() || !is_inline_space(s[e]),
    ensures
        spec_skip_inline(s, i) == e,
    decreases e - i,
{
    if i < e {
        lemma_skip_inline_exact(s, i + 1, e);
    }
}

/// Scanning a token runs to the first non-token character.
proof fn lemma_scan_token_exact(s: Seq<char>, i: int, e: int)
    requires
        0 <= i <= e <= s.len(),
        forall|k: int| i <= k < e ==> is_token_char(#[trigger] s[k]),
        e == s.len() || !is_token_char(s[e]),
    ensures
        spec_scan_token(s, i) == e,
    decreases e - i,
{
    if i < e {
        lemma_scan_token_exact(s, i + 1, e);
    }
}

/// Scanning a line runs to the first line break.
proof fn lemma_scan_line_exact(s: Seq<char>, i: int, e: int)
    requires
        0 <= i <= e <= s.len(),
        forall|k: int| i <= k < e ==> #[trigger] s[k] != '\n',
        e == s.len() || s[e] == '\n',
    ensures
        spec_scan_line(s, i) == e,
    decreases e - i,
{
    if i < e {
        lemma_scan_line_exact(s, i + 1, e);
    }
}

/// Scanning for the closing quote finds the first one.
proof fn lemma_scan_quoted_exact(s: Seq<char>, i: int, e: int)
    requires
        0 <= i <= e < s.len(),
        forall|k: int| i <= k < e ==> #[trigger] s[k] != '"',
        s[e] == '"',
    ensures
        spec_scan_quoted(s, i) == Some(e + 1),
    decreases e - i,
{
    if i < e {
        lemma_scan_quoted_exact(s, i + 1, e);
    }
}

/// Whitespace skipping stays within bounds and skips only whitespace.
proof fn lemma_skip_ws_props(s: Seq<char>, i: int)
    requires
        0 <= i <= s.len(),
    ensures
        i <= spec_skip_ws(s, i) <= s.len(),
        forall|k: int| i <= k < spec_skip_ws(s, i) ==> is_space(#[trigger] s[k]),
        spec_skip_ws(s, i) < s.len() ==> !is_space(s[spec_skip_ws(s, i)]),
    decreases s.len() - i,
{
    if i < s.len() && is_space(s[i]) {
        lemma_skip_ws_props(s, i + 1);
    }
}

/// Token scanning stays within bounds and scans only token characters.
proof fn lemma_scan_token_props(s: Seq<char>, i: int)
    requires
        0 <= i <= s.len(),
    ensures
        i <= spec_scan_token(s, i) <= s.len(),
        forall|k: int| i <= k < spec_scan_token(s, i) ==> is_token_char(#[trigger] s[k]),
    decreases s.len() - i,
{
    if i < s.len() && is_token_char(s[i]) {
        lemma_scan_token_props(s, i + 1);
    }
}

/// Line scanning stays within bounds and passes no line break.
proof fn lemma_scan_line_props(s: Seq<char>, i: int)
    requires
        0 <= i <= s.len(),
    ensures
        i <= spec_scan_line(s, i) <= s.len(),
        forall|k: int| i <= k < spec_scan_line(s, i) ==> #[trigger] s[k] != '\n',
    decreases s.len() - i,
{
    if i < s.len() && s[i] != '\n' {
        lemma_scan_line_props(s, i + 1);
    }
}

/// Quote scanning yields a position just after the first quote.
proof fn lemma_scan_quoted_props(s: Seq<char>, i: int)
    requires
        0 <= i <= s.len(),
    ensures
        match spec_scan_quoted(s, i) {
            Some(j) => i < j <= s.len() && s[j - 1] == '"' && forall|k: int|
                i <= k < j - 1 ==> #[trigger] s[k] != '"',
            None => true,
        },
    decreases s.len() - i,
{
    if i < s.len() && s[i] != '"' {
        lemma_scan_quoted_props(s, i + 1);
    }
}

/// Classifying a well-formed token yields a well-formed value.
proof fn lemma_classify_bare_wf(t: Seq<char>)
    requires
        wf_token(t),
    ensures
        wf_value(spec_classify_bare(t)),
{
    if t == true_chars() || t == false_chars() || t == null_chars() {
    } else if is_keyword(t) {
        assert forall|i: int| 0 <= i < t.len() implies #[trigger] t[i] != '"' by {
            assert(is_token_char(t[i]));
        }
    } else {
        assert(wf_bare(t));
    }
}

/// Every value the parser yields is well-formed, and parsing advances.
proof fn lemma_parse_value_wf(s: Seq<char>, i: int)
    requires
        0 <= i <= s.len(),
    ensures
        match spec_parse_value(s, i) {
            Some((v, j)) => wf_value(v) && i < j <= s.len(),
            None => true,
        },
    decreases s.len() - i, 2int,
{
    if 0 <= i < s.len() && s[i] == '{' {
        let j = spec_skip_ws(s, i + 1);
        lemma_skip_ws_props(s, i + 1);
        if i < j <= s.len() {
            lemma_parse_entries_wf(s, j);
        }
    } else if 0 <= i < s.len() && s[i] == '"' {
        lemma_scan_quoted_props(s, i + 1);
        match spec_scan_quoted(s, i + 1) {
            Some(j) => {
                assert(wf_quoted(s.subrange(i + 1, j - 1)));
            },
            None => {},
        }
    } else {
        lemma_scan_token_props(s, i);
        let e = spec_scan_token(s, i);
        if i < e <= s.len() {
            let t = s.subrange(i, e);
            assert forall|k: int| 0 <= k < t.len() implies is_token_char(#[trigger] t[k]) by {
                assert(t[k] == s[i + k]);
            }
            lemma_classify_bare_wf(t);
        }
    }
}

/// Every entry sequence the parser yields is well-formed, and its end
/// position is in range.
proof fn lemma_parse_entries_wf(s: Seq<char>, i: int)
    requires
        0 <= i <= s.len(),
    ensures
        match spec_parse_entries(s, i) {
            Some((es, j)) => (forall|k: int| 0 <= k < es.len() ==> wf_entry(#[trigger] es[k])) && i
                <= j <= s.len(),
            None => true,
        },
    decreases s.len() - i, 1int,
{
    if i >= s.len() || s[i] == '}' {
    } else {
        lemma_parse_entry_wf(s, i);
        match spec_parse_entry(s, i) {
            Some((e, j)) => {
                let j2 = spec_skip_ws(s, j);
                if j <= s.len() {
                    lemma_skip_ws_props(s, j);
                }
                if i < j2 <= s.len() {
                    lemma_parse_entries_wf(s, j2);
                    match spec_parse_entries(s, j2) {
                        Some((rest, k)) => {
                            assert forall|m: int|
                                0 <= m < (seq![e] + rest).len() implies wf_entry(
                                #[trigger] (seq![e] + rest)[m],
                            ) by {
                                if m == 0 {
                                } else {
                                    assert((seq![e] + rest)[m] == rest[m - 1]);
                                }
                            }
                        },
                        None => {},
                    }
                }
            },
            None => {},
        }
    }
}

/// Every entry the parser yields is well-formed, and parsing advances.
proof fn lemma_parse_entry_wf(s: Seq<char>, i: int)
    requires
        0 <= i <= s.len(),
    ensures
        match spec_parse_entry(s, i) {
            Some((e, j)) => wf_entry(e) && i < j <= s.len(),
            None => true,
        },
    decreases s.len() - i, 0int,
{
    lemma_scan_token_props(s, i);
    let e1 = spec_scan_token(s, i);
    if i < e1 <= s.len() {
        let name1 = s.subrange(i, e1);
        assert forall|k: int| 0 <= k < name1.len() implies is_token_char(#[trigger] name1[k]) by {
            assert(name1[k] == s[i + k]);
        }
        let j = spec_skip_inline(s, e1);
        lemma_skip_inline_props(s, e1);
        if j >= s.len() || s[j] == '\n' || s[j] == '}' {
        } else if s[j] == '{' || s[j] == '"' {
            if i < j <= s.len() {
                lemma_parse_value_wf(s, j);
            }
        } else {
            lemma_scan_token_props(s, j);
            let e2 = spec_scan_token(s, j);
            if j < e2 <= s.len() {
                let name2 = s.subrange(j, e2);
                assert forall|k: int| 0 <= k < name2.len() implies is_token_char(
                    #[trigger] name2[k],
                ) by {
                    assert(name2[k] == s[j + k]);
                }
                let j2 = spec_skip_inline(s, e2);
                lemma_skip_inline_props(s, e2);
                if j2 >= s.len() || s[j2] == '\n' || s[j2] == '}' {
                    lemma_classify_bare_wf(name2);
                } else if s[j2] == '{' && i < j2 <= s.len() {
                    lemma_parse_value_wf(s, j2);
                }
            }
        }
    }
}

/// Inline whitespace skipping stays within bounds.
proof fn lemma_skip_inline_props(s: Seq<char>, i: int)
    requires
        0 <= i <= s.len(),
    ensures
        i <= spec_skip_inline(s, i) <= s.len(),
        forall|k: int| i <= k < spec_skip_inline(s, i) ==> is_inline_space(#[trigger] s[k]),
        spec_skip_inline(s, i) < s.len() ==> !is_inline_space(s[spec_skip_inline(s, i)]),
    decreases s.len() - i,
{
    if i < s.len() && is_inline_space(s[i]) {
        lemma_skip_inline_props(s, i + 1);
    }
}

/// Every epilogue the parser yields consists of three well-formed lines.
proof fn lemma_parse_trailing_wf(s: Seq<char>, k: int)
    requires
        0 <= k <= s.len(),
    ensures
        match spec_parse_trailing(s, k) {
            Some(lines) => lines.len() == 3 && forall|m: int|
                0 <= m < lines.len() ==> wf_line(#[trigger] lines[m]),
            None => true,
        },
{
    lemma_skip_ws_props(s, k);
    let i1 = spec_skip_ws(s, k);
    if i1 < s.len() {
        lemma_scan_line_props(s, i1);
        let f1 = spec_scan_line(s, i1);
        lemma_line_chunk_wf(s, i1, f1);
        lemma_skip_ws_props(s, f1);
        let i2 = spec_skip_ws(s, f1);
        if i2 < s.len() {
            lemma_scan_line_props(s, i2);
            let f2 = spec_scan_line(s, i2);
            lemma_line_chunk_wf(s, i2, f2);
            lemma_skip_ws_props(s, f2);
            let i3 = spec_skip_ws(s, f2);
            if i3 < s.len() {
                lemma_scan_line_props(s, i3);
                let f3 = spec_scan_line(s, i3);
                lemma_line_chunk_wf(s, i3, f3);
            }
        }
    }
}

/// A chunk cut by the line scanner from a non-whitespace start is a
/// well-formed line.
proof fn lemma_line_chunk_wf(s: Seq<char>, i: int, f: int)
    requires
        0 <= i < s.len(),
        !is_space(s[i]),
        f == spec_scan_line(s, i),
    ensures
        wf_line(s.subrange(i, f)),
{
    lemma_scan_line_props(s, i);
    let l = s.subrange(i, f);
    assert(s[i] != '\n');
    assert(spec_scan_line(s, i) == spec_scan_line(s, i + 1));
    lemma_scan_line_props(s, i + 1);
    assert(i < f);
    assert(l[0] == s[i]);
    assert forall|m: int| 0 <= m < l.len() implies #[trigger] l[m] != '\n' by {
        assert(l[m] == s[i + m]);
    }
}

/// Everything the parser accepts is a well-formed file model.
pub proof fn lemma_parse_file_wf(s: Seq<char>)
    ensures
        match spec_parse_file(s) {
            Some(f) => wf_file(f),
            None => true,
        },
{
    lemma_skip_ws_props(s, 0);
    let i0 = spec_skip_ws(s, 0);
    lemma_scan_token_props(s, i0);
    let e1 = spec_scan_token(s, i0);
    if i0 < e1 <= s.len() {
        let name = s.subrange(i0, e1);
        assert forall|k: int| 0 <= k < name.len() implies is_token_char(#[trigger] name[k]) by {
            assert(name[k] == s[i0 + k]);
        }
        lemma_skip_inline_props(s, e1);
        let j = spec_skip_inline(s, e1);
        if j < s.len() && s[j] == '{' {
            lemma_parse_value_wf(s, j);
            match spec_parse_value(s, j) {
                Some((v, k)) => {
                    lemma_parse_trailing_wf(s, k);
                },
                None => {},
            }
        }
    }
}

/// A slice equal to a concatenation splits into slices equal to the parts.
proof fn lemma_subrange_split(s: Seq<char>, i: int, a: Seq<char>, b: Seq<char>)
    requires
        0 <= i,
        i + a.len() + b.len() <= s.len(),
        s.subrange(i, i + a.len() + b.len()) == a + b,
    ensures
        s.subrange(i, i + a.len()) == a,
        s.subrange(i + a.len(), i + a.len() + b.len()) == b,
{
    assert forall|k: int| 0 <= k < a.len() implies s.subrange(i, i + a.len())[k] == a[k] by {
        assert(s.subrange(i, i + a.len() + b.len())[k] == (a + b)[k]);
    }
    assert(s.subrange(i, i + a.len()) =~= a);
    assert forall|k: int|
        0 <= k < b.len() implies s.subrange(i + a.len(), i + a.len() + b.len())[k] == b[k] by {
        assert(s.subrange(i, i + a.len() + b.len())[a.len() + k] == (a + b)[a.len() + k]);
        assert(s.subrange(i, i + a.len() + b.len())[a.len() + k] == s[i + a.len() + k]);
        assert(s.subrange(i + a.len(), i + a.len() + b.len())[k] == s[i + a.len() + k]);
        assert((a + b)[a.len() + k] == b[k]);
    }
    assert(s.subrange(i + a.len(), i + a.len() + b.len()) =~= b);
}

/// The characters of a slice, position by position.
proof fn lemma_chars_of(s: Seq<char>, i: int, t: Seq<char>)
    requires
        0 <= i,
        i + t.len() <= s.len(),
        s.subrange(i, i + t.len()) == t,
    ensures
        forall|off: int| 0 <= off < t.len() ==> s[i + off] == #[trigger] t[off],
{
    assert forall|off: int| 0 <= off < t.len() implies s[i + off] == #[trigger] t[off] by {
        assert(s.subrange(i, i + t.len())[off] == t[off]);
    }
}

/// Classifying the serialized text of a bare-rendered value yields that
/// value again.
proof fn lemma_classify_inverts(v: ValueModel, indent: Seq<char>)
    requires
        wf_value(v),
        v is Unquoted || v is Boolean || v is Null,
    ensures
        spec_classify_bare(spec_serialize_value(v, indent)) == v,
        wf_token(spec_serialize_value(v, indent)),
{
    let t = spec_serialize_value(v, indent);
    match v {
        ValueModel::Unquoted(u) => {},
        ValueModel::Boolean(b) => {
            if b {
                assert(t == true_chars());
                assert(t != false_chars());
                assert(t[0] != null_chars()[0]);
                assert(t != enable_chars() && t != disable_chars());
                assert forall|k: int| 0 <= k < t.len() implies is_token_char(#[trigger] t[k]) by {
                    assert(t[k] == 't' || t[k] == 'r' || t[k] == 'u' || t[k] == 'e');
                }
            } else {
                assert(t == false_chars());
                assert(t != true_chars());
                assert(t != null_chars());
                assert(t != enable_chars() && t[0] != disable_chars()[0]);
                assert forall|k: int| 0 <= k < t.len() implies is_token_char(#[trigger] t[k]) by {
                    assert(t[k] == 'f' || t[k] == 'a' || t[k] == 'l' || t[k] == 's' || t[k] == 'e');
                }
            }
        },
        ValueModel::Null => {
            assert(t == null_chars());
            assert(t[0] != true_chars()[0]);
            assert(t != false_chars());
            assert(t != enable_chars() && t != disable_chars());
            assert forall|k: int| 0 <= k < t.len() implies is_token_char(#[trigger] t[k]) by {
                assert(t[k] == 'n' || t[k] == 'u' || t[k] == 'l');
            }
        },
        _ => {},
    }
}

/// Parsing inverts serialization, value level: where the serialized text of
/// a well-formed value sits in the input (followed, for a bare-rendered
/// value, by nothing or by a non-token character), the parser yields that
/// value and stops just after the text.
pub proof fn lemma_parse_value_inv(s: Seq<char>, i: int, v: ValueModel, indent: Seq<char>)
    requires
        wf_value(v),
        wf_indent(indent),
        0 <= i,
        i + spec_serialize_value(v, indent).len() <= s.len(),
        s.subrange(i, i + spec_serialize_value(v, indent).len()) == spec_serialize_value(
            v,
            indent,
        ),
        (v is Unquoted || v is Boolean || v is Null) ==> (i + spec_serialize_value(
            v,
            indent,
        ).len() == s.len() || !is_token_char(s[i + spec_serialize_value(v, indent).len()])),
    ensures
        spec_parse_value(s, i) == Some((v, i + spec_serialize_value(v, indent).len())),
    decreases v,
{
    let vtx = spec_serialize_value(v, indent);
    match v {
        ValueModel::Object(es) => {
            let blk = spec_serialize_entries(es, indent + indent_unit());
            let open = seq!['{', '\n'];
            let close = seq!['}'];
            assert(vtx == open + blk + indent + close);
            lemma_subrange_split(s, i, open + blk + indent, close);
            lemma_subrange_split(s, i, open + blk, indent);
            lemma_subrange_split(s, i, open, blk);
            lemma_chars_of(s, i, open);
            lemma_chars_of(s, i + 2 + blk.len(), indent);
            assert(s[i] == '{') by {
                assert(s.subrange(i, i + 2)[0] == open[0]);
            }
            assert(s[i + 1] == '\n') by {
                assert(s.subrange(i, i + 2)[1] == open[1]);
            }
            let b0 = i + 2 + blk.len();
            assert forall|k: int| b0 <= k < b0 + indent.len() implies #[trigger] s[k] == ' ' by {
                assert(s[b0 + (k - b0)] == indent[k - b0]);
            }
            let b = i + 2 + blk.len() + indent.len();
            assert(s[b] == '}') by {
                assert(s.subrange(b, b + 1) == close);
                assert(s.subrange(b, b + 1)[0] == close[0]);
            }
            assert(wf_value(ValueModel::Object(es)));
            assert(wf_indent(indent + indent_unit())) by {
                assert(forall|k: int|
                    0 <= k < (indent + indent_unit()).len() ==> (indent + indent_unit())[k]
                        == ' ');
            }
            lemma_parse_entries_inv(s, i + 2, es, indent + indent_unit(), indent.len() as int);
            assert(spec_parse_entries(s, spec_skip_ws(s, i + 2)) == Some((es, b)));
            assert(spec_skip_ws(s, i + 1) == spec_skip_ws(s, i + 2));
            let j = spec_skip_ws(s, i + 1);
            lemma_skip_ws_props(s, i + 1);
            assert(i < j <= s.len());
            assert(spec_parse_value(s, i) == Some((ValueModel::Object(es), b + 1)));
            assert(b + 1 == i + vtx.len());
        },
        ValueModel::Quoted(q) => {
            let open = seq!['"'];
            assert(vtx == open + q + open);
            lemma_subrange_split(s, i, open + q, open);
            lemma_subrange_split(s, i, open, q);
            lemma_chars_of(s, i, open);
            lemma_chars_of(s, i + 1, q);
            assert(s[i] == '"') by {
                assert(s.subrange(i, i + 1)[0] == open[0]);
            }
            let e = i + 1 + q.len();
            assert(s[e] == '"') by {
                assert(s.subrange(e, e + 1) == open);
                assert(s.subrange(e, e + 1)[0] == open[0]);
            }
            assert(s[i] != '{');
            assert forall|k: int| i + 1 <= k < e implies #[trigger] s[k] != '"' by {
                assert(s[k] == q[k - (i + 1)]);
            }
            lemma_scan_quoted_exact(s, i + 1, e);
            assert(spec_scan_quoted(s, i + 1) == Some(e + 1));
            assert(s.subrange(i + 1, e) =~= q);
            assert(spec_parse_value(s, i) == Some((ValueModel::Quoted(q), e + 1)));
            assert(e + 1 == i + vtx.len());
        },
        _ => {
            lemma_classify_inverts(v, indent);
            lemma_chars_of(s, i, vtx);
            assert(s[i] == vtx[0]);
            assert(is_token_char(vtx[0]));
            assert(s[i] != '{' && s[i] != '"');
            assert forall|k: int| i <= k < i + vtx.len() implies is_token_char(#[trigger] s[k]) by {
                assert(s[k] == vtx[k - i]);
            }
            lemma_scan_token_exact(s, i, i + vtx.len());
            assert(s.subrange(i, i + vtx.len()) == vtx);
        },
    }
}

/// Parsing inverts serialization, entry-sequence level: where the
/// serialized block of well-formed entries sits in the input, followed by
/// `t` spaces and the closing brace of its object, the parser — started at
/// the first non-whitespace position — yields exactly those entries and
/// stops at the brace.
pub proof fn lemma_parse_entries_inv(
    s: Seq<char>,
    i: int,
    es: Seq<EntryModel>,
    indent: Seq<char>,
    t: int,
)
    requires
        forall|k: int| 0 <= k < es.len() ==> wf_entry(#[trigger] es[k]),
        wf_indent(indent),
        0 <= i,
        0 <= t,
        i + spec_serialize_entries(es, indent).len() + t + 1 <= s.len(),
        s.subrange(i, i + spec_serialize_entries(es, indent).len()) == spec_serialize_entries(
            es,
            indent,
        ),
        forall|k: int|
            i + spec_serialize_entries(es, indent).len() <= k < i + spec_serialize_entries(
                es,
                indent,
            ).len() + t ==> #[trigger] s[k] == ' ',
        s[i + spec_serialize_entries(es, indent).len() + t] == '}',
    ensures
        spec_parse_entries(s, spec_skip_ws(s, i)) == Some(
            (es, i + spec_serialize_entries(es, indent).len() + t),
        ),
        spec_skip_ws(s, i) <= i + spec_serialize_entries(es, indent).len() + t,
    decreases es,
{
    let blk = spec_serialize_entries(es, indent);
    let close = i + blk.len() + t;
    if es.len() == 0 {
        assert(blk.len() == 0);
        lemma_skip_ws_exact(s, i, close);
        assert(spec_parse_entries(s, close) == Some((Seq::<EntryModel>::empty(), close)));
        assert(es =~= Seq::<EntryModel>::empty());
    } else {
        let etx = spec_serialize_entry(es[0], indent);
        let rest = spec_serialize_entries(es.drop_first(), indent);
        assert(blk == etx + rest);
        lemma_subrange_split(s, i, etx, rest);
        lemma_entry_shape(es[0], indent);
        assert(etx.len() >= indent.len() + 2);
        lemma_parse_entry_inv(s, i, es[0], indent);
        let p0 = i + indent.len();
        assert(spec_parse_entry(s, p0) == Some((es[0], i + etx.len() - 1)));
        lemma_chars_of(s, i, etx);
        assert(spec_skip_ws(s, i) == p0) by {
            assert forall|k: int| i <= k < p0 implies is_space(#[trigger] s[k]) by {
                assert(s[k] == etx[k - i]);
                assert(etx[k - i] == ' ') by {
                    lemma_entry_starts_with_indent(es[0], indent, k - i);
                }
            }
            assert(s[p0] == etx[indent.len() as int]);
            assert(is_token_char(etx[indent.len() as int])) by {
                lemma_entry_name_after_indent(es[0], indent);
            }
            lemma_skip_ws_exact(s, i, p0);
        }
        assert(s[p0] != '}' && p0 < s.len());
        let j = i + etx.len() - 1;
        assert(s[j] == '\n') by {
            assert(s[j] == etx[etx.len() - 1]);
            lemma_entry_ends_with_newline(es[0], indent);
        }
        let inext = i + etx.len();
        assert(spec_skip_ws(s, j) == spec_skip_ws(s, inext));
        assert forall|k: int| 0 <= k < es.drop_first().len() implies wf_entry(
            #[trigger] es.drop_first()[k],
        ) by {
            assert(es.drop_first()[k] == es[k + 1]);
        }
        lemma_parse_entries_inv(s, inext, es.drop_first(), indent, t);
        let j2 = spec_skip_ws(s, j);
        lemma_skip_ws_props(s, j);
        assert(p0 < j2 <= s.len());
        assert(spec_parse_entries(s, j2) == Some((es.drop_first(), close)));
        assert(spec_parse_entries(s, p0) == Some((seq![es[0]] + es.drop_first(), close)));
        assert(seq![es[0]] + es.drop_first() =~= es);
    }
}

/// Parsing inverts serialization, pair level — this is also the pair-arity
/// classification law. Where the serialized line of a well-formed entry
/// sits in the input, the parser — started after the indentation — yields:
/// a bare key for a lone token, a key/value pair for a token and a value,
/// and a category/instance entry for two tokens and a nested object; it
/// stops just before the closing line break.
#[verifier::rlimit(80)]
pub proof fn lemma_parse_entry_inv(s: Seq<char>, i: int, e: EntryModel, indent: Seq<char>)
    requires
        wf_entry(e),
        wf_indent(indent),
        0 <= i,
        i + spec_serialize_entry(e, indent).len() <= s.len(),
        s.subrange(i, i + spec_serialize_entry(e, indent).len()) == spec_serialize_entry(
            e,
            indent,
        ),
    ensures
        spec_parse_entry(s, i + indent.len()) == Some(
            (e, i + spec_serialize_entry(e, indent).len() - 1),
        ),
    decreases e,
{
    let etx = spec_serialize_entry(e, indent);
    let p = i + indent.len();
    let nl = seq!['\n'];
    let sp = seq![' '];
    match e {
        EntryModel::Key(name) => {
            assert(etx == indent + name + nl);
            lemma_subrange_split(s, i, indent + name, nl);
            lemma_subrange_split(s, i, indent, name);
            lemma_chars_of(s, p, name);
            let e1 = p + name.len();
            assert(s[e1] == '\n') by {
                assert(s.subrange(e1, e1 + 1) == nl);
                assert(s.subrange(e1, e1 + 1)[0] == nl[0]);
            }
            assert forall|k: int| p <= k < e1 implies is_token_char(#[trigger] s[k]) by {
                assert(s[k] == name[k - p]);
            }
            lemma_scan_token_exact(s, p, e1);
            assert(s.subrange(p, e1) == name);
            lemma_skip_inline_exact(s, e1, e1);
            assert(e1 == i + etx.len() - 1);
        },
        EntryModel::KeyValue(name, value) => {
            let vtx = spec_serialize_value(value, indent);
            assert(etx == indent + name + sp + vtx + nl);
            lemma_subrange_split(s, i, indent + name + sp + vtx, nl);
            lemma_subrange_split(s, i, indent + name + sp, vtx);
            lemma_subrange_split(s, i, indent + name, sp);
            lemma_subrange_split(s, i, indent, name);
            lemma_chars_of(s, p, name);
            let e1 = p + name.len();
            let jv = e1 + 1;
            let kend = jv + vtx.len();
            assert(s[e1] == ' ') by {
                assert(s.subrange(e1, e1 + 1) == sp);
                assert(s.subrange(e1, e1 + 1)[0] == sp[0]);
            }
            assert(s[kend] == '\n') by {
                assert(s.subrange(kend, kend + 1) == nl);
                assert(s.subrange(kend, kend + 1)[0] == nl[0]);
            }
            assert forall|k: int| p <= k < e1 implies is_token_char(#[trigger] s[k]) by {
                assert(s[k] == name[k - p]);
            }
            lemma_scan_token_exact(s, p, e1);
            assert(s.subrange(p, e1) == name);
            assert(s.subrange(jv, jv + vtx.len()) == vtx);
            if value is Object || value is Quoted {
                assert(vtx.len() > 0 && (vtx[0] == '{' || vtx[0] == '"')) by {
                    lemma_value_first_char(value, indent);
                }
                assert(s[jv] == vtx[0]) by {
                    lemma_chars_of(s, jv, vtx);
                }
                lemma_skip_inline_exact(s, e1, jv);
                lemma_parse_value_inv(s, jv, value, indent);
                assert(spec_parse_value(s, jv) == Some((value, kend)));
                assert(spec_at_pair_end(s, kend)) by {
                    lemma_skip_inline_exact(s, kend, kend);
                }
                assert(kend == i + etx.len() - 1);
            } else {
                lemma_classify_inverts(value, indent);
                assert(wf_token(vtx));
                lemma_chars_of(s, jv, vtx);
                assert(s[jv] == vtx[0]);
                assert(is_token_char(vtx[0]));
                lemma_skip_inline_exact(s, e1, jv);
                assert forall|k: int| jv <= k < kend implies is_token_char(#[trigger] s[k]) by {
                    assert(s[k] == vtx[k - jv]);
                }
                lemma_scan_token_exact(s, jv, kend);
                assert(s.subrange(jv, kend) == vtx);
                lemma_skip_inline_exact(s, kend, kend);
                assert(spec_classify_bare(vtx) == value);
                assert(kend == i + etx.len() - 1);
            }
        },
        EntryModel::ObjectKeyValue(category, name, value) => {
            let vtx = spec_serialize_value(value, indent);
            assert(etx == indent + category + sp + name + sp + vtx + nl);
            lemma_subrange_split(s, i, indent + category + sp + name + sp + vtx, nl);
            lemma_subrange_split(s, i, indent + category + sp + name + sp, vtx);
            lemma_subrange_split(s, i, indent + category + sp + name, sp);
            lemma_subrange_split(s, i, indent + category + sp, name);
            lemma_subrange_split(s, i, indent + category, sp);
            lemma_subrange_split(s, i, indent, category);
            lemma_chars_of(s, p, category);
            let e1 = p + category.len();
            let p2 = e1 + 1;
            let e2 = p2 + name.len();
            let jv = e2 + 1;
            let kend = jv + vtx.len();
            assert(s[e1] == ' ') by {
                assert(s.subrange(e1, e1 + 1) == sp);
                assert(s.subrange(e1, e1 + 1)[0] == sp[0]);
            }
            assert(s[e2] == ' ') by {
                assert(s.subrange(e2, e2 + 1) == sp);
                assert(s.subrange(e2, e2 + 1)[0] == sp[0]);
            }
            assert(s[kend] == '\n') by {
                assert(s.subrange(kend, kend + 1) == nl);
                assert(s.subrange(kend, kend + 1)[0] == nl[0]);
            }
            assert forall|k: int| p <= k < e1 implies is_token_char(#[trigger] s[k]) by {
                assert(s[k] == category[k - p]);
            }
            lemma_scan_token_exact(s, p, e1);
            assert(s.subrange(p, e1) == category);
            lemma_chars_of(s, p2, name);
            assert(s[p2] == name[0]);
            assert(is_token_char(name[0]));
            lemma_skip_inline_exact(s, e1, p2);
            assert forall|k: int| p2 <= k < e2 implies is_token_char(#[trigger] s[k]) by {
                assert(s[k] == name[k - p2]);
            }
            lemma_scan_token_exact(s, p2, e2);
            assert(s.subrange(p2, e2) == name);
            assert(value is Object);
            assert(vtx.len() > 0 && vtx[0] == '{') by {
                lemma_value_first_char(value, indent);
            }
            lemma_chars_of(s, jv, vtx);
            assert(s[jv] == '{');
            lemma_skip_inline_exact(s, e2, jv);
            assert(s.subrange(jv, jv + vtx.len()) == vtx);
            lemma_parse_value_inv(s, jv, value, indent);
            assert(spec_parse_value(s, jv) == Some((value, kend)));
            assert(spec_at_pair_end(s, kend)) by {
                lemma_skip_inline_exact(s, kend, kend);
            }
            assert(kend == i + etx.len() - 1);
        },
    }
}

/// The first character of a serialized object is `{`; of a serialized
/// quoted string, `"`.
proof fn lemma_value_first_char(v: ValueModel, indent: Seq<char>)
    requires
        v is Object || v is Quoted,
    ensures
        spec_serialize_value(v, indent).len() > 0,
        v is Object ==> spec_serialize_value(v, indent)[0] == '{',
        v is Quoted ==> spec_serialize_value(v, indent)[0] == '"',
{
}

/// The shape of a serialized entry: it starts with its indentation, a token
/// character follows, and it ends with a line break; it is therefore longer
/// than the indentation by at least two.
proof fn lemma_entry_shape(e: EntryModel, indent: Seq<char>)
    requires
        wf_entry(e),
    ensures
        spec_serialize_entry(e, indent).len() >= indent.len() + 2,
{
    match e {
        EntryModel::Key(name) => {},
        EntryModel::KeyValue(name, value) => {},
        EntryModel::ObjectKeyValue(category, name, value) => {},
    }
}

/// A serialized entry starts with its indentation.
proof fn lemma_entry_starts_with_indent(e: EntryModel, indent: Seq<char>, off: int)
    requires
        wf_entry(e),
        wf_indent(indent),
        0 <= off < indent.len(),
    ensures
        spec_serialize_entry(e, indent)[off] == ' ',
{
    match e {
        EntryModel::Key(name) => {},
        EntryModel::KeyValue(name, value) => {},
        EntryModel::ObjectKeyValue(category, name, value) => {},
    }
}

/// Right after its indentation, a serialized entry holds the first
/// character of its leading name, a token character.
proof fn lemma_entry_name_after_indent(e: EntryModel, indent: Seq<char>)
    requires
        wf_entry(e),
    ensures
        is_token_char(spec_serialize_entry(e, indent)[indent.len() as int]),
{
    match e {
        EntryModel::Key(name) => {
            assert(spec_serialize_entry(e, indent)[indent.len() as int] == name[0]);
        },
        EntryModel::KeyValue(name, value) => {
            assert(spec_serialize_entry(e, indent)[indent.len() as int] == name[0]);
        },
        EntryModel::ObjectKeyValue(category, name, value) => {
            assert(spec_serialize_entry(e, indent)[indent.len() as int] == category[0]);
        },
    }
}

/// A serialized entry ends with a line break.
proof fn lemma_entry_ends_with_newline(e: EntryModel, indent: Seq<char>)
    requires
        wf_entry(e),
    ensures
        spec_serialize_entry(e, indent)[spec_serialize_entry(e, indent).len() - 1] == '\n',
{
    match e {
        EntryModel::Key(name) => {},
        EntryModel::KeyValue(name, value) => {},
        EntryModel::ObjectKeyValue(category, name, value) => {},
    }
}

/// A joined line block starts with the first character of its first line.
proof fn lemma_join_first_char(lines: Seq<Seq<char>>)
    requires
        lines.len() >= 1,
        forall|i: int| 0 <= i < lines.len() ==> wf_line(#[trigger] lines[i]),
    ensures
        spec_join_lines(lines).len() >= lines[0].len() >= 1,
        spec_join_lines(lines)[0] == lines[0][0],
{
    if lines.len() == 1 {
    } else {
        assert(spec_join_lines(lines) == lines[0] + seq!['\n'] + spec_join_lines(
            lines.drop_first(),
        ));
        assert((lines[0] + seq!['\n'] + spec_join_lines(lines.drop_first()))[0] == lines[0][0]);
    }
}

/// What parsing the epilogue of serialized output yields: the lines back if
/// there are exactly three of them, a failure otherwise.
#[verifier::rlimit(80)]
proof fn lemma_parse_trailing_of_join(s: Seq<char>, k: int, lines: Seq<Seq<char>>)
    requires
        0 <= k,
        k + 2 + spec_join_lines(lines).len() == s.len(),
        s[k] == '\n',
        s[k + 1] == '\n',
        s.subrange(k + 2, s.len() as int) == spec_join_lines(lines),
        forall|i: int| 0 <= i < lines.len() ==> wf_line(#[trigger] lines[i]),
    ensures
        lines.len() == 3 ==> spec_parse_trailing(s, k) == Some(lines),
        lines.len() != 3 ==> spec_parse_trailing(s, k) is None,
{
    let jp0 = k + 2;
    let nl = seq!['\n'];
    if lines.len() == 0 {
        lemma_skip_ws_exact(s, k, s.len() as int);
    } else if lines.len() == 1 {
        let l0 = lines[0];
        lemma_chars_of(s, jp0, l0);
        assert(s[jp0] == l0[0]);
        lemma_skip_ws_exact(s, k, jp0);
        assert forall|m: int| jp0 <= m < s.len() implies #[trigger] s[m] != '\n' by {
            assert(s[m] == l0[m - jp0]);
        }
        lemma_scan_line_exact(s, jp0, s.len() as int);
        lemma_skip_ws_exact(s, s.len() as int, s.len() as int);
    } else if lines.len() == 2 {
        let l0 = lines[0];
        let l1 = lines[1];
        assert(spec_join_lines(lines.drop_first()) == l1);
        assert(spec_join_lines(lines) == l0 + nl + l1);
        lemma_subrange_split(s, jp0, l0 + nl, l1);
        lemma_subrange_split(s, jp0, l0, nl);
        lemma_chars_of(s, jp0, l0);
        let f1 = jp0 + l0.len();
        let jp1 = f1 + 1;
        assert(s[f1] == '\n') by {
            assert(s.subrange(f1, f1 + 1)[0] == nl[0]);
        }
        lemma_chars_of(s, jp1, l1);
        assert(s[jp0] == l0[0]);
        assert(s[jp1] == l1[0]);
        lemma_skip_ws_exact(s, k, jp0);
        assert forall|m: int| jp0 <= m < f1 implies #[trigger] s[m] != '\n' by {
            assert(s[m] == l0[m - jp0]);
        }
        lemma_scan_line_exact(s, jp0, f1);
        lemma_skip_ws_exact(s, f1, jp1);
        assert forall|m: int| jp1 <= m < s.len() implies #[trigger] s[m] != '\n' by {
            assert(s[m] == l1[m - jp1]);
        }
        lemma_scan_line_exact(s, jp1, s.len() as int);
        lemma_skip_ws_exact(s, s.len() as int, s.len() as int);
    } else {
        let l0 = lines[0];
        let l1 = lines[1];
        let l2 = lines[2];
        let d1 = lines.drop_first();
        let d2 = d1.drop_first();
        let d3 = d2.drop_first();
        assert(d1[0] == l1 && d2[0] == l2);
        assert(d1.len() == lines.len() - 1 && d2.len() == lines.len() - 2 && d3.len()
            == lines.len() - 3);
        assert(spec_join_lines(lines) == l0 + nl + spec_join_lines(d1));
        assert(spec_join_lines(d1) == l1 + nl + spec_join_lines(d2));
        let tail2 = spec_join_lines(d2);
        lemma_subrange_split(s, jp0, l0 + nl, spec_join_lines(d1));
        lemma_subrange_split(s, jp0, l0, nl);
        let f1 = jp0 + l0.len();
        let jp1 = f1 + 1;
        lemma_subrange_split(s, jp1, l1 + nl, tail2);
        lemma_subrange_split(s, jp1, l1, nl);
        let f2 = jp1 + l1.len();
        let jp2 = f2 + 1;
        lemma_chars_of(s, jp0, l0);
        lemma_chars_of(s, jp1, l1);
        assert(s[jp0] == l0[0]);
        assert(s[jp1] == l1[0]);
        assert(s[f1] == '\n') by {
            assert(s.subrange(f1, f1 + 1)[0] == nl[0]);
        }
        assert(s[f2] == '\n') by {
            assert(s.subrange(f2, f2 + 1)[0] == nl[0]);
        }
        lemma_skip_ws_exact(s, k, jp0);
        assert forall|m: int| jp0 <= m < f1 implies #[trigger] s[m] != '\n' by {
            assert(s[m] == l0[m - jp0]);
        }
        lemma_scan_line_exact(s, jp0, f1);
        lemma_skip_ws_exact(s, f1, jp1);
        assert forall|m: int| jp1 <= m < f2 implies #[trigger] s[m] != '\n' by {
            assert(s[m] == l1[m - jp1]);
        }
        lemma_scan_line_exact(s, jp1, f2);
        assert forall|m: int| 0 <= m < d2.len() implies wf_line(#[trigger] d2[m]) by {
            assert(d2[m] == lines[m + 2]);
        }
        lemma_join_first_char(d2);
        assert(s[jp2] == tail2[0]) by {
            lemma_chars_of(s, jp2, tail2);
        }
        assert(s[jp2] == l2[0]);
        assert(!is_space(s[jp2]));
        lemma_skip_ws_exact(s, f2, jp2);
        if lines.len() == 3 {
            assert(tail2 == l2);
            lemma_chars_of(s, jp2, l2);
            assert(s[jp2] == l2[0]);
            assert forall|m: int| jp2 <= m < s.len() implies #[trigger] s[m] != '\n' by {
                assert(s[m] == l2[m - jp2]);
            }
            lemma_scan_line_exact(s, jp2, s.len() as int);
            lemma_skip_ws_exact(s, s.len() as int, s.len() as int);
            assert(s.subrange(jp0, f1) == l0);
            assert(s.subrange(jp1, f2) == l1);
            assert(s.subrange(jp2, s.len() as int) == l2);
            assert(seq![l0, l1, l2] =~= lines);
        } else {
            assert(tail2 == l2 + nl + spec_join_lines(d3));
            lemma_subrange_split(s, jp2, l2 + nl, spec_join_lines(d3));
            lemma_subrange_split(s, jp2, l2, nl);
            let f3 = jp2 + l2.len();
            let jp3 = f3 + 1;
            lemma_chars_of(s, jp2, l2);
            assert(s[jp2] == l2[0]);
            assert(s[f3] == '\n') by {
                assert(s.subrange(f3, f3 + 1)[0] == nl[0]);
            }
            assert forall|m: int| jp2 <= m < f3 implies #[trigger] s[m] != '\n' by {
                assert(s[m] == l2[m - jp2]);
            }
            lemma_scan_line_exact(s, jp2, f3);
            assert forall|m: int| 0 <= m < d3.len() implies wf_line(#[trigger] d3[m]) by {
                assert(d3[m] == lines[m + 3]);
            }
            lemma_join_first_char(d3);
            assert(s[jp3] == spec_join_lines(d3)[0]) by {
                lemma_chars_of(s, jp3, spec_join_lines(d3));
            }
            assert(d3[0] == lines[3]);
            assert(!is_space(s[jp3]));
            lemma_skip_ws_exact(s, f3, jp3);
            assert(jp3 < s.len());
        }
    }
}

/// Parsing inverts serialization, file level: how a whole serialized file
/// parses. The front — the top-level pair — always parses back; the result
/// then turns on the epilogue alone.
#[verifier::rlimit(80)]
proof fn lemma_parse_file_of_serialized(f: FileModel)
    requires
        f.values is Object,
        f.values->Object_0.len() == 1,
        f.values->Object_0[0] is KeyValue,
        wf_token(f.values->Object_0[0]->KeyValue_0),
        f.values->Object_0[0]->KeyValue_1 is Object,
        wf_value(f.values->Object_0[0]->KeyValue_1),
        forall|i: int| 0 <= i < f.trailing_lines.len() ==> wf_line(#[trigger] f.trailing_lines[i]),
    ensures
        f.trailing_lines.len() == 3 ==> spec_parse_file(spec_serialize_file(f)) == Some(f),
        f.trailing_lines.len() != 3 ==> spec_parse_file(spec_serialize_file(f)) is None,
{
    let s = spec_serialize_file(f);
    let es = f.values->Object_0;
    let kv = es[0];
    let nm = kv->KeyValue_0;
    let vv = kv->KeyValue_1;
    assert(kv == EntryModel::KeyValue(nm, vv));
    let empty = Seq::<char>::empty();
    let blk = spec_serialize_entries(es, empty);
    let etx = spec_serialize_entry(kv, empty);
    let vtx = spec_serialize_value(vv, empty);
    let sp = seq![' '];
    let nl = seq!['\n'];
    let join = spec_join_lines(f.trailing_lines);
    assert(es.drop_first().len() == 0);
    reveal_with_fuel(spec_serialize_entries, 3);
    assert(blk =~= etx);
    assert(etx =~= nm + sp + vtx + nl);
    assert(s == blk + nl + join);
    assert(s =~= (nm + sp + vtx + nl) + nl + join);
    let s2 = (nm + sp + vtx + nl) + nl + join;
    let n1 = nm.len() as int;
    let jv = n1 + 1;
    let k = jv + vtx.len();
    assert(s.subrange(0, s.len() as int) =~= s);
    assert(s.subrange(0, s.len() as int) == ((nm + sp + vtx + nl) + nl) + join);
    lemma_subrange_split(s, 0, (nm + sp + vtx + nl) + nl, join);
    lemma_subrange_split(s, 0, nm + sp + vtx + nl, nl);
    lemma_subrange_split(s, 0, nm + sp + vtx, nl);
    lemma_subrange_split(s, 0, nm + sp, vtx);
    lemma_subrange_split(s, 0, nm, sp);
    lemma_chars_of(s, 0, nm);
    assert(s[0] == nm[0]);
    assert(is_token_char(nm[0]));
    lemma_skip_ws_exact(s, 0, 0);
    assert(s[n1] == ' ') by {
        assert(s.subrange(n1, n1 + 1)[0] == sp[0]);
    }
    assert forall|m: int| 0 <= m < n1 implies is_token_char(#[trigger] s[m]) by {
        assert(s[m] == nm[m]);
    }
    lemma_scan_token_exact(s, 0, n1);
    assert(s.subrange(0, n1) == nm);
    lemma_value_first_char(vv, empty);
    assert(s[jv] == '{') by {
        lemma_chars_of(s, jv, vtx);
    }
    lemma_skip_inline_exact(s, n1, jv);
    lemma_parse_value_inv(s, jv, vv, empty);
    assert(spec_parse_value(s, jv) == Some((vv, k)));
    assert(s[k] == '\n') by {
        assert(s.subrange(k, k + 1)[0] == nl[0]);
    }
    assert(s[k + 1] == '\n') by {
        assert(s.subrange(k + 1, k + 2)[0] == nl[0]);
    }
    assert(s.subrange(k + 2, s.len() as int) == join);
    lemma_parse_trailing_of_join(s, k, f.trailing_lines);
    assert(seq![EntryModel::KeyValue(nm, vv)] =~= es);
    if f.trailing_lines.len() == 3 {
        assert(spec_parse_file(s) == Some(
            FileModel {
                values: ValueModel::Object(seq![EntryModel::KeyValue(nm, vv)]),
                trailing_lines: f.trailing_lines,
            },
        ));
        assert(f == FileModel { values: f.values, trailing_lines: f.trailing_lines });
    }
}

/// Serializing a well-formed tree and parsing the result yields that tree
/// again: the serializer's output is always accepted, and nothing about the
/// tree — entries, their order, their text — is lost.
pub proof fn lemma_serialize_then_parse(f: FileModel)
    requires
        wf_file(f),
    ensures
        spec_parse_file(spec_serialize_file(f)) == Some(f),
{
    lemma_parse_file_of_serialized(f);
}

/// Structural round-trip: for every document the parser accepts, parsing
/// the serialization of the parse result yields that same result — the
/// serialized text need not equal the original document, but re-parsing it
/// changes nothing.
pub proof fn lemma_structural_round_trip(d: Seq<char>)
    requires
        spec_parse_file(d) is Some,
    ensures
        spec_parse_file(spec_serialize_file(spec_parse_file(d)->Some_0)) == spec_parse_file(d),
{
    lemma_parse_file_wf(d);
    lemma_serialize_then_parse(spec_parse_file(d)->Some_0);
}

/// Trailing-line arity: a serialized document with fewer or more than
/// three trailing lines fails to parse, however well-formed the rest is.
pub proof fn lemma_trailing_line_arity(f: FileModel)
    requires
        f.values is Object,
        f.values->Object_0.len() == 1,
        f.values->Object_0[0] is KeyValue,
        wf_token(f.values->Object_0[0]->KeyValue_0),
        f.values->Object_0[0]->KeyValue_1 is Object,
        wf_value(f.values->Object_0[0]->KeyValue_1),
        forall|i: int| 0 <= i < f.trailing_lines.len() ==> wf_line(#[trigger] f.trailing_lines[i]),
        f.trailing_lines.len() != 3,
    ensures
        spec_parse_file(spec_serialize_file(f)) is None,
{
    lemma_parse_file_of_serialized(f);
}

/// Order preservation: the entries of every object come back from the
/// round trip in source order, entry by entry.
pub proof fn lemma_order_preserved(f: FileModel)
    requires
        wf_file(f),
    ensures
        spec_parse_file(spec_serialize_file(f)) == Some(f),
        forall|i: int|
            0 <= i < f.values->Object_0.len()
                ==> spec_parse_file(spec_serialize_file(f))->Some_0.values->Object_0[i]
                == #[trigger] f.values->Object_0[i],
{
    lemma_serialize_then_parse(f);
}

/// Pair arity, the failing shapes: three or more bare leading tokens on a
/// settings line fail to parse.
pub proof fn lemma_three_leading_tokens_fail(s: Seq<char>, i: int, t1: Seq<char>, t2: Seq<char>)
    requires
        wf_token(t1),
        wf_token(t2),
        0 <= i,
        i + t1.len() + 1 + t2.len() + 1 < s.len(),
        s.subrange(i, i + t1.len() + 1 + t2.len() + 1) == t1 + seq![' '] + t2 + seq![' '],
        is_token_char(s[i + t1.len() + 1 + t2.len() + 1]),
    ensures
        spec_parse_entry(s, i) is None,
{
    let sp = seq![' '];
    lemma_subrange_split(s, i, t1 + sp + t2, sp);
    lemma_subrange_split(s, i, t1 + sp, t2);
    lemma_subrange_split(s, i, t1, sp);
    lemma_chars_of(s, i, t1);
    let e1 = i + t1.len();
    let p2 = e1 + 1;
    let e2 = p2 + t2.len();
    let j2 = e2 + 1;
    assert(s[e1] == ' ') by {
        assert(s.subrange(e1, e1 + 1)[0] == sp[0]);
    }
    assert(s[e2] == ' ') by {
        assert(s.subrange(e2, e2 + 1)[0] == sp[0]);
    }
    assert(s[i] == t1[0]);
    assert forall|m: int| i <= m < e1 implies is_token_char(#[trigger] s[m]) by {
        assert(s[m] == t1[m - i]);
    }
    lemma_scan_token_exact(s, i, e1);
    lemma_chars_of(s, p2, t2);
    assert(s[p2] == t2[0]);
    assert(is_token_char(t2[0]));
    lemma_skip_inline_exact(s, e1, p2);
    assert forall|m: int| p2 <= m < e2 implies is_token_char(#[trigger] s[m]) by {
        assert(s[m] == t2[m - p2]);
    }
    lemma_scan_token_exact(s, p2, e2);
    assert(is_token_char(s[j2]));
    lemma_skip_inline_exact(s, e2, j2);
    assert(s[j2] != '\n' && s[j2] != '}' && s[j2] != '{');
}

/// Pair arity, the failing shapes: two leading tokens followed by anything
/// but a nested object — here, a quoted string — fail to parse.
pub proof fn lemma_two_tokens_then_quote_fail(s: Seq<char>, i: int, t1: Seq<char>, t2: Seq<char>)
    requires
        wf_token(t1),
        wf_token(t2),
        0 <= i,
        i + t1.len() + 1 + t2.len() + 1 < s.len(),
        s.subrange(i, i + t1.len() + 1 + t2.len() + 1) == t1 + seq![' '] + t2 + seq![' '],
        s[i + t1.len() + 1 + t2.len() + 1] == '"',
    ensures
        spec_parse_entry(s, i) is None,
{
    let sp = seq![' '];
    lemma_subrange_split(s, i, t1 + sp + t2, sp);
    lemma_subrange_split(s, i, t1 + sp, t2);
    lemma_subrange_split(s, i, t1, sp);
    lemma_chars_of(s, i, t1);
    let e1 = i + t1.len();
    let p2 = e1 + 1;
    let e2 = p2 + t2.len();
    let j2 = e2 + 1;
    assert(s[e1] == ' ') by {
        assert(s.subrange(e1, e1 + 1)[0] == sp[0]);
    }
    assert(s[e2] == ' ') by {
        assert(s.subrange(e2, e2 + 1)[0] == sp[0]);
    }
    assert(s[i] == t1[0]);
    assert forall|m: int| i <= m < e1 implies is_token_char(#[trigger] s[m]) by {
        assert(s[m] == t1[m - i]);
    }
    lemma_scan_token_exact(s, i, e1);
    lemma_chars_of(s, p2, t2);
    assert(s[p2] == t2[0]);
    assert(is_token_char(t2[0]));
    lemma_skip_inline_exact(s, e1, p2);
    assert forall|m: int| p2 <= m < e2 implies is_token_char(#[trigger] s[m]) by {
        assert(s[m] == t2[m - p2]);
    }
    lemma_scan_token_exact(s, p2, e2);
    lemma_skip_inline_exact(s, e2, j2);
    assert(s[j2] != '\n' && s[j2] != '}' && s[j2] != '{');
}

} // verus!
