//! The abstract syntax tree of a configuration file and its serializer.
//!
//! A [`File`] holds one top-level [`Value`] (always an object when produced by
//! the parser) and the three trailing annotation lines of the format's fixed
//! epilogue. [`File::serialize`] renders the tree back to canonical text:
//! each entry on its own line, indented four spaces per nesting level, the
//! root object's entries at depth zero, then one blank line and the trailing
//! lines verbatim.

use vstd::prelude::*;

verus! {

broadcast use vstd::std_specs::vec::group_vec_axioms, vstd::seq::group_seq_axioms, vstd::seq::axiom_seq_index_decreases;

/// Mathematical model of a [`Value`]: text fragments as sequences of
/// characters, object bodies as sequences of entry models.
pub enum ValueModel {
    /// An object: the ordered entries between `{` and `}`.
    Object(Seq<EntryModel>),
    /// Text that appeared double-quoted in the source (or a reserved keyword,
    /// which is rendered quoted on output).
    Quoted(Seq<char>),
    /// A bare run of text: numbers, addresses and other unquoted scalars.
    Unquoted(Seq<char>),
    /// A literal `true` or `false`.
    Boolean(bool),
    /// A literal `null`.
    Null,
}

/// Mathematical model of an [`ObjectValue`].
pub enum EntryModel {
    /// A bare setting name with no value.
    Key(Seq<char>),
    /// A setting name followed by a value.
    KeyValue(Seq<char>, ValueModel),
    /// A category name and an instance name followed by a nested object.
    ObjectKeyValue(Seq<char>, Seq<char>, ValueModel),
}

/// Mathematical model of a [`File`].
pub struct FileModel {
    /// The top-level value.
    pub values: ValueModel,
    /// The trailing annotation lines, in order.
    pub trailing_lines: Seq<Seq<char>>,
}

/// A value in a configuration file.
#[derive(Debug, Eq, PartialEq)]
pub enum Value {
    /// An object with keys and values.
    Object(Vec<ObjectValue>),
    /// A quoted string.
    String(std::string::String),
    /// An unquoted string.
    UnquotedString(std::string::String),
    /// A boolean value.
    Boolean(bool),
    /// A null value.
    Null,
}

/// One entry inside an object body.
#[derive(Debug, Eq, PartialEq)]
pub enum ObjectValue {
    /// A key without a value.
    Key(std::string::String),
    /// A key with a value.
    KeyValue(std::string::String, Value),
    /// A category and an instance name with a value that is an object.
    ObjectKeyValue(std::string::String, std::string::String, Value),
}

/// A whole configuration file.
#[derive(Debug, Eq, PartialEq)]
pub struct File {
    /// The top-level value of the file.
    pub values: Value,
    /// The trailing annotation lines of the file.
    pub trailing_lines: Vec<std::string::String>,
}

/// The models of a sequence of entries, element by element.
pub open spec fn entries_models(entries: Seq<ObjectValue>) -> Seq<EntryModel>
    decreases entries,
{
    Seq::new(
        entries.len(),
        |k: int|
            if 0 <= k < entries.len() {
                entries[k].model()
            } else {
                EntryModel::Key(Seq::empty())
            },
    )
}

impl Value {
    /// The model of this value.
    pub open spec fn model(self) -> ValueModel
        decreases self,
    {
        match self {
            Value::Object(entries) => ValueModel::Object(entries_models(entries@)),
            Value::String(s) => ValueModel::Quoted(s@),
            Value::UnquotedString(s) => ValueModel::Unquoted(s@),
            Value::Boolean(b) => ValueModel::Boolean(b),
            Value::Null => ValueModel::Null,
        }
    }
}

impl ObjectValue {
    /// The model of this entry.
    pub open spec fn model(self) -> EntryModel
        decreases self,
    {
        match self {
            ObjectValue::Key(name) => EntryModel::Key(name@),
            ObjectValue::KeyValue(name, value) => EntryModel::KeyValue(name@, value.model()),
            ObjectValue::ObjectKeyValue(category, name, value) => EntryModel::ObjectKeyValue(
                category@,
                name@,
                value.model(),
            ),
        }
    }
}

/// The views of a sequence of lines, element by element.
pub open spec fn lines_models(lines: Seq<String>) -> Seq<Seq<char>> {
    Seq::new(lines.len(), |k: int| lines[k]@)
}

impl File {
    /// The model of this file.
    pub open spec fn model(self) -> FileModel {
        FileModel {
            values: self.values.model(),
            trailing_lines: lines_models(self.trailing_lines@),
        }
    }
}

/// The characters of the literal `true`.
pub open spec fn true_chars() -> Seq<char> {
    seq!['t', 'r', 'u', 'e']
}

/// The characters of the literal `false`.
pub open spec fn false_chars() -> Seq<char> {
    seq!['f', 'a', 'l', 's', 'e']
}

/// The characters of the literal `null`.
pub open spec fn null_chars() -> Seq<char> {
    seq!['n', 'u', 'l', 'l']
}

/// One level of indentation: four spaces.
pub open spec fn indent_unit() -> Seq<char> {
    seq![' ', ' ', ' ', ' ']
}

/// The canonical text of a value at the given indentation. An object opens
/// with `{` on the current line, renders each entry one level deeper, and
/// closes with `}` on its own line at the current indentation; a quoted
/// string is wrapped in double quotes; the remaining scalars render as their
/// literal text.
pub open spec fn spec_serialize_value(v: ValueModel, indent: Seq<char>) -> Seq<char>
    decreases v,
{
    match v {
        ValueModel::Object(entries) => seq!['{', '\n'] + spec_serialize_entries(
            entries,
            indent + indent_unit(),
        ) + indent + seq!['}'],
        ValueModel::Quoted(s) => seq!['"'] + s + seq!['"'],
        ValueModel::Unquoted(s) => s,
        ValueModel::Boolean(b) => if b {
            true_chars()
        } else {
            false_chars()
        },
        ValueModel::Null => null_chars(),
    }
}

/// The canonical text of one object entry: its own line at the given
/// indentation, the leading tokens separated by single spaces, then the
/// value, then a line break.
pub open spec fn spec_serialize_entry(e: EntryModel, indent: Seq<char>) -> Seq<char>
    decreases e,
{
    match e {
        EntryModel::Key(name) => indent + name + seq!['\n'],
        EntryModel::KeyValue(name, value) => indent + name + seq![' '] + spec_serialize_value(
            value,
            indent,
        ) + seq!['\n'],
        EntryModel::ObjectKeyValue(category, name, value) => indent + category + seq![' '] + name
            + seq![' '] + spec_serialize_value(value, indent) + seq!['\n'],
    }
}

/// The canonical text of a sequence of entries, in order.
pub open spec fn spec_serialize_entries(entries: Seq<EntryModel>, indent: Seq<char>) -> Seq<char>
    decreases entries,
{
    if entries.len() == 0 {
        Seq::empty()
    } else {
        spec_serialize_entry(entries[0], indent) + spec_serialize_entries(
            entries.drop_first(),
            indent,
        )
    }
}

/// The trailing lines joined by single line breaks.
pub open spec fn spec_join_lines(lines: Seq<Seq<char>>) -> Seq<char>
    decreases lines.len(),
{
    if lines.len() == 0 {
        Seq::empty()
    } else if lines.len() == 1 {
        lines[0]
    } else {
        lines[0] + seq!['\n'] + spec_join_lines(lines.drop_first())
    }
}

/// The canonical text of a whole file whose top-level value is an object:
/// the root entries at depth zero (without surrounding braces), one blank
/// line, then the trailing lines verbatim.
pub open spec fn spec_serialize_file(f: FileModel) -> Seq<char> {
    match f.values {
        ValueModel::Object(entries) => spec_serialize_entries(entries, Seq::empty()) + seq!['\n']
            + spec_join_lines(f.trailing_lines),
        _ => Seq::empty(),
    }
}

impl View for Value {
    type V = ValueModel;

    open spec fn view(&self) -> ValueModel {
        self.model()
    }
}

impl View for ObjectValue {
    type V = EntryModel;

    open spec fn view(&self) -> EntryModel {
        self.model()
    }
}

impl View for File {
    type V = FileModel;

    open spec fn view(&self) -> FileModel {
        self.model()
    }
}

/// Concatenation of character sequences is associative.
proof fn lemma_concat_assoc(a: Seq<char>, b: Seq<char>, c: Seq<char>)
    ensures
        a + (b + c) == (a + b) + c,
{
    assert(a + (b + c) =~= (a + b) + c);
}

/// Serializing entries distributes over appending one entry at the end.
proof fn lemma_serialize_entries_push(es: Seq<EntryModel>, e: EntryModel, indent: Seq<char>)
    ensures
        spec_serialize_entries(es.push(e), indent) == spec_serialize_entries(es, indent)
            + spec_serialize_entry(e, indent),
    decreases es.len(),
{
    if es.len() == 0 {
        reveal_with_fuel(spec_serialize_entries, 3);
        assert(es.push(e)[0] == e);
        assert(es.push(e).drop_first() =~= Seq::<EntryModel>::empty());
        assert(spec_serialize_entries(es.push(e), indent) =~= spec_serialize_entries(es, indent)
            + spec_serialize_entry(e, indent));
    } else {
        lemma_serialize_entries_push(es.drop_first(), e, indent);
        assert(es.push(e).drop_first() =~= es.drop_first().push(e));
        assert(es.push(e)[0] == es[0]);
        assert(spec_serialize_entries(es.push(e), indent) == spec_serialize_entry(es[0], indent)
            + (spec_serialize_entries(es.drop_first(), indent) + spec_serialize_entry(e, indent)));
        lemma_concat_assoc(
            spec_serialize_entry(es[0], indent),
            spec_serialize_entries(es.drop_first(), indent),
            spec_serialize_entry(e, indent),
        );
    }
}

/// Joining lines distributes over appending one line at the end, as long as
/// there already is a line for the separator to follow.
proof fn lemma_join_lines_push(lines: Seq<Seq<char>>, l: Seq<char>)
    requires
        lines.len() >= 1,
    ensures
        spec_join_lines(lines.push(l)) == spec_join_lines(lines) + seq!['\n'] + l,
    decreases lines.len(),
{
    if lines.len() == 1 {
        reveal_with_fuel(spec_join_lines, 3);
        assert(lines.push(l)[0] == lines[0]);
        assert(lines.push(l).drop_first() =~= seq![l]);
        assert(spec_join_lines(lines.push(l)) =~= spec_join_lines(lines) + seq!['\n'] + l);
    } else {
        lemma_join_lines_push(lines.drop_first(), l);
        assert(lines.push(l).drop_first() =~= lines.drop_first().push(l));
        assert(lines.push(l)[0] == lines[0]);
        assert(spec_join_lines(lines.push(l)) == lines[0] + seq!['\n'] + (spec_join_lines(
            lines.drop_first(),
        ) + seq!['\n'] + l));
        assert(lines[0] + seq!['\n'] + (spec_join_lines(lines.drop_first()) + seq!['\n'] + l) =~= (
        lines[0] + seq!['\n'] + spec_join_lines(lines.drop_first())) + seq!['\n'] + l);
    }
}

impl ObjectValue {
    /// Serialize this entry: one line at the given indentation (multi-line
    /// for nested objects), ending with a line break.
    pub fn serialize(&self, indent: &str) -> (res: String)
        ensures
            res@ == spec_serialize_entry(self@, indent@),
        decreases *self,
    {
        match self {
            ObjectValue::Key(name) => {
                let mut out = indent.to_owned();
                out.append(name.as_str());
                out.append("\n");
                proof {
                    reveal_strlit("\n");
                    assert(out@ =~= spec_serialize_entry(self@, indent@));
                }
                out
            },
            ObjectValue::KeyValue(name, value) => {
                let mut out = indent.to_owned();
                out.append(name.as_str());
                out.append(" ");
                let piece = value.serialize(indent);
                out.append(piece.as_str());
                out.append("\n");
                proof {
                    reveal_strlit(" ");
                    reveal_strlit("\n");
                    assert(out@ =~= spec_serialize_entry(self@, indent@));
                }
                out
            },
            ObjectValue::ObjectKeyValue(category, name, value) => {
                let mut out = indent.to_owned();
                out.append(category.as_str());
                out.append(" ");
                out.append(name.as_str());
                out.append(" ");
                let piece = value.serialize(indent);
                out.append(piece.as_str());
                out.append("\n");
                proof {
                    reveal_strlit(" ");
                    reveal_strlit("\n");
                    assert(out@ =~= spec_serialize_entry(self@, indent@));
                }
                out
            },
        }
    }
}

impl Value {
    /// Serialize this value at the given indentation.
    pub fn serialize(&self, indent: &str) -> (res: String)
        ensures
            res@ == spec_serialize_value(self@, indent@),
        decreases *self,
    {
        match self {
            Value::Object(o) => {
                let ghost ms = self@->Object_0;
                let mut out = "{\n".to_owned();
                let mut new_indent = indent.to_owned();
                new_indent.append("    ");
                proof {
                    reveal_strlit("{\n");
                    reveal_strlit("    ");
                    assert(out@ =~= seq!['{', '\n']);
                    assert(new_indent@ =~= indent@ + indent_unit());
                    assert(ms.take(0) =~= Seq::<EntryModel>::empty());
                }
                let mut k: usize = 0;
                while k < o.len()
                    invariant
                        k <= o.len(),
                        *self == Value::Object(*o),
                        self@ == ValueModel::Object(ms),
                        ms.len() == o@.len(),
                        forall|j: int| 0 <= j < o@.len() ==> ms[j] == o@[j]@,
                        new_indent@ == indent@ + indent_unit(),
                        out@ == seq!['{', '\n'] + spec_serialize_entries(ms.take(k as int), new_indent@),
                    decreases o.len() - k,
                {
                    proof {
                        assert(*self == Value::Object(*o));
                        assert(decreases_to!(*o => o@));
                        assert(decreases_to!(o@ => o@[k as int]));
                    }
                    let piece = o[k].serialize(new_indent.as_str());
                    out.append(piece.as_str());
                    proof {
                        lemma_serialize_entries_push(ms.take(k as int), ms[k as int], new_indent@);
                        assert(ms.take(k as int).push(ms[k as int]) =~= ms.take(k + 1 as int));
                        assert(out@ =~= seq!['{', '\n'] + spec_serialize_entries(
                            ms.take(k + 1 as int),
                            new_indent@,
                        ));
                    }
                    k += 1;
                }
                out.append(indent);
                out.append("}");
                proof {
                    reveal_strlit("}");
                    assert(ms.take(o@.len() as int) =~= ms);
                    assert(out@ =~= spec_serialize_value(self@, indent@));
                }
                out
            },
            Value::String(s) => {
                let mut out = "\"".to_owned();
                out.append(s.as_str());
                out.append("\"");
                proof {
                    reveal_strlit("\"");
                    assert(out@ =~= spec_serialize_value(self@, indent@));
                }
                out
            },
            Value::UnquotedString(s) => s.clone(),
            Value::Boolean(b) => {
                if *b {
                    let out = "true".to_owned();
                    proof {
                        reveal_strlit("true");
                        assert(out@ =~= true_chars());
                    }
                    out
                } else {
                    let out = "false".to_owned();
                    proof {
                        reveal_strlit("false");
                        assert(out@ =~= false_chars());
                    }
                    out
                }
            },
            Value::Null => {
                let out = "null".to_owned();
                proof {
                    reveal_strlit("null");
                    assert(out@ =~= null_chars());
                }
                out
            },
        }
    }
}

impl File {
    /// Serialize the file back to a string: the root object's entries at
    /// depth zero, one blank line, then the trailing lines verbatim. The
    /// top-level value must be an object; the format cannot represent
    /// anything else.
    pub fn serialize(&self) -> (res: String)
        requires
            self@.values is Object,
        ensures
            res@ == spec_serialize_file(self@),
    {
        let ghost ms = self@.values->Object_0;
        let ghost lines = self@.trailing_lines;
        let mut out = "".to_owned();
        proof {
            reveal_strlit("");
            reveal_strlit("    ");
            assert(out@ =~= Seq::<char>::empty());
            assert(ms.take(0) =~= Seq::<EntryModel>::empty());
        }
        match &self.values {
            Value::Object(o) => {
                let mut k: usize = 0;
                while k < o.len()
                    invariant
                        k <= o.len(),
                        self@.values == ValueModel::Object(ms),
                        ms.len() == o@.len(),
                        forall|j: int| 0 <= j < o@.len() ==> ms[j] == o@[j]@,
                        out@ == spec_serialize_entries(ms.take(k as int), Seq::<char>::empty()),
                    decreases o.len() - k,
                {
                    let empty_indent = "".to_owned();
                    proof {
                        reveal_strlit("");
                        assert(empty_indent@ =~= Seq::<char>::empty());
                    }
                    let piece = o[k].serialize(empty_indent.as_str());
                    out.append(piece.as_str());
                    proof {
                        lemma_serialize_entries_push(
                            ms.take(k as int),
                            ms[k as int],
                            Seq::<char>::empty(),
                        );
                        assert(ms.take(k as int).push(ms[k as int]) =~= ms.take(k + 1 as int));
                        assert(out@ =~= spec_serialize_entries(
                            ms.take(k + 1 as int),
                            Seq::<char>::empty(),
                        ));
                    }
                    k += 1;
                }
                proof {
                    assert(ms.take(o@.len() as int) =~= ms);
                }
            },
            _ => {
                proof {
                    assert(false);
                }
            },
        }
        out.append("\n");
        proof {
            reveal_strlit("\n");
            assert(lines.take(0) =~= Seq::<Seq<char>>::empty());
            assert(out@ =~= spec_serialize_entries(ms, Seq::<char>::empty()) + seq!['\n']
                + spec_join_lines(lines.take(0)));
        }
        let mut k: usize = 0;
        while k < self.trailing_lines.len()
            invariant
                k <= self.trailing_lines.len(),
                self@.values == ValueModel::Object(ms),
                lines == self@.trailing_lines,
                lines.len() == self.trailing_lines@.len(),
                forall|j: int| 0 <= j < lines.len() ==> lines[j] == self.trailing_lines@[j]@,
                out@ == spec_serialize_entries(ms, Seq::<char>::empty()) + seq!['\n']
                    + spec_join_lines(lines.take(k as int)),
            decreases self.trailing_lines.len() - k,
        {
            if k > 0 {
                out.append("\n");
            }
            out.append(self.trailing_lines[k].as_str());
            proof {
                reveal_strlit("\n");
                assert(lines.take(k as int).push(lines[k as int]) =~= lines.take(k + 1 as int));
                if k == 0 {
                    assert(spec_join_lines(lines.take(1)) == lines[0]);
                } else {
                    lemma_join_lines_push(lines.take(k as int), lines[k as int]);
                }
                assert(out@ =~= spec_serialize_entries(ms, Seq::<char>::empty()) + seq!['\n']
                    + spec_join_lines(lines.take(k + 1 as int)));
            }
            k += 1;
        }
        proof {
            assert(lines.take(lines.len() as int) =~= lines);
            assert(out@ =~= spec_serialize_file(self@));
        }
        out
    }
}

} // verus!
