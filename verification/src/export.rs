//! The text form of a configuration: the lines of an editor written out in
//! groups, so that they can be read back line by line.

use crate::outside::push_char;
use vstd::prelude::*;
use vstd::string::StringExecFns;

verus! {

/// The lines of a configuration as an editor holds them, by kind and in the
/// order in which they were entered. An empty string is a line that was left
/// blank.
#[derive(Debug, PartialEq)]
pub struct ConfEditor {
    pub configurations: Vec<String>,
    pub rules: Vec<String>,
    pub operations: Vec<String>,
    pub variables: Vec<String>,
}

impl Default for ConfEditor {
    fn default() -> (editor: Self)
        ensures
            editor.configurations@.len() == 0,
            editor.rules@.len() == 0,
            editor.operations@.len() == 0,
            editor.variables@.len() == 0,
    {
        ConfEditor {
            configurations: Vec::new(),
            rules: Vec::new(),
            operations: Vec::new(),
            variables: Vec::new(),
        }
    }
}

/// The character that ends a line.
pub open spec fn line_end() -> char {
    '\n'
}

/// The texts of a list of strings.
pub open spec fn texts(lines: Seq<String>) -> Seq<Seq<char>> {
    Seq::new(lines.len(), |i: int| lines[i]@)
}

/// The lines of `lines` that are not empty, each followed by a line end.
pub open spec fn written_lines(lines: Seq<Seq<char>>) -> Seq<char>
    decreases lines.len(),
{
    if lines.len() == 0 {
        Seq::empty()
    } else if lines.last().len() == 0 {
        written_lines(lines.drop_last())
    } else {
        written_lines(lines.drop_last()) + lines.last().push(line_end())
    }
}

/// A group of lines as it is written: its lines, then one empty line.
pub open spec fn written_group(lines: Seq<Seq<char>>) -> Seq<char> {
    written_lines(lines).push(line_end())
}

/// The text of four groups: settings, variables, operations and rules, in
/// this order.
pub open spec fn written(
    configurations: Seq<Seq<char>>,
    variables: Seq<Seq<char>>,
    operations: Seq<Seq<char>>,
    rules: Seq<Seq<char>>,
) -> Seq<char> {
    written_group(configurations) + written_group(variables) + written_group(operations)
        + written_group(rules)
}

/// The text of a whole configuration.
pub open spec fn serialized(editor: ConfEditor) -> Seq<char> {
    written(
        texts(editor.configurations@),
        texts(editor.variables@),
        texts(editor.operations@),
        texts(editor.rules@),
    )
}

/// Adds one group to `text`.
fn write_group(text: &mut String, lines: &Vec<String>)
    ensures
        final(text)@ == old(text)@ + written_group(texts(lines@)),
{
    let ghost before = text@;
    let ghost all = texts(lines@);
    let mut i: usize = 0;
    while i < lines.len()
        invariant
            i <= lines.len(),
            all == texts(lines@),
            text@ == before + written_lines(all.take(i as int)),
        decreases lines.len() - i,
    {
        proof {
            assert(all.take(i + 1).drop_last() =~= all.take(i as int));
            assert(all.take(i + 1).last() == lines@[i as int]@);
        }
        if !lines[i].as_str().is_empty() {
            text.append(lines[i].as_str());
            push_char(text, '\n');
            assert(text@ =~= before + (written_lines(all.take(i as int)) + lines[i as int]@.push(
                line_end(),
            )));
        }
        i += 1;
    }
    proof {
        assert(all.take(lines.len() as int) =~= all);
    }
    push_char(text, '\n');
    assert(text@ =~= before + written_group(all));
}

/// Writes the configuration out: the four groups in their order, each
/// closed by an empty line, with the blank entries left out.
pub fn serialize_renderer(editor: &ConfEditor) -> (text: String)
    ensures
        text@ == serialized(*editor),
{
    let mut res = String::new();
    write_group(&mut res, &editor.configurations);
    write_group(&mut res, &editor.variables);
    write_group(&mut res, &editor.operations);
    write_group(&mut res, &editor.rules);
    assert(res@ =~= serialized(*editor));
    res
}

} // verus!
