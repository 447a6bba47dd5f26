//! The grammar of documents, as functions from a text and a position to
//! what is read there and where reading stops.

use vstd::prelude::*;
use crate::dom::{ElementModel, NodeModel, NodeTypeModel};
use crate::scan::{
    ParseError, Step, begins_with, expect_at, lemma_run, remaining, run_end, skip_whitespace,
    slice, whitespace_chars,
};

verus! {

/// Whether `c` may appear in the name of a tag or of an attribute: an ASCII
/// letter or digit.
pub open spec fn is_tag_char(c: char) -> bool {
    ('a' <= c && c <= 'z') || ('A' <= c && c <= 'Z') || ('0' <= c && c <= '9')
}

/// The characters that names are made of.
pub open spec fn tag_chars() -> spec_fn(char) -> bool {
    |c: char| is_tag_char(c)
}

/// Every character but `stop`.
pub open spec fn chars_until(stop: char) -> spec_fn(char) -> bool {
    |c: char| c != stop
}

/// Where the name that starts at `pos` ends.
pub open spec fn tag_name_end(input: Seq<char>, pos: int) -> int {
    run_end(input, pos, tag_chars())
}

/// A text node.
pub open spec fn text_node(data: Seq<char>) -> NodeModel {
    NodeModel { children: Seq::empty(), node_type: NodeTypeModel::Text(data) }
}

/// An element node.
pub open spec fn element_node(
    tag_name: Seq<char>,
    attributes: Map<Seq<char>, Seq<char>>,
    children: Seq<NodeModel>,
) -> NodeModel {
    NodeModel {
        children,
        node_type: NodeTypeModel::Element(ElementModel { tag_name, attributes }),
    }
}

/// The quoted value that starts at `pos`: everything between a quote, single
/// or double, and the next quote of the same kind.
pub open spec fn attr_value_at(input: Seq<char>, pos: int) -> Step<Seq<char>> {
    if pos < 0 || pos >= input.len() {
        Step { pos, result: Err(ParseError::UnexpectedEnd) }
    } else if input[pos] != '"' && input[pos] != '\'' {
        Step { pos, result: Err(ParseError::MalformedAttribute) }
    } else {
        let end = run_end(input, pos + 1, chars_until(input[pos]));
        if end >= input.len() {
            Step { pos: end, result: Err(ParseError::UnexpectedEnd) }
        } else {
            Step { pos: end + 1, result: Ok(slice(input, pos + 1, end)) }
        }
    }
}

/// The attribute that starts at `pos`: a name, `=` and a quoted value.
pub open spec fn attr_at(input: Seq<char>, pos: int) -> Step<(Seq<char>, Seq<char>)> {
    let name_end = tag_name_end(input, pos);
    let equals = expect_at(input, name_end, '=', ParseError::MalformedAttribute);
    match equals.result {
        Err(e) => Step { pos: equals.pos, result: Err(e) },
        Ok(_) => {
            let value = attr_value_at(input, equals.pos);
            match value.result {
                Err(e) => Step { pos: value.pos, result: Err(e) },
                Ok(v) => Step { pos: value.pos, result: Ok((slice(input, pos, name_end), v)) },
            }
        },
    }
}

/// An attribute ends within the input, and one that is read without error
/// ends after its start.
pub proof fn lemma_attr_bounds(input: Seq<char>, pos: int)
    requires
        0 <= pos <= input.len(),
    ensures
        pos <= attr_at(input, pos).pos <= input.len(),
        attr_at(input, pos).result is Ok ==> pos < attr_at(input, pos).pos,
{
    lemma_run(input, pos, tag_chars());
    let name_end = tag_name_end(input, pos);
    if name_end < input.len() && input[name_end] == '=' {
        if name_end + 1 < input.len() {
            lemma_run(input, name_end + 2, chars_until(input[name_end + 1]));
        }
    }
}

/// The attributes from `pos` up to the `>` that ends the tag, added to
/// those read so far.  Of two attributes of the same name the later one
/// stays.
pub open spec fn attributes_from(
    input: Seq<char>,
    pos: int,
    so_far: Map<Seq<char>, Seq<char>>,
) -> Step<Map<Seq<char>, Seq<char>>>
    decreases input.len() - pos,
{
    let next = skip_whitespace(input, pos);
    if pos < 0 || next >= input.len() {
        Step { pos: next, result: Err(ParseError::UnexpectedEnd) }
    } else if input[next] == '>' {
        Step { pos: next, result: Ok(so_far) }
    } else {
        let attribute = attr_at(input, next);
        match attribute.result {
            Err(e) => Step { pos: attribute.pos, result: Err(e) },
            Ok(a) => {
                proof {
                    lemma_run(input, pos, whitespace_chars());
                    lemma_attr_bounds(input, next);
                }
                attributes_from(input, attribute.pos, so_far.insert(a.0, a.1))
            },
        }
    }
}

/// A list of attributes ends at or after its start and within the input,
/// and one that is read without error ends before a `>`.
pub proof fn lemma_attributes_bounds(
    input: Seq<char>,
    pos: int,
    so_far: Map<Seq<char>, Seq<char>>,
)
    requires
        0 <= pos <= input.len(),
    ensures
        pos <= attributes_from(input, pos, so_far).pos <= input.len(),
        attributes_from(input, pos, so_far).result is Ok ==> attributes_from(
            input,
            pos,
            so_far,
        ).pos < input.len() && input[attributes_from(input, pos, so_far).pos] == '>',
    decreases input.len() - pos,
{
    lemma_run(input, pos, whitespace_chars());
    let next = skip_whitespace(input, pos);
    if next < input.len() && input[next] != '>' {
        lemma_attr_bounds(input, next);
        let attribute = attr_at(input, next);
        if let Ok(a) = attribute.result {
            lemma_attributes_bounds(input, attribute.pos, so_far.insert(a.0, a.1));
        }
    }
}

/// The closing tag for an element named `tag_name` that starts at `pos`.
pub open spec fn closing_tag_at(input: Seq<char>, pos: int, tag_name: Seq<char>) -> Step<()> {
    let open = expect_at(input, pos, '<', ParseError::MalformedTag);
    match open.result {
        Err(e) => Step { pos: open.pos, result: Err(e) },
        Ok(_) => {
            let slash = expect_at(input, open.pos, '/', ParseError::MalformedTag);
            match slash.result {
                Err(e) => Step { pos: slash.pos, result: Err(e) },
                Ok(_) => {
                    let name_end = tag_name_end(input, slash.pos);
                    if slice(input, slash.pos, name_end) != tag_name {
                        Step { pos: name_end, result: Err(ParseError::MismatchedClosingTag) }
                    } else {
                        expect_at(input, name_end, '>', ParseError::MalformedTag)
                    }
                },
            }
        },
    }
}

/// The element that starts at `pos`: an opening tag with its attributes,
/// the nodes inside, and the closing tag of the same name.
pub open spec fn element_at(input: Seq<char>, pos: int) -> Step<NodeModel>
    decreases remaining(input, pos), 0nat,
{
    let open = expect_at(input, pos, '<', ParseError::MalformedTag);
    match open.result {
        Err(e) => Step { pos: open.pos, result: Err(e) },
        Ok(_) => {
            let name_end = tag_name_end(input, open.pos);
            let tag_name = slice(input, open.pos, name_end);
            let attributes = attributes_from(input, name_end, Map::empty());
            match attributes.result {
                Err(e) => Step { pos: attributes.pos, result: Err(e) },
                Ok(a) => {
                    proof {
                        lemma_run(input, open.pos, tag_chars());
                        lemma_attributes_bounds(input, name_end, Map::empty());
                    }
                    let children = nodes_from(input, attributes.pos + 1, Seq::empty());
                    match children.result {
                        Err(e) => Step { pos: children.pos, result: Err(e) },
                        Ok(c) => {
                            let close = closing_tag_at(input, children.pos, tag_name);
                            match close.result {
                                Err(e) => Step { pos: close.pos, result: Err(e) },
                                Ok(_) => Step {
                                    pos: close.pos,
                                    result: Ok(element_node(tag_name, a, c)),
                                },
                            }
                        },
                    }
                },
            }
        },
    }
}

/// The node that starts at `pos`: an element where it starts with `<`, and
/// otherwise text up to the next `<`.
pub open spec fn node_at(input: Seq<char>, pos: int) -> Step<NodeModel>
    decreases remaining(input, pos), 1nat,
{
    if pos < 0 || pos >= input.len() {
        Step { pos, result: Err(ParseError::UnexpectedEnd) }
    } else if input[pos] == '<' {
        element_at(input, pos)
    } else {
        let end = run_end(input, pos, chars_until('<'));
        Step { pos: end, result: Ok(text_node(slice(input, pos, end))) }
    }
}

/// The sibling nodes from `pos` up to the end of the input or to a closing
/// tag, added to those read so far.  White space before a node is passed
/// over.  Reading goes on after a node as long as the node took up some of
/// the input, which every node does.
pub open spec fn nodes_from(input: Seq<char>, pos: int, so_far: Seq<NodeModel>) -> Step<
    Seq<NodeModel>,
>
    decreases remaining(input, pos), 2nat,
{
    let next = skip_whitespace(input, pos);
    if pos < 0 || next >= input.len() || begins_with(input, next, "</"@) {
        Step { pos: next, result: Ok(so_far) }
    } else {
        proof {
            lemma_run(input, pos, whitespace_chars());
        }
        let node = node_at(input, next);
        match node.result {
            Err(e) => Step { pos: node.pos, result: Err(e) },
            Ok(n) => {
                if node.pos > next {
                    nodes_from(input, node.pos, so_far.push(n))
                } else {
                    Step { pos: node.pos, result: Ok(so_far.push(n)) }
                }
            },
        }
    }
}

/// The root of the document that `nodes` make up: the node itself where
/// there is exactly one, and otherwise an `html` element around them all.
pub open spec fn root_of(nodes: Seq<NodeModel>) -> NodeModel {
    if nodes.len() == 1 {
        nodes[0]
    } else {
        element_node("html"@, Map::empty(), nodes)
    }
}

/// The document that `input` spells, or why it spells none.
pub open spec fn document_of(input: Seq<char>) -> Result<NodeModel, ParseError> {
    match nodes_from(input, 0, Seq::empty()).result {
        Ok(nodes) => Ok(root_of(nodes)),
        Err(e) => Err(e),
    }
}

/// An element ends within the input, and one that is read without error
/// ends after its start.
pub proof fn lemma_element_bounds(input: Seq<char>, pos: int)
    requires
        0 <= pos <= input.len(),
    ensures
        pos <= element_at(input, pos).pos <= input.len(),
        element_at(input, pos).result is Ok ==> pos < element_at(input, pos).pos,
    decreases remaining(input, pos), 0nat,
{
    let open = expect_at(input, pos, '<', ParseError::MalformedTag);
    if open.result is Ok {
        lemma_run(input, open.pos, tag_chars());
        let name_end = tag_name_end(input, open.pos);
        let tag_name = slice(input, open.pos, name_end);
        lemma_attributes_bounds(input, name_end, Map::empty());
        let attributes = attributes_from(input, name_end, Map::empty());
        if attributes.result is Ok {
            lemma_nodes_bounds(input, attributes.pos + 1, Seq::empty());
            let children = nodes_from(input, attributes.pos + 1, Seq::empty());
            if children.result is Ok {
                lemma_closing_tag_bounds(input, children.pos, tag_name);
            }
        }
    }
}

/// A closing tag ends at or after its start and within the input.
pub proof fn lemma_closing_tag_bounds(input: Seq<char>, pos: int, tag_name: Seq<char>)
    requires
        0 <= pos <= input.len(),
    ensures
        pos <= closing_tag_at(input, pos, tag_name).pos <= input.len(),
{
    if pos + 2 <= input.len() {
        lemma_run(input, pos + 2, tag_chars());
    }
}

/// A node ends within the input, and one that is read without error takes
/// up at least one character.
pub proof fn lemma_node_bounds(input: Seq<char>, pos: int)
    requires
        0 <= pos <= input.len(),
    ensures
        pos <= node_at(input, pos).pos <= input.len(),
        node_at(input, pos).result is Ok ==> pos < node_at(input, pos).pos,
    decreases remaining(input, pos), 1nat,
{
    if pos < input.len() {
        if input[pos] == '<' {
            lemma_element_bounds(input, pos);
        } else {
            lemma_run(input, pos + 1, chars_until('<'));
        }
    }
}

/// A sequence of sibling nodes ends at or after its start and within the
/// input.
pub proof fn lemma_nodes_bounds(input: Seq<char>, pos: int, so_far: Seq<NodeModel>)
    requires
        0 <= pos <= input.len(),
    ensures
        pos <= nodes_from(input, pos, so_far).pos <= input.len(),
    decreases remaining(input, pos), 2nat,
{
    lemma_run(input, pos, whitespace_chars());
    let next = skip_whitespace(input, pos);
    if !(next >= input.len() || begins_with(input, next, "</"@)) {
        lemma_node_bounds(input, next);
        let node = node_at(input, next);
        if let Ok(n) = node.result {
            lemma_nodes_bounds(input, node.pos, so_far.push(n));
        }
    }
}

/// After a node that is read without error, reading always goes on with
/// its siblings.
pub proof fn lemma_nodes_go_on(input: Seq<char>, pos: int, so_far: Seq<NodeModel>)
    requires
        0 <= pos <= input.len(),
        skip_whitespace(input, pos) < input.len(),
        !begins_with(input, skip_whitespace(input, pos), "</"@),
        node_at(input, skip_whitespace(input, pos)).result is Ok,
    ensures
        nodes_from(input, pos, so_far) == nodes_from(
            input,
            node_at(input, skip_whitespace(input, pos)).pos,
            so_far.push(node_at(input, skip_whitespace(input, pos)).result->Ok_0),
        ),
{
    lemma_run(input, pos, whitespace_chars());
    lemma_node_bounds(input, skip_whitespace(input, pos));
}

} // verus!
