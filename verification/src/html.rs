//! A parser for a small subset of HTML: opening and closing tags with
//! quoted attributes, and text.  Comments, doctypes, self-closing tags and
//! character entities are not read.

use vstd::prelude::*;
use crate::dom::{AttrMap, Node, attribute_model, elem, node_models, text};
use crate::html_grammar::{
    attr_at, attr_value_at, attributes_from, chars_until, closing_tag_at, document_of,
    element_at, is_tag_char, lemma_attr_bounds, node_at, nodes_from, tag_chars, tag_name_end,
    text_node,
};
use crate::scan::{
    ParseError, Step, at_end, begins_with, expect_at, lemma_run, peek, remaining, run_end,
    skip_whitespace, slice, starts_with_at, take_run, take_while, whitespace_chars,
};
use crate::text::chars_of;

verus! {

/// A document text and the position reading has reached in it, counted in
/// characters.
pub struct Parser {
    pos: usize,
    input: Vec<char>,
}

impl Parser {
    /// The text being read.
    pub closed spec fn text(&self) -> Seq<char> {
        self.input@
    }

    /// The position reading has reached.
    pub closed spec fn position(&self) -> int {
        self.pos as int
    }

    /// A parser at the start of `source`.
    pub fn new(source: &str) -> (p: Parser)
        ensures
            p.position() == 0,
            p.text() == source@,
    {
        Parser { pos: 0, input: chars_of(source) }
    }

    /// The position reading has reached.
    pub fn pos(&self) -> (r: usize)
        ensures
            r == self.position(),
    {
        self.pos
    }

    /// Reads the current character without consuming it.
    pub fn next_char(&self) -> (c: char)
        requires
            !at_end(self.text(), self.position()),
        ensures
            c == self.text()[self.position()],
    {
        peek(&self.input, self.pos)
    }

    /// Do the next characters start with the given string?
    pub fn start_with(&self, s: &str) -> (r: bool)
        ensures
            r == begins_with(self.text(), self.position(), s@),
    {
        if self.pos > self.input.len() {
            return false;
        }
        starts_with_at(&self.input, self.pos, s)
    }

    /// Returns true if all input is consumed.
    pub fn eof(&self) -> (r: bool)
        ensures
            r == at_end(self.text(), self.position()),
    {
        self.pos >= self.input.len()
    }

    /// Returns the current character and moves on to the next one.
    pub fn consume_char(&mut self) -> (c: char)
        requires
            !at_end(old(self).text(), old(self).position()),
        ensures
            c == old(self).text()[old(self).position()],
            final(self).position() == old(self).position() + 1,
            final(self).text() == old(self).text(),
    {
        let c = self.input[self.pos];
        assert(self.pos < self.input.len());
        self.pos += 1;
        c
    }

    /// Consumes characters until `test` returns false, and returns them.
    pub fn consume_while<F>(&mut self, test: F) -> (r: String) where F: Fn(char) -> bool
        requires
            forall|i: int|
                old(self).position() <= i < old(self).text().len() ==> call_requires(
                    test,
                    (#[trigger] old(self).text()[i],),
                ),
        ensures
            final(self).text() == old(self).text(),
            old(self).position() <= final(self).position(),
            !at_end(old(self).text(), old(self).position()) ==> final(self).position() <= old(
                self,
            ).text().len(),
            at_end(old(self).text(), old(self).position()) ==> final(self).position() == old(
                self,
            ).position(),
            r@ == slice(old(self).text(), old(self).position(), final(self).position()),
            forall|i: int|
                old(self).position() <= i < final(self).position() ==> call_ensures(
                    test,
                    (#[trigger] old(self).text()[i],),
                    true,
                ),
            !at_end(final(self).text(), final(self).position()) ==> call_ensures(
                test,
                (old(self).text()[final(self).position()],),
                false,
            ),
    {
        assert forall|i: int| self.pos <= i < self.input@.len() implies call_requires(
            test,
            (#[trigger] self.input@[i],),
        ) by {
            assert(self.text()[i] == self.input@[i]);
        }
        let r = take_while(&self.input, &mut self.pos, test);
        proof {
            if old(self).pos >= old(self).input@.len() {
                assert(r@ =~= Seq::<char>::empty());
            }
        }
        r
    }

    /// Consumes the run of characters that `test` decides, and returns it.
    fn consume_run<F>(&mut self, test: F, Ghost(pred): Ghost<spec_fn(char) -> bool>) -> (r:
        String) where F: Fn(char) -> bool
        requires
            forall|i: int|
                old(self).position() <= i < old(self).text().len() ==> call_requires(
                    test,
                    (#[trigger] old(self).text()[i],),
                ),
            forall|c: char, b: bool| call_ensures(test, (c,), b) ==> b == pred(c),
        ensures
            final(self).text() == old(self).text(),
            final(self).position() == run_end(old(self).text(), old(self).position(), pred),
            old(self).position() <= final(self).position(),
            old(self).position() <= old(self).text().len() ==> final(self).position() <= old(
                self,
            ).text().len(),
            r@ == slice(old(self).text(), old(self).position(), final(self).position()),
    {
        if !self.eof() {
            take_run(&self.input, &mut self.pos, test, Ghost(pred))
        } else {
            let r = String::new();
            assert(r@ =~= slice(self.input@, self.pos as int, self.pos as int));
            r
        }
    }

    /// Consumes and discards zero or more whitespace characters.
    pub fn consume_whitespace(&mut self)
        ensures
            final(self).text() == old(self).text(),
            final(self).position() == skip_whitespace(old(self).text(), old(self).position()),
            old(self).position() <= final(self).position(),
            old(self).position() <= old(self).text().len() ==> final(self).position() <= old(
                self,
            ).text().len(),
    {
        self.consume_run(
            |c: char| -> (b: bool)
                ensures
                    b == crate::text::white_space(c)
                { c.is_whitespace() },
            Ghost(whitespace_chars()),
        );
    }

    /// Parses a tag or attribute name.
    pub fn parse_tag_name(&mut self) -> (r: String)
        ensures
            final(self).text() == old(self).text(),
            final(self).position() == tag_name_end(old(self).text(), old(self).position()),
            old(self).position() <= final(self).position(),
            old(self).position() <= old(self).text().len() ==> final(self).position() <= old(
                self,
            ).text().len(),
            r@ == slice(old(self).text(), old(self).position(), final(self).position()),
    {
        self.consume_run(
            |c: char| -> (b: bool)
                ensures
                    b == is_tag_char(c)
                { (c >= 'a' && c <= 'z') || (c >= 'A' && c <= 'Z') || (c >= '0' && c <= '9') },
            Ghost(tag_chars()),
        )
    }

    /// Consumes the character `want`, or says why it cannot.
    fn expect(&mut self, want: char, otherwise: ParseError) -> (r: Result<(), ParseError>)
        ensures
            final(self).text() == old(self).text(),
            final(self).position() == expect_at(
                old(self).text(),
                old(self).position(),
                want,
                otherwise,
            ).pos,
            r == expect_at(old(self).text(), old(self).position(), want, otherwise).result,
            old(self).position() <= final(self).position(),
            old(self).position() <= old(self).text().len() ==> final(self).position() <= old(
                self,
            ).text().len(),
    {
        if self.eof() {
            Err(ParseError::UnexpectedEnd)
        } else if self.next_char() == want {
            self.consume_char();
            Ok(())
        } else {
            Err(otherwise)
        }
    }

    /// Parses a text node.
    pub fn parse_text(&mut self) -> (r: Node)
        ensures
            final(self).text() == old(self).text(),
            final(self).position() == run_end(
                old(self).text(),
                old(self).position(),
                chars_until('<'),
            ),
            old(self).position() <= final(self).position(),
            r@ == text_node(slice(old(self).text(), old(self).position(), final(self).position())),
    {
        text(
            self.consume_run(
                |c: char| -> (b: bool)
                    ensures
                        b == (c != '<')
                    { c != '<' },
                Ghost(chars_until('<')),
            ),
        )
    }

    /// Parses a quoted value.
    pub fn parse_attr_value(&mut self) -> (r: Result<String, ParseError>)
        ensures
            final(self).text() == old(self).text(),
            final(self).position() == attr_value_at(old(self).text(), old(self).position()).pos,
            old(self).position() <= final(self).position(),
            match r {
                Ok(v) => attr_value_at(old(self).text(), old(self).position()).yields(v@),
                Err(e) => attr_value_at(old(self).text(), old(self).position()).fails(e),
            },
    {
        if self.eof() {
            return Err(ParseError::UnexpectedEnd);
        }
        let open_quote = self.next_char();
        if open_quote != '"' && open_quote != '\'' {
            return Err(ParseError::MalformedAttribute);
        }
        self.consume_char();
        let value = self.consume_run(
            |c: char| -> (b: bool)
                ensures
                    b == (c != open_quote)
                { c != open_quote },
            Ghost(chars_until(open_quote)),
        );
        if self.eof() {
            return Err(ParseError::UnexpectedEnd);
        }
        proof {
            lemma_run(self.input@, old(self).pos + 1, chars_until(open_quote));
        }
        self.consume_char();
        Ok(value)
    }

    /// Parses a single `name="value"` pair.
    pub fn parse_attr(&mut self) -> (r: Result<(String, String), ParseError>)
        ensures
            final(self).text() == old(self).text(),
            final(self).position() == attr_at(old(self).text(), old(self).position()).pos,
            old(self).position() <= final(self).position(),
            match r {
                Ok(a) => attr_at(old(self).text(), old(self).position()).yields((a.0@, a.1@)),
                Err(e) => attr_at(old(self).text(), old(self).position()).fails(e),
            },
    {
        let name = self.parse_tag_name();
        match self.expect('=', ParseError::MalformedAttribute) {
            Ok(_) => {},
            Err(e) => {
                return Err(e);
            },
        }
        match self.parse_attr_value() {
            Ok(value) => Ok((name, value)),
            Err(e) => Err(e),
        }
    }

    /// Parses a list of `name="value"` pairs, separated by whitespace, up
    /// to the `>` that ends the tag.
    pub fn parse_attributes(&mut self) -> (r: Result<AttrMap, ParseError>)
        ensures
            final(self).text() == old(self).text(),
            final(self).position() == attributes_from(
                old(self).text(),
                old(self).position(),
                Map::empty(),
            ).pos,
            old(self).position() <= final(self).position(),
            match r {
                Ok(a) => attributes_from(
                    old(self).text(),
                    old(self).position(),
                    Map::empty(),
                ).yields(attribute_model(a@)),
                Err(e) => attributes_from(
                    old(self).text(),
                    old(self).position(),
                    Map::empty(),
                ).fails(e),
            },
    {
        let ghost input = self.input@;
        let ghost start = self.pos as int;
        let mut attributes: AttrMap = AttrMap::new();
        let mut done = false;
        assert(attribute_model(attributes@) =~= Map::<Seq<char>, Seq<char>>::empty());
        while !done
            invariant
                self.input@ == input,
                input == old(self).input@,
                start == old(self).pos,
                start <= self.pos,
                !done ==> attributes_from(input, start, Map::empty()) == attributes_from(
                    input,
                    self.pos as int,
                    attribute_model(attributes@),
                ),
                done ==> attributes_from(input, start, Map::empty()) == (Step {
                    pos: self.pos as int,
                    result: Ok(attribute_model(attributes@)),
                }),
            decreases remaining(input, self.pos as int) + if done { 0int } else { 1int },
        {
            self.consume_whitespace();
            if self.eof() {
                return Err(ParseError::UnexpectedEnd);
            }
            if self.next_char() == '>' {
                done = true;
            } else {
                let ghost before = attributes@;
                proof {
                    lemma_attr_bounds(input, self.pos as int);
                }
                match self.parse_attr() {
                    Ok(pair) => {
                        let ghost name = pair.0@;
                        let ghost value = pair.1@;
                        attributes.insert(pair.0, pair.1);
                        assert(attribute_model(attributes@) =~= attribute_model(before).insert(
                            name,
                            value,
                        ));
                    },
                    Err(e) => {
                        return Err(e);
                    },
                }
            }
        }
        Ok(attributes)
    }

    /// Parses the closing tag of an element named `tag_name`.
    fn parse_closing_tag(&mut self, tag_name: &String) -> (r: Result<(), ParseError>)
        ensures
            final(self).text() == old(self).text(),
            final(self).position() == closing_tag_at(
                old(self).text(),
                old(self).position(),
                tag_name@,
            ).pos,
            old(self).position() <= final(self).position(),
            r == closing_tag_at(old(self).text(), old(self).position(), tag_name@).result,
    {
        match self.expect('<', ParseError::MalformedTag) {
            Ok(_) => {},
            Err(e) => {
                return Err(e);
            },
        }
        match self.expect('/', ParseError::MalformedTag) {
            Ok(_) => {},
            Err(e) => {
                return Err(e);
            },
        }
        let name = self.parse_tag_name();
        if name != *tag_name {
            return Err(ParseError::MismatchedClosingTag);
        }
        self.expect('>', ParseError::MalformedTag)
    }

    /// Parses a single element, including its open tag, contents, and
    /// closing tag.
    pub fn parse_element(&mut self) -> (r: Result<Node, ParseError>)
        ensures
            final(self).text() == old(self).text(),
            final(self).position() == element_at(old(self).text(), old(self).position()).pos,
            old(self).position() <= final(self).position(),
            r is Ok ==> old(self).position() < final(self).position(),
            match r {
                Ok(n) => element_at(old(self).text(), old(self).position()).yields(n@),
                Err(e) => element_at(old(self).text(), old(self).position()).fails(e),
            },
        decreases remaining(old(self).text(), old(self).position()), 0nat,
    {
        // Opening tag.
        match self.expect('<', ParseError::MalformedTag) {
            Ok(_) => {},
            Err(e) => {
                return Err(e);
            },
        }
        let tag_name = self.parse_tag_name();
        let attrs = match self.parse_attributes() {
            Ok(a) => a,
            Err(e) => {
                return Err(e);
            },
        };
        proof {
            crate::html_grammar::lemma_attributes_bounds(
                self.input@,
                tag_name_end(self.input@, old(self).pos + 1),
                Map::empty(),
            );
            lemma_run(self.input@, old(self).pos + 1, tag_chars());
        }
        self.consume_char();

        // Contents.
        let children = match self.parse_nodes() {
            Ok(c) => c,
            Err(e) => {
                return Err(e);
            },
        };

        // Closing tag.
        match self.parse_closing_tag(&tag_name) {
            Ok(_) => {},
            Err(e) => {
                return Err(e);
            },
        }
        Ok(elem(tag_name, attrs, children))
    }

    /// Parses a single node.
    pub fn parse_node(&mut self) -> (r: Result<Node, ParseError>)
        ensures
            final(self).text() == old(self).text(),
            final(self).position() == node_at(old(self).text(), old(self).position()).pos,
            old(self).position() <= final(self).position(),
            r is Ok ==> old(self).position() < final(self).position(),
            match r {
                Ok(n) => node_at(old(self).text(), old(self).position()).yields(n@),
                Err(e) => node_at(old(self).text(), old(self).position()).fails(e),
            },
        decreases remaining(old(self).text(), old(self).position()), 1nat,
    {
        if self.eof() {
            return Err(ParseError::UnexpectedEnd);
        }
        if self.next_char() == '<' {
            self.parse_element()
        } else {
            proof {
                lemma_run(self.input@, self.pos + 1, chars_until('<'));
            }
            Ok(self.parse_text())
        }
    }

    /// Parses a sequence of sibling nodes.
    pub fn parse_nodes(&mut self) -> (r: Result<Vec<Node>, ParseError>)
        ensures
            final(self).text() == old(self).text(),
            final(self).position() == nodes_from(
                old(self).text(),
                old(self).position(),
                Seq::empty(),
            ).pos,
            old(self).position() <= final(self).position(),
            match r {
                Ok(v) => nodes_from(old(self).text(), old(self).position(), Seq::empty()).yields(
                    node_models(v@),
                ),
                Err(e) => nodes_from(old(self).text(), old(self).position(), Seq::empty()).fails(
                    e,
                ),
            },
        decreases remaining(old(self).text(), old(self).position()), 2nat,
    {
        let ghost input = self.input@;
        let ghost start = self.pos as int;
        let mut nodes: Vec<Node> = Vec::new();
        let mut done = false;
        assert(node_models(nodes@) =~= Seq::<crate::dom::NodeModel>::empty());
        while !done
            invariant
                self.input@ == input,
                input == old(self).input@,
                start == old(self).pos,
                start <= self.pos,
                !done ==> nodes_from(input, start, Seq::empty()) == nodes_from(
                    input,
                    self.pos as int,
                    node_models(nodes@),
                ),
                done ==> nodes_from(input, start, Seq::empty()) == (Step {
                    pos: self.pos as int,
                    result: Ok(node_models(nodes@)),
                }),
            decreases remaining(input, self.pos as int) + if done { 0int } else { 1int },
        {
            self.consume_whitespace();
            if self.eof() || self.start_with("</") {
                done = true;
            } else {
                let ghost before = node_models(nodes@);
                match self.parse_node() {
                    Ok(node) => {
                        nodes.push(node);
                        assert(node_models(nodes@) =~= before.push(node@));
                    },
                    Err(e) => {
                        return Err(e);
                    },
                }
            }
        }
        Ok(nodes)
    }

    /// Parses an HTML document and returns its root element.
    pub fn parse(source: String) -> (r: Result<Node, ParseError>)
        ensures
            match r {
                Ok(n) => document_of(source@) == Ok::<crate::dom::NodeModel, ParseError>(n@),
                Err(e) => document_of(source@) == Err::<crate::dom::NodeModel, ParseError>(e),
            },
    {
        let mut parser = Parser::new(source.as_str());
        let mut nodes = match parser.parse_nodes() {
            Ok(n) => n,
            Err(e) => {
                return Err(e);
            },
        };

        // If the document contains a root element, just return it.
        // Otherwise, create one.
        if nodes.len() == 1 {
            Ok(nodes.swap_remove(0))
        } else {
            proof {
                reveal_strlit("html");
            }
            let empty = AttrMap::new();
            assert(attribute_model(empty@) =~= Map::<Seq<char>, Seq<char>>::empty());
            Ok(elem(String::from_str("html"), empty, nodes))
        }
    }
}

} // verus!
