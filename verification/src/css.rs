//! Stylesheets: rules, selectors, declarations and values, and the parser
//! that reads them from text.

use vstd::prelude::*;
use crate::css_grammar::{
    color_at, decimal, declaration_at, declarations_from, digit_chars, digit_value,
    empty_selector, hex_pair_at, hex_value, identifier_chars, identifier_end,
    is_digit, is_hex_digit, is_identifier_char, is_number, is_pixel_unit, length_at,
    lemma_declaration_bounds, lemma_rule_bounds, lemma_selectors_bounds, number_chars,
    number_value, rank_position, rule_at, rules_from, selector_list, selectors_from,
    simple_selector_from, sorted_by_rank, stylesheet_of, unit_at, value_at,
};
use crate::scan::{
    ParseError, Step, at_end, begins_with, expect_at, lemma_run, peek, remaining, run_end,
    skip_whitespace, slice, starts_with_at, take_run, take_while, whitespace_chars,
};
use crate::text::{chars_of, opt_text, texts};
use crate::units::Px;

verus! {

/// An ordered list of rules.
#[derive(Debug)]
pub struct StyleSheet {
    pub rules: Vec<Rule>,
}

/// Selectors, any of which makes the rule apply, and the declarations it
/// then contributes.
#[derive(Debug)]
pub struct Rule {
    pub selectors: Vec<Selector>,
    pub declarations: Vec<Declaration>,
}

/// A selector.  Simple selectors are the only kind there is.
#[derive(Debug)]
pub enum Selector {
    Simple(SimpleSelector),
}

/// Constraints on an element's tag name, id and classes; an absent
/// constraint is met by every element.
#[derive(Debug)]
pub struct SimpleSelector {
    pub tag_name: Option<String>,
    pub id: Option<String>,
    pub class: Vec<String>,
}

/// A property and the value declared for it.
#[derive(Debug)]
pub struct Declaration {
    pub name: String,
    pub value: Value,
}

/// A declared value: a keyword, a length with its unit, or a colour.
#[derive(Debug)]
pub enum Value {
    Keyword(String),
    Length(Px, Unit),
    ColorValue(Color),
}

/// A unit of length.  Pixels are the only one there is.
#[derive(Debug, Clone, Copy, PartialEq, Eq, Structural)]
pub enum Unit {
    Px,
}

/// A colour: red, green, blue and opacity, each from 0 to 255.
#[derive(Debug, Clone, Copy, PartialEq, Eq, Structural)]
pub struct Color {
    pub r: u8,
    pub g: u8,
    pub b: u8,
    pub a: u8,
}

impl Default for Color {
    fn default() -> (c: Color)
        ensures
            c == (Color { r: 0, g: 0, b: 0, a: 0 }),
    {
        Color { r: 0, g: 0, b: 0, a: 0 }
    }
}

/// Counts of id, class and tag constraints, compared in that order.
pub type Specificity = (usize, usize, usize);

// ---------------------------------------------------------------------------
// Mathematical models
// ---------------------------------------------------------------------------

/// A value, its keyword as a sequence of characters.
pub enum ValueModel {
    Keyword(Seq<char>),
    Length(Px, Unit),
    ColorValue(Color),
}

/// A simple selector: the constraints it puts on tag name, id and classes.
pub struct SelectorModel {
    pub tag_name: Option<Seq<char>>,
    pub id: Option<Seq<char>>,
    pub class: Seq<Seq<char>>,
}

/// A declaration: the property's name and the value's model.
pub struct DeclarationModel {
    pub name: Seq<char>,
    pub value: ValueModel,
}

/// A rule: the models of its selectors and of its declarations, in order.
pub struct RuleModel {
    pub selectors: Seq<SelectorModel>,
    pub declarations: Seq<DeclarationModel>,
}

impl View for Value {
    type V = ValueModel;

    open spec fn view(&self) -> ValueModel {
        match self {
            Value::Keyword(s) => ValueModel::Keyword(s@),
            Value::Length(n, u) => ValueModel::Length(*n, *u),
            Value::ColorValue(c) => ValueModel::ColorValue(*c),
        }
    }
}

impl View for SimpleSelector {
    type V = SelectorModel;

    open spec fn view(&self) -> SelectorModel {
        SelectorModel {
            tag_name: opt_text(self.tag_name),
            id: opt_text(self.id),
            class: texts(self.class@),
        }
    }
}

impl View for Selector {
    type V = SelectorModel;

    open spec fn view(&self) -> SelectorModel {
        match self {
            Selector::Simple(s) => s@,
        }
    }
}

impl View for Declaration {
    type V = DeclarationModel;

    open spec fn view(&self) -> DeclarationModel {
        DeclarationModel { name: self.name@, value: self.value@ }
    }
}

/// The views of a list of selectors.
pub open spec fn selector_models(v: Seq<Selector>) -> Seq<SelectorModel> {
    Seq::new(v.len(), |i: int| v[i]@)
}

/// The views of a list of declarations.
pub open spec fn declaration_models(v: Seq<Declaration>) -> Seq<DeclarationModel> {
    Seq::new(v.len(), |i: int| v[i]@)
}

impl View for Rule {
    type V = RuleModel;

    open spec fn view(&self) -> RuleModel {
        RuleModel {
            selectors: selector_models(self.selectors@),
            declarations: declaration_models(self.declarations@),
        }
    }
}

/// The views of a list of rules.
pub open spec fn rule_models(v: Seq<Rule>) -> Seq<RuleModel> {
    Seq::new(v.len(), |i: int| v[i]@)
}

impl View for StyleSheet {
    type V = Seq<RuleModel>;

    open spec fn view(&self) -> Seq<RuleModel> {
        rule_models(self.rules@)
    }
}

// ---------------------------------------------------------------------------
// Values
// ---------------------------------------------------------------------------

impl ValueModel {
    /// The length in pixels that a value stands for: its own number for a
    /// length in pixels, zero for everything else.
    pub open spec fn to_px(self) -> Px {
        match self {
            ValueModel::Length(n, Unit::Px) => n,
            _ => Px { units: 0 },
        }
    }
}

impl Clone for Value {
    fn clone(&self) -> (r: Value)
        ensures
            r@ == self@,
    {
        match self {
            Value::Keyword(s) => Value::Keyword(s.clone()),
            Value::Length(n, u) => Value::Length(*n, *u),
            Value::ColorValue(c) => Value::ColorValue(*c),
        }
    }
}

impl PartialEq for Value {
    fn eq(&self, other: &Value) -> (r: bool) {
        match self {
            Value::Keyword(a) => match other {
                Value::Keyword(b) => *a == *b,
                _ => false,
            },
            Value::Length(a, u) => match other {
                Value::Length(b, v) => a.units == b.units && *u == *v,
                _ => false,
            },
            Value::ColorValue(a) => match other {
                Value::ColorValue(b) => *a == *b,
                _ => false,
            },
        }
    }
}

impl vstd::std_specs::cmp::PartialEqSpecImpl for Value {
    open spec fn obeys_eq_spec() -> bool {
        true
    }

    open spec fn eq_spec(&self, other: &Value) -> bool {
        self@ == other@
    }
}

impl Value {
    /// The size of a length in pixels, or zero for anything that is not one.
    pub fn to_px(&self) -> (r: Px)
        ensures
            r == self@.to_px(),
    {
        match self {
            Value::Length(n, Unit::Px) => *n,
            _ => Px::zero(),
        }
    }
}

// ---------------------------------------------------------------------------
// Specificity
// ---------------------------------------------------------------------------

impl SelectorModel {
    /// One for an id constraint, the number of class constraints, one for a
    /// tag constraint.
    pub open spec fn specificity(self) -> (nat, nat, nat) {
        (
            if self.id is Some { 1nat } else { 0nat },
            self.class.len(),
            if self.tag_name is Some { 1nat } else { 0nat },
        )
    }
}

/// Whether `a` comes strictly before `b`: by the first component, then the
/// second where the first are equal, then the third.
pub open spec fn specificity_lt(a: (nat, nat, nat), b: (nat, nat, nat)) -> bool {
    a.0 < b.0 || (a.0 == b.0 && (a.1 < b.1 || (a.1 == b.1 && a.2 < b.2)))
}

/// The unbounded form of an executable specificity.
pub open spec fn specificity_model(s: Specificity) -> (nat, nat, nat) {
    (s.0 as nat, s.1 as nat, s.2 as nat)
}

/// Decides the order of two specificities.
pub fn specificity_less(a: Specificity, b: Specificity) -> (r: bool)
    ensures
        r == specificity_lt(specificity_model(a), specificity_model(b)),
{
    a.0 < b.0 || (a.0 == b.0 && (a.1 < b.1 || (a.1 == b.1 && a.2 < b.2)))
}

impl Selector {
    /// How specific the selector is: whether it names an id, how many
    /// classes it names, and whether it names a tag.
    pub fn specificity(&self) -> (r: Specificity)
        ensures
            specificity_model(r) == self@.specificity(),
    {
        match self {
            Selector::Simple(simple) => {
                let a: usize = if simple.id.is_some() { 1 } else { 0 };
                let b: usize = simple.class.len();
                let c: usize = if simple.tag_name.is_some() { 1 } else { 0 };
                (a, b, c)
            },
        }
    }
}

/// A selector that names an id outranks every selector that names none,
/// however many classes and tags the other lists.
pub proof fn lemma_id_outranks(with_id: SelectorModel, without_id: SelectorModel)
    requires
        with_id.id is Some,
        without_id.id is None,
    ensures
        specificity_lt(without_id.specificity(), with_id.specificity()),
{
}

/// The order on specificities is the lexicographic one: it is irreflexive,
/// transitive and total, and it is decided by the first component in which
/// the two differ.
pub proof fn lemma_specificity_order(a: (nat, nat, nat), b: (nat, nat, nat), c: (nat, nat, nat))
    ensures
        !specificity_lt(a, a),
        specificity_lt(a, b) && specificity_lt(b, c) ==> specificity_lt(a, c),
        specificity_lt(a, b) || specificity_lt(b, a) || a == b,
        a.0 < b.0 ==> specificity_lt(a, b),
        a.0 == b.0 && a.1 < b.1 ==> specificity_lt(a, b),
        a.0 == b.0 && a.1 == b.1 ==> (specificity_lt(a, b) <==> a.2 < b.2),
{
}

// ---------------------------------------------------------------------------
// The parser
// ---------------------------------------------------------------------------

/// A stylesheet text and the position reading has reached in it, counted
/// in characters.
pub struct Parser {
    pub pos: usize,
    pub input: Vec<char>,
}

/// Whether `c` may appear in an identifier.
pub fn valid_identifier_char(c: char) -> (r: bool)
    ensures
        r == is_identifier_char(c),
{
    (c >= 'a' && c <= 'z') || (c >= 'A' && c <= 'Z') || (c >= '0' && c <= '9') || c == '-' || c
        == '_'
}

impl Parser {
    /// A parser at the start of `source`.
    pub fn new(source: &str) -> (p: Parser)
        ensures
            p.pos == 0,
            p.input@ == source@,
    {
        Parser { pos: 0, input: chars_of(source) }
    }

    /// Reads the current character without consuming it.
    pub fn next_char(&self) -> (c: char)
        requires
            self.pos < self.input@.len(),
        ensures
            c == self.input@[self.pos as int],
    {
        peek(&self.input, self.pos)
    }

    /// Do the next characters start with the given string?
    pub fn start_with(&self, s: &str) -> (r: bool)
        requires
            self.pos <= self.input@.len(),
        ensures
            r == begins_with(self.input@, self.pos as int, s@),
    {
        starts_with_at(&self.input, self.pos, s)
    }

    /// Returns true if all input is consumed.
    pub fn eof(&self) -> (r: bool)
        ensures
            r == at_end(self.input@, self.pos as int),
    {
        self.pos >= self.input.len()
    }

    /// Returns the current character and moves on to the next one.
    pub fn consume_char(&mut self) -> (c: char)
        requires
            old(self).pos < old(self).input@.len(),
        ensures
            c == old(self).input@[old(self).pos as int],
            final(self).pos == old(self).pos + 1,
            final(self).input@ == old(self).input@,
    {
        let c = self.input[self.pos];
        assert(self.pos < self.input.len());
        self.pos += 1;
        c
    }

    /// Consumes characters until `test` returns false, and returns them.
    pub fn consume_while<F>(&mut self, test: F) -> (r: String) where F: Fn(char) -> bool
        requires
            forall|i: int|
                old(self).pos <= i < old(self).input@.len() ==> call_requires(
                    test,
                    (#[trigger] old(self).input@[i],),
                ),
        ensures
            final(self).input@ == old(self).input@,
            old(self).pos <= final(self).pos,
            old(self).pos < old(self).input@.len() ==> final(self).pos <= old(self).input@.len(),
            old(self).pos >= old(self).input@.len() ==> final(self).pos == old(self).pos,
            r@ == slice(old(self).input@, old(self).pos as int, final(self).pos as int),
            forall|i: int|
                old(self).pos <= i < final(self).pos ==> call_ensures(
                    test,
                    (#[trigger] old(self).input@[i],),
                    true,
                ),
            final(self).pos < old(self).input@.len() ==> call_ensures(
                test,
                (old(self).input@[final(self).pos as int],),
                false,
            ),
    {
        let r = take_while(&self.input, &mut self.pos, test);
        assert(r@ =~= slice(self.input@, old(self).pos as int, self.pos as int));
        r
    }

    /// Consumes and discards zero or more whitespace characters.
    pub fn consume_whitespace(&mut self)
        ensures
            final(self).input@ == old(self).input@,
            final(self).pos == skip_whitespace(old(self).input@, old(self).pos as int),
            old(self).pos <= final(self).pos,
            old(self).pos <= old(self).input@.len() ==> final(self).pos <= old(self).input@.len(),
    {
        if !self.eof() {
            take_run(
                &self.input,
                &mut self.pos,
                |c: char| -> (b: bool)
                    ensures
                        b == crate::text::white_space(c)
                    { c.is_whitespace() },
                Ghost(whitespace_chars()),
            );
        }
    }

    /// Parses a property name or keyword.
    pub fn parse_identifier(&mut self) -> (r: String)
        ensures
            final(self).input@ == old(self).input@,
            final(self).pos == identifier_end(old(self).input@, old(self).pos as int),
            old(self).pos <= final(self).pos,
            old(self).pos <= old(self).input@.len() ==> final(self).pos <= old(self).input@.len(),
            r@ == slice(old(self).input@, old(self).pos as int, final(self).pos as int),
    {
        if !self.eof() {
            take_run(
                &self.input,
                &mut self.pos,
                |c: char| -> (b: bool)
                    ensures
                        b == is_identifier_char(c)
                    { valid_identifier_char(c) },
                Ghost(identifier_chars()),
            )
        } else {
            let r = String::new();
            assert(r@ =~= slice(self.input@, self.pos as int, self.pos as int));
            r
        }
    }

    /// Parses one simple selector, e.g.: `type#id.class1.class2.class3`.
    pub fn parse_simple_selector(&mut self) -> (r: SimpleSelector)
        ensures
            final(self).input@ == old(self).input@,
            (r@, final(self).pos as int) == simple_selector_from(
                old(self).input@,
                old(self).pos as int,
                empty_selector(),
            ),
    {
        let mut selector = SimpleSelector { tag_name: None, id: None, class: Vec::new() };
        let ghost input = self.input@;
        let ghost start = self.pos as int;
        assert(selector@.class =~= empty_selector().class);
        let mut done = false;
        while !done && !self.eof()
            invariant
                self.input@ == input,
                simple_selector_from(input, start, empty_selector()) == simple_selector_from(
                    input,
                    self.pos as int,
                    selector@,
                ),
                done ==> simple_selector_from(input, self.pos as int, selector@) == (
                    selector@,
                    self.pos as int,
                ),
            decreases remaining(input, self.pos as int) + if done { 0int } else { 1int },
        {
            let c = self.next_char();
            let ghost before = selector@;
            if c == '#' {
                self.consume_char();
                selector.id = Some(self.parse_identifier());
            } else if c == '.' {
                self.consume_char();
                let class = self.parse_identifier();
                selector.class.push(class);
                assert(selector@.class =~= before.class.push(class@));
            } else if c == '*' {
                // Universal selector.
                self.consume_char();
            } else if valid_identifier_char(c) {
                proof {
                    lemma_run(input, self.pos as int, identifier_chars());
                }
                selector.tag_name = Some(self.parse_identifier());
            } else {
                done = true;
            }
        }
        selector
    }
}

/// Puts the most specific selector first.  Selectors of the same
/// specificity keep their order.
pub fn sort_selectors(list: Vec<Selector>) -> (r: Vec<Selector>)
    ensures
        selector_models(r@) == sorted_by_rank(selector_models(list@), list@.len()),
{
    let ghost all = selector_models(list@);
    let ghost mut taken: nat = 0;
    let mut rest = list;
    let mut out: Vec<Selector> = Vec::new();
    assert(selector_models(rest@) =~= all.subrange(0, all.len() as int));
    assert(selector_models(out@) =~= sorted_by_rank(all, 0));
    while rest.len() > 0
        invariant
            taken <= all.len(),
            rest@.len() == all.len() - taken,
            selector_models(rest@) == all.subrange(taken as int, all.len() as int),
            selector_models(out@) == sorted_by_rank(all, taken),
        decreases rest@.len(),
    {
        let ghost old_rest = rest@;
        let x = rest.remove(0);
        assert(x@ == selector_models(old_rest)[0]);
        assert(x@ == all[taken as int]);
        let key = x.specificity();
        let ghost sorted = selector_models(out@);
        let mut pos: usize = 0;
        while pos < out.len() && !specificity_less(out[pos].specificity(), key)
            invariant
                pos <= out@.len(),
                sorted == selector_models(out@),
                specificity_model(key) == x@.specificity(),
                rank_position(sorted, x@, 0) == rank_position(sorted, x@, pos as int),
            decreases out@.len() - pos,
        {
            assert(sorted[pos as int] == out@[pos as int]@);
            pos += 1;
        }
        proof {
            if pos < out@.len() {
                assert(sorted[pos as int] == out@[pos as int]@);
            }
        }
        out.insert(pos, x);
        proof {
            assert forall|k: int| 0 <= k < rest@.len() implies selector_models(rest@)[k]
                == all[taken + 1 + k] by {
                assert(rest@[k] == old_rest[k + 1]);
                assert(selector_models(old_rest)[k + 1] == all[taken + (k + 1)]);
            }
            taken = taken + 1;
            assert(selector_models(out@) =~= sorted.insert(pos as int, x@));
            assert(selector_models(rest@) =~= all.subrange(taken as int, all.len() as int));
        }
    }
    out
}

/// The number that a decimal digit stands for.
fn digit_of(c: char) -> (d: u8)
    requires
        is_digit(c),
    ensures
        d == digit_value(c),
{
    ((c as u32) - 48) as u8
}

/// The number that a hexadecimal digit stands for, if `c` is one.
fn hex_of(c: char) -> (d: Option<u8>)
    ensures
        d is Some == is_hex_digit(c),
        d is Some ==> d->0 == hex_value(c),
{
    if c >= '0' && c <= '9' {
        Some(((c as u32) - 48) as u8)
    } else if c >= 'a' && c <= 'f' {
        Some(((c as u32) - 97 + 10) as u8)
    } else if c >= 'A' && c <= 'F' {
        Some(((c as u32) - 65 + 10) as u8)
    } else {
        None
    }
}

/// The largest whole number of pixels that is counted exactly; beyond it
/// every number saturates.
const WHOLE_CAP: i128 = 10_000_000_000_000_000;

/// The length that the digits and points of `input[start..end]` spell.
fn read_number(input: &Vec<char>, start: usize, end: usize) -> (r: Result<Px, ParseError>)
    requires
        start <= end <= input@.len(),
        forall|i: int| start <= i < end ==> is_digit(#[trigger] input@[i]) || input@[i] == '.',
    ensures
        r == number_value(input@.subrange(start as int, end as int)),
{
    let ghost text = input@.subrange(start as int, end as int);
    let mut whole: i128 = 0;
    let mut i: usize = start;
    while i < end && input[i] != '.'
        invariant
            start <= i <= end <= input@.len(),
            text == input@.subrange(start as int, end as int),
            forall|k: int| start <= k < end ==> is_digit(#[trigger] input@[k]) || input@[k] == '.',
            run_end(text, 0, digit_chars()) == run_end(text, i - start, digit_chars()),
            0 <= decimal(text, (i - start) as nat),
            whole == if decimal(text, (i - start) as nat) < WHOLE_CAP {
                decimal(text, (i - start) as nat)
            } else {
                WHOLE_CAP as int
            },
        decreases end - i,
    {
        assert(text[i - start] == input@[i as int]);
        let d = digit_of(input[i]);
        whole = whole * 10 + d as i128;
        if whole > WHOLE_CAP {
            whole = WHOLE_CAP;
        }
        i += 1;
    }
    let ghost point = i - start;
    proof {
        if i < end {
            assert(text[point] == input@[i as int]);
        }
        assert(run_end(text, 0, digit_chars()) == point);
    }
    if i == end {
        if end == start {
            return Err(ParseError::MalformedNumber);
        }
        return Ok(Px::from_wide(whole * 1000));
    }
    // A decimal point: what follows may hold digits only.
    let mut j: usize = i + 1;
    while j < end && input[j] != '.'
        invariant
            start <= i < j <= end <= input@.len(),
            point == i - start,
            text == input@.subrange(start as int, end as int),
            forall|k: int| start <= k < end ==> is_digit(#[trigger] input@[k]) || input@[k] == '.',
            forall|k: int| i < k < j ==> #[trigger] input@[k] != '.',
            run_end(text, point + 1, digit_chars()) == run_end(text, j - start, digit_chars()),
        decreases end - j,
    {
        assert(text[j - start] == input@[j as int]);
        j += 1;
    }
    proof {
        if j < end {
            assert(text[j - start] == input@[j as int]);
        }
    }
    if j < end || end - start < 2 {
        return Err(ParseError::MalformedNumber);
    }
    let mut fraction: i128 = 0;
    if end - i > 1 {
        assert(text[point + 1] == input@[i + 1]);
        fraction = fraction + 100 * (digit_of(input[i + 1]) as i128);
    }
    if end - i > 2 {
        assert(text[point + 2] == input@[i + 2]);
        fraction = fraction + 10 * (digit_of(input[i + 2]) as i128);
    }
    if end - i > 3 {
        assert(text[point + 3] == input@[i + 3]);
        fraction = fraction + digit_of(input[i + 3]) as i128;
    }
    Ok(Px::from_wide(whole * 1000 + fraction))
}

impl Parser {
    /// Parses a comma-separated list of selectors, and returns them with
    /// the most specific first.
    pub fn parse_selectors(&mut self) -> (r: Result<Vec<Selector>, ParseError>)
        ensures
            final(self).input@ == old(self).input@,
            final(self).pos == selector_list(old(self).input@, old(self).pos as int).pos,
            match r {
                Ok(v) => selector_list(old(self).input@, old(self).pos as int).yields(
                    selector_models(v@),
                ),
                Err(e) => selector_list(old(self).input@, old(self).pos as int).fails(e),
            },
    {
        let ghost input = self.input@;
        let ghost start = self.pos as int;
        let mut selectors: Vec<Selector> = Vec::new();
        let mut done = false;
        assert(selector_models(selectors@) =~= Seq::<SelectorModel>::empty());
        while !done
            invariant
                self.input@ == input,
                input == old(self).input@,
                start == old(self).pos,
                !done ==> selectors_from(input, start, Seq::empty()) == selectors_from(
                    input,
                    self.pos as int,
                    selector_models(selectors@),
                ),
                done ==> selectors_from(input, start, Seq::empty()) == (Step {
                    pos: self.pos as int,
                    result: Ok(selector_models(selectors@)),
                }),
            decreases remaining(input, self.pos as int) + if done { 0int } else { 1int },
        {
            let ghost before = selector_models(selectors@);
            let ghost from = self.pos as int;
            let simple = self.parse_simple_selector();
            selectors.push(Selector::Simple(simple));
            assert(selector_models(selectors@) =~= before.push(simple@));
            self.consume_whitespace();
            if self.eof() {
                return Err(ParseError::UnexpectedEnd);
            }
            let c = self.next_char();
            proof {
                if from <= input.len() {
                    crate::css_grammar::lemma_simple_selector_bounds(
                        input,
                        from,
                        empty_selector(),
                    );
                }
            }
            if c == ',' {
                self.consume_char();
                self.consume_whitespace();
            } else if c == '{' {
                // Start of declarations.
                done = true;
            } else {
                return Err(ParseError::MalformedSelectorList);
            }
        }
        // Return selectors with highest specificity first, for use in
        // matching.
        Ok(sort_selectors(selectors))
    }

    /// Parses a number of pixels, with or without decimal places.
    pub fn parse_number(&mut self) -> (r: Result<Px, ParseError>)
        ensures
            final(self).input@ == old(self).input@,
            final(self).pos == run_end(old(self).input@, old(self).pos as int, number_chars()),
            old(self).pos <= final(self).pos,
            old(self).pos <= old(self).input@.len() ==> final(self).pos <= old(self).input@.len(),
            r == number_value(
                slice(old(self).input@, old(self).pos as int, final(self).pos as int),
            ),
    {
        let start = self.pos;
        if self.eof() {
            assert(!is_number(Seq::<char>::empty()));
            return Err(ParseError::MalformedNumber);
        }
        take_run(
            &self.input,
            &mut self.pos,
            |c: char| -> (b: bool)
                ensures
                    b == (is_digit(c) || c == '.')
                { (c >= '0' && c <= '9') || c == '.' },
            Ghost(number_chars()),
        );
        proof {
            lemma_run(self.input@, start as int, number_chars());
        }
        read_number(&self.input, start, self.pos)
    }

    /// Parses a unit of length.  The only one there is is `px`.
    pub fn parse_unit(&mut self) -> (r: Result<Unit, ParseError>)
        ensures
            final(self).input@ == old(self).input@,
            final(self).pos == unit_at(old(self).input@, old(self).pos as int).pos,
            r == unit_at(old(self).input@, old(self).pos as int).result,
    {
        let start = self.pos;
        self.parse_identifier();
        let end = self.pos;
        let ghost word = slice(self.input@, start as int, end as int);
        proof {
            reveal_strlit("px");
        }
        if start < self.input.len() && end - start == 2 && (self.input[start] == 'p'
            || self.input[start] == 'P') && (self.input[start + 1] == 'x' || self.input[start + 1]
            == 'X') {
            assert(crate::text::ascii_lowercase(word) =~= "px"@);
            Ok(Unit::Px)
        } else {
            proof {
                if is_pixel_unit(word) {
                    assert(crate::text::ascii_lowercase(word).len() == 2);
                    assert(crate::text::ascii_lowercase(word)[0] == 'p');
                    assert(crate::text::ascii_lowercase(word)[1] == 'x');
                    assert(false);
                }
            }
            Err(ParseError::UnknownUnit)
        }
    }

    /// Parses two hexadecimal digits.
    pub fn parse_hex_pair(&mut self) -> (r: Result<u8, ParseError>)
        ensures
            final(self).input@ == old(self).input@,
            final(self).pos == hex_pair_at(old(self).input@, old(self).pos as int).pos,
            r == hex_pair_at(old(self).input@, old(self).pos as int).result,
    {
        if self.pos >= self.input.len() || self.input.len() - self.pos < 2 {
            return Err(ParseError::UnexpectedEnd);
        }
        let first = self.input[self.pos];
        let second = self.input[self.pos + 1];
        match hex_of(second) {
            Some(low) => match hex_of(first) {
                Some(high) => {
                    self.pos += 2;
                    Ok(high * 16 + low)
                },
                None => {
                    if first == '+' {
                        self.pos += 2;
                        Ok(low)
                    } else {
                        Err(ParseError::MalformedColor)
                    }
                },
            },
            None => Err(ParseError::MalformedColor),
        }
    }

    /// Parses a colour, written as `#` and six hexadecimal digits.
    pub fn parse_color(&mut self) -> (r: Result<Value, ParseError>)
        ensures
            final(self).input@ == old(self).input@,
            final(self).pos == color_at(old(self).input@, old(self).pos as int).pos,
            match r {
                Ok(v) => color_at(old(self).input@, old(self).pos as int).yields(v@),
                Err(e) => color_at(old(self).input@, old(self).pos as int).fails(e),
            },
    {
        if self.eof() {
            return Err(ParseError::UnexpectedEnd);
        }
        if self.next_char() != '#' {
            return Err(ParseError::MalformedColor);
        }
        self.consume_char();
        let r = match self.parse_hex_pair() {
            Ok(r) => r,
            Err(e) => {
                return Err(e);
            },
        };
        let g = match self.parse_hex_pair() {
            Ok(g) => g,
            Err(e) => {
                return Err(e);
            },
        };
        let b = match self.parse_hex_pair() {
            Ok(b) => b,
            Err(e) => {
                return Err(e);
            },
        };
        Ok(Value::ColorValue(Color { r, g, b, a: 255 }))
    }

    /// Parses a length: a number and its unit.
    pub fn parse_length(&mut self) -> (r: Result<Value, ParseError>)
        ensures
            final(self).input@ == old(self).input@,
            final(self).pos == length_at(old(self).input@, old(self).pos as int).pos,
            match r {
                Ok(v) => length_at(old(self).input@, old(self).pos as int).yields(v@),
                Err(e) => length_at(old(self).input@, old(self).pos as int).fails(e),
            },
    {
        let number = match self.parse_number() {
            Ok(n) => n,
            Err(e) => {
                return Err(e);
            },
        };
        let unit = match self.parse_unit() {
            Ok(u) => u,
            Err(e) => {
                return Err(e);
            },
        };
        Ok(Value::Length(number, unit))
    }

    /// Parses a value: a length, a colour or a keyword.
    pub fn parse_value(&mut self) -> (r: Result<Value, ParseError>)
        ensures
            final(self).input@ == old(self).input@,
            final(self).pos == value_at(old(self).input@, old(self).pos as int).pos,
            match r {
                Ok(v) => value_at(old(self).input@, old(self).pos as int).yields(v@),
                Err(e) => value_at(old(self).input@, old(self).pos as int).fails(e),
            },
    {
        if self.eof() {
            return Err(ParseError::UnexpectedEnd);
        }
        let c = self.next_char();
        if c >= '0' && c <= '9' {
            self.parse_length()
        } else if c == '#' {
            self.parse_color()
        } else {
            Ok(Value::Keyword(self.parse_identifier()))
        }
    }

    /// Consumes the character `want`, or says why it cannot.
    fn expect(&mut self, want: char, otherwise: ParseError) -> (r: Result<(), ParseError>)
        ensures
            final(self).input@ == old(self).input@,
            final(self).pos == expect_at(
                old(self).input@,
                old(self).pos as int,
                want,
                otherwise,
            ).pos,
            r == expect_at(old(self).input@, old(self).pos as int, want, otherwise).result,
    {
        if self.eof() {
            Err(ParseError::UnexpectedEnd)
        } else if self.next_char() == want {
            self.consume_char();
            Ok(())
        } else {
            Err(otherwise)
        }
    }

    /// Parses one `<property>: <value>;` declaration.
    pub fn parse_declaration(&mut self) -> (r: Result<Declaration, ParseError>)
        ensures
            final(self).input@ == old(self).input@,
            final(self).pos == declaration_at(old(self).input@, old(self).pos as int).pos,
            match r {
                Ok(d) => declaration_at(old(self).input@, old(self).pos as int).yields(d@),
                Err(e) => declaration_at(old(self).input@, old(self).pos as int).fails(e),
            },
    {
        let property_name = self.parse_identifier();
        self.consume_whitespace();
        match self.expect(':', ParseError::MalformedDeclaration) {
            Ok(_) => {},
            Err(e) => {
                return Err(e);
            },
        }
        self.consume_whitespace();
        let value = match self.parse_value() {
            Ok(v) => v,
            Err(e) => {
                return Err(e);
            },
        };
        self.consume_whitespace();
        match self.expect(';', ParseError::MalformedDeclaration) {
            Ok(_) => {},
            Err(e) => {
                return Err(e);
            },
        }
        Ok(Declaration { name: property_name, value })
    }

    /// Parses the declarations of a block up to and including its `}`.
    /// The `{` has been consumed.
    pub fn parse_declarations(&mut self) -> (r: Result<Vec<Declaration>, ParseError>)
        ensures
            final(self).input@ == old(self).input@,
            final(self).pos == declarations_from(
                old(self).input@,
                old(self).pos as int,
                Seq::empty(),
            ).pos,
            match r {
                Ok(v) => declarations_from(
                    old(self).input@,
                    old(self).pos as int,
                    Seq::empty(),
                ).yields(declaration_models(v@)),
                Err(e) => declarations_from(
                    old(self).input@,
                    old(self).pos as int,
                    Seq::empty(),
                ).fails(e),
            },
    {
        let ghost input = self.input@;
        let ghost start = self.pos as int;
        let mut declarations: Vec<Declaration> = Vec::new();
        let mut done = false;
        assert(declaration_models(declarations@) =~= Seq::<DeclarationModel>::empty());
        while !done
            invariant
                self.input@ == input,
                input == old(self).input@,
                start == old(self).pos,
                !done ==> declarations_from(input, start, Seq::empty()) == declarations_from(
                    input,
                    self.pos as int,
                    declaration_models(declarations@),
                ),
                done ==> declarations_from(input, start, Seq::empty()) == (Step {
                    pos: self.pos as int,
                    result: Ok(declaration_models(declarations@)),
                }),
            decreases remaining(input, self.pos as int) + if done { 0int } else { 1int },
        {
            self.consume_whitespace();
            if self.eof() {
                return Err(ParseError::UnexpectedEnd);
            }
            if self.next_char() == '}' {
                self.consume_char();
                done = true;
            } else {
                let ghost before = declaration_models(declarations@);
                proof {
                    lemma_declaration_bounds(input, self.pos as int);
                }
                match self.parse_declaration() {
                    Ok(d) => {
                        declarations.push(d);
                        assert(declaration_models(declarations@) =~= before.push(d@));
                    },
                    Err(e) => {
                        return Err(e);
                    },
                }
            }
        }
        Ok(declarations)
    }

    /// Parses a rule set: `<selectors> { <declarations> }`.
    pub fn parse_rule(&mut self) -> (r: Result<Rule, ParseError>)
        ensures
            final(self).input@ == old(self).input@,
            final(self).pos == rule_at(old(self).input@, old(self).pos as int).pos,
            match r {
                Ok(rule) => rule_at(old(self).input@, old(self).pos as int).yields(rule@),
                Err(e) => rule_at(old(self).input@, old(self).pos as int).fails(e),
            },
    {
        let ghost from = self.pos as int;
        let selectors = match self.parse_selectors() {
            Ok(s) => s,
            Err(e) => {
                return Err(e);
            },
        };
        proof {
            if from <= self.input@.len() {
                lemma_selectors_bounds(self.input@, from, Seq::empty());
            }
        }
        if self.eof() {
            return Err(ParseError::UnexpectedEnd);
        }
        self.consume_char();
        let declarations = match self.parse_declarations() {
            Ok(d) => d,
            Err(e) => {
                return Err(e);
            },
        };
        Ok(Rule { selectors, declarations })
    }

    /// Parses a list of rule sets, separated by optional whitespace.
    pub fn parse_rules(&mut self) -> (r: Result<Vec<Rule>, ParseError>)
        ensures
            final(self).input@ == old(self).input@,
            final(self).pos == rules_from(old(self).input@, old(self).pos as int, Seq::empty()).pos,
            match r {
                Ok(v) => rules_from(old(self).input@, old(self).pos as int, Seq::empty()).yields(
                    rule_models(v@),
                ),
                Err(e) => rules_from(old(self).input@, old(self).pos as int, Seq::empty()).fails(e),
            },
    {
        let ghost input = self.input@;
        let ghost start = self.pos as int;
        let mut rules: Vec<Rule> = Vec::new();
        let mut done = false;
        assert(rule_models(rules@) =~= Seq::<RuleModel>::empty());
        while !done
            invariant
                self.input@ == input,
                input == old(self).input@,
                start == old(self).pos,
                !done ==> rules_from(input, start, Seq::empty()) == rules_from(
                    input,
                    self.pos as int,
                    rule_models(rules@),
                ),
                done ==> rules_from(input, start, Seq::empty()) == (Step {
                    pos: self.pos as int,
                    result: Ok(rule_models(rules@)),
                }),
            decreases remaining(input, self.pos as int) + if done { 0int } else { 1int },
        {
            self.consume_whitespace();
            if self.eof() {
                done = true;
            } else {
                let ghost before = rule_models(rules@);
                proof {
                    lemma_rule_bounds(input, self.pos as int);
                }
                match self.parse_rule() {
                    Ok(rule) => {
                        rules.push(rule);
                        assert(rule_models(rules@) =~= before.push(rule@));
                    },
                    Err(e) => {
                        return Err(e);
                    },
                }
            }
        }
        Ok(rules)
    }
}

/// Parses a whole CSS stylesheet.
pub fn parse(source: String) -> (r: Result<StyleSheet, ParseError>)
    ensures
        match r {
            Ok(sheet) => stylesheet_of(source@) == Ok::<Seq<RuleModel>, ParseError>(sheet@),
            Err(e) => stylesheet_of(source@) == Err::<Seq<RuleModel>, ParseError>(e),
        },
{
    let mut parser = Parser::new(source.as_str());
    match parser.parse_rules() {
        Ok(rules) => Ok(StyleSheet { rules }),
        Err(e) => Err(e),
    }
}

} // verus!
