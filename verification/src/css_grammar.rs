//! The grammar of stylesheets, as functions from a text and a position to
//! what is read there and where reading stops.

use vstd::prelude::*;
use crate::css::{
    Color, DeclarationModel, RuleModel, SelectorModel, Unit, ValueModel, specificity_lt,
};
use crate::scan::{
    ParseError, Step, expect_at, lemma_run, run_end, skip_whitespace, slice, whitespace_chars,
};
use crate::text::ascii_lowercase;
use crate::units::Px;

verus! {

/// Whether `c` may appear in an identifier: an ASCII letter or digit, a
/// hyphen or an underscore.
pub open spec fn is_identifier_char(c: char) -> bool {
    ('a' <= c && c <= 'z') || ('A' <= c && c <= 'Z') || ('0' <= c && c <= '9') || c == '-' || c
        == '_'
}

/// The characters that identifiers are made of.
pub open spec fn identifier_chars() -> spec_fn(char) -> bool {
    |c: char| is_identifier_char(c)
}

/// Where the identifier that starts at `pos` ends.
pub open spec fn identifier_end(input: Seq<char>, pos: int) -> int {
    run_end(input, pos, identifier_chars())
}

/// The selector that every element matches.
pub open spec fn empty_selector() -> SelectorModel {
    SelectorModel { tag_name: None, id: None, class: Seq::empty() }
}

/// The simple selector that starts at `pos`, added to the constraints
/// read so far: `#` and an identifier sets the id, `.` and an identifier
/// adds a class, `*` adds nothing, and an identifier alone sets the tag
/// name.  The selector ends before the first character that starts none of
/// these.
pub open spec fn simple_selector_from(input: Seq<char>, pos: int, so_far: SelectorModel) -> (
    SelectorModel,
    int,
)
    decreases input.len() - pos,
{
    if pos < 0 || pos >= input.len() {
        (so_far, pos)
    } else if input[pos] == '#' {
        let end = identifier_end(input, pos + 1);
        proof {
            lemma_run(input, pos + 1, identifier_chars());
        }
        simple_selector_from(
            input,
            end,
            SelectorModel { id: Some(input.subrange(pos + 1, end)), ..so_far },
        )
    } else if input[pos] == '.' {
        let end = identifier_end(input, pos + 1);
        proof {
            lemma_run(input, pos + 1, identifier_chars());
        }
        simple_selector_from(
            input,
            end,
            SelectorModel { class: so_far.class.push(input.subrange(pos + 1, end)), ..so_far },
        )
    } else if input[pos] == '*' {
        simple_selector_from(input, pos + 1, so_far)
    } else if is_identifier_char(input[pos]) {
        let end = identifier_end(input, pos);
        proof {
            lemma_run(input, pos, identifier_chars());
        }
        simple_selector_from(
            input,
            end,
            SelectorModel { tag_name: Some(input.subrange(pos, end)), ..so_far },
        )
    } else {
        (so_far, pos)
    }
}

/// A simple selector ends at or after its start and within the input.
pub proof fn lemma_simple_selector_bounds(input: Seq<char>, pos: int, so_far: SelectorModel)
    requires
        0 <= pos <= input.len(),
    ensures
        pos <= simple_selector_from(input, pos, so_far).1 <= input.len(),
    decreases input.len() - pos,
{
    if pos < input.len() {
        lemma_run(input, pos + 1, identifier_chars());
        lemma_run(input, pos, identifier_chars());
        if input[pos] == '#' {
            let end = identifier_end(input, pos + 1);
            lemma_simple_selector_bounds(
                input,
                end,
                SelectorModel { id: Some(input.subrange(pos + 1, end)), ..so_far },
            );
        } else if input[pos] == '.' {
            let end = identifier_end(input, pos + 1);
            lemma_simple_selector_bounds(
                input,
                end,
                SelectorModel { class: so_far.class.push(input.subrange(pos + 1, end)), ..so_far },
            );
        } else if input[pos] == '*' {
            lemma_simple_selector_bounds(input, pos + 1, so_far);
        } else if is_identifier_char(input[pos]) {
            let end = identifier_end(input, pos);
            lemma_simple_selector_bounds(
                input,
                end,
                SelectorModel { tag_name: Some(input.subrange(pos, end)), ..so_far },
            );
        }
    }
}

/// The selectors of a comma-separated list that starts at `pos`, added to
/// those read so far.  The list ends before the `{` that follows it.
pub open spec fn selectors_from(input: Seq<char>, pos: int, so_far: Seq<SelectorModel>) -> Step<
    Seq<SelectorModel>,
>
    decreases input.len() - pos,
{
    let (selector, after) = simple_selector_from(input, pos, empty_selector());
    let next = skip_whitespace(input, after);
    let list = so_far.push(selector);
    if pos < 0 || next < 0 || next >= input.len() {
        Step { pos: next, result: Err(ParseError::UnexpectedEnd) }
    } else if input[next] == ',' {
        proof {
            lemma_simple_selector_bounds(input, pos, empty_selector());
            lemma_run(input, after, whitespace_chars());
            lemma_run(input, next + 1, whitespace_chars());
        }
        selectors_from(input, skip_whitespace(input, next + 1), list)
    } else if input[next] == '{' {
        Step { pos: next, result: Ok(list) }
    } else {
        Step { pos: next, result: Err(ParseError::MalformedSelectorList) }
    }
}

/// Where `x` goes in a list kept in falling order of specificity: before
/// the first selector, from `from` on, that is less specific than `x`.
pub open spec fn rank_position(sorted: Seq<SelectorModel>, x: SelectorModel, from: int) -> int
    decreases sorted.len() - from,
{
    if 0 <= from < sorted.len() && !specificity_lt(sorted[from].specificity(), x.specificity()) {
        rank_position(sorted, x, from + 1)
    } else {
        from
    }
}

/// The first `n` of `list`, most specific first; selectors of the same
/// specificity stay in the order in which they were written.
pub open spec fn sorted_by_rank(list: Seq<SelectorModel>, n: nat) -> Seq<SelectorModel>
    decreases n,
{
    if n == 0 || n > list.len() {
        Seq::empty()
    } else {
        let before = sorted_by_rank(list, (n - 1) as nat);
        before.insert(rank_position(before, list[n - 1], 0), list[n - 1])
    }
}

/// The selector list that starts at `pos`, most specific selector first.
pub open spec fn selector_list(input: Seq<char>, pos: int) -> Step<Seq<SelectorModel>> {
    let read = selectors_from(input, pos, Seq::empty());
    match read.result {
        Ok(list) => Step { pos: read.pos, result: Ok(sorted_by_rank(list, list.len())) },
        Err(e) => read,
    }
}

/// A selector list ends at or after its start and within the input, and
/// one that is read without error ends before a `{`.
pub proof fn lemma_selectors_bounds(input: Seq<char>, pos: int, so_far: Seq<SelectorModel>)
    requires
        0 <= pos <= input.len(),
    ensures
        pos <= selectors_from(input, pos, so_far).pos <= input.len(),
        selectors_from(input, pos, so_far).result is Ok ==> selectors_from(
            input,
            pos,
            so_far,
        ).pos < input.len() && input[selectors_from(input, pos, so_far).pos] == '{',
    decreases input.len() - pos,
{
    let (selector, after) = simple_selector_from(input, pos, empty_selector());
    lemma_simple_selector_bounds(input, pos, empty_selector());
    lemma_run(input, after, whitespace_chars());
    let next = skip_whitespace(input, after);
    if next < input.len() && input[next] == ',' {
        lemma_run(input, next + 1, whitespace_chars());
        lemma_selectors_bounds(input, skip_whitespace(input, next + 1), so_far.push(selector));
    }
}

// ---------------------------------------------------------------------------
// Values
// ---------------------------------------------------------------------------

/// Whether `c` is a decimal digit.
pub open spec fn is_digit(c: char) -> bool {
    '0' <= c && c <= '9'
}

/// The decimal digits.
pub open spec fn digit_chars() -> spec_fn(char) -> bool {
    |c: char| is_digit(c)
}

/// The characters that numbers are made of: digits and the decimal point.
pub open spec fn number_chars() -> spec_fn(char) -> bool {
    |c: char| is_digit(c) || c == '.'
}

/// The number that the digit `c` stands for.
pub open spec fn digit_value(c: char) -> int {
    c as int - '0' as int
}

/// The number that the first `n` characters of `text`, all digits, spell
/// in decimal.
pub open spec fn decimal(text: Seq<char>, n: nat) -> int
    decreases n,
{
    if n == 0 || n > text.len() {
        0
    } else {
        decimal(text, (n - 1) as nat) * 10 + digit_value(text[n - 1])
    }
}

/// The digit at `i`, or zero past the end of `text`.
pub open spec fn digit_or_zero(text: Seq<char>, i: int) -> int {
    if 0 <= i < text.len() {
        digit_value(text[i])
    } else {
        0
    }
}

/// Whether `text`, made of digits and points, is a number: it has a digit
/// and at most one point.
pub open spec fn is_number(text: Seq<char>) -> bool {
    let point = run_end(text, 0, digit_chars());
    if point >= text.len() {
        text.len() >= 1
    } else {
        text.len() >= 2 && run_end(text, point + 1, digit_chars()) >= text.len()
    }
}

/// The number `text` in thousandths, digits after the third decimal place
/// left off.
pub open spec fn thousandths(text: Seq<char>) -> int {
    let point = run_end(text, 0, digit_chars());
    decimal(text, point as nat) * 1000 + digit_or_zero(text, point + 1) * 100 + digit_or_zero(
        text,
        point + 2,
    ) * 10 + digit_or_zero(text, point + 3)
}

/// The length that `text` spells in pixels; a number too large to hold
/// counts as the largest length.
pub open spec fn number_value(text: Seq<char>) -> Result<Px, ParseError> {
    if is_number(text) {
        Ok(Px::of(thousandths(text)))
    } else {
        Err(ParseError::MalformedNumber)
    }
}

/// Whether `word` names the pixel unit, in capitals or small letters.
pub open spec fn is_pixel_unit(word: Seq<char>) -> bool {
    ascii_lowercase(word) == "px"@
}

/// The unit that starts at `pos`.
pub open spec fn unit_at(input: Seq<char>, pos: int) -> Step<Unit> {
    let end = identifier_end(input, pos);
    Step {
        pos: end,
        result: if is_pixel_unit(slice(input, pos, end)) {
            Ok(Unit::Px)
        } else {
            Err(ParseError::UnknownUnit)
        },
    }
}

/// Whether `c` is a hexadecimal digit.
pub open spec fn is_hex_digit(c: char) -> bool {
    is_digit(c) || ('a' <= c && c <= 'f') || ('A' <= c && c <= 'F')
}

/// The number that the hexadecimal digit `c` stands for.
pub open spec fn hex_value(c: char) -> int {
    if is_digit(c) {
        c as int - '0' as int
    } else if 'a' <= c && c <= 'f' {
        c as int - 'a' as int + 10
    } else {
        c as int - 'A' as int + 10
    }
}

/// The byte that two characters spell: two hexadecimal digits, or a plus
/// sign and one.
pub open spec fn hex_pair_at(input: Seq<char>, pos: int) -> Step<u8> {
    if pos < 0 || pos + 2 > input.len() {
        Step { pos, result: Err(ParseError::UnexpectedEnd) }
    } else if is_hex_digit(input[pos]) && is_hex_digit(input[pos + 1]) {
        Step {
            pos: pos + 2,
            result: Ok((hex_value(input[pos]) * 16 + hex_value(input[pos + 1])) as u8),
        }
    } else if input[pos] == '+' && is_hex_digit(input[pos + 1]) {
        Step { pos: pos + 2, result: Ok(hex_value(input[pos + 1]) as u8) }
    } else {
        Step { pos, result: Err(ParseError::MalformedColor) }
    }
}

/// The colour that starts at `pos`: `#` and a pair each for red, green and
/// blue.  It is opaque.
pub open spec fn color_at(input: Seq<char>, pos: int) -> Step<ValueModel> {
    if pos < 0 || pos >= input.len() {
        Step { pos, result: Err(ParseError::UnexpectedEnd) }
    } else if input[pos] != '#' {
        Step { pos, result: Err(ParseError::MalformedColor) }
    } else {
        let red = hex_pair_at(input, pos + 1);
        let green = hex_pair_at(input, red.pos);
        let blue = hex_pair_at(input, green.pos);
        match (red.result, green.result, blue.result) {
            (Ok(r), Ok(g), Ok(b)) => Step {
                pos: blue.pos,
                result: Ok(ValueModel::ColorValue(Color { r, g, b, a: 255 })),
            },
            (Ok(_), Ok(_), Err(e)) => Step { pos: blue.pos, result: Err(e) },
            (Ok(_), Err(e), _) => Step { pos: green.pos, result: Err(e) },
            (Err(e), _, _) => Step { pos: red.pos, result: Err(e) },
        }
    }
}

/// The length that starts at `pos`: a number and a unit.
pub open spec fn length_at(input: Seq<char>, pos: int) -> Step<ValueModel> {
    let end = run_end(input, pos, number_chars());
    match number_value(slice(input, pos, end)) {
        Ok(n) => {
            let unit = unit_at(input, end);
            match unit.result {
                Ok(u) => Step { pos: unit.pos, result: Ok(ValueModel::Length(n, u)) },
                Err(e) => Step { pos: unit.pos, result: Err(e) },
            }
        },
        Err(e) => Step { pos: end, result: Err(e) },
    }
}

/// The value that starts at `pos`: a length where it starts with a digit,
/// a colour where it starts with `#`, and a keyword otherwise.
pub open spec fn value_at(input: Seq<char>, pos: int) -> Step<ValueModel> {
    if pos < 0 || pos >= input.len() {
        Step { pos, result: Err(ParseError::UnexpectedEnd) }
    } else if is_digit(input[pos]) {
        length_at(input, pos)
    } else if input[pos] == '#' {
        color_at(input, pos)
    } else {
        let end = identifier_end(input, pos);
        Step { pos: end, result: Ok(ValueModel::Keyword(slice(input, pos, end))) }
    }
}

/// A value ends at or after its start and within the input.
pub proof fn lemma_value_bounds(input: Seq<char>, pos: int)
    requires
        0 <= pos <= input.len(),
    ensures
        pos <= value_at(input, pos).pos <= input.len(),
{
    lemma_run(input, pos, identifier_chars());
    lemma_run(input, pos, number_chars());
    let end = run_end(input, pos, number_chars());
    lemma_run(input, end, identifier_chars());
}

// ---------------------------------------------------------------------------
// Declarations and rules
// ---------------------------------------------------------------------------

/// The declaration that starts at `pos`: a name, `:`, a value and `;`,
/// with any white space between them.
pub open spec fn declaration_at(input: Seq<char>, pos: int) -> Step<DeclarationModel> {
    let name_end = identifier_end(input, pos);
    let colon = expect_at(
        input,
        skip_whitespace(input, name_end),
        ':',
        ParseError::MalformedDeclaration,
    );
    match colon.result {
        Err(e) => Step { pos: colon.pos, result: Err(e) },
        Ok(_) => {
            let value = value_at(input, skip_whitespace(input, colon.pos));
            match value.result {
                Err(e) => Step { pos: value.pos, result: Err(e) },
                Ok(v) => {
                    let semicolon = expect_at(
                        input,
                        skip_whitespace(input, value.pos),
                        ';',
                        ParseError::MalformedDeclaration,
                    );
                    match semicolon.result {
                        Err(e) => Step { pos: semicolon.pos, result: Err(e) },
                        Ok(_) => Step {
                            pos: semicolon.pos,
                            result: Ok(
                                DeclarationModel { name: slice(input, pos, name_end), value: v },
                            ),
                        },
                    }
                },
            }
        },
    }
}

/// A declaration ends within the input, and one that is read without error
/// ends after its start.
pub proof fn lemma_declaration_bounds(input: Seq<char>, pos: int)
    requires
        0 <= pos <= input.len(),
    ensures
        pos <= declaration_at(input, pos).pos <= input.len(),
        declaration_at(input, pos).result is Ok ==> pos < declaration_at(input, pos).pos,
{
    lemma_run(input, pos, identifier_chars());
    let name_end = identifier_end(input, pos);
    lemma_run(input, name_end, whitespace_chars());
    let colon = expect_at(
        input,
        skip_whitespace(input, name_end),
        ':',
        ParseError::MalformedDeclaration,
    );
    if colon.result is Ok {
        lemma_run(input, colon.pos, whitespace_chars());
        lemma_value_bounds(input, skip_whitespace(input, colon.pos));
        let value = value_at(input, skip_whitespace(input, colon.pos));
        lemma_run(input, value.pos, whitespace_chars());
    }
}

/// The declarations from `pos` up to the `}` that closes the block, added
/// to those read so far.
pub open spec fn declarations_from(input: Seq<char>, pos: int, so_far: Seq<DeclarationModel>)
    -> Step<Seq<DeclarationModel>>
    decreases input.len() - pos,
{
    let next = skip_whitespace(input, pos);
    if pos < 0 || next >= input.len() {
        Step { pos: next, result: Err(ParseError::UnexpectedEnd) }
    } else if input[next] == '}' {
        Step { pos: next + 1, result: Ok(so_far) }
    } else {
        let declaration = declaration_at(input, next);
        match declaration.result {
            Err(e) => Step { pos: declaration.pos, result: Err(e) },
            Ok(d) => {
                proof {
                    lemma_run(input, pos, whitespace_chars());
                    lemma_declaration_bounds(input, next);
                }
                declarations_from(input, declaration.pos, so_far.push(d))
            },
        }
    }
}

/// A block of declarations ends within the input, and one that is read
/// without error ends after its start.
pub proof fn lemma_declarations_bounds(
    input: Seq<char>,
    pos: int,
    so_far: Seq<DeclarationModel>,
)
    requires
        0 <= pos <= input.len(),
    ensures
        pos <= declarations_from(input, pos, so_far).pos <= input.len(),
        declarations_from(input, pos, so_far).result is Ok ==> pos < declarations_from(
            input,
            pos,
            so_far,
        ).pos,
    decreases input.len() - pos,
{
    lemma_run(input, pos, whitespace_chars());
    let next = skip_whitespace(input, pos);
    if next < input.len() && input[next] != '}' {
        lemma_declaration_bounds(input, next);
        let declaration = declaration_at(input, next);
        if let Ok(d) = declaration.result {
            lemma_declarations_bounds(input, declaration.pos, so_far.push(d));
        }
    }
}

/// The rule that starts at `pos`: a selector list and a block of
/// declarations in braces.
pub open spec fn rule_at(input: Seq<char>, pos: int) -> Step<RuleModel> {
    let selectors = selector_list(input, pos);
    match selectors.result {
        Err(e) => Step { pos: selectors.pos, result: Err(e) },
        Ok(list) => {
            let declarations = declarations_from(input, selectors.pos + 1, Seq::empty());
            match declarations.result {
                Err(e) => Step { pos: declarations.pos, result: Err(e) },
                Ok(d) => Step {
                    pos: declarations.pos,
                    result: Ok(RuleModel { selectors: list, declarations: d }),
                },
            }
        },
    }
}

/// A rule ends within the input, and one that is read without error ends
/// after its start.
pub proof fn lemma_rule_bounds(input: Seq<char>, pos: int)
    requires
        0 <= pos <= input.len(),
    ensures
        pos <= rule_at(input, pos).pos <= input.len(),
        rule_at(input, pos).result is Ok ==> pos < rule_at(input, pos).pos,
{
    lemma_selectors_bounds(input, pos, Seq::empty());
    let selectors = selector_list(input, pos);
    if selectors.result is Ok {
        lemma_declarations_bounds(input, selectors.pos + 1, Seq::empty());
    }
}

/// The rules from `pos` to the end of the input, added to those read so
/// far.
pub open spec fn rules_from(input: Seq<char>, pos: int, so_far: Seq<RuleModel>) -> Step<
    Seq<RuleModel>,
>
    decreases input.len() - pos,
{
    let next = skip_whitespace(input, pos);
    if pos < 0 || next >= input.len() {
        Step { pos: next, result: Ok(so_far) }
    } else {
        let rule = rule_at(input, next);
        match rule.result {
            Err(e) => Step { pos: rule.pos, result: Err(e) },
            Ok(r) => {
                proof {
                    lemma_run(input, pos, whitespace_chars());
                    lemma_rule_bounds(input, next);
                }
                rules_from(input, rule.pos, so_far.push(r))
            },
        }
    }
}

/// The stylesheet that `input` spells, or why it spells none.
pub open spec fn stylesheet_of(input: Seq<char>) -> Result<Seq<RuleModel>, ParseError> {
    rules_from(input, 0, Seq::empty()).result
}

// ---------------------------------------------------------------------------
// The order of a selector list
// ---------------------------------------------------------------------------

/// Whether no selector of `list` is less specific than one after it.
pub open spec fn in_falling_order(list: Seq<SelectorModel>) -> bool {
    forall|a: int, b: int|
        0 <= a < b < list.len() ==> !specificity_lt(
            (#[trigger] list[a]).specificity(),
            (#[trigger] list[b]).specificity(),
        )
}

/// Where a selector goes in a list in falling order: after every selector
/// that is at least as specific, and before every one that is less.
pub proof fn lemma_rank_position(sorted: Seq<SelectorModel>, x: SelectorModel, from: int)
    requires
        0 <= from <= sorted.len(),
        in_falling_order(sorted),
    ensures
        from <= rank_position(sorted, x, from) <= sorted.len(),
        forall|k: int|
            from <= k < rank_position(sorted, x, from) ==> !specificity_lt(
                (#[trigger] sorted[k]).specificity(),
                x.specificity(),
            ),
        forall|k: int|
            rank_position(sorted, x, from) <= k < sorted.len() ==> specificity_lt(
                (#[trigger] sorted[k]).specificity(),
                x.specificity(),
            ),
    decreases sorted.len() - from,
{
    if from < sorted.len() && !specificity_lt(sorted[from].specificity(), x.specificity()) {
        lemma_rank_position(sorted, x, from + 1);
    } else if from < sorted.len() {
        assert forall|k: int| from <= k < sorted.len() implies specificity_lt(
            (#[trigger] sorted[k]).specificity(),
            x.specificity(),
        ) by {
            if k > from {
                assert(!specificity_lt(sorted[from].specificity(), sorted[k].specificity()));
            }
        }
    }
}

/// A sorted selector list holds the selectors that were written, each as
/// often as it was written, and they stand in falling order of
/// specificity.
pub proof fn lemma_sorted_by_rank(list: Seq<SelectorModel>, n: nat)
    requires
        n <= list.len(),
    ensures
        sorted_by_rank(list, n).len() == n,
        sorted_by_rank(list, n).to_multiset() == list.take(n as int).to_multiset(),
        in_falling_order(sorted_by_rank(list, n)),
    decreases n,
{
    if n == 0 {
        assert(list.take(0) =~= Seq::<SelectorModel>::empty());
    } else {
        lemma_sorted_by_rank(list, (n - 1) as nat);
        let before = sorted_by_rank(list, (n - 1) as nat);
        let x = list[n - 1];
        lemma_rank_position(before, x, 0);
        let at = rank_position(before, x, 0);
        let after = before.insert(at, x);
        assert(list.take(n as int) =~= list.take(n - 1).push(x));
        vstd::seq_lib::to_multiset_build(list.take(n - 1), x);
        vstd::seq_lib::to_multiset_insert(before, at, x);
        assert forall|a: int, b: int| 0 <= a < b < after.len() implies !specificity_lt(
            (#[trigger] after[a]).specificity(),
            (#[trigger] after[b]).specificity(),
        ) by {
            if b < at {
                assert(after[a] == before[a] && after[b] == before[b]);
            } else if b == at {
                assert(after[a] == before[a]);
            } else if a < at {
                assert(after[a] == before[a] && after[b] == before[b - 1]);
            } else if a == at {
                assert(after[b] == before[b - 1]);
            } else {
                assert(after[a] == before[a - 1] && after[b] == before[b - 1]);
            }
        }
    }
}

} // verus!
