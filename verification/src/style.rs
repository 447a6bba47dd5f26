//! Applying a stylesheet to a document: which selectors match an element,
//! which declarations win, and the styled tree that results.

use vstd::prelude::*;
use vstd::hash_map::StringHashMap;
use crate::css::{
    DeclarationModel, Rule, RuleModel, Selector, SelectorModel, SimpleSelector, Specificity,
    StyleSheet, Value, ValueModel, specificity_less, specificity_lt, specificity_model,
};
use crate::dom::{ElementData, ElementModel, Node, NodeModel, NodeType, NodeTypeModel};
use crate::text::{str_is, texts};

verus! {

/// The values an element ends up with, by property name.
pub type PropertyMap = StringHashMap<Value>;

/// The model of a property map.
pub type PropertyModel = Map<Seq<char>, ValueModel>;

/// A document node together with the values the stylesheet gives it.
pub struct StyledNode<'a> {
    pub node: &'a Node,
    pub specified_values: PropertyMap,
    pub children: Vec<StyledNode<'a>>,
}

/// How a node takes part in layout.
#[derive(Clone, Copy, Debug, PartialEq, Eq, Structural)]
pub enum Display {
    Inline,
    Block,
    /// The node and everything below it is left out of layout.
    Hidden,
}

/// A styled node: the node's model, its values by property name, and the
/// models of its children.
pub struct StyledNodeModel {
    pub node: NodeModel,
    pub specified_values: PropertyModel,
    pub children: Seq<StyledNodeModel>,
}

/// A map of values, each replaced by its model.
pub open spec fn property_model(m: Map<Seq<char>, Value>) -> PropertyModel {
    Map::new(|k: Seq<char>| m.contains_key(k), |k: Seq<char>| m[k]@)
}

/// A styled node's model: the node's model, the models of its values, and
/// the models of its children.
pub open spec fn styled_model(s: StyledNode) -> StyledNodeModel
    decreases s,
{
    StyledNodeModel {
        node: s.node@,
        specified_values: property_model(s.specified_values@),
        children: Seq::new(
            s.children@.len(),
            |i: int|
                if 0 <= i < s.children@.len() {
                    styled_model(s.children@[i])
                } else {
                    arbitrary()
                },
        ),
    }
}

impl<'a> View for StyledNode<'a> {
    type V = StyledNodeModel;

    open spec fn view(&self) -> StyledNodeModel {
        styled_model(*self)
    }
}

/// The views of a list of styled nodes.
pub open spec fn styled_models(v: Seq<StyledNode>) -> Seq<StyledNodeModel> {
    Seq::new(v.len(), |i: int| v[i]@)
}

/// A styled node's view holds the views of its parts.
pub proof fn lemma_styled_view(s: &StyledNode)
    ensures
        s@.node == s.node@,
        s@.specified_values == property_model(s.specified_values@),
        s@.children == styled_models(s.children@),
{
    assert(s@.children =~= styled_models(s.children@));
}

// ---------------------------------------------------------------------------
// Reading values
// ---------------------------------------------------------------------------

/// The value of property `name`, where the map has one.
pub open spec fn value_of(values: PropertyModel, name: Seq<char>) -> Option<ValueModel> {
    if values.contains_key(name) {
        Some(values[name])
    } else {
        None
    }
}

/// The value of `name`; failing that, the value of `fallback`; failing that,
/// `default`.
pub open spec fn lookup_of(
    values: PropertyModel,
    name: Seq<char>,
    fallback: Seq<char>,
    default: ValueModel,
) -> ValueModel {
    if values.contains_key(name) {
        values[name]
    } else if values.contains_key(fallback) {
        values[fallback]
    } else {
        default
    }
}

/// What the `display` property says: `block` and `none` are taken at their
/// word, and anything else, or no declaration at all, means inline.
pub open spec fn display_of(values: PropertyModel) -> Display {
    if values.contains_key("display"@) {
        if values["display"@] == ValueModel::Keyword("block"@) {
            Display::Block
        } else if values["display"@] == ValueModel::Keyword("none"@) {
            Display::Hidden
        } else {
            Display::Inline
        }
    } else {
        Display::Inline
    }
}

impl<'a> StyledNode<'a> {
    /// The specified value of property `name`, if there is one.
    pub fn value(&self, name: &str) -> (r: Option<Value>)
        ensures
            match r {
                Some(v) => value_of(self@.specified_values, name@) == Some(v@),
                None => value_of(self@.specified_values, name@) is None,
            },
    {
        proof {
            lemma_styled_view(self);
        }
        match self.specified_values.get(name) {
            Some(v) => Some(v.clone()),
            None => None,
        }
    }

    /// The specified value of property `name`, or of `fallback_name` if that
    /// does not exist, or `default` if neither does.
    pub fn lookup(&self, name: &str, fallback_name: &str, default: &Value) -> (r: Value)
        ensures
            r@ == lookup_of(self@.specified_values, name@, fallback_name@, default@),
    {
        match self.value(name) {
            Some(v) => v,
            None => match self.value(fallback_name) {
                Some(v) => v,
                None => default.clone(),
            },
        }
    }

    /// The value of the `display` property; inline unless it says otherwise.
    pub fn display(&self) -> (r: Display)
        ensures
            r == display_of(self@.specified_values),
    {
        match self.value("display") {
            Some(Value::Keyword(s)) => {
                if str_is(&s, "block") {
                    Display::Block
                } else if str_is(&s, "none") {
                    Display::Hidden
                } else {
                    Display::Inline
                }
            },
            _ => Display::Inline,
        }
    }
}

/// A node with no `display` declaration is inline, and so is one whose
/// declaration is anything but the keywords `block` and `none`.
pub proof fn lemma_display_default(values: PropertyModel)
    ensures
        !values.contains_key("display"@) ==> display_of(values) == Display::Inline,
        values.contains_key("display"@) && values["display"@] != ValueModel::Keyword("block"@)
            && values["display"@] != ValueModel::Keyword("none"@) ==> display_of(values)
            == Display::Inline,
        display_of(values) == Display::Block <==> value_of(values, "display"@) == Some(
            ValueModel::Keyword("block"@),
        ),
        display_of(values) == Display::Hidden <==> value_of(values, "display"@) == Some(
            ValueModel::Keyword("none"@),
        ),
{
    reveal_strlit("block");
    reveal_strlit("none");
    assert("block"@ != "none"@) by {
        assert("block"@.len() == 5);
        assert("none"@.len() == 4);
    }
}

// ---------------------------------------------------------------------------
// Selector matching
// ---------------------------------------------------------------------------

/// A selector matches an element when each constraint it has is met: the tag
/// name is the element's, the id is the element's `id` attribute, and every
/// class it lists is among the element's classes.
pub open spec fn selector_matches(elem: ElementModel, selector: SelectorModel) -> bool {
    &&& selector.tag_name is Some ==> selector.tag_name->0 == elem.tag_name
    &&& selector.id is Some ==> elem.id() == selector.id
    &&& forall|i: int|
        0 <= i < selector.class.len() ==> elem.classes().contains(#[trigger] selector.class[i])
}

/// Whether `word` is one of `list`.
fn contains_text(list: &Vec<String>, word: &String) -> (r: bool)
    ensures
        r == texts(list@).to_set().contains(word@),
{
    let mut i: usize = 0;
    while i < list.len()
        invariant
            i <= list@.len(),
            forall|j: int| 0 <= j < i ==> list@[j]@ != word@,
        decreases list@.len() - i,
    {
        if list[i] == *word {
            assert(texts(list@)[i as int] == word@);
            return true;
        }
        i += 1;
    }
    assert forall|j: int| 0 <= j < texts(list@).len() implies texts(list@)[j] != word@ by {
        assert(texts(list@)[j] == list@[j]@);
    }
    false
}

/// Whether a simple selector matches an element.
pub fn matches_simple_selector(elem: &ElementData, selector: &SimpleSelector) -> (r: bool)
    ensures
        r == selector_matches(elem@, selector@),
{
    // Check type selector
    if let Some(name) = &selector.tag_name {
        if elem.tag_name != *name {
            return false;
        }
    }
    // Check ID selector
    if let Some(id) = &selector.id {
        match elem.id() {
            Some(own) => {
                if *own != *id {
                    return false;
                }
            },
            None => {
                return false;
            },
        }
    }
    // Check class selectors
    let elem_classes = elem.classes();
    let mut i: usize = 0;
    while i < selector.class.len()
        invariant
            i <= selector.class@.len(),
            texts(elem_classes@).to_set() == elem@.classes(),
            forall|j: int|
                0 <= j < i ==> elem@.classes().contains(#[trigger] selector@.class[j]),
        decreases selector.class@.len() - i,
    {
        if !contains_text(&elem_classes, &selector.class[i]) {
            assert(selector@.class[i as int] == selector.class@[i as int]@);
            return false;
        }
        assert(selector@.class[i as int] == selector.class@[i as int]@);
        i += 1;
    }
    // We didn't find any non-matching selector components.
    true
}

/// Whether a selector matches an element.
pub fn matches(elem: &ElementData, selector: &Selector) -> (r: bool)
    ensures
        r == selector_matches(elem@, selector@),
{
    match selector {
        Selector::Simple(simple_selector) => matches_simple_selector(elem, simple_selector),
    }
}

// ---------------------------------------------------------------------------
// Matching rules
// ---------------------------------------------------------------------------

/// A rule that applies to an element, with the specificity it applies at.
pub type MatchedRule<'a> = (Specificity, &'a Rule);

/// A rule that applies, with the specificity at which it applies.
pub struct MatchedRuleModel {
    pub specificity: (nat, nat, nat),
    pub rule: RuleModel,
}

/// Whether selector `i` is the first of `selectors` that matches `elem`.
pub open spec fn is_first_match(elem: ElementModel, selectors: Seq<SelectorModel>, i: int)
    -> bool {
    &&& 0 <= i < selectors.len()
    &&& selector_matches(elem, selectors[i])
    &&& forall|j: int| 0 <= j < i ==> !selector_matches(elem, #[trigger] selectors[j])
}

/// The specificity at which `rule` applies to `elem`: that of its first
/// selector that matches.  A rule none of whose selectors match does not
/// apply.
pub open spec fn match_specificity(elem: ElementModel, rule: RuleModel) -> Option<
    (nat, nat, nat),
> {
    if exists|i: int| is_first_match(elem, rule.selectors, i) {
        Some(rule.selectors[choose|i: int| is_first_match(elem, rule.selectors, i)].specificity())
    } else {
        None
    }
}

/// The positions, among the first `n` rules of `sheet`, of those that apply
/// to `elem`, in rising order.
pub open spec fn matched_indices(elem: ElementModel, sheet: Seq<RuleModel>, n: nat) -> Seq<int>
    decreases n,
{
    if n == 0 || n > sheet.len() {
        Seq::empty()
    } else {
        let before = matched_indices(elem, sheet, (n - 1) as nat);
        if match_specificity(elem, sheet[n - 1]) is Some {
            before.push(n - 1)
        } else {
            before
        }
    }
}

/// The rules of `sheet` that apply to `elem`, in the order of the sheet.
pub open spec fn matched_rules(elem: ElementModel, sheet: Seq<RuleModel>) -> Seq<
    MatchedRuleModel,
> {
    let indices = matched_indices(elem, sheet, sheet.len());
    Seq::new(
        indices.len(),
        |k: int|
            MatchedRuleModel {
                specificity: match_specificity(elem, sheet[indices[k]])->0,
                rule: sheet[indices[k]],
            },
    )
}

/// The models of a list of matched rules.
pub open spec fn matched_models(v: Seq<MatchedRule>) -> Seq<MatchedRuleModel> {
    Seq::new(
        v.len(),
        |k: int| MatchedRuleModel { specificity: specificity_model(v[k].0), rule: v[k].1@ },
    )
}

/// The matched indices are in range, rise strictly, name only rules that
/// apply, and miss none that does.
pub proof fn lemma_matched_indices(elem: ElementModel, sheet: Seq<RuleModel>, n: nat)
    requires
        n <= sheet.len(),
    ensures
        ({
            let indices = matched_indices(elem, sheet, n);
            &&& forall|k: int|
                0 <= k < indices.len() ==> 0 <= #[trigger] indices[k] < n && match_specificity(
                    elem,
                    sheet[indices[k]],
                ) is Some
            &&& forall|a: int, b: int|
                0 <= a < b < indices.len() ==> #[trigger] indices[a] < #[trigger] indices[b]
            &&& forall|i: int|
                0 <= i < n && match_specificity(elem, #[trigger] sheet[i]) is Some ==> exists|
                    k: int,
                |
                    0 <= k < indices.len() && indices[k] == i
        }),
    decreases n,
{
    if n > 0 {
        lemma_matched_indices(elem, sheet, (n - 1) as nat);
        let before = matched_indices(elem, sheet, (n - 1) as nat);
        let indices = matched_indices(elem, sheet, n);
        assert forall|i: int|
            0 <= i < n && match_specificity(elem, #[trigger] sheet[i]) is Some implies exists|
            k: int,
        |
            0 <= k < indices.len() && indices[k] == i by {
            if i < n - 1 {
                let k = choose|k: int| 0 <= k < before.len() && before[k] == i;
                assert(indices[k] == i);
            } else {
                assert(indices[indices.len() - 1] == i);
            }
        }
    }
}

/// If `rule` matches `elem`, the rule and the specificity it matches at.
pub fn match_rule<'a>(elem: &ElementData, rule: &'a Rule) -> (r: Option<MatchedRule<'a>>)
    ensures
        match r {
            Some(m) => m.1 == rule && match_specificity(elem@, rule@) == Some(
                specificity_model(m.0),
            ),
            None => match_specificity(elem@, rule@) is None,
        },
{
    // Find the first (highest-specificity) matching selector.
    let mut i: usize = 0;
    while i < rule.selectors.len()
        invariant
            i <= rule.selectors@.len(),
            forall|j: int| 0 <= j < i ==> !selector_matches(elem@, #[trigger] rule@.selectors[j]),
        decreases rule.selectors@.len() - i,
    {
        assert(rule@.selectors[i as int] == rule.selectors@[i as int]@);
        if matches(elem, &rule.selectors[i]) {
            assert(is_first_match(elem@, rule@.selectors, i as int));
            let ghost chosen = choose|k: int| is_first_match(elem@, rule@.selectors, k);
            assert(chosen == i) by {
                if chosen < i {
                    assert(!selector_matches(elem@, rule@.selectors[chosen]));
                } else if chosen > i {
                    assert(!selector_matches(elem@, rule@.selectors[i as int]));
                }
            }
            return Some((rule.selectors[i].specificity(), rule));
        }
        i += 1;
    }
    assert forall|k: int| !is_first_match(elem@, rule@.selectors, k) by {
        if 0 <= k < rule@.selectors.len() {
            assert(!selector_matches(elem@, rule@.selectors[k]));
        }
    }
    None
}

/// Whether `m` is rule `index` of `sheet` with the specificity at which it
/// applies to `elem`.
pub open spec fn is_match_of(
    elem: ElementModel,
    sheet: Seq<RuleModel>,
    m: MatchedRule,
    index: int,
) -> bool {
    &&& 0 <= index < sheet.len()
    &&& m.1@ == sheet[index]
    &&& Some(specificity_model(m.0)) == match_specificity(elem, sheet[index])
}

/// All the rules of `stylesheet` that match `elem`, in the order of the
/// sheet.
pub fn matching_rules<'a>(elem: &ElementData, stylesheet: &'a StyleSheet) -> (r: Vec<
    MatchedRule<'a>,
>)
    ensures
        matched_models(r@) == matched_rules(elem@, stylesheet@),
{
    let mut out: Vec<MatchedRule<'a>> = Vec::new();
    let mut i: usize = 0;
    let ghost sheet = stylesheet@;
    while i < stylesheet.rules.len()
        invariant
            i <= stylesheet.rules@.len(),
            sheet == stylesheet@,
            out@.len() == matched_indices(elem@, sheet, i as nat).len(),
            forall|k: int|
                0 <= k < out@.len() ==> is_match_of(
                    elem@,
                    sheet,
                    #[trigger] out@[k],
                    matched_indices(elem@, sheet, i as nat)[k],
                ),
        decreases stylesheet.rules@.len() - i,
    {
        assert(sheet[i as int] == stylesheet.rules@[i as int]@);
        let ghost before = matched_indices(elem@, sheet, i as nat);
        let ghost old_out = out@;
        match match_rule(elem, &stylesheet.rules[i]) {
            Some(m) => {
                out.push(m);
            },
            None => {},
        }
        proof {
            let now = matched_indices(elem@, sheet, (i + 1) as nat);
            assert forall|k: int| 0 <= k < out@.len() implies is_match_of(
                elem@,
                sheet,
                #[trigger] out@[k],
                now[k],
            ) by {
                if k < old_out.len() {
                    assert(out@[k] == old_out[k]);
                    assert(now[k] == before[k]);
                }
            }
        }
        i += 1;
    }
    assert(matched_models(out@) =~= matched_rules(elem@, sheet));
    out
}

// ---------------------------------------------------------------------------
// The cascade
// ---------------------------------------------------------------------------

/// The value of the last declaration of `name` among the first `n` of
/// `declarations`, if any of them declares it.
pub open spec fn last_declared(declarations: Seq<DeclarationModel>, name: Seq<char>, n: nat)
    -> Option<ValueModel>
    decreases n,
{
    if n == 0 || n > declarations.len() {
        None
    } else if declarations[n - 1].name == name {
        Some(declarations[n - 1].value)
    } else {
        last_declared(declarations, name, (n - 1) as nat)
    }
}

/// Whether `rule` has a declaration of `name`.
pub open spec fn declares(rule: RuleModel, name: Seq<char>) -> bool {
    last_declared(rule.declarations, name, rule.declarations.len()) is Some
}

/// Whether rule `i` of `sheet` applies to `elem` and declares `name`.
pub open spec fn contends(elem: ElementModel, sheet: Seq<RuleModel>, name: Seq<char>, i: int)
    -> bool {
    &&& 0 <= i < sheet.len()
    &&& match_specificity(elem, sheet[i]) is Some
    &&& declares(sheet[i], name)
}

/// Whether rule `i` takes precedence over rule `j`, both applying to
/// `elem`: it has the higher specificity, or the same and comes later in
/// the sheet.
pub open spec fn overrides(elem: ElementModel, sheet: Seq<RuleModel>, i: int, j: int) -> bool {
    let si = match_specificity(elem, sheet[i])->0;
    let sj = match_specificity(elem, sheet[j])->0;
    specificity_lt(sj, si) || (sj == si && j < i)
}

/// Whether rule `i` is the one whose declaration of `name` the cascade
/// keeps: it contends for `name` and overrides every other rule that does.
pub open spec fn wins(elem: ElementModel, sheet: Seq<RuleModel>, name: Seq<char>, i: int)
    -> bool {
    &&& contends(elem, sheet, name, i)
    &&& forall|j: int|
        j != i && #[trigger] contends(elem, sheet, name, j) ==> overrides(elem, sheet, i, j)
}

/// The values the cascade gives `elem`: a property has a value where some
/// applicable rule declares it, and the value is the one from the winning
/// rule's last declaration of it.
pub open spec fn cascaded_values(elem: ElementModel, sheet: Seq<RuleModel>) -> PropertyModel {
    Map::new(
        |name: Seq<char>| exists|i: int| wins(elem, sheet, name, i),
        |name: Seq<char>|
            {
                let winner = choose|i: int| wins(elem, sheet, name, i);
                last_declared(
                    sheet[winner].declarations,
                    name,
                    sheet[winner].declarations.len(),
                )->0
            },
    )
}

/// `values` after the first `n` of `declarations` have been entered, each
/// replacing what was there under its name.
spec fn after_declarations(
    values: PropertyModel,
    declarations: Seq<DeclarationModel>,
    n: nat,
) -> PropertyModel
    decreases n,
{
    if n == 0 || n > declarations.len() {
        values
    } else {
        after_declarations(values, declarations, (n - 1) as nat).insert(
            declarations[n - 1].name,
            declarations[n - 1].value,
        )
    }
}

/// The values after the rules at the first `n` positions of `order` have
/// been applied in turn.
spec fn after_rules(sheet: Seq<RuleModel>, order: Seq<int>, n: nat) -> PropertyModel
    decreases n,
{
    if n == 0 || n > order.len() {
        Map::empty()
    } else {
        after_declarations(
            after_rules(sheet, order, (n - 1) as nat),
            sheet[order[n - 1]].declarations,
            sheet[order[n - 1]].declarations.len(),
        )
    }
}

/// The last of the first `n` positions of `order` whose rule declares
/// `name`.
spec fn last_declaring(sheet: Seq<RuleModel>, order: Seq<int>, name: Seq<char>, n: nat)
    -> Option<int>
    decreases n,
{
    if n == 0 || n > order.len() {
        None
    } else if declares(sheet[order[n - 1]], name) {
        Some(n - 1)
    } else {
        last_declaring(sheet, order, name, (n - 1) as nat)
    }
}

/// Whether `order` lists the rules that apply to `elem`, each once, every
/// one overriding those before it.
spec fn is_cascade_order(elem: ElementModel, sheet: Seq<RuleModel>, order: Seq<int>) -> bool {
    &&& forall|k: int|
        0 <= k < order.len() ==> 0 <= #[trigger] order[k] < sheet.len() && match_specificity(
            elem,
            sheet[order[k]],
        ) is Some
    &&& forall|a: int, b: int|
        0 <= a < b < order.len() ==> overrides(
            elem,
            sheet,
            #[trigger] order[b],
            #[trigger] order[a],
        )
    &&& forall|i: int|
        0 <= i < sheet.len() && match_specificity(elem, #[trigger] sheet[i]) is Some ==> exists|
            k: int,
        |
            0 <= k < order.len() && order[k] == i
}

proof fn lemma_after_declarations(
    values: PropertyModel,
    declarations: Seq<DeclarationModel>,
    name: Seq<char>,
    n: nat,
)
    requires
        n <= declarations.len(),
    ensures
        ({
            let after = after_declarations(values, declarations, n);
            match last_declared(declarations, name, n) {
                Some(v) => after.contains_key(name) && after[name] == v,
                None => after.contains_key(name) == values.contains_key(name) && (
                values.contains_key(name) ==> after[name] == values[name]),
            }
        }),
    decreases n,
{
    if n > 0 {
        lemma_after_declarations(values, declarations, name, (n - 1) as nat);
    }
}

proof fn lemma_after_rules(sheet: Seq<RuleModel>, order: Seq<int>, name: Seq<char>, n: nat)
    requires
        n <= order.len(),
    ensures
        ({
            let after = after_rules(sheet, order, n);
            match last_declaring(sheet, order, name, n) {
                Some(k) => {
                    &&& 0 <= k < n
                    &&& declares(sheet[order[k]], name)
                    &&& forall|later: int|
                        k < later < n ==> !declares(sheet[#[trigger] order[later]], name)
                    &&& after.contains_key(name)
                    &&& Some(after[name]) == last_declared(
                        sheet[order[k]].declarations,
                        name,
                        sheet[order[k]].declarations.len(),
                    )
                },
                None => {
                    &&& !after.contains_key(name)
                    &&& forall|k: int| 0 <= k < n ==> !declares(sheet[#[trigger] order[k]], name)
                },
            }
        }),
    decreases n,
{
    if n > 0 {
        lemma_after_rules(sheet, order, name, (n - 1) as nat);
        let declarations = sheet[order[n - 1]].declarations;
        lemma_after_declarations(
            after_rules(sheet, order, (n - 1) as nat),
            declarations,
            name,
            declarations.len(),
        );
    }
}

/// No two rules override each other.
proof fn lemma_overrides_one_way(elem: ElementModel, sheet: Seq<RuleModel>, i: int, j: int)
    ensures
        !(overrides(elem, sheet, i, j) && overrides(elem, sheet, j, i)),
{
}

/// Applying the rules in cascade order gives the cascaded values.
proof fn lemma_cascade(elem: ElementModel, sheet: Seq<RuleModel>, order: Seq<int>)
    requires
        is_cascade_order(elem, sheet, order),
    ensures
        after_rules(sheet, order, order.len()) =~= cascaded_values(elem, sheet),
{
    let after = after_rules(sheet, order, order.len());
    let want = cascaded_values(elem, sheet);
    assert forall|name: Seq<char>|
        #![trigger after.dom().contains(name)]
        #![trigger want.dom().contains(name)]
        after.dom().contains(name) == want.dom().contains(name) && (after.dom().contains(name)
            ==> after[name] == want[name]) by {
        lemma_after_rules(sheet, order, name, order.len());
        match last_declaring(sheet, order, name, order.len()) {
            Some(k) => {
                let i = order[k];
                assert forall|j: int|
                    j != i && #[trigger] contends(elem, sheet, name, j) implies overrides(
                    elem,
                    sheet,
                    i,
                    j,
                ) by {
                    assert(match_specificity(elem, sheet[j]) is Some);
                    let other = choose|other: int| 0 <= other < order.len() && order[other] == j;
                    assert(declares(sheet[order[other]], name));
                    assert(other < k);
                }
                assert(wins(elem, sheet, name, i));
                let winner = choose|w: int| wins(elem, sheet, name, w);
                if winner != i {
                    assert(contends(elem, sheet, name, winner));
                    assert(contends(elem, sheet, name, i));
                    lemma_overrides_one_way(elem, sheet, i, winner);
                }
            },
            None => {
                if exists|w: int| wins(elem, sheet, name, w) {
                    let w = choose|w: int| wins(elem, sheet, name, w);
                    assert(match_specificity(elem, sheet[w]) is Some);
                    let k = choose|k: int| 0 <= k < order.len() && order[k] == w;
                    assert(!declares(sheet[order[k]], name));
                }
            },
        }
    }
}

/// Whether `a` goes before `b` when sorting by specificity.
spec fn precedes(rules: Seq<MatchedRule>, a: int, b: int) -> bool {
    let ka = specificity_model(rules[a].0);
    let kb = specificity_model(rules[b].0);
    specificity_lt(ka, kb) || (ka == kb && a < b)
}

/// Whether `i` is one of `order`.
spec fn occurs_in(order: Seq<int>, i: int) -> bool {
    exists|k: int| 0 <= k < order.len() && #[trigger] order[k] == i
}

/// Whether `order` lists the positions of `rules` sorted by rising
/// specificity, rules of the same specificity staying in their order.
spec fn is_stable_order(rules: Seq<MatchedRule>, order: Seq<int>, n: int) -> bool {
    &&& order.len() == n
    &&& forall|k: int| 0 <= k < n ==> 0 <= #[trigger] order[k] < n
    &&& forall|a: int, b: int|
        0 <= a < b < n ==> precedes(rules, #[trigger] order[a], #[trigger] order[b])
    &&& forall|i: int| 0 <= i < n ==> #[trigger] occurs_in(order, i)
}

/// Sorts matched rules by rising specificity.  Rules of equal specificity
/// keep their order.  Also gives, for each place in the result, the place
/// the rule came from.
fn sort_by_specificity<'a>(rules: &Vec<MatchedRule<'a>>) -> (r: (
    Vec<MatchedRule<'a>>,
    Ghost<Seq<int>>,
))
    ensures
        r.0@.len() == rules@.len(),
        is_stable_order(rules@, r.1@, rules@.len() as int),
        forall|k: int| 0 <= k < rules@.len() ==> #[trigger] r.0@[k] == rules@[r.1@[k]],
{
    let mut out: Vec<MatchedRule<'a>> = Vec::new();
    let ghost mut order: Seq<int> = Seq::empty();
    let mut m: usize = 0;
    while m < rules.len()
        invariant
            m <= rules@.len(),
            out@.len() == m,
            is_stable_order(rules@, order, m as int),
            forall|k: int| 0 <= k < m ==> #[trigger] out@[k] == rules@[order[k]],
        decreases rules@.len() - m,
    {
        let x = rules[m];
        let mut pos: usize = 0;
        while pos < out.len() && !specificity_less(x.0, out[pos].0)
            invariant
                pos <= out@.len(),
                out@.len() == m,
                m < rules@.len(),
                x == rules@[m as int],
                forall|k: int| 0 <= k < m ==> #[trigger] out@[k] == rules@[order[k]],
                is_stable_order(rules@, order, m as int),
                forall|k: int| 0 <= k < pos ==> precedes(rules@, #[trigger] order[k], m as int),
            decreases out@.len() - pos,
        {
            assert(out@[pos as int] == rules@[order[pos as int]]);
            pos += 1;
        }
        let ghost old_order = order;
        let ghost old_out = out@;
        proof {
            if pos < out@.len() {
                assert(out@[pos as int] == rules@[order[pos as int]]);
                assert forall|k: int| pos <= k < m implies precedes(
                    rules@,
                    m as int,
                    #[trigger] order[k],
                ) by {
                    if k > pos {
                        assert(precedes(rules@, order[pos as int], order[k]));
                    }
                }
            }
        }
        out.insert(pos, x);
        proof {
            order = order.insert(pos as int, m as int);
            assert forall|i: int| 0 <= i < m + 1 implies #[trigger] occurs_in(order, i) by {
                if i == m {
                    assert(order[pos as int] == i);
                } else {
                    assert(occurs_in(old_order, i));
                    let k = choose|k: int| 0 <= k < m && #[trigger] old_order[k] == i;
                    if k < pos {
                        assert(order[k] == i);
                    } else {
                        assert(order[k + 1] == i);
                    }
                }
            }
            assert forall|a: int, b: int| 0 <= a < b < m + 1 implies precedes(
                rules@,
                #[trigger] order[a],
                #[trigger] order[b],
            ) by {
                if b < pos {
                    assert(order[a] == old_order[a] && order[b] == old_order[b]);
                } else if b == pos {
                    assert(order[a] == old_order[a]);
                } else if a < pos {
                    assert(order[a] == old_order[a] && order[b] == old_order[b - 1]);
                } else if a == pos {
                    assert(order[b] == old_order[b - 1]);
                } else {
                    assert(order[a] == old_order[a - 1] && order[b] == old_order[b - 1]);
                }
            }
            assert forall|k: int| 0 <= k < m + 1 implies #[trigger] out@[k] == rules@[order[k]]
                && 0 <= order[k] < m + 1 by {
                if k < pos {
                    assert(out@[k] == old_out[k] && order[k] == old_order[k]);
                } else if k > pos {
                    assert(out@[k] == old_out[k - 1] && order[k] == old_order[k - 1]);
                }
            }
        }
        m += 1;
    }
    (out, Ghost(order))
}

/// Applies the stylesheet to a single element: every declaration of every
/// rule that matches, from lowest to highest specificity and, among rules
/// of the same specificity, in the order of the sheet, a later declaration
/// of a property replacing an earlier one.
pub fn specified_values(elem: &ElementData, stylesheet: &StyleSheet) -> (r: PropertyMap)
    ensures
        property_model(r@) == cascaded_values(elem@, stylesheet@),
{
    let mut values: PropertyMap = StringHashMap::new();
    let matched = matching_rules(elem, stylesheet);

    // Go through the rules from lowest to highest specificity.
    let sorted = sort_by_specificity(&matched);
    let rules = sorted.0;
    let ghost sheet = stylesheet@;
    let ghost indices = matched_indices(elem@, sheet, sheet.len());
    let ghost order = Seq::new(rules@.len(), |k: int| indices[sorted.1@[k]]);
    proof {
        lemma_matched_indices(elem@, sheet, sheet.len());
        let from = sorted.1@;
        assert(matched_models(matched@).len() == indices.len());
        assert forall|k: int| 0 <= k < matched@.len() implies specificity_model(
            (#[trigger] matched@[k]).0,
        ) == match_specificity(elem@, sheet[indices[k]])->0 && matched@[k].1@
            == sheet[indices[k]] by {
            assert(matched_models(matched@)[k] == matched_rules(elem@, sheet)[k]);
        }
        assert forall|a: int, b: int| 0 <= a < b < order.len() implies overrides(
            elem@,
            sheet,
            #[trigger] order[b],
            #[trigger] order[a],
        ) by {
            assert(precedes(matched@, from[a], from[b]));
        }
        assert forall|i: int|
            0 <= i < sheet.len() && match_specificity(
                elem@,
                #[trigger] sheet[i],
            ) is Some implies exists|k: int| 0 <= k < order.len() && order[k] == i by {
            let at = choose|at: int| 0 <= at < indices.len() && indices[at] == i;
            assert(occurs_in(from, at));
            let k = choose|k: int| 0 <= k < from.len() && #[trigger] from[k] == at;
            assert(order[k] == i);
        }
        assert(is_cascade_order(elem@, sheet, order));
        assert(property_model(values@) =~= after_rules(sheet, order, 0));
    }
    let mut t: usize = 0;
    while t < rules.len()
        invariant
            t <= rules@.len(),
            rules@.len() == order.len(),
            forall|k: int|
                0 <= k < rules@.len() ==> (#[trigger] rules@[k]).1@ == sheet[order[k]],
            property_model(values@) == after_rules(sheet, order, t as nat),
        decreases rules@.len() - t,
    {
        let rule = rules[t].1;
        let ghost start = property_model(values@);
        let ghost declarations = sheet[order[t as int]].declarations;
        assert(rule@.declarations == declarations);
        let mut d: usize = 0;
        while d < rule.declarations.len()
            invariant
                d <= rule.declarations@.len(),
                rule@.declarations == declarations,
                property_model(values@) == after_declarations(start, declarations, d as nat),
            decreases rule.declarations@.len() - d,
        {
            let declaration = &rule.declarations[d];
            let ghost before = values@;
            assert(declarations[d as int] == declaration@);
            values.insert(declaration.name.clone(), declaration.value.clone());
            assert(property_model(values@) =~= property_model(before).insert(
                declaration@.name,
                declaration@.value,
            ));
            d += 1;
        }
        t += 1;
    }
    proof {
        lemma_cascade(elem@, sheet, order);
    }
    values
}

// ---------------------------------------------------------------------------
// The styled tree
// ---------------------------------------------------------------------------

/// The values of a node: the cascaded values of an element, none for text.
pub open spec fn node_values(node: NodeModel, sheet: Seq<RuleModel>) -> PropertyModel {
    match node.node_type {
        NodeTypeModel::Element(elem) => cascaded_values(elem, sheet),
        NodeTypeModel::Text(_) => Map::empty(),
    }
}

/// The styled tree of a document tree: every node with its values, hidden
/// or not, in the shape of the document.
pub open spec fn styled(node: NodeModel, sheet: Seq<RuleModel>) -> StyledNodeModel
    decreases node,
{
    StyledNodeModel {
        node,
        specified_values: node_values(node, sheet),
        children: Seq::new(
            node.children.len(),
            |i: int|
                if 0 <= i < node.children.len() {
                    styled(node.children[i], sheet)
                } else {
                    arbitrary()
                },
        ),
    }
}

/// Applies a stylesheet to an entire document tree.
pub fn style_tree<'a>(root: &'a Node, stylesheet: &'a StyleSheet) -> (r: StyledNode<'a>)
    ensures
        r@ == styled(root@, stylesheet@),
        r.node == root,
    decreases root,
{
    let specified_values = match &root.node_type {
        NodeType::Element(elem) => specified_values(elem, stylesheet),
        NodeType::Text(_) => {
            let empty: PropertyMap = StringHashMap::new();
            assert(property_model(empty@) =~= Map::<Seq<char>, ValueModel>::empty());
            empty
        },
    };
    proof {
        crate::dom::lemma_node_view(root);
    }
    let mut children: Vec<StyledNode<'a>> = Vec::new();
    let mut i: usize = 0;
    while i < root.children.len()
        invariant
            i <= root.children@.len(),
            children@.len() == i,
            forall|k: int|
                0 <= k < i ==> (#[trigger] children@[k])@ == styled(
                    root.children@[k]@,
                    stylesheet@,
                ),
        decreases root.children@.len() - i,
    {
        let child = style_tree(&root.children[i], stylesheet);
        children.push(child);
        i += 1;
    }
    let r = StyledNode { node: root, specified_values, children };
    proof {
        lemma_styled_view(&r);
        assert(r@.children =~= styled(root@, stylesheet@).children);
    }
    r
}

/// Resolving the same element against the same stylesheet always gives the
/// same values: what comes out is decided by the two alone.
pub proof fn lemma_cascade_is_a_function(
    elem: ElementModel,
    sheet: Seq<RuleModel>,
    first: PropertyModel,
    second: PropertyModel,
)
    requires
        first == cascaded_values(elem, sheet),
        second == cascaded_values(elem, sheet),
    ensures
        first == second,
{
}

/// Of two rules that both apply to an element with the same specificity and
/// both declare a property, the later one wins over the earlier.  Where no
/// third rule that declares the property stands in its way, the element
/// gets the value of the later rule's last declaration of it.
pub proof fn lemma_later_rule_wins_tie(
    elem: ElementModel,
    sheet: Seq<RuleModel>,
    name: Seq<char>,
    earlier: int,
    later: int,
)
    requires
        earlier < later,
        contends(elem, sheet, name, earlier),
        contends(elem, sheet, name, later),
        match_specificity(elem, sheet[earlier]) == match_specificity(elem, sheet[later]),
        forall|j: int|
            j != earlier && j != later && #[trigger] contends(elem, sheet, name, j) ==> overrides(
                elem,
                sheet,
                later,
                j,
            ),
    ensures
        !wins(elem, sheet, name, earlier),
        wins(elem, sheet, name, later),
        value_of(cascaded_values(elem, sheet), name) == last_declared(
            sheet[later].declarations,
            name,
            sheet[later].declarations.len(),
        ),
{
    assert(overrides(elem, sheet, later, earlier));
    lemma_overrides_one_way(elem, sheet, later, earlier);
    lemma_winner_takes_value(elem, sheet, name, later);
}

/// The cascade gives a property the value that the winning rule declares
/// for it last.
pub proof fn lemma_winner_takes_value(
    elem: ElementModel,
    sheet: Seq<RuleModel>,
    name: Seq<char>,
    winner: int,
)
    requires
        wins(elem, sheet, name, winner),
    ensures
        value_of(cascaded_values(elem, sheet), name) == last_declared(
            sheet[winner].declarations,
            name,
            sheet[winner].declarations.len(),
        ),
{
    let chosen = choose|i: int| wins(elem, sheet, name, i);
    if chosen != winner {
        assert(contends(elem, sheet, name, chosen));
        assert(contends(elem, sheet, name, winner));
        lemma_overrides_one_way(elem, sheet, chosen, winner);
    }
}

/// The rule, among the first `n` of `sheet`, that overrides every other of
/// them that contends for `name`; none where none of them contends.
pub open spec fn leading_contender(
    elem: ElementModel,
    sheet: Seq<RuleModel>,
    name: Seq<char>,
    n: nat,
) -> Option<int>
    decreases n,
{
    if n == 0 || n > sheet.len() {
        None
    } else {
        let before = leading_contender(elem, sheet, name, (n - 1) as nat);
        if !contends(elem, sheet, name, n - 1) {
            before
        } else {
            match before {
                Some(j) => if overrides(elem, sheet, j, n - 1) {
                    Some(j)
                } else {
                    Some(n - 1)
                },
                None => Some(n - 1),
            }
        }
    }
}

/// The leading contender contends, and overrides every other contender
/// among the rules it was chosen from.
pub proof fn lemma_leading_contender(
    elem: ElementModel,
    sheet: Seq<RuleModel>,
    name: Seq<char>,
    n: nat,
)
    requires
        n <= sheet.len(),
    ensures
        match leading_contender(elem, sheet, name, n) {
            Some(w) => {
                &&& 0 <= w < n
                &&& contends(elem, sheet, name, w)
                &&& forall|j: int|
                    0 <= j < n && j != w && #[trigger] contends(elem, sheet, name, j)
                        ==> overrides(elem, sheet, w, j)
            },
            None => forall|j: int| 0 <= j < n ==> !#[trigger] contends(elem, sheet, name, j),
        },
    decreases n,
{
    if n > 0 {
        lemma_leading_contender(elem, sheet, name, (n - 1) as nat);
    }
}

/// The cascade gives a property a value exactly where some rule that
/// applies to the element declares it, and then exactly one rule wins it.
pub proof fn lemma_declared_properties_have_values(
    elem: ElementModel,
    sheet: Seq<RuleModel>,
    name: Seq<char>,
)
    ensures
        cascaded_values(elem, sheet).contains_key(name) <==> exists|i: int|
            contends(elem, sheet, name, i),
        forall|i: int, j: int|
            wins(elem, sheet, name, i) && wins(elem, sheet, name, j) ==> i == j,
{
    lemma_leading_contender(elem, sheet, name, sheet.len());
    if exists|i: int| contends(elem, sheet, name, i) {
        let i = choose|i: int| contends(elem, sheet, name, i);
        let w = leading_contender(elem, sheet, name, sheet.len())->0;
        assert(wins(elem, sheet, name, w));
    }
    if cascaded_values(elem, sheet).contains_key(name) {
        let w = choose|w: int| wins(elem, sheet, name, w);
        assert(contends(elem, sheet, name, w));
    }
    assert forall|i: int, j: int|
        wins(elem, sheet, name, i) && wins(elem, sheet, name, j) implies i == j by {
        if i != j {
            assert(contends(elem, sheet, name, i));
            assert(contends(elem, sheet, name, j));
            lemma_overrides_one_way(elem, sheet, i, j);
        }
    }
}

} // verus!
