//! The cascade: the rules of all style sheets, and for an element the
//! declarations that apply to it, the weakest first.

use std::sync::Arc;
use vstd::prelude::*;
use crate::rule::{share, Rule};
use crate::selector_map::{lemma_insert_all_add, SelectorMap, SelectorMapView};
use crate::selectors::{PseudoElement, Selector};
use crate::sort::stable_sort;
use crate::stylesheets::{PropertyDeclaration, PropertyDeclarationBlock, StyleRule, Stylesheet};
use crate::tree::TreeNode;

verus! {

/// Where a style sheet comes from.
#[derive(Clone, Copy, Debug, PartialEq, Eq, Structural)]
pub enum StylesheetOrigin {
    UserAgentOrigin,
    AuthorOrigin,
    UserOrigin,
}

/// A shared block of declarations.
pub type Declarations = Arc<Vec<PropertyDeclaration>>;

/// The rule of one selector of a style rule.
pub open spec fn rule_of(
    selector: Selector,
    declarations: Declarations,
    rule_index: usize,
    stylesheet_index: usize,
) -> Rule {
    Rule { selector: Arc::new(selector), declarations, rule_index, stylesheet_index }
}

/// One rule for each of `selectors`, in their order, all with the same declarations.
pub open spec fn rules_of_selectors(
    selectors: Seq<Selector>,
    declarations: Declarations,
    rule_index: usize,
    stylesheet_index: usize,
) -> Seq<Rule> {
    selectors.map_values(
        |selector: Selector| rule_of(selector, declarations, rule_index, stylesheet_index),
    )
}

/// The declarations of a block that have the given priority.
pub open spec fn declarations_with(block: PropertyDeclarationBlock, important: bool) -> Declarations {
    if important {
        block.important
    } else {
        block.normal
    }
}

/// The rules that a style rule contributes for one priority: one for each of
/// its selectors where it declares something with that priority, else none.
pub open spec fn rules_of_style_rule(
    style_rule: StyleRule,
    important: bool,
    rule_index: usize,
    stylesheet_index: usize,
) -> Seq<Rule> {
    let declarations = declarations_with(style_rule.declarations, important);
    if declarations@.len() > 0 {
        rules_of_selectors(style_rule.selectors@, declarations, rule_index, stylesheet_index)
    } else {
        Seq::empty()
    }
}

/// The rules that a sequence of style rules contributes for one priority,
/// each style rule with its position as the rule index.
pub open spec fn rules_of_style_rules(
    style_rules: Seq<StyleRule>,
    important: bool,
    stylesheet_index: usize,
) -> Seq<Rule> {
    Seq::new(
        style_rules.len(),
        |i: int| rules_of_style_rule(style_rules[i], important, i as usize, stylesheet_index),
    ).flatten()
}

/// The rules of the first `count` maps of `maps` that select the element `e`,
/// map after map, those of each map in the order of the cascade.
pub open spec fn matched_by_first<N: TreeNode>(
    maps: Seq<SelectorMapView>,
    count: int,
    e: N,
    pseudo_element: Option<PseudoElement>,
) -> Seq<Rule>
    decreases count,
{
    if count <= 0 {
        Seq::empty()
    } else {
        matched_by_first(maps, count - 1, e, pseudo_element) + stable_sort(
            maps[count - 1].matching_rules(e, pseudo_element),
        )
    }
}

/// The declaration blocks of `rules`, in their order.
pub open spec fn declarations_of(rules: Seq<Rule>) -> Seq<Declarations> {
    rules.map_values(|rule: Rule| rule.declarations)
}

/// What the rules of `map` declare for the element `e`, the weakest first.
pub open spec fn declared_by<N: TreeNode>(
    map: SelectorMapView,
    e: N,
    pseudo_element: Option<PseudoElement>,
) -> Seq<Declarations> {
    declarations_of(stable_sort(map.matching_rules(e, pseudo_element)))
}

/// The rules of one origin, parted by priority.
pub struct PerOriginView {
    pub normal: SelectorMapView,
    pub important: SelectorMapView,
}

impl PerOriginView {
    pub open spec fn empty() -> PerOriginView {
        PerOriginView { normal: SelectorMapView::empty(), important: SelectorMapView::empty() }
    }

    /// The maps with the rules of `style_rules` put in, each into the map of its priority.
    pub open spec fn add_style_rules(self, style_rules: Seq<StyleRule>, stylesheet_index: usize) -> PerOriginView {
        PerOriginView {
            normal: self.normal.insert_all(
                rules_of_style_rules(style_rules, false, stylesheet_index),
            ),
            important: self.important.insert_all(
                rules_of_style_rules(style_rules, true, stylesheet_index),
            ),
        }
    }
}

/// What a `Stylist` holds.
pub struct StylistView {
    pub ua: PerOriginView,
    pub author: PerOriginView,
    pub user: PerOriginView,
    /// The number of style sheets that were added, of all origins together.
    pub stylesheet_index: usize,
}

/// The declarations of a style attribute with the given priority, where
/// there is a style attribute.
pub open spec fn style_declarations(
    style_attribute: Option<&PropertyDeclarationBlock>,
    important: bool,
) -> Seq<Declarations> {
    match style_attribute {
        Some(block) => seq![declarations_with(*block, important)],
        None => Seq::empty(),
    }
}

impl StylistView {
    pub open spec fn empty() -> StylistView {
        StylistView {
            ua: PerOriginView::empty(),
            author: PerOriginView::empty(),
            user: PerOriginView::empty(),
            stylesheet_index: 0,
        }
    }

    /// The stylist after a style sheet of the given origin was added.
    pub open spec fn add_stylesheet(self, stylesheet: Stylesheet, origin: StylesheetOrigin) -> StylistView {
        let index = self.stylesheet_index;
        let counted = StylistView { stylesheet_index: (index + 1) as usize, ..self };
        match origin {
            StylesheetOrigin::UserAgentOrigin => StylistView {
                ua: self.ua.add_style_rules(stylesheet.rules@, index),
                ..counted
            },
            StylesheetOrigin::AuthorOrigin => StylistView {
                author: self.author.add_style_rules(stylesheet.rules@, index),
                ..counted
            },
            StylesheetOrigin::UserOrigin => StylistView {
                user: self.user.add_style_rules(stylesheet.rules@, index),
                ..counted
            },
        }
    }

    /// The six maps in the order of the cascade, the weakest first.
    pub open spec fn cascade_order(self) -> Seq<SelectorMapView> {
        seq![
            self.ua.normal,
            self.user.normal,
            self.author.normal,
            self.author.important,
            self.user.important,
            self.ua.important,
        ]
    }

    /// The declarations that apply to the element `e`, the weakest first:
    /// normal declarations of the user agent, of the user and of the author,
    /// those of the style attribute, then the important declarations of the
    /// author, of the style attribute, of the user and of the user agent.
    pub open spec fn applicable_declarations<N: TreeNode>(
        self,
        e: N,
        style_attribute: Option<&PropertyDeclarationBlock>,
        pseudo_element: Option<PseudoElement>,
    ) -> Seq<Declarations> {
        declared_by(self.ua.normal, e, pseudo_element)
            + declared_by(self.user.normal, e, pseudo_element)
            + declared_by(self.author.normal, e, pseudo_element)
            + style_declarations(style_attribute, false)
            + declared_by(self.author.important, e, pseudo_element)
            + style_declarations(style_attribute, true)
            + declared_by(self.user.important, e, pseudo_element)
            + declared_by(self.ua.important, e, pseudo_element)
    }
}

/// The rules of some style rules are those of all but the last, followed by
/// those of the last.
proof fn lemma_rules_of_style_rules_step(
    style_rules: Seq<StyleRule>,
    i: int,
    important: bool,
    stylesheet_index: usize,
)
    requires
        0 <= i < style_rules.len(),
    ensures
        rules_of_style_rules(style_rules.take(i + 1), important, stylesheet_index)
            == rules_of_style_rules(style_rules.take(i), important, stylesheet_index)
            + rules_of_style_rule(style_rules[i], important, i as usize, stylesheet_index),
{
    let shorter = style_rules.take(i);
    let longer = style_rules.take(i + 1);
    let parts = Seq::new(
        shorter.len(),
        |k: int| rules_of_style_rule(shorter[k], important, k as usize, stylesheet_index),
    );
    let more = Seq::new(
        longer.len(),
        |k: int| rules_of_style_rule(longer[k], important, k as usize, stylesheet_index),
    );
    let last = rules_of_style_rule(style_rules[i], important, i as usize, stylesheet_index);
    assert(more == parts.push(last));
    parts.lemma_flatten_push(last);
}

/// The rules of each origin, parted by priority.
pub struct PerOriginSelectorMap {
    pub normal: SelectorMap,
    pub important: SelectorMap,
}

impl View for PerOriginSelectorMap {
    type V = PerOriginView;

    open spec fn view(&self) -> PerOriginView {
        PerOriginView { normal: self.normal@, important: self.important@ }
    }
}

impl PerOriginSelectorMap {
    pub open spec fn wf(&self) -> bool {
        self.normal.wf() && self.important.wf()
    }

    pub fn new() -> (maps: PerOriginSelectorMap)
        ensures
            maps.wf(),
            maps@ == PerOriginView::empty(),
    {
        PerOriginSelectorMap { normal: SelectorMap::new(), important: SelectorMap::new() }
    }

    /// Takes each style rule apart into one rule for each selector and
    /// priority, and files the rules in the map of their priority.
    fn add_style_rules(&mut self, style_rules: Vec<StyleRule>, stylesheet_index: usize)
        requires
            old(self).wf(),
        ensures
            final(self).wf(),
            final(self)@ == old(self)@.add_style_rules(style_rules@, stylesheet_index),
    {
        let ghost start = self@;
        let ghost all = style_rules@;
        let count = style_rules.len();
        let mut style_rule_index: usize = 0;
        proof {
            assert(all.take(0) == Seq::<StyleRule>::empty());
            assert(rules_of_style_rules(all.take(0), false, stylesheet_index) == Seq::<
                Rule,
            >::empty());
            assert(rules_of_style_rules(all.take(0), true, stylesheet_index) == Seq::<
                Rule,
            >::empty());
        }
        for style_rule in it: style_rules
            invariant
                it.seq() == all,
                all.len() == count,
                style_rule_index == it.index(),
                self.wf(),
                self@ == start.add_style_rules(all.take(it.index()), stylesheet_index),
        {
            let ghost reached = self@;
            let ghost whole = style_rule;
            let StyleRule { selectors, declarations } = style_rule;
            let has_normal = declarations.normal.len() > 0;
            let has_important = declarations.important.len() > 0;
            let ghost chosen = selectors@;
            let selector_count = selectors.len();
            proof {
                assert(chosen.take(0) == Seq::<Selector>::empty());
                assert(rules_of_selectors(
                    chosen.take(0),
                    declarations.normal,
                    style_rule_index,
                    stylesheet_index,
                ) == Seq::<Rule>::empty());
                assert(rules_of_selectors(
                    chosen.take(0),
                    declarations.important,
                    style_rule_index,
                    stylesheet_index,
                ) == Seq::<Rule>::empty());
            }
            for selector in selected: selectors
                invariant
                    selected.seq() == chosen,
                    self.wf(),
                    has_normal == (declarations.normal@.len() > 0),
                    has_important == (declarations.important@.len() > 0),
                    self@.normal == reached.normal.insert_all(
                        if has_normal {
                            rules_of_selectors(
                                chosen.take(selected.index()),
                                declarations.normal,
                                style_rule_index,
                                stylesheet_index,
                            )
                        } else {
                            Seq::empty()
                        },
                    ),
                    self@.important == reached.important.insert_all(
                        if has_important {
                            rules_of_selectors(
                                chosen.take(selected.index()),
                                declarations.important,
                                style_rule_index,
                                stylesheet_index,
                            )
                        } else {
                            Seq::empty()
                        },
                    ),
            {
                proof {
                    let j = selected.index();
                    assert(chosen.take(j + 1) == chosen.take(j).push(selector));
                    assert(rules_of_selectors(
                        chosen.take(j + 1),
                        declarations.normal,
                        style_rule_index,
                        stylesheet_index,
                    ) == rules_of_selectors(
                        chosen.take(j),
                        declarations.normal,
                        style_rule_index,
                        stylesheet_index,
                    ).push(
                        rule_of(selector, declarations.normal, style_rule_index, stylesheet_index),
                    ));
                    assert(rules_of_selectors(
                        chosen.take(j + 1),
                        declarations.important,
                        style_rule_index,
                        stylesheet_index,
                    ) == rules_of_selectors(
                        chosen.take(j),
                        declarations.important,
                        style_rule_index,
                        stylesheet_index,
                    ).push(
                        rule_of(
                            selector,
                            declarations.important,
                            style_rule_index,
                            stylesheet_index,
                        ),
                    ));
                }
                let selector = Arc::new(selector);
                if has_normal {
                    let ghost filed = rules_of_selectors(
                        chosen.take(selected.index()),
                        declarations.normal,
                        style_rule_index,
                        stylesheet_index,
                    );
                    let rule = Rule {
                        selector: share(&selector),
                        declarations: share(&declarations.normal),
                        rule_index: style_rule_index,
                        stylesheet_index,
                    };
                    assert(filed.push(rule).drop_last() == filed);
                    self.normal.insert(rule);
                }
                if has_important {
                    let ghost filed = rules_of_selectors(
                        chosen.take(selected.index()),
                        declarations.important,
                        style_rule_index,
                        stylesheet_index,
                    );
                    let rule = Rule {
                        selector: share(&selector),
                        declarations: share(&declarations.important),
                        rule_index: style_rule_index,
                        stylesheet_index,
                    };
                    assert(filed.push(rule).drop_last() == filed);
                    self.important.insert(rule);
                }
            }
            proof {
                let i = it.index();
                assert(chosen.take(chosen.len() as int) == chosen);
                assert(whole == all[i]);
                lemma_rules_of_style_rules_step(all, i, false, stylesheet_index);
                lemma_rules_of_style_rules_step(all, i, true, stylesheet_index);
                lemma_insert_all_add(
                    start.normal,
                    rules_of_style_rules(all.take(i), false, stylesheet_index),
                    rules_of_style_rule(all[i], false, i as usize, stylesheet_index),
                );
                lemma_insert_all_add(
                    start.important,
                    rules_of_style_rules(all.take(i), true, stylesheet_index),
                    rules_of_style_rule(all[i], true, i as usize, stylesheet_index),
                );
            }
            style_rule_index = style_rule_index + 1;
        }
        assert(all.take(all.len() as int) == all);
    }
}

/// The rules of all the style sheets that were added, by origin and priority.
pub struct Stylist {
    ua_rule_map: PerOriginSelectorMap,
    author_rule_map: PerOriginSelectorMap,
    user_rule_map: PerOriginSelectorMap,
    stylesheet_index: usize,
}

impl View for Stylist {
    type V = StylistView;

    closed spec fn view(&self) -> StylistView {
        StylistView {
            ua: self.ua_rule_map@,
            author: self.author_rule_map@,
            user: self.user_rule_map@,
            stylesheet_index: self.stylesheet_index,
        }
    }
}

impl Stylist {
    pub closed spec fn wf(&self) -> bool {
        self.ua_rule_map.wf() && self.author_rule_map.wf() && self.user_rule_map.wf()
    }

    /// In each of the six maps each rule is filed at its own place.
    pub proof fn lemma_maps_well_placed(&self)
        requires
            self.wf(),
        ensures
            forall|k: int| 0 <= k < 6 ==> (#[trigger] self@.cascade_order()[k]).well_placed(),
    {
        self.ua_rule_map.normal.lemma_well_placed();
        self.ua_rule_map.important.lemma_well_placed();
        self.user_rule_map.normal.lemma_well_placed();
        self.user_rule_map.important.lemma_well_placed();
        self.author_rule_map.normal.lemma_well_placed();
        self.author_rule_map.important.lemma_well_placed();
    }

    /// A stylist without rules.
    pub fn new() -> (stylist: Stylist)
        ensures
            stylist.wf(),
            stylist@ == StylistView::empty(),
    {
        Stylist {
            ua_rule_map: PerOriginSelectorMap::new(),
            author_rule_map: PerOriginSelectorMap::new(),
            user_rule_map: PerOriginSelectorMap::new(),
            stylesheet_index: 0,
        }
    }

    /// Adds the rules of a style sheet to those of its origin.
    ///
    /// Each style rule gives one rule for each of its selectors with its
    /// normal declarations, where it has any, and one with its important
    /// declarations, where it has any. The rules carry the position of the
    /// style rule in the sheet and the number of sheets added before this one.
    pub fn add_stylesheet(&mut self, stylesheet: Stylesheet, origin: StylesheetOrigin)
        requires
            old(self).wf(),
            old(self)@.stylesheet_index < usize::MAX,
        ensures
            final(self).wf(),
            final(self)@ == old(self)@.add_stylesheet(stylesheet, origin),
    {
        let index = self.stylesheet_index;
        match origin {
            StylesheetOrigin::UserAgentOrigin => {
                self.ua_rule_map.add_style_rules(stylesheet.rules, index);
            },
            StylesheetOrigin::AuthorOrigin => {
                self.author_rule_map.add_style_rules(stylesheet.rules, index);
            },
            StylesheetOrigin::UserOrigin => {
                self.user_rule_map.add_style_rules(stylesheet.rules, index);
            },
        }
        self.stylesheet_index = index + 1;
    }

    /// The declarations that apply to `element`, or to the given
    /// pseudo-element of it, the weakest first.
    ///
    /// The matching rules of the six maps are gathered in the order of the
    /// cascade, those of one map sorted by rank. The declarations of a style
    /// attribute go between those of the author's normal and important
    /// rules, and its important declarations behind the author's important
    /// rules. A style attribute does not apply to a pseudo-element.
    pub fn get_applicable_declarations<N: TreeNode>(
        &self,
        element: &N,
        style_attribute: Option<&PropertyDeclarationBlock>,
        pseudo_element: Option<PseudoElement>,
    ) -> (applicable_declarations: Vec<Declarations>)
        requires
            self.wf(),
            element.wf(),
            element.spec_is_element(),
            style_attribute is None || pseudo_element is None,
        ensures
            applicable_declarations@ == self@.applicable_declarations(
                *element,
                style_attribute,
                pseudo_element,
            ),
    {
        // In cascading order:
        let rule_map_list: [&SelectorMap; 6] = [
            &self.ua_rule_map.normal,
            &self.user_rule_map.normal,
            &self.author_rule_map.normal,
            &self.author_rule_map.important,
            &self.user_rule_map.important,
            &self.ua_rule_map.important,
        ];
        let ghost order = self@.cascade_order();
        // Where the rules of each map begin in the list that is built.
        let mut rule_map_indices: [usize; 6] = [0;6];
        let mut matching_rules_list: Vec<Rule> = Vec::new();
        let mut i: usize = 0;
        while i < 6
            invariant
                i <= 6,
                element.wf(),
                element.spec_is_element(),
                order == self@.cascade_order(),
                forall|k: int| 0 <= k < 6 ==> (#[trigger] rule_map_list@[k]).wf(),
                forall|k: int| 0 <= k < 6 ==> (#[trigger] rule_map_list@[k])@ == order[k],
                matching_rules_list@ == matched_by_first(
                    order,
                    i as int,
                    *element,
                    pseudo_element,
                ),
                forall|k: int|
                    0 <= k < i ==> #[trigger] rule_map_indices@[k] == matched_by_first(
                        order,
                        k,
                        *element,
                        pseudo_element,
                    ).len(),
            decreases 6 - i,
        {
            rule_map_indices[i] = matching_rules_list.len();
            rule_map_list[i].get_all_matching_rules(
                element,
                pseudo_element,
                &mut matching_rules_list,
            );
            i = i + 1;
        }
        let count = matching_rules_list.len();
        let ghost matched = matching_rules_list@;
        let ghost first = |k: int| matched_by_first(order, k, *element, pseudo_element);
        proof {
            reveal_with_fuel(matched_by_first, 7);
            assert(matched == first(6));
            assert(first(3).len() <= first(4).len() <= first(6).len());
            assert(matched.take(first(3).len() as int) == first(3));
            assert(matched.take(first(4).len() as int) == first(4));
        }
        // Gather up all rules.
        let mut applicable_declarations: Vec<Declarations> = Vec::new();
        let mut i: usize = 0;
        // Step 1: Normal rules.
        while i < rule_map_indices[3]
            invariant
                i <= rule_map_indices@[3] <= count,
                count == matched.len(),
                matching_rules_list@ == matched,
                applicable_declarations@ == declarations_of(matched.take(i as int)),
            decreases rule_map_indices@[3] - i,
        {
            applicable_declarations.push(share(&matching_rules_list[i].declarations));
            i = i + 1;
            assert(matched.take(i as int) == matched.take(i - 1).push(matched[i - 1]));
        }
        // Step 2: Normal style attributes.
        match style_attribute {
            Some(sa) => applicable_declarations.push(share(&sa.normal)),
            None => {},
        }
        let ghost with_normal = applicable_declarations@;
        assert(with_normal == declarations_of(first(3)) + style_declarations(
            style_attribute,
            false,
        ));
        // Step 3: Author-supplied `!important` rules.
        while i < rule_map_indices[4]
            invariant
                rule_map_indices@[3] <= i <= rule_map_indices@[4] <= count,
                count == matched.len(),
                matching_rules_list@ == matched,
                applicable_declarations@ == with_normal + declarations_of(
                    matched.subrange(rule_map_indices@[3] as int, i as int),
                ),
            decreases rule_map_indices@[4] - i,
        {
            applicable_declarations.push(share(&matching_rules_list[i].declarations));
            i = i + 1;
            assert(matched.subrange(rule_map_indices@[3] as int, i as int) == matched.subrange(
                rule_map_indices@[3] as int,
                i - 1,
            ).push(matched[i - 1]));
        }
        // Step 4: `!important` style attributes.
        match style_attribute {
            Some(sa) => applicable_declarations.push(share(&sa.important)),
            None => {},
        }
        let ghost with_author = applicable_declarations@;
        proof {
            let author = stable_sort(order[3].matching_rules(*element, pseudo_element));
            assert(matched.subrange(first(3).len() as int, first(4).len() as int) == author);
            assert(with_author == with_normal + declarations_of(author) + style_declarations(
                style_attribute,
                true,
            ));
        }
        // Step 5: User and UA `!important` rules.
        while i < count
            invariant
                rule_map_indices@[4] <= i <= count,
                count == matched.len(),
                matching_rules_list@ == matched,
                applicable_declarations@ == with_author + declarations_of(
                    matched.subrange(rule_map_indices@[4] as int, i as int),
                ),
            decreases count - i,
        {
            applicable_declarations.push(share(&matching_rules_list[i].declarations));
            i = i + 1;
            assert(matched.subrange(rule_map_indices@[4] as int, i as int) == matched.subrange(
                rule_map_indices@[4] as int,
                i - 1,
            ).push(matched[i - 1]));
        }
        proof {
            let user = stable_sort(order[4].matching_rules(*element, pseudo_element));
            let ua = stable_sort(order[5].matching_rules(*element, pseudo_element));
            assert(matched.subrange(first(4).len() as int, count as int) == user + ua);
            assert(declarations_of(user + ua) == declarations_of(user) + declarations_of(ua));
            assert(declarations_of(first(3)) == declarations_of(
                stable_sort(order[0].matching_rules(*element, pseudo_element)),
            ) + declarations_of(stable_sort(order[1].matching_rules(*element, pseudo_element)))
                + declarations_of(stable_sort(order[2].matching_rules(*element, pseudo_element))));
        }
        applicable_declarations
    }
}

} // verus!
