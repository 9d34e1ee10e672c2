use std::sync::Arc;
use style::document::{Attribute, Document, ElementData, NodeData};
use style::rule::Rule;
use style::selector_map::SelectorMap;
use style::selectors::{Combinator, CompoundSelector, PseudoElement, Selector, SimpleSelector};
use style::sort::sort_from;
use style::stylesheets::{PropertyDeclaration, PropertyDeclarationBlock, StyleRule, Stylesheet};
use style::stylist::{StylesheetOrigin, Stylist};

/// Reads one compound selector: a name, then classes and ids.
fn parse_compound(text: &str) -> (Vec<SimpleSelector>, u32) {
    let mut simple_selectors = Vec::new();
    let (mut ids, mut classes, mut names) = (0u32, 0u32, 0u32);
    let mut rest = text;
    while !rest.is_empty() {
        let kind = rest.chars().next().unwrap();
        let body = if kind == '.' || kind == '#' { &rest[1..] } else { rest };
        let end = body.find(|c| c == '.' || c == '#').unwrap_or(body.len());
        let word = body[..end].to_string();
        match kind {
            '.' => {
                classes += 1;
                simple_selectors.push(SimpleSelector::Class(word));
            }
            '#' => {
                ids += 1;
                simple_selectors.push(SimpleSelector::ID(word));
            }
            '*' => {}
            _ => {
                names += 1;
                simple_selectors.push(SimpleSelector::LocalName(word));
            }
        }
        rest = &body[end..];
    }
    (simple_selectors, (ids << 20) | (classes << 10) | names)
}

/// Reads compound selectors joined by blanks, `>`, `+` or `~`.
fn parse_selector(text: &str) -> Selector {
    let mut chain: Option<CompoundSelector> = None;
    let mut combinator = Combinator::Descendant;
    let mut specificity = 0;
    for word in text.split(' ') {
        match word {
            ">" => combinator = Combinator::Child,
            "+" => combinator = Combinator::NextSibling,
            "~" => combinator = Combinator::LaterSibling,
            _ => {
                let (simple_selectors, own) = parse_compound(word);
                specificity += own;
                chain = Some(CompoundSelector {
                    simple_selectors,
                    next: chain.map(|earlier| (Box::new(earlier), combinator)),
                });
                combinator = Combinator::Descendant;
            }
        }
    }
    Selector { compound_selectors: chain.unwrap(), pseudo_element: None, specificity }
}

fn declare(value: &str) -> Arc<Vec<PropertyDeclaration>> {
    Arc::new(vec![PropertyDeclaration { name: "color".to_string(), value: value.to_string() }])
}

fn nothing() -> Arc<Vec<PropertyDeclaration>> {
    Arc::new(Vec::new())
}

/// Some rules from selectors: each sublist holds the rules of one style rule.
fn get_mock_rules(css_selectors: &[&str]) -> Vec<Vec<Rule>> {
    css_selectors
        .iter()
        .enumerate()
        .map(|(index, group)| {
            group
                .split(", ")
                .map(|selector| Rule {
                    selector: Arc::new(parse_selector(selector)),
                    declarations: declare("red"),
                    rule_index: index,
                    stylesheet_index: 0,
                })
                .collect()
        })
        .collect()
}

fn rule(selector: &str, value: &str, stylesheet_index: usize, rule_index: usize) -> Rule {
    Rule {
        selector: Arc::new(parse_selector(selector)),
        declarations: declare(value),
        rule_index,
        stylesheet_index,
    }
}

fn values(rules: &[Rule]) -> Vec<String> {
    rules.iter().map(|rule| rule.declarations[0].value.clone()).collect()
}

fn style_rule(selectors: &str, normal: &str, important: &str) -> StyleRule {
    let block = |value: &str| if value.is_empty() { nothing() } else { declare(value) };
    StyleRule {
        selectors: selectors.split(", ").map(parse_selector).collect(),
        declarations: PropertyDeclarationBlock {
            normal: block(normal),
            important: block(important),
        },
    }
}

fn element(name: &str, attributes: &[(&str, &str)]) -> NodeData {
    NodeData::Element(ElementData {
        local_name: name.to_string(),
        namespace_url: "http://www.w3.org/1999/xhtml".to_string(),
        attributes: attributes
            .iter()
            .map(|(name, value)| Attribute {
                namespace: None,
                name: name.to_string(),
                value: value.to_string(),
            })
            .collect(),
        link: None,
    })
}

/// html > body > img#logo.intro.wide
fn document_with_image() -> (Document, usize) {
    let mut document = Document::new();
    let html = document.append(Some(0), element("html", &[]));
    let body = document.append(Some(html), element("body", &[]));
    let img =
        document.append(Some(body), element("IMG", &[("id", "logo"), ("class", "intro wide")]));
    (document, img)
}

fn applied(declarations: &[Arc<Vec<PropertyDeclaration>>]) -> Vec<String> {
    declarations
        .iter()
        .map(|block| block.iter().map(|d| d.value.clone()).collect::<Vec<_>>().join("+"))
        .collect()
}

#[test]
fn test_rule_ordering_same_specificity() {
    let rules_list = get_mock_rules(&["a.intro", "img.sidebar"]);
    let rule1 = rules_list[0][0].clone();
    let rule2 = rules_list[1][0].clone();
    assert!(rule1 < rule2, "The rule that comes later should win.");
}

#[test]
fn test_get_id_name() {
    let rules_list = get_mock_rules(&[".intro", "#top"]);
    assert_eq!(SelectorMap::get_id_name(&rules_list[0][0]), None);
    assert_eq!(SelectorMap::get_id_name(&rules_list[1][0]), Some("top".to_string()));
}

#[test]
fn test_get_class_name() {
    let rules_list = get_mock_rules(&[".intro.foo", "#top"]);
    assert_eq!(SelectorMap::get_class_name(&rules_list[0][0]), Some("intro".to_string()));
    assert_eq!(SelectorMap::get_class_name(&rules_list[1][0]), None);
}

#[test]
fn test_get_element_name() {
    let rules_list = get_mock_rules(&["img.foo", "#top", "IMG", "ImG"]);
    assert_eq!(SelectorMap::get_element_name(&rules_list[0][0]), Some("img".to_string()));
    assert_eq!(SelectorMap::get_element_name(&rules_list[1][0]), None);
    assert_eq!(SelectorMap::get_element_name(&rules_list[2][0]), Some("img".to_string()));
    assert_eq!(SelectorMap::get_element_name(&rules_list[3][0]), Some("img".to_string()));
}

#[test]
fn test_insert() {
    let rules_list = get_mock_rules(&[".intro.foo", "#top"]);
    let mut selector_map = SelectorMap::new();
    selector_map.insert(rules_list[1][0].clone());
    assert_eq!(1, selector_map.id_rules("top").unwrap()[0].rule_index);
    selector_map.insert(rules_list[0][0].clone());
    assert_eq!(0, selector_map.class_rules("intro").unwrap()[0].rule_index);
    assert!(selector_map.class_rules("foo").is_none());
}

#[test]
fn rules_are_ordered_by_specificity_then_sheet_then_position() {
    let low = rule("img", "low", 9, 9);
    let high = rule("img.intro", "high", 0, 0);
    assert!(low < high);
    assert!(low.lt(&high));
    assert!(!high.lt(&low));
    assert!(high > low);
    let early_sheet = rule("img", "early", 1, 7);
    let late_sheet = rule("p", "late", 2, 0);
    assert!(early_sheet < late_sheet);
    assert!(!(late_sheet < early_sheet));
    let first = rule("img", "first", 3, 4);
    let second = rule("p", "second", 3, 5);
    assert!(first < second);
    assert!(second >= first);
    let same = rule("ul", "same", 3, 4);
    assert!(!(first < same));
    assert!(!(same < first));
    assert!(first <= same);
    assert!(first == same);
    assert!(first != second);
}

#[test]
fn id_goes_before_class() {
    let mut selector_map = SelectorMap::new();
    selector_map.insert(rule(".intro#top", "both", 0, 0));
    assert_eq!(values(selector_map.id_rules("top").unwrap()), ["both"]);
    assert!(selector_map.class_rules("intro").is_none());
    assert!(selector_map.id_rules("intro").is_none());
    assert!(selector_map.universal_rules().is_empty());
}

#[test]
fn class_goes_before_local_name() {
    let mut selector_map = SelectorMap::new();
    selector_map.insert(rule("img.foo", "picture", 0, 0));
    assert_eq!(values(selector_map.class_rules("foo").unwrap()), ["picture"]);
    assert!(selector_map.element_rules("img").is_none());
}

#[test]
fn local_names_are_filed_in_lower_case() {
    let mut selector_map = SelectorMap::new();
    selector_map.insert(rule("IMG", "upper", 0, 0));
    selector_map.insert(rule("ImG", "mixed", 0, 1));
    selector_map.insert(rule("img", "lower", 0, 2));
    assert_eq!(values(selector_map.element_rules("img").unwrap()), ["upper", "mixed", "lower"]);
    assert!(selector_map.element_rules("IMG").is_none());
    assert!(selector_map.element_rules("ImG").is_none());
}

#[test]
fn only_the_subject_compound_decides_the_place() {
    let mut selector_map = SelectorMap::new();
    selector_map.insert(rule("#page .menu > li", "item", 0, 0));
    selector_map.insert(rule("p > *", "any", 0, 1));
    assert_eq!(values(selector_map.element_rules("li").unwrap()), ["item"]);
    assert!(selector_map.id_rules("page").is_none());
    assert!(selector_map.class_rules("menu").is_none());
    assert_eq!(values(selector_map.universal_rules()), ["any"]);
    assert!(selector_map.element_rules("p").is_none());
}

#[test]
fn only_the_first_of_a_kind_is_the_key() {
    let mut selector_map = SelectorMap::new();
    selector_map.insert(rule("#one#two", "ids", 0, 0));
    selector_map.insert(rule(".one.two", "classes", 0, 1));
    assert_eq!(values(selector_map.id_rules("one").unwrap()), ["ids"]);
    assert!(selector_map.id_rules("two").is_none());
    assert_eq!(values(selector_map.class_rules("one").unwrap()), ["classes"]);
    assert!(selector_map.class_rules("two").is_none());
}

#[test]
fn a_bucket_keeps_the_order_of_insertion() {
    let mut selector_map = SelectorMap::new();
    for (index, value) in ["c", "a", "b"].iter().enumerate() {
        selector_map.insert(rule(".menu", value, 0, 10 - index));
    }
    assert_eq!(values(selector_map.class_rules("menu").unwrap()), ["c", "a", "b"]);
}

#[test]
fn matching_rules_come_out_in_cascade_order() {
    let (document, img) = document_with_image();
    let mut selector_map = SelectorMap::new();
    selector_map.insert(rule("*", "universal", 0, 0));
    selector_map.insert(rule("img", "name", 0, 1));
    selector_map.insert(rule(".wide", "wide", 0, 2));
    selector_map.insert(rule(".intro", "intro", 0, 3));
    selector_map.insert(rule("#logo", "id", 0, 4));
    selector_map.insert(rule("p", "other name", 0, 5));
    selector_map.insert(rule(".narrow", "other class", 0, 6));
    selector_map.insert(rule("#banner", "other id", 0, 7));
    selector_map.insert(rule("body > img", "child", 0, 8));
    selector_map.insert(rule("p > img", "not a child", 0, 9));
    let mut found = Vec::new();
    selector_map.get_all_matching_rules(&document.node(img), None, &mut found);
    assert_eq!(values(&found), ["universal", "name", "child", "wide", "intro", "id"]);
}

#[test]
fn rules_of_one_rank_keep_the_order_in_which_they_were_found() {
    let (document, img) = document_with_image();
    let mut selector_map = SelectorMap::new();
    // All of one style rule and one specificity: the rank is the same.
    selector_map.insert(rule(".wide", "wide", 0, 0));
    selector_map.insert(rule(".intro", "intro", 0, 0));
    selector_map.insert(rule(".wide", "wide again", 0, 0));
    let mut found = Vec::new();
    selector_map.get_all_matching_rules(&document.node(img), None, &mut found);
    // The classes of the element are "intro wide".
    assert_eq!(values(&found), ["intro", "wide", "wide again"]);
}

#[test]
fn only_what_was_added_is_sorted() {
    let (document, img) = document_with_image();
    let mut selector_map = SelectorMap::new();
    selector_map.insert(rule("#logo", "id", 0, 0));
    selector_map.insert(rule("img", "name", 0, 1));
    let mut found = vec![rule("#a#b", "kept high", 5, 5), rule("p", "kept low", 0, 0)];
    selector_map.get_all_matching_rules(&document.node(img), None, &mut found);
    assert_eq!(values(&found), ["kept high", "kept low", "name", "id"]);
}

#[test]
fn a_class_named_twice_gives_its_rules_twice() {
    let mut document = Document::new();
    let p = document.append(Some(0), element("p", &[("class", "note note")]));
    let mut selector_map = SelectorMap::new();
    selector_map.insert(rule(".note", "note", 0, 0));
    let mut found = Vec::new();
    selector_map.get_all_matching_rules(&document.node(p), None, &mut found);
    assert_eq!(values(&found), ["note", "note"]);
}

#[test]
fn rules_for_a_pseudo_element_are_found_for_it_alone() {
    let (document, img) = document_with_image();
    let mut before = parse_selector("img");
    before.pseudo_element = Some(PseudoElement::Before);
    let mut selector_map = SelectorMap::new();
    selector_map.insert(Rule {
        selector: Arc::new(before),
        declarations: declare("before"),
        rule_index: 0,
        stylesheet_index: 0,
    });
    selector_map.insert(rule("img", "plain", 0, 1));
    let mut plain = Vec::new();
    selector_map.get_all_matching_rules(&document.node(img), None, &mut plain);
    assert_eq!(values(&plain), ["plain"]);
    let mut pseudo = Vec::new();
    selector_map.get_all_matching_rules(
        &document.node(img),
        Some(PseudoElement::Before),
        &mut pseudo,
    );
    assert_eq!(values(&pseudo), ["before"]);
}

#[test]
fn get_matching_rules_keeps_the_order_of_the_rules() {
    let (document, img) = document_with_image();
    let rules = vec![
        rule("#logo", "id", 0, 2),
        rule("p", "other", 0, 1),
        rule("img", "name", 0, 0),
    ];
    let mut found = vec![rule("ul", "before", 0, 0)];
    SelectorMap::get_matching_rules(&document.node(img), None, &rules, &mut found);
    assert_eq!(values(&found), ["before", "id", "name"]);
}

#[test]
fn sorting_is_stable_and_leaves_the_front_alone() {
    let mut rules = vec![
        rule("#x", "front high", 0, 0),
        rule("p", "front low", 0, 0),
        rule(".a", "c1", 1, 0),
        rule("p", "n1", 1, 0),
        rule(".b", "c2", 1, 0),
        rule("#i", "i1", 0, 0),
        rule("img", "n2", 1, 0),
        rule(".c", "c0", 0, 9),
        rule("ul", "n0", 0, 0),
    ];
    sort_from(&mut rules, 2);
    assert_eq!(
        values(&rules),
        ["front high", "front low", "n0", "n1", "n2", "c0", "c1", "c2", "i1"]
    );
    sort_from(&mut rules, 9);
    assert_eq!(rules.len(), 9);
    let mut none: Vec<Rule> = Vec::new();
    sort_from(&mut none, 0);
    assert!(none.is_empty());
}

#[test]
fn a_new_stylist_has_nothing_to_declare() {
    let (document, img) = document_with_image();
    let stylist = Stylist::new();
    assert!(stylist.get_applicable_declarations(&document.node(img), None, None).is_empty());
}

#[test]
fn declarations_come_out_in_cascade_order() {
    let (document, img) = document_with_image();
    let mut stylist = Stylist::new();
    stylist.add_stylesheet(
        Stylesheet { rules: vec![style_rule("img", "author", "author!")] },
        StylesheetOrigin::AuthorOrigin,
    );
    stylist.add_stylesheet(
        Stylesheet { rules: vec![style_rule("img", "user", "user!")] },
        StylesheetOrigin::UserOrigin,
    );
    stylist.add_stylesheet(
        Stylesheet { rules: vec![style_rule("img", "ua", "ua!")] },
        StylesheetOrigin::UserAgentOrigin,
    );
    let style_attribute =
        PropertyDeclarationBlock { normal: declare("style"), important: declare("style!") };
    let node = document.node(img);
    assert_eq!(
        applied(&stylist.get_applicable_declarations(&node, Some(&style_attribute), None)),
        ["ua", "user", "author", "style", "author!", "style!", "user!", "ua!"]
    );
    assert_eq!(
        applied(&stylist.get_applicable_declarations(&node, None, None)),
        ["ua", "user", "author", "author!", "user!", "ua!"]
    );
    assert!(stylist
        .get_applicable_declarations(&node, None, Some(PseudoElement::After))
        .is_empty());
}

#[test]
fn a_style_attribute_applies_where_no_rule_does() {
    let (document, img) = document_with_image();
    let stylist = Stylist::new();
    let style_attribute =
        PropertyDeclarationBlock { normal: declare("style"), important: nothing() };
    let found =
        stylist.get_applicable_declarations(&document.node(img), Some(&style_attribute), None);
    assert_eq!(found.len(), 2);
    assert_eq!(found[0][0].value, "style");
    assert!(found[1].is_empty());
}

#[test]
fn within_an_origin_specificity_then_order_decide() {
    let (document, img) = document_with_image();
    let mut stylist = Stylist::new();
    stylist.add_stylesheet(
        Stylesheet {
            rules: vec![
                style_rule("#logo", "id", ""),
                style_rule(".intro", "class in first sheet", ""),
                style_rule("img", "name in first sheet", ""),
                style_rule("p", "other", "other!"),
            ],
        },
        StylesheetOrigin::AuthorOrigin,
    );
    stylist.add_stylesheet(
        Stylesheet {
            rules: vec![
                style_rule("img, p, body img", "names in second sheet", ""),
                style_rule(".wide", "class in second sheet", "important class"),
                style_rule(".wide", "", "only important"),
            ],
        },
        StylesheetOrigin::AuthorOrigin,
    );
    assert_eq!(
        applied(&stylist.get_applicable_declarations(&document.node(img), None, None)),
        [
            "name in first sheet",
            "names in second sheet",
            "names in second sheet",
            "class in first sheet",
            "class in second sheet",
            "id",
            "important class",
            "only important",
        ]
    );
}

#[test]
fn sheets_are_counted_over_all_origins() {
    let (document, img) = document_with_image();
    let mut stylist = Stylist::new();
    let sheet = |value: &str| Stylesheet { rules: vec![style_rule("img", value, "")] };
    stylist.add_stylesheet(sheet("author 0"), StylesheetOrigin::AuthorOrigin);
    stylist.add_stylesheet(sheet("user 1"), StylesheetOrigin::UserOrigin);
    stylist.add_stylesheet(sheet("author 2"), StylesheetOrigin::AuthorOrigin);
    stylist.add_stylesheet(sheet("ua 3"), StylesheetOrigin::UserAgentOrigin);
    stylist.add_stylesheet(sheet("user 4"), StylesheetOrigin::UserOrigin);
    assert_eq!(
        applied(&stylist.get_applicable_declarations(&document.node(img), None, None)),
        ["ua 3", "user 1", "user 4", "author 0", "author 2"]
    );
}

#[test]
fn the_rules_of_a_sheet_share_their_declarations() {
    let (document, img) = document_with_image();
    let mut stylist = Stylist::new();
    let shared = style_rule("img, .intro", "shared", "");
    let block = shared.declarations.normal.clone();
    stylist.add_stylesheet(Stylesheet { rules: vec![shared] }, StylesheetOrigin::UserOrigin);
    let found = stylist.get_applicable_declarations(&document.node(img), None, None);
    assert_eq!(found.len(), 2);
    assert!(Arc::ptr_eq(&found[0], &block));
    assert!(Arc::ptr_eq(&found[1], &block));
}

#[test]
fn an_empty_sheet_is_counted_too() {
    let (document, img) = document_with_image();
    let mut stylist = Stylist::new();
    stylist.add_stylesheet(
        Stylesheet { rules: vec![style_rule("img.intro", "first", "")] },
        StylesheetOrigin::AuthorOrigin,
    );
    stylist.add_stylesheet(Stylesheet { rules: Vec::new() }, StylesheetOrigin::UserOrigin);
    stylist.add_stylesheet(
        Stylesheet { rules: vec![style_rule("img#logo", "third", "")] },
        StylesheetOrigin::AuthorOrigin,
    );
    assert_eq!(
        applied(&stylist.get_applicable_declarations(&document.node(img), None, None)),
        ["first", "third"]
    );
}
