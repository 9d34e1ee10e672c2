use style::document::{Attribute, Document, ElementData, NodeData};
use style::matching::{
    match_attribute, matches_compound_selector, matches_first_child, matches_generic_nth_child,
    matches_last_child, matches_root, matches_selector, matches_simple_selector, url_is_visited,
};
use style::selectors::{
    AttrSelector, Combinator, CompoundSelector, PseudoElement, Selector, SimpleSelector,
};
use style::tree::TreeNode;

const XHTML: &str = "http://www.w3.org/1999/xhtml";
const SVG: &str = "http://www.w3.org/2000/svg";

fn element(name: &str) -> NodeData {
    element_with(name, &[])
}

fn element_with(name: &str, attributes: &[(&str, &str)]) -> NodeData {
    NodeData::Element(ElementData {
        local_name: name.to_string(),
        namespace_url: XHTML.to_string(),
        attributes: attributes
            .iter()
            .map(|(name, value)| Attribute {
                namespace: None,
                name: name.to_string(),
                value: value.to_string(),
            })
            .collect(),
        link: None,
    })
}

fn element_in(name: &str, namespace_url: &str) -> NodeData {
    NodeData::Element(ElementData {
        local_name: name.to_string(),
        namespace_url: namespace_url.to_string(),
        attributes: Vec::new(),
        link: None,
    })
}

fn link_to(url: &str) -> NodeData {
    NodeData::Element(ElementData {
        local_name: "a".to_string(),
        namespace_url: XHTML.to_string(),
        attributes: vec![Attribute {
            namespace: None,
            name: "href".to_string(),
            value: url.to_string(),
        }],
        link: Some(url.to_string()),
    })
}

fn text(content: &str) -> NodeData {
    NodeData::Text(content.to_string())
}

fn attr(name: &str) -> AttrSelector {
    AttrSelector { namespace: None, name: name.to_string() }
}

fn local_name(name: &str) -> SimpleSelector {
    SimpleSelector::LocalName(name.to_string())
}

fn compound(simple_selectors: Vec<SimpleSelector>) -> CompoundSelector {
    CompoundSelector { simple_selectors, next: None }
}

/// `subject` with `next` before it, joined by `combinator`.
fn chain(
    subject: Vec<SimpleSelector>,
    combinator: Combinator,
    next: CompoundSelector,
) -> CompoundSelector {
    CompoundSelector { simple_selectors: subject, next: Some((Box::new(next), combinator)) }
}

/// html > body > (h1, text, p, ul > (li, li, li, li, li), text)
struct Page {
    document: Document,
    html: usize,
    body: usize,
    h1: usize,
    p: usize,
    ul: usize,
    items: Vec<usize>,
}

fn page() -> Page {
    let mut document = Document::new();
    let html = document.append(Some(0), element("html"));
    let body = document.append(Some(html), element_with("body", &[("class", "page wide")]));
    let h1 = document.append(Some(body), element_with("h1", &[("id", "top")]));
    document.append(Some(body), text("\n"));
    let p = document.append(Some(body), element_with("p", &[("class", "intro"), ("lang", "en-US")]));
    let ul = document.append(Some(body), element("ul"));
    let mut items = Vec::new();
    for _ in 0..5 {
        items.push(document.append(Some(ul), element("li")));
    }
    document.append(Some(body), text("\n"));
    Page { document, html, body, h1, p, ul, items }
}

fn simple(page: &Page, selector: SimpleSelector, node: usize) -> bool {
    matches_simple_selector(&selector, &page.document.node(node))
}

#[test]
fn local_name_ignores_ascii_case() {
    let mut document = Document::new();
    let names = ["img", "IMG", "Img", "image"];
    let nodes: Vec<usize> =
        names.iter().map(|name| document.append(Some(0), element(name))).collect();
    for (node, expected) in nodes.iter().zip([true, true, true, false]) {
        let node = document.node(*node);
        assert_eq!(matches_simple_selector(&local_name("IMG"), &node), expected);
        assert_eq!(matches_simple_selector(&local_name("img"), &node), expected);
        assert_eq!(
            matches_simple_selector(&local_name("IMG"), &node),
            matches_simple_selector(&local_name("img"), &node)
        );
    }
}

#[test]
fn namespace_is_compared_exactly() {
    let mut document = Document::new();
    let svg = document.append(Some(0), element_in("svg", SVG));
    let node = document.node(svg);
    assert!(matches_simple_selector(&SimpleSelector::Namespace(SVG.to_string()), &node));
    assert!(!matches_simple_selector(&SimpleSelector::Namespace(XHTML.to_string()), &node));
    assert!(!matches_simple_selector(
        &SimpleSelector::Namespace(SVG.to_uppercase()),
        &node
    ));
}

#[test]
fn id_is_case_sensitive() {
    let page = page();
    assert!(simple(&page, SimpleSelector::ID("top".to_string()), page.h1));
    assert!(!simple(&page, SimpleSelector::ID("Top".to_string()), page.h1));
    assert!(!simple(&page, SimpleSelector::ID("top".to_string()), page.p));
}

#[test]
fn class_is_one_of_the_tokens() {
    let page = page();
    assert!(simple(&page, SimpleSelector::Class("page".to_string()), page.body));
    assert!(simple(&page, SimpleSelector::Class("wide".to_string()), page.body));
    assert!(!simple(&page, SimpleSelector::Class("pag".to_string()), page.body));
    assert!(!simple(&page, SimpleSelector::Class("Page".to_string()), page.body));
    assert!(!simple(&page, SimpleSelector::Class("page".to_string()), page.h1));
}

#[test]
fn attribute_selectors() {
    let page = page();
    let lang = || attr("lang");
    let value = |text: &str| text.to_string();
    assert!(simple(&page, SimpleSelector::AttrExists(lang()), page.p));
    assert!(!simple(&page, SimpleSelector::AttrExists(lang()), page.h1));
    assert!(simple(&page, SimpleSelector::AttrEqual(lang(), value("en-US")), page.p));
    assert!(!simple(&page, SimpleSelector::AttrEqual(lang(), value("en")), page.p));
    assert!(!simple(&page, SimpleSelector::AttrEqual(lang(), value("en-US")), page.h1));
    assert!(simple(&page, SimpleSelector::AttrIncludes(attr("class"), value("wide")), page.body));
    assert!(!simple(&page, SimpleSelector::AttrIncludes(attr("class"), value("wid")), page.body));
    assert!(simple(
        &page,
        SimpleSelector::AttrDashMatch(lang(), value("en"), value("en-")),
        page.p
    ));
    assert!(simple(
        &page,
        SimpleSelector::AttrDashMatch(lang(), value("en-US"), value("en-US-")),
        page.p
    ));
    assert!(!simple(
        &page,
        SimpleSelector::AttrDashMatch(lang(), value("e"), value("e-")),
        page.p
    ));
    assert!(simple(&page, SimpleSelector::AttrPrefixMatch(lang(), value("en")), page.p));
    assert!(!simple(&page, SimpleSelector::AttrPrefixMatch(lang(), value("US")), page.p));
    assert!(simple(&page, SimpleSelector::AttrSubstringMatch(lang(), value("n-U")), page.p));
    assert!(!simple(&page, SimpleSelector::AttrSubstringMatch(lang(), value("nU")), page.p));
    assert!(simple(&page, SimpleSelector::AttrSuffixMatch(lang(), value("US")), page.p));
    assert!(!simple(&page, SimpleSelector::AttrSuffixMatch(lang(), value("en")), page.p));
    assert!(!simple(&page, SimpleSelector::AttrSuffixMatch(lang(), value("US")), page.h1));
}

#[test]
fn attribute_namespace_must_agree() {
    let xlink = "http://www.w3.org/1999/xlink";
    let mut document = Document::new();
    let node = document.append(
        Some(0),
        NodeData::Element(ElementData {
            local_name: "use".to_string(),
            namespace_url: SVG.to_string(),
            attributes: vec![Attribute {
                namespace: Some(xlink.to_string()),
                name: "href".to_string(),
                value: "#shape".to_string(),
            }],
            link: None,
        }),
    );
    let node = document.node(node);
    let namespaced =
        AttrSelector { namespace: Some(xlink.to_string()), name: "href".to_string() };
    assert!(matches_simple_selector(&SimpleSelector::AttrExists(namespaced), &node));
    assert!(!matches_simple_selector(&SimpleSelector::AttrExists(attr("href")), &node));
    assert_eq!(node.attr(Some(xlink), "href"), Some("#shape"));
    assert_eq!(node.attr(None, "href"), None);
    assert_eq!(node.attr(Some(SVG), "href"), None);
}

#[test]
fn match_attribute_hands_the_value_over() {
    let page = page();
    let p = page.document.node(page.p);
    assert!(match_attribute(&attr("lang"), &p, |value: &str| value == "en-US"));
    assert!(!match_attribute(&attr("lang"), &p, |value: &str| value == "en"));
    assert!(!match_attribute(&attr("title"), &p, |_: &str| true));
}

#[test]
fn links_are_never_visited() {
    let mut document = Document::new();
    let link = document.append(Some(0), link_to("http://example.org/"));
    let plain = document.append(Some(0), element("a"));
    let link = document.node(link);
    let plain = document.node(plain);
    assert!(!url_is_visited("http://example.org/"));
    assert!(matches_simple_selector(&SimpleSelector::AnyLink, &link));
    assert!(matches_simple_selector(&SimpleSelector::Link, &link));
    assert!(!matches_simple_selector(&SimpleSelector::Visited, &link));
    assert!(!matches_simple_selector(&SimpleSelector::AnyLink, &plain));
    assert!(!matches_simple_selector(&SimpleSelector::Link, &plain));
    assert!(!matches_simple_selector(&SimpleSelector::Visited, &plain));
}

#[test]
fn first_and_last_child_pass_over_text() {
    let page = page();
    // h1 is the first element of body, ul the last: text nodes do not count.
    assert!(simple(&page, SimpleSelector::FirstChild, page.h1));
    assert!(!simple(&page, SimpleSelector::FirstChild, page.p));
    assert!(simple(&page, SimpleSelector::LastChild, page.ul));
    assert!(!simple(&page, SimpleSelector::LastChild, page.p));
    assert!(!simple(&page, SimpleSelector::OnlyChild, page.h1));
    assert!(!simple(&page, SimpleSelector::OnlyChild, page.ul));
    assert!(simple(&page, SimpleSelector::OnlyChild, page.body));
    assert!(matches_first_child(&page.document.node(page.items[0])));
    assert!(!matches_first_child(&page.document.node(page.items[1])));
    assert!(matches_last_child(&page.document.node(page.items[4])));
    assert!(!matches_last_child(&page.document.node(page.items[3])));
}

#[test]
fn the_root_element_is_no_child() {
    let page = page();
    assert!(simple(&page, SimpleSelector::Root, page.html));
    assert!(!simple(&page, SimpleSelector::Root, page.body));
    assert!(matches_root(&page.document.node(page.html)));
    // The parent of the root element is the document.
    assert!(!simple(&page, SimpleSelector::FirstChild, page.html));
    assert!(!simple(&page, SimpleSelector::LastChild, page.html));
    assert!(!simple(&page, SimpleSelector::OnlyChild, page.html));
    assert!(!simple(&page, SimpleSelector::NthChild(0, 1), page.html));
    assert!(!simple(&page, SimpleSelector::FirstOfType, page.html));
}

#[test]
fn an_element_without_parent_is_no_child() {
    let mut document = Document::new();
    let alone = document.append(None, element("div"));
    let node = document.node(alone);
    assert!(!matches_root(&node));
    assert!(!matches_first_child(&node));
    assert!(!matches_last_child(&node));
    assert!(!matches_generic_nth_child(&node, 0, 1, false, false));
    assert!(!matches_generic_nth_child(&node, 1, 0, true, true));
    assert_eq!(node.parent_node().map(|parent| parent.index), None);
}

#[test]
fn nth_child_math() {
    let page = page();
    let fifth = page.items[4];
    assert!(simple(&page, SimpleSelector::NthChild(2, 1), fifth));
    assert!(simple(&page, SimpleSelector::NthChild(0, 5), fifth));
    assert!(!simple(&page, SimpleSelector::NthChild(0, 4), fifth));
}

#[test]
fn nth_child_progressions() {
    let page = page();
    let matching = |a: i32, b: i32| -> Vec<usize> {
        (1..=5)
            .filter(|position| {
                matches_generic_nth_child(
                    &page.document.node(page.items[position - 1]),
                    a,
                    b,
                    false,
                    false,
                )
            })
            .collect()
    };
    assert_eq!(matching(2, 1), vec![1, 3, 5]);
    assert_eq!(matching(2, 0), vec![2, 4]);
    assert_eq!(matching(1, 0), vec![1, 2, 3, 4, 5]);
    assert_eq!(matching(0, 3), vec![3]);
    assert_eq!(matching(0, 0), Vec::<usize>::new());
    assert_eq!(matching(0, -1), Vec::<usize>::new());
    assert_eq!(matching(-1, 3), vec![1, 2, 3]);
    assert_eq!(matching(-2, 5), vec![1, 3, 5]);
    assert_eq!(matching(3, -1), vec![2, 5]);
    assert_eq!(matching(3, 4), vec![4]);
    assert_eq!(matching(2, 7), Vec::<usize>::new());
    assert_eq!(matching(-1, 0), Vec::<usize>::new());
    assert_eq!(matching(1, 5), vec![5]);
    assert_eq!(matching(1, 6), Vec::<usize>::new());
    assert_eq!(matching(1, -7), vec![1, 2, 3, 4, 5]);
}

#[test]
fn nth_child_at_the_limits_of_the_numbers() {
    let page = page();
    let third = page.document.node(page.items[2]);
    assert!(!matches_generic_nth_child(&third, i32::MAX, i32::MAX, false, false));
    assert!(!matches_generic_nth_child(&third, i32::MIN, i32::MIN, false, false));
    assert!(!matches_generic_nth_child(&third, i32::MAX, i32::MIN, false, false));
    assert!(!matches_generic_nth_child(&third, i32::MIN, i32::MAX, false, false));
    assert!(!matches_generic_nth_child(&third, 0, i32::MIN, false, false));
    assert!(matches_generic_nth_child(&third, i32::MAX, 3, false, false));
    assert!(matches_generic_nth_child(&third, i32::MIN, 3, false, false));
    assert!(matches_generic_nth_child(&third, 1, i32::MIN, false, false));
    assert!(!matches_generic_nth_child(&third, -1, i32::MIN, false, false));
    // 3 = 2 * 1073741825 - 2147483647
    assert!(matches_generic_nth_child(&third, 2, -2147483647, false, false));
    assert!(!matches_generic_nth_child(&third, 2, -2147483648, false, false));
}

#[test]
fn nth_last_child_counts_from_the_end() {
    let page = page();
    let second = page.items[1];
    assert!(simple(&page, SimpleSelector::NthLastChild(0, 4), second));
    assert!(!simple(&page, SimpleSelector::NthLastChild(0, 2), second));
    assert!(simple(&page, SimpleSelector::NthLastChild(2, 0), second));
    assert!(simple(&page, SimpleSelector::NthLastChild(0, 1), page.items[4]));
    // The text behind ul does not count.
    assert!(simple(&page, SimpleSelector::NthLastChild(0, 1), page.ul));
    assert!(simple(&page, SimpleSelector::NthLastChild(0, 3), page.h1));
    assert!(simple(&page, SimpleSelector::NthChild(0, 2), page.p));
}

#[test]
fn of_type_counts_the_same_name_and_namespace() {
    let mut document = Document::new();
    let html = document.append(Some(0), element("html"));
    let first_p = document.append(Some(html), element("p"));
    let div = document.append(Some(html), element("div"));
    let svg_p = document.append(Some(html), element_in("p", SVG));
    let upper_p = document.append(Some(html), element("P"));
    let second_p = document.append(Some(html), element("p"));
    let is = |selector: SimpleSelector, node: usize| {
        matches_simple_selector(&selector, &document.node(node))
    };
    assert!(is(SimpleSelector::NthOfType(0, 1), first_p));
    assert!(is(SimpleSelector::NthOfType(0, 2), second_p));
    assert!(!is(SimpleSelector::NthOfType(0, 3), second_p));
    assert!(is(SimpleSelector::NthChild(0, 5), second_p));
    assert!(is(SimpleSelector::NthLastOfType(0, 2), first_p));
    assert!(is(SimpleSelector::NthLastOfType(0, 1), second_p));
    assert!(is(SimpleSelector::FirstOfType, first_p));
    assert!(!is(SimpleSelector::FirstOfType, second_p));
    assert!(is(SimpleSelector::LastOfType, second_p));
    assert!(!is(SimpleSelector::LastOfType, first_p));
    assert!(!is(SimpleSelector::OnlyOfType, first_p));
    assert!(is(SimpleSelector::OnlyOfType, div));
    // Another namespace or another case of the name is another type.
    assert!(is(SimpleSelector::OnlyOfType, svg_p));
    assert!(is(SimpleSelector::OnlyOfType, upper_p));
    assert!(is(SimpleSelector::FirstOfType, div));
    assert!(is(SimpleSelector::NthOfType(2, 1), first_p));
    assert!(!is(SimpleSelector::NthOfType(2, 1), second_p));
}

#[test]
fn negation_fails_where_all_of_the_list_match() {
    let page = page();
    let not = |list: Vec<SimpleSelector>| SimpleSelector::Negation(list);
    assert!(!simple(&page, not(vec![local_name("p")]), page.p));
    assert!(simple(&page, not(vec![local_name("p")]), page.h1));
    assert!(simple(
        &page,
        not(vec![local_name("p"), SimpleSelector::Class("outro".to_string())]),
        page.p
    ));
    assert!(!simple(
        &page,
        not(vec![local_name("p"), SimpleSelector::Class("intro".to_string())]),
        page.p
    ));
    // Every selector of an empty list matches.
    assert!(!simple(&page, not(Vec::new()), page.p));
    assert!(simple(&page, not(vec![not(vec![local_name("h1")])]), page.h1));
    assert!(!simple(&page, not(vec![not(vec![local_name("h1")])]), page.p));
}

#[test]
fn descendant_and_child() {
    let mut document = Document::new();
    let html = document.append(Some(0), element("html"));
    let div = document.append(Some(html), element("div"));
    let section = document.append(Some(div), element("section"));
    let p = document.append(Some(section), element("p"));
    let direct = document.append(Some(div), element("p"));
    let descendant =
        chain(vec![local_name("p")], Combinator::Descendant, compound(vec![local_name("div")]));
    let child = chain(vec![local_name("p")], Combinator::Child, compound(vec![local_name("div")]));
    assert!(matches_compound_selector(&descendant, &document.node(p)));
    assert!(!matches_compound_selector(&child, &document.node(p)));
    assert!(matches_compound_selector(&descendant, &document.node(direct)));
    assert!(matches_compound_selector(&child, &document.node(direct)));
    assert!(!matches_compound_selector(&descendant, &document.node(section)));
    assert!(!matches_compound_selector(&descendant, &document.node(div)));
}

#[test]
fn sibling_combinators() {
    let page = page();
    let after = |subject: &str, combinator: Combinator, earlier: &str| {
        chain(vec![local_name(subject)], combinator, compound(vec![local_name(earlier)]))
    };
    let node = |index: usize| page.document.node(index);
    // A text node stands between h1 and p: it is passed over.
    assert!(matches_compound_selector(&after("p", Combinator::NextSibling, "h1"), &node(page.p)));
    assert!(matches_compound_selector(&after("ul", Combinator::NextSibling, "p"), &node(page.ul)));
    assert!(!matches_compound_selector(&after("ul", Combinator::NextSibling, "h1"), &node(page.ul)));
    assert!(matches_compound_selector(&after("ul", Combinator::LaterSibling, "h1"), &node(page.ul)));
    assert!(matches_compound_selector(&after("ul", Combinator::LaterSibling, "p"), &node(page.ul)));
    assert!(!matches_compound_selector(&after("h1", Combinator::LaterSibling, "p"), &node(page.h1)));
    assert!(!matches_compound_selector(&after("h1", Combinator::NextSibling, "p"), &node(page.h1)));
    assert!(!matches_compound_selector(&after("p", Combinator::LaterSibling, "ul"), &node(page.p)));
}

#[test]
fn text_between_parent_and_child_link_is_no_obstacle() {
    // A node that is no element on the way is passed over and the next
    // element is the one that is asked.
    let mut document = Document::new();
    let html = document.append(Some(0), element("html"));
    let holder = document.append(Some(html), text("holder"));
    let p = document.append(Some(holder), element("p"));
    let child = chain(vec![local_name("p")], Combinator::Child, compound(vec![local_name("html")]));
    assert!(matches_compound_selector(&child, &document.node(p)));
    let other = chain(vec![local_name("p")], Combinator::Child, compound(vec![local_name("body")]));
    assert!(!matches_compound_selector(&other, &document.node(p)));
}

#[test]
fn long_chains_walk_on_from_where_they_matched() {
    let page = page();
    // html body > ul li
    let selector = chain(
        vec![local_name("li")],
        Combinator::Descendant,
        chain(
            vec![local_name("ul")],
            Combinator::Child,
            chain(vec![local_name("body")], Combinator::Descendant, compound(vec![local_name("html")])),
        ),
    );
    assert!(matches_compound_selector(&selector, &page.document.node(page.items[2])));
    assert!(!matches_compound_selector(&selector, &page.document.node(page.ul)));
    // h1 ~ ul > li:first-child
    let selector = chain(
        vec![local_name("li"), SimpleSelector::FirstChild],
        Combinator::Child,
        chain(vec![local_name("ul")], Combinator::LaterSibling, compound(vec![local_name("h1")])),
    );
    assert!(matches_compound_selector(&selector, &page.document.node(page.items[0])));
    assert!(!matches_compound_selector(&selector, &page.document.node(page.items[1])));
}

#[test]
fn descendant_search_goes_on_after_a_failed_ancestor() {
    // div > section p: the nearest section is no child of a div, a farther one is.
    let mut document = Document::new();
    let html = document.append(Some(0), element("html"));
    let div = document.append(Some(html), element("div"));
    let outer = document.append(Some(div), element("section"));
    let article = document.append(Some(outer), element("article"));
    let inner = document.append(Some(article), element("section"));
    let p = document.append(Some(inner), element("p"));
    let selector = chain(
        vec![local_name("p")],
        Combinator::Descendant,
        chain(vec![local_name("section")], Combinator::Child, compound(vec![local_name("div")])),
    );
    assert!(matches_compound_selector(&selector, &document.node(p)));
}

#[test]
fn every_simple_selector_of_a_compound_must_match() {
    let page = page();
    let both = compound(vec![local_name("p"), SimpleSelector::Class("intro".to_string())]);
    let wrong_class = compound(vec![local_name("p"), SimpleSelector::Class("outro".to_string())]);
    let wrong_name = compound(vec![local_name("h1"), SimpleSelector::Class("intro".to_string())]);
    let p = page.document.node(page.p);
    assert!(matches_compound_selector(&both, &p));
    assert!(!matches_compound_selector(&wrong_class, &p));
    assert!(!matches_compound_selector(&wrong_name, &p));
    assert!(matches_compound_selector(&compound(Vec::new()), &p));
}

#[test]
fn the_pseudo_element_must_be_the_one_asked_for() {
    let page = page();
    let p = page.document.node(page.p);
    let plain = Selector {
        compound_selectors: compound(vec![local_name("p")]),
        pseudo_element: None,
        specificity: 1,
    };
    let before = Selector {
        compound_selectors: compound(vec![local_name("p")]),
        pseudo_element: Some(PseudoElement::Before),
        specificity: 2,
    };
    assert!(matches_selector(&plain, &p, None));
    assert!(!matches_selector(&plain, &p, Some(PseudoElement::Before)));
    assert!(matches_selector(&before, &p, Some(PseudoElement::Before)));
    assert!(!matches_selector(&before, &p, Some(PseudoElement::After)));
    assert!(!matches_selector(&before, &p, None));
    assert!(!matches_selector(&plain, &page.document.node(page.h1), None));
}

#[test]
fn the_document_tree_is_walked_in_both_directions() {
    let page = page();
    let ul = page.document.node(page.ul);
    assert!(ul.is_element());
    assert!(!ul.is_document());
    assert_eq!(ul.local_name(), "ul");
    assert_eq!(ul.namespace_url(), XHTML);
    assert_eq!(ul.link(), None);
    let p = ul.prev_sibling().unwrap();
    assert_eq!(p.index, page.p);
    assert_eq!(p.attr(None, "class"), Some("intro"));
    let gap = p.prev_sibling().unwrap();
    assert!(!gap.is_element());
    assert_eq!(gap.prev_sibling().unwrap().index, page.h1);
    assert!(page.document.node(page.h1).prev_sibling().is_none());
    let tail = ul.next_sibling().unwrap();
    assert!(!tail.is_element());
    assert!(tail.next_sibling().is_none());
    let body = ul.parent_node().unwrap();
    assert_eq!(body.index, page.body);
    let html = body.parent_node().unwrap();
    assert_eq!(html.index, page.html);
    let root = html.parent_node().unwrap();
    assert!(root.is_document());
    assert!(root.parent_node().is_none());
    assert_eq!(page.document.node_count(), 13);
}
