//! Matching of selectors against the elements of a document tree.
//!
//! A selector is matched from right to left: the subject element is held
//! against the head of the compound chain, and each further compound against
//! an ancestor or an earlier sibling, as the combinator says. Nodes that are
//! not elements are passed over on the way.

use vstd::prelude::*;
use vstd::arithmetic::div_mod::{lemma_fundamental_div_mod, lemma_mod_multiples_basic};
use crate::selectors::{
    AttrSelector, Combinator, CompoundSelector, PseudoElement, Selector, SimpleSelector,
};
use crate::text::{
    contains, ends_with, eq_ignore_ascii_case, eq_ignoring_ascii_case, has_token,
    is_substring_of, starts_with, str_eq, whitespace_tokens,
};
use crate::tree::TreeNode;

verus! {

/// Whether a URL counts as visited. No URL does.
pub open spec fn is_visited(url: Seq<char>) -> bool {
    false
}

/// The value of the attribute that `attr` names, on the element `e`.
pub open spec fn attribute_of<N: TreeNode>(e: N, attr: AttrSelector) -> Option<Seq<char>> {
    e.spec_attr(
        match attr.namespace {
            Some(namespace) => Some(namespace@),
            None => None,
        },
        attr.name@,
    )
}

/// Whether `e` has a parent and that parent is not the document node.
pub open spec fn has_parent_below_document<N: TreeNode>(e: N) -> bool {
    e.ancestors().len() > 0 && !e.ancestors()[0].spec_is_document()
}

/// Whether no node of `line` is an element.
pub open spec fn no_element_in<N: TreeNode>(line: Seq<N>) -> bool {
    forall|i: int| 0 <= i < line.len() ==> !(#[trigger] line[i]).spec_is_element()
}

/// Whether `line[i]` is the first element of `line`.
pub open spec fn is_nearest_element<N: TreeNode>(line: Seq<N>, i: int) -> bool {
    &&& 0 <= i < line.len()
    &&& line[i].spec_is_element()
    &&& no_element_in(line.take(i))
}

/// The siblings that count towards the position of `e`: the elements, or,
/// with `of_type`, the elements with the local name and namespace of `e`.
pub open spec fn counted_sibling<N: TreeNode>(e: N, of_type: bool) -> spec_fn(N) -> bool {
    |n: N|
        n.spec_is_element() && (of_type ==> n.spec_local_name() == e.spec_local_name()
            && n.spec_namespace_url() == e.spec_namespace_url())
}

/// The position of `e` among its siblings, counted from 1: from the first
/// sibling on, or with `from_end` from the last one back.
pub open spec fn sibling_index<N: TreeNode>(e: N, of_type: bool, from_end: bool) -> nat {
    let line = if from_end {
        e.following_siblings()
    } else {
        e.preceding_siblings()
    };
    1 + line.filter(counted_sibling(e, of_type)).len()
}

/// The `n`-th term of the progression `a * n + b`.
pub open spec fn progression_term(a: int, b: int, n: nat) -> int {
    a * n + b
}

/// Whether `index` is `a * n + b` for some `n` from 0 on.
pub open spec fn in_progression(a: int, b: int, index: int) -> bool {
    exists|n: nat| #[trigger] progression_term(a, b, n) == index
}

/// The `:nth-child` family: the element has a parent below the document, and
/// its position among its siblings is a term of the progression.
pub open spec fn nth_child_matches<N: TreeNode>(
    e: N,
    a: int,
    b: int,
    of_type: bool,
    from_end: bool,
) -> bool {
    has_parent_below_document(e) && in_progression(a, b, sibling_index(e, of_type, from_end) as int)
}

/// Whether the element `e` meets a simple selector.
pub open spec fn simple_matches<N: TreeNode>(s: SimpleSelector, e: N) -> bool
    decreases s,
{
    match s {
        SimpleSelector::LocalName(name) => eq_ignoring_ascii_case(e.spec_local_name(), name@),
        SimpleSelector::Namespace(url) => e.spec_namespace_url() == url@,
        SimpleSelector::ID(id) => e.spec_attr(None, "id"@) == Some(id@),
        SimpleSelector::Class(class) => match e.spec_attr(None, "class"@) {
            Some(value) => whitespace_tokens(value).contains(class@),
            None => false,
        },
        SimpleSelector::AttrExists(attr) => attribute_of(e, attr) is Some,
        SimpleSelector::AttrEqual(attr, wanted) => attribute_of(e, attr) == Some(wanted@),
        SimpleSelector::AttrIncludes(attr, wanted) => match attribute_of(e, attr) {
            Some(value) => whitespace_tokens(value).contains(wanted@),
            None => false,
        },
        SimpleSelector::AttrDashMatch(attr, wanted, dashed) => match attribute_of(e, attr) {
            Some(value) => value == wanted@ || dashed@.is_prefix_of(value),
            None => false,
        },
        SimpleSelector::AttrPrefixMatch(attr, wanted) => match attribute_of(e, attr) {
            Some(value) => wanted@.is_prefix_of(value),
            None => false,
        },
        SimpleSelector::AttrSubstringMatch(attr, wanted) => match attribute_of(e, attr) {
            Some(value) => is_substring_of(wanted@, value),
            None => false,
        },
        SimpleSelector::AttrSuffixMatch(attr, wanted) => match attribute_of(e, attr) {
            Some(value) => wanted@.is_suffix_of(value),
            None => false,
        },
        SimpleSelector::AnyLink => e.spec_link() is Some,
        SimpleSelector::Link => match e.spec_link() {
            Some(url) => !is_visited(url),
            None => false,
        },
        SimpleSelector::Visited => match e.spec_link() {
            Some(url) => is_visited(url),
            None => false,
        },
        SimpleSelector::FirstChild => no_element_in(e.preceding_siblings())
            && has_parent_below_document(e),
        SimpleSelector::LastChild => no_element_in(e.following_siblings())
            && has_parent_below_document(e),
        SimpleSelector::OnlyChild => no_element_in(e.preceding_siblings()) && no_element_in(
            e.following_siblings(),
        ) && has_parent_below_document(e),
        SimpleSelector::Root => e.ancestors().len() > 0 && e.ancestors()[0].spec_is_document(),
        SimpleSelector::NthChild(a, b) => nth_child_matches(e, a as int, b as int, false, false),
        SimpleSelector::NthLastChild(a, b) => nth_child_matches(
            e,
            a as int,
            b as int,
            false,
            true,
        ),
        SimpleSelector::NthOfType(a, b) => nth_child_matches(e, a as int, b as int, true, false),
        SimpleSelector::NthLastOfType(a, b) => nth_child_matches(
            e,
            a as int,
            b as int,
            true,
            true,
        ),
        SimpleSelector::FirstOfType => nth_child_matches(e, 0, 1, true, false),
        SimpleSelector::LastOfType => nth_child_matches(e, 0, 1, true, true),
        SimpleSelector::OnlyOfType => nth_child_matches(e, 0, 1, true, false)
            && nth_child_matches(e, 0, 1, true, true),
        SimpleSelector::Negation(negated) => !all_simple_match(negated@, e),
    }
}

/// Whether the element `e` meets every simple selector of `list`.
pub open spec fn all_simple_match<N: TreeNode>(list: Seq<SimpleSelector>, e: N) -> bool
    decreases list,
{
    forall|i: int| 0 <= i < list.len() ==> simple_matches(#[trigger] list[i], e)
}

/// The nodes among which a combinator looks for the element of the next
/// compound: the ancestors, or the earlier siblings.
pub open spec fn line_of<N: TreeNode>(e: N, combinator: Combinator) -> Seq<N> {
    match combinator {
        Combinator::Child | Combinator::Descendant => e.ancestors(),
        Combinator::NextSibling | Combinator::LaterSibling => e.preceding_siblings(),
    }
}

/// Whether the element `e` meets the compound selector `c`, and the nodes
/// around it meet the compounds that follow `c`.
///
/// `Child` and `NextSibling` ask the nearest element of the line, `Descendant`
/// and `LaterSibling` any element of it.
pub open spec fn compound_matches<N: TreeNode>(c: CompoundSelector, e: N) -> bool
    decreases c,
{
    &&& all_simple_match(c.simple_selectors@, e)
    &&& match c.next {
        None => true,
        Some((next, combinator)) => {
            let line = line_of(e, combinator);
            match combinator {
                Combinator::Child | Combinator::NextSibling => exists|i: int|
                    is_nearest_element(line, i) && compound_matches(*next, #[trigger] line[i]),
                Combinator::Descendant | Combinator::LaterSibling => exists|i: int|
                    0 <= i < line.len() && (#[trigger] line[i]).spec_is_element()
                        && compound_matches(*next, line[i]),
            }
        },
    }
}

/// Whether `selector` selects the element `e`, or the given pseudo-element of it.
pub open spec fn selector_matches<N: TreeNode>(
    selector: Selector,
    e: N,
    pseudo_element: Option<PseudoElement>,
) -> bool {
    selector.pseudo_element == pseudo_element && compound_matches(selector.compound_selectors, e)
}

/// A local name selects the same elements whatever the case of its ASCII
/// letters: two names that differ in nothing else match the same elements.
pub proof fn lemma_local_name_ignores_case<N: TreeNode>(a: String, b: String, e: N)
    requires
        eq_ignoring_ascii_case(a@, b@),
    ensures
        simple_matches(SimpleSelector::LocalName(a), e) == simple_matches(
            SimpleSelector::LocalName(b),
            e,
        ),
{
}

/// The position of an element among its siblings is 1 where none of them is
/// counted, so `:first-of-type` and `:last-of-type` ask that no sibling of
/// the type stands before, or after, the element.
pub proof fn lemma_first_of_type<N: TreeNode>(e: N, from_end: bool)
    ensures
        nth_child_matches(e, 0, 1, true, from_end) <==> has_parent_below_document(e)
            && sibling_index(e, true, from_end) == 1,
{
    lemma_in_progression(0, 1, sibling_index(e, true, from_end) as int);
}

/// What `matches_generic_nth_child` computes on the difference between the
/// position and `b`, in place of a search for `n`.
pub proof fn lemma_in_progression(a: int, b: int, index: int)
    ensures
        in_progression(a, b, index) <==> {
            let d = index - b;
            if a == 0 {
                d == 0
            } else if d == 0 {
                true
            } else if a > 0 {
                d > 0 && d % a == 0
            } else {
                d < 0 && (-d) % (-a) == 0
            }
        },
{
    let d = index - b;
    if in_progression(a, b, index) {
        let n = choose|n: nat| #[trigger] progression_term(a, b, n) == index;
        assert(d == a * n);
        if a > 0 && d != 0 {
            assert(d > 0) by (nonlinear_arith)
                requires
                    d == a * n,
                    a > 0,
                    d != 0,
                    n >= 0,
            ;
            assert(d == n * a) by (nonlinear_arith)
                requires
                    d == a * n,
            ;
            lemma_mod_multiples_basic(n as int, a);
        } else if a < 0 && d != 0 {
            assert(d < 0) by (nonlinear_arith)
                requires
                    d == a * n,
                    a < 0,
                    d != 0,
                    n >= 0,
            ;
            assert(-d == n * (-a)) by (nonlinear_arith)
                requires
                    d == a * n,
            ;
            lemma_mod_multiples_basic(n as int, -a);
        } else if a == 0 {
            assert(d == 0) by (nonlinear_arith)
                requires
                    d == a * n,
                    a == 0,
            ;
        }
    } else {
        if a == 0 {
            if d == 0 {
                assert(progression_term(a, b, 0) == index);
            }
        } else if d == 0 {
            assert(progression_term(a, b, 0) == index) by (nonlinear_arith)
                requires
                    index - b == 0,
            ;
        } else if a > 0 {
            if d > 0 && d % a == 0 {
                lemma_fundamental_div_mod(d, a);
                let n = d / a;
                assert(n >= 0) by (nonlinear_arith)
                    requires
                        d == a * n,
                        a > 0,
                        d > 0,
                ;
                assert(progression_term(a, b, n as nat) == index);
            }
        } else {
            if d < 0 && (-d) % (-a) == 0 {
                lemma_fundamental_div_mod(-d, -a);
                let n = (-d) / (-a);
                assert(n >= 0) by (nonlinear_arith)
                    requires
                        -d == (-a) * n,
                        a < 0,
                        d < 0,
                ;
                assert(a * n == d) by (nonlinear_arith)
                    requires
                        -d == (-a) * n,
                ;
                assert(progression_term(a, b, n as nat) == index);
            }
        }
    }
}

/// The quotient of `x` by `y`, rounded towards zero.
pub open spec fn truncated_quotient(x: int, y: int) -> int
    recommends
        y != 0,
{
    if x >= 0 && y > 0 {
        x / y
    } else if x >= 0 {
        -(x / (-y))
    } else if y > 0 {
        -((-x) / y)
    } else {
        (-x) / (-y)
    }
}

/// What is left of `x` beside the truncated quotient; it has the sign of `x`.
pub open spec fn truncated_remainder(x: int, y: int) -> int
    recommends
        y != 0,
{
    x - y * truncated_quotient(x, y)
}

/// With a step other than 0, a position is a term of the progression where
/// the division of its distance from `b` by the step, rounded towards zero,
/// leaves nothing and gives no negative quotient.
pub proof fn lemma_in_progression_by_division(a: int, b: int, index: int)
    requires
        a != 0,
    ensures
        in_progression(a, b, index) <==> truncated_quotient(index - b, a) >= 0
            && truncated_remainder(index - b, a) == 0,
{
    let d = index - b;
    let q = truncated_quotient(d, a);
    let r = truncated_remainder(d, a);
    lemma_in_progression(a, b, index);
    if d == 0 {
        assert(q == 0 && r == 0) by (nonlinear_arith)
            requires
                d == 0,
                a != 0,
                q == truncated_quotient(d, a),
                r == d - a * q,
        ;
    } else if a > 0 && d > 0 {
        lemma_fundamental_div_mod(d, a);
        assert(d / a >= 0) by (nonlinear_arith)
            requires
                d > 0,
                a > 0,
        ;
    } else if a > 0 {
        let m = (-d) / a;
        lemma_fundamental_div_mod(-d, a);
        assert(m >= 0) by (nonlinear_arith)
            requires
                -d > 0,
                a > 0,
                m == (-d) / a,
        ;
        assert(q == -m);
        assert(r == d + a * m) by (nonlinear_arith)
            requires
                r == d - a * q,
                q == -m,
        ;
    } else if d < 0 {
        let m = (-d) / (-a);
        lemma_fundamental_div_mod(-d, -a);
        assert(m >= 0) by (nonlinear_arith)
            requires
                -d > 0,
                -a > 0,
                m == (-d) / (-a),
        ;
        assert(q == m);
        assert(r == -((-d) - (-a) * m)) by (nonlinear_arith)
            requires
                r == d - a * q,
                q == m,
        ;
    } else {
        let m = d / (-a);
        lemma_fundamental_div_mod(d, -a);
        assert(m >= 0) by (nonlinear_arith)
            requires
                d > 0,
                -a > 0,
                m == d / (-a),
        ;
        assert(q == -m);
        assert(r == d - (-a) * m) by (nonlinear_arith)
            requires
                r == d - a * q,
                q == -m,
        ;
    }
}

/// Tells whether the URL of a link has been visited. No history is kept, so
/// none has.
pub fn url_is_visited(url: &str) -> (visited: bool)
    ensures
        visited == is_visited(url@),
{
    false
}

/// Tells whether the parent of `element` is the document node.
pub fn matches_root<N: TreeNode>(element: &N) -> (r: bool)
    requires
        element.wf(),
    ensures
        r == (element.ancestors().len() > 0 && element.ancestors()[0].spec_is_document()),
{
    match element.parent_node() {
        Some(parent) => parent.is_document(),
        None => false,
    }
}

/// Tells whether `element` has a parent other than the document node.
fn is_below_document<N: TreeNode>(element: &N) -> (r: bool)
    requires
        element.wf(),
    ensures
        r == has_parent_below_document(*element),
{
    match element.parent_node() {
        Some(parent) => !parent.is_document(),
        None => false,
    }
}

/// Tells whether no element stands before `element` among the children of
/// its parent, and that parent is not the document node.
pub fn matches_first_child<N: TreeNode>(element: &N) -> (r: bool)
    requires
        element.wf(),
    ensures
        r == (no_element_in(element.preceding_siblings()) && has_parent_below_document(*element)),
{
    let ghost line = element.preceding_siblings();
    let ghost mut k: int = 0;
    let mut step = element.prev_sibling();
    loop
        invariant
            element.wf(),
            line == element.preceding_siblings(),
            0 <= k <= line.len(),
            no_element_in(line.take(k)),
            match step {
                None => k == line.len(),
                Some(n) => k < line.len() && n == line[k] && n.wf() && n.preceding_siblings()
                    == line.skip(k + 1),
            },
        decreases line.len() - k,
    {
        match step {
            Some(sibling) => {
                if sibling.is_element() {
                    return false;
                }
                step = sibling.prev_sibling();
                proof {
                    if step is Some {
                        assert(line.skip(k + 1).skip(1) == line.skip(k + 2));
                    }
                    assert forall|i: int| 0 <= i < k + 1 implies !(#[trigger] line.take(k + 1)[i]).spec_is_element() by {
                        if i < k {
                            assert(line.take(k)[i] == line.take(k + 1)[i]);
                        }
                    }
                    k = k + 1;
                }
            },
            None => {
                assert(line.take(k) == line);
                return is_below_document(element);
            },
        }
    }
}

/// Tells whether no element stands after `element` among the children of
/// its parent, and that parent is not the document node.
pub fn matches_last_child<N: TreeNode>(element: &N) -> (r: bool)
    requires
        element.wf(),
    ensures
        r == (no_element_in(element.following_siblings()) && has_parent_below_document(*element)),
{
    let ghost line = element.following_siblings();
    let ghost mut k: int = 0;
    let mut step = element.next_sibling();
    loop
        invariant
            element.wf(),
            line == element.following_siblings(),
            0 <= k <= line.len(),
            no_element_in(line.take(k)),
            match step {
                None => k == line.len(),
                Some(n) => k < line.len() && n == line[k] && n.wf() && n.following_siblings()
                    == line.skip(k + 1),
            },
        decreases line.len() - k,
    {
        match step {
            Some(sibling) => {
                if sibling.is_element() {
                    return false;
                }
                step = sibling.next_sibling();
                proof {
                    if step is Some {
                        assert(line.skip(k + 1).skip(1) == line.skip(k + 2));
                    }
                    assert forall|i: int| 0 <= i < k + 1 implies !(#[trigger] line.take(k + 1)[i]).spec_is_element() by {
                        if i < k {
                            assert(line.take(k)[i] == line.take(k + 1)[i]);
                        }
                    }
                    k = k + 1;
                }
            },
            None => {
                assert(line.take(k) == line);
                return is_below_document(element);
            },
        }
    }
}

/// The `:nth-child` family of selectors on `element`: `a` and `b` are the
/// two numbers of `an+b`, `is_of_type` counts only siblings of the type of
/// `element`, and `is_from_end` counts from the last sibling back.
pub fn matches_generic_nth_child<N: TreeNode>(
    element: &N,
    a: i32,
    b: i32,
    is_of_type: bool,
    is_from_end: bool,
) -> (r: bool)
    requires
        element.wf(),
        element.spec_is_element(),
    ensures
        r == nth_child_matches(*element, a as int, b as int, is_of_type, is_from_end),
{
    if !is_below_document(element) {
        return false;
    }
    let ghost line = if is_from_end {
        element.following_siblings()
    } else {
        element.preceding_siblings()
    };
    let ghost counted = counted_sibling(*element, is_of_type);
    proof {
        element.lemma_siblings_fit();
    }
    let mut index: usize = 1;
    let ghost mut k: int = 0;
    let mut step = if is_from_end {
        element.next_sibling()
    } else {
        element.prev_sibling()
    };
    loop
        invariant
            element.wf(),
            element.spec_is_element(),
            has_parent_below_document(*element),
            line == (if is_from_end {
                element.following_siblings()
            } else {
                element.preceding_siblings()
            }),
            line.len() < usize::MAX,
            counted == counted_sibling(*element, is_of_type),
            0 <= k <= line.len(),
            index == 1 + line.take(k).filter(counted).len(),
            match step {
                None => k == line.len(),
                Some(n) => k < line.len() && n == line[k] && n.wf() && (if is_from_end {
                    n.following_siblings()
                } else {
                    n.preceding_siblings()
                }) == line.skip(k + 1),
            },
        decreases line.len() - k,
    {
        match step {
            Some(node) => {
                let mut counts = false;
                if node.is_element() {
                    if is_of_type {
                        counts = str_eq(element.local_name(), node.local_name()) && str_eq(
                            element.namespace_url(),
                            node.namespace_url(),
                        );
                    } else {
                        counts = true;
                    }
                }
                proof {
                    assert(counts == counted(node));
                    assert(line.take(k + 1) == line.take(k).push(line[k]));
                    line.take(k).lemma_filter_push(line[k], counted);
                    line.take(k + 1).lemma_filter_len(counted);
                }
                if counts {
                    index = index + 1;
                }
                step = if is_from_end {
                    node.next_sibling()
                } else {
                    node.prev_sibling()
                };
                proof {
                    if step is Some {
                        assert(line.skip(k + 1).skip(1) == line.skip(k + 2));
                    }
                    k = k + 1;
                }
            },
            None => {
                proof {
                    assert(line.take(k) == line);
                    lemma_in_progression(a as int, b as int, index as int);
                }
                let d: i128 = index as i128 - b as i128;
                let step_width: i128 = a as i128;
                if step_width == 0 {
                    return d == 0;
                } else if d == 0 {
                    return true;
                } else if step_width > 0 {
                    return d > 0 && d % step_width == 0;
                } else {
                    return d < 0 && (-d) % (-step_width) == 0;
                }
            },
        }
    }
}

/// Looks up the attribute that `attr` names on `element` and hands its value
/// to `f`. The answer is that of `f`, and `false` where the element has no
/// such attribute.
pub fn match_attribute<N: TreeNode, F: Fn(&str) -> bool>(
    attr: &AttrSelector,
    element: &N,
    f: F,
) -> (r: bool)
    requires
        element.wf(),
        element.spec_is_element(),
        forall|value: &str| f.requires((value,)),
    ensures
        match attribute_of(*element, *attr) {
            None => !r,
            Some(found) => exists|value: &str| value@ == found && f.ensures((value,), r),
        },
{
    let namespace = match &attr.namespace {
        Some(namespace) => Some(namespace.as_str()),
        None => None,
    };
    match element.attr(namespace, attr.name.as_str()) {
        None => false,
        Some(value) => f(value),
    }
}

/// Tells whether `element` meets the simple selector.
pub fn matches_simple_selector<N: TreeNode>(selector: &SimpleSelector, element: &N) -> (r: bool)
    requires
        element.wf(),
        element.spec_is_element(),
    ensures
        r == simple_matches(*selector, *element),
    decreases selector,
{
    match selector {
        SimpleSelector::LocalName(name) => eq_ignore_ascii_case(
            element.local_name(),
            name.as_str(),
        ),
        SimpleSelector::Namespace(url) => str_eq(element.namespace_url(), url.as_str()),
        SimpleSelector::ID(id) => match element.attr(None, "id") {
            Some(value) => str_eq(value, id.as_str()),
            None => false,
        },
        SimpleSelector::Class(class) => match element.attr(None, "class") {
            None => false,
            Some(value) => has_token(value, class.as_str()),
        },
        SimpleSelector::AttrExists(attr) => match_attribute(
            attr,
            element,
            |value: &str| -> (b: bool)
                ensures
                    b
                { true },
        ),
        SimpleSelector::AttrEqual(attr, wanted) => match_attribute(
            attr,
            element,
            |value: &str| -> (b: bool)
                ensures
                    b == (value@ == wanted@)
                { str_eq(value, wanted.as_str()) },
        ),
        SimpleSelector::AttrIncludes(attr, wanted) => match_attribute(
            attr,
            element,
            |value: &str| -> (b: bool)
                ensures
                    b == whitespace_tokens(value@).contains(wanted@)
                { has_token(value, wanted.as_str()) },
        ),
        SimpleSelector::AttrDashMatch(attr, wanted, dashed) => match_attribute(
            attr,
            element,
            |value: &str| -> (b: bool)
                ensures
                    b == (value@ == wanted@ || dashed@.is_prefix_of(value@))
                { str_eq(value, wanted.as_str()) || starts_with(value, dashed.as_str()) },
        ),
        SimpleSelector::AttrPrefixMatch(attr, wanted) => match_attribute(
            attr,
            element,
            |value: &str| -> (b: bool)
                ensures
                    b == wanted@.is_prefix_of(value@)
                { starts_with(value, wanted.as_str()) },
        ),
        SimpleSelector::AttrSubstringMatch(attr, wanted) => match_attribute(
            attr,
            element,
            |value: &str| -> (b: bool)
                ensures
                    b == is_substring_of(wanted@, value@)
                { contains(value, wanted.as_str()) },
        ),
        SimpleSelector::AttrSuffixMatch(attr, wanted) => match_attribute(
            attr,
            element,
            |value: &str| -> (b: bool)
                ensures
                    b == wanted@.is_suffix_of(value@)
                { ends_with(value, wanted.as_str()) },
        ),
        SimpleSelector::AnyLink => element.link().is_some(),
        SimpleSelector::Link => match element.link() {
            Some(url) => !url_is_visited(url),
            None => false,
        },
        SimpleSelector::Visited => match element.link() {
            Some(url) => url_is_visited(url),
            None => false,
        },
        SimpleSelector::FirstChild => matches_first_child(element),
        SimpleSelector::LastChild => matches_last_child(element),
        SimpleSelector::OnlyChild => matches_first_child(element) && matches_last_child(element),
        SimpleSelector::Root => matches_root(element),
        SimpleSelector::NthChild(a, b) => matches_generic_nth_child(element, *a, *b, false, false),
        SimpleSelector::NthLastChild(a, b) => matches_generic_nth_child(
            element,
            *a,
            *b,
            false,
            true,
        ),
        SimpleSelector::NthOfType(a, b) => matches_generic_nth_child(element, *a, *b, true, false),
        SimpleSelector::NthLastOfType(a, b) => matches_generic_nth_child(
            element,
            *a,
            *b,
            true,
            true,
        ),
        SimpleSelector::FirstOfType => matches_generic_nth_child(element, 0, 1, true, false),
        SimpleSelector::LastOfType => matches_generic_nth_child(element, 0, 1, true, true),
        SimpleSelector::OnlyOfType => matches_generic_nth_child(element, 0, 1, true, false)
            && matches_generic_nth_child(element, 0, 1, true, true),
        SimpleSelector::Negation(negated) => !matches_all_simple_selectors(negated, element),
    }
}

/// Tells whether `element` meets every simple selector of the list.
fn matches_all_simple_selectors<N: TreeNode>(selectors: &Vec<SimpleSelector>, element: &N) -> (r:
    bool)
    requires
        element.wf(),
        element.spec_is_element(),
    ensures
        r == all_simple_match(selectors@, *element),
    decreases selectors,
{
    let mut i: usize = 0;
    while i < selectors.len()
        invariant
            element.wf(),
            element.spec_is_element(),
            i <= selectors.len(),
            forall|j: int| 0 <= j < i ==> simple_matches(#[trigger] selectors@[j], *element),
        decreases selectors.len() - i,
    {
        if !matches_simple_selector(&selectors[i], element) {
            return false;
        }
        i = i + 1;
    }
    true
}

/// Tells whether `element` meets the compound selector and the nodes around
/// it meet the compounds that follow.
pub fn matches_compound_selector<N: TreeNode>(selector: &CompoundSelector, element: &N) -> (r:
    bool)
    requires
        element.wf(),
        element.spec_is_element(),
    ensures
        r == compound_matches(*selector, *element),
    decreases selector,
{
    if !matches_all_simple_selectors(&selector.simple_selectors, element) {
        return false;
    }
    match &selector.next {
        None => true,
        Some((next_selector, combinator)) => {
            let (siblings, just_one) = match combinator {
                Combinator::Child => (false, true),
                Combinator::Descendant => (false, false),
                Combinator::NextSibling => (true, true),
                Combinator::LaterSibling => (true, false),
            };
            let next: &CompoundSelector = next_selector;
            let ghost line = line_of(*element, *combinator);
            let ghost mut k: int = 0;
            let mut step = if siblings {
                element.prev_sibling()
            } else {
                element.parent_node()
            };
            loop
                invariant
                    decreases_to!(selector => next),
                    0 <= k <= line.len(),
                    forall|j: int|
                        0 <= j < k && (#[trigger] line[j]).spec_is_element() ==> !just_one
                            && !compound_matches(*next, line[j]),
                    match step {
                        None => k == line.len(),
                        Some(n) => k < line.len() && n == line[k] && n.wf() && (if siblings {
                            n.preceding_siblings()
                        } else {
                            n.ancestors()
                        }) == line.skip(k + 1),
                    },
                    line == line_of(*element, *combinator),
                    selector.next matches Some((following, c)) && *following == *next && c
                        == *combinator,
                    siblings == (*combinator == Combinator::NextSibling || *combinator
                        == Combinator::LaterSibling),
                    just_one == (*combinator == Combinator::Child || *combinator
                        == Combinator::NextSibling),
                    all_simple_match(selector.simple_selectors@, *element),
                decreases selector, line.len() - k,
            {
                match step {
                    None => {
                        return false;
                    },
                    Some(node) => {
                        if node.is_element() {
                            if matches_compound_selector(next, &node) {
                                proof {
                                    if just_one {
                                        assert(is_nearest_element(line, k));
                                    }
                                }
                                return true;
                            } else if just_one {
                                proof {
                                    assert(is_nearest_element(line, k));
                                    assert forall|i: int| is_nearest_element(line, i) implies i == k by {
                                        if i < k {
                                            assert(line[i].spec_is_element());
                                        } else if i > k {
                                            assert(line.take(i)[k] == line[k]);
                                        }
                                    }
                                }
                                return false;
                            }
                        }
                        step = if siblings {
                            node.prev_sibling()
                        } else {
                            node.parent_node()
                        };
                        proof {
                            if step is Some {
                                assert(line.skip(k + 1).skip(1) == line.skip(k + 2));
                            }
                            k = k + 1;
                        }
                    },
                }
            }
        },
    }
}

/// Tells whether `selector` selects `element`, or the given pseudo-element of it.
pub fn matches_selector<N: TreeNode>(
    selector: &Selector,
    element: &N,
    pseudo_element: Option<PseudoElement>,
) -> (r: bool)
    requires
        element.wf(),
        element.spec_is_element(),
    ensures
        r == selector_matches(*selector, *element, pseudo_element),
{
    selector.pseudo_element == pseudo_element && matches_compound_selector(
        &selector.compound_selectors,
        element,
    )
}

} // verus!
