//! The index of rules by what the subject element must have.
//!
//! A selector is matched from the right, so the rightmost compound says what
//! the element itself must carry. Each rule is filed under the first id of
//! that compound, else under its first class, else under its first local
//! name in lower case, else among the rules that any element may match. An
//! element is then held against the few rules filed under its own id, classes
//! and name, and against those last ones.

use vstd::prelude::*;
use vstd::hash_map::StringHashMap;
use crate::matching::{all_simple_match, matches_selector, selector_matches, simple_matches};
use crate::rule::Rule;
use crate::selectors::{PseudoElement, SimpleSelector};
use crate::sort::{lemma_stable_sort_contains, sort_from, stable_sort};
use crate::text::{ascii_lower, split_whitespace, to_ascii_lower, views_of, whitespace_tokens};
use crate::tree::TreeNode;

verus! {

/// Rules filed under strings.
pub type RuleBuckets = Map<Seq<char>, Seq<Rule>>;

/// The rules filed under `key`, in the order in which they came.
pub open spec fn bucket(buckets: RuleBuckets, key: Seq<char>) -> Seq<Rule> {
    if buckets.contains_key(key) {
        buckets[key]
    } else {
        Seq::empty()
    }
}

/// `buckets` with `rule` filed under `key`, behind the rules that are there.
pub open spec fn file_under(buckets: RuleBuckets, key: Seq<char>, rule: Rule) -> RuleBuckets {
    buckets.insert(key, bucket(buckets, key).push(rule))
}

/// The three kinds of keys under which rules are filed.
pub enum KeyKind {
    Id,
    Class,
    LocalName,
}

/// The key of the given kind that a simple selector asks for: its id, its
/// class, or its local name in lower case.
pub open spec fn key_of(kind: KeyKind, selector: SimpleSelector) -> Option<Seq<char>> {
    match (kind, selector) {
        (KeyKind::Id, SimpleSelector::ID(id)) => Some(id@),
        (KeyKind::Class, SimpleSelector::Class(class)) => Some(class@),
        (KeyKind::LocalName, SimpleSelector::LocalName(name)) => Some(ascii_lower(name@)),
        _ => None,
    }
}

/// The key of the first of `selectors` that asks for one of the given kind.
pub open spec fn first_key(kind: KeyKind, selectors: Seq<SimpleSelector>) -> Option<Seq<char>>
    decreases selectors.len(),
{
    if selectors.len() == 0 {
        None
    } else if key_of(kind, selectors[0]) is Some {
        key_of(kind, selectors[0])
    } else {
        first_key(kind, selectors.skip(1))
    }
}

/// The first id that the simple selectors ask for.
pub open spec fn first_id(selectors: Seq<SimpleSelector>) -> Option<Seq<char>> {
    first_key(KeyKind::Id, selectors)
}

/// The first class that the simple selectors ask for.
pub open spec fn first_class(selectors: Seq<SimpleSelector>) -> Option<Seq<char>> {
    first_key(KeyKind::Class, selectors)
}

/// The first local name that the simple selectors ask for, in lower case.
pub open spec fn first_local_name(selectors: Seq<SimpleSelector>) -> Option<Seq<char>> {
    first_key(KeyKind::LocalName, selectors)
}

/// `first_key` gives the key of the selector at the least position that asks
/// for one of the kind, and nothing where no selector does.
pub proof fn lemma_first_key(kind: KeyKind, selectors: Seq<SimpleSelector>)
    ensures
        match first_key(kind, selectors) {
            Some(key) => exists|i: int|
                0 <= i < selectors.len() && key_of(kind, #[trigger] selectors[i]) == Some(key)
                    && forall|j: int| 0 <= j < i ==> key_of(kind, #[trigger] selectors[j]) is None,
            None => forall|j: int|
                0 <= j < selectors.len() ==> key_of(kind, #[trigger] selectors[j]) is None,
        },
    decreases selectors.len(),
{
    if selectors.len() == 0 {
    } else if key_of(kind, selectors[0]) is Some {
        assert(key_of(kind, selectors[0]) == first_key(kind, selectors));
    } else {
        let rest = selectors.skip(1);
        lemma_first_key(kind, rest);
        match first_key(kind, rest) {
            Some(key) => {
                let i = choose|i: int|
                    0 <= i < rest.len() && key_of(kind, #[trigger] rest[i]) == Some(key)
                        && forall|j: int| 0 <= j < i ==> key_of(kind, #[trigger] rest[j]) is None;
                assert(selectors[i + 1] == rest[i]);
                assert forall|j: int| 0 <= j < i + 1 implies key_of(
                    kind,
                    #[trigger] selectors[j],
                ) is None by {
                    if j > 0 {
                        assert(selectors[j] == rest[j - 1]);
                    }
                }
            },
            None => {
                assert forall|j: int| 0 <= j < selectors.len() implies key_of(
                    kind,
                    #[trigger] selectors[j],
                ) is None by {
                    if j > 0 {
                        assert(selectors[j] == rest[j - 1]);
                    }
                }
            },
        }
    }
}

/// The simple selectors that the subject element of a rule must meet.
pub open spec fn subject_selectors(rule: Rule) -> Seq<SimpleSelector> {
    rule.selector.compound_selectors.simple_selectors@
}

/// The place where a rule is filed.
pub enum Bucket {
    Id(Seq<char>),
    Class(Seq<char>),
    Element(Seq<char>),
    Universal,
}

/// The place of `rule`: under its first id, else under its first class,
/// else under its first local name, else with the universal rules.
pub open spec fn bucket_of(rule: Rule) -> Bucket {
    let selectors = subject_selectors(rule);
    if let Some(id) = first_id(selectors) {
        Bucket::Id(id)
    } else if let Some(class) = first_class(selectors) {
        Bucket::Class(class)
    } else if let Some(name) = first_local_name(selectors) {
        Bucket::Element(name)
    } else {
        Bucket::Universal
    }
}

/// What a `SelectorMap` holds.
pub struct SelectorMapView {
    pub id_hash: RuleBuckets,
    pub class_hash: RuleBuckets,
    pub element_hash: RuleBuckets,
    pub universal_rules: Seq<Rule>,
}

/// The rules that `selects` keeps: those whose selector selects `e`, or the
/// given pseudo-element of it.
pub open spec fn selects<N: TreeNode>(e: N, pseudo_element: Option<PseudoElement>) -> spec_fn(
    Rule,
) -> bool {
    |rule: Rule| selector_matches(*rule.selector, e, pseudo_element)
}

/// The rules filed under each of `classes` in turn.
pub open spec fn rules_of_classes(class_hash: RuleBuckets, classes: Seq<Seq<char>>) -> Seq<Rule> {
    classes.map_values(|class: Seq<char>| bucket(class_hash, class)).flatten()
}

impl SelectorMapView {
    pub open spec fn empty() -> SelectorMapView {
        SelectorMapView {
            id_hash: Map::empty(),
            class_hash: Map::empty(),
            element_hash: Map::empty(),
            universal_rules: Seq::empty(),
        }
    }

    /// The map with `rule` filed in its place, behind the rules that are there.
    pub open spec fn insert(self, rule: Rule) -> SelectorMapView {
        match bucket_of(rule) {
            Bucket::Id(id) => SelectorMapView {
                id_hash: file_under(self.id_hash, id, rule),
                ..self
            },
            Bucket::Class(class) => SelectorMapView {
                class_hash: file_under(self.class_hash, class, rule),
                ..self
            },
            Bucket::Element(name) => SelectorMapView {
                element_hash: file_under(self.element_hash, name, rule),
                ..self
            },
            Bucket::Universal => SelectorMapView {
                universal_rules: self.universal_rules.push(rule),
                ..self
            },
        }
    }

    /// Whether `rule` is among the rules filed at `place`.
    pub open spec fn holds(self, place: Bucket, rule: Rule) -> bool {
        match place {
            Bucket::Id(id) => bucket(self.id_hash, id).contains(rule),
            Bucket::Class(class) => bucket(self.class_hash, class).contains(rule),
            Bucket::Element(name) => bucket(self.element_hash, name).contains(rule),
            Bucket::Universal => self.universal_rules.contains(rule),
        }
    }

    /// Whether each rule of the map is filed at its own place and nowhere else.
    pub open spec fn well_placed(self) -> bool {
        forall|place: Bucket, rule: Rule| #[trigger]
            self.holds(place, rule) ==> place == bucket_of(rule)
    }

    /// The map with each of `rules` filed in its place, one after the other.
    pub open spec fn insert_all(self, rules: Seq<Rule>) -> SelectorMapView
        decreases rules.len(),
    {
        if rules.len() == 0 {
            self
        } else {
            self.insert_all(rules.drop_last()).insert(rules.last())
        }
    }

    /// The rules filed under the id of `e`.
    pub open spec fn rules_for_id<N: TreeNode>(self, e: N) -> Seq<Rule> {
        match e.spec_attr(None, "id"@) {
            Some(id) => bucket(self.id_hash, id),
            None => Seq::empty(),
        }
    }

    /// The rules filed under the classes of `e`, class by class as the
    /// attribute names them.
    pub open spec fn rules_for_classes<N: TreeNode>(self, e: N) -> Seq<Rule> {
        match e.spec_attr(None, "class"@) {
            Some(classes) => rules_of_classes(self.class_hash, whitespace_tokens(classes)),
            None => Seq::empty(),
        }
    }

    /// The rules that the element `e` is held against: those filed under its
    /// id, under its classes, under its local name in lower case, and the
    /// universal ones, in this order.
    pub open spec fn candidates<N: TreeNode>(self, e: N) -> Seq<Rule> {
        self.rules_for_id(e) + self.rules_for_classes(e) + bucket(
            self.element_hash,
            ascii_lower(e.spec_local_name()),
        ) + self.universal_rules
    }

    /// The candidates whose selector selects `e`, in the order of the candidates.
    pub open spec fn matching_rules<N: TreeNode>(
        self,
        e: N,
        pseudo_element: Option<PseudoElement>,
    ) -> Seq<Rule> {
        self.candidates(e).filter(selects(e, pseudo_element))
    }
}

/// A sequence with one more rule holds what it held before, and that rule.
proof fn lemma_push_contains(rules: Seq<Rule>, last: Rule, rule: Rule)
    ensures
        rules.push(last).contains(rule) <==> rules.contains(rule) || rule == last,
{
    if rules.push(last).contains(rule) {
        let i = choose|i: int| 0 <= i < rules.push(last).len() && rules.push(last)[i] == rule;
        if i < rules.len() {
            assert(rules[i] == rule);
        }
    }
    if rules.contains(rule) {
        let i = choose|i: int| 0 <= i < rules.len() && rules[i] == rule;
        assert(rules.push(last)[i] == rule);
    }
    if rule == last {
        assert(rules.push(last)[rules.len() as int] == rule);
    }
}

/// Two sequences in a row hold what either of them holds.
proof fn lemma_add_contains(first: Seq<Rule>, rest: Seq<Rule>, rule: Rule)
    ensures
        (first + rest).contains(rule) <==> first.contains(rule) || rest.contains(rule),
{
    let both = first + rest;
    if both.contains(rule) {
        let i = choose|i: int| 0 <= i < both.len() && both[i] == rule;
        if i < first.len() {
            assert(first[i] == rule);
        } else {
            assert(rest[i - first.len()] == rule);
        }
    }
    if first.contains(rule) {
        let i = choose|i: int| 0 <= i < first.len() && first[i] == rule;
        assert(both[i] == rule);
    }
    if rest.contains(rule) {
        let i = choose|i: int| 0 <= i < rest.len() && rest[i] == rule;
        assert(both[first.len() + i] == rule);
    }
}

/// Sequences in a row hold what any one of them holds.
proof fn lemma_flatten_contains(parts: Seq<Seq<Rule>>, rule: Rule)
    ensures
        parts.flatten().contains(rule) <==> exists|i: int|
            0 <= i < parts.len() && (#[trigger] parts[i]).contains(rule),
    decreases parts.len(),
{
    if parts.len() == 0 {
        assert(parts.flatten() == Seq::<Rule>::empty());
        assert(!parts.flatten().contains(rule));
    } else {
        let front = parts.drop_last();
        lemma_flatten_contains(front, rule);
        front.lemma_flatten_push(parts.last());
        assert(front.push(parts.last()) == parts);
        lemma_add_contains(front.flatten(), parts.last(), rule);
        if parts.flatten().contains(rule) {
            if front.flatten().contains(rule) {
                let i = choose|i: int| 0 <= i < front.len() && (#[trigger] front[i]).contains(rule);
                assert(parts[i] == front[i]);
            } else {
                assert(parts[parts.len() - 1].contains(rule));
            }
        }
        if exists|i: int| 0 <= i < parts.len() && (#[trigger] parts[i]).contains(rule) {
            let i = choose|i: int| 0 <= i < parts.len() && (#[trigger] parts[i]).contains(rule);
            if i < front.len() {
                assert(front[i] == parts[i]);
            }
        }
    }
}

/// Filing a rule adds it to the bucket of its place and changes no other
/// bucket: afterwards a place holds what it held before, and the place of the
/// rule holds the rule too.
pub proof fn lemma_insert_holds(map: SelectorMapView, rule: Rule, place: Bucket, other: Rule)
    ensures
        map.insert(rule).holds(place, other) <==> map.holds(place, other) || (place == bucket_of(
            rule,
        ) && other == rule),
{
    match bucket_of(rule) {
        Bucket::Id(id) => {
            lemma_push_contains(bucket(map.id_hash, id), rule, other);
        },
        Bucket::Class(class) => {
            lemma_push_contains(bucket(map.class_hash, class), rule, other);
        },
        Bucket::Element(name) => {
            lemma_push_contains(bucket(map.element_hash, name), rule, other);
        },
        Bucket::Universal => {
            lemma_push_contains(map.universal_rules, rule, other);
        },
    }
}

/// An empty map holds no rule, so none in a wrong place.
pub proof fn lemma_empty_well_placed()
    ensures
        SelectorMapView::empty().well_placed(),
{
    let map = SelectorMapView::empty();
    assert forall|place: Bucket, rule: Rule| #[trigger] map.holds(place, rule) implies place
        == bucket_of(rule) by {
        assert(false);
    }
}

/// Each rule stays in its own place, and in that place alone, when a rule is filed.
pub proof fn lemma_insert_well_placed(map: SelectorMapView, rule: Rule)
    requires
        map.well_placed(),
    ensures
        map.insert(rule).well_placed(),
{
    let after = map.insert(rule);
    assert forall|place: Bucket, other: Rule| #[trigger] after.holds(place, other) implies place
        == bucket_of(other) by {
        lemma_insert_holds(map, rule, place, other);
        if map.holds(place, other) {
        }
    }
}

/// Each rule stays in its own place when rules are filed one after the other.
pub proof fn lemma_insert_all_well_placed(map: SelectorMapView, rules: Seq<Rule>)
    requires
        map.well_placed(),
    ensures
        map.insert_all(rules).well_placed(),
    decreases rules.len(),
{
    if rules.len() > 0 {
        lemma_insert_all_well_placed(map, rules.drop_last());
        lemma_insert_well_placed(map.insert_all(rules.drop_last()), rules.last());
    }
}

/// Filing rules one after the other is the same as filing a first part of
/// them and then the rest.
pub proof fn lemma_insert_all_add(map: SelectorMapView, first: Seq<Rule>, rest: Seq<Rule>)
    ensures
        map.insert_all(first + rest) == map.insert_all(first).insert_all(rest),
    decreases rest.len(),
{
    if rest.len() == 0 {
        assert(first + rest == first);
    } else {
        lemma_insert_all_add(map, first, rest.drop_last());
        assert((first + rest).drop_last() == first + rest.drop_last());
    }
}

/// The index loses no rule: a rule that stands in its place in the map and
/// whose subject compound the element `e` meets is among the candidates for `e`.
pub proof fn lemma_candidates_complete<N: TreeNode>(
    map: SelectorMapView,
    place: Bucket,
    rule: Rule,
    e: N,
)
    requires
        map.well_placed(),
        map.holds(place, rule),
        all_simple_match(subject_selectors(rule), e),
    ensures
        map.candidates(e).contains(rule),
{
    let selectors = subject_selectors(rule);
    let by_id = map.rules_for_id(e);
    let by_class = map.rules_for_classes(e);
    let by_name = bucket(map.element_hash, ascii_lower(e.spec_local_name()));
    assert(place == bucket_of(rule));
    lemma_first_key(KeyKind::Id, selectors);
    lemma_first_key(KeyKind::Class, selectors);
    lemma_first_key(KeyKind::LocalName, selectors);
    match place {
        Bucket::Id(id) => {
            let i = choose|i: int|
                0 <= i < selectors.len() && key_of(KeyKind::Id, #[trigger] selectors[i]) == Some(
                    id,
                );
            assert(simple_matches(selectors[i], e));
            assert(by_id == bucket(map.id_hash, id));
        },
        Bucket::Class(class) => {
            let i = choose|i: int|
                0 <= i < selectors.len() && key_of(KeyKind::Class, #[trigger] selectors[i])
                    == Some(class);
            assert(simple_matches(selectors[i], e));
            let tokens = whitespace_tokens(e.spec_attr(None, "class"@).unwrap());
            let j = choose|j: int| 0 <= j < tokens.len() && tokens[j] == class;
            let parts = tokens.map_values(|token: Seq<char>| bucket(map.class_hash, token));
            assert(parts[j] == bucket(map.class_hash, class));
            lemma_flatten_contains(parts, rule);
            assert(by_class == parts.flatten());
        },
        Bucket::Element(name) => {
            let i = choose|i: int|
                0 <= i < selectors.len() && key_of(KeyKind::LocalName, #[trigger] selectors[i])
                    == Some(name);
            assert(simple_matches(selectors[i], e));
            assert(by_name == bucket(map.element_hash, name));
        },
        Bucket::Universal => {},
    }
    lemma_add_contains(by_id, by_class, rule);
    lemma_add_contains(by_id + by_class, by_name, rule);
    lemma_add_contains(by_id + by_class + by_name, map.universal_rules, rule);
}

/// Each candidate for an element is a rule of the map.
pub proof fn lemma_candidates_sound<N: TreeNode>(map: SelectorMapView, rule: Rule, e: N)
    requires
        map.candidates(e).contains(rule),
    ensures
        exists|place: Bucket| map.holds(place, rule),
{
    let by_id = map.rules_for_id(e);
    let by_class = map.rules_for_classes(e);
    let name = ascii_lower(e.spec_local_name());
    let by_name = bucket(map.element_hash, name);
    lemma_add_contains(by_id, by_class, rule);
    lemma_add_contains(by_id + by_class, by_name, rule);
    lemma_add_contains(by_id + by_class + by_name, map.universal_rules, rule);
    if by_id.contains(rule) {
        assert(map.holds(Bucket::Id(e.spec_attr(None, "id"@).unwrap()), rule));
    } else if by_class.contains(rule) {
        let tokens = whitespace_tokens(e.spec_attr(None, "class"@).unwrap());
        let parts = tokens.map_values(|token: Seq<char>| bucket(map.class_hash, token));
        lemma_flatten_contains(parts, rule);
        let j = choose|j: int| 0 <= j < parts.len() && (#[trigger] parts[j]).contains(rule);
        assert(map.holds(Bucket::Class(tokens[j]), rule));
    } else if by_name.contains(rule) {
        assert(map.holds(Bucket::Element(name), rule));
    } else {
        assert(map.holds(Bucket::Universal, rule));
    }
}

/// What `get_all_matching_rules` hands out for an element are the rules of
/// the map that select it: none of them is left out, and nothing else comes.
pub proof fn lemma_matching_rules_are_those_that_select<N: TreeNode>(
    map: SelectorMapView,
    rule: Rule,
    e: N,
    pseudo_element: Option<PseudoElement>,
)
    requires
        map.well_placed(),
    ensures
        stable_sort(map.matching_rules(e, pseudo_element)).contains(rule) <==> selector_matches(
            *rule.selector,
            e,
            pseudo_element,
        ) && exists|place: Bucket| map.holds(place, rule),
{
    let keep = selects(e, pseudo_element);
    let candidates = map.candidates(e);
    let found = map.matching_rules(e, pseudo_element);
    lemma_stable_sort_contains(found, rule);
    if found.contains(rule) {
        candidates.lemma_filter_contains_rev(keep, rule);
        let i = choose|i: int| 0 <= i < found.len() && found[i] == rule;
        candidates.lemma_filter_pred(keep, i);
        lemma_candidates_sound(map, rule, e);
    }
    if keep(rule) && exists|place: Bucket| map.holds(place, rule) {
        let place = choose|place: Bucket| map.holds(place, rule);
        lemma_candidates_complete(map, place, rule, e);
        let i = choose|i: int| 0 <= i < candidates.len() && candidates[i] == rule;
        candidates.lemma_filter_contains(keep, i);
    }
}

/// Buckets of rules under string keys.
pub struct RuleHash {
    /// Where in `buckets` the rules of a key are.
    slots: StringHashMap<usize>,
    buckets: Vec<Vec<Rule>>,
}

impl View for RuleHash {
    type V = RuleBuckets;

    closed spec fn view(&self) -> RuleBuckets {
        Map::new(
            |key: Seq<char>| self.slots@.contains_key(key),
            |key: Seq<char>| self.buckets@[self.slots@[key] as int]@,
        )
    }
}

impl RuleHash {
    /// Each key has a bucket of its own.
    pub closed spec fn wf(&self) -> bool {
        &&& forall|key: Seq<char>| #[trigger]
            self.slots@.contains_key(key) ==> self.slots@[key] < self.buckets@.len()
        &&& forall|a: Seq<char>, b: Seq<char>|
            self.slots@.contains_key(a) && self.slots@.contains_key(b) && a != b
                ==> #[trigger] self.slots@[a] != #[trigger] self.slots@[b]
    }

    pub fn new() -> (hash: RuleHash)
        ensures
            hash.wf(),
            hash@ == RuleBuckets::empty(),
    {
        let hash = RuleHash { slots: StringHashMap::new(), buckets: Vec::new() };
        assert(hash@ =~= RuleBuckets::empty());
        hash
    }

    /// The rules filed under `key`, if there are any.
    pub fn find(&self, key: &str) -> (rules: Option<&Vec<Rule>>)
        requires
            self.wf(),
        ensures
            match rules {
                Some(found) => self@.contains_key(key@) && found@ == self@[key@],
                None => !self@.contains_key(key@),
            },
    {
        match self.slots.get(key) {
            Some(slot) => Some(&self.buckets[*slot]),
            None => None,
        }
    }

    /// Files `rule` under `key`, behind the rules that are there.
    pub fn push(&mut self, key: String, rule: Rule)
        requires
            old(self).wf(),
        ensures
            final(self).wf(),
            final(self)@ == file_under(old(self)@, key@, rule),
    {
        let found = match self.slots.get(key.as_str()) {
            Some(slot) => Some(*slot),
            None => None,
        };
        match found {
            Some(slot) => {
                self.buckets[slot].push(rule);
            },
            None => {
                let slot = self.buckets.len();
                let mut fresh: Vec<Rule> = Vec::new();
                fresh.push(rule);
                self.buckets.push(fresh);
                self.slots.insert(key, slot);
            },
        }
        assert(self@ =~= file_under(old(self)@, key@, rule));
    }
}

/// The characters of an optional string.
pub open spec fn name_view(name: Option<String>) -> Option<Seq<char>> {
    match name {
        Some(text) => Some(text@),
        None => None,
    }
}

/// Rules filed by the id, class or local name that their subject must have.
pub struct SelectorMap {
    id_hash: RuleHash,
    class_hash: RuleHash,
    element_hash: RuleHash,
    /// The rules whose subject need have none of these.
    universal_rules: Vec<Rule>,
}

impl View for SelectorMap {
    type V = SelectorMapView;

    closed spec fn view(&self) -> SelectorMapView {
        SelectorMapView {
            id_hash: self.id_hash@,
            class_hash: self.class_hash@,
            element_hash: self.element_hash@,
            universal_rules: self.universal_rules@,
        }
    }
}

impl SelectorMap {
    /// The three hashes are sound, and each rule is filed at its own place.
    pub closed spec fn wf(&self) -> bool {
        self.id_hash.wf() && self.class_hash.wf() && self.element_hash.wf()
            && self@.well_placed()
    }

    /// In a map each rule is filed at its own place, and nowhere else.
    pub proof fn lemma_well_placed(&self)
        requires
            self.wf(),
        ensures
            self@.well_placed(),
    {
    }

    pub fn new() -> (map: SelectorMap)
        ensures
            map.wf(),
            map@ == SelectorMapView::empty(),
    {
        proof {
            lemma_empty_well_placed();
        }
        SelectorMap {
            id_hash: RuleHash::new(),
            class_hash: RuleHash::new(),
            element_hash: RuleHash::new(),
            universal_rules: Vec::new(),
        }
    }

    /// The rules filed under the id `id`, if there are any.
    pub fn id_rules(&self, id: &str) -> (rules: Option<&Vec<Rule>>)
        requires
            self.wf(),
        ensures
            match rules {
                Some(found) => self@.id_hash.contains_key(id@) && found@ == self@.id_hash[id@],
                None => !self@.id_hash.contains_key(id@),
            },
    {
        self.id_hash.find(id)
    }

    /// The rules filed under the class `class`, if there are any.
    pub fn class_rules(&self, class: &str) -> (rules: Option<&Vec<Rule>>)
        requires
            self.wf(),
        ensures
            match rules {
                Some(found) => self@.class_hash.contains_key(class@) && found@
                    == self@.class_hash[class@],
                None => !self@.class_hash.contains_key(class@),
            },
    {
        self.class_hash.find(class)
    }

    /// The rules filed under the local name `name`, if there are any.
    pub fn element_rules(&self, name: &str) -> (rules: Option<&Vec<Rule>>)
        requires
            self.wf(),
        ensures
            match rules {
                Some(found) => self@.element_hash.contains_key(name@) && found@
                    == self@.element_hash[name@],
                None => !self@.element_hash.contains_key(name@),
            },
    {
        self.element_hash.find(name)
    }

    /// The rules filed under no id, class or local name.
    pub fn universal_rules(&self) -> (rules: &Vec<Rule>)
        ensures
            rules@ == self@.universal_rules,
    {
        &self.universal_rules
    }

    /// Adds to `matching_rules_list` the rules of the map that select
    /// `node`, or the given pseudo-element of it, in the order of the cascade.
    ///
    /// The rules are looked for under the id of the node, under each of its
    /// classes, under its local name and among the universal rules. What was
    /// found is then sorted by rank; what the list held before stays as it is.
    pub fn get_all_matching_rules<N: TreeNode>(
        &self,
        node: &N,
        pseudo_element: Option<PseudoElement>,
        matching_rules_list: &mut Vec<Rule>,
    )
        requires
            self.wf(),
            node.wf(),
            node.spec_is_element(),
        ensures
            final(matching_rules_list)@ == old(matching_rules_list)@ + stable_sort(
                self@.matching_rules(*node, pseudo_element),
            ),
    {
        let ghost before = matching_rules_list@;
        let ghost keep = selects(*node, pseudo_element);
        // The rules that are added are sorted at the end: remember where they begin.
        let init_len = matching_rules_list.len();
        match node.attr(None, "id") {
            Some(id) => {
                SelectorMap::get_matching_rules_from_hash(
                    node,
                    pseudo_element,
                    &self.id_hash,
                    id,
                    matching_rules_list,
                );
            },
            None => {
                assert(before + self@.rules_for_id(*node).filter(keep) == before) by {
                    reveal(Seq::filter);
                }
            },
        }
        assert(matching_rules_list@ == before + self@.rules_for_id(*node).filter(keep));
        let ghost with_id = matching_rules_list@;
        match node.attr(None, "class") {
            Some(class_attr) => {
                let classes = split_whitespace(class_attr);
                let ghost tokens = whitespace_tokens(class_attr@);
                let mut i: usize = 0;
                proof {
                    assert(tokens.take(0) == Seq::<Seq<char>>::empty());
                    assert(rules_of_classes(self@.class_hash, tokens.take(0)) == Seq::<
                        Rule,
                    >::empty()) by {
                        assert(tokens.take(0).map_values(
                            |class: Seq<char>| bucket(self@.class_hash, class),
                        ) == Seq::<Seq<Rule>>::empty());
                    }
                    assert(Seq::<Rule>::empty().filter(keep) == Seq::<Rule>::empty()) by {
                        reveal(Seq::filter);
                    }
                    assert(with_id + Seq::<Rule>::empty() == with_id);
                }
                while i < classes.len()
                    invariant
                        i <= classes.len(),
                        self.wf(),
                        node.wf(),
                        node.spec_is_element(),
                        keep == selects(*node, pseudo_element),
                        views_of(classes@) == tokens,
                        matching_rules_list@ == with_id + rules_of_classes(
                            self@.class_hash,
                            tokens.take(i as int),
                        ).filter(keep),
                    decreases classes.len() - i,
                {
                    let ghost sofar = matching_rules_list@;
                    SelectorMap::get_matching_rules_from_hash(
                        node,
                        pseudo_element,
                        &self.class_hash,
                        classes[i].as_str(),
                        matching_rules_list,
                    );
                    proof {
                        let by_class = |class: Seq<char>| bucket(self@.class_hash, class);
                        let token = tokens[i as int];
                        assert(token == classes@[i as int]@);
                        assert(tokens.take(i + 1) == tokens.take(i as int).push(token));
                        assert(tokens.take(i + 1).map_values(by_class) == tokens.take(
                            i as int,
                        ).map_values(by_class).push(by_class(token)));
                        tokens.take(i as int).map_values(by_class).lemma_flatten_push(
                            by_class(token),
                        );
                        Seq::filter_distributes_over_add(
                            rules_of_classes(self@.class_hash, tokens.take(i as int)),
                            by_class(token),
                            keep,
                        );
                        assert(matching_rules_list@ == with_id + (rules_of_classes(
                            self@.class_hash,
                            tokens.take(i as int),
                        ).filter(keep) + by_class(token).filter(keep)));
                    }
                    i = i + 1;
                }
                assert(tokens.take(i as int) == tokens);
            },
            None => {
                assert(with_id + self@.rules_for_classes(*node).filter(keep) == with_id) by {
                    reveal(Seq::filter);
                }
            },
        }
        assert(matching_rules_list@ == with_id + self@.rules_for_classes(*node).filter(keep));
        let ghost with_classes = matching_rules_list@;
        // Elements of HTML documents are matched without regard to case.
        let name = to_ascii_lower(node.local_name());
        SelectorMap::get_matching_rules_from_hash(
            node,
            pseudo_element,
            &self.element_hash,
            name.as_str(),
            matching_rules_list,
        );
        let ghost with_name = matching_rules_list@;
        SelectorMap::get_matching_rules(
            node,
            pseudo_element,
            &self.universal_rules,
            matching_rules_list,
        );
        proof {
            let by_id = self@.rules_for_id(*node);
            let by_class = self@.rules_for_classes(*node);
            let by_name = bucket(self@.element_hash, ascii_lower(node.spec_local_name()));
            let universal = self@.universal_rules;
            Seq::filter_distributes_over_add(by_id, by_class, keep);
            Seq::filter_distributes_over_add(by_id + by_class, by_name, keep);
            Seq::filter_distributes_over_add(by_id + by_class + by_name, universal, keep);
            let found = self@.matching_rules(*node, pseudo_element);
            assert(found == by_id.filter(keep) + by_class.filter(keep) + by_name.filter(keep)
                + universal.filter(keep));
            assert(matching_rules_list@ == before + found);
            assert(matching_rules_list@.take(init_len as int) == before);
            assert(matching_rules_list@.skip(init_len as int) == found);
        }
        // Only the rules that were added are sorted.
        sort_from(matching_rules_list, init_len);
    }

    /// Adds to `matching_rules` the rules filed under `key` that select `node`.
    fn get_matching_rules_from_hash<N: TreeNode>(
        node: &N,
        pseudo_element: Option<PseudoElement>,
        hash: &RuleHash,
        key: &str,
        matching_rules: &mut Vec<Rule>,
    )
        requires
            hash.wf(),
            node.wf(),
            node.spec_is_element(),
        ensures
            final(matching_rules)@ == old(matching_rules)@ + bucket(hash@, key@).filter(
                selects(*node, pseudo_element),
            ),
    {
        match hash.find(key) {
            Some(rules) => {
                SelectorMap::get_matching_rules(node, pseudo_element, rules, matching_rules)
            },
            None => {
                assert(matching_rules@ + bucket(hash@, key@).filter(
                    selects(*node, pseudo_element),
                ) == matching_rules@) by {
                    reveal(Seq::filter);
                }
            },
        }
    }

    /// Adds to `matching_rules` the rules of `rules` that select `node`, in
    /// the order in which they stand.
    pub fn get_matching_rules<N: TreeNode>(
        node: &N,
        pseudo_element: Option<PseudoElement>,
        rules: &Vec<Rule>,
        matching_rules: &mut Vec<Rule>,
    )
        requires
            node.wf(),
            node.spec_is_element(),
        ensures
            final(matching_rules)@ == old(matching_rules)@ + rules@.filter(
                selects(*node, pseudo_element),
            ),
    {
        let ghost before = matching_rules@;
        let ghost keep = selects(*node, pseudo_element);
        let mut i: usize = 0;
        proof {
            assert(rules@.take(0) == Seq::<Rule>::empty());
            assert(before + rules@.take(0).filter(keep) == before) by {
                reveal(Seq::filter);
            }
        }
        while i < rules.len()
            invariant
                i <= rules.len(),
                node.wf(),
                node.spec_is_element(),
                keep == selects(*node, pseudo_element),
                matching_rules@ == before + rules@.take(i as int).filter(keep),
            decreases rules.len() - i,
        {
            let rule = &rules[i];
            proof {
                assert(rules@.take(i + 1) == rules@.take(i as int).push(*rule));
                rules@.take(i as int).lemma_filter_push(*rule, keep);
            }
            if matches_selector(&rule.selector, node, pseudo_element) {
                matching_rules.push(rule.clone());
            }
            i = i + 1;
        }
        assert(rules@.take(i as int) == rules@);
    }

    /// Files `rule` in its place: under the first id that its subject must
    /// have, else under the first class, else under the first local name,
    /// else with the universal rules.
    pub fn insert(&mut self, rule: Rule)
        requires
            old(self).wf(),
        ensures
            final(self).wf(),
            final(self)@ == old(self)@.insert(rule),
    {
        proof {
            lemma_insert_well_placed(self@, rule);
        }
        match SelectorMap::get_id_name(&rule) {
            Some(id_name) => {
                self.id_hash.push(id_name, rule);
                return ;
            },
            None => {},
        }
        match SelectorMap::get_class_name(&rule) {
            Some(class_name) => {
                self.class_hash.push(class_name, rule);
                return ;
            },
            None => {},
        }
        match SelectorMap::get_element_name(&rule) {
            Some(element_name) => {
                self.element_hash.push(element_name, rule);
                return ;
            },
            None => {},
        }
        self.universal_rules.push(rule);
    }

    /// The first id that the subject of `rule` must have.
    pub fn get_id_name(rule: &Rule) -> (name: Option<String>)
        ensures
            name_view(name) == first_id(subject_selectors(*rule)),
    {
        let simple_selector_sequence = &rule.selector.compound_selectors.simple_selectors;
        let mut i: usize = 0;
        assert(simple_selector_sequence@.skip(0) == simple_selector_sequence@);
        while i < simple_selector_sequence.len()
            invariant
                i <= simple_selector_sequence.len(),
                simple_selector_sequence@ == subject_selectors(*rule),
                first_id(subject_selectors(*rule)) == first_id(
                    simple_selector_sequence@.skip(i as int),
                ),
            decreases simple_selector_sequence.len() - i,
        {
            assert(simple_selector_sequence@.skip(i as int).skip(1)
                == simple_selector_sequence@.skip(i + 1));
            match &simple_selector_sequence[i] {
                SimpleSelector::ID(id) => {
                    return Some(id.clone());
                },
                _ => {},
            }
            i = i + 1;
        }
        None
    }

    /// The first class that the subject of `rule` must have.
    pub fn get_class_name(rule: &Rule) -> (name: Option<String>)
        ensures
            name_view(name) == first_class(subject_selectors(*rule)),
    {
        let simple_selector_sequence = &rule.selector.compound_selectors.simple_selectors;
        let mut i: usize = 0;
        assert(simple_selector_sequence@.skip(0) == simple_selector_sequence@);
        while i < simple_selector_sequence.len()
            invariant
                i <= simple_selector_sequence.len(),
                simple_selector_sequence@ == subject_selectors(*rule),
                first_class(subject_selectors(*rule)) == first_class(
                    simple_selector_sequence@.skip(i as int),
                ),
            decreases simple_selector_sequence.len() - i,
        {
            assert(simple_selector_sequence@.skip(i as int).skip(1)
                == simple_selector_sequence@.skip(i + 1));
            match &simple_selector_sequence[i] {
                SimpleSelector::Class(class) => {
                    return Some(class.clone());
                },
                _ => {},
            }
            i = i + 1;
        }
        None
    }

    /// The first local name that the subject of `rule` must have, in lower
    /// case: elements of HTML documents are matched without regard to case.
    pub fn get_element_name(rule: &Rule) -> (name: Option<String>)
        ensures
            name_view(name) == first_local_name(subject_selectors(*rule)),
    {
        let simple_selector_sequence = &rule.selector.compound_selectors.simple_selectors;
        let mut i: usize = 0;
        assert(simple_selector_sequence@.skip(0) == simple_selector_sequence@);
        while i < simple_selector_sequence.len()
            invariant
                i <= simple_selector_sequence.len(),
                simple_selector_sequence@ == subject_selectors(*rule),
                first_local_name(subject_selectors(*rule)) == first_local_name(
                    simple_selector_sequence@.skip(i as int),
                ),
            decreases simple_selector_sequence.len() - i,
        {
            assert(simple_selector_sequence@.skip(i as int).skip(1)
                == simple_selector_sequence@.skip(i + 1));
            match &simple_selector_sequence[i] {
                SimpleSelector::LocalName(name) => {
                    return Some(to_ascii_lower(name.as_str()));
                },
                _ => {},
            }
            i = i + 1;
        }
        None
    }
}

} // verus!
