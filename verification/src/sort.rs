//! The order in which matching rules are handed out: ascending by rank, and
//! rules of one rank in the order in which they were found.

use vstd::prelude::*;
use crate::rule::{Rank, Rule};

verus! {

/// The rules of the given rank.
pub open spec fn has_rank(rank: Rank) -> spec_fn(Rule) -> bool {
    |rule: Rule| rule.rank() == rank
}

/// Whether no rule of `rules` stands before an earlier one in the cascade.
pub open spec fn is_sorted(rules: Seq<Rule>) -> bool {
    forall|i: int, j: int| 0 <= i < j < rules.len() ==> !rules[j].precedes(rules[i])
}

/// Whether `sorted` is `rules` brought into ascending order of rank, with the
/// rules of each rank in the order that they have in `rules`.
pub open spec fn is_stable_sort_of(sorted: Seq<Rule>, rules: Seq<Rule>) -> bool {
    &&& is_sorted(sorted)
    &&& forall|rank: Rank| #[trigger]
        sorted.filter(has_rank(rank)) == rules.filter(has_rank(rank))
}

/// `rules` in ascending order of rank, the rules of each rank in the order
/// that they have in `rules`.
pub open spec fn stable_sort(rules: Seq<Rule>) -> Seq<Rule> {
    choose|sorted: Seq<Rule>| is_stable_sort_of(sorted, rules)
}

/// Where `rule` goes into the sorted sequence `sorted`: behind every rule that
/// does not stand after it in the cascade.
pub open spec fn insertion_point(sorted: Seq<Rule>, rule: Rule) -> int
    decreases sorted.len(),
{
    if sorted.len() > 0 && rule.precedes(sorted.last()) {
        insertion_point(sorted.drop_last(), rule)
    } else {
        sorted.len() as int
    }
}

/// The insertion point parts a sorted sequence into the rules that do not
/// stand after `rule` and those that do.
proof fn lemma_insertion_point(sorted: Seq<Rule>, rule: Rule)
    requires
        is_sorted(sorted),
    ensures
        0 <= insertion_point(sorted, rule) <= sorted.len(),
        forall|j: int|
            0 <= j < insertion_point(sorted, rule) ==> !rule.precedes(#[trigger] sorted[j]),
        forall|j: int|
            insertion_point(sorted, rule) <= j < sorted.len() ==> rule.precedes(
                #[trigger] sorted[j],
            ),
    decreases sorted.len(),
{
    if sorted.len() > 0 && rule.precedes(sorted.last()) {
        let front = sorted.drop_last();
        lemma_insertion_point(front, rule);
        assert forall|j: int| 0 <= j < insertion_point(sorted, rule) implies !rule.precedes(
            #[trigger] sorted[j],
        ) by {
            assert(sorted[j] == front[j]);
        }
        assert forall|j: int| insertion_point(sorted, rule) <= j < sorted.len() implies rule.precedes(
            #[trigger] sorted[j],
        ) by {
            if j < front.len() {
                assert(sorted[j] == front[j]);
            }
        }
    } else if sorted.len() > 0 {
        assert forall|j: int| 0 <= j < sorted.len() implies !rule.precedes(#[trigger] sorted[j]) by {
            if j < sorted.len() - 1 {
                assert(!sorted.last().precedes(sorted[j]));
            }
        }
    }
}

/// No rule of `rules` is kept by a filter that none of them meets.
proof fn lemma_filter_none(rules: Seq<Rule>, pred: spec_fn(Rule) -> bool)
    requires
        forall|i: int| 0 <= i < rules.len() ==> !pred(#[trigger] rules[i]),
    ensures
        rules.filter(pred) == Seq::<Rule>::empty(),
    decreases rules.len(),
{
    reveal(Seq::filter);
    if rules.len() > 0 {
        let front = rules.drop_last();
        assert forall|i: int| 0 <= i < front.len() implies !pred(#[trigger] front[i]) by {
            assert(front[i] == rules[i]);
        }
        lemma_filter_none(front, pred);
    }
}

/// A sorted sequence stays a stable sort when a new last rule of the input is
/// put in behind the rules that do not stand after it.
pub proof fn lemma_insert_keeps_stable_sort(sorted: Seq<Rule>, rules: Seq<Rule>, rule: Rule, at: int)
    requires
        is_stable_sort_of(sorted, rules),
        0 <= at <= sorted.len(),
        forall|j: int| 0 <= j < at ==> !rule.precedes(#[trigger] sorted[j]),
        forall|j: int| at <= j < sorted.len() ==> rule.precedes(#[trigger] sorted[j]),
    ensures
        is_stable_sort_of(sorted.insert(at, rule), rules.push(rule)),
{
    let grown = sorted.insert(at, rule);
    assert(is_sorted(grown)) by {
        assert forall|i: int, j: int| 0 <= i < j < grown.len() implies !grown[j].precedes(
            grown[i],
        ) by {
            if j < at {
                assert(grown[i] == sorted[i] && grown[j] == sorted[j]);
            } else if j == at {
                assert(grown[i] == sorted[i]);
            } else if i < at {
                assert(grown[i] == sorted[i] && grown[j] == sorted[j - 1]);
            } else if i == at {
                assert(grown[j] == sorted[j - 1]);
            } else {
                assert(grown[i] == sorted[i - 1] && grown[j] == sorted[j - 1]);
            }
        }
    }
    let front = sorted.take(at);
    let back = sorted.skip(at);
    assert(sorted == front + back);
    assert(grown == front.push(rule) + back);
    assert forall|rank: Rank| #[trigger]
        grown.filter(has_rank(rank)) == rules.push(rule).filter(has_rank(rank)) by {
        let pred = has_rank(rank);
        Seq::filter_distributes_over_add(front, back, pred);
        Seq::filter_distributes_over_add(front.push(rule), back, pred);
        front.lemma_filter_push(rule, pred);
        rules.lemma_filter_push(rule, pred);
        assert(sorted.filter(pred) == rules.filter(pred));
        if pred(rule) {
            assert forall|i: int| 0 <= i < back.len() implies !pred(#[trigger] back[i]) by {
                assert(back[i] == sorted[at + i]);
                assert(rule.precedes(sorted[at + i]));
            }
            lemma_filter_none(back, pred);
            assert(front.filter(pred) + back.filter(pred) == front.filter(pred));
            assert(front.filter(pred).push(rule) + back.filter(pred) == front.filter(pred).push(
                rule,
            ));
        }
    }
}

/// Every sequence of rules has a stable sort, and `stable_sort` is one.
pub proof fn lemma_stable_sort_exists(rules: Seq<Rule>)
    ensures
        is_stable_sort_of(stable_sort(rules), rules),
    decreases rules.len(),
{
    if rules.len() == 0 {
        assert(is_stable_sort_of(rules, rules));
    } else {
        let front = rules.drop_last();
        lemma_stable_sort_exists(front);
        let sorted = stable_sort(front);
        let at = insertion_point(sorted, rules.last());
        lemma_insertion_point(sorted, rules.last());
        lemma_insert_keeps_stable_sort(sorted, front, rules.last(), at);
        assert(front.push(rules.last()) == rules);
        assert(is_stable_sort_of(sorted.insert(at, rules.last()), rules));
    }
}

/// The rule that a non-empty filtered sequence ends with is found in the
/// sequence itself.
proof fn lemma_filter_last(rules: Seq<Rule>, pred: spec_fn(Rule) -> bool)
    requires
        rules.filter(pred).len() > 0,
    ensures
        exists|i: int| 0 <= i < rules.len() && pred(#[trigger] rules[i]),
    decreases rules.len(),
{
    reveal(Seq::filter);
    if rules.len() > 0 {
        if pred(rules.last()) {
            assert(pred(rules[rules.len() - 1]));
        } else {
            lemma_filter_last(rules.drop_last(), pred);
            let i = choose|i: int| 0 <= i < rules.drop_last().len() && pred(#[trigger] rules.drop_last()[i]);
            assert(rules[i] == rules.drop_last()[i]);
        }
    }
}

/// Two sorted sequences that hold, for each rank, the same rules in the same
/// order are one and the same.
pub proof fn lemma_sorted_by_ranks_unique(a: Seq<Rule>, b: Seq<Rule>)
    requires
        is_sorted(a),
        is_sorted(b),
        forall|rank: Rank| #[trigger] a.filter(has_rank(rank)) == b.filter(has_rank(rank)),
    ensures
        a == b,
    decreases a.len(),
{
    reveal(Seq::filter);
    if a.len() == 0 {
        if b.len() > 0 {
            let pred = has_rank(b[0].rank());
            assert(pred(b[0]));
            b.lemma_filter_contains(pred, 0);
            assert(a.filter(pred) == b.filter(pred));
        }
        assert(a =~= b);
    } else {
        let x = a.last();
        let in_x = has_rank(x.rank());
        assert(in_x(x));
        assert(a.filter(in_x) == a.drop_last().filter(in_x).push(x));
        assert(b.filter(in_x) == a.filter(in_x));
        lemma_filter_last(b, in_x);
        assert(b.len() > 0);
        let y = b.last();
        let in_y = has_rank(y.rank());
        assert(in_y(y));
        assert(b.filter(in_y) == b.drop_last().filter(in_y).push(y));
        assert(a.filter(in_y) == b.filter(in_y));
        lemma_filter_last(a, in_y);
        let i = choose|i: int| 0 <= i < b.len() && in_x(#[trigger] b[i]);
        let j = choose|j: int| 0 <= j < a.len() && in_y(#[trigger] a[j]);
        assert(!y.precedes(b[i]));
        assert(!x.precedes(a[j]));
        assert(x.rank() == y.rank());
        assert(in_x == in_y);
        assert(a.filter(in_x).last() == x);
        assert(b.filter(in_x).last() == y);
        assert(x == y);
        let a_front = a.drop_last();
        let b_front = b.drop_last();
        assert forall|rank: Rank| #[trigger]
            a_front.filter(has_rank(rank)) == b_front.filter(has_rank(rank)) by {
            let pred = has_rank(rank);
            assert(a.filter(pred) == b.filter(pred));
            if pred(x) {
                assert(a.filter(pred) == a_front.filter(pred).push(x));
                assert(b.filter(pred) == b_front.filter(pred).push(y));
                assert(a_front.filter(pred) == a.filter(pred).drop_last());
                assert(b_front.filter(pred) == b.filter(pred).drop_last());
            }
        }
        assert(is_sorted(a_front)) by {
            assert forall|i: int, j: int| 0 <= i < j < a_front.len() implies !a_front[j].precedes(
                a_front[i],
            ) by {
                assert(a_front[i] == a[i] && a_front[j] == a[j]);
            }
        }
        assert(is_sorted(b_front)) by {
            assert forall|i: int, j: int| 0 <= i < j < b_front.len() implies !b_front[j].precedes(
                b_front[i],
            ) by {
                assert(b_front[i] == b[i] && b_front[j] == b[j]);
            }
        }
        lemma_sorted_by_ranks_unique(a_front, b_front);
        assert(a == a_front.push(x));
        assert(b == b_front.push(y));
    }
}

/// A sequence of rules has one stable sort only.
pub proof fn lemma_stable_sort_unique(sorted: Seq<Rule>, rules: Seq<Rule>)
    requires
        is_stable_sort_of(sorted, rules),
    ensures
        sorted == stable_sort(rules),
{
    let other = stable_sort(rules);
    assert(is_stable_sort_of(other, rules));
    assert forall|rank: Rank| #[trigger]
        sorted.filter(has_rank(rank)) == other.filter(has_rank(rank)) by {
        assert(sorted.filter(has_rank(rank)) == rules.filter(has_rank(rank)));
        assert(other.filter(has_rank(rank)) == rules.filter(has_rank(rank)));
    }
    lemma_sorted_by_ranks_unique(sorted, other);
}

/// The stable sort of a sequence of rules is that of all but the last rule,
/// with the last rule put in behind the rules that do not stand after it.
pub proof fn lemma_stable_sort_step(rules: Seq<Rule>)
    requires
        rules.len() > 0,
    ensures
        stable_sort(rules) == stable_sort(rules.drop_last()).insert(
            insertion_point(stable_sort(rules.drop_last()), rules.last()),
            rules.last(),
        ),
{
    let front = rules.drop_last();
    let sorted = stable_sort(front);
    lemma_stable_sort_exists(front);
    lemma_insertion_point(sorted, rules.last());
    let at = insertion_point(sorted, rules.last());
    lemma_insert_keeps_stable_sort(sorted, front, rules.last(), at);
    assert(front.push(rules.last()) == rules);
    lemma_stable_sort_unique(sorted.insert(at, rules.last()), rules);
}

/// Nothing is sorted in a sequence without rules.
pub proof fn lemma_stable_sort_empty()
    ensures
        stable_sort(Seq::<Rule>::empty()) == Seq::<Rule>::empty(),
{
    assert(is_stable_sort_of(Seq::<Rule>::empty(), Seq::<Rule>::empty()));
    lemma_stable_sort_unique(Seq::<Rule>::empty(), Seq::<Rule>::empty());
}

/// Sorting neither adds a rule nor loses one: each rule is in the sorted
/// sequence as often as in the given one.
pub proof fn lemma_stable_sort_permutes(rules: Seq<Rule>)
    ensures
        stable_sort(rules).to_multiset() == rules.to_multiset(),
        stable_sort(rules).len() == rules.len(),
    decreases rules.len(),
{
    if rules.len() == 0 {
        lemma_stable_sort_empty();
        assert(rules == Seq::<Rule>::empty());
    } else {
        let front = rules.drop_last();
        let sorted = stable_sort(front);
        lemma_stable_sort_permutes(front);
        lemma_stable_sort_step(rules);
        lemma_stable_sort_exists(front);
        lemma_insertion_point(sorted, rules.last());
        let at = insertion_point(sorted, rules.last());
        vstd::seq_lib::to_multiset_insert(sorted, at, rules.last());
        vstd::seq_lib::to_multiset_build(front, rules.last());
        assert(front.push(rules.last()) == rules);
        assert(stable_sort(rules) == sorted.insert(at, rules.last()));
        assert(stable_sort(rules).to_multiset() == sorted.to_multiset().insert(rules.last()));
        assert(rules.to_multiset() == front.to_multiset().insert(rules.last()));
    }
}

/// The sorted sequence holds the rules of the given one and no others.
pub proof fn lemma_stable_sort_contains(rules: Seq<Rule>, rule: Rule)
    ensures
        stable_sort(rules).contains(rule) <==> rules.contains(rule),
{
    lemma_stable_sort_permutes(rules);
    vstd::seq_lib::to_multiset_contains(rules, rule);
    vstd::seq_lib::to_multiset_contains(stable_sort(rules), rule);
}

/// In the sorted sequence no rule stands before one of lower rank, and two
/// rules of one rank stand as they stood: the rules of any one rank are the
/// same sequence before and after.
pub proof fn lemma_stable_sort_orders(rules: Seq<Rule>)
    ensures
        forall|i: int, j: int|
            0 <= i < j < stable_sort(rules).len() ==> !stable_sort(rules)[j].precedes(
                stable_sort(rules)[i],
            ),
        forall|rank: Rank| #[trigger]
            stable_sort(rules).filter(has_rank(rank)) == rules.filter(has_rank(rank)),
{
    lemma_stable_sort_exists(rules);
}

/// Brings the rules from `start` on into the order of the cascade, each
/// rank in the order in which its rules stood, and leaves the rules before
/// `start` where they are.
pub fn sort_from(rules: &mut Vec<Rule>, start: usize)
    requires
        start <= old(rules).len(),
    ensures
        final(rules)@ == old(rules)@.take(start as int) + stable_sort(
            old(rules)@.skip(start as int),
        ),
{
    let ghost input = rules@;
    let mut i: usize = start;
    proof {
        assert(input.subrange(start as int, i as int) == Seq::<Rule>::empty());
        assert(is_stable_sort_of(Seq::<Rule>::empty(), Seq::<Rule>::empty()));
    }
    while i < rules.len()
        invariant
            start <= i <= rules.len(),
            rules.len() == input.len(),
            rules@.take(start as int) == input.take(start as int),
            rules@.skip(i as int) == input.skip(i as int),
            is_stable_sort_of(
                rules@.subrange(start as int, i as int),
                input.subrange(start as int, i as int),
            ),
        decreases rules.len() - i,
    {
        let ghost before = rules@;
        let ghost sorted = before.subrange(start as int, i as int);
        let rule = rules.remove(i);
        assert(rule == input[i as int]) by {
            assert(before.skip(i as int)[0] == input.skip(i as int)[0]);
        }
        let mut at: usize = i;
        while at > start && rule.lt(&rules[at - 1])
            invariant
                start <= at <= i,
                i <= rules.len(),
                rules@ == before.remove(i as int),
                forall|j: int| at <= j < i ==> rule.precedes(#[trigger] rules@[j]),
            decreases at,
        {
            at = at - 1;
        }
        proof {
            assert forall|j: int| 0 <= j < at - start implies !rule.precedes(
                #[trigger] sorted[j],
            ) by {
                assert(sorted[j] == rules@[start + j]);
                assert(sorted[at - start - 1] == rules@[at - 1]);
                assert(!sorted[at - start - 1].precedes(sorted[j]));
            }
            assert forall|j: int| at - start <= j < sorted.len() implies rule.precedes(
                #[trigger] sorted[j],
            ) by {
                assert(sorted[j] == rules@[start + j]);
            }
            lemma_insert_keeps_stable_sort(
                sorted,
                input.subrange(start as int, i as int),
                rule,
                at - start,
            );
            assert(input.subrange(start as int, i as int).push(rule) == input.subrange(
                start as int,
                i + 1,
            ));
        }
        rules.insert(at, rule);
        proof {
            assert(rules@.subrange(start as int, i + 1) == sorted.insert(at - start, rule));
            assert(rules@.take(start as int) == before.take(start as int));
            assert(rules@.skip(i + 1) == input.skip(i + 1)) by {
                let ahead = rules@.skip(i + 1);
                assert forall|j: int| 0 <= j < ahead.len() implies #[trigger] ahead[j]
                    == input.skip(i + 1)[j] by {
                    assert(before.skip(i as int)[j + 1] == input.skip(i as int)[j + 1]);
                }
            }
        }
        i = i + 1;
    }
    proof {
        assert(rules@.subrange(start as int, i as int) == rules@.skip(start as int));
        assert(input.subrange(start as int, i as int) == input.skip(start as int));
        lemma_stable_sort_unique(rules@.skip(start as int), input.skip(start as int));
        assert(rules@ == rules@.take(start as int) + rules@.skip(start as int));
    }
}

} // verus!
