//! String predicates of the selector grammar, stated over sequences of
//! characters and computed on `&str`.

use vstd::prelude::*;
use vstd::std_specs::iter::IteratorSpec;

verus! {

/// `String::push` appends the character to the end of the string.
pub assume_specification[ String::push ](s: &mut String, c: char)
    ensures
        final(s)@ == old(s)@.push(c),
;

/// Whitespace as the selector grammar defines it: space, tab, line feed,
/// carriage return and form feed.
pub open spec fn is_selector_whitespace(c: char) -> bool {
    c == ' ' || c == '\t' || c == '\n' || c == '\r' || c == '\x0C'
}

/// The ASCII lower-case form of a character; only `A` to `Z` change.
pub open spec fn ascii_lower_char(c: char) -> char {
    if 'A' <= c && c <= 'Z' {
        ((c as u8) + 32) as char
    } else {
        c
    }
}

/// The string with each character in its ASCII lower-case form.
pub open spec fn ascii_lower(s: Seq<char>) -> Seq<char> {
    Seq::new(s.len(), |i: int| ascii_lower_char(s[i]))
}

/// Equality of two strings up to the case of their ASCII letters.
pub open spec fn eq_ignoring_ascii_case(a: Seq<char>, b: Seq<char>) -> bool {
    ascii_lower(a) == ascii_lower(b)
}

/// Whether `needle` occurs in `hay` as a run of consecutive characters.
pub open spec fn is_substring_of(needle: Seq<char>, hay: Seq<char>) -> bool {
    exists|i: int|
        0 <= i && i + needle.len() <= hay.len() && #[trigger] hay.subrange(i, i + needle.len())
            == needle
}

/// The position of the first whitespace character of `s`, or the length of
/// `s` where it has none.
pub open spec fn first_whitespace(s: Seq<char>) -> int
    decreases s.len(),
{
    if s.len() == 0 || is_selector_whitespace(s[0]) {
        0
    } else {
        1 + first_whitespace(s.skip(1))
    }
}

/// The pieces that the whitespace characters of `s` separate, in order. Two
/// neighbouring whitespace characters enclose an empty piece, and so do a
/// whitespace character and an end of the string: `s` without whitespace is
/// its own single piece.
pub open spec fn whitespace_tokens(s: Seq<char>) -> Seq<Seq<char>>
    decreases s.len(),
{
    let k = first_whitespace(s);
    if 0 <= k < s.len() {
        seq![s.take(k)] + whitespace_tokens(s.skip(k + 1))
    } else {
        seq![s]
    }
}

/// `first_whitespace` gives a position within `s` or its end; no whitespace
/// stands before it, and where it is a position, whitespace stands there.
pub proof fn lemma_first_whitespace(s: Seq<char>)
    ensures
        0 <= first_whitespace(s) <= s.len(),
        first_whitespace(s) < s.len() ==> is_selector_whitespace(s[first_whitespace(s)]),
        forall|j: int| 0 <= j < first_whitespace(s) ==> !is_selector_whitespace(#[trigger] s[j]),
    decreases s.len(),
{
    if s.len() == 0 || is_selector_whitespace(s[0]) {
    } else {
        let t = s.skip(1);
        lemma_first_whitespace(t);
        assert forall|j: int| 0 <= j < first_whitespace(s) implies !is_selector_whitespace(
            #[trigger] s[j],
        ) by {
            if j > 0 {
                assert(s[j] == t[j - 1]);
            }
        }
    }
}

/// The first whitespace character of `s` stands at `k` when none stands before
/// `k` and `k` is either the end of `s` or holds one.
pub proof fn lemma_first_whitespace_at(s: Seq<char>, k: int)
    requires
        0 <= k <= s.len(),
        forall|j: int| 0 <= j < k ==> !is_selector_whitespace(#[trigger] s[j]),
        k < s.len() ==> is_selector_whitespace(s[k]),
    ensures
        first_whitespace(s) == k,
{
    lemma_first_whitespace(s);
    let f = first_whitespace(s);
    if f < k {
        assert(is_selector_whitespace(s[f]));
    } else if f > k {
        assert(!is_selector_whitespace(s[k]));
    }
}

/// The views of a sequence of strings.
pub open spec fn views_of(v: Seq<String>) -> Seq<Seq<char>> {
    v.map_values(|t: String| t@)
}

/// The characters of a string.
pub fn chars_of(s: &str) -> (v: Vec<char>)
    ensures
        v@ == s@,
{
    let chars = s.chars();
    let mut v: Vec<char> = Vec::new();
    proof {
        vstd::string::axiom_spec_iter(s);
    }
    for c in it: chars
        invariant
            it.seq() == s@,
            v@ == it.seq().take(it.index()),
    {
        proof {
            assert(it.seq().take(it.index() + 1) == it.seq().take(it.index()).push(c));
        }
        v.push(c);
    }
    v
}

/// Tells whether `c` is whitespace of the selector grammar.
pub fn is_whitespace(c: char) -> (b: bool)
    ensures
        b == is_selector_whitespace(c),
{
    c == ' ' || c == '\t' || c == '\n' || c == '\r' || c == '\x0C'
}

/// Maps `A` to `Z` to `a` to `z` and leaves every other character as it is.
pub fn to_ascii_lower_char(c: char) -> (r: char)
    ensures
        r == ascii_lower_char(c),
{
    if 'A' <= c && c <= 'Z' {
        let code: u8 = c as u8;
        (code + 32) as char
    } else {
        c
    }
}

/// A copy of `s` with its ASCII letters in lower case.
pub fn to_ascii_lower(s: &str) -> (r: String)
    ensures
        r@ == ascii_lower(s@),
{
    let chars = s.chars();
    let mut r = String::new();
    proof {
        vstd::string::axiom_spec_iter(s);
    }
    for c in it: chars
        invariant
            it.seq() == s@,
            r@ == ascii_lower(s@.take(it.index())),
    {
        r.push(to_ascii_lower_char(c));
        assert(r@ == ascii_lower(s@.take(it.index() + 1)));
    }
    assert(s@.take(s@.len() as int) == s@);
    r
}

/// Compares the characters of `needle` with those of `hay` from `start` on.
fn occurs_at(hay: &Vec<char>, start: usize, needle: &Vec<char>) -> (r: bool)
    requires
        start + needle.len() <= hay.len(),
    ensures
        r == (hay@.subrange(start as int, start + needle.len()) == needle@),
{
    let mut i: usize = 0;
    while i < needle.len()
        invariant
            i <= needle.len(),
            start + needle.len() <= hay.len(),
            forall|j: int| 0 <= j < i ==> hay@[start + j] == needle@[j],
        decreases needle.len() - i,
    {
        if hay[start + i] != needle[i] {
            assert(hay@.subrange(start as int, start + needle.len())[i as int] != needle@[i as int]);
            return false;
        }
        i = i + 1;
    }
    assert(hay@.subrange(start as int, start + needle.len()) =~= needle@);
    true
}

/// Tells whether two strings hold the same characters.
pub fn str_eq(a: &str, b: &str) -> (r: bool)
    ensures
        r == (a@ == b@),
{
    let mut left = a.chars();
    let mut right = b.chars();
    let ghost mut k: int = 0;
    proof {
        vstd::string::axiom_spec_iter(a);
        vstd::string::axiom_spec_iter(b);
        assert(a@.skip(0) == a@);
        assert(b@.skip(0) == b@);
    }
    loop
        invariant
            0 <= k <= a@.len(),
            k <= b@.len(),
            left.remaining() == a@.skip(k),
            right.remaining() == b@.skip(k),
            left.obeys_prophetic_iter_laws(),
            right.obeys_prophetic_iter_laws(),
            a@.take(k) == b@.take(k),
        decreases a@.len() - k,
    {
        let x = left.next();
        let y = right.next();
        match x {
            None => {
                proof {
                    assert(a@.take(k) == a@);
                    if y is None {
                        assert(b@.take(k) == b@);
                    }
                }
                return y.is_none();
            },
            Some(c) => match y {
                None => {
                    assert(b@.take(k) == b@);
                    return false;
                },
                Some(d) => {
                    assert(a@.skip(k)[0] == c);
                    assert(b@.skip(k)[0] == d);
                    if c != d {
                        assert(a@[k] != b@[k]);
                        return false;
                    }
                    proof {
                        assert(a@.skip(k).drop_first() == a@.skip(k + 1));
                        assert(b@.skip(k).drop_first() == b@.skip(k + 1));
                        assert(a@.take(k + 1) == a@.take(k).push(c));
                        assert(b@.take(k + 1) == b@.take(k).push(d));
                        k = k + 1;
                    }
                },
            },
        }
    }
}

/// Tells whether two strings are equal up to the case of their ASCII letters.
pub fn eq_ignore_ascii_case(a: &str, b: &str) -> (r: bool)
    ensures
        r == eq_ignoring_ascii_case(a@, b@),
{
    let mut left = a.chars();
    let mut right = b.chars();
    let ghost mut k: int = 0;
    proof {
        vstd::string::axiom_spec_iter(a);
        vstd::string::axiom_spec_iter(b);
        assert(a@.skip(0) == a@);
        assert(b@.skip(0) == b@);
    }
    loop
        invariant
            0 <= k <= a@.len(),
            k <= b@.len(),
            left.remaining() == a@.skip(k),
            right.remaining() == b@.skip(k),
            left.obeys_prophetic_iter_laws(),
            right.obeys_prophetic_iter_laws(),
            forall|j: int| 0 <= j < k ==> ascii_lower_char(a@[j]) == ascii_lower_char(b@[j]),
        decreases a@.len() - k,
    {
        let x = left.next();
        let y = right.next();
        match x {
            None => {
                proof {
                    if y is None {
                        assert(ascii_lower(a@) =~= ascii_lower(b@));
                    } else {
                        assert(ascii_lower(a@).len() != ascii_lower(b@).len());
                    }
                }
                return y.is_none();
            },
            Some(c) => match y {
                None => {
                    assert(ascii_lower(a@).len() != ascii_lower(b@).len());
                    return false;
                },
                Some(d) => {
                    assert(a@.skip(k)[0] == c);
                    assert(b@.skip(k)[0] == d);
                    if to_ascii_lower_char(c) != to_ascii_lower_char(d) {
                        assert(ascii_lower(a@)[k] != ascii_lower(b@)[k]);
                        return false;
                    }
                    proof {
                        assert(a@.skip(k).drop_first() == a@.skip(k + 1));
                        assert(b@.skip(k).drop_first() == b@.skip(k + 1));
                        k = k + 1;
                    }
                },
            },
        }
    }
}

/// Tells whether `hay` begins with `needle`.
pub fn starts_with(hay: &str, needle: &str) -> (r: bool)
    ensures
        r == needle@.is_prefix_of(hay@),
{
    let mut left = hay.chars();
    let mut right = needle.chars();
    let ghost mut k: int = 0;
    proof {
        vstd::string::axiom_spec_iter(hay);
        vstd::string::axiom_spec_iter(needle);
        assert(hay@.skip(0) == hay@);
        assert(needle@.skip(0) == needle@);
    }
    loop
        invariant
            0 <= k <= hay@.len(),
            k <= needle@.len(),
            left.remaining() == hay@.skip(k),
            right.remaining() == needle@.skip(k),
            left.obeys_prophetic_iter_laws(),
            right.obeys_prophetic_iter_laws(),
            forall|j: int| 0 <= j < k ==> hay@[j] == needle@[j],
        decreases needle@.len() - k,
    {
        match right.next() {
            None => {
                assert(needle@ =~= hay@.subrange(0, needle@.len() as int));
                return true;
            },
            Some(d) => match left.next() {
                None => {
                    return false;
                },
                Some(c) => {
                    assert(hay@.skip(k)[0] == c);
                    assert(needle@.skip(k)[0] == d);
                    if c != d {
                        proof {
                            if needle@.len() <= hay@.len() {
                                assert(hay@.subrange(0, needle@.len() as int)[k] == c);
                            }
                        }
                        return false;
                    }
                    proof {
                        assert(hay@.skip(k).drop_first() == hay@.skip(k + 1));
                        assert(needle@.skip(k).drop_first() == needle@.skip(k + 1));
                        k = k + 1;
                    }
                },
            },
        }
    }
}

/// Tells whether `hay` ends with `needle`.
pub fn ends_with(hay: &str, needle: &str) -> (r: bool)
    ensures
        r == needle@.is_suffix_of(hay@),
{
    let h = chars_of(hay);
    let n = chars_of(needle);
    if n.len() > h.len() {
        return false;
    }
    occurs_at(&h, h.len() - n.len(), &n)
}

/// Tells whether `needle` occurs somewhere in `hay`.
pub fn contains(hay: &str, needle: &str) -> (r: bool)
    ensures
        r == is_substring_of(needle@, hay@),
{
    let h = chars_of(hay);
    let n = chars_of(needle);
    if n.len() > h.len() {
        return false;
    }
    let last = h.len() - n.len();
    let mut i: usize = 0;
    loop
        invariant
            i <= last,
            last + n.len() == h.len(),
            h@ == hay@,
            n@ == needle@,
            forall|j: int| 0 <= j < i ==> #[trigger] hay@.subrange(j, j + needle@.len()) != needle@,
        decreases last - i,
    {
        if occurs_at(&h, i, &n) {
            return true;
        }
        if i == last {
            return false;
        }
        i = i + 1;
    }
}

/// Splits `s` at each whitespace character of the selector grammar.
pub fn split_whitespace(s: &str) -> (r: Vec<String>)
    ensures
        views_of(r@) == whitespace_tokens(s@),
{
    let chars = s.chars();
    let mut r: Vec<String> = Vec::new();
    let mut current = String::new();
    let ghost mut start: int = 0;
    proof {
        vstd::string::axiom_spec_iter(s);
        assert(s@.skip(0) == s@);
        assert(views_of(r@) + whitespace_tokens(s@) == whitespace_tokens(s@));
    }
    for c in it: chars
        invariant
            it.seq() == s@,
            0 <= start <= it.index(),
            current@ == s@.subrange(start, it.index()),
            forall|j: int| start <= j < it.index() ==> !is_selector_whitespace(#[trigger] s@[j]),
            whitespace_tokens(s@) == views_of(r@) + whitespace_tokens(s@.skip(start)),
    {
        let ghost i = it.index();
        if is_whitespace(c) {
            proof {
                let rest = s@.skip(start);
                assert forall|j: int| 0 <= j < i - start implies !is_selector_whitespace(
                    #[trigger] rest[j],
                ) by {
                    assert(rest[j] == s@[start + j]);
                }
                lemma_first_whitespace_at(rest, i - start);
                assert(rest.take(i - start) == current@);
                assert(rest.skip(i - start + 1) == s@.skip(i + 1));
                assert(views_of(r@.push(current)) == views_of(r@).push(current@));
                assert(views_of(r@).push(current@) + whitespace_tokens(s@.skip(i + 1)) == views_of(
                    r@,
                ) + (seq![current@] + whitespace_tokens(s@.skip(i + 1))));
                start = i + 1;
            }
            r.push(current);
            current = String::new();
        } else {
            current.push(c);
        }
        assert(current@ == s@.subrange(start, i + 1));
    }
    proof {
        let rest = s@.skip(start);
        assert forall|j: int| 0 <= j < rest.len() implies !is_selector_whitespace(
            #[trigger] rest[j],
        ) by {
            assert(rest[j] == s@[start + j]);
        }
        lemma_first_whitespace_at(rest, rest.len() as int);
        assert(rest == current@);
        assert(views_of(r@.push(current)) == views_of(r@).push(current@));
        assert(views_of(r@).push(current@) == views_of(r@) + seq![current@]);
    }
    r.push(current);
    r
}

/// Tells whether `token` is one of the pieces that whitespace separates in `s`.
pub fn has_token(s: &str, token: &str) -> (r: bool)
    ensures
        r == whitespace_tokens(s@).contains(token@),
{
    let tokens = split_whitespace(s);
    let mut i: usize = 0;
    while i < tokens.len()
        invariant
            i <= tokens.len(),
            views_of(tokens@) == whitespace_tokens(s@),
            forall|j: int| 0 <= j < i ==> whitespace_tokens(s@)[j] != token@,
        decreases tokens.len() - i,
    {
        assert(views_of(tokens@)[i as int] == tokens@[i as int]@);
        if str_eq(tokens[i].as_str(), token) {
            return true;
        }
        i = i + 1;
    }
    false
}

} // verus!
