//! Issue keys such as `PROJ-123` and the mention markup of Early notes.
//!
//! Both are found with regular expressions of `regex_lite`. What the two
//! patterns match is stated here as a condition on the characters.

use vstd::prelude::*;

use crate::text::{opt_text, text_eq, texts};

verus! {

/// The pattern of an issue key.
pub const ISSUE_KEY_PATTERN: &'static str = r"\b([A-Z][A-Z0-9]+-\d+)\b";

/// The pattern of the markup that Early puts into a note for a mention or a
/// tag.
pub const MARKUP_PATTERN: &'static str = r"<\{\{?\|[mt]\|\d+\|\}?\}>";

/// `A` to `Z`.
pub open spec fn is_upper(c: char) -> bool {
    'A' <= c <= 'Z'
}

/// `0` to `9`.
pub open spec fn is_digit(c: char) -> bool {
    '0' <= c <= '9'
}

/// The characters that make up words: ASCII letters, digits and `_`.
pub open spec fn is_word(c: char) -> bool {
    is_upper(c) || is_digit(c) || 'a' <= c <= 'z' || c == '_'
}

/// Whether the characters from `s` up to `e` are an issue key whose dash
/// stands at `d`: a capital, then one or more capitals and digits, the dash,
/// then one or more digits, with no word character on either side.
pub open spec fn key_parts(t: Seq<char>, s: int, d: int, e: int) -> bool {
    &&& 0 <= s
    &&& s + 2 <= d
    &&& d + 2 <= e
    &&& e <= t.len()
    &&& is_upper(t[s])
    &&& forall|i: int| s < i < d ==> is_upper(#[trigger] t[i]) || is_digit(t[i])
    &&& t[d] == '-'
    &&& forall|i: int| d < i < e ==> is_digit(#[trigger] t[i])
    &&& (s > 0 ==> !is_word(t[s - 1]))
    &&& (e < t.len() ==> !is_word(t[e]))
}

/// Whether the characters from `s` up to `e` are an issue key.
pub open spec fn key_span(t: Seq<char>, s: int, e: int) -> bool {
    exists|d: int| #[trigger] key_parts(t, s, d, e)
}

/// Whether an issue key begins at `s`.
pub open spec fn key_begins(t: Seq<char>, s: int) -> bool {
    exists|e: int| #[trigger] key_span(t, s, e)
}

/// Where the issue key that begins at `s` ends.
pub open spec fn key_end(t: Seq<char>, s: int) -> int {
    choose|e: int| #[trigger] key_span(t, s, e)
}

/// The issue keys in `t` from position `i` on, from left to right; the search
/// goes on where a key ends.
pub open spec fn keys_from(t: Seq<char>, i: int) -> Seq<Seq<char>>
    decreases t.len() - i,
{
    if i < 0 || i >= t.len() {
        seq![]
    } else if key_begins(t, i) {
        let e = key_end(t, i);
        if i < e <= t.len() {
            seq![t.subrange(i, e)] + keys_from(t, e)
        } else {
            seq![]
        }
    } else {
        keys_from(t, i + 1)
    }
}

/// All issue keys in a text, from left to right.
pub open spec fn issue_keys(t: Seq<char>) -> Seq<Seq<char>> {
    keys_from(t, 0)
}

/// The first issue key in a text.
pub open spec fn first_issue_key(t: Seq<char>) -> Option<Seq<char>> {
    if issue_keys(t).len() > 0 {
        Some(issue_keys(t).first())
    } else {
        None
    }
}

/// Whether the characters from `s` up to `e` are mention markup: `<{` or
/// `<{{`, then `|m|` or `|t|` with the bar at `a`, one or more digits, a bar
/// at `b`, then `}>` or `}}>`.
pub open spec fn markup_parts(t: Seq<char>, s: int, a: int, b: int, e: int) -> bool {
    &&& 0 <= s
    &&& a == s + 2 || (a == s + 3 && t[s + 2] == '{')
    &&& a + 4 <= b
    &&& e == b + 3 || (e == b + 4 && t[b + 2] == '}')
    &&& e <= t.len()
    &&& t[s] == '<'
    &&& t[s + 1] == '{'
    &&& t[a] == '|'
    &&& t[a + 1] == 'm' || t[a + 1] == 't'
    &&& t[a + 2] == '|'
    &&& forall|i: int| a + 3 <= i < b ==> is_digit(#[trigger] t[i])
    &&& t[b] == '|'
    &&& t[b + 1] == '}'
    &&& t[e - 1] == '>'
}

/// Whether the characters from `s` up to `e` are mention markup.
pub open spec fn markup_span(t: Seq<char>, s: int, e: int) -> bool {
    exists|a: int, b: int| #[trigger] markup_parts(t, s, a, b, e)
}

/// Whether mention markup begins at `s`.
pub open spec fn markup_begins(t: Seq<char>, s: int) -> bool {
    exists|e: int| #[trigger] markup_span(t, s, e)
}

/// Where the mention markup that begins at `s` ends.
pub open spec fn markup_end(t: Seq<char>, s: int) -> int {
    choose|e: int| #[trigger] markup_span(t, s, e)
}

/// `t` from position `i` on, with `by` in place of each mention markup.
pub open spec fn replaced_from(t: Seq<char>, i: int, by: Seq<char>) -> Seq<char>
    decreases t.len() - i,
{
    if i < 0 || i >= t.len() {
        seq![]
    } else if markup_begins(t, i) {
        let e = markup_end(t, i);
        if i < e <= t.len() {
            by + replaced_from(t, e, by)
        } else {
            seq![]
        }
    } else {
        seq![t[i]] + replaced_from(t, i + 1, by)
    }
}

/// `t` without its mention markup.
pub open spec fn without_markup(t: Seq<char>) -> Seq<char> {
    replaced_from(t, 0, seq![])
}

/// `regex_lite::Regex::find`: the leftmost match of the issue key pattern in
/// `text`. The words and digits of `regex_lite` are those of ASCII.
#[verifier::external_body]
fn find_first(pattern: &str, text: &str) -> (r: Option<String>)
    requires
        pattern@ == ISSUE_KEY_PATTERN@,
    ensures
        opt_text(r) == first_issue_key(text@),
{
    regex_lite::Regex::new(pattern).unwrap().find(text).map(|m| m.as_str().to_string())
}

/// `regex_lite::Regex::find_iter`: the successive matches of the issue key
/// pattern in `text` that do not overlap, from left to right.
#[verifier::external_body]
fn find_all(pattern: &str, text: &str) -> (r: Vec<String>)
    requires
        pattern@ == ISSUE_KEY_PATTERN@,
    ensures
        texts(r@) == issue_keys(text@),
{
    regex_lite::Regex::new(pattern).unwrap().find_iter(text).map(|m| m.as_str().to_string()).collect()
}

/// `regex_lite::Regex::replace_all`: `text` with `by` in place of each match
/// of the markup pattern. A `$` in `by` would be read as a group's name.
#[verifier::external_body]
fn replace_all(pattern: &str, text: &str, by: &str) -> (r: String)
    requires
        pattern@ == MARKUP_PATTERN@,
        !by@.contains('$'),
    ensures
        r@ == replaced_from(text@, 0, by@),
{
    regex_lite::Regex::new(pattern).unwrap().replace_all(text, by).into_owned()
}

/// `found` with `key` at its end, unless it is there already.
pub open spec fn with_key(found: Seq<Seq<char>>, key: Seq<char>) -> Seq<Seq<char>> {
    if found.contains(key) {
        found
    } else {
        found.push(key)
    }
}

/// `found` and then those of `more`, each that is not there yet.
pub open spec fn with_keys(found: Seq<Seq<char>>, more: Seq<Seq<char>>) -> Seq<Seq<char>>
    decreases more.len(),
{
    if more.len() == 0 {
        found
    } else {
        with_key(with_keys(found, more.drop_last()), more.last())
    }
}

/// What is in two lists, one after the other, is in one of them.
pub proof fn lemma_contains_concat(a: Seq<Seq<char>>, b: Seq<Seq<char>>, key: Seq<char>)
    ensures
        (a + b).contains(key) == (a.contains(key) || b.contains(key)),
{
    if a.contains(key) {
        let i = choose|i: int| 0 <= i < a.len() && a[i] == key;
        assert((a + b)[i] == key);
    }
    if b.contains(key) {
        let i = choose|i: int| 0 <= i < b.len() && b[i] == key;
        assert((a + b)[a.len() + i] == key);
    }
}

/// Adding one list and then another is adding both, one after the other.
pub proof fn lemma_with_keys_concat(found: Seq<Seq<char>>, a: Seq<Seq<char>>, b: Seq<Seq<char>>)
    ensures
        with_keys(with_keys(found, a), b) == with_keys(found, a + b),
    decreases b.len(),
{
    if b.len() == 0 {
        assert(a + b =~= a);
    } else {
        lemma_with_keys_concat(found, a, b.drop_last());
        assert((a + b).drop_last() =~= a + b.drop_last());
        assert((a + b).last() == b.last());
    }
}

/// The texts of a list in the order of their first occurrence, each once.
pub open spec fn distinct(all: Seq<Seq<char>>) -> Seq<Seq<char>> {
    with_keys(seq![], all)
}

/// Whether `key` is one of `found`.
pub fn has_key(found: &Vec<String>, key: &str) -> (r: bool)
    ensures
        r == texts(found@).contains(key@),
{
    let mut i: usize = 0;
    while i < found.len()
        invariant
            i <= found@.len(),
            forall|j: int| 0 <= j < i ==> found@[j]@ != key@,
        decreases found.len() - i,
    {
        if text_eq(found[i].as_str(), key) {
            assert(texts(found@)[i as int] == key@);
            return true;
        }
        i = i + 1;
    }
    proof {
        if texts(found@).contains(key@) {
            let j = choose|j: int| 0 <= j < texts(found@).len() && texts(found@)[j] == key@;
            assert(found@[j]@ == key@);
        }
    }
    false
}

/// Adds a key unless it is there already.
pub fn add_key(found: &mut Vec<String>, key: String)
    ensures
        texts(final(found)@) == with_key(texts(old(found)@), key@),
{
    if !has_key(found, key.as_str()) {
        let ghost before = texts(found@);
        let ghost word = key@;
        found.push(key);
        assert(texts(found@) =~= before.push(word));
    }
}

/// Adds the first issue key of `text`, where there is one.
pub fn add_first_key(found: &mut Vec<String>, text: &str)
    ensures
        texts(final(found)@) == with_keys(
            texts(old(found)@),
            match first_issue_key(text@) {
                Some(key) => seq![key],
                None => seq![],
            },
        ),
{
    proof {
        reveal_with_fuel(with_keys, 2);
    }
    match find_first(ISSUE_KEY_PATTERN, text) {
        Some(key) => {
            assert(seq![key@].drop_last() =~= seq![]);
            add_key(found, key);
        },
        None => {},
    }
}

/// Adds every issue key of `text`.
pub fn add_all_keys(found: &mut Vec<String>, text: &str)
    ensures
        texts(final(found)@) == with_keys(texts(old(found)@), issue_keys(text@)),
{
    let more = find_all(ISSUE_KEY_PATTERN, text);
    add_keys(found, &more);
}

/// Adds the keys of a list, each that is not there yet.
pub fn add_keys(found: &mut Vec<String>, more: &Vec<String>)
    ensures
        texts(final(found)@) == with_keys(texts(old(found)@), texts(more@)),
{
    let ghost before = texts(found@);
    let mut i: usize = 0;
    while i < more.len()
        invariant
            i <= more@.len(),
            texts(found@) == with_keys(before, texts(more@).take(i as int)),
        decreases more.len() - i,
    {
        add_key(found, more[i].clone());
        i = i + 1;
        assert(texts(more@).take(i as int).drop_last() =~= texts(more@).take(i - 1));
    }
    assert(texts(more@).take(i as int) =~= texts(more@));
}

/// `text` without its mention markup.
pub fn remove_markup(text: &str) -> (r: String)
    ensures
        r@ == without_markup(text@),
{
    proof {
        reveal_strlit("");
        assert(""@ =~= seq![]);
    }
    replace_all(MARKUP_PATTERN, text, "")
}

proof fn lemma_key_span_bounds(t: Seq<char>, s: int, e: int)
    requires
        key_span(t, s, e),
    ensures
        0 <= s < e <= t.len(),
{
    let d = choose|d: int| #[trigger] key_parts(t, s, d, e);
    assert(key_parts(t, s, d, e));
}

/// Two issue keys in one text never overlap, and a key that begins at a given
/// place ends at one place only.
pub proof fn law_keys_do_not_overlap(t: Seq<char>, s1: int, e1: int, s2: int, e2: int)
    requires
        key_span(t, s1, e1),
        key_span(t, s2, e2),
    ensures
        s1 == s2 ==> e1 == e2,
        s1 < s2 ==> e1 <= s2,
{
    let d1 = choose|d: int| #[trigger] key_parts(t, s1, d, e1);
    let d2 = choose|d: int| #[trigger] key_parts(t, s2, d, e2);
    assert(key_parts(t, s1, d1, e1));
    assert(key_parts(t, s2, d2, e2));
    if s1 == s2 {
        if d1 < d2 {
            assert(is_upper(t[d1]) || is_digit(t[d1]));
        }
        if d2 < d1 {
            assert(is_upper(t[d2]) || is_digit(t[d2]));
        }
        if e1 < e2 {
            assert(is_digit(t[e1]));
        }
        if e2 < e1 {
            assert(is_digit(t[e2]));
        }
    } else if s1 < s2 && s2 < e1 {
        // the character before s2 is no word character, so it is the dash;
        // then a digit stands at s2, which is no capital
        let c = t[s2 - 1];
        if s2 - 1 == s1 {
            assert(is_upper(c));
        } else if s2 - 1 < d1 {
            assert(is_upper(t[s2 - 1]) || is_digit(t[s2 - 1]));
        } else if s2 - 1 > d1 {
            assert(is_digit(t[s2 - 1]));
        } else {
            assert(is_digit(t[s2]));
        }
    }
}

proof fn lemma_keys_from(t: Seq<char>, i: int, s: int, e: int)
    requires
        0 <= i <= s,
        key_span(t, s, e),
    ensures
        keys_from(t, i).contains(t.subrange(s, e)),
    decreases t.len() - i,
{
    lemma_key_span_bounds(t, s, e);
    if key_begins(t, i) {
        let end = key_end(t, i);
        assert(key_span(t, i, end));
        lemma_key_span_bounds(t, i, end);
        law_keys_do_not_overlap(t, i, end, s, e);
        let rest = keys_from(t, end);
        assert(keys_from(t, i) == seq![t.subrange(i, end)] + rest);
        if s == i {
            assert(keys_from(t, i)[0] == t.subrange(s, e));
        } else {
            lemma_keys_from(t, end, s, e);
            let j = choose|j: int| 0 <= j < rest.len() && rest[j] == t.subrange(s, e);
            assert(keys_from(t, i)[j + 1] == t.subrange(s, e));
        }
    } else {
        assert(s != i);
        lemma_keys_from(t, i + 1, s, e);
    }
}

/// Every issue key that stands in a text is found, wherever it stands.
pub proof fn law_every_key_is_found(t: Seq<char>, s: int, e: int)
    requires
        key_span(t, s, e),
    ensures
        issue_keys(t).contains(t.subrange(s, e)),
{
    lemma_key_span_bounds(t, s, e);
    lemma_keys_from(t, 0, s, e);
}

proof fn lemma_found_from(t: Seq<char>, i: int, j: int)
    requires
        0 <= i,
        0 <= j < keys_from(t, i).len(),
    ensures
        exists|s: int, e: int|
            #[trigger] key_span(t, s, e) && keys_from(t, i)[j] == t.subrange(s, e),
    decreases t.len() - i,
{
    if key_begins(t, i) {
        let end = key_end(t, i);
        assert(key_span(t, i, end));
        lemma_key_span_bounds(t, i, end);
        if j > 0 {
            lemma_found_from(t, end, j - 1);
            assert(keys_from(t, i)[j] == keys_from(t, end)[j - 1]);
        } else {
            assert(keys_from(t, i)[0] == t.subrange(i, end));
        }
    } else {
        lemma_found_from(t, i + 1, j);
    }
}

/// Whatever is found is an issue key that stands in the text.
pub proof fn law_only_keys_are_found(t: Seq<char>, j: int)
    requires
        0 <= j < issue_keys(t).len(),
    ensures
        exists|s: int, e: int|
            #[trigger] key_span(t, s, e) && issue_keys(t)[j] == t.subrange(s, e),
        key_span(issue_keys(t)[j], 0, issue_keys(t)[j].len() as int),
{
    lemma_found_from(t, 0, j);
    let (s, e) = choose|s: int, e: int|
        #[trigger] key_span(t, s, e) && keys_from(t, 0)[j] == t.subrange(s, e);
    let d = choose|d: int| #[trigger] key_parts(t, s, d, e);
    assert(key_parts(t, s, d, e));
    let k = t.subrange(s, e);
    assert forall|i: int| 0 < i < d - s implies is_upper(#[trigger] k[i]) || is_digit(k[i]) by {
        assert(is_upper(t[s + i]) || is_digit(t[s + i]));
    }
    assert forall|i: int| d - s < i < e - s implies is_digit(#[trigger] k[i]) by {
        assert(is_digit(t[s + i]));
    }
    assert(key_parts(k, 0, d - s, e - s));
}

proof fn lemma_with_keys(found: Seq<Seq<char>>, more: Seq<Seq<char>>)
    requires
        found.no_duplicates(),
    ensures
        with_keys(found, more).no_duplicates(),
        forall|k: Seq<char>| #[trigger]
            with_keys(found, more).contains(k) <==> found.contains(k) || more.contains(k),
    decreases more.len(),
{
    if more.len() > 0 {
        let before = with_keys(found, more.drop_last());
        let key = more.last();
        lemma_with_keys(found, more.drop_last());
        assert(more =~= more.drop_last().push(key));
        assert forall|k: Seq<char>| #[trigger]
            with_keys(found, more).contains(k) <==> found.contains(k) || more.contains(k) by {
            if more.contains(k) {
                let j = choose|j: int| 0 <= j < more.len() && more[j] == k;
                if j < more.len() - 1 {
                    assert(more.drop_last()[j] == k);
                }
            }
            if more.drop_last().contains(k) {
                let j = choose|j: int| 0 <= j < more.drop_last().len() && more.drop_last()[j] == k;
                assert(more[j] == k);
            }
            if k == key {
                assert(more[more.len() - 1] == k);
            }
            if !before.contains(key) {
                let after = before.push(key);
                if after.contains(k) {
                    let j = choose|j: int| 0 <= j < after.len() && after[j] == k;
                    if j < before.len() {
                        assert(before[j] == k);
                    }
                }
                if before.contains(k) {
                    let j = choose|j: int| 0 <= j < before.len() && before[j] == k;
                    assert(after[j] == k);
                }
                assert(after[before.len() as int] == key);
            }
        }
    }
}

/// Dropping repeated keys loses none and leaves each one once.
pub proof fn law_distinct_keeps_each_once(all: Seq<Seq<char>>)
    ensures
        distinct(all).no_duplicates(),
        forall|k: Seq<char>| #[trigger] distinct(all).contains(k) <==> all.contains(k),
{
    lemma_with_keys(seq![], all);
}

proof fn lemma_plain_from(t: Seq<char>, i: int)
    requires
        0 <= i <= t.len(),
        forall|s: int| !#[trigger] markup_begins(t, s),
    ensures
        replaced_from(t, i, seq![]) == t.skip(i),
    decreases t.len() - i,
{
    if i < t.len() {
        lemma_plain_from(t, i + 1);
        assert(t.skip(i) =~= seq![t[i]] + t.skip(i + 1));
    } else {
        assert(t.skip(i) =~= seq![]);
    }
}

/// A text without mention markup stays as it is.
pub proof fn law_plain_text_is_kept(t: Seq<char>)
    requires
        forall|s: int| !#[trigger] markup_begins(t, s),
    ensures
        without_markup(t) == t,
{
    lemma_plain_from(t, 0);
    assert(t.skip(0) =~= t);
}

proof fn lemma_markup_end(t: Seq<char>, s: int, e: int)
    requires
        markup_span(t, s, e),
    ensures
        markup_begins(t, s),
        markup_end(t, s) == e,
        0 <= s < e <= t.len(),
{
    let end = markup_end(t, s);
    assert(markup_span(t, s, end));
    let (a, b) = choose|a: int, b: int| #[trigger] markup_parts(t, s, a, b, e);
    let (c, d) = choose|c: int, d: int| #[trigger] markup_parts(t, s, c, d, end);
    assert(a == c);
    if b < d {
        assert(is_digit(t[b]));
    }
    if d < b {
        assert(is_digit(t[d]));
    }
    assert(b == d);
}

proof fn lemma_replaced_up_to(t: Seq<char>, i: int, s: int, by: Seq<char>)
    requires
        0 <= i <= s <= t.len(),
        forall|k: int| i <= k < s ==> !#[trigger] markup_begins(t, k),
    ensures
        replaced_from(t, i, by) == t.subrange(i, s) + replaced_from(t, s, by),
    decreases s - i,
{
    if i < s {
        lemma_replaced_up_to(t, i + 1, s, by);
        assert(t.subrange(i, s) =~= seq![t[i]] + t.subrange(i + 1, s));
        assert(replaced_from(t, i, by) =~= t.subrange(i, s) + replaced_from(t, s, by));
    } else {
        assert(t.subrange(i, s) =~= seq![]);
        assert(replaced_from(t, i, by) =~= t.subrange(i, s) + replaced_from(t, s, by));
    }
}

/// Mention markup is cut out of a text and all the rest is kept: what stands
/// before the first markup stays, and what stands after it is treated in the
/// same way.
pub proof fn law_markup_is_cut_out(t: Seq<char>, s: int, e: int)
    requires
        markup_span(t, s, e),
        forall|k: int| 0 <= k < s ==> !#[trigger] markup_begins(t, k),
    ensures
        without_markup(t) == t.take(s) + replaced_from(t, e, seq![]),
        (forall|k: int| e <= k ==> !#[trigger] markup_begins(t, k)) ==> without_markup(t) == t.take(
            s,
        ) + t.skip(e),
{
    lemma_markup_end(t, s, e);
    lemma_replaced_up_to(t, 0, s, seq![]);
    assert(t.subrange(0, s) =~= t.take(s));
    assert(replaced_from(t, s, seq![]) =~= replaced_from(t, e, seq![]));
    if forall|k: int| e <= k ==> !#[trigger] markup_begins(t, k) {
        lemma_replaced_up_to(t, e, t.len() as int, seq![]);
        assert(t.subrange(e, t.len() as int) + replaced_from(t, t.len() as int, seq![]) =~= t.skip(
            e,
        ));
    }
}

/// A capital letter, one or more capital letters and digits, a dash and one or
/// more digits are found as a key wherever they stand, unless a letter, a digit
/// or an underscore touches them on either side.
pub proof fn law_key_is_found_between_other_text(
    before: Seq<char>,
    project: Seq<char>,
    number: Seq<char>,
    after: Seq<char>,
)
    requires
        project.len() >= 2,
        'A' <= project[0] <= 'Z',
        forall|i: int|
            0 <= i < project.len() ==> ('A' <= #[trigger] project[i] <= 'Z' || '0' <= project[i]
                <= '9'),
        number.len() >= 1,
        forall|i: int| 0 <= i < number.len() ==> '0' <= #[trigger] number[i] <= '9',
        before.len() > 0 ==> !('A' <= before.last() <= 'Z' || 'a' <= before.last() <= 'z' || '0'
            <= before.last() <= '9' || before.last() == '_'),
        after.len() > 0 ==> !('A' <= after[0] <= 'Z' || 'a' <= after[0] <= 'z' || '0' <= after[0]
            <= '9' || after[0] == '_'),
    ensures
        issue_keys(before + (project + seq!['-'] + number) + after).contains(
            project + seq!['-'] + number,
        ),
{
    let key = project + seq!['-'] + number;
    let t = before + key + after;
    let s = before.len() as int;
    let d = s + project.len();
    let e = s + key.len();
    assert forall|i: int| s < i < d implies is_upper(#[trigger] t[i]) || is_digit(t[i]) by {
        assert(t[i] == project[i - s]);
    }
    assert forall|i: int| d < i < e implies is_digit(#[trigger] t[i]) by {
        assert(t[i] == number[i - d - 1]);
    }
    assert(t[s] == project[0]);
    assert(t[d] == '-');
    assert(key_parts(t, s, d, e));
    assert(t.subrange(s, e) =~= key);
    law_every_key_is_found(t, s, e);
}

/// The first key of a text is the leftmost one, and there is none exactly where
/// the text holds no key.
pub proof fn law_first_key_is_the_leftmost(t: Seq<char>)
    ensures
        match first_issue_key(t) {
            Some(key) => exists|s: int, e: int| #[trigger]
                key_span(t, s, e) && key == t.subrange(s, e) && forall|k: int|
                    0 <= k < s ==> !#[trigger] key_begins(t, k),
            None => forall|s: int, e: int| !#[trigger] key_span(t, s, e),
        },
{
    if issue_keys(t).len() == 0 {
        assert forall|s: int, e: int| !#[trigger] key_span(t, s, e) by {
            if key_span(t, s, e) {
                law_every_key_is_found(t, s, e);
            }
        }
    } else {
        lemma_leftmost_from(t, 0);
    }
}

proof fn lemma_leftmost_from(t: Seq<char>, i: int)
    requires
        0 <= i,
        keys_from(t, i).len() > 0,
    ensures
        exists|s: int, e: int| #[trigger]
            key_span(t, s, e) && keys_from(t, i)[0] == t.subrange(s, e) && i <= s && forall|k: int|
                i <= k < s ==> !#[trigger] key_begins(t, k),
    decreases t.len() - i,
{
    if key_begins(t, i) {
        let end = key_end(t, i);
        assert(key_span(t, i, end));
        lemma_key_span_bounds(t, i, end);
        assert(keys_from(t, i)[0] == t.subrange(i, end));
    } else {
        lemma_leftmost_from(t, i + 1);
        let (s, e) = choose|s: int, e: int| #[trigger]
            key_span(t, s, e) && keys_from(t, i + 1)[0] == t.subrange(s, e) && i + 1 <= s && forall|
                k: int,
            |
                i + 1 <= k < s ==> !#[trigger] key_begins(t, k);
        assert(key_span(t, s, e) && keys_from(t, i)[0] == t.subrange(s, e));
    }
}

/// The markup of a mention or a tag, with one or two braces, is taken out of a
/// note, and the text before and after it stays as it is.
pub proof fn law_mention_is_taken_out(
    before: Seq<char>,
    two: bool,
    kind: char,
    number: Seq<char>,
    after: Seq<char>,
)
    requires
        !before.contains('<'),
        !after.contains('<'),
        kind == 'm' || kind == 't',
        number.len() >= 1,
        forall|i: int| 0 <= i < number.len() ==> '0' <= #[trigger] number[i] <= '9',
    ensures
        ({
            let open = if two {
                seq!['<', '{', '{', '|']
            } else {
                seq!['<', '{', '|']
            };
            let close = if two {
                seq!['|', '}', '}', '>']
            } else {
                seq!['|', '}', '>']
            };
            without_markup(before + (open + seq![kind, '|'] + number + close) + after) == before
                + after
        }),
{
    let open = if two {
        seq!['<', '{', '{', '|']
    } else {
        seq!['<', '{', '|']
    };
    let close = if two {
        seq!['|', '}', '}', '>']
    } else {
        seq!['|', '}', '>']
    };
    let markup = open + seq![kind, '|'] + number + close;
    let t = before + markup + after;
    let s = before.len() as int;
    let e = s + markup.len();
    let a = s + open.len() - 1;
    let b = a + 3 + number.len();
    assert forall|i: int| s <= i < e implies #[trigger] t[i] == markup[i - s] by {}
    assert forall|i: int| a + 3 <= i < b implies is_digit(#[trigger] t[i]) by {
        assert(t[i] == number[i - a - 3]);
    }
    assert(markup_parts(t, s, a, b, e));
    assert(markup_span(t, s, e));
    assert forall|k: int| 0 <= k < s implies !#[trigger] markup_begins(t, k) by {
        if markup_begins(t, k) {
            let end = choose|end: int| #[trigger] markup_span(t, k, end);
            let (c, d) = choose|c: int, d: int| #[trigger] markup_parts(t, k, c, d, end);
            assert(t[k] == before[k]);
        }
    }
    assert forall|k: int| e <= k implies !#[trigger] markup_begins(t, k) by {
        if markup_begins(t, k) {
            let end = choose|end: int| #[trigger] markup_span(t, k, end);
            let (c, d) = choose|c: int, d: int| #[trigger] markup_parts(t, k, c, d, end);
            assert(t[k] == after[k - e]);
        }
    }
    law_markup_is_cut_out(t, s, e);
    assert(t.take(s) + t.skip(e) =~= before + after);
}

}
