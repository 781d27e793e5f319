use crate::text::{chars_of, contains_text, string_of, unicode_alphanumeric, views};
use vstd::prelude::*;

verus! {

/// Whether a character may stand in a placeholder's name: a letter, a digit
/// or an underscore. A brace is none of these.
pub open spec fn is_name_char(c: char) -> bool {
    c != '{' && c != '}' && (unicode_alphanumeric(c) || c == '_')
}

/// The first index from `from` on at which `s` holds no name character, or
/// the length of `s` where there is none.
pub open spec fn name_end(s: Seq<char>, from: int) -> int
    decreases s.len() - from,
{
    if from < 0 || from >= s.len() || !is_name_char(s[from]) {
        from
    } else {
        name_end(s, from + 1)
    }
}

/// The name of the placeholder that opens at index `at`, if one does: an
/// opening brace, one name character or more, and a closing brace.
pub open spec fn name_at(s: Seq<char>, at: int) -> Option<Seq<char>> {
    let end = name_end(s, at + 1);
    if 0 <= at < s.len() && s[at] == '{' && at + 1 < end < s.len() && s[end] == '}' {
        Some(s.subrange(at + 1, end))
    } else {
        None
    }
}

/// Where the scan goes on after index `at`: behind a character that is no
/// opening brace; behind the character that ends the run of name characters
/// after an opening brace.
pub open spec fn scan_next(s: Seq<char>, at: int) -> int {
    if 0 <= at < s.len() && s[at] == '{' {
        name_end(s, at + 1) + 1
    } else {
        at + 1
    }
}

/// The names that a scan of `s` from index `from` on finds, in the order
/// and as often as it finds them.
pub open spec fn scan(s: Seq<char>, from: int) -> Seq<Seq<char>>
    decreases s.len() + 1 - from,
    via scan_decreases
{
    if from < 0 || from >= s.len() {
        Seq::empty()
    } else {
        match name_at(s, from) {
            Some(name) => seq![name] + scan(s, scan_next(s, from)),
            None => scan(s, scan_next(s, from)),
        }
    }
}

#[via_fn]
proof fn scan_decreases(s: Seq<char>, from: int) {
    if 0 <= from < s.len() {
        lemma_name_end_bounds(s, from + 1);
    }
}

/// A run of name characters ends at or after its first index, within `s`.
pub proof fn lemma_name_end_bounds(s: Seq<char>, from: int)
    requires
        0 <= from <= s.len(),
    ensures
        from <= name_end(s, from) <= s.len(),
    decreases s.len() - from,
{
    if from < s.len() && is_name_char(s[from]) {
        lemma_name_end_bounds(s, from + 1);
    }
}

/// The items of `found` without repetitions: each where it first occurs.
pub open spec fn distinct<A>(found: Seq<A>) -> Seq<A>
    decreases found.len(),
{
    if found.len() == 0 {
        Seq::empty()
    } else {
        let before = distinct(found.drop_last());
        if before.contains(found.last()) {
            before
        } else {
            before.push(found.last())
        }
    }
}

/// The placeholders of a text: the names that a scan from its start finds,
/// each once, in the order in which they first occur.
pub open spec fn placeholders(s: Seq<char>) -> Seq<Seq<char>> {
    distinct(scan(s, 0))
}

proof fn lemma_name_end(s: Seq<char>, from: int, end: int)
    requires
        0 <= from <= end <= s.len(),
        forall|k: int| from <= k < end ==> is_name_char(s[k]),
        end < s.len() ==> !is_name_char(s[end]),
    ensures
        name_end(s, from) == end,
    decreases end - from,
{
    if from < end {
        lemma_name_end(s, from + 1, end);
    }
}

fn takes(c: char) -> (r: bool)
    ensures
        r == is_name_char(c),
{
    c != '{' && c != '}' && (c.is_alphanumeric() || c == '_')
}

/// The placeholders of `content`.
pub fn extract_placeholders(content: &str) -> (names: Vec<String>)
    ensures
        views(names@) == placeholders(content@),
{
    let chars = chars_of(content);
    let n = chars.len();
    let mut names: Vec<String> = Vec::new();
    let ghost mut found: Seq<Seq<char>> = Seq::empty();
    let mut at: usize = 0;
    while at < n
        invariant
            n == chars.len(),
            at <= n,
            scan(chars@, 0) == found + scan(chars@, at as int),
            views(names@) == distinct(found),
        decreases n - at,
    {
        let ghost ahead = scan(chars@, at as int);
        if chars[at] != '{' {
            at += 1;
        } else {
            let mut end: usize = at + 1;
            while end < n && takes(chars[end])
                invariant
                    n == chars.len(),
                    at < end <= n,
                    forall|k: int| at < k < end ==> is_name_char(chars@[k]),
                decreases n - end,
            {
                end += 1;
            }
            proof {
                lemma_name_end(chars@, at + 1, end as int);
            }
            if end >= n {
                assert(ahead == scan(chars@, end + 1));
                at = n;
            } else {
                if chars[end] == '}' && end > at + 1 {
                    let name = string_of(&chars, at + 1, end);
                    if !contains_text(&names, name.as_str()) {
                        names.push(name);
                    }
                    proof {
                        assert(found.push(name@).drop_last() == found);
                        found = found.push(name@);
                    }
                }
                at = end + 1;
            }
        }
    }
    names
}

/// Whether a scan of `s` that starts at index `from` looks for an opening
/// brace at index `at`. It does not where `at` lies in a run of name
/// characters after an opening brace, or is the character that ends such a
/// run.
pub open spec fn scan_reaches(s: Seq<char>, from: int, at: int) -> bool
    decreases s.len() + 1 - from,
    via scan_reaches_decreases
{
    if from < 0 || from >= s.len() || at < from {
        false
    } else if from == at {
        true
    } else {
        scan_reaches(s, scan_next(s, from), at)
    }
}

#[via_fn]
proof fn scan_reaches_decreases(s: Seq<char>, from: int, at: int) {
    if 0 <= from < s.len() {
        lemma_name_end_bounds(s, from + 1);
    }
}

/// Whether `s` holds a well-formed placeholder from index `open` to index
/// `close`: an opening brace, one name character or more, a closing brace.
pub open spec fn is_token(s: Seq<char>, open: int, close: int) -> bool {
    &&& 0 <= open
    &&& open + 1 < close < s.len()
    &&& s[open] == '{'
    &&& s[close] == '}'
    &&& forall|k: int| open < k < close ==> is_name_char(#[trigger] s[k])
}

/// Whether `name` is a placeholder's name: not empty, and made of name
/// characters.
pub open spec fn is_name(name: Seq<char>) -> bool {
    &&& name.len() > 0
    &&& forall|k: int| 0 <= k < name.len() ==> is_name_char(#[trigger] name[k])
}

proof fn lemma_name_end_run(s: Seq<char>, from: int)
    requires
        0 <= from <= s.len(),
    ensures
        forall|k: int| from <= k < name_end(s, from) ==> is_name_char(#[trigger] s[k]),
        name_end(s, from) < s.len() ==> !is_name_char(s[name_end(s, from)]),
    decreases s.len() - from,
{
    if from < s.len() && is_name_char(s[from]) {
        lemma_name_end_run(s, from + 1);
    }
}

/// A well-formed placeholder is what `name_at` finds at its opening brace.
pub proof fn lemma_token_is_name_at(s: Seq<char>, open: int, close: int)
    requires
        is_token(s, open, close),
    ensures
        name_at(s, open) == Some(s.subrange(open + 1, close)),
{
    lemma_name_end(s, open + 1, close);
}

/// What `name_at` finds is a well-formed placeholder, and its name is a
/// name.
pub proof fn lemma_name_at_is_token(s: Seq<char>, open: int)
    requires
        name_at(s, open) is Some,
    ensures
        is_token(s, open, name_end(s, open + 1)),
        name_at(s, open) == Some(s.subrange(open + 1, name_end(s, open + 1))),
        is_name(name_at(s, open)->0),
{
    lemma_name_end_run(s, open + 1);
    let close = name_end(s, open + 1);
}

/// The indices at which a scan of `s` from index `from` on finds a
/// placeholder's opening brace, in the order in which it finds them.
spec fn scan_opens(s: Seq<char>, from: int) -> Seq<int>
    decreases s.len() + 1 - from,
    via scan_opens_decreases
{
    if from < 0 || from >= s.len() {
        Seq::empty()
    } else if name_at(s, from) is Some {
        seq![from] + scan_opens(s, scan_next(s, from))
    } else {
        scan_opens(s, scan_next(s, from))
    }
}

#[via_fn]
proof fn scan_opens_decreases(s: Seq<char>, from: int) {
    if 0 <= from < s.len() {
        lemma_name_end_bounds(s, from + 1);
    }
}

proof fn lemma_reaches_from(s: Seq<char>, from: int, at: int)
    requires
        scan_reaches(s, from, at),
    ensures
        0 <= from <= at < s.len(),
    decreases s.len() + 1 - from,
{
    if from != at {
        lemma_name_end_bounds(s, from + 1);
        lemma_reaches_from(s, scan_next(s, from), at);
    }
}

proof fn lemma_scan_opens(s: Seq<char>, from: int)
    ensures
        scan_opens(s, from).len() == scan(s, from).len(),
        forall|k: int|
            0 <= k < scan(s, from).len() ==> scan_reaches(s, from, #[trigger] scan_opens(s, from)[k])
                && name_at(s, scan_opens(s, from)[k]) == Some(scan(s, from)[k]),
        forall|j: int, k: int|
            0 <= j < k < scan(s, from).len() ==> #[trigger] scan_opens(s, from)[j]
                < #[trigger] scan_opens(s, from)[k],
        forall|at: int|
            #![trigger scan_reaches(s, from, at)]
            scan_reaches(s, from, at) && name_at(s, at) is Some ==> scan_opens(s, from).contains(
                at,
            ),
    decreases s.len() + 1 - from,
{
    if 0 <= from < s.len() {
        lemma_name_end_bounds(s, from + 1);
        let next = scan_next(s, from);
        lemma_scan_opens(s, next);
        let opens = scan_opens(s, from);
        let rest = scan_opens(s, next);
        let shift: int = if name_at(s, from) is Some {
            1
        } else {
            0
        };
        assert forall|k: int| 0 <= k < rest.len() implies from < #[trigger] rest[k] && opens[k
            + shift] == rest[k] && scan(s, from)[k + shift] == scan(s, next)[k] by {
            lemma_reaches_from(s, next, rest[k]);
        }
        assert forall|at: int|
            #![trigger scan_reaches(s, from, at)]
            scan_reaches(s, from, at) && name_at(s, at) is Some implies opens.contains(at) by {
            if at == from {
                assert(opens[0] == at);
            } else {
                assert(scan_reaches(s, next, at));
            }
        }
    }
}

/// An item is among the distinct items of `found` if and only if it is in
/// `found`.
pub proof fn lemma_distinct_contains<A>(found: Seq<A>, x: A)
    ensures
        distinct(found).contains(x) <==> found.contains(x),
    decreases found.len(),
{
    if found.len() > 0 {
        let rest = found.drop_last();
        let before = distinct(rest);
        lemma_distinct_contains(rest, x);
        if found.contains(x) {
            let i = choose|i: int| 0 <= i < found.len() && found[i] == x;
            if i < rest.len() {
                assert(rest[i] == x);
                let k = choose|k: int| 0 <= k < before.len() && before[k] == x;
                assert(distinct(found)[k] == x);
            } else if !before.contains(x) {
                assert(distinct(found)[before.len() as int] == x);
            }
        }
    }
}

/// No item occurs twice among the distinct items of `found`.
pub proof fn lemma_distinct_no_duplicates<A>(found: Seq<A>)
    ensures
        distinct(found).no_duplicates(),
    decreases found.len(),
{
    if found.len() > 0 {
        lemma_distinct_no_duplicates(found.drop_last());
    }
}

/// The distinct items of `found` stand in the order in which they first
/// occur in `found`: of two of them, the earlier one occurs in `found`
/// before the later one does at all.
pub proof fn lemma_distinct_order<A>(found: Seq<A>, a: int, b: int)
    requires
        0 <= a < b < distinct(found).len(),
    ensures
        exists|i: int|
            0 <= i < found.len() && #[trigger] found[i] == distinct(found)[a] && forall|k: int|
                0 <= k <= i ==> #[trigger] found[k] != distinct(found)[b],
    decreases found.len(),
{
    let rest = found.drop_last();
    let before = distinct(rest);
    let d = distinct(found);
    if b < before.len() {
        lemma_distinct_order(rest, a, b);
        let i = choose|i: int|
            0 <= i < rest.len() && #[trigger] rest[i] == before[a] && forall|k: int|
                0 <= k <= i ==> #[trigger] rest[k] != before[b];
        assert forall|k: int| 0 <= k <= i implies #[trigger] found[k] != d[b] by {
            assert(rest[k] != before[b]);
        }
    } else {
        lemma_distinct_contains(rest, before[a]);
        lemma_distinct_contains(rest, found.last());
        let i = choose|i: int| 0 <= i < rest.len() && rest[i] == before[a];
        assert forall|k: int| 0 <= k <= i implies #[trigger] found[k] != d[b] by {
            assert(rest[k] == found[k]);
        }
    }
}

/// A name is among the placeholders of `s` if and only if `s` holds it as a
/// well-formed placeholder at whose opening brace the scan looks for one.
pub proof fn lemma_placeholders_contains(s: Seq<char>, name: Seq<char>)
    ensures
        placeholders(s).contains(name) <==> exists|open: int, close: int|
            #![trigger is_token(s, open, close)]
            is_token(s, open, close) && scan_reaches(s, 0, open) && name == s.subrange(
                open + 1,
                close,
            ),
{
    lemma_distinct_contains(scan(s, 0), name);
    lemma_scan_opens(s, 0);
    if scan(s, 0).contains(name) {
        let k = choose|k: int| 0 <= k < scan(s, 0).len() && scan(s, 0)[k] == name;
        let open = scan_opens(s, 0)[k];
        lemma_name_at_is_token(s, open);
    }
    if exists|open: int, close: int|
        #![trigger is_token(s, open, close)]
        is_token(s, open, close) && scan_reaches(s, 0, open) && name == s.subrange(
            open + 1,
            close,
        ) {
        let (open, close) = choose|open: int, close: int|
            #![trigger is_token(s, open, close)]
            is_token(s, open, close) && scan_reaches(s, 0, open) && name == s.subrange(
                open + 1,
                close,
            );
        lemma_token_is_name_at(s, open, close);
    }
}

/// No name occurs twice among the placeholders of `s`, and each of them is
/// a name: none is empty, none holds a character that is no name character.
pub proof fn lemma_placeholders_are_distinct_names(s: Seq<char>)
    ensures
        placeholders(s).no_duplicates(),
        forall|k: int| 0 <= k < placeholders(s).len() ==> is_name(#[trigger] placeholders(s)[k]),
{
    lemma_distinct_no_duplicates(scan(s, 0));
    assert forall|k: int| 0 <= k < placeholders(s).len() implies is_name(
        #[trigger] placeholders(s)[k],
    ) by {
        let name = placeholders(s)[k];
        lemma_distinct_contains(scan(s, 0), name);
        let i = choose|i: int| 0 <= i < scan(s, 0).len() && scan(s, 0)[i] == name;
        lemma_scan_opens(s, 0);
        lemma_name_at_is_token(s, scan_opens(s, 0)[i]);
    }
}

/// The placeholders of `s` stand in the order in which they first occur in
/// `s`: of two of them, the earlier one is found at an opening brace at or
/// before which the later one is not found.
pub proof fn lemma_placeholders_order(s: Seq<char>, a: int, b: int)
    requires
        0 <= a < b < placeholders(s).len(),
    ensures
        exists|open: int|
            #![trigger scan_reaches(s, 0, open)]
            scan_reaches(s, 0, open) && name_at(s, open) == Some(placeholders(s)[a]) && forall|
                other: int,
            |
                #![trigger scan_reaches(s, 0, other)]
                other <= open && scan_reaches(s, 0, other) ==> name_at(s, other) != Some(
                    placeholders(s)[b],
                ),
{
    let found = scan(s, 0);
    let opens = scan_opens(s, 0);
    lemma_distinct_order(found, a, b);
    lemma_scan_opens(s, 0);
    let i = choose|i: int|
        0 <= i < found.len() && #[trigger] found[i] == placeholders(s)[a] && forall|k: int|
            0 <= k <= i ==> #[trigger] found[k] != placeholders(s)[b];
    let open = opens[i];
    assert(scan_reaches(s, 0, open));
}

/// Whether no attempt of the scan at an earlier opening brace runs up to
/// index `at`: each ends, with the character that is no name character,
/// before `at`.
pub open spec fn is_left_alone(s: Seq<char>, at: int) -> bool {
    forall|p: int|
        #![trigger scan_reaches(s, 0, p)]
        0 <= p < at && scan_reaches(s, 0, p) && s[p] == '{' ==> name_end(s, p + 1) < at
}

proof fn lemma_reaches_later(s: Seq<char>, from: int, p: int, at: int)
    requires
        scan_reaches(s, from, p),
        scan_reaches(s, from, at),
        p < at,
    ensures
        scan_reaches(s, scan_next(s, p), at),
    decreases s.len() + 1 - from,
{
    if from != p {
        lemma_name_end_bounds(s, from + 1);
        lemma_reaches_from(s, scan_next(s, from), p);
        lemma_reaches_later(s, scan_next(s, from), p, at);
    }
}

proof fn lemma_left_alone_reached(s: Seq<char>, from: int, at: int)
    requires
        is_left_alone(s, at),
        0 <= from <= at < s.len(),
        scan_reaches(s, 0, from),
    ensures
        scan_reaches(s, from, at),
    decreases s.len() - from,
{
    if from != at {
        lemma_name_end_bounds(s, from + 1);
        lemma_reaches_step(s, 0, from);
        lemma_left_alone_reached(s, scan_next(s, from), at);
    }
}

/// The scan looks for an opening brace at an index of `s` if and only if
/// no attempt that it makes at an earlier opening brace runs up to that
/// index.
pub proof fn lemma_reaches_if_left_alone(s: Seq<char>, at: int)
    requires
        0 <= at < s.len(),
    ensures
        scan_reaches(s, 0, at) <==> is_left_alone(s, at),
{
    if scan_reaches(s, 0, at) {
        assert forall|p: int|
            #![trigger scan_reaches(s, 0, p)]
            0 <= p < at && scan_reaches(s, 0, p) && s[p] == '{' implies name_end(s, p + 1) < at by {
            lemma_reaches_later(s, 0, p, at);
            lemma_reaches_from(s, scan_next(s, p), at);
        }
    }
    if is_left_alone(s, at) {
        lemma_left_alone_reached(s, 0, at);
    }
}

/// Whether no attempt at a placeholder in `s` runs into an opening brace:
/// between two opening braces there is a character that is no name
/// character.
pub open spec fn attempts_end_before_braces(s: Seq<char>) -> bool {
    forall|p: int, q: int|
        0 <= p < q < s.len() && #[trigger] s[p] == '{' && #[trigger] s[q] == '{' ==> exists|k: int|
            p < k < q && !is_name_char(#[trigger] s[k])
}

proof fn lemma_reaches_step(s: Seq<char>, from: int, at: int)
    requires
        0 <= from <= at,
        at == from || scan_reaches(s, from, at),
        scan_next(s, at) < s.len(),
        from < s.len(),
    ensures
        scan_reaches(s, from, scan_next(s, at)),
    decreases s.len() + 1 - from,
{
    lemma_name_end_bounds(s, at + 1);
    lemma_name_end_bounds(s, from + 1);
    let target = scan_next(s, at);
    if from == at {
        assert(scan_reaches(s, target, target));
    } else {
        let next = scan_next(s, from);
        lemma_reaches_from(s, next, at);
        lemma_reaches_step(s, next, at);
    }
}

/// In a text in which no attempt at a placeholder runs into an opening
/// brace, the scan looks for a placeholder at every opening brace, and so
/// the name of every well-formed placeholder is among the placeholders.
pub proof fn lemma_every_token_found(s: Seq<char>, open: int, close: int)
    requires
        attempts_end_before_braces(s),
        is_token(s, open, close),
    ensures
        scan_reaches(s, 0, open),
        placeholders(s).contains(s.subrange(open + 1, close)),
{
    assert forall|p: int|
        #![trigger scan_reaches(s, 0, p)]
        0 <= p < open && scan_reaches(s, 0, p) && s[p] == '{' implies name_end(s, p + 1) < open by {
        let k = choose|k: int| p < k < open && !is_name_char(#[trigger] s[k]);
        lemma_name_end_bounds(s, p + 1);
        lemma_name_end_run(s, p + 1);
        if name_end(s, p + 1) > k {
            assert(is_name_char(s[k]));
        }
    }
    lemma_reaches_if_left_alone(s, open);
    lemma_placeholders_contains(s, s.subrange(open + 1, close));
}

} // verus!
