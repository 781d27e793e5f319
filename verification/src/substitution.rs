use crate::config::{url_outcome, ConfigView};
use crate::map::{lists, Entries};
use crate::template::{fill_text, token_of, IssueTemplateView};
use crate::text::{matches_at, replace_all, replace_from};
use vstd::prelude::*;

verus! {

/// Whether a text holds no brace.
pub open spec fn brace_free(s: Seq<char>) -> bool {
    forall|i: int| 0 <= i < s.len() ==> (#[trigger] s[i]) != '{' && s[i] != '}'
}

/// A part of a text: a text of its own, or the token of a key.
pub enum Part {
    Plain(Seq<char>),
    Token(Seq<char>),
}

/// Whether a part is a text that holds no brace, or the token of a key
/// that holds no brace.
pub open spec fn is_part(part: Part) -> bool {
    match part {
        Part::Plain(text) => brace_free(text),
        Part::Token(key) => brace_free(key),
    }
}

/// The text of a part.
pub open spec fn part_text(part: Part) -> Seq<char> {
    match part {
        Part::Plain(text) => text,
        Part::Token(key) => token_of(key),
    }
}

/// The text of a list of parts: their texts, one after the other.
pub open spec fn parts_text(parts: Seq<Part>) -> Seq<char>
    decreases parts.len(),
{
    if parts.len() == 0 {
        Seq::empty()
    } else {
        part_text(parts.first()) + parts_text(parts.drop_first())
    }
}

/// Whether the braces of a text are those of its tokens: the text is made
/// of texts that hold no brace and of tokens of keys that hold no brace.
pub open spec fn braces_are_tokens(text: Seq<char>) -> bool {
    exists|parts: Seq<Part>|
        #![trigger parts_text(parts)]
        parts_text(parts) == text && forall|i: int|
            0 <= i < parts.len() ==> is_part(#[trigger] parts[i])
}

/// What a part becomes where the token of `key` gives way to `value`.
spec fn replace_part(part: Part, key: Seq<char>, value: Seq<char>) -> Seq<Part> {
    match part {
        Part::Plain(text) => seq![part],
        Part::Token(name) => if name == key {
            seq![Part::Plain(value)]
        } else {
            seq![part]
        },
    }
}

/// The parts after each token of `key` has given way to `value`.
spec fn replace_parts(parts: Seq<Part>, key: Seq<char>, value: Seq<char>) -> Seq<Part>
    decreases parts.len(),
{
    if parts.len() == 0 {
        Seq::empty()
    } else {
        replace_part(parts.first(), key, value) + replace_parts(parts.drop_first(), key, value)
    }
}

/// The parts after the entries have been filled in, in their order.
spec fn fill_parts(parts: Seq<Part>, entries: Entries) -> Seq<Part>
    decreases entries.len(),
{
    if entries.len() == 0 {
        parts
    } else {
        replace_parts(fill_parts(parts, entries.drop_last()), entries.last().0, entries.last().1)
    }
}

/// What a part becomes where each token gives way to the value that its
/// key has in `params`, if it has one.
spec fn resolve_part(part: Part, params: Map<Seq<char>, Seq<char>>) -> Seq<Part> {
    match part {
        Part::Plain(text) => seq![part],
        Part::Token(name) => if params.contains_key(name) {
            seq![Part::Plain(params[name])]
        } else {
            seq![part]
        },
    }
}

/// The parts after each token has given way to the value that its key has
/// in `params`, if it has one.
spec fn resolve_parts(parts: Seq<Part>, params: Map<Seq<char>, Seq<char>>) -> Seq<Part>
    decreases parts.len(),
{
    if parts.len() == 0 {
        Seq::empty()
    } else {
        resolve_part(parts.first(), params) + resolve_parts(parts.drop_first(), params)
    }
}

spec fn are_parts(parts: Seq<Part>) -> bool {
    forall|i: int| 0 <= i < parts.len() ==> is_part(#[trigger] parts[i])
}

proof fn lemma_parts_text_append(a: Seq<Part>, b: Seq<Part>)
    ensures
        parts_text(a + b) == parts_text(a) + parts_text(b),
    decreases a.len(),
{
    if a.len() > 0 {
        assert((a + b).drop_first() == a.drop_first() + b);
        lemma_parts_text_append(a.drop_first(), b);
    }
}

proof fn lemma_one_part(part: Part)
    ensures
        parts_text(seq![part]) == part_text(part),
{
    let one = seq![part];
    assert(parts_text(one.drop_first()) == Seq::<char>::empty());
}

proof fn lemma_replace_shift(s: Seq<char>, from: int, at: int, pat: Seq<char>, with: Seq<char>)
    requires
        0 <= from,
        0 <= at,
        from + at <= s.len(),
    ensures
        replace_from(s, from + at, pat, with) == replace_from(s.skip(from), at, pat, with),
    decreases s.len() - from - at,
{
    let t = s.skip(from);
    if from + at < s.len() {
        if matches_at(s, from + at, pat) {
            assert(t.subrange(at, at + pat.len()) == s.subrange(from + at, from + at + pat.len()));
        }
        if matches_at(t, at, pat) {
            assert(t.subrange(at, at + pat.len()) == s.subrange(from + at, from + at + pat.len()));
        }
        if pat.len() > 0 && matches_at(s, from + at, pat) {
            lemma_replace_shift(s, from, at + pat.len(), pat, with);
        } else {
            lemma_replace_shift(s, from, at + 1, pat, with);
        }
    }
}

proof fn lemma_replace_skips(s: Seq<char>, from: int, to: int, pat: Seq<char>, with: Seq<char>)
    requires
        0 <= from <= to <= s.len(),
        forall|p: int| from <= p < to ==> !matches_at(s, p, pat),
    ensures
        replace_from(s, from, pat, with) == s.subrange(from, to) + replace_from(s, to, pat, with),
    decreases to - from,
{
    if from < to {
        lemma_replace_skips(s, from + 1, to, pat, with);
    } else {
        assert(Seq::<char>::empty() + replace_from(s, to, pat, with) == replace_from(
            s,
            to,
            pat,
            with,
        ));
    }
}

proof fn lemma_other_token(s: Seq<char>, name: Seq<char>, key: Seq<char>, p: int)
    requires
        brace_free(name),
        brace_free(key),
        name != key,
        s.len() >= name.len() + 2,
        s.subrange(0, name.len() + 2 as int) == token_of(name),
        0 <= p < name.len() + 2,
    ensures
        !matches_at(s, p, token_of(key)),
{
    let token = token_of(key);
    let own = token_of(name);
    let n = name.len() as int;
    let m = key.len() as int;
    assert forall|i: int| 0 <= i < n + 2 implies s[i] == own[i] by {}
    if matches_at(s, p, token) {
        let found = s.subrange(p, p + token.len());
        assert(found[0] == token[0]);
        if p > 0 {
            assert(false);
        }
        if m < n {
            assert(own[m + 1] == name[m]);
            assert(false);
        } else if m > n {
            assert(token[n + 1] == key[n]);
            assert(false);
        } else {
            assert forall|i: int| 0 <= i < n implies name[i] == key[i] by {
                assert(token[i + 1] == key[i]);
            }
            assert(name =~= key);
        }
    }
}

proof fn lemma_replace_parts_text(parts: Seq<Part>, key: Seq<char>, value: Seq<char>)
    requires
        are_parts(parts),
        brace_free(key),
    ensures
        replace_all(parts_text(parts), token_of(key), value) == parts_text(
            replace_parts(parts, key, value),
        ),
    decreases parts.len(),
{
    let s = parts_text(parts);
    let token = token_of(key);
    if parts.len() > 0 {
        let first = parts.first();
        let rest = parts.drop_first();
        let own = part_text(first);
        let tail = parts_text(rest);
        lemma_replace_parts_text(rest, key, value);
        lemma_parts_text_append(
            replace_part(first, key, value),
            replace_parts(rest, key, value),
        );
        assert(s.skip(own.len() as int) == tail);
        lemma_replace_shift(s, own.len() as int, 0, token, value);
        assert(s.subrange(0, own.len() as int) == own);
        match first {
            Part::Plain(text) => {
                assert forall|p: int| 0 <= p < own.len() implies !matches_at(s, p, token) by {
                    if matches_at(s, p, token) {
                        assert(s.subrange(p, p + token.len())[0] == token[0]);
                    }
                }
                lemma_replace_skips(s, 0, own.len() as int, token, value);
                lemma_one_part(first);
            },
            Part::Token(name) => {
                if name == key {
                    lemma_one_part(Part::Plain(value));
                } else {
                    assert forall|p: int| 0 <= p < own.len() implies !matches_at(s, p, token) by {
                        lemma_other_token(s, name, key, p);
                    }
                    lemma_replace_skips(s, 0, own.len() as int, token, value);
                    lemma_one_part(first);
                }
            },
        }
    }
}

proof fn lemma_replace_parts_are_parts(parts: Seq<Part>, key: Seq<char>, value: Seq<char>)
    requires
        are_parts(parts),
        brace_free(value),
    ensures
        are_parts(replace_parts(parts, key, value)),
    decreases parts.len(),
{
    if parts.len() > 0 {
        let rest = parts.drop_first();
        lemma_replace_parts_are_parts(rest, key, value);
    }
}

spec fn entries_brace_free(entries: Entries) -> bool {
    forall|i: int|
        0 <= i < entries.len() ==> brace_free((#[trigger] entries[i]).0) && brace_free(
            entries[i].1,
        )
}

proof fn lemma_fill_parts(parts: Seq<Part>, entries: Entries)
    requires
        are_parts(parts),
        entries_brace_free(entries),
    ensures
        are_parts(fill_parts(parts, entries)),
        fill_text(parts_text(parts), entries) == parts_text(fill_parts(parts, entries)),
    decreases entries.len(),
{
    if entries.len() > 0 {
        let before = entries.drop_last();
        lemma_fill_parts(parts, before);
        let last = entries[entries.len() - 1];
        lemma_replace_parts_text(fill_parts(parts, before), last.0, last.1);
        lemma_replace_parts_are_parts(fill_parts(parts, before), last.0, last.1);
    }
}

proof fn lemma_replace_parts_append(a: Seq<Part>, b: Seq<Part>, key: Seq<char>, value: Seq<char>)
    ensures
        replace_parts(a + b, key, value) == replace_parts(a, key, value) + replace_parts(
            b,
            key,
            value,
        ),
    decreases a.len(),
{
    if a.len() > 0 {
        assert((a + b).drop_first() == a.drop_first() + b);
        lemma_replace_parts_append(a.drop_first(), b, key, value);
    }
}

proof fn lemma_replace_one_part(part: Part, key: Seq<char>, value: Seq<char>)
    ensures
        replace_parts(seq![part], key, value) == replace_part(part, key, value),
{
    let one = seq![part];
    assert(replace_parts(one.drop_first(), key, value) == Seq::<Part>::empty());
}

proof fn lemma_replace_resolved(
    parts: Seq<Part>,
    params: Map<Seq<char>, Seq<char>>,
    key: Seq<char>,
    value: Seq<char>,
)
    requires
        !params.contains_key(key),
    ensures
        replace_parts(resolve_parts(parts, params), key, value) == resolve_parts(
            parts,
            params.insert(key, value),
        ),
    decreases parts.len(),
{
    if parts.len() > 0 {
        let first = parts.first();
        let rest = parts.drop_first();
        lemma_replace_resolved(rest, params, key, value);
        lemma_replace_parts_append(
            resolve_part(first, params),
            resolve_parts(rest, params),
            key,
            value,
        );
        match first {
            Part::Plain(text) => {
                lemma_replace_one_part(first, key, value);
            },
            Part::Token(name) => {
                if params.contains_key(name) {
                    lemma_replace_one_part(Part::Plain(params[name]), key, value);
                } else {
                    lemma_replace_one_part(first, key, value);
                }
            },
        }
    }
}

proof fn lemma_resolve_nothing(parts: Seq<Part>)
    ensures
        resolve_parts(parts, Map::<Seq<char>, Seq<char>>::empty()) == parts,
    decreases parts.len(),
{
    if parts.len() > 0 {
        lemma_resolve_nothing(parts.drop_first());
    }
}

proof fn lemma_fill_parts_resolves(
    parts: Seq<Part>,
    entries: Entries,
    params: Map<Seq<char>, Seq<char>>,
)
    requires
        lists(entries, params),
    ensures
        fill_parts(parts, entries) == resolve_parts(parts, params),
    decreases entries.len(),
{
    if entries.len() == 0 {
        assert(params =~= Map::<Seq<char>, Seq<char>>::empty());
        lemma_resolve_nothing(parts);
    } else {
        let before = entries.drop_last();
        let last = entries[entries.len() - 1];
        let fewer = params.remove(last.0);
        assert forall|key: Seq<char>| #[trigger] fewer.contains_key(key) implies exists|i: int|
            0 <= i < before.len() && (#[trigger] before[i]).0 == key by {
            let i = choose|i: int| 0 <= i < entries.len() && (#[trigger] entries[i]).0 == key;
            assert(before[i] == entries[i]);
        }
        lemma_fill_parts_resolves(parts, before, fewer);
        lemma_replace_resolved(parts, fewer, last.0, last.1);
        assert(fewer.insert(last.0, last.1) =~= params);
    }
}

/// Where the braces of a text are those of its tokens, and neither a key
/// nor a value of the parameters holds a brace, what the text is filled to
/// does not depend on the order in which the parameters are filled in.
pub proof fn lemma_fill_text_any_order(
    text: Seq<char>,
    params: Map<Seq<char>, Seq<char>>,
    first: Entries,
    second: Entries,
)
    requires
        braces_are_tokens(text),
        forall|key: Seq<char>| #[trigger]
            params.contains_key(key) ==> brace_free(key) && brace_free(params[key]),
        lists(first, params),
        lists(second, params),
    ensures
        fill_text(text, first) == fill_text(text, second),
{
    let parts = choose|parts: Seq<Part>|
        #![trigger parts_text(parts)]
        parts_text(parts) == text && forall|i: int|
            0 <= i < parts.len() ==> is_part(#[trigger] parts[i]);
    lemma_fill_parts(parts, first);
    lemma_fill_parts(parts, second);
    lemma_fill_parts_resolves(parts, first, params);
    lemma_fill_parts_resolves(parts, second, params);
}

/// For a template in whose title and body the braces are those of
/// tokens, and parameters of which neither a key nor a value holds a brace,
/// there is one template that it is filled to, whatever the order in which
/// the parameters are handed out.
pub proof fn lemma_fills_to_one(
    template: IssueTemplateView,
    params: Map<Seq<char>, Seq<char>>,
    one: IssueTemplateView,
    other: IssueTemplateView,
)
    requires
        braces_are_tokens(template.title),
        braces_are_tokens(template.body),
        forall|key: Seq<char>| #[trigger]
            params.contains_key(key) ==> brace_free(key) && brace_free(params[key]),
        template.fills_to(params, one),
        template.fills_to(params, other),
    ensures
        one == other,
{
    let first = choose|order: Entries|
        #![trigger lists(order, params)]
        lists(order, params) && one == template.filled(order);
    let second = choose|order: Entries|
        #![trigger lists(order, params)]
        lists(order, params) && other == template.filled(order);
    lemma_fill_text_any_order(template.title, params, first, second);
    lemma_fill_text_any_order(template.body, params, first, second);
}

/// For a template of a configuration in whose title and body the braces
/// are those of tokens, and parameters of which neither a key nor a value
/// holds a brace, there is one URL that the configuration yields, whatever
/// the order in which the parameters are handed out.
pub proof fn lemma_yields_one_url(
    config: ConfigView,
    name: Seq<char>,
    params: Map<Seq<char>, Seq<char>>,
    one: Result<Seq<char>, Seq<char>>,
    other: Result<Seq<char>, Seq<char>>,
)
    requires
        config.templates.contains_key(name),
        braces_are_tokens(config.templates[name].title),
        braces_are_tokens(config.templates[name].body),
        forall|key: Seq<char>| #[trigger]
            params.contains_key(key) ==> brace_free(key) && brace_free(params[key]),
        config.yields_url(name, params, one),
        config.yields_url(name, params, other),
    ensures
        one == other,
{
    let template = config.templates[name];
    let (checked, first) = choose|checked: Entries, applied: Entries|
        #![trigger lists(checked, params), lists(applied, params)]
        lists(checked, params) && lists(applied, params) && one == url_outcome(
            config,
            name,
            checked,
            applied,
        );
    let (verified, second) = choose|checked: Entries, applied: Entries|
        #![trigger lists(checked, params), lists(applied, params)]
        lists(checked, params) && lists(applied, params) && other == url_outcome(
            config,
            name,
            checked,
            applied,
        );
    lemma_fills_to_one(template, params, template.filled(first), template.filled(second));
}

/// In a text that holds no brace the braces are those of tokens.
pub proof fn lemma_brace_free_text(text: Seq<char>)
    requires
        brace_free(text),
    ensures
        braces_are_tokens(text),
{
    lemma_one_part(Part::Plain(text));
}

/// In the token of a key that holds no brace the braces are those of a
/// token.
pub proof fn lemma_token_text(key: Seq<char>)
    requires
        brace_free(key),
    ensures
        braces_are_tokens(token_of(key)),
{
    lemma_one_part(Part::Token(key));
}

/// Where the braces of two texts are those of tokens, so are the braces of
/// the one followed by the other.
pub proof fn lemma_texts_in_a_row(one: Seq<char>, other: Seq<char>)
    requires
        braces_are_tokens(one),
        braces_are_tokens(other),
    ensures
        braces_are_tokens(one + other),
{
    let a = choose|parts: Seq<Part>|
        #![trigger parts_text(parts)]
        parts_text(parts) == one && forall|i: int|
            0 <= i < parts.len() ==> is_part(#[trigger] parts[i]);
    let b = choose|parts: Seq<Part>|
        #![trigger parts_text(parts)]
        parts_text(parts) == other && forall|i: int|
            0 <= i < parts.len() ==> is_part(#[trigger] parts[i]);
    lemma_parts_text_append(a, b);
}

} // verus!
