use crate::map::{entry_views, lists, Entries, FxHashMap};
use crate::placeholder::{extract_placeholders, placeholders};
use crate::text::{
    clone_list, contains_text, followed, join, joined, lines, replace_all, replaced, result_view,
    split_lines, trim, trimmed, views,
};
use vstd::prelude::*;

verus! {

/// An issue template: a title and a body, both of which may hold
/// placeholders, and labels, which hold none.
#[derive(Debug)]
pub struct IssueTemplate {
    pub title: String,
    pub body: String,
    pub labels: Vec<String>,
}

/// What an issue template holds, as texts.
pub struct IssueTemplateView {
    pub title: Seq<char>,
    pub body: Seq<char>,
    pub labels: Seq<Seq<char>>,
}

impl View for IssueTemplate {
    type V = IssueTemplateView;

    open spec fn view(&self) -> IssueTemplateView {
        IssueTemplateView { title: self.title@, body: self.body@, labels: views(self.labels@) }
    }
}

impl Clone for IssueTemplate {
    fn clone(&self) -> (r: Self)
        ensures
            r@ == self@,
    {
        IssueTemplate {
            title: self.title.clone(),
            body: self.body.clone(),
            labels: clone_list(&self.labels),
        }
    }
}

/// A template kept as one text, whose first line is the title and whose
/// other lines are the body, with its labels.
#[derive(Debug)]
pub struct TemplateFile {
    pub content: &'static str,
    pub labels: Vec<String>,
}

/// What a template file holds, as texts.
pub struct TemplateFileView {
    pub content: Seq<char>,
    pub labels: Seq<Seq<char>>,
}

impl View for TemplateFile {
    type V = TemplateFileView;

    open spec fn view(&self) -> TemplateFileView {
        TemplateFileView { content: self.content@, labels: views(self.labels@) }
    }
}

impl Clone for TemplateFile {
    fn clone(&self) -> (r: Self)
        ensures
            r@ == self@,
    {
        TemplateFile { content: self.content, labels: clone_list(&self.labels) }
    }
}

/// The token that stands for the parameter `key` in a template: the key in
/// braces.
pub open spec fn token_of(key: Seq<char>) -> Seq<char> {
    seq!['{'] + key + seq!['}']
}

/// `text` after the entries of `entries` have been filled in, one after the
/// other: each replaces every token of its key by its value.
pub open spec fn fill_text(text: Seq<char>, entries: Entries) -> Seq<char>
    decreases entries.len(),
{
    if entries.len() == 0 {
        text
    } else {
        replace_all(
            fill_text(text, entries.drop_last()),
            token_of(entries.last().0),
            entries.last().1,
        )
    }
}

impl IssueTemplateView {
    /// The template after the entries of `entries` have been filled in, in
    /// their order, in the title and in the body.
    pub open spec fn filled(self, entries: Entries) -> IssueTemplateView {
        IssueTemplateView {
            title: fill_text(self.title, entries),
            body: fill_text(self.body, entries),
            labels: self.labels,
        }
    }

    /// Whether `filled` is the template after the entries of `params` have
    /// been filled in, in one of the orders in which they can be listed.
    pub open spec fn fills_to(
        self,
        params: Map<Seq<char>, Seq<char>>,
        filled: IssueTemplateView,
    ) -> bool {
        exists|order: Entries|
            #![trigger lists(order, params)]
            lists(order, params) && filled == self.filled(order)
    }
}

/// Without a parameter a template stays as it is, and with one parameter
/// what it is filled to is determined.
pub proof fn lemma_fills_to_determined(
    template: IssueTemplateView,
    params: Map<Seq<char>, Seq<char>>,
    filled: IssueTemplateView,
)
    requires
        template.fills_to(params, filled),
    ensures
        params.dom() =~= Set::<Seq<char>>::empty() ==> filled == template,
        forall|key: Seq<char>|
            #![trigger params[key]]
            params.dom() =~= set![key] ==> filled == template.filled(seq![(key, params[key])]),
{
    let order = choose|order: Entries|
        #![trigger lists(order, params)]
        lists(order, params) && filled == template.filled(order);
    assert forall|key: Seq<char>|
        #![trigger params[key]]
        params.dom() =~= set![key] implies filled == template.filled(seq![(key, params[key])]) by {
        assert(params.contains_key(key));
        assert(params.contains_pair(order[0].0, order[0].1));
        assert(order == seq![(key, params[key])]);
    }
}

/// The text `text` with the entries of `entries` filled in, in their order.
pub fn fill_str(text: &str, entries: &Vec<(String, String)>) -> (r: String)
    ensures
        r@ == fill_text(text@, entry_views(entries@)),
{
    let mut r = text.to_owned();
    let mut i: usize = 0;
    while i < entries.len()
        invariant
            i <= entries.len(),
            r@ == fill_text(text@, entry_views(entries@).take(i as int)),
        decreases entries.len() - i,
    {
        let mut token = followed("{", entries[i].0.as_str());
        token.append("}");
        proof {
            reveal_strlit("{");
            reveal_strlit("}");
            assert(token@ == token_of(entries@[i as int].0@));
            let next = entry_views(entries@).take(i + 1);
            assert(next.drop_last() == entry_views(entries@).take(i as int));
        }
        r = replaced(r.as_str(), token.as_str(), entries[i].1.as_str());
        i += 1;
    }
    assert(entry_views(entries@).take(entries.len() as int) == entry_views(entries@));
    r
}

impl IssueTemplate {
    /// A template with a title and a body, and no labels.
    pub fn new(title: &str, body: &str) -> (r: Self)
        ensures
            r@ == (IssueTemplateView { title: title@, body: body@, labels: Seq::empty() }),
    {
        let r = IssueTemplate { title: title.to_owned(), body: body.to_owned(), labels: Vec::new() };
        assert(views(r.labels@) == Seq::<Seq<char>>::empty());
        r
    }

    /// The same template with `labels` for its labels.
    pub fn with_labels(self, labels: Vec<String>) -> (r: Self)
        ensures
            r@ == (IssueTemplateView { labels: views(labels@), ..self@ }),
    {
        IssueTemplate { title: self.title, body: self.body, labels }
    }

    /// The template with the entries of `entries` filled in, in their order.
    /// There is no check that the keys are the template's placeholders.
    pub fn fill_entries(&self, entries: &Vec<(String, String)>) -> (r: IssueTemplate)
        ensures
            r@ == self@.filled(entry_views(entries@)),
    {
        IssueTemplate {
            title: fill_str(self.title.as_str(), entries),
            body: fill_str(self.body.as_str(), entries),
            labels: clone_list(&self.labels),
        }
    }

    /// The template with the entries of `params` filled in, in the order in
    /// which the map hands them out. There is no check that the keys are
    /// the template's placeholders. A value that holds the token of another
    /// key is filled in in its turn where that key comes later.
    pub fn fill_params(&self, params: &FxHashMap<String, String>) -> (r: IssueTemplate)
        ensures
            self@.fills_to(params@, r@),
    {
        let entries = params.entries();
        let r = self.fill_entries(&entries);
        r
    }
}

/// What parsing a template file gives: the first line, trimmed, is the
/// title; the other lines, joined by line feeds and trimmed, are the body.
/// A file without a line has no template, nor has one whose first line is
/// blank.
pub open spec fn parsed(file: TemplateFileView) -> Result<IssueTemplateView, Seq<char>> {
    let all = lines(file.content);
    if all.len() == 0 {
        Err("Template file is empty"@)
    } else if trim(all[0]).len() == 0 {
        Err("Template must have a title on the first line"@)
    } else {
        Ok(
            IssueTemplateView {
                title: trim(all[0]),
                body: if all.len() > 1 {
                    trim(join(all.skip(1), seq!['\n']))
                } else {
                    Seq::empty()
                },
                labels: file.labels,
            },
        )
    }
}

/// A text has no line if and only if it is empty, and a template file has
/// a template if and only if it is not empty and its first line is not
/// blank.
pub proof fn lemma_parsed_is_ok(file: TemplateFileView)
    ensures
        lines(file.content).len() == 0 <==> file.content.len() == 0,
        parsed(file) is Ok <==> file.content.len() > 0 && trim(lines(file.content)[0]).len() > 0,
{
    if file.content.len() > 0 {
        crate::text::lemma_line_end_bounds(file.content, 0);
    }
}

/// Whether `entries` holds an entry for `key`.
pub open spec fn has_key(entries: Entries, key: Seq<char>) -> bool {
    exists|i: int| 0 <= i < entries.len() && (#[trigger] entries[i]).0 == key
}

/// The first of `wanted` for which `entries` holds no entry.
pub open spec fn first_missing(wanted: Seq<Seq<char>>, entries: Entries) -> Option<
    Seq<char>,
>
    decreases wanted.len(),
{
    if wanted.len() == 0 {
        None
    } else if !has_key(entries, wanted[0]) {
        Some(wanted[0])
    } else {
        first_missing(wanted.drop_first(), entries)
    }
}

/// The key of the first entry of `entries` whose key is none of `wanted`.
pub open spec fn first_unused(wanted: Seq<Seq<char>>, entries: Entries) -> Option<
    Seq<char>,
>
    decreases entries.len(),
{
    if entries.len() == 0 {
        None
    } else if !wanted.contains(entries[0].0) {
        Some(entries[0].0)
    } else {
        first_unused(wanted, entries.drop_first())
    }
}

/// What is said of a placeholder that has no parameter.
pub open spec fn missing_message(name: Seq<char>) -> Seq<char> {
    "Missing required parameter: "@ + name
}

/// What is said of a parameter that is no placeholder.
pub open spec fn unused_message(key: Seq<char>) -> Seq<char> {
    "Unused parameter: "@ + key
}

/// Whether the keys of `entries` are the placeholders of `content`, and
/// what is said where they are not: the first placeholder without a
/// parameter is named; where there is none, the first entry of `entries`
/// whose key is no placeholder.
pub open spec fn validation(content: Seq<char>, entries: Entries) -> Result<
    (),
    Seq<char>,
> {
    let wanted = placeholders(content);
    match first_missing(wanted, entries) {
        Some(name) => Err(missing_message(name)),
        None => match first_unused(wanted, entries) {
            Some(key) => Err(unused_message(key)),
            None => Ok(()),
        },
    }
}

/// What making a template from a file gives: the parameters are validated,
/// with the entries in the order `checked`; the file is parsed; the entries
/// are filled in, in the order `applied`.
pub open spec fn from_file(
    file: TemplateFileView,
    checked: Entries,
    applied: Entries,
) -> Result<IssueTemplateView, Seq<char>> {
    match validation(file.content, checked) {
        Err(message) => Err(message),
        Ok(_) => match parsed(file) {
            Err(message) => Err(message),
            Ok(template) => Ok(template.filled(applied)),
        },
    }
}

/// Whether `outcome` is what validating `params` against `content` gives,
/// with the entries listed in one of the orders in which they can be.
pub open spec fn validates_to(
    content: Seq<char>,
    params: Map<Seq<char>, Seq<char>>,
    outcome: Result<(), Seq<char>>,
) -> bool {
    exists|order: Entries|
        #![trigger lists(order, params)]
        lists(order, params) && outcome == validation(content, order)
}

/// Whether `outcome` is what making a template from `file` with `params`
/// gives, with the entries listed, for the validation and for the filling,
/// in one of the orders in which they can be.
pub open spec fn file_yields(
    file: TemplateFileView,
    params: Map<Seq<char>, Seq<char>>,
    outcome: Result<IssueTemplateView, Seq<char>>,
) -> bool {
    exists|checked: Entries, applied: Entries|
        #![trigger lists(checked, params), lists(applied, params)]
        lists(checked, params) && lists(applied, params) && outcome == from_file(
            file,
            checked,
            applied,
        )
}

/// The key of the first entry of `entries` whose key is none of `wanted`.
pub fn first_unused_key(wanted: &Vec<String>, entries: &Vec<(String, String)>) -> (r: Option<
    String,
>)
    ensures
        match r {
            Some(key) => first_unused(views(wanted@), entry_views(entries@)) == Some(key@),
            None => first_unused(views(wanted@), entry_views(entries@)) is None,
        },
{
    let mut i: usize = 0;
    assert(entry_views(entries@).skip(0) == entry_views(entries@));
    while i < entries.len()
        invariant
            i <= entries.len(),
            first_unused(views(wanted@), entry_views(entries@)) == first_unused(
                views(wanted@),
                entry_views(entries@).skip(i as int),
            ),
        decreases entries.len() - i,
    {
        let ghost rest = entry_views(entries@).skip(i as int);
        assert(rest.drop_first() == entry_views(entries@).skip(i + 1));
        if !contains_text(wanted, entries[i].0.as_str()) {
            return Some(entries[i].0.clone());
        }
        i += 1;
    }
    None
}

impl TemplateFile {
    /// A template file with `content` and no labels.
    pub fn new(content: &'static str) -> (r: Self)
        ensures
            r@ == (TemplateFileView { content: content@, labels: Seq::empty() }),
    {
        let r = TemplateFile { content, labels: Vec::new() };
        assert(views(r.labels@) == Seq::<Seq<char>>::empty());
        r
    }

    /// The same file with `labels` for its labels.
    pub fn with_labels(self, labels: Vec<String>) -> (r: Self)
        ensures
            r@ == (TemplateFileView { labels: views(labels@), ..self@ }),
    {
        TemplateFile { content: self.content, labels }
    }

    /// The template that the file holds.
    pub fn parse(&self) -> (r: Result<IssueTemplate, String>)
        ensures
            result_view(r) == parsed(self@),
    {
        let mut all = split_lines(self.content);
        if all.len() == 0 {
            return Err("Template file is empty".to_owned());
        }
        let title = trimmed(all[0].as_str());
        if title.as_str().is_empty() {
            return Err("Template must have a title on the first line".to_owned());
        }
        let body = if all.len() > 1 {
            let ghost before = views(all@);
            all.remove(0);
            assert(views(all@) == before.skip(1));
            let rest = joined(&all, "\n");
            proof {
                reveal_strlit("\n");
                assert("\n"@ == seq!['\n']);
            }
            trimmed(rest.as_str())
        } else {
            String::new()
        };
        Ok(IssueTemplate { title, body, labels: clone_list(&self.labels) })
    }

    /// Checks that the keys of `params` are the placeholders of the file's
    /// content, no more and no fewer.
    pub fn validate_params(&self, params: &FxHashMap<String, String>) -> (r: Result<(), String>)
        ensures
            validates_to(self@.content, params@, result_view(r)),
            r is Ok <==> params@.dom() =~= placeholders(self@.content).to_set(),
    {
        let wanted = extract_placeholders(self.content);
        let entries = params.entries();
        let ghost order = entry_views(entries@);
        let mut i: usize = 0;
        assert(views(wanted@).skip(0) == views(wanted@));
        while i < wanted.len()
            invariant
                i <= wanted.len(),
                lists(order, params@),
                views(wanted@) == placeholders(self@.content),
                first_missing(views(wanted@), order) == first_missing(
                    views(wanted@).skip(i as int),
                    order,
                ),
                forall|k: int| 0 <= k < i ==> params@.contains_key(#[trigger] views(wanted@)[k]),
            decreases wanted.len() - i,
        {
            let ghost rest = views(wanted@).skip(i as int);
            assert(rest.drop_first() == views(wanted@).skip(i + 1));
            proof {
                lemma_has_key(order, params@, wanted@[i as int]@);
            }
            if !params.contains_key(wanted[i].as_str()) {
                let message = followed("Missing required parameter: ", wanted[i].as_str());
                proof {
                    lemma_validation_ok(self@.content, order, params@);
                }
                return Err(message);
            }
            i += 1;
        }
        proof {
            lemma_validation_ok(self@.content, order, params@);
        }
        match first_unused_key(&wanted, &entries) {
            Some(key) => Err(followed("Unused parameter: ", key.as_str())),
            None => Ok(()),
        }
    }
}

impl IssueTemplate {
    /// The template that `file` holds, with the entries of `params` filled
    /// in, where the keys of `params` are the placeholders of the file's
    /// content.
    pub fn from_template_file(file: &TemplateFile, params: &FxHashMap<String, String>) -> (r:
        Result<IssueTemplate, String>)
        ensures
            file_yields(file@, params@, result_view(r)),
            r is Ok ==> params@.dom() =~= placeholders(file@.content).to_set(),
    {
        let checking = file.validate_params(params);
        let ghost checked = choose|order: Entries|
            #![trigger lists(order, params@)]
            lists(order, params@) && result_view(checking) == validation(file@.content, order);
        assert(lists(checked, params@));
        match checking {
            Err(message) => Err(message),
            Ok(_) => match file.parse() {
                Err(message) => Err(message),
                Ok(template) => {
                    let filled = template.fill_params(params);
                    proof {
                        let applied = choose|order: Entries|
                            #![trigger lists(order, params@)]
                            lists(order, params@) && filled@ == template@.filled(order);
                        assert(lists(applied, params@));
                    }
                    Ok(filled)
                },
            },
        }
    }
}

/// Parameters whose keys are the placeholders of the content pass
/// validation.
pub proof fn lemma_exact_params_pass(content: Seq<char>, entries: Entries)
    requires
        forall|key: Seq<char>| has_key(entries, key) <==> placeholders(content).contains(key),
    ensures
        validation(content, entries) is Ok,
{
    let wanted = placeholders(content);
    lemma_first_missing(wanted, entries);
    lemma_first_unused(wanted, entries);
}

/// Parameters that lack a placeholder of the content fail validation, and
/// the message names the first placeholder that they lack.
pub proof fn lemma_missing_param_fails(
    content: Seq<char>,
    entries: Entries,
    name: Seq<char>,
)
    requires
        placeholders(content).contains(name),
        !has_key(entries, name),
    ensures
        first_missing(placeholders(content), entries) is Some,
        validation(content, entries) == Err::<(), Seq<char>>(
            missing_message(first_missing(placeholders(content), entries)->0),
        ),
{
    let wanted = placeholders(content);
    lemma_first_missing(wanted, entries);
}

/// Parameters that hold a key that is no placeholder of the content fail
/// validation.
pub proof fn lemma_extra_param_fails(
    content: Seq<char>,
    entries: Entries,
    key: Seq<char>,
)
    requires
        has_key(entries, key),
        !placeholders(content).contains(key),
    ensures
        validation(content, entries) is Err,
{
    let wanted = placeholders(content);
    lemma_first_unused(wanted, entries);
}

/// A list of the entries of a map holds an entry for a key if and only if
/// the map does.
pub proof fn lemma_has_key(
    order: Entries,
    map: Map<Seq<char>, Seq<char>>,
    key: Seq<char>,
)
    requires
        lists(order, map),
    ensures
        has_key(order, key) <==> map.contains_key(key),
{
}

/// The parameters pass validation if and only if their keys are the
/// placeholders of the content.
pub proof fn lemma_validation_ok(
    content: Seq<char>,
    order: Entries,
    map: Map<Seq<char>, Seq<char>>,
)
    requires
        lists(order, map),
    ensures
        validation(content, order) is Ok <==> map.dom() =~= placeholders(content).to_set(),
{
    let wanted = placeholders(content);
    lemma_first_missing(wanted, order);
    lemma_first_unused(wanted, order);
    assert forall|key: Seq<char>| has_key(order, key) <==> map.contains_key(key) by {
        lemma_has_key(order, map, key);
    }
}

proof fn lemma_first_missing(wanted: Seq<Seq<char>>, entries: Entries)
    ensures
        first_missing(wanted, entries) is None <==> forall|k: int|
            0 <= k < wanted.len() ==> has_key(entries, #[trigger] wanted[k]),
        first_missing(wanted, entries) matches Some(name) ==> wanted.contains(name) && !has_key(
            entries,
            name,
        ),
    decreases wanted.len(),
{
    if wanted.len() > 0 {
        let rest = wanted.drop_first();
        lemma_first_missing(rest, entries);
        assert forall|k: int| 0 <= k < rest.len() implies rest[k] == wanted[k + 1] by {}
        if has_key(entries, wanted[0]) {
            if first_missing(rest, entries) is None {
                assert forall|k: int| 0 <= k < wanted.len() implies has_key(
                    entries,
                    #[trigger] wanted[k],
                ) by {
                    if k > 0 {
                        assert(has_key(entries, rest[k - 1]));
                    }
                }
            }
        }
    }
}

proof fn lemma_first_unused(wanted: Seq<Seq<char>>, entries: Entries)
    ensures
        first_unused(wanted, entries) is None <==> forall|i: int|
            0 <= i < entries.len() ==> wanted.contains((#[trigger] entries[i]).0),
        first_unused(wanted, entries) matches Some(key) ==> has_key(entries, key)
            && !wanted.contains(key),
    decreases entries.len(),
{
    if entries.len() > 0 {
        let rest = entries.drop_first();
        lemma_first_unused(wanted, rest);
        assert forall|i: int| 0 <= i < rest.len() implies rest[i] == entries[i + 1] by {}
        if wanted.contains(entries[0].0) {
            if first_unused(wanted, rest) is None {
                assert forall|i: int| 0 <= i < entries.len() implies wanted.contains(
                    (#[trigger] entries[i]).0,
                ) by {
                    if i > 0 {
                        assert(wanted.contains(rest[i - 1].0));
                    }
                }
            }
        }
    }
}

} // verus!
