use crate::template::{IssueTemplate, IssueTemplateView, TemplateFile, TemplateFileView};
use vstd::prelude::*;

verus! {

/// hashbrown's `HashMap` with the Fx hasher of rustc-hash. The map's type
/// is bounded by an allocator trait that Verus knows nothing of, so the map
/// is kept in a struct whose body Verus does not read. What a map holds is
/// named by `param_entries`, `template_entries` and `file_entries`.
#[derive(Debug)]
#[verifier::external_body]
#[verifier::reject_recursive_types(K)]
#[verifier::reject_recursive_types(V)]
pub struct FxHashMap<K, V> {
    map: hashbrown::HashMap<K, V, core::hash::BuildHasherDefault<rustc_hash::FxHasher>>,
}

/// The entries that hashbrown's map holds, for a map of parameters: the
/// value's text for each key's text.
pub uninterp spec fn param_entries(map: FxHashMap<String, String>) -> Map<Seq<char>, Seq<char>>;

/// The entries that hashbrown's map holds, for a map of templates: the
/// template for each name's text.
pub uninterp spec fn template_entries(map: FxHashMap<String, IssueTemplate>) -> Map<
    Seq<char>,
    IssueTemplateView,
>;

/// The entries that hashbrown's map holds, for a map of template files:
/// the file for each name's text.
pub uninterp spec fn file_entries(map: FxHashMap<String, TemplateFile>) -> Map<
    Seq<char>,
    TemplateFileView,
>;

impl View for FxHashMap<String, String> {
    type V = Map<Seq<char>, Seq<char>>;

    open spec fn view(&self) -> Map<Seq<char>, Seq<char>> {
        param_entries(*self)
    }
}

/// A list of entries: pairs of a key's text and a value's text.
pub type Entries = Seq<(Seq<char>, Seq<char>)>;

/// The texts of a list of pairs of strings.
pub open spec fn entry_views(list: Seq<(String, String)>) -> Entries {
    Seq::new(list.len(), |i: int| (list[i].0@, list[i].1@))
}

/// Whether `list` holds each entry of `map` once, in whatever order, and
/// nothing else.
pub open spec fn lists(list: Entries, map: Map<Seq<char>, Seq<char>>) -> bool {
    &&& forall|i: int| 0 <= i < list.len() ==> map.contains_pair((#[trigger] list[i]).0, list[i].1)
    &&& forall|i: int, j: int|
        0 <= i < j < list.len() ==> (#[trigger] list[i]).0 != (#[trigger] list[j]).0
    &&& forall|key: Seq<char>| #[trigger]
        map.contains_key(key) ==> exists|i: int| 0 <= i < list.len() && (#[trigger] list[i]).0 == key
}

/// `HashMap::default` of hashbrown makes an empty map.
#[verifier::external_body]
fn params_new() -> (r: FxHashMap<String, String>)
    ensures
        (param_entries(r) == Map::<Seq<char>, Seq<char>>::empty()),
{
    FxHashMap { map: hashbrown::HashMap::default() }
}

/// `HashMap::insert` of hashbrown sets the value of `key` to `value`, and
/// returns the value that `key` had, if it had one. No other entry changes.
#[verifier::external_body]
fn params_insert(map: &mut FxHashMap<String, String>, key: String, value: String) -> (before:
    Option<String>)
    ensures
        param_entries(*final(map)) == param_entries(*old(map)).insert(key@, value@),
        match before {
            Some(v) => param_entries(*old(map)).contains_key(key@) && v@ == param_entries(
                *old(map),
            )[key@],
            None => !param_entries(*old(map)).contains_key(key@),
        },
{
    map.map.insert(key, value)
}

/// `HashMap::contains_key` of hashbrown says whether the map has an entry
/// for `key`.
#[verifier::external_body]
fn params_contains_key(map: &FxHashMap<String, String>, key: &str) -> (r: bool)
    ensures
        r == param_entries(*map).contains_key(key@),
{
    map.map.contains_key(key)
}

/// `HashMap::iter` of hashbrown visits each entry once, in an order of its
/// own; the entries are handed out as copies.
#[verifier::external_body]
fn params_iter(map: &FxHashMap<String, String>) -> (list: Vec<(String, String)>)
    ensures
        lists(entry_views(list@), param_entries(*map)),
{
    map.map.iter().map(|(key, value)| (key.clone(), value.clone())).collect()
}

impl FxHashMap<String, String> {
    /// Sets the value of `key` to `value`, and returns the value that `key`
    /// had before.
    pub fn insert(&mut self, key: String, value: String) -> (before: Option<String>)
        ensures
            final(self)@ == old(self)@.insert(key@, value@),
            match before {
                Some(v) => old(self)@.contains_key(key@) && v@ == old(self)@[key@],
                None => !old(self)@.contains_key(key@),
            },
    {
        params_insert(self, key, value)
    }

    /// Whether the map has an entry for `key`.
    pub fn contains_key(&self, key: &str) -> (r: bool)
        ensures
            r == self@.contains_key(key@),
    {
        params_contains_key(self, key)
    }

    /// The entries of the map, each once, in an order that the map chooses.
    pub fn entries(&self) -> (list: Vec<(String, String)>)
        ensures
            lists(entry_views(list@), self@),
    {
        params_iter(self)
    }
}

impl Default for FxHashMap<String, String> {
    fn default() -> (map: Self)
        ensures
            map@ == Map::<Seq<char>, Seq<char>>::empty(),
    {
        params_new()
    }
}

/// `HashMap::default` of hashbrown makes an empty map.
#[verifier::external_body]
fn templates_new() -> (r: FxHashMap<String, IssueTemplate>)
    ensures
        (template_entries(r) == Map::<Seq<char>, IssueTemplateView>::empty()),
{
    FxHashMap { map: hashbrown::HashMap::default() }
}

/// `HashMap::insert` of hashbrown sets the value of `key` to `value`, and
/// returns the value that `key` had, if it had one. No other entry changes.
#[verifier::external_body]
fn templates_insert(
    map: &mut FxHashMap<String, IssueTemplate>,
    key: String,
    value: IssueTemplate,
) -> (before: Option<IssueTemplate>)
    ensures
        template_entries(*final(map)) == template_entries(*old(map)).insert(key@, value@),
        match before {
            Some(v) => template_entries(*old(map)).contains_key(key@) && v@ == template_entries(
                *old(map),
            )[key@],
            None => !template_entries(*old(map)).contains_key(key@),
        },
{
    map.map.insert(key, value)
}

/// `HashMap::get` of hashbrown hands out the value of `key`, if the map has
/// an entry for it.
#[verifier::external_body]
fn templates_get<'a>(map: &'a FxHashMap<String, IssueTemplate>, key: &str) -> (r: Option<
    &'a IssueTemplate,
>)
    ensures
        match r {
            Some(v) => template_entries(*map).contains_key(key@) && v@ == template_entries(
                *map,
            )[key@],
            None => !template_entries(*map).contains_key(key@),
        },
{
    map.map.get(key)
}

/// `HashMap::clone` of hashbrown makes a map of its own with a copy of
/// each entry.
#[verifier::external_body]
fn templates_clone(map: &FxHashMap<String, IssueTemplate>) -> (r: FxHashMap<String, IssueTemplate>)
    ensures
        template_entries(r) == template_entries(*map),
{
    FxHashMap { map: map.map.clone() }
}

impl View for FxHashMap<String, IssueTemplate> {
    type V = Map<Seq<char>, IssueTemplateView>;

    open spec fn view(&self) -> Map<Seq<char>, IssueTemplateView> {
        template_entries(*self)
    }
}

impl FxHashMap<String, IssueTemplate> {
    /// Sets the value of `key` to `value`, and returns the value that `key`
    /// had before.
    pub fn insert(&mut self, key: String, value: IssueTemplate) -> (before: Option<IssueTemplate>)
        ensures
            final(self)@ == old(self)@.insert(key@, value@),
            match before {
                Some(v) => old(self)@.contains_key(key@) && v@ == old(self)@[key@],
                None => !old(self)@.contains_key(key@),
            },
    {
        templates_insert(self, key, value)
    }

    /// The value of `key`, if the map has an entry for it.
    pub fn get(&self, key: &str) -> (r: Option<&IssueTemplate>)
        ensures
            match r {
                Some(v) => self@.contains_key(key@) && v@ == self@[key@],
                None => !self@.contains_key(key@),
            },
    {
        templates_get(self, key)
    }
}

impl Clone for FxHashMap<String, IssueTemplate> {
    fn clone(&self) -> (r: Self)
        ensures
            r@ == self@,
    {
        templates_clone(self)
    }
}

impl Default for FxHashMap<String, IssueTemplate> {
    fn default() -> (map: Self)
        ensures
            map@ == Map::<Seq<char>, IssueTemplateView>::empty(),
    {
        templates_new()
    }
}

/// `HashMap::default` of hashbrown makes an empty map.
#[verifier::external_body]
fn files_new() -> (r: FxHashMap<String, TemplateFile>)
    ensures
        (file_entries(r) == Map::<Seq<char>, TemplateFileView>::empty()),
{
    FxHashMap { map: hashbrown::HashMap::default() }
}

/// `HashMap::insert` of hashbrown sets the value of `key` to `value`, and
/// returns the value that `key` had, if it had one. No other entry changes.
#[verifier::external_body]
fn files_insert(map: &mut FxHashMap<String, TemplateFile>, key: String, value: TemplateFile) -> (before:
    Option<TemplateFile>)
    ensures
        file_entries(*final(map)) == file_entries(*old(map)).insert(key@, value@),
        match before {
            Some(v) => file_entries(*old(map)).contains_key(key@) && v@ == file_entries(
                *old(map),
            )[key@],
            None => !file_entries(*old(map)).contains_key(key@),
        },
{
    map.map.insert(key, value)
}

/// `HashMap::get` of hashbrown hands out the value of `key`, if the map has
/// an entry for it.
#[verifier::external_body]
fn files_get<'a>(map: &'a FxHashMap<String, TemplateFile>, key: &str) -> (r: Option<
    &'a TemplateFile,
>)
    ensures
        match r {
            Some(v) => file_entries(*map).contains_key(key@) && v@ == file_entries(*map)[key@],
            None => !file_entries(*map).contains_key(key@),
        },
{
    map.map.get(key)
}

/// `HashMap::clone` of hashbrown makes a map of its own with a copy of
/// each entry.
#[verifier::external_body]
fn files_clone(map: &FxHashMap<String, TemplateFile>) -> (r: FxHashMap<String, TemplateFile>)
    ensures
        file_entries(r) == file_entries(*map),
{
    FxHashMap { map: map.map.clone() }
}

impl View for FxHashMap<String, TemplateFile> {
    type V = Map<Seq<char>, TemplateFileView>;

    open spec fn view(&self) -> Map<Seq<char>, TemplateFileView> {
        file_entries(*self)
    }
}

impl FxHashMap<String, TemplateFile> {
    /// Sets the value of `key` to `value`, and returns the value that `key`
    /// had before.
    pub fn insert(&mut self, key: String, value: TemplateFile) -> (before: Option<TemplateFile>)
        ensures
            final(self)@ == old(self)@.insert(key@, value@),
            match before {
                Some(v) => old(self)@.contains_key(key@) && v@ == old(self)@[key@],
                None => !old(self)@.contains_key(key@),
            },
    {
        files_insert(self, key, value)
    }

    /// The value of `key`, if the map has an entry for it.
    pub fn get(&self, key: &str) -> (r: Option<&TemplateFile>)
        ensures
            match r {
                Some(v) => self@.contains_key(key@) && v@ == self@[key@],
                None => !self@.contains_key(key@),
            },
    {
        files_get(self, key)
    }
}

impl Clone for FxHashMap<String, TemplateFile> {
    fn clone(&self) -> (r: Self)
        ensures
            r@ == self@,
    {
        files_clone(self)
    }
}

impl Default for FxHashMap<String, TemplateFile> {
    fn default() -> (map: Self)
        ensures
            map@ == Map::<Seq<char>, TemplateFileView>::empty(),
    {
        files_new()
    }
}

} // verus!
