use crate::map::{lists, Entries, FxHashMap};
use crate::template::{
    from_file, IssueTemplate, IssueTemplateView, TemplateFile, TemplateFileView,
};
use crate::text::{followed, join, joined, matches_at, occurs_in, result_view, views};
use crate::url_encode::{encode, encode_text};
use vstd::prelude::*;

verus! {

/// When a link is written as a terminal hyperlink.
#[derive(Debug, Clone, Copy, PartialEq, Eq)]
pub enum HyperlinkMode {
    /// Where the terminal is known to take hyperlinks.
    Auto,
    /// Always.
    Always,
    /// Never.
    Never,
}

/// A configuration: the repository that issues go to, the templates and the
/// template files by name, and when links are written as hyperlinks.
#[derive(Debug)]
pub struct BugReportConfig {
    pub github_owner: String,
    pub github_repo: String,
    pub templates: FxHashMap<String, IssueTemplate>,
    pub template_files: FxHashMap<String, TemplateFile>,
    pub use_hyperlinks: HyperlinkMode,
}

/// What a configuration holds, as texts and maps.
pub struct ConfigView {
    pub github_owner: Seq<char>,
    pub github_repo: Seq<char>,
    pub templates: Map<Seq<char>, IssueTemplateView>,
    pub template_files: Map<Seq<char>, TemplateFileView>,
    pub use_hyperlinks: HyperlinkMode,
}

impl View for BugReportConfig {
    type V = ConfigView;

    open spec fn view(&self) -> ConfigView {
        ConfigView {
            github_owner: self.github_owner@,
            github_repo: self.github_repo@,
            templates: self.templates@,
            template_files: self.template_files@,
            use_hyperlinks: self.use_hyperlinks,
        }
    }
}

impl ConfigView {
    /// Whether the configuration has a template or a template file of this
    /// name.
    pub open spec fn has_template(self, name: Seq<char>) -> bool {
        self.templates.contains_key(name) || self.template_files.contains_key(name)
    }
}

/// The parameters of the query of an issue's URL: the title, the body and
/// the labels, in this order, each encoded, and each only where it is not
/// empty. The labels are joined by commas before they are encoded.
pub open spec fn query_parts(template: IssueTemplateView) -> Seq<Seq<char>> {
    let title = if template.title.len() > 0 {
        seq!["title="@ + encode_text(template.title)]
    } else {
        Seq::empty()
    };
    let body = if template.body.len() > 0 {
        seq!["body="@ + encode_text(template.body)]
    } else {
        Seq::empty()
    };
    let labels = if template.labels.len() > 0 {
        seq!["labels="@ + encode_text(join(template.labels, seq![',']))]
    } else {
        Seq::empty()
    };
    title + body + labels
}

/// The URL that opens a new issue of the repository with what `template`
/// holds. Without a parameter the URL has no query.
pub open spec fn issue_url(owner: Seq<char>, repo: Seq<char>, template: IssueTemplateView) -> Seq<
    char,
> {
    let base = "https://github.com/"@ + owner + "/"@ + repo + "/issues/new"@;
    let parts = query_parts(template);
    if parts.len() == 0 {
        base
    } else {
        base + "?"@ + join(parts, "&"@)
    }
}

/// What is said of a name that is the name of no template.
pub open spec fn not_found_message(name: Seq<char>) -> Seq<char> {
    "Template '"@ + name + "' not found"@
}

/// What asking a configuration for the URL of the template `name` gives. A
/// template is looked for first among the templates, then among the
/// template files. A template file is validated with the entries in the
/// order `checked`; the entries are filled in, in the order `applied`.
pub open spec fn url_outcome(
    config: ConfigView,
    name: Seq<char>,
    checked: Entries,
    applied: Entries,
) -> Result<Seq<char>, Seq<char>> {
    if config.templates.contains_key(name) {
        Ok(issue_url(config.github_owner, config.github_repo, config.templates[name].filled(applied)))
    } else if config.template_files.contains_key(name) {
        match from_file(config.template_files[name], checked, applied) {
            Ok(template) => Ok(issue_url(config.github_owner, config.github_repo, template)),
            Err(message) => Err(message),
        }
    } else {
        Err(not_found_message(name))
    }
}

impl ConfigView {
    /// Whether `outcome` is what asking the configuration for the URL of
    /// the template `name` with `params` gives. Where the configuration
    /// has the template, the entries are listed, for the validation and for
    /// the filling, in one of the orders in which they can be.
    pub open spec fn yields_url(
        self,
        name: Seq<char>,
        params: Map<Seq<char>, Seq<char>>,
        outcome: Result<Seq<char>, Seq<char>>,
    ) -> bool {
        if self.has_template(name) {
            exists|checked: Entries, applied: Entries|
                #![trigger lists(checked, params), lists(applied, params)]
                lists(checked, params) && lists(applied, params) && outcome == url_outcome(
                    self,
                    name,
                    checked,
                    applied,
                )
        } else {
            outcome == Err::<Seq<char>, Seq<char>>(not_found_message(name))
        }
    }
}

/// The URL that opens a new issue of the repository `owner`/`repo` with the
/// title, the body and the labels of `template`.
pub fn build_issue_url(owner: &str, repo: &str, template: &IssueTemplate) -> (url: String)
    ensures
        url@ == issue_url(owner@, repo@, template@),
{
    let mut url = followed("https://github.com/", owner);
    url.append("/");
    url.append(repo);
    url.append("/issues/new");
    let mut parts: Vec<String> = Vec::new();
    let ghost mut shown: Seq<Seq<char>> = Seq::empty();
    if !template.title.as_str().is_empty() {
        let encoded = encode(template.title.as_str());
        parts.push(followed("title=", encoded.as_str()));
        proof {
            shown = shown.push("title="@ + encode_text(template@.title));
        }
        assert(views(parts@) == shown);
    }
    if !template.body.as_str().is_empty() {
        let encoded = encode(template.body.as_str());
        parts.push(followed("body=", encoded.as_str()));
        proof {
            shown = shown.push("body="@ + encode_text(template@.body));
        }
        assert(views(parts@) == shown);
    }
    if template.labels.len() > 0 {
        let labels = joined(&template.labels, ",");
        let encoded = encode(labels.as_str());
        parts.push(followed("labels=", encoded.as_str()));
        proof {
            reveal_strlit(",");
            assert(","@ == seq![',']);
            shown = shown.push("labels="@ + encode_text(join(template@.labels, seq![','])));
        }
        assert(views(parts@) == shown);
    }
    assert(shown == query_parts(template@));
    if parts.len() > 0 {
        url.append("?");
        let query = joined(&parts, "&");
        url.append(query.as_str());
    }
    url
}

impl BugReportConfig {
    /// The URL of the template `template_name` with the entries of `params`
    /// filled in. A template is looked for first among the templates, then
    /// among the template files, whose parameters are validated.
    pub fn generate_url(&self, template_name: &str, params: &FxHashMap<String, String>) -> (r:
        Result<String, String>)
        ensures
            self@.yields_url(template_name@, params@, result_view(r)),
    {
        let filled = match self.templates.get(template_name) {
            Some(template) => {
                let filled = template.fill_params(params);
                proof {
                    let applied = choose|order: Entries|
                        #![trigger lists(order, params@)]
                        lists(order, params@) && filled@ == template@.filled(order);
                    assert(lists(applied, params@));
                }
                filled
            },
            None => match self.template_files.get(template_name) {
                Some(file) => match IssueTemplate::from_template_file(file, params) {
                    Ok(filled) => filled,
                    Err(message) => {
                        return Err(message);
                    },
                },
                None => {
                    let mut message = followed("Template '", template_name);
                    message.append("' not found");
                    return Err(message);
                },
            },
        };
        Ok(build_issue_url(self.github_owner.as_str(), self.github_repo.as_str(), &filled))
    }
}

impl ConfigView {
    /// The configuration of the repository `owner`/`repo` that a builder
    /// starts from: no template, no template file, hyperlinks where the
    /// terminal takes them.
    pub open spec fn initial(owner: Seq<char>, repo: Seq<char>) -> ConfigView {
        ConfigView {
            github_owner: owner,
            github_repo: repo,
            templates: Map::empty(),
            template_files: Map::empty(),
            use_hyperlinks: HyperlinkMode::Auto,
        }
    }

    /// The configuration with `template` under `name`, in place of the
    /// template that had this name, if one had.
    pub open spec fn with_template(self, name: Seq<char>, template: IssueTemplateView) -> ConfigView {
        ConfigView { templates: self.templates.insert(name, template), ..self }
    }

    /// The configuration with `file` under `name`, in place of the template
    /// file that had this name, if one had.
    pub open spec fn with_template_file(self, name: Seq<char>, file: TemplateFileView) -> ConfigView {
        ConfigView { template_files: self.template_files.insert(name, file), ..self }
    }

    /// The configuration with `mode` for its hyperlinks.
    pub open spec fn with_hyperlinks(self, mode: HyperlinkMode) -> ConfigView {
        ConfigView { use_hyperlinks: mode, ..self }
    }
}

impl BugReportConfig {
    fn new(github_owner: String, github_repo: String) -> (r: Self)
        ensures
            r@ == ConfigView::initial(github_owner@, github_repo@),
    {
        BugReportConfig {
            github_owner,
            github_repo,
            templates: FxHashMap::default(),
            template_files: FxHashMap::default(),
            use_hyperlinks: HyperlinkMode::Auto,
        }
    }

    fn add_template(self, name: &str, template: IssueTemplate) -> (r: Self)
        ensures
            r@ == self@.with_template(name@, template@),
    {
        let mut templates = self.templates;
        templates.insert(name.to_owned(), template);
        BugReportConfig {
            github_owner: self.github_owner,
            github_repo: self.github_repo,
            templates,
            template_files: self.template_files,
            use_hyperlinks: self.use_hyperlinks,
        }
    }

    fn add_template_file(self, name: &str, file: TemplateFile) -> (r: Self)
        ensures
            r@ == self@.with_template_file(name@, file@),
    {
        let mut template_files = self.template_files;
        template_files.insert(name.to_owned(), file);
        BugReportConfig {
            github_owner: self.github_owner,
            github_repo: self.github_repo,
            templates: self.templates,
            template_files,
            use_hyperlinks: self.use_hyperlinks,
        }
    }

    fn hyperlinks(self, mode: HyperlinkMode) -> (r: Self)
        ensures
            r@ == self@.with_hyperlinks(mode),
    {
        BugReportConfig {
            github_owner: self.github_owner,
            github_repo: self.github_repo,
            templates: self.templates,
            template_files: self.template_files,
            use_hyperlinks: mode,
        }
    }
}

impl Clone for BugReportConfig {
    fn clone(&self) -> (r: Self)
        ensures
            r@ == self@,
    {
        BugReportConfig {
            github_owner: self.github_owner.clone(),
            github_repo: self.github_repo.clone(),
            templates: self.templates.clone(),
            template_files: self.template_files.clone(),
            use_hyperlinks: self.use_hyperlinks,
        }
    }
}

/// A template that is added to a copy of a configuration is in the copy
/// alone: the copy holds it under its name, and else what the original
/// holds; the original holds what it held.
pub proof fn lemma_copy_is_independent(
    original: ConfigView,
    copy: ConfigView,
    name: Seq<char>,
    template: IssueTemplateView,
)
    requires
        copy == original,
    ensures
        copy.with_template(name, template).templates.contains_key(name),
        copy.with_template(name, template).templates[name] == template,
        forall|other: Seq<char>|
            other != name ==> (#[trigger] copy.with_template(
                name,
                template,
            ).templates.contains_key(other) <==> original.templates.contains_key(other)),
        forall|other: Seq<char>|
            other != name && #[trigger] original.templates.contains_key(other)
                ==> copy.with_template(name, template).templates[other]
                == original.templates[other],
        copy.with_template(name, template).template_files == original.template_files,
        !original.templates.contains_key(name) ==> original.templates != copy.with_template(
            name,
            template,
        ).templates,
{
}

/// The message for a name that is the name of no template holds the name.
pub proof fn lemma_not_found_message_holds_name(name: Seq<char>)
    ensures
        occurs_in(name, not_found_message(name)),
{
    let message = not_found_message(name);
    let at = "Template '"@.len() as int;
    assert(message.subrange(at, at + name.len()) == name);
    assert(matches_at(message, at, name));
}

/// The place of the one configuration that a process shares: empty at
/// first, it takes a configuration once and keeps it.
#[derive(Debug)]
pub struct ConfigRegistry {
    committed: Option<BugReportConfig>,
}

impl View for ConfigRegistry {
    type V = Option<ConfigView>;

    closed spec fn view(&self) -> Option<ConfigView> {
        match self.committed {
            Some(config) => Some(config@),
            None => None,
        }
    }
}

/// What a registry holds after an attempt to commit `candidate`: the
/// candidate where it was empty, and else what it held.
pub open spec fn after_commit(before: Option<ConfigView>, candidate: ConfigView) -> Option<
    ConfigView,
> {
    match before {
        Some(kept) => Some(kept),
        None => Some(candidate),
    }
}

/// What is said of an attempt to commit a second configuration.
pub open spec fn already_initialized_message() -> Seq<char> {
    "Bug reporting already initialized"@
}

/// What is said where a URL is asked of a registry that holds no
/// configuration.
pub open spec fn not_initialized_message() -> Seq<char> {
    "Bug reporting not initialized. Call bug_rs::init() first."@
}

impl ConfigRegistry {
    /// An empty registry.
    pub fn new() -> (r: Self)
        ensures
            r@ is None,
    {
        ConfigRegistry { committed: None }
    }

    /// Commits `config` where the registry is empty. Where it is not, the
    /// attempt fails and the registry keeps what it holds.
    pub fn commit(&mut self, config: BugReportConfig) -> (r: Result<(), &'static str>)
        ensures
            final(self)@ == after_commit(old(self)@, config@),
            r is Ok <==> old(self)@ is None,
            r matches Err(message) ==> message@ == already_initialized_message(),
    {
        if self.committed.is_some() {
            Err("Bug reporting already initialized")
        } else {
            self.committed = Some(config);
            Ok(())
        }
    }

    /// The configuration that the registry holds, if it holds one.
    pub fn get(&self) -> (r: Option<&BugReportConfig>)
        ensures
            match r {
                Some(config) => self@ == Some(config@),
                None => self@ is None,
            },
    {
        self.committed.as_ref()
    }
}

/// Of two attempts to commit a configuration to an empty registry, one
/// after the other, the first succeeds and the second fails, and the
/// registry then holds the first configuration.
pub proof fn lemma_commit_once(first: ConfigView, second: ConfigView)
    ensures
        after_commit(None, first) == Some(first),
        after_commit(after_commit(None, first), second) == Some(first),
{
}

/// A registry that holds a configuration keeps it, whatever is committed.
pub proof fn lemma_commit_keeps(held: ConfigView, candidate: ConfigView)
    ensures
        after_commit(Some(held), candidate) == Some(held),
{
}

/// Builds the configuration that a process shares.
#[derive(Debug)]
pub struct BugReportConfigBuilder {
    config: BugReportConfig,
}

impl View for BugReportConfigBuilder {
    type V = ConfigView;

    closed spec fn view(&self) -> ConfigView {
        self.config@
    }
}

impl BugReportConfigBuilder {
    fn new(github_owner: String, github_repo: String) -> (r: Self)
        ensures
            r@ == ConfigView::initial(github_owner@, github_repo@),
    {
        BugReportConfigBuilder { config: BugReportConfig::new(github_owner, github_repo) }
    }

    /// Puts `template` under `name`.
    pub fn add_template(self, name: &str, template: IssueTemplate) -> (r: Self)
        ensures
            r@ == self@.with_template(name@, template@),
    {
        BugReportConfigBuilder { config: self.config.add_template(name, template) }
    }

    /// Puts `template_file` under `name`.
    pub fn add_template_file(self, name: &str, template_file: TemplateFile) -> (r: Self)
        ensures
            r@ == self@.with_template_file(name@, template_file@),
    {
        BugReportConfigBuilder { config: self.config.add_template_file(name, template_file) }
    }

    /// Says when links are written as hyperlinks.
    pub fn hyperlinks(self, mode: HyperlinkMode) -> (r: Self)
        ensures
            r@ == self@.with_hyperlinks(mode),
    {
        BugReportConfigBuilder { config: self.config.hyperlinks(mode) }
    }

    /// Commits the configuration to `registry`. This succeeds once for a
    /// registry: a later attempt fails and changes nothing.
    pub fn build(self, registry: &mut ConfigRegistry) -> (r: Result<(), &'static str>)
        ensures
            final(registry)@ == after_commit(old(registry)@, self@),
            r is Ok <==> old(registry)@ is None,
            r matches Err(message) ==> message@ == already_initialized_message(),
    {
        registry.commit(self.config)
    }
}

/// A configuration that its owner keeps and may copy: each copy is a
/// configuration of its own.
#[derive(Debug)]
pub struct BugReportHandle {
    config: BugReportConfig,
}

impl View for BugReportHandle {
    type V = ConfigView;

    closed spec fn view(&self) -> ConfigView {
        self.config@
    }
}

impl Clone for BugReportHandle {
    fn clone(&self) -> (r: Self)
        ensures
            r@ == self@,
    {
        BugReportHandle { config: self.config.clone() }
    }
}

impl BugReportHandle {
    fn new(github_owner: String, github_repo: String) -> (r: Self)
        ensures
            r@ == ConfigView::initial(github_owner@, github_repo@),
    {
        BugReportHandle { config: BugReportConfig::new(github_owner, github_repo) }
    }

    /// Puts `template` under `name`.
    pub fn add_template(self, name: &str, template: IssueTemplate) -> (r: Self)
        ensures
            r@ == self@.with_template(name@, template@),
    {
        BugReportHandle { config: self.config.add_template(name, template) }
    }

    /// Puts `template_file` under `name`.
    pub fn add_template_file(self, name: &str, template_file: TemplateFile) -> (r: Self)
        ensures
            r@ == self@.with_template_file(name@, template_file@),
    {
        BugReportHandle { config: self.config.add_template_file(name, template_file) }
    }

    /// Says when links are written as hyperlinks.
    pub fn hyperlinks(self, mode: HyperlinkMode) -> (r: Self)
        ensures
            r@ == self@.with_hyperlinks(mode),
    {
        BugReportHandle { config: self.config.hyperlinks(mode) }
    }

    /// The URL of the template `template_name` with the entries of `params`
    /// filled in. A template is looked for first among the templates, then
    /// among the template files, whose parameters are validated.
    pub fn generate_url(&self, template_name: &str, params: &FxHashMap<String, String>) -> (r:
        Result<String, String>)
        ensures
            self@.yields_url(template_name@, params@, result_view(r)),
    {
        self.config.generate_url(template_name, params)
    }

    /// The configuration.
    pub fn config(&self) -> (r: &BugReportConfig)
        ensures
            r@ == self@,
    {
        &self.config
    }
}

/// A builder for the configuration of the repository
/// `github_owner`/`github_repo` that a process shares.
pub fn init(github_owner: &str, github_repo: &str) -> (r: BugReportConfigBuilder)
    ensures
        r@ == ConfigView::initial(github_owner@, github_repo@),
{
    BugReportConfigBuilder::new(github_owner.to_owned(), github_repo.to_owned())
}

/// A handle for the repository `github_owner`/`github_repo`.
pub fn init_handle(github_owner: &str, github_repo: &str) -> (r: BugReportHandle)
    ensures
        r@ == ConfigView::initial(github_owner@, github_repo@),
{
    BugReportHandle::new(github_owner.to_owned(), github_repo.to_owned())
}

/// The URL of the template `template_name` of the configuration that
/// `registry` holds, with the entries of `params` filled in.
pub fn generate_github_url(
    registry: &ConfigRegistry,
    template_name: &str,
    params: &FxHashMap<String, String>,
) -> (r: Result<String, String>)
    ensures
        registry@ is None ==> result_view(r) == Err::<Seq<char>, Seq<char>>(
            not_initialized_message(),
        ),
        registry@ matches Some(config) ==> config.yields_url(
            template_name@,
            params@,
            result_view(r),
        ),
{
    match registry.get() {
        None => Err("Bug reporting not initialized. Call bug_rs::init() first.".to_owned()),
        Some(config) => config.generate_url(template_name, params),
    }
}

/// When links are written as hyperlinks by the configuration that
/// `registry` holds: never, where it holds none.
pub fn get_hyperlink_mode(registry: &ConfigRegistry) -> (mode: HyperlinkMode)
    ensures
        mode == match registry@ {
            Some(config) => config.use_hyperlinks,
            None => HyperlinkMode::Never,
        },
{
    match registry.get() {
        Some(config) => config.use_hyperlinks,
        None => HyperlinkMode::Never,
    }
}

} // verus!
