use crate::config::{BugReportHandle, HyperlinkMode};
use crate::map::{entry_views, Entries, FxHashMap};
use crate::text::{
    contains, decimal, followed, occurs_in, push_decimal, result_view, same_text,
};
use vstd::prelude::*;

verus! {

/// `fmt::Arguments` of std: formatted text before it is rendered. The
/// library hands it on and never looks inside.
#[verifier::external_type_specification]
#[verifier::external_body]
pub struct ExArguments<'a>(core::fmt::Arguments<'a>);

/// A sink for diagnostic text. The library hands it text and never looks
/// at what it does with it.
pub trait Output {
    /// Takes a piece of text as it is.
    fn write_str(&mut self, s: &str);

    /// Takes a formatted piece of text.
    fn write_fmt(&mut self, args: core::fmt::Arguments);
}

/// A sink that drops what it is given.
pub struct NoOutput;

impl Output for NoOutput {
    fn write_str(&mut self, _s: &str) {
    }

    fn write_fmt(&mut self, _args: core::fmt::Arguments) {
    }
}

/// `format_args!` of std makes the arguments that render as `text`; they
/// are handed to the sink's `write_fmt`, of which nothing is known.
#[verifier::external_body]
fn write_formatted<O: Output + ?Sized>(output: &mut O, text: &str) {
    write!(output, "{}", text)
}

/// The text that a terminal shows as `text` and opens as `url`.
pub open spec fn terminal_hyperlink(url: Seq<char>, text: Seq<char>) -> Seq<char> {
    "\x1b]8;;"@ + url + "\x1b\\"@ + text + "\x1b]8;;\x1b\\"@
}

/// The text that a terminal shows as `text` and opens as `url`.
pub fn create_terminal_hyperlink(url: &str, text: &str) -> (r: String)
    ensures
        r@ == terminal_hyperlink(url@, text@),
{
    let mut r = followed("\x1b]8;;", url);
    r.append("\x1b\\");
    r.append(text);
    r.append("\x1b]8;;\x1b\\");
    r
}

/// Whether a terminal is known to take hyperlinks, by what its environment
/// says of it: the terminal's type names `xterm`, `screen` or `tmux`; the
/// terminal program is one of four; or the terminal is that of VS Code.
pub open spec fn terminal_takes_hyperlinks(
    term: Option<Seq<char>>,
    term_program: Option<Seq<char>>,
    vscode_injection: bool,
) -> bool {
    ||| term matches Some(t) && (occurs_in("xterm"@, t) || occurs_in("screen"@, t) || occurs_in(
        "tmux"@,
        t,
    ))
    ||| term_program matches Some(p) && (p == "iTerm.app"@ || p == "WezTerm"@ || p == "Alacritty"@
        || p == "Windows Terminal"@)
    ||| vscode_injection
}

/// The text of an optional string slice.
pub open spec fn text_of(s: Option<&str>) -> Option<Seq<char>> {
    match s {
        Some(s) => Some(s@),
        None => None,
    }
}

/// Whether the terminal is known to take hyperlinks. `term` is the
/// terminal's type and `term_program` the terminal program, where the
/// environment names them; `vscode_injection` says whether the environment
/// marks the terminal of VS Code.
pub fn supports_hyperlinks(term: Option<&str>, term_program: Option<&str>, vscode_injection: bool) -> (r:
    bool)
    ensures
        r == terminal_takes_hyperlinks(text_of(term), text_of(term_program), vscode_injection),
{
    if let Some(t) = term {
        if contains(t, "xterm") || contains(t, "screen") || contains(t, "tmux") {
            return true;
        }
    }
    if let Some(p) = term_program {
        if same_text(p, "iTerm.app") || same_text(p, "WezTerm") || same_text(p, "Alacritty")
            || same_text(p, "Windows Terminal") {
            return true;
        }
    }
    vscode_injection
}

/// Whether a link is written as a hyperlink, by the mode and by whether
/// the terminal is known to take hyperlinks.
pub open spec fn uses_hyperlink(mode: HyperlinkMode, terminal: bool) -> bool {
    match mode {
        HyperlinkMode::Auto => terminal,
        HyperlinkMode::Always => true,
        HyperlinkMode::Never => false,
    }
}

/// Whether a link is written as a hyperlink, by the mode and by whether
/// the terminal is known to take hyperlinks.
pub fn use_hyperlink(mode: HyperlinkMode, terminal: bool) -> (r: bool)
    ensures
        r == uses_hyperlink(mode, terminal),
{
    match mode {
        HyperlinkMode::Auto => terminal,
        HyperlinkMode::Always => true,
        HyperlinkMode::Never => false,
    }
}

/// One piece of a report, as the sink gets it.
pub enum Piece {
    /// Text that is written as it is.
    Text(String),
    /// A line that is written formatted.
    Line(String),
}

/// One piece of a report, as text.
pub enum PieceView {
    Text(Seq<char>),
    Line(Seq<char>),
}

impl View for Piece {
    type V = PieceView;

    open spec fn view(&self) -> PieceView {
        match self {
            Piece::Text(s) => PieceView::Text(s@),
            Piece::Line(s) => PieceView::Line(s@),
        }
    }
}

/// The pieces of a list, as texts.
pub open spec fn piece_views(list: Seq<Piece>) -> Seq<PieceView> {
    Seq::new(list.len(), |i: int| list[i]@)
}

/// The line that opens a report: where in the source the bug was met.
pub open spec fn header_line(file: Seq<char>, line: u32) -> Seq<char> {
    "\u{1F41B} BUG ENCOUNTERED in "@ + file + ":"@ + decimal(line as nat) + "\n"@
}

/// The line that names the template.
pub open spec fn template_line(name: Seq<char>) -> Seq<char> {
    "   Template: "@ + name + "\n"@
}

/// The line of one parameter.
pub open spec fn parameter_line(key: Seq<char>, value: Seq<char>) -> Seq<char> {
    "     "@ + key + ": "@ + value + "\n"@
}

/// The line that holds the link: a hyperlink, or the URL after a few words.
pub open spec fn link_line(url: Seq<char>, hyperlink: bool) -> Seq<char> {
    if hyperlink {
        "   "@ + terminal_hyperlink(url, "File a bug report"@) + "\n"@
    } else {
        "   File a bug report: "@ + url + "\n"@
    }
}

/// The line that says why there is no link.
pub open spec fn error_line(message: Seq<char>) -> Seq<char> {
    "   Error generating bug report: "@ + message + "\n"@
}

/// The lines of the parameters, in the order of `entries`.
pub open spec fn parameter_lines(entries: Entries) -> Seq<PieceView> {
    Seq::new(entries.len(), |i: int| PieceView::Line(parameter_line(entries[i].0, entries[i].1)))
}

/// The pieces of a report, in the order in which they are written. With a
/// URL: the header, the template's name, the parameters under a line of
/// their own where there are any, the link, and an empty line. Without:
/// the header, the error, and an empty line.
pub open spec fn report_pieces(
    outcome: Result<Seq<char>, Seq<char>>,
    template_name: Seq<char>,
    entries: Entries,
    file: Seq<char>,
    line: u32,
    hyperlink: bool,
) -> Seq<PieceView> {
    match outcome {
        Ok(url) => {
            let parameters = if entries.len() > 0 {
                seq![PieceView::Text("   Parameters:\n"@)] + parameter_lines(entries)
            } else {
                Seq::empty()
            };
            seq![
                PieceView::Line(header_line(file, line)),
                PieceView::Line(template_line(template_name)),
            ] + parameters + seq![
                PieceView::Line(link_line(url, hyperlink)),
                PieceView::Text("\n"@),
            ]
        },
        Err(message) => seq![
            PieceView::Line(header_line(file, line)),
            PieceView::Line(error_line(message)),
            PieceView::Text("\n"@),
        ],
    }
}

fn header(file: &str, line: u32) -> (r: String)
    ensures
        r@ == header_line(file@, line),
{
    let mut r = followed("\u{1F41B} BUG ENCOUNTERED in ", file);
    r.append(":");
    push_decimal(&mut r, line);
    r.append("\n");
    r
}

/// The pieces of the report of `outcome`, in the order in which they are
/// written. `entries` are the parameters in the order in which they are
/// shown; `hyperlink` says whether the link is written as a hyperlink.
pub fn render_report(
    outcome: &Result<String, String>,
    template_name: &str,
    entries: &Vec<(String, String)>,
    file: &str,
    line: u32,
    hyperlink: bool,
) -> (pieces: Vec<Piece>)
    ensures
        piece_views(pieces@) == report_pieces(
            result_view(*outcome),
            template_name@,
            entry_views(entries@),
            file@,
            line,
            hyperlink,
        ),
{
    let mut pieces: Vec<Piece> = Vec::new();
    pieces.push(Piece::Line(header(file, line)));
    match outcome {
        Ok(url) => {
            let mut named = followed("   Template: ", template_name);
            named.append("\n");
            pieces.push(Piece::Line(named));
            let ghost start = piece_views(pieces@);
            assert(start == seq![
                PieceView::Line(header_line(file@, line)),
                PieceView::Line(template_line(template_name@)),
            ]);
            if entries.len() > 0 {
                pieces.push(Piece::Text("   Parameters:\n".to_owned()));
                let mut i: usize = 0;
                while i < entries.len()
                    invariant
                        i <= entries.len(),
                        piece_views(pieces@) == start + seq![PieceView::Text("   Parameters:\n"@)]
                            + parameter_lines(entry_views(entries@)).take(i as int),
                    decreases entries.len() - i,
                {
                    let mut shown = followed("     ", entries[i].0.as_str());
                    shown.append(": ");
                    shown.append(entries[i].1.as_str());
                    shown.append("\n");
                    let ghost before = piece_views(pieces@);
                    pieces.push(Piece::Line(shown));
                    proof {
                        let all = parameter_lines(entry_views(entries@));
                        assert(piece_views(pieces@) == before.push(all[i as int]));
                    }
                    i += 1;
                }
            }
            let ghost middle = piece_views(pieces@);
            let link = if hyperlink {
                let mut link = followed(
                    "   ",
                    create_terminal_hyperlink(url.as_str(), "File a bug report").as_str(),
                );
                link.append("\n");
                link
            } else {
                let mut link = followed("   File a bug report: ", url.as_str());
                link.append("\n");
                link
            };
            pieces.push(Piece::Line(link));
            pieces.push(Piece::Text("\n".to_owned()));
            assert(piece_views(pieces@) == middle + seq![
                PieceView::Line(link_line(url@, hyperlink)),
                PieceView::Text("\n"@),
            ]);
        },
        Err(message) => {
            let mut failed = followed("   Error generating bug report: ", message.as_str());
            failed.append("\n");
            pieces.push(Piece::Line(failed));
            pieces.push(Piece::Text("\n".to_owned()));
            assert(piece_views(pieces@) == seq![
                PieceView::Line(header_line(file@, line)),
                PieceView::Line(error_line(message@)),
                PieceView::Text("\n"@),
            ]);
        },
    }
    pieces
}

/// Hands the pieces to the sink, one after the other: text as it is, a
/// line formatted. What the sink does with them is the sink's affair.
pub fn write_pieces<O: Output + ?Sized>(output: &mut O, pieces: &Vec<Piece>) {
    let mut i: usize = 0;
    while i < pieces.len()
        invariant
            i <= pieces.len(),
        decreases pieces.len() - i,
    {
        match &pieces[i] {
            Piece::Text(text) => output.write_str(text.as_str()),
            Piece::Line(text) => write_formatted(output, text.as_str()),
        }
        i += 1;
    }
}

/// The URL of an outcome, or the empty text where it has none.
pub open spec fn url_or_empty(outcome: Result<Seq<char>, Seq<char>>) -> Seq<char> {
    match outcome {
        Ok(url) => url,
        Err(_) => Seq::empty(),
    }
}

/// Writes the report of `outcome` to the sink and returns the URL, or the
/// empty string where there is none. The sink is handed the pieces of
/// `render_report`; the parameters are shown, where there is a URL, in the
/// order in which the map hands them out.
pub fn report_outcome<O: Output + ?Sized>(
    outcome: Result<String, String>,
    template_name: &str,
    params: &FxHashMap<String, String>,
    file: &str,
    line: u32,
    hyperlink: bool,
    output: &mut O,
) -> (url: String)
    ensures
        url@ == url_or_empty(result_view(outcome)),
{
    let entries = match &outcome {
        Ok(_) => params.entries(),
        Err(_) => Vec::new(),
    };
    let pieces = render_report(&outcome, template_name, &entries, file, line, hyperlink);
    write_pieces(output, &pieces);
    match outcome {
        Ok(url) => url,
        Err(_) => String::new(),
    }
}

impl BugReportHandle {
    /// Makes the URL of the template `template_name` with the entries of
    /// `params` filled in, writes a report of it to the sink, and returns
    /// the URL. Where no URL can be made, the report says why and the
    /// empty string is returned. `terminal_hyperlinks` says whether the
    /// terminal is known to take hyperlinks.
    pub fn report_bug_with_output<O: Output + ?Sized>(
        &self,
        template_name: &str,
        params: &FxHashMap<String, String>,
        file: &str,
        line: u32,
        terminal_hyperlinks: bool,
        output: &mut O,
    ) -> (url: String)
        ensures
            exists|outcome: Result<Seq<char>, Seq<char>>|
                #![trigger self@.yields_url(template_name@, params@, outcome)]
                self@.yields_url(template_name@, params@, outcome) && url@ == url_or_empty(outcome),
    {
        let outcome = self.generate_url(template_name, params);
        let hyperlink = use_hyperlink(self.config().use_hyperlinks, terminal_hyperlinks);
        report_outcome(outcome, template_name, params, file, line, hyperlink, output)
    }

    /// Makes the URL of the template `template_name` with the entries of
    /// `params` filled in, and returns it, or the empty string where no URL
    /// can be made. Nothing is written.
    pub fn report_bug(
        &self,
        template_name: &str,
        params: &FxHashMap<String, String>,
        file: &str,
        line: u32,
    ) -> (url: String)
        ensures
            exists|outcome: Result<Seq<char>, Seq<char>>|
                #![trigger self@.yields_url(template_name@, params@, outcome)]
                self@.yields_url(template_name@, params@, outcome) && url@ == url_or_empty(outcome),
    {
        let mut sink = NoOutput;
        self.report_bug_with_output(template_name, params, file, line, false, &mut sink)
    }
}

} // verus!
