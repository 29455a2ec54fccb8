//! Column-aligned, colored output lines for the link-oriented commands.
//!
//! Each method returns the line it stands for; the caller prints it.
//! Colors come from `owo_colors`.

use vstd::prelude::*;

use owo_colors::OwoColorize;

use crate::text::{decimal, decimal_vec, push_all, push_str, string_of};

verus! {

/// Width to which labels are right-aligned.
pub const LABEL_WIDTH: usize = 8;

/// Prefix of every action line.
pub const PREFIX: &'static str = "  ·  ";

/// Escape that restores the default foreground color.
pub const FG_DEFAULT: &'static str = "\x1b[39m";

/// Escape that ends a style (bold, dim).
pub const STYLE_END: &'static str = "\x1b[0m";

/// Foreground escapes as `owo_colors` writes them.
pub const FG_BLUE: &'static str = "\x1b[34m";
pub const FG_GREEN: &'static str = "\x1b[32m";
pub const FG_YELLOW: &'static str = "\x1b[33m";
pub const FG_RED: &'static str = "\x1b[31m";
pub const FG_PURPLE: &'static str = "\x1b[35m";
pub const STYLE_BOLD: &'static str = "\x1b[1m";
pub const STYLE_DIM: &'static str = "\x1b[2m";

/// Text in a foreground color.
pub open spec fn fg(color: Seq<char>, text: Seq<char>) -> Seq<char> {
    color + text + FG_DEFAULT@
}

/// Text in a style.
pub open spec fn styled(style: Seq<char>, text: Seq<char>) -> Seq<char> {
    style + text + STYLE_END@
}

/// `owo_colors`' `blue()`, displayed: the blue escape, the text, the default
/// foreground escape (`FgColorDisplay`'s `Display`).
#[verifier::external_body]
fn owo_blue(text: &str) -> (r: String)
    ensures
        r@ == fg(FG_BLUE@, text@),
{
    format!("{}", text.blue())
}

/// `owo_colors`' `green()`, displayed.
#[verifier::external_body]
fn owo_green(text: &str) -> (r: String)
    ensures
        r@ == fg(FG_GREEN@, text@),
{
    format!("{}", text.green())
}

/// `owo_colors`' `yellow()`, displayed.
#[verifier::external_body]
fn owo_yellow(text: &str) -> (r: String)
    ensures
        r@ == fg(FG_YELLOW@, text@),
{
    format!("{}", text.yellow())
}

/// `owo_colors`' `red()`, displayed.
#[verifier::external_body]
fn owo_red(text: &str) -> (r: String)
    ensures
        r@ == fg(FG_RED@, text@),
{
    format!("{}", text.red())
}

/// `owo_colors`' `purple()` (the ANSI magenta), displayed.
#[verifier::external_body]
fn owo_purple(text: &str) -> (r: String)
    ensures
        r@ == fg(FG_PURPLE@, text@),
{
    format!("{}", text.purple())
}

/// `owo_colors`' `bold()`, displayed: the bold escape, the text, the reset
/// escape (`BoldDisplay`'s `Display`).
#[verifier::external_body]
fn owo_bold(text: &str) -> (r: String)
    ensures
        r@ == styled(STYLE_BOLD@, text@),
{
    format!("{}", text.bold())
}

/// `owo_colors`' `dimmed()`, displayed (`DimDisplay`'s `Display`).
#[verifier::external_body]
fn owo_dimmed(text: &str) -> (r: String)
    ensures
        r@ == styled(STYLE_DIM@, text@),
{
    format!("{}", text.dimmed())
}

/// `s` right-aligned in `w` columns (`{:>w}`): spaces before it when it is
/// shorter, itself otherwise.
pub open spec fn right_aligned(s: Seq<char>, w: nat) -> Seq<char> {
    if s.len() < w {
        Seq::new((w - s.len()) as nat, |i: int| ' ') + s
    } else {
        s
    }
}

fn right_align(s: &str, w: usize) -> (r: String)
    ensures
        r@ == right_aligned(s@, w as nat),
{
    let cs = crate::text::chars_of(s);
    let mut v: Vec<char> = Vec::new();
    if cs.len() < w {
        let pad = w - cs.len();
        let mut i: usize = 0;
        while i < pad
            invariant
                i <= pad,
                v@ == Seq::new(i as nat, |k: int| ' '),
            decreases pad - i,
        {
            v.push(' ');
            i += 1;
            assert(v@ =~= Seq::new(i as nat, |k: int| ' '));
        }
    }
    push_all(&mut v, &cs);
    assert(v@ =~= right_aligned(s@, w as nat));
    string_of(&v)
}

/// A label line: prefix, the colored label right-aligned, two spaces, then
/// the text.
pub open spec fn label_line(color: Seq<char>, label: Seq<char>, text: Seq<char>) -> Seq<char> {
    PREFIX@ + fg(color, right_aligned(label, LABEL_WIDTH as nat)) + "  "@ + text
}

/// Which color a label line uses.
#[derive(Clone, Copy, Debug, PartialEq, Eq)]
pub enum LabelColor {
    Blue,
    Green,
    Yellow,
    Red,
}

pub open spec fn color_code(c: LabelColor) -> Seq<char> {
    match c {
        LabelColor::Blue => FG_BLUE@,
        LabelColor::Green => FG_GREEN@,
        LabelColor::Yellow => FG_YELLOW@,
        LabelColor::Red => FG_RED@,
    }
}

fn label_text(color: LabelColor, label: &str, text: &str) -> (r: String)
    ensures
        r@ == label_line(color_code(color), label@, text@),
{
    let padded = right_align(label, LABEL_WIDTH);
    let colored = match color {
        LabelColor::Blue => owo_blue(padded.as_str()),
        LabelColor::Green => owo_green(padded.as_str()),
        LabelColor::Yellow => owo_yellow(padded.as_str()),
        LabelColor::Red => owo_red(padded.as_str()),
    };
    let mut v: Vec<char> = Vec::new();
    push_str(&mut v, PREFIX);
    push_str(&mut v, colored.as_str());
    push_str(&mut v, "  ");
    push_str(&mut v, text);
    assert(v@ =~= label_line(color_code(color), label@, text@));
    string_of(&v)
}

/// The line of the summary: `N ok · N modified · N missing`.
pub open spec fn summary_text(ok: nat, modified: nat, missing: nat) -> Seq<char> {
    decimal(ok) + " ok · "@ + decimal(modified) + " modified · "@ + decimal(missing) + " missing"@
}

/// Output formatting with a verbosity setting: hints are only given when
/// verbose.
pub struct Printer {
    pub verbose: bool,
}

impl Printer {
    pub fn new(verbose: bool) -> (r: Printer)
        ensures
            r.verbose == verbose,
    {
        Printer { verbose }
    }

    /// `  ·  <label>  <path>`, label in blue.
    pub fn action(&self, label: &str, path: &str) -> (r: String)
        ensures
            r@ == label_line(FG_BLUE@, label@, path@),
    {
        label_text(LabelColor::Blue, label, path)
    }

    /// `  ·  <label>  <src>  →  <dest>`, label in blue.
    pub fn arrow(&self, label: &str, src: &str, dest: &str) -> (r: String)
        ensures
            r@ == label_line(FG_BLUE@, label@, src@ + "  →  "@ + dest@),
    {
        let mut t: Vec<char> = Vec::new();
        push_str(&mut t, src);
        push_str(&mut t, "  →  ");
        push_str(&mut t, dest);
        let text = string_of(&t);
        label_text(LabelColor::Blue, label, text.as_str())
    }

    /// A success line, label in green.
    pub fn ok(&self, label: &str, path: &str) -> (r: String)
        ensures
            r@ == label_line(FG_GREEN@, label@, path@),
    {
        label_text(LabelColor::Green, label, path)
    }

    /// A skipped line, label in yellow.
    pub fn skipped(&self, label: &str, path: &str) -> (r: String)
        ensures
            r@ == label_line(FG_YELLOW@, label@, path@),
    {
        label_text(LabelColor::Yellow, label, path)
    }

    /// A warning line with a message, label in yellow.
    pub fn warn(&self, label: &str, msg: &str) -> (r: String)
        ensures
            r@ == label_line(FG_YELLOW@, label@, msg@),
    {
        label_text(LabelColor::Yellow, label, msg)
    }

    /// An error line, label in red.
    pub fn error_line(&self, label: &str, path: &str) -> (r: String)
        ensures
            r@ == label_line(FG_RED@, label@, path@),
    {
        label_text(LabelColor::Red, label, path)
    }

    /// A missing line: the label `missing` in red.
    pub fn missing(&self, path: &str) -> (r: String)
        ensures
            r@ == label_line(FG_RED@, "missing"@, path@),
    {
        label_text(LabelColor::Red, "missing", path)
    }

    /// A group header: an empty line, then the name in bold purple and a colon.
    pub fn group_header(&self, name: &str) -> (r: String)
        ensures
            r@ == "\n  "@ + styled(STYLE_BOLD@, fg(FG_PURPLE@, name@)) + ":"@,
    {
        let p = owo_purple(name);
        let b = owo_bold(p.as_str());
        let mut v: Vec<char> = Vec::new();
        push_str(&mut v, "\n  ");
        push_str(&mut v, b.as_str());
        push_str(&mut v, ":");
        string_of(&v)
    }

    /// A dim annotation.
    pub fn annotation(&self, msg: &str) -> (r: String)
        ensures
            r@ == "  "@ + styled(STYLE_DIM@, msg@),
    {
        let d = owo_dimmed(msg);
        let mut v: Vec<char> = Vec::new();
        push_str(&mut v, "  ");
        push_str(&mut v, d.as_str());
        string_of(&v)
    }

    /// The dim summary after an empty line.
    pub fn summary(&self, ok: usize, modified: usize, missing: usize) -> (r: String)
        ensures
            r@ == "\n  "@ + styled(
                STYLE_DIM@,
                summary_text(ok as nat, modified as nat, missing as nat),
            ),
    {
        let mut t: Vec<char> = Vec::new();
        push_all(&mut t, &decimal_vec(ok));
        push_str(&mut t, " ok · ");
        push_all(&mut t, &decimal_vec(modified));
        push_str(&mut t, " modified · ");
        push_all(&mut t, &decimal_vec(missing));
        push_str(&mut t, " missing");
        assert(t@ =~= summary_text(ok as nat, modified as nat, missing as nat));
        let text = string_of(&t);
        let d = owo_dimmed(text.as_str());
        let mut v: Vec<char> = Vec::new();
        push_str(&mut v, "\n  ");
        push_str(&mut v, d.as_str());
        string_of(&v)
    }

    /// A success message, bold green, after an empty line.
    pub fn success(&self, msg: &str) -> (r: String)
        ensures
            r@ == "\n  "@ + styled(STYLE_BOLD@, fg(FG_GREEN@, msg@)),
    {
        let g = owo_green(msg);
        let b = owo_bold(g.as_str());
        let mut v: Vec<char> = Vec::new();
        push_str(&mut v, "\n  ");
        push_str(&mut v, b.as_str());
        string_of(&v)
    }

    /// An error message, bold red.
    pub fn error_msg(&self, msg: &str) -> (r: String)
        ensures
            r@ == "  "@ + styled(STYLE_BOLD@, fg(FG_RED@, msg@)),
    {
        let g = owo_red(msg);
        let b = owo_bold(g.as_str());
        let mut v: Vec<char> = Vec::new();
        push_str(&mut v, "  ");
        push_str(&mut v, b.as_str());
        string_of(&v)
    }

    /// A warning message, yellow.
    pub fn warn_msg(&self, msg: &str) -> (r: String)
        ensures
            r@ == "  "@ + fg(FG_YELLOW@, msg@),
    {
        let y = owo_yellow(msg);
        let mut v: Vec<char> = Vec::new();
        push_str(&mut v, "  ");
        push_str(&mut v, y.as_str());
        string_of(&v)
    }

    /// A dim hint, given only in verbose mode.
    pub fn hint(&self, msg: &str) -> (r: Option<String>)
        ensures
            self.verbose ==> (r matches Some(s) && s@ == "  "@ + styled(STYLE_DIM@, msg@)),
            !self.verbose ==> r is None,
    {
        if self.verbose {
            Some(self.annotation(msg))
        } else {
            None
        }
    }
}

} // verus!
