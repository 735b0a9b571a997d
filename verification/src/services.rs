//! The external services the filter leans on: terminal-code stripping
//! (console) and syntax assets plus the tokenizer (syntect). Each item here
//! is trusted: its contract states what the called crate's source shows.

use vstd::prelude::*;
use crate::color::Color;
use crate::textutil::parts_text;
use crate::textutil::parts_view;

verus! {

#[verifier::external_type_specification]
#[verifier::external_body]
pub struct ExTheme(syntect::highlighting::Theme);

#[verifier::external_type_specification]
#[verifier::external_body]
pub struct ExThemeSet(syntect::highlighting::ThemeSet);

#[verifier::external_type_specification]
#[verifier::external_body]
pub struct ExSyntaxSet(syntect::parsing::SyntaxSet);

#[verifier::external_type_specification]
#[verifier::external_body]
pub struct ExSyntaxReference(syntect::parsing::SyntaxReference);

#[verifier::external_type_specification]
#[verifier::external_body]
pub struct ExHighlightLines<'a>(syntect::easy::HighlightLines<'a>);

/// What console's ANSI stripper returns for `s`: a function of the
/// characters alone.
pub uninterp spec fn strip_ansi(s: Seq<char>) -> Seq<char>;

/// Whether the syntax set maps this file extension to some syntax.
pub uninterp spec fn syntax_set_has_extension(ss: syntect::parsing::SyntaxSet, ext: Seq<char>) -> bool;

/// Whether this syntax reference is one of the set's own syntaxes. syntect
/// only permits highlighting a line against the set that holds the syntax
/// the tokenizer was built from (documented on ParseState::parse_line), so
/// the contracts here carry this membership from lookup to tokenizer.
pub uninterp spec fn syntax_in_set(
    syn: syntect::parsing::SyntaxReference,
    ss: syntect::parsing::SyntaxSet,
) -> bool;

/// Whether the theme set holds a theme under this name.
pub uninterp spec fn theme_set_has_name(ts: syntect::highlighting::ThemeSet, name: Seq<char>) -> bool;

/// The theme the set stores under this name (meaningful only when
/// `theme_set_has_name` holds of the pair).
pub uninterp spec fn theme_of(
    ts: syntect::highlighting::ThemeSet,
    name: Seq<char>,
) -> syntect::highlighting::Theme;

/// Relies on console::strip_ansi_codes: the result is the concatenation of
/// the non-ANSI segments of the input, and an input without an escape
/// introducer (ESC or U+009B) is returned unchanged.
#[verifier::external_body]
pub fn strip_ansi_codes(s: &str) -> (r: String)
    ensures
        r@ == strip_ansi(s@),
        !s@.contains('\x1b') && !s@.contains('\u{9b}') ==> r@ == s@,
{
    console::strip_ansi_codes(s).to_string()
}

/// Relies on SyntaxSet::find_syntax_by_extension: a lookup by extension,
/// found exactly when the set knows the extension, and any found syntax is
/// one of the set's own (the search runs over `self.syntaxes`).
#[verifier::external_body]
pub fn find_syntax_by_extension<'s>(
    ss: &'s syntect::parsing::SyntaxSet,
    extension: &str,
) -> (r: Option<&'s syntect::parsing::SyntaxReference>)
    ensures
        r.is_some() == syntax_set_has_extension(*ss, extension@),
        r matches Some(s) ==> syntax_in_set(*s, *ss),
{
    ss.find_syntax_by_extension(extension)
}

/// Relies on the `themes` map of syntect's ThemeSet: a lookup by theme
/// name; what comes back is the entry stored under that name.
#[verifier::external_body]
pub fn find_theme<'t>(ts: &'t syntect::highlighting::ThemeSet, name: &str) -> (r: Option<
    &'t syntect::highlighting::Theme,
>)
    ensures
        r.is_some() == theme_set_has_name(*ts, name@),
        r matches Some(t) ==> *t == theme_of(*ts, name@),
{
    ts.themes.get(name)
}

/// A batch's tokenizer: syntect's stateful highlighter, paired with the
/// syntax set its syntax belongs to. The pair is built here and never taken
/// apart, so a line cannot be highlighted against a foreign set.
pub struct Tokenizer<'a> {
    h: syntect::easy::HighlightLines<'a>,
    ss: &'a syntect::parsing::SyntaxSet,
}

/// Relies on HighlightLines::new: fresh tokenizer state for one batch.
/// syntect requires highlighting to use the set that holds the syntax
/// (documented on ParseState::parse_line: a foreign set can give wrong
/// results or panic), hence the membership precondition.
#[verifier::external_body]
pub fn new_highlighter<'t>(
    syntax: &'t syntect::parsing::SyntaxReference,
    theme: &'t syntect::highlighting::Theme,
    syntax_set: &'t syntect::parsing::SyntaxSet,
) -> (r: Tokenizer<'t>)
    requires
        syntax_in_set(*syntax, *syntax_set),
{
    Tokenizer { h: syntect::easy::HighlightLines::new(syntax, theme), ss: syntax_set }
}

/// Relies on HighlightLines::highlight_line, called on the set the
/// tokenizer was built over: on success the returned styled substrings
/// concatenate back to the input line (documented on HighlightIterator);
/// each is handed out with its foreground color.
#[verifier::external_body]
pub fn highlight_line(t: &mut Tokenizer, line: &str) -> (r: Option<Vec<(Color, String)>>)
    ensures
        r matches Some(v) ==> parts_text(parts_view(v@)) == line@,
{
    match t.h.highlight_line(line, t.ss) {
        Ok(ranges) => Some(
            ranges.into_iter().map(
                |(st, t): (syntect::highlighting::Style, &str)|
                    {
                        let f = st.foreground;
                        (Color { r: f.r, g: f.g, b: f.b, a: f.a }, t.to_string())
                    },
            ).collect(),
        ),
        Err(_) => None,
    }
}

} // verus!
