//! Configuration resolution and the painter: turning text blocks into
//! 24-bit-color ANSI escaped output.

use vstd::prelude::*;
use vstd::string::StrSliceExecFns;
use vstd::string::StringExecFns;
use crate::color::Color;
use crate::color::parse_color;
use crate::color::spec_parse_color;
use crate::services::find_theme;
use crate::services::highlight_line;
use crate::services::new_highlighter;
use crate::services::syntax_in_set;
use crate::services::theme_of;
use crate::services::theme_set_has_name;
use crate::textutil::concat_all;
use crate::textutil::digit_char;
use crate::textutil::join_lines;
use crate::textutil::lemma_lwe_concat;
use crate::textutil::lemma_nl_concat_pointwise;
use crate::textutil::lemma_nl_count_add;
use crate::textutil::lemma_nl_count_newline;
use crate::textutil::lemma_nl_count_none;
use crate::textutil::nl_count;
use crate::textutil::parts_text;
use crate::textutil::parts_view;
use crate::textutil::push_dec_u8;
use crate::textutil::spec_dec_u8;
use crate::textutil::spec_join;
use crate::textutil::spec_lwe;
use crate::textutil::split_lines_keep;
use crate::textutil::str_eq;

verus! {

/// The theme names that count as light themes.
pub open spec fn spec_is_light_theme(name: Seq<char>) -> bool {
    name == "GitHub"@ || name == "Monokai Extended Light"@ || name == "OneHalfLight"@ || name
        == "ansi-light"@
}

pub fn is_light_theme(theme: &str) -> (r: bool)
    ensures
        r == spec_is_light_theme(theme@),
{
    str_eq(theme, "GitHub") || str_eq(theme, "Monokai Extended Light") || str_eq(
        theme,
        "OneHalfLight",
    ) || str_eq(theme, "ansi-light")
}

/// Background tint for added lines: a pale green on light themes, a deep
/// near-black green on dark ones.
pub open spec fn default_plus_color(light: bool) -> Color {
    if light {
        Color { r: 0xd0, g: 0xff, b: 0xd0, a: 0xff }
    } else {
        Color { r: 0x01, g: 0x3b, b: 0x01, a: 0xff }
    }
}

/// Background tint for removed lines: a pale red on light themes, a deep
/// near-black red on dark ones.
pub open spec fn default_minus_color(light: bool) -> Color {
    if light {
        Color { r: 0xff, g: 0xd0, b: 0xd0, a: 0xff }
    } else {
        Color { r: 0x3f, g: 0x00, b: 0x01, a: 0xff }
    }
}

/// The theme name one run works with: the requested one, or a fixed default
/// per background hint.
pub open spec fn resolved_theme_name(theme: Option<String>, light_background: bool) -> Seq<char> {
    match theme {
        Some(t) => t@,
        None => if light_background {
            "GitHub"@
        } else {
            "Monokai Extended"@
        },
    }
}

/// An override string is used when it parses as a color; otherwise the
/// theme-derived default stands.
pub open spec fn resolved_color(override_str: Option<String>, dflt: Color) -> Color {
    match override_str {
        Some(s) => match spec_parse_color(s@) {
            Some(c) => c,
            None => dflt,
        },
        None => dflt,
    }
}

/// The immutable per-run configuration.
pub struct Config<'a> {
    pub theme: &'a syntect::highlighting::Theme,
    pub plus_color: Color,
    pub minus_color: Color,
    pub syntax_set: &'a syntect::parsing::SyntaxSet,
    pub width: Option<usize>,
    pub highlight_removed: bool,
    pub pager: String,
}

/// Resolve the configuration. Returns `None` exactly when the resolved
/// theme name is not in the theme set.
pub fn get_config<'a>(
    syntax_set: &'a syntect::parsing::SyntaxSet,
    theme: &Option<String>,
    theme_set: &'a syntect::highlighting::ThemeSet,
    user_requests_theme_for_light_terminal_background: bool,
    plus_color_str: &Option<String>,
    minus_color_str: &Option<String>,
    highlight_removed: bool,
    width: Option<usize>,
) -> (r: Option<Config<'a>>)
    ensures
        r.is_some() == theme_set_has_name(
            *theme_set,
            resolved_theme_name(*theme, user_requests_theme_for_light_terminal_background),
        ),
        r matches Some(c) ==> ({
            let lt = spec_is_light_theme(
                resolved_theme_name(*theme, user_requests_theme_for_light_terminal_background),
            );
            &&& c.plus_color == resolved_color(*plus_color_str, default_plus_color(lt))
            &&& c.minus_color == resolved_color(*minus_color_str, default_minus_color(lt))
            &&& c.width == width
            &&& c.highlight_removed == highlight_removed
            &&& c.pager@ == "less"@
            &&& c.syntax_set == syntax_set
            &&& *c.theme == theme_of(
                *theme_set,
                resolved_theme_name(*theme, user_requests_theme_for_light_terminal_background),
            )
        }),
{
    let theme_name: &str = match theme {
        Some(t) => t.as_str(),
        None => {
            if user_requests_theme_for_light_terminal_background {
                "GitHub"
            } else {
                "Monokai Extended"
            }
        },
    };
    let lt = is_light_theme(theme_name);
    let plus_override = match plus_color_str {
        Some(s) => parse_color(s.as_str()),
        None => None,
    };
    let minus_override = match minus_color_str {
        Some(s) => parse_color(s.as_str()),
        None => None,
    };
    match find_theme(theme_set, theme_name) {
        None => None,
        Some(th) => {
            let plus_color = match plus_override {
                Some(c) => c,
                None => if lt {
                    Color { r: 0xd0, g: 0xff, b: 0xd0, a: 0xff }
                } else {
                    Color { r: 0x01, g: 0x3b, b: 0x01, a: 0xff }
                },
            };
            let minus_color = match minus_override {
                Some(c) => c,
                None => if lt {
                    Color { r: 0xff, g: 0xd0, b: 0xd0, a: 0xff }
                } else {
                    Color { r: 0x3f, g: 0x00, b: 0x01, a: 0xff }
                },
            };
            Some(
                Config {
                    theme: th,
                    plus_color,
                    minus_color,
                    syntax_set,
                    width,
                    highlight_removed,
                    pager: "less".to_owned(),
                },
            )
        },
    }
}

/// The escape that sets the background color: `ESC[48;2;R;G;Bm`.
pub open spec fn bg_escape(c: Color) -> Seq<char> {
    "\x1b[48;2;"@ + spec_dec_u8(c.r) + ";"@ + spec_dec_u8(c.g) + ";"@ + spec_dec_u8(c.b) + "m"@
}

/// The escape that sets the foreground color: `ESC[38;2;R;G;Bm`.
pub open spec fn fg_escape(c: Color) -> Seq<char> {
    "\x1b[38;2;"@ + spec_dec_u8(c.r) + ";"@ + spec_dec_u8(c.g) + ";"@ + spec_dec_u8(c.b) + "m"@
}

pub open spec fn opt_bg_escape(bg: Option<Color>) -> Seq<char> {
    match bg {
        Some(c) => bg_escape(c),
        None => Seq::empty(),
    }
}

pub open spec fn opt_fg_escape(fg: Option<Color>) -> Seq<char> {
    match fg {
        Some(c) => fg_escape(c),
        None => Seq::empty(),
    }
}

fn push_bg_escape(buf: &mut String, c: Color)
    ensures
        final(buf)@ == old(buf)@ + bg_escape(c),
{
    buf.append("\x1b[48;2;");
    push_dec_u8(buf, c.r);
    buf.append(";");
    push_dec_u8(buf, c.g);
    buf.append(";");
    push_dec_u8(buf, c.b);
    buf.append("m");
    proof {
        assert(old(buf)@ + "\x1b[48;2;"@ + spec_dec_u8(c.r) + ";"@ + spec_dec_u8(c.g) + ";"@
            + spec_dec_u8(c.b) + "m"@ =~= old(buf)@ + bg_escape(c));
    }
}

fn push_fg_escape(buf: &mut String, c: Color)
    ensures
        final(buf)@ == old(buf)@ + fg_escape(c),
{
    buf.append("\x1b[38;2;");
    push_dec_u8(buf, c.r);
    buf.append(";");
    push_dec_u8(buf, c.g);
    buf.append(";");
    push_dec_u8(buf, c.b);
    buf.append("m");
    proof {
        assert(old(buf)@ + "\x1b[38;2;"@ + spec_dec_u8(c.r) + ";"@ + spec_dec_u8(c.g) + ";"@
            + spec_dec_u8(c.b) + "m"@ =~= old(buf)@ + fg_escape(c));
    }
}

/// One line's styled parts, rendered in order; with highlighting on, each
/// part is preceded by its foreground escape.
pub open spec fn render_parts(parts: Seq<(Color, Seq<char>)>, hl: bool) -> Seq<char>
    decreases parts.len(),
{
    if parts.len() == 0 {
        Seq::empty()
    } else {
        render_parts(parts.drop_last(), hl) + (if hl {
            fg_escape(parts.last().0)
        } else {
            Seq::<char>::empty()
        }) + parts.last().1
    }
}

/// `out` is one painted line for `l`: the optional background escape, then
/// either styled parts whose texts concatenate to `l`, or (when no
/// highlighter result is available) `l` itself.
pub open spec fn painted_line(l: Seq<char>, bg: Option<Color>, hl: bool, out: Seq<char>) -> bool {
    (exists|parts: Seq<(Color, Seq<char>)>|
        parts_text(parts) == l && out == opt_bg_escape(bg) + render_parts(parts, hl)) || out
        == opt_bg_escape(bg) + l
}

/// `out` is the painting of `text`: its lines (terminators kept), each
/// painted, concatenated.
pub open spec fn painted_text(text: Seq<char>, bg: Option<Color>, hl: bool, out: Seq<char>) -> bool {
    exists|cs: Seq<Seq<char>>|
        cs.len() == spec_lwe(text).len() && (forall|i: int|
            0 <= i < cs.len() ==> painted_line(spec_lwe(text)[i], bg, hl, cs[i])) && out
            == concat_all(cs)
}

/// `chunk` is what one paint-and-emit call appends to the sink: the painted
/// text and the final newline of the emitting write.
pub open spec fn emitted_painted(
    text: Seq<char>,
    bg: Option<Color>,
    hl: bool,
    chunk: Seq<char>,
) -> bool {
    exists|pt: Seq<char>| painted_text(text, bg, hl, pt) && chunk == pt + "\n"@
}

/// What one flush appends to the sink: nothing when both buffers are empty,
/// else the removed block painted with the removed tint (highlighted only if
/// configured) followed by the added block painted with the added tint.
pub open spec fn flush_appended<'a>(
    cfg: Config<'a>,
    minus: Seq<Seq<char>>,
    plus: Seq<Seq<char>>,
    appended: Seq<char>,
) -> bool {
    if minus.len() == 0 && plus.len() == 0 {
        appended == Seq::<char>::empty()
    } else {
        exists|c1: Seq<char>, c2: Seq<char>|
            emitted_painted(spec_join(minus), Some(cfg.minus_color), cfg.highlight_removed, c1)
                && emitted_painted(spec_join(plus), Some(cfg.plus_color), true, c2) && appended == c1
                + c2
    }
}

proof fn lemma_dec_no_nl(n: u8)
    ensures
        nl_count(spec_dec_u8(n)) == 0,
{
    assert(forall|d: int| digit_char(d) != '\n');
    lemma_nl_count_none(spec_dec_u8(n));
}

proof fn lemma_escape_pieces_nl(p: Seq<char>, c: Color)
    requires
        nl_count(p) == 0,
    ensures
        nl_count(
            p + spec_dec_u8(c.r) + ";"@ + spec_dec_u8(c.g) + ";"@ + spec_dec_u8(c.b) + "m"@,
        ) == 0,
{
    reveal_strlit(";");
    reveal_strlit("m");
    lemma_nl_count_none(";"@);
    lemma_nl_count_none("m"@);
    lemma_dec_no_nl(c.r);
    lemma_dec_no_nl(c.g);
    lemma_dec_no_nl(c.b);
    lemma_nl_count_add(p, spec_dec_u8(c.r));
    lemma_nl_count_add(p + spec_dec_u8(c.r), ";"@);
    lemma_nl_count_add(p + spec_dec_u8(c.r) + ";"@, spec_dec_u8(c.g));
    lemma_nl_count_add(p + spec_dec_u8(c.r) + ";"@ + spec_dec_u8(c.g), ";"@);
    lemma_nl_count_add(p + spec_dec_u8(c.r) + ";"@ + spec_dec_u8(c.g) + ";"@, spec_dec_u8(c.b));
    lemma_nl_count_add(
        p + spec_dec_u8(c.r) + ";"@ + spec_dec_u8(c.g) + ";"@ + spec_dec_u8(c.b),
        "m"@,
    );
}

pub proof fn lemma_bg_escape_nl(c: Color)
    ensures
        nl_count(bg_escape(c)) == 0,
{
    reveal_strlit("\x1b[48;2;");
    lemma_nl_count_none("\x1b[48;2;"@);
    lemma_escape_pieces_nl("\x1b[48;2;"@, c);
}

pub proof fn lemma_fg_escape_nl(c: Color)
    ensures
        nl_count(fg_escape(c)) == 0,
{
    reveal_strlit("\x1b[38;2;");
    lemma_nl_count_none("\x1b[38;2;"@);
    lemma_escape_pieces_nl("\x1b[38;2;"@, c);
}

proof fn lemma_render_parts_nl(parts: Seq<(Color, Seq<char>)>, hl: bool)
    ensures
        nl_count(render_parts(parts, hl)) == nl_count(parts_text(parts)),
    decreases parts.len(),
{
    if parts.len() > 0 {
        lemma_render_parts_nl(parts.drop_last(), hl);
        let fg = if hl {
            fg_escape(parts.last().0)
        } else {
            Seq::<char>::empty()
        };
        if hl {
            lemma_fg_escape_nl(parts.last().0);
        }
        lemma_nl_count_add(render_parts(parts.drop_last(), hl), fg);
        lemma_nl_count_add(render_parts(parts.drop_last(), hl) + fg, parts.last().1);
        lemma_nl_count_add(parts_text(parts.drop_last()), parts.last().1);
    }
}

/// A painted line holds exactly the newlines of the line itself: the
/// escapes add none.
pub proof fn lemma_painted_line_nl(l: Seq<char>, bg: Option<Color>, hl: bool, out: Seq<char>)
    requires
        painted_line(l, bg, hl, out),
    ensures
        nl_count(out) == nl_count(l),
{
    match bg {
        Some(c) => lemma_bg_escape_nl(c),
        None => (),
    }
    if exists|parts: Seq<(Color, Seq<char>)>|
        parts_text(parts) == l && out == opt_bg_escape(bg) + render_parts(parts, hl) {
        let parts = choose|parts: Seq<(Color, Seq<char>)>|
            parts_text(parts) == l && out == opt_bg_escape(bg) + render_parts(parts, hl);
        lemma_render_parts_nl(parts, hl);
        lemma_nl_count_add(opt_bg_escape(bg), render_parts(parts, hl));
    } else {
        lemma_nl_count_add(opt_bg_escape(bg), l);
    }
}

/// Painting a text keeps its newline count.
pub proof fn lemma_painted_text_nl(text: Seq<char>, bg: Option<Color>, hl: bool, pt: Seq<char>)
    requires
        painted_text(text, bg, hl, pt),
    ensures
        nl_count(pt) == nl_count(text),
{
    let cs = choose|cs: Seq<Seq<char>>|
        cs.len() == spec_lwe(text).len() && (forall|i: int|
            0 <= i < cs.len() ==> painted_line(spec_lwe(text)[i], bg, hl, cs[i])) && pt
            == concat_all(cs);
    assert forall|i: int| 0 <= i < cs.len() implies nl_count(cs[i]) == nl_count(
        spec_lwe(text)[i],
    ) by {
        lemma_painted_line_nl(spec_lwe(text)[i], bg, hl, cs[i]);
    }
    lemma_nl_concat_pointwise(cs, spec_lwe(text));
    lemma_lwe_concat(text);
}

/// One emitted painting appends the text's newlines plus the final one.
pub proof fn lemma_emitted_painted_nl(text: Seq<char>, bg: Option<Color>, hl: bool, chunk: Seq<char>)
    requires
        emitted_painted(text, bg, hl, chunk),
    ensures
        nl_count(chunk) == nl_count(text) + 1,
{
    let pt = choose|pt: Seq<char>| painted_text(text, bg, hl, pt) && chunk == pt + "\n"@;
    lemma_painted_text_nl(text, bg, hl, pt);
    lemma_nl_count_add(pt, "\n"@);
    lemma_nl_count_newline();
}

/// Write `text` to the buffer with color escape codes applied: the optional
/// background escape, the optional foreground escape, then the text.
fn paint(
    text: &str,
    foreground_color: Option<Color>,
    background_color: Option<Color>,
    buf: &mut String,
)
    ensures
        final(buf)@ == old(buf)@ + opt_bg_escape(background_color) + opt_fg_escape(
            foreground_color,
        ) + text@,
{
    match background_color {
        Some(c) => push_bg_escape(buf, c),
        None => (),
    }
    match foreground_color {
        Some(c) => push_fg_escape(buf, c),
        None => (),
    }
    buf.append(text);
    proof {
        assert(buf@ =~= old(buf)@ + opt_bg_escape(background_color) + opt_fg_escape(
            foreground_color,
        ) + text@);
    }
}

/// Append each styled range to `buf`, with its foreground escape when
/// highlighting is applied.
fn paint_ranges(ranges: &Vec<(Color, String)>, apply_syntax_highlighting: bool, buf: &mut String)
    ensures
        final(buf)@ == old(buf)@ + render_parts(parts_view(ranges@), apply_syntax_highlighting),
{
    let mut i: usize = 0;
    while i < ranges.len()
        invariant
            i <= ranges.len(),
            buf@ == old(buf)@ + render_parts(
                parts_view(ranges@).take(i as int),
                apply_syntax_highlighting,
            ),
        decreases ranges.len() - i,
    {
        let ghost pv = parts_view(ranges@);
        let ghost pre = buf@;
        let fg = if apply_syntax_highlighting {
            Some(ranges[i].0)
        } else {
            None
        };
        paint(ranges[i].1.as_str(), fg, None, buf);
        proof {
            assert(pre + opt_bg_escape(None) + opt_fg_escape(fg) + ranges@[i as int].1@ =~= pre + (
            if apply_syntax_highlighting {
                fg_escape(pv[i as int].0)
            } else {
                Seq::<char>::empty()
            }) + pv[i as int].1);
            assert(pv.take(i + 1).drop_last() =~= pv.take(i as int));
            assert(pv.take(i + 1).last() == pv[i as int]);
            assert(pv[i as int].1 == ranges@[i as int].1@);
            assert(buf@ =~= old(buf)@ + render_parts(pv.take(i + 1), apply_syntax_highlighting));
        }
        i += 1;
    }
    proof {
        assert(parts_view(ranges@).take(ranges@.len() as int) =~= parts_view(ranges@));
    }
}

/// Paint `text` into `buf`: per line, the background escape if a background
/// was supplied, then the highlighter's styled ranges (or, if the
/// highlighter fails on the line, the line itself).
pub fn paint_text(
    text: String,
    syntax: &syntect::parsing::SyntaxReference,
    background_color: Option<Color>,
    config: &Config,
    apply_syntax_highlighting: bool,
    buf: &mut String,
)
    requires
        syntax_in_set(*syntax, *config.syntax_set),
    ensures
        exists|pt: Seq<char>|
            painted_text(text@, background_color, apply_syntax_highlighting, pt) && final(buf)@
                == old(buf)@ + pt,
{
    let lines = split_lines_keep(text.as_str());
    let mut highlighter = new_highlighter(syntax, config.theme, config.syntax_set);
    let ghost lwe = spec_lwe(text@);
    let ghost mut cs: Seq<Seq<char>> = Seq::empty();
    let mut i: usize = 0;
    proof {
        assert(buf@ =~= old(buf)@ + concat_all(cs));
    }
    while i < lines.len()
        invariant
            i <= lines.len(),
            lines.deep_view() == lwe,
            lwe == spec_lwe(text@),
            cs.len() == i,
            forall|j: int|
                0 <= j < i ==> painted_line(
                    lwe[j],
                    background_color,
                    apply_syntax_highlighting,
                    cs[j],
                ),
            buf@ == old(buf)@ + concat_all(cs),
        decreases lines.len() - i,
    {
        let ghost pre = buf@;
        match background_color {
            Some(c) => push_bg_escape(buf, c),
            None => (),
        }
        let ghost mut chunk: Seq<char> = Seq::empty();
        match highlight_line(&mut highlighter, lines[i].as_str()) {
            Some(ranges) => {
                paint_ranges(&ranges, apply_syntax_highlighting, buf);
                proof {
                    chunk = opt_bg_escape(background_color) + render_parts(
                        parts_view(ranges@),
                        apply_syntax_highlighting,
                    );
                    assert(lines.deep_view()[i as int] == lines@[i as int]@);
                    assert(parts_text(parts_view(ranges@)) == lwe[i as int]);
                    assert(painted_line(
                        lwe[i as int],
                        background_color,
                        apply_syntax_highlighting,
                        chunk,
                    ));
                    assert(buf@ =~= pre + chunk);
                }
            },
            None => {
                buf.append(lines[i].as_str());
                proof {
                    chunk = opt_bg_escape(background_color) + lines@[i as int]@;
                    assert(lines.deep_view()[i as int] == lines@[i as int]@);
                    assert(painted_line(
                        lwe[i as int],
                        background_color,
                        apply_syntax_highlighting,
                        chunk,
                    ));
                    assert(buf@ =~= pre + chunk);
                }
            },
        }
        proof {
            let prev_cs = cs;
            cs = cs.push(chunk);
            assert(cs.drop_last() =~= prev_cs);
            assert(buf@ =~= old(buf)@ + concat_all(cs));
        }
        i += 1;
    }
    proof {
        assert(cs.len() == lwe.len());
        assert(painted_text(
            text@,
            background_color,
            apply_syntax_highlighting,
            concat_all(cs),
        ));
    }
}

/// The classifier's mutable half: the pending removed/added buffers, the
/// active syntax, the reusable paint buffer and the output sink.
pub struct Painter<'a> {
    pub minus_lines: Vec<String>,
    pub plus_lines: Vec<String>,
    pub syntax: Option<&'a syntect::parsing::SyntaxReference>,
    pub config: &'a Config<'a>,
    pub output_buffer: String,
    pub output: String,
}

impl<'a> Painter<'a> {
    /// The active syntax, when one is set, belongs to the configuration's
    /// syntax set: what `highlight_line` may be used with.
    pub open spec fn syntax_ok(&self) -> bool {
        match self.syntax {
            Some(s) => syntax_in_set(*s, *self.config.syntax_set),
            None => true,
        }
    }

    fn is_empty(&self) -> (r: bool)
        ensures
            r == (self.minus_lines@.len() == 0 && self.plus_lines@.len() == 0),
    {
        self.minus_lines.len() == 0 && self.plus_lines.len() == 0
    }

    /// Paint `text` and write it to the sink as one unit, resetting the
    /// paint buffer.
    pub fn paint_and_emit_text(
        &mut self,
        text: String,
        background_color: Option<Color>,
        apply_syntax_highlighting: bool,
    )
        requires
            old(self).syntax.is_some(),
            old(self).syntax_ok(),
            old(self).output_buffer@ == Seq::<char>::empty(),
        ensures
            final(self).minus_lines@ == old(self).minus_lines@,
            final(self).plus_lines@ == old(self).plus_lines@,
            final(self).minus_lines.deep_view() == old(self).minus_lines.deep_view(),
            final(self).plus_lines.deep_view() == old(self).plus_lines.deep_view(),
            final(self).syntax == old(self).syntax,
            final(self).config == old(self).config,
            final(self).output_buffer@ == Seq::<char>::empty(),
            exists|chunk: Seq<char>|
                emitted_painted(text@, background_color, apply_syntax_highlighting, chunk)
                    && final(self).output@ == old(self).output@ + chunk,
    {
        let syn = self.syntax.unwrap();
        let cfg = self.config;
        let ghost t = text@;
        paint_text(
            text,
            syn,
            background_color,
            cfg,
            apply_syntax_highlighting,
            &mut self.output_buffer,
        );
        let ghost painted = self.output_buffer@;
        proof {
            let pt = choose|pt: Seq<char>|
                painted_text(t, background_color, apply_syntax_highlighting, pt) && painted
                    == Seq::<char>::empty() + pt;
            assert(painted =~= pt);
        }
        self.output.append(self.output_buffer.as_str());
        self.output.append("\n");
        self.output_buffer = String::new();
        proof {
            let chunk = painted + "\n"@;
            assert(emitted_painted(t, background_color, apply_syntax_highlighting, chunk));
            assert(self.output@ =~= old(self).output@ + chunk);
        }
    }

    /// Flush: paint and emit the pending removed block, then the pending
    /// added block, clearing both buffers. A no-op when both are empty.
    pub fn paint_and_emit_buffered_lines(&mut self)
        requires
            old(self).output_buffer@ == Seq::<char>::empty(),
            old(self).syntax_ok(),
            old(self).minus_lines@.len() > 0 || old(self).plus_lines@.len() > 0 ==> old(
                self,
            ).syntax.is_some(),
        ensures
            final(self).minus_lines@.len() == 0,
            final(self).plus_lines@.len() == 0,
            final(self).syntax == old(self).syntax,
            final(self).config == old(self).config,
            final(self).output_buffer@ == Seq::<char>::empty(),
            exists|appended: Seq<char>|
                flush_appended(
                    *old(self).config,
                    old(self).minus_lines.deep_view(),
                    old(self).plus_lines.deep_view(),
                    appended,
                ) && final(self).output@ == old(self).output@ + appended,
    {
        let ghost out0 = self.output@;
        let ghost minus_dv = self.minus_lines.deep_view();
        let ghost plus_dv = self.plus_lines.deep_view();
        let ghost cfg0 = *self.config;
        if self.is_empty() {
            proof {
                assert(minus_dv.len() == 0 && plus_dv.len() == 0);
                assert(flush_appended(cfg0, minus_dv, plus_dv, Seq::<char>::empty()));
                assert(self.output@ =~= self.output@ + Seq::<char>::empty());
            }
            return ;
        }
        let text = join_lines(&self.minus_lines);
        self.paint_and_emit_text(text, Some(self.config.minus_color), self.config.highlight_removed);
        let ghost out1 = self.output@;
        self.minus_lines.clear();
        let text2 = join_lines(&self.plus_lines);
        self.paint_and_emit_text(text2, Some(self.config.plus_color), true);
        self.plus_lines.clear();
        proof {
            let c1 = choose|c: Seq<char>|
                emitted_painted(spec_join(minus_dv), Some(cfg0.minus_color), cfg0.highlight_removed, c)
                    && out1 == out0 + c;
            let c2 = choose|c: Seq<char>|
                emitted_painted(spec_join(plus_dv), Some(cfg0.plus_color), true, c) && self.output@
                    == out1 + c;
            assert(self.output@ =~= out0 + (c1 + c2));
            assert(flush_appended(cfg0, minus_dv, plus_dv, c1 + c2));
        }
    }
}

} // verus!
