//! Colour themes: the built-in one, those read from an ini file, and the colour
//! of a nick.
use vstd::prelude::*;
use vstd::utf8::encode_utf8;
use ratatui::style::Color as R;
use crate::text::{
    entries, entries_of, lemma_line_is_entry, opt_str, same, split_all, split_first, split_on,
    split_once, strs, trim, trimmed,
};

verus! {

/// A terminal colour.
#[derive(Clone, Copy, Debug, PartialEq, Eq, Structural)]
pub enum Color {
    Reset,
    Black,
    Red,
    Green,
    Yellow,
    Blue,
    Magenta,
    Cyan,
    Gray,
    DarkGray,
    LightRed,
    LightGreen,
    LightYellow,
    LightBlue,
    LightMagenta,
    LightCyan,
    White,
    Rgb(u8, u8, u8),
    Indexed(u8),
}

/// The colour that a text names, if it names one.
pub uninterp spec fn parsed_color(s: Seq<char>) -> Option<Color>;

/// `ratatui::style::Color::from_str`: the colour that `s` names, variant for
/// variant, or `None` where it returns an error. It is a function of the text
/// alone; nothing more is claimed of it.
#[verifier::external_body]
fn parse_color(s: &str) -> (c: Option<Color>)
    ensures
        c == parsed_color(s@),
{
    Some(match s.parse::<R>().ok()? {
        R::Reset => Color::Reset, R::Black => Color::Black, R::Red => Color::Red,
        R::Green => Color::Green, R::Yellow => Color::Yellow, R::Blue => Color::Blue,
        R::Magenta => Color::Magenta, R::Cyan => Color::Cyan, R::Gray => Color::Gray,
        R::DarkGray => Color::DarkGray, R::LightRed => Color::LightRed,
        R::LightGreen => Color::LightGreen, R::LightYellow => Color::LightYellow,
        R::LightBlue => Color::LightBlue, R::LightMagenta => Color::LightMagenta,
        R::LightCyan => Color::LightCyan, R::White => Color::White,
        R::Rgb(r, g, b) => Color::Rgb(r, g, b), R::Indexed(i) => Color::Indexed(i),
    })
}

/// The colours of the user interface.
#[derive(Debug)]
pub struct Theme {
    pub bar_bg: Color,
    pub bar_fg: Color,
    pub sys_msg: Color,
    pub timestamp: Color,
    pub highlight_bg: Color,
    pub highlight_fg: Color,
    pub text_fg: Color,
    pub nick_colors: Vec<Color>,
}

/// The model of a theme.
#[verifier::ext_equal]
pub struct ThemeView {
    pub bar_bg: Color,
    pub bar_fg: Color,
    pub sys_msg: Color,
    pub timestamp: Color,
    pub highlight_bg: Color,
    pub highlight_fg: Color,
    pub text_fg: Color,
    pub nick_colors: Seq<Color>,
}

impl View for Theme {
    type V = ThemeView;

    open spec fn view(&self) -> ThemeView {
        ThemeView {
            bar_bg: self.bar_bg,
            bar_fg: self.bar_fg,
            sys_msg: self.sys_msg,
            timestamp: self.timestamp,
            highlight_bg: self.highlight_bg,
            highlight_fg: self.highlight_fg,
            text_fg: self.text_fg,
            nick_colors: self.nick_colors@,
        }
    }
}

/// The built-in theme.
pub open spec fn default_theme() -> ThemeView {
    ThemeView {
        bar_bg: Color::Blue,
        bar_fg: Color::White,
        sys_msg: Color::Cyan,
        timestamp: Color::DarkGray,
        highlight_bg: Color::Magenta,
        highlight_fg: Color::Black,
        text_fg: Color::Reset,
        nick_colors: seq![
            Color::Cyan,
            Color::Green,
            Color::Yellow,
            Color::Magenta,
            Color::Red,
            Color::LightCyan,
            Color::LightGreen,
            Color::LightYellow,
            Color::LightMagenta,
            Color::LightRed,
        ],
    }
}

impl Default for Theme {
    fn default() -> (r: Self)
        ensures
            r@ == default_theme(),
    {
        let r = Theme {
            bar_bg: Color::Blue,
            bar_fg: Color::White,
            sys_msg: Color::Cyan,
            timestamp: Color::DarkGray,
            highlight_bg: Color::Magenta,
            highlight_fg: Color::Black,
            text_fg: Color::Reset,
            nick_colors: vec![
                Color::Cyan,
                Color::Green,
                Color::Yellow,
                Color::Magenta,
                Color::Red,
                Color::LightCyan,
                Color::LightGreen,
                Color::LightYellow,
                Color::LightMagenta,
                Color::LightRed,
            ],
        };
        assert(r.nick_colors@ == default_theme().nick_colors);
        r
    }
}

// ── The first theme file ─────────────────────────────────────────────────────

/// The comment at the top of the first theme file.
pub const INI_HEAD: &'static str = "; irssi-tg Theme Configuration\n; Named colors (Blue, LightMagenta, DarkGray) or hex codes (#1e1e2e)\n";

/// The settings of the theme `default` in the first theme file.
pub const DEFAULT_SETTINGS: &'static str = "bar_bg = Blue\nbar_fg = White\nsys_msg = Cyan\ntimestamp = DarkGray\nhighlight_bg = Magenta\nhighlight_fg = Black\ntext_fg = Reset\nnick_colors = Cyan, Green, Yellow, Magenta, Red, LightCyan, LightGreen, LightYellow, LightMagenta, LightRed\n";

/// The settings of the theme `efnet` in the first theme file.
pub const EFNET_SETTINGS: &'static str = "bar_bg = Blue\nbar_fg = LightCyan\nsys_msg = LightBlue\ntimestamp = Gray\nhighlight_bg = LightYellow\nhighlight_fg = Black\ntext_fg = Gray\nnick_colors = LightCyan, LightGreen, LightYellow, LightMagenta, LightRed, White\n";

/// The settings of the theme `matrix` in the first theme file.
pub const MATRIX_SETTINGS: &'static str = "bar_bg = Black\nbar_fg = Green\nsys_msg = LightGreen\ntimestamp = DarkGray\nhighlight_bg = Green\nhighlight_fg = Black\ntext_fg = Green\nnick_colors = Green, LightGreen\n";

/// The settings of the theme `dracula` in the first theme file.
pub const DRACULA_SETTINGS: &'static str = "bar_bg = #282a36\nbar_fg = #f8f8f2\nsys_msg = #ff79c6\ntimestamp = #6272a4\nhighlight_bg = #ff79c6\nhighlight_fg = #f8f8f2\ntext_fg = #f8f8f2\nnick_colors = #8be9fd, #50fa7b, #ffb86c, #ff79c6, #bd93f9, #ff5555, #f1fa8c\n";

/// The theme file that is written when there is none.
pub open spec fn default_ini_text() -> Seq<char> {
    INI_HEAD@ + "\n[default]\n"@ + DEFAULT_SETTINGS@ + "\n[efnet]\n"@ + EFNET_SETTINGS@
        + "\n[matrix]\n"@ + MATRIX_SETTINGS@ + "\n[dracula]\n"@ + DRACULA_SETTINGS@
}

/// The theme file that is written when there is none.
pub fn default_ini() -> (r: String)
    ensures
        r@ == default_ini_text(),
{
    let mut s = INI_HEAD.to_owned();
    s.append("\n[default]\n");
    s.append(DEFAULT_SETTINGS);
    s.append("\n[efnet]\n");
    s.append(EFNET_SETTINGS);
    s.append("\n[matrix]\n");
    s.append(MATRIX_SETTINGS);
    s.append("\n[dracula]\n");
    s.append(DRACULA_SETTINGS);
    s
}

// ── One setting ──────────────────────────────────────────────────────────────

/// The colours among the results of reading a list of colour names.
pub open spec fn colors_of(parsed: Seq<Option<Color>>) -> Seq<Color>
    decreases parsed.len(),
{
    if parsed.len() == 0 {
        Seq::empty()
    } else {
        match parsed.last() {
            Some(c) => colors_of(parsed.drop_last()).push(c),
            None => colors_of(parsed.drop_last()),
        }
    }
}

/// What reading each comma-separated piece of `val` as a colour gives.
pub open spec fn parsed_list(val: Seq<char>) -> Seq<Option<Color>> {
    split_all(val, ',').map_values(|p: Seq<char>| parsed_color(trim(p)))
}

impl ThemeView {
    /// The theme with the colour under `key` replaced; unknown keys change nothing.
    pub open spec fn with_color(self, key: Seq<char>, color: Color) -> ThemeView {
        if key == "bar_bg"@ {
            ThemeView { bar_bg: color, ..self }
        } else if key == "bar_fg"@ {
            ThemeView { bar_fg: color, ..self }
        } else if key == "sys_msg"@ {
            ThemeView { sys_msg: color, ..self }
        } else if key == "timestamp"@ {
            ThemeView { timestamp: color, ..self }
        } else if key == "highlight_bg"@ {
            ThemeView { highlight_bg: color, ..self }
        } else if key == "highlight_fg"@ {
            ThemeView { highlight_fg: color, ..self }
        } else if key == "text_fg"@ {
            ThemeView { text_fg: color, ..self }
        } else {
            self
        }
    }

    /// The theme with other nick colours; an empty list changes nothing.
    pub open spec fn with_nicks(self, colors: Seq<Color>) -> ThemeView {
        if colors.len() > 0 {
            ThemeView { nick_colors: colors, ..self }
        } else {
            self
        }
    }

    /// The theme after the setting `key = val`.
    pub open spec fn with_setting(self, key: Seq<char>, val: Seq<char>) -> ThemeView {
        if key == "nick_colors"@ {
            self.with_nicks(colors_of(parsed_list(val)))
        } else {
            match parsed_color(val) {
                Some(c) => self.with_color(key, c),
                None => self,
            }
        }
    }
}

impl Theme {
    /// Replaces the colour under `key`; unknown keys change nothing.
    pub fn set_color(&mut self, key: &str, color: Color)
        ensures
            final(self)@ == old(self)@.with_color(key@, color),
    {
        if same(key, "bar_bg") {
            self.bar_bg = color;
        } else if same(key, "bar_fg") {
            self.bar_fg = color;
        } else if same(key, "sys_msg") {
            self.sys_msg = color;
        } else if same(key, "timestamp") {
            self.timestamp = color;
        } else if same(key, "highlight_bg") {
            self.highlight_bg = color;
        } else if same(key, "highlight_fg") {
            self.highlight_fg = color;
        } else if same(key, "text_fg") {
            self.text_fg = color;
        }
    }

    /// Takes the colours that could be read as the nick colours, if there are any.
    pub fn set_nick_colors(&mut self, parsed: &Vec<Option<Color>>)
        ensures
            final(self)@ == old(self)@.with_nicks(colors_of(parsed@)),
    {
        let mut colors: Vec<Color> = Vec::new();
        let mut i: usize = 0;
        while i < parsed.len()
            invariant
                i <= parsed@.len(),
                colors@ == colors_of(parsed@.take(i as int)),
            decreases parsed.len() - i,
        {
            assert(parsed@.take(i + 1).drop_last() == parsed@.take(i as int));
            if let Some(c) = parsed[i] {
                colors.push(c);
            }
            i = i + 1;
        }
        assert(parsed@.take(i as int) == parsed@);
        if colors.len() > 0 {
            self.nick_colors = colors;
        }
    }

    /// Applies the setting `key = val`; one that cannot be read changes nothing.
    pub fn apply_setting(&mut self, key: &str, val: &str)
        ensures
            final(self)@ == old(self)@.with_setting(key@, val@),
    {
        if same(key, "nick_colors") {
            let pieces = split_on(val, ',');
            let mut parsed: Vec<Option<Color>> = Vec::new();
            let mut i: usize = 0;
            while i < pieces.len()
                invariant
                    i <= pieces@.len(),
                    strs(pieces@) == split_all(val@, ','),
                    parsed@ == parsed_list(val@).take(i as int),
                decreases pieces.len() - i,
            {
                assert(strs(pieces@)[i as int] == pieces@[i as int]@);
                parsed.push(parse_color(trimmed(pieces[i])));
                i = i + 1;
                assert(parsed@ == parsed_list(val@).take(i as int));
            }
            assert(parsed_list(val@).take(i as int) == parsed_list(val@));
            self.set_nick_colors(&parsed);
        } else if let Some(c) = parse_color(val) {
            self.set_color(key, c);
        }
    }
}

// ── The file ─────────────────────────────────────────────────────────────────

/// Whether a line is a comment.
pub open spec fn is_comment(line: Seq<char>) -> bool {
    line.len() > 0 && (line[0] == '#' || line[0] == ';')
}

/// The section that a line opens, if it is a section header.
pub open spec fn header_of(line: Seq<char>) -> Option<Seq<char>> {
    if line.len() > 0 && line[0] == '[' && line.last() == ']' {
        Some(line.subrange(1, line.len() - 1))
    } else {
        None
    }
}

/// Where the reader of a theme file stands: whether it is in the requested
/// section, and the theme so far.
#[verifier::ext_equal]
pub struct Reading {
    pub in_target: bool,
    pub theme: ThemeView,
}

/// One line of a theme file read.
pub open spec fn read_line(st: Reading, line: Seq<char>, requested: Seq<char>) -> Reading {
    if is_comment(line) {
        st
    } else {
        match header_of(line) {
            Some(section) => Reading { in_target: section == requested, ..st },
            None => if st.in_target {
                match split_first(line, '=') {
                    Some((k, v)) => Reading { theme: st.theme.with_setting(trim(k), trim(v)), ..st },
                    None => st,
                }
            } else {
                st
            },
        }
    }
}

/// All `lines` of a theme file read, from the built-in theme on.
pub open spec fn read_lines(lines: Seq<Seq<char>>, requested: Seq<char>) -> Reading
    decreases lines.len(),
{
    if lines.len() == 0 {
        Reading { in_target: false, theme: default_theme() }
    } else {
        read_line(read_lines(lines.drop_last(), requested), lines.last(), requested)
    }
}

/// The theme `requested` of a theme file, over the built-in one.
pub open spec fn theme_of(contents: Option<Seq<char>>, requested: Seq<char>) -> ThemeView {
    match contents {
        Some(text) => read_lines(entries_of(text), requested).theme,
        None => default_theme(),
    }
}

/// The section that a line opens, if it is a section header.
fn section<'a>(line: &'a str) -> (r: Option<&'a str>)
    ensures
        opt_str(r) == header_of(line@),
{
    let n = line.unicode_len();
    if n > 0 && line.get_char(0) == '[' && line.get_char(n - 1) == ']' {
        Some(line.substring_char(1, n - 1))
    } else {
        None
    }
}

/// The theme `requested` of a theme file with these contents; settings that the
/// file lacks, or all of them when there is no file, are those of the built-in
/// theme.
pub fn load_theme(contents: Option<&str>, requested: &str) -> (theme: Theme)
    ensures
        theme@ == theme_of(opt_str(contents), requested@),
        theme.nick_colors@.len() > 0,
{
    let mut theme = Theme::default();
    if let Some(text) = contents {
        let lines = entries(text);
        let mut in_target = false;
        let mut i: usize = 0;
        let ghost all = entries_of(text@);
        while i < lines.len()
            invariant
                i <= lines@.len(),
                all == entries_of(text@),
                strs(lines@) == all,
                read_lines(all.take(i as int), requested@) == (Reading {
                    in_target,
                    theme: theme@,
                }),
                theme.nick_colors@.len() > 0,
            decreases lines.len() - i,
        {
            assert(all.take(i + 1).drop_last() == all.take(i as int));
            let line = lines[i];
            assert(strs(lines@)[i as int] == line@);
            let comment = line.unicode_len() > 0 && (line.get_char(0) == '#' || line.get_char(0)
                == ';');
            if !comment {
                match section(line) {
                    Some(name) => {
                        in_target = same(name, requested);
                    },
                    None => {
                        if in_target {
                            if let Some((k, v)) = split_once(line, '=') {
                                theme.apply_setting(trimmed(k), trimmed(v));
                            }
                        }
                    },
                }
            }
            i = i + 1;
        }
        assert(all.take(i as int) == all);
    }
    theme
}

/// A theme that the file does not define is the built-in theme.
pub proof fn missing_theme_is_default(contents: Seq<char>, requested: Seq<char>)
    requires
        forall|i: int|
            0 <= i < entries_of(contents).len() ==> is_comment(
                #[trigger] entries_of(contents)[i],
            ) || header_of(entries_of(contents)[i]) != Some(requested),
    ensures
        theme_of(Some(contents), requested) == default_theme(),
{
    lemma_no_header(entries_of(contents), requested);
}

proof fn lemma_no_header(lines: Seq<Seq<char>>, requested: Seq<char>)
    requires
        forall|i: int|
            0 <= i < lines.len() ==> is_comment(#[trigger] lines[i]) || header_of(lines[i]) != Some(
                requested,
            ),
    ensures
        read_lines(lines, requested) == (Reading { in_target: false, theme: default_theme() }),
    decreases lines.len(),
{
    if lines.len() > 0 {
        let t = lines.drop_last();
        assert forall|i: int| 0 <= i < t.len() implies is_comment(#[trigger] t[i]) || header_of(
            t[i],
        ) != Some(requested) by {
            assert(t[i] == lines[i]);
        }
        lemma_no_header(t, requested);
        assert(lines.last() == lines[lines.len() - 1]);
    }
}

/// Whether a theme file has a section for a theme.
pub open spec fn has_section(contents: Seq<char>, theme: Seq<char>) -> bool {
    exists|i: int|
        0 <= i < entries_of(contents).len() && !is_comment(#[trigger] entries_of(contents)[i])
            && header_of(entries_of(contents)[i]) == Some(theme)
}

proof fn lemma_section(a: Seq<char>, theme: Seq<char>, b: Seq<char>)
    requires
        forall|i: int| 0 <= i < theme.len() ==> #[trigger] theme[i] != '\n',
    ensures
        has_section(a + (seq!['\n', '['] + theme + seq![']', '\n']) + b, theme),
{
    let line = seq!['['] + theme + seq![']'];
    let s = a + (seq!['\n', '['] + theme + seq![']', '\n']) + b;
    lemma_line_is_entry(a, line, b);
    assert(a + seq!['\n'] + line + seq!['\n'] + b =~= s);
    assert(line.subrange(1, line.len() - 1) =~= theme);
    let i = choose|i: int| 0 <= i < entries_of(s).len() && entries_of(s)[i] == line;
    assert(header_of(entries_of(s)[i]) == Some(theme));
}

/// The first theme file has a section for each theme that the client comes with.
pub proof fn first_file_has_the_themes()
    ensures
        has_section(default_ini_text(), "default"@),
        has_section(default_ini_text(), "efnet"@),
        has_section(default_ini_text(), "matrix"@),
        has_section(default_ini_text(), "dracula"@),
{
    reveal_strlit("default");
    reveal_strlit("efnet");
    reveal_strlit("matrix");
    reveal_strlit("dracula");
    reveal_strlit("\n[default]\n");
    reveal_strlit("\n[efnet]\n");
    reveal_strlit("\n[matrix]\n");
    reveal_strlit("\n[dracula]\n");
    let all = default_ini_text();
    let a = INI_HEAD@;
    let b = a + "\n[default]\n"@ + DEFAULT_SETTINGS@;
    let c = b + "\n[efnet]\n"@ + EFNET_SETTINGS@;
    let d = c + "\n[matrix]\n"@ + MATRIX_SETTINGS@;
    assert("\n[default]\n"@ =~= seq!['\n', '['] + "default"@ + seq![']', '\n']);
    assert("\n[efnet]\n"@ =~= seq!['\n', '['] + "efnet"@ + seq![']', '\n']);
    assert("\n[matrix]\n"@ =~= seq!['\n', '['] + "matrix"@ + seq![']', '\n']);
    assert("\n[dracula]\n"@ =~= seq!['\n', '['] + "dracula"@ + seq![']', '\n']);
    let after_a = all.skip(a.len() as int + "\n[default]\n"@.len());
    let after_b = all.skip(b.len() as int + "\n[efnet]\n"@.len());
    let after_c = all.skip(c.len() as int + "\n[matrix]\n"@.len());
    assert(all =~= a + "\n[default]\n"@ + after_a);
    assert(all =~= b + "\n[efnet]\n"@ + after_b);
    assert(all =~= c + "\n[matrix]\n"@ + after_c);
    lemma_section(a, "default"@, after_a);
    lemma_section(b, "efnet"@, after_b);
    lemma_section(c, "matrix"@, after_c);
    lemma_section(d, "dracula"@, DRACULA_SETTINGS@);
}

// ── Nick colours ─────────────────────────────────────────────────────────────

/// The sum of the bytes, modulo the machine word.
pub open spec fn byte_sum(bytes: Seq<u8>) -> nat
    decreases bytes.len(),
{
    if bytes.len() == 0 {
        0
    } else {
        (byte_sum(bytes.drop_last()) + bytes.last() as nat) % (usize::MAX as nat + 1)
    }
}

/// The colour of a nick: picked from the nick colours by the sum of its bytes.
pub open spec fn nick_color_of(name: Seq<char>, theme: ThemeView) -> Color {
    if theme.nick_colors.len() == 0 {
        theme.bar_fg
    } else {
        theme.nick_colors[(byte_sum(encode_utf8(name)) % theme.nick_colors.len()) as int]
    }
}

/// The colour of a nick.
pub fn nick_color(name: &str, theme: &Theme) -> (c: Color)
    ensures
        c == nick_color_of(name@, theme@),
{
    if theme.nick_colors.len() == 0 {
        return theme.bar_fg;
    }
    let bytes = name.as_bytes();
    let mut hash: usize = 0;
    let mut i: usize = 0;
    while i < bytes.len()
        invariant
            i <= bytes@.len(),
            hash == byte_sum(bytes@.take(i as int)),
        decreases bytes.len() - i,
    {
        assert(bytes@.take(i + 1).drop_last() == bytes@.take(i as int));
        hash = hash.wrapping_add(bytes[i] as usize);
        i = i + 1;
    }
    assert(bytes@.take(i as int) == bytes@);
    theme.nick_colors[hash % theme.nick_colors.len()]
}

/// Every nick has a colour out of the nick colours.
pub proof fn nick_color_is_listed(name: Seq<char>, theme: ThemeView)
    requires
        theme.nick_colors.len() > 0,
    ensures
        theme.nick_colors.contains(nick_color_of(name, theme)),
{
    let i = (byte_sum(encode_utf8(name)) % theme.nick_colors.len()) as int;
    assert(theme.nick_colors[i] == nick_color_of(name, theme));
}

} // verus!
