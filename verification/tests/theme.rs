use irssi_tg::theme::{default_ini, load_theme, nick_color, Color, Theme};

fn is_default(t: &Theme) -> bool {
    let d = Theme::default();
    t.bar_bg == d.bar_bg && t.bar_fg == d.bar_fg && t.sys_msg == d.sys_msg && t.timestamp == d.timestamp
        && t.highlight_bg == d.highlight_bg && t.highlight_fg == d.highlight_fg && t.text_fg == d.text_fg
        && t.nick_colors == d.nick_colors
}

#[test]
fn default_theme_is_blue_and_white() {
    let t = Theme::default();
    assert_eq!(t.bar_bg, Color::Blue);
    assert_eq!(t.bar_fg, Color::White);
    assert_eq!(t.sys_msg, Color::Cyan);
    assert_eq!(t.timestamp, Color::DarkGray);
    assert_eq!(t.highlight_bg, Color::Magenta);
    assert_eq!(t.highlight_fg, Color::Black);
    assert_eq!(t.text_fg, Color::Reset);
    assert_eq!(t.nick_colors.len(), 10);
    assert_eq!(t.nick_colors[9], Color::LightRed);
}

#[test]
fn without_a_file_the_default_theme_is_used() {
    assert!(is_default(&load_theme(None, "matrix")));
}

#[test]
fn unknown_themes_are_the_default_one() {
    assert!(is_default(&load_theme(Some(&default_ini()), "undernet")));
    assert!(is_default(&load_theme(Some(&default_ini()), "default")));
    assert!(is_default(&load_theme(Some(""), "default")));
}

#[test]
fn themes_of_the_first_file_are_read() {
    let t = load_theme(Some(&default_ini()), "matrix");
    assert_eq!(t.bar_bg, Color::Black);
    assert_eq!(t.bar_fg, Color::Green);
    assert_eq!(t.sys_msg, Color::LightGreen);
    assert_eq!(t.highlight_bg, Color::Green);
    assert_eq!(t.text_fg, Color::Green);
    assert_eq!(t.nick_colors, vec![Color::Green, Color::LightGreen]);
    let t = load_theme(Some(&default_ini()), "efnet");
    assert_eq!(t.bar_bg, Color::Blue);
    assert_eq!(t.bar_fg, Color::LightCyan);
    assert_eq!(t.sys_msg, Color::LightBlue);
    assert_eq!(t.timestamp, Color::Gray);
    assert_eq!(t.highlight_bg, Color::LightYellow);
    assert_eq!(t.text_fg, Color::Gray);
    assert_eq!(t.nick_colors.len(), 6);
    let t = load_theme(Some(&default_ini()), "dracula");
    assert_eq!(t.bar_bg, Color::Rgb(0x28, 0x2a, 0x36));
    assert_eq!(t.highlight_fg, Color::Rgb(0xf8, 0xf8, 0xf2));
    assert_eq!(t.nick_colors.len(), 7);
    assert_eq!(t.nick_colors[0], Color::Rgb(0x8b, 0xe9, 0xfd));
}

#[test]
fn the_first_file_has_a_section_for_each_theme() {
    let ini = default_ini();
    for name in ["default", "efnet", "matrix", "dracula"] {
        assert!(ini.contains(&format!("\n[{}]\nbar_bg = ", name)));
    }
    assert!(ini.starts_with("; irssi-tg Theme Configuration\n"));
    assert!(ini.ends_with("#f1fa8c\n"));
}

#[test]
fn themes_of_ones_own_are_read() {
    let ini = "[my_sweet_theme]\nbar_bg = #000000\nbar_fg = #00FF00\nsys_msg = #FF00FF\ntext_fg = Reset\nnick_colors = Cyan, Green, Yellow\n";
    let t = load_theme(Some(ini), "my_sweet_theme");
    assert_eq!(t.bar_bg, Color::Rgb(0, 0, 0));
    assert_eq!(t.bar_fg, Color::Rgb(0, 255, 0));
    assert_eq!(t.sys_msg, Color::Rgb(255, 0, 255));
    assert_eq!(t.text_fg, Color::Reset);
    assert_eq!(t.timestamp, Color::DarkGray);
    assert_eq!(t.nick_colors, vec![Color::Cyan, Color::Green, Color::Yellow]);
}

#[test]
fn odd_lines_of_a_theme_file_are_passed_over() {
    let ini = "bar_bg = Red\n# bar_fg = Red\n ; x\n[t]\nbar_bg\nbar_fg = nosuchcolour\nsys_msg = Red\nunknown = Red\nnick_colors = nope, none\n[u]\nsys_msg = Blue\n[t]\ntimestamp=42\nnick_colors = bad, Red ,\n";
    let t = load_theme(Some(ini), "t");
    assert_eq!(t.bar_bg, Color::Blue);
    assert_eq!(t.bar_fg, Color::White);
    assert_eq!(t.sys_msg, Color::Red);
    assert_eq!(t.timestamp, Color::Indexed(42));
    assert_eq!(t.nick_colors, vec![Color::Red]);
    let t = load_theme(Some("[t]\nnick_colors = nope\n"), "t");
    assert_eq!(t.nick_colors.len(), 10);
}

#[test]
fn nicks_have_colours_by_the_sum_of_their_bytes() {
    let mut t = Theme::default();
    assert_eq!(nick_color("a", &t), Color::LightYellow);
    assert_eq!(nick_color("", &t), Color::Cyan);
    assert_eq!(nick_color("ab", &t), Color::LightCyan);
    assert!(t.nick_colors.contains(&nick_color("żółw", &t)));
    t.nick_colors.clear();
    assert_eq!(nick_color("a", &t), Color::White);
}
