use oc::ansi::{
    c_dir, c_hdr, c_hdr_act, c_norm, c_reset, c_sel, c_sel_file, c_sel_inactive, c_status, clr,
    goto, hide_cur, mouse_off, mouse_on, show_cur,
};
use oc::draw::{
    draw_bottom_border, draw_fkey_bar, draw_info_row, draw_pane_content, draw_top_border, flash,
    message_drawable, render, render_if_drawable, rows_drawable, screen_drawable, str_cols, title_drawable, trunc_cols,
    write_border_title,
};
use oc::entry::FileEntry;
use oc::frame::draw_nc_box;
use oc::help::{help_at, op_help, HELP_COUNT};
use oc::pane::{LocalPane, Pane, Panes};

const NORM: &str = "\x1b[38;2;85;255;255m\x1b[48;2;0;0;170m";
const HDR_ACT: &str = "\x1b[38;2;255;255;85m\x1b[48;2;0;0;170m";
const HDR: &str = "\x1b[38;2;170;170;170m\x1b[48;2;0;0;170m";
const SEL: &str = "\x1b[38;2;0;0;0m\x1b[48;2;0;170;170m";
const RESET: &str = "\x1b[0m";

fn drawn(f: impl Fn(&mut String)) -> String {
    let mut o = String::from("<");
    f(&mut o);
    assert!(o.starts_with('<'));
    o[1..].to_string()
}

fn some_pane(n: usize) -> Pane {
    let mut items = Vec::new();
    for i in 0..n {
        items.push(FileEntry { name: format!("f{:02}", i), is_dir: i % 2 == 1, size: i as u64 });
    }
    Pane::Local(LocalPane::new(b"/".to_vec(), items))
}

#[test]
fn control_sequences() {
    assert_eq!(drawn(|o| goto(o, 3, 14)), "\x1b[3;14H");
    assert_eq!(drawn(hide_cur), "\x1b[?25l");
    assert_eq!(drawn(show_cur), "\x1b[?25h");
    assert_eq!(drawn(mouse_on), "\x1b[?1000h\x1b[?1006h");
    assert_eq!(drawn(mouse_off), "\x1b[?1006l\x1b[?1000l");
    assert_eq!(drawn(c_reset), RESET);
    assert_eq!(drawn(c_hdr_act), HDR_ACT);
    assert_eq!(drawn(c_sel_file), HDR_ACT);
    assert_eq!(drawn(c_hdr), HDR);
    assert_eq!(drawn(c_sel), SEL);
    assert_eq!(drawn(c_status), SEL);
    assert_eq!(drawn(c_norm), NORM);
    assert_eq!(drawn(c_dir), "\x1b[38;2;255;255;255m\x1b[48;2;0;0;170m");
    assert_eq!(drawn(c_sel_inactive), "\x1b[38;2;170;170;170m\x1b[48;2;85;85;85m");
}

#[test]
fn clearing_fills_every_row() {
    assert_eq!(
        drawn(|o| clr(o, 2, 3)),
        "\x1b[48;2;0;0;170m\x1b[38;2;85;255;255m\x1b[1;1H   \x1b[2;1H   \x1b[1;1H"
    );
}

#[test]
fn columns_of_text() {
    assert_eq!(str_cols("abc"), 3);
    assert_eq!(str_cols("\u{f07b} é"), 4);
    assert_eq!(str_cols("\u{dfff0}"), 1);
    assert_eq!(str_cols("\u{fffd}"), 1);
    assert_eq!(str_cols("\u{d7ff}\u{e000}\u{f8ff}\u{f900}"), 6);
    assert_eq!(trunc_cols("\u{fffd}", 1), "\u{fffd}");
    assert_eq!(trunc_cols("\u{f8ff}", 1), "");
    assert_eq!(trunc_cols("\u{f900}", 1), "\u{f900}");
    assert_eq!(trunc_cols("abc", 2), "ab");
    assert_eq!(trunc_cols("abc", 9), "abc");
    assert_eq!(trunc_cols("\u{f07b}ab", 1), "");
    assert_eq!(trunc_cols("\u{f07b}ab", 3), "\u{f07b}a");
    assert_eq!(trunc_cols("a\u{f07b}b", 2), "a");
}

#[test]
fn titles_are_centred_in_the_border() {
    assert_eq!(
        drawn(|o| write_border_title(o, "/tmp", 11, true)),
        format!("{}══{} /tmp {}═══", NORM, HDR_ACT, NORM)
    );
    assert_eq!(
        drawn(|o| write_border_title(o, "/a/long/path", 8, false)),
        format!("{}═{} path {}═", NORM, HDR, NORM)
    );
    assert_eq!(
        drawn(|o| write_border_title(o, "/tmp", 0, false)),
        format!("{}{}  {}", NORM, HDR, NORM)
    );
    assert!(title_drawable("/é", 7));
    assert!(!title_drawable("/é", 5));
    assert!(title_drawable("/é", 6));
}

#[test]
fn borders_above_and_below() {
    let top = drawn(|o| draw_top_border(o, 20, 10, "/a", "/b", 1));
    assert_eq!(
        top,
        format!(
            "\x1b[1;1H{n}╔{n}══{h} /a {n}═══{n}╦{n}══{a} /b {n}══{n}╗{r}",
            n = NORM,
            h = HDR,
            a = HDR_ACT,
            r = RESET
        )
    );
    let bottom = drawn(|o| draw_bottom_border(o, 7, 10, 5));
    assert_eq!(bottom, format!("\x1b[7;1H{}╚════╩═══╝{}", NORM, RESET));
}

#[test]
fn rows_show_cursor_selection_and_kind() {
    let mut p = some_pane(3);
    p.toggle_sel(2);
    // directories come first: f01, then f00 and f02
    let o = drawn(|o| {
        let mut q = some_pane(3);
        q.toggle_sel(2);
        draw_pane_content(o, &mut q, true, 2, 4, 2, 16)
    });
    let dir = "\x1b[38;2;255;255;255m\x1b[48;2;0;0;170m";
    assert!(o.starts_with(&format!("\x1b[2;2H{}\u{f07b} f01/", SEL)));
    assert!(o.contains(&format!("\x1b[3;2H{}\u{f15b} f00 ", NORM)));
    assert!(o.contains(&format!("\x1b[4;2H{}\u{f15b} f02 ", HDR_ACT)));
    assert!(o.ends_with(&format!("\x1b[5;2H{}{:16}{}", NORM, "", RESET)));
    assert!(!o.contains(dir));
    *p.cursor_mut() = 1;
    let mut s = String::new();
    draw_pane_content(&mut s, &mut p, false, 2, 3, 2, 16);
    assert!(s.starts_with(&format!("\x1b[2;2H{}", dir)));
    assert!(s.contains("\x1b[38;2;170;170;170m\x1b[48;2;85;85;85m"));
}

#[test]
fn every_row_fills_its_width() {
    let mut p = some_pane(1);
    let mut s = String::new();
    draw_pane_content(&mut s, &mut p, true, 1, 1, 1, 20);
    let cells = &s[format!("\x1b[1;1H{}", SEL).len()..s.len() - RESET.len()];
    assert_eq!(str_cols(cells), 20);
    assert_eq!(cells, "\u{f15b} f00            0B");
}

#[test]
fn content_scrolls_to_the_cursor() {
    let mut p = some_pane(30);
    let mut s = String::new();
    *p.cursor_mut() = 12;
    draw_pane_content(&mut s, &mut p, true, 2, 5, 2, 30);
    assert_eq!(p.offset(), 8);
    *p.cursor_mut() = 10;
    draw_pane_content(&mut s, &mut p, true, 2, 5, 2, 30);
    assert_eq!(p.offset(), 8);
    *p.cursor_mut() = 3;
    draw_pane_content(&mut s, &mut p, true, 2, 5, 2, 30);
    assert_eq!(p.offset(), 3);
    draw_pane_content(&mut s, &mut p, true, 2, 0, 2, 30);
    assert_eq!(p.offset(), 3);
}

#[test]
fn function_keys_as_many_as_fit() {
    let fg = "\x1b[38;2;85;255;255m\x1b[48;2;0;0;0m";
    assert_eq!(
        drawn(|o| draw_fkey_bar(o, 24, 22)),
        format!("\x1b[24;1H{}1{}Help(?) {}2{}Rename(r) {}  {}", fg, SEL, fg, SEL, fg, RESET)
    );
    let all = drawn(|o| draw_fkey_bar(o, 24, 200));
    assert!(all.contains("10") && all.contains("Quit ") && all.contains("Delete(dd) "));
    assert_eq!(drawn(|o| draw_fkey_bar(o, 1, 0)), format!("\x1b[1;1H{}{}", fg, RESET));
}

#[test]
fn messages_fill_the_last_row() {
    assert_eq!(
        drawn(|o| flash(o, 24, 8, " hello")),
        format!("\x1b[24;1H{} hello  {}", SEL, RESET)
    );
    assert_eq!(
        drawn(|o| flash(o, 24, 3, " hello")),
        format!("\x1b[24;1H{} he{}", SEL, RESET)
    );
    assert!(!message_drawable("aé", 2));
    assert!(message_drawable("aé", 3));
    assert!(message_drawable("aé", 1));
    assert_eq!(
        drawn(|o| draw_info_row(o, 23, 4)),
        "\x1b[23;1H\x1b[48;2;0;0;0m    \x1b[0m"
    );
}

#[test]
fn frames_have_a_title() {
    let mut o = String::new();
    let w = draw_nc_box(&mut o, 2, 3, 12, 1, "Hi");
    assert_eq!(w, 10);
    assert_eq!(
        o,
        format!(
            "\x1b[2;3H{a}╔══╡ Hi ╞══╗\x1b[3;3H{a}║{n}          {a}║\x1b[4;3H╚══════════╝{r}",
            a = HDR_ACT,
            n = NORM,
            r = RESET
        )
    );
    let mut o = String::new();
    assert_eq!(draw_nc_box(&mut o, 1, 1, 1, 0, "Long"), 0);
    assert_eq!(o, format!("\x1b[1;1H{}╔╡ Long ╞╗\x1b[2;1H╚╝{}", HDR_ACT, RESET));
}

#[test]
fn whole_screen() {
    let mut panes = Panes { left: some_pane(2), right: some_pane(30) };
    *panes.right.cursor_mut() = 29;
    assert!(screen_drawable(&panes, 10, 40));
    let mut o = String::new();
    render(&mut o, &mut panes, 0, 10, 40);
    assert!(o.starts_with("\x1b[48;2;0;0;170m\x1b[2J\x1b[1;1H"));
    assert_eq!(panes.right.offset(), 24);
    assert_eq!(panes.left.offset(), 0);
    for r in 2..8 {
        assert!(o.contains(&format!("\x1b[{};1H║\x1b[{};21H║\x1b[{};40H║", r, r, r)));
    }
    assert!(o.contains(&format!("\x1b[8;1H{}╚", NORM)));
    assert!(o.contains("\x1b[9;1H\x1b[48;2;0;0;0m"));
    assert!(o.contains("\x1b[10;1H"));
    assert!(!screen_drawable(&panes, 1, 40));
    assert!(!screen_drawable(&panes, 10, 2));
    assert!(screen_drawable(&panes, 2, 3));
    assert!(rows_drawable(&panes.left, 5, 12));
}

#[test]
fn screens_that_would_cut_a_character() {
    let p = Pane::Local(LocalPane::new("/ééé".as_bytes().to_vec(), vec![]));
    let q = Pane::Local(LocalPane::new(b"/".to_vec(), vec![]));
    let panes = Panes { left: p, right: q };
    assert!(screen_drawable(&panes, 24, 80));
    assert!(!screen_drawable(&panes, 24, 16));
    let mut panes = panes;
    let mut o = String::new();
    assert!(!render_if_drawable(&mut o, &mut panes, 0, 24, 16));
    assert!(o.is_empty());
    assert!(render_if_drawable(&mut o, &mut panes, 0, 24, 80));
    let mut again = String::new();
    render(&mut again, &mut panes, 0, 24, 80);
    assert_eq!(o, again);
}

#[test]
fn help_lists_the_keys() {
    assert_eq!(HELP_COUNT, 41);
    assert_eq!(help_at(0), "  Navigation                              ");
    assert_eq!(help_at(40), "  scroll         scroll 3 rows            ");
    let mut o = String::new();
    op_help(&mut o, 50, 100);
    assert!(o.starts_with(&format!("\x1b[4;29H{}╔", HDR_ACT)));
    assert!(o.contains("╡ Keybindings  (any key to close) ╞"));
    assert!(o.contains(&format!("\x1b[5;30H{}  Navigation", NORM)));
    assert!(o.ends_with(&format!("\x1b[45;30H{}{}", NORM, help_at(40))));
    let mut small = String::new();
    op_help(&mut small, 10, 20);
    assert!(small.starts_with(&format!("\x1b[1;1H{}╔", HDR_ACT)));
}
