//! Widgets, the shell's cards and the window manager.
use iona::gui::canvas::DrawOp;
use iona::gui::events::{GuiEvent, Key, Mods, MouseBtn};
use iona::gui::theme;
use iona::gui::theme::{ColorToken, Palette, RadiusToken, SpacingToken};
use iona::gui::widgets::{
    draw_label, BtnState, Button, Checkbox, Dropdown, MenuBar, Modal, ProgressBar, Rect,
    ScrollView, Slider, TabBar, TextInput, Tooltip,
};
use iona::gui::widgets_shell::calendar;
use iona::gui::widgets_shell::media_player;
use iona::gui::widgets_shell::system_monitor;
use iona::gui::widgets_shell::tasks;
use iona::gui::widgets_shell::weather;
use iona::gui::wm;
use iona::gui::wm::{DragState, HitResult, ShellLayout, Window, WindowEvent, WmAction, WmState};

fn palette() -> Palette {
    Palette {
        glass: 1,
        glass_border: 2,
        glass_dark: 3,
        glass_hover: 4,
        accent: 5,
        accent_soft: 6,
        accent_glow: 7,
        text_primary: 8,
        text_secondary: 9,
        text_muted: 10,
        text_accent: 11,
        status_ok: 12,
        status_warn: 13,
        status_err: 14,
        shell_bar: 15,
        shell_border: 16,
        dock_bg: 17,
        dock_item_hover: 18,
        dock_item_active: 19,
        taskbar_item: 20,
        taskbar_item_active: 21,
        taskbar_item_hover: 22,
        progress_bg: 23,
        progress_fg: 24,
        bg_sky_bot: 25,
    }
}

fn texts(ops: &[DrawOp]) -> Vec<String> {
    ops.iter()
        .filter_map(|op| match op {
            DrawOp::Text { text, .. } | DrawOp::TextFit { text, .. } => Some(text.clone()),
            _ => None,
        })
        .collect()
}

// --------------------------------------------------------------------------
// Theme
// --------------------------------------------------------------------------

#[test]
fn theme_tokens_have_values() {
    let p = palette();
    assert_eq!(theme::color(ColorToken::AccentBlue, &p), 5);
    assert_eq!(theme::color(ColorToken::ProgressFg, &p), 24);
    assert_eq!(theme::rgb(0x123456), (0x12, 0x34, 0x56));
    assert_eq!(SpacingToken::Xs.pixels(), 4);
    assert!(theme::radius(RadiusToken::Card) >= theme::radius(RadiusToken::CardXs));
}

// --------------------------------------------------------------------------
// Widgets
// --------------------------------------------------------------------------

#[test]
fn rect_holds_its_points() {
    let r = Rect { x: 10, y: 20, w: 5, h: 5 };
    assert!(r.contains(10, 20));
    assert!(r.contains(14, 24));
    assert!(!r.contains(15, 20));
    assert!(!r.contains(9, 20));
    assert!(!r.contains(-1, 20));
}

#[test]
fn button_click_is_press_and_release() {
    let mut b = Button::new(10, 10, 80, 24, "OK");
    assert!(!b.on_mouse(20, 20, false));
    assert!(matches!(b.state, BtnState::Hover));
    assert!(!b.on_mouse(20, 20, true));
    assert!(matches!(b.state, BtnState::Pressed));
    assert!(b.on_mouse(20, 20, false));
    assert!(!b.on_mouse(200, 20, true));
    assert!(matches!(b.state, BtnState::Normal));
    b.state = BtnState::Disabled;
    assert!(!b.on_mouse(20, 20, true));
    assert!(texts(&b.draw(&palette())).contains(&"OK".to_string()));
}

#[test]
fn text_input_edits_at_the_cursor() {
    let mut t = TextInput::new(0, 0, 200, "type here");
    assert!(texts(&t.draw(0, &palette())).contains(&"type here".to_string()));
    assert!(t.on_click(5, 5));
    assert!(t.focused);
    for c in "abc".chars() {
        t.on_key(&Key::Char(c), Some(c));
    }
    assert_eq!((t.value.as_str(), t.cursor), ("abc", 3));
    t.on_key(&Key::Left, None);
    t.on_key(&Key::Backspace, None);
    assert_eq!((t.value.as_str(), t.cursor), ("ac", 1));
    t.on_key(&Key::Delete, None);
    assert_eq!(t.value, "a");
    t.on_key(&Key::Home, None);
    assert_eq!(t.cursor, 0);
    t.on_key(&Key::End, None);
    assert_eq!(t.cursor, 1);
    t.on_key(&Key::Char('x'), Some('x'));
    t.on_key(&Key::Backspace, None);
    assert_eq!((t.value.as_str(), t.cursor), ("a", 1));
    assert!(!t.on_click(500, 5));
    assert!(!t.focused);
}

#[test]
fn text_input_moves_by_whole_characters() {
    let mut t = TextInput::new(0, 0, 100, "p");
    t.on_key(&Key::Char('\u{e9}'), Some('\u{e9}'));
    assert_eq!((t.value.as_str(), t.cursor), ("\u{e9}", 2));
    t.on_key(&Key::Char('a'), Some('a'));
    t.on_key(&Key::Char('\u{20ac}'), Some('\u{20ac}'));
    assert_eq!((t.value.as_str(), t.cursor), ("\u{e9}a\u{20ac}", 6));
    t.on_key(&Key::Left, None);
    assert_eq!(t.cursor, 3);
    t.on_key(&Key::Left, None);
    t.on_key(&Key::Left, None);
    assert_eq!(t.cursor, 0);
    t.on_key(&Key::Right, None);
    assert_eq!(t.cursor, 2);
    t.on_key(&Key::Backspace, None);
    assert_eq!((t.value.as_str(), t.cursor), ("a\u{20ac}", 0));
    t.on_key(&Key::End, None);
    t.on_key(&Key::Backspace, None);
    assert_eq!((t.value.as_str(), t.cursor), ("a", 1));
}

#[test]
fn label_is_one_text() {
    match draw_label("hi", 3, 4, 5, 6).as_slice() {
        [DrawOp::Text { text, x, y, fg, bg }] => {
            assert_eq!((text.as_str(), *x, *y, *fg, *bg), ("hi", 3, 4, 5, 6));
        }
        _ => panic!("expected one text"),
    }
}

#[test]
fn progress_bar_fills() {
    let mut b = ProgressBar::new(0, 0, 100, 10, &palette());
    assert_eq!(b.filled, 0);
    b.set(40);
    assert_eq!(b.filled, 40);
    assert!(!b.draw().is_empty());
}

#[test]
fn checkbox_toggles() {
    let mut c = Checkbox::new(0, 0, "on");
    assert!(c.on_click(1, 1));
    assert!(c.checked);
    assert!(c.on_click(1, 1));
    assert!(!c.checked);
    assert!(!c.on_click(500, 500));
}

#[test]
fn scrolling_stays_in_the_content() {
    let mut s = ScrollView::new(0, 0, 100, 50);
    s.content_h = 120;
    s.scroll_by(1000);
    assert_eq!(s.scroll_y, 70);
    s.scroll_by(-1);
    assert_eq!(s.scroll_y, 50);
    s.scroll_by(-1000);
    assert_eq!(s.scroll_y, 0);
    assert_eq!(s.viewport().w, 90);
    assert!(!s.draw_scrollbar(&palette()).is_empty());
}

#[test]
fn slider_follows_the_mouse() {
    let mut s = Slider::new(10, 0, 100, &palette());
    assert!(s.on_mouse(60, 5, true).is_some());
    assert!(s.dragging);
    s.on_mouse(60, 5, false);
    assert!(!s.dragging);
    assert!(texts(&s.draw(50, 50, &palette())).iter().any(|t| t.contains("50")));
}

#[test]
fn tooltip_shows_and_goes() {
    let mut t = Tooltip::new("tip");
    assert!(t.draw(&palette()).is_empty());
    t.show(5, 6);
    assert_eq!(texts(&t.draw(&palette())), vec!["tip".to_string()]);
    t.dismiss();
    assert!(!t.visible);
}

#[test]
fn dropdown_chooses_the_row_under_the_point() {
    let mut d = Dropdown::new(0, 0, 100, vec!["a".to_string(), "b".to_string(), "c".to_string()]);
    assert_eq!(d.on_click(5, 5), None);
    assert!(d.open);
    assert_eq!(d.on_click(5, 24 + 2 + 22), Some(1));
    assert_eq!(d.selected, 1);
    assert!(!d.open);
    d.on_click(5, 5);
    assert_eq!(d.on_click(500, 500), None);
    assert!(!d.open);
}

#[test]
fn menu_bar_opens_and_chooses() {
    let mut m = MenuBar::new(0, 0, 400);
    m.add_menu("File", vec!["Open", "---", "Quit"]);
    assert_eq!(m.on_click(10, 5), None);
    assert_eq!(m.active, Some(0));
    let shown = texts(&m.draw(&palette()));
    assert!(shown.contains(&"Open".to_string()) && shown.contains(&"Quit".to_string()));
    let open = m.on_click(10, 24 + 5);
    assert_eq!(open, Some((0, 0)));
    assert_eq!(m.active, None);
    m.on_click(10, 5);
    let sep = m.on_click(10, 24 + 22 + 3);
    assert_eq!(sep, None);
    m.on_click(10, 5);
    assert_eq!(m.on_click(10, 24 + 44 + 5), None);
    m.on_click(10, 5);
    assert_eq!(m.on_click(10 + 4 * 8 + 16, 24 + 44 + 5), Some((0, 2)));
}

#[test]
fn dialog_answers_with_the_button_under_the_point() {
    let mut m = Modal::new("T", "Sure?", vec!["Yes", "No"], 800, 600);
    assert!(m.draw(&palette()).is_empty());
    m.show();
    let no = m.btns[1].rect;
    assert_eq!(m.on_click(no.x as i32 + 1, no.y as i32 + 1), Some(1));
    assert_eq!(m.result, Some(1));
    assert!(!m.visible);
    m.show();
    assert_eq!(m.on_click(0, 0), None);
    m.dismiss();
    assert!(!m.visible);
}

#[test]
fn tab_bar_switches() {
    let mut t = TabBar::new(0, 0, 400);
    t.add("one");
    t.add("two");
    assert_eq!(t.on_click(400, 5), None);
    assert_eq!(t.on_click(199, 5), Some(0));
    let second = (0..400).find(|&x| {
        let mut u = TabBar::new(0, 0, 400);
        u.add("one");
        u.add("two");
        u.on_click(x, 5) == Some(1)
    });
    let x = second.unwrap();
    assert_eq!(t.on_click(x, 5), Some(1));
    assert_eq!(t.active, 1);
    assert!(texts(&t.draw(&palette())).contains(&"two".to_string()));
}

// --------------------------------------------------------------------------
// Cards of the shell
// --------------------------------------------------------------------------

#[test]
fn cards_show_their_state() {
    let p = palette();
    let c = calendar::CalendarState {
        month_label: "May".to_string(),
        day: 2,
        events: vec![calendar::CalendarEvent {
            time: "10:00".to_string(),
            label: "Meet".to_string(),
            color: 7,
        }],
    };
    let shown = texts(&calendar::draw(0, 0, 300, 200, &c, &p));
    assert!(shown.iter().any(|t| t.contains("May")));
    assert!(shown.iter().any(|t| t.contains("Meet")));

    let t = tasks::TasksState {
        items: vec![tasks::Task { label: "Ship".to_string(), done: true, color: 3 }],
    };
    assert!(texts(&tasks::draw(0, 0, 300, 200, &t, &p)).iter().any(|t| t.contains("Ship")));

    let w = weather::WeatherState {
        city: "Iasi".to_string(),
        temp: -3,
        description: "Snow".to_string(),
        forecast: vec![weather::ForecastDay { label: "Mon".to_string(), temp: 1 }],
    };
    let shown = texts(&weather::draw(0, 0, 300, 200, &w, &p));
    assert!(shown.iter().any(|t| t.contains("-3")));
    assert!(shown.iter().any(|t| t.contains("Iasi")));

    let m = media_player::MediaState {
        title: "Song".to_string(),
        artist: "Band".to_string(),
        playing: true,
        filled: 10,
    };
    assert!(texts(&media_player::draw(0, 0, 300, 200, &m, &p)).iter().any(|t| t.contains("Song")));

    let s = system_monitor::MonitorState {
        cpu_pct: 42,
        ram_pct: 10,
        disk_pct: 0,
        net: "1 KB/s".to_string(),
        node_h: 77,
        peers: 3,
    };
    let ops = system_monitor::draw(0, 0, 300, 200, &s, &p);
    let shown = texts(&ops);
    assert!(shown.iter().any(|t| t.contains("42")));
    assert!(shown.iter().any(|t| t.contains("77")));
}

// --------------------------------------------------------------------------
// Window manager
// --------------------------------------------------------------------------

const NO_MODS: Mods = Mods { shift: false, ctrl: false, alt: false };

fn desk() -> (WmState, u32, u32) {
    let mut w = wm::init(0);
    let (a, _) = wm::create_window(&mut w, "a", 100, 100, 200, 150, 1);
    let (b, _) = wm::create_window(&mut w, "b", 150, 150, 200, 150, 2);
    (w, a, b)
}

#[test]
fn window_parts_are_hit() {
    let w = Window::new(1, "w".to_string(), 100, 100, 200, 150, 1, 0);
    assert_eq!((w.frame_x(), w.frame_y()), (99, 69));
    assert_eq!((w.frame_w(), w.frame_h()), (202, 182));
    assert!(matches!(w.hit_detail(150, 120), HitResult::Client));
    assert!(matches!(w.hit_detail(180, 80), HitResult::Titlebar));
    assert!(matches!(w.hit_detail(10, 10), HitResult::Nothing));
    let (cx, cy) = w.btn_close();
    assert!(matches!(w.hit_detail(cx + 6, cy + 6), HitResult::BtnClose));
}

#[test]
fn newest_window_is_on_top() {
    let (w, a, b) = desk();
    assert_eq!(w.top_at(200, 200), Some(b));
    assert_eq!(w.top_at(110, 110), Some(a));
    assert_eq!(w.top_at(700, 700), None);
    assert_eq!(wm::focused_window(&w), Some(b));
}

#[test]
fn bringing_to_the_front_keeps_the_order() {
    let (mut w, a, b) = desk();
    let (c, _) = wm::create_window(&mut w, "c", 10, 60, 50, 50, 3);
    w.bring_to_front(a);
    for _ in 0..2 {
        assert_eq!(w.z_order, vec![a, c, b]);
        let z: Vec<u32> =
            w.z_order.iter().map(|id| w.windows.iter().find(|x| x.id == *id).unwrap().z).collect();
        assert_eq!(z, vec![3, 2, 1]);
        w.bring_to_front(a);
    }
}

#[test]
fn focus_goes_to_the_topmost_window_under_the_cursor() {
    let (mut w, a, b) = desk();
    wm::focus_under_cursor(&mut w, 200, 200);
    assert_eq!(wm::focused_window(&w), Some(b));
    wm::on_ldown(&mut w, 110, 110, 800, 600);
    assert_eq!(w.top_at(200, 200), Some(a));
    wm::focus_under_cursor(&mut w, 330, 290);
    assert_eq!(wm::focused_window(&w), Some(b));
    wm::focus_under_cursor(&mut w, 200, 200);
    assert_eq!(wm::focused_window(&w), Some(a));
    wm::focus_under_cursor(&mut w, 700, 700);
    assert_eq!(wm::focused_window(&w), Some(a));
}

#[test]
fn click_focuses_and_raises() {
    let (mut w, a, b) = desk();
    let actions = wm::on_ldown(&mut w, 110, 110, 800, 600);
    assert_eq!(wm::focused_window(&w), Some(a));
    assert_eq!(w.top_at(200, 200), Some(a));
    assert!(actions.iter().any(|x| matches!(
        x,
        WmAction::Send { wid, event: WindowEvent::MouseButton { x: 110, y: 110, down: true, .. } } if *wid == a
    )));
    wm::on_move(&mut w, 300, 290, 1, 1, 800, 600);
    assert_eq!(wm::focused_window(&w), Some(a));
    assert_eq!(w.hovered, Some(b));
}

#[test]
fn titlebar_drags_the_window() {
    let (mut w, a, _) = desk();
    wm::on_ldown(&mut w, 180, 80, 800, 600);
    assert!(matches!(w.drag, DragState::Moving { wid, .. } if wid == a));
    wm::on_move(&mut w, 230, 130, 50, 50, 800, 600);
    assert_eq!((w.windows[0].x, w.windows[0].y), (150, 149));
    wm::on_lup(&mut w, 230, 130);
    assert!(matches!(w.drag, DragState::Idle));
    wm::on_ldown(&mut w, 230, 130, 800, 600);
    wm::on_move(&mut w, 5000, -5000, 0, 0, 800, 600);
    assert_eq!((w.windows[0].x, w.windows[0].y), (740, 30));
}

#[test]
fn maximising_twice_restores() {
    let (mut w, a, _) = desk();
    wm::on_ldown(&mut w, 110, 110, 800, 600);
    let before = (w.windows[0].x, w.windows[0].y, w.windows[0].w, w.windows[0].h);
    let (bx, by) = w.windows[0].btn_max();
    wm::on_ldown(&mut w, bx + 6, by + 6, 800, 600);
    assert!(w.windows[0].maximized);
    let (bx, by) = w.windows[0].btn_max();
    wm::on_ldown(&mut w, bx + 6, by + 6, 800, 600);
    assert!(!w.windows[0].maximized);
    assert_eq!((w.windows[0].x, w.windows[0].y, w.windows[0].w, w.windows[0].h), before);
    assert_eq!(wm::focused_window(&w), Some(a));
}

#[test]
fn closed_window_is_gone() {
    let (mut w, a, b) = desk();
    let actions = wm::close_window(&mut w, b);
    assert!(actions.iter().any(|x| matches!(x, WmAction::Fill { color: wm::VACATED, .. })));
    assert_eq!(w.windows.len(), 1);
    assert_eq!(w.top_at(330, 280), None);
    assert_ne!(wm::focused_window(&w), Some(b));
    assert_eq!(w.z_order, vec![a]);
}

#[test]
fn keys_go_to_the_focused_window() {
    let (w, _, b) = desk();
    let actions = wm::on_key(&w, Key::Char('q'), Some('q'), NO_MODS);
    assert!(actions.iter().any(|x| matches!(
        x,
        WmAction::Send { wid, event: WindowEvent::Key { ascii: b'q', down: true, .. } } if *wid == b
    )));
    assert_eq!(wm::key_code(Key::F1), 0x70);
}

#[test]
fn pixels_of_a_window_change() {
    let (mut w, a, _) = desk();
    wm::update_pixels(&mut w, a, 1, 1, 2, 1, &vec![7, 8]);
    assert_eq!(w.windows[0].pixels[201], 7);
    assert_eq!(w.windows[0].pixels[202], 8);
    assert_eq!(w.windows[0].pixels[203], 0);
    wm::set_title(&mut w, a, "new".to_string());
    assert_eq!(w.windows[0].title, "new");
}

#[test]
fn events_are_dispatched() {
    let (mut w, a, _) = desk();
    let ev = GuiEvent::MouseDown { x: 110, y: 110, button: MouseBtn::Left };
    wm::dispatch_event(&mut w, ev, 800, 600);
    assert_eq!(wm::focused_window(&w), Some(a));
    wm::dispatch_event(&mut w, GuiEvent::AppClose { wid: a }, 800, 600);
    assert_eq!(w.windows.len(), 1);
}

#[test]
fn windows_snap_minimise_and_cycle() {
    let (mut w, a, b) = desk();
    let l = ShellLayout { screen_w: 800, screen_h: 600, topbar_h: 30, sidebar_w: 60, taskbar_h: 40 };
    assert_eq!(wm::snap_zone(70, 300, &l), Some("left"));
    assert_eq!(wm::snap_zone(390, 300, &l), Some("right"));
    assert_eq!(wm::snap_zone(200, 40, &l), Some("maximize"));
    assert_eq!(wm::snap_zone(200, 300, &l), None);
    w.windows[0].x = 70;
    wm::snap_to_edge(&mut w, a, &l);
    assert_eq!((w.windows[0].x, w.windows[0].y), (61, 61));
    assert_eq!((w.windows[0].w, w.windows[0].h), (370, 498));
    wm::minimize_window(&mut w, b);
    assert!(w.windows[1].minimized && !w.windows[1].visible);
    wm::restore_window(&mut w, b);
    assert!(w.windows[1].visible);
    assert_eq!(w.focused, Some(b));
    wm::focus_next_window(&mut w);
    assert_eq!(w.focused, Some(a));
    wm::focus_under_cursor(&mut w, 160, 160);
    assert!(w.focused.is_some());
}
