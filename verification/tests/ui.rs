use ssh_autoport::screen::{Color, Line, Span, Style};
use ssh_autoport::types::{AppView, Cmd, Ev, FwdView, HostView, MasterView, Tier};
use ssh_autoport::ui::{browser_url, Action, Key, KeyCode, Outcome, Ui};

const SECOND: u64 = 1_000_000_000;

fn app(rport: u16, tier: Tier, lport: Option<u16>, status: FwdView) -> AppView {
    AppView {
        rport,
        addr: "lo".into(),
        process: Some("node".into()),
        pid: None,
        cmdline: None,
        comment: None,
        tier,
        overridden: false,
        lport,
        status,
        pinned: false,
        muted: false,
    }
}

fn host(key: &str, apps: Vec<AppView>) -> HostView {
    HostView {
        key: key.into(),
        title: "bob@web01".into(),
        alias: None,
        master: MasterView::Ready { shared: false },
        paused: false,
        scan_err: None,
        scanned_once: true,
        apps,
    }
}

fn active(rport: u16) -> AppView {
    app(rport, Tier::App, Some(rport), FwdView::Active)
}

fn shown(hosts: Vec<HostView>) -> Ui {
    let mut ui = Ui::new(false);
    ui.apply(Ev::Snapshot(hosts), 0);
    ui
}

fn key(code: KeyCode) -> Key {
    Key { code, control: false }
}

fn ch(c: char) -> Key {
    key(KeyCode::Char(c))
}

fn nothing() -> Outcome {
    Outcome { action: Action::Continue, cmd: None, open: None }
}

fn sends(cmd: Cmd) -> Outcome {
    Outcome { action: Action::Continue, cmd: Some(cmd), open: None }
}

fn toggle(key: &str, rport: u16) -> Outcome {
    sends(Cmd::Toggle { host: key.into(), rport })
}

fn plain() -> Style {
    Style { fg: None, bold: false, dim: false, reversed: false }
}

fn dim() -> Style {
    Style { dim: true, ..plain() }
}

fn fg(c: Color) -> Style {
    Style { fg: Some(c), ..plain() }
}

fn span(text: &str, style: Style) -> Span {
    Span { text: text.into(), style }
}

fn line(spans: Vec<Span>) -> Line {
    Line { spans, style: plain() }
}

fn texts(l: &Line) -> String {
    l.spans.iter().map(|s| s.text.as_str()).collect()
}

#[test]
fn keys_move_the_selection_and_stop_at_the_ends() {
    let mut ui = shown(vec![host("a", vec![active(1), active(2)]), host("b", vec![active(3)])]);
    assert_eq!(ui.handle_key(ch('f'), 0), toggle("a", 1));
    assert_eq!(ui.handle_key(key(KeyCode::Up), 0), nothing());
    assert_eq!(ui.handle_key(ch('f'), 0), toggle("a", 1));
    ui.handle_key(ch('j'), 0);
    assert_eq!(ui.handle_key(ch('f'), 0), toggle("a", 2));
    ui.handle_key(key(KeyCode::Down), 0);
    ui.handle_key(key(KeyCode::Down), 0);
    assert_eq!(ui.handle_key(ch('f'), 0), toggle("b", 3));
    ui.handle_key(ch('k'), 0);
    assert_eq!(ui.handle_key(ch('f'), 0), toggle("a", 2));
}

#[test]
fn selection_survives_a_refresh() {
    let mut ui = shown(vec![host("a", vec![active(1), active(2)])]);
    ui.handle_key(ch('j'), 0);
    ui.apply(Ev::Snapshot(vec![host("0", vec![active(9)]), host("a", vec![active(2)])]), 0);
    assert_eq!(ui.handle_key(ch('f'), 0), toggle("a", 2));
    ui.apply(Ev::Snapshot(vec![host("0", vec![active(9)])]), 0);
    assert_eq!(ui.handle_key(ch('f'), 0), toggle("0", 9));
    ui.apply(Ev::Snapshot(vec![]), 0);
    assert_eq!(ui.handle_key(ch('f'), 0), nothing());
    ui.handle_key(ch('j'), 0);
    assert_eq!(ui.handle_key(key(KeyCode::Enter), 0), nothing());
}

#[test]
fn hidden_ports_are_shown_on_demand() {
    let mut ui = shown(vec![host(
        "a",
        vec![app(22, Tier::System, None, FwdView::Off), active(80)],
    )]);
    assert_eq!(ui.handle_key(ch('f'), 0), toggle("a", 80));
    ui.handle_key(ch('a'), 0);
    ui.handle_key(ch('k'), 0);
    assert_eq!(ui.handle_key(ch('f'), 0), toggle("a", 22));
    ui.handle_key(ch('a'), 0);
    assert_eq!(ui.handle_key(ch('f'), 0), toggle("a", 80));
}

#[test]
fn plain_keys_send_commands() {
    let mut ui = shown(vec![host("a", vec![active(80)])]);
    assert_eq!(ui.handle_key(ch('p'), 0), sends(Cmd::ToggleAuto));
    assert_eq!(ui.handle_key(ch('r'), 0), sends(Cmd::Refresh));
    assert_eq!(
        ui.handle_key(ch('h'), 0),
        sends(Cmd::ToggleHidden { host: "a".into(), rport: 80 })
    );
    assert_eq!(ui.handle_key(ch('x'), 0), nothing());
    assert_eq!(ui.handle_key(key(KeyCode::Other), 0), nothing());
    assert_eq!(ui.handle_key(ch('c'), 0), nothing());
}

#[test]
fn two_keys_quit() {
    let quit = Outcome { action: Action::Quit, cmd: None, open: None };
    let mut ui = Ui::new(false);
    assert_eq!(ui.handle_key(ch('q'), 0), quit);
    assert_eq!(ui.handle_key(Key { code: KeyCode::Char('c'), control: true }, 0), quit);
}

#[test]
fn a_port_is_typed_and_assigned() {
    let mut ui = shown(vec![host("a", vec![active(80)])]);
    assert_eq!(ui.handle_key(ch('e'), 0), nothing());
    // The port that it has is there to be changed.
    ui.handle_key(key(KeyCode::Backspace), 0);
    ui.handle_key(key(KeyCode::Backspace), 0);
    ui.handle_key(key(KeyCode::Backspace), 0);
    for c in ['8', 'x', 'q', '1', '2', '3'] {
        assert_eq!(ui.handle_key(ch(c), 0), nothing());
    }
    assert_eq!(
        ui.handle_key(key(KeyCode::Enter), 0),
        sends(Cmd::Assign { host: "a".into(), rport: 80, lport: 8123 })
    );
    // Nothing is being typed any more.
    assert_eq!(ui.handle_key(ch('p'), 0), sends(Cmd::ToggleAuto));
}

#[test]
fn a_bad_port_is_told() {
    let mut ui = shown(vec![host("a", vec![app(80, Tier::App, None, FwdView::Off)])]);
    for typed in ["99999", "0", ""] {
        ui.handle_key(key(KeyCode::Enter), 0);
        for c in typed.chars() {
            ui.handle_key(ch(c), 0);
        }
        assert_eq!(ui.handle_key(key(KeyCode::Enter), SECOND), nothing());
        let note = ui.draw(10, SECOND).note.unwrap();
        assert_eq!(texts(&note), format!(" \"{typed}\" is not a valid port (1-65535)"));
    }
}

#[test]
fn at_most_five_digits_are_typed() {
    let mut ui = shown(vec![host("a", vec![app(80, Tier::App, None, FwdView::Off)])]);
    ui.handle_key(ch('e'), 0);
    for c in "1234567".chars() {
        ui.handle_key(ch(c), 0);
    }
    assert_eq!(
        ui.handle_key(key(KeyCode::Enter), 0),
        sends(Cmd::Assign { host: "a".into(), rport: 80, lport: 12345 })
    );
}

#[test]
fn typing_can_be_cancelled_and_is_prompted() {
    let mut ui = shown(vec![host("a", vec![active(80)])]);
    ui.handle_key(ch('e'), 0);
    let note = ui.draw(10, 0).note.unwrap();
    assert_eq!(
        note,
        line(vec![
            span(" local port for ", plain()),
            span("node (remote :80) on bob@web01", Style { bold: true, ..plain() }),
            span(": ", plain()),
            span("80", Style { bold: true, ..fg(Color::Yellow) }),
            span("▏", fg(Color::Yellow)),
            span("   Enter apply · Esc cancel", dim()),
        ])
    );
    ui.handle_key(key(KeyCode::Esc), 0);
    assert_eq!(ui.draw(10, 0).note, None);
}

#[test]
fn forwarded_apps_can_be_opened() {
    let mut ui = shown(vec![host("a", vec![active(80)])]);
    let out = ui.handle_key(ch('o'), 0);
    assert_eq!(out, Outcome { action: Action::Continue, cmd: None, open: Some(80) });
    assert_eq!(browser_url(80), "http://127.0.0.1:80/");
    let mut ui = shown(vec![host("a", vec![app(80, Tier::App, Some(80), FwdView::Pending)])]);
    assert_eq!(ui.handle_key(ch('o'), 0), nothing());
    assert_eq!(texts(&ui.draw(9, 0).note.unwrap()), " not forwarded yet — nothing to open");
    let mut ui = Ui::new(true);
    assert_eq!(ui.handle_key(ch('o'), 0), nothing());
    assert_eq!(ui.draw(9, 0).note, None);
}

#[test]
fn messages_fade_after_six_seconds() {
    let mut ui = Ui::new(false);
    ui.apply(Ev::Toast("hello".into()), SECOND);
    assert_eq!(
        ui.draw(9, 7 * SECOND - 1).note,
        Some(line(vec![span(" hello", fg(Color::Yellow))]))
    );
    assert_eq!(ui.draw(9, 7 * SECOND).note, None);
    // Forgotten for good.
    assert_eq!(ui.draw(9, SECOND).note, None);
}

#[test]
fn the_header_tells_mode_and_connections() {
    let mut ui = shown(vec![host("a", vec![])]);
    assert_eq!(
        ui.draw(9, 0).header,
        line(vec![
            span(" ssh-autoport ", Style { bold: true, reversed: true, ..plain() }),
            span("  ", plain()),
            span("auto-forward ON", fg(Color::Green)),
            span("  ·  1 connection", dim()),
        ])
    );
    ui.apply(Ev::AutoMode(false), 0);
    ui.apply(Ev::CleanedUp, 0);
    ui.apply(Ev::Snapshot(vec![]), 0);
    let s = ui.draw(9, 0);
    assert_eq!(s.header.spans[2], span("auto-forward OFF", fg(Color::Red)));
    assert_eq!(s.header.spans[3].text, "  ·  0 connections");
    assert_eq!(
        texts(&s.help),
        " ↑↓ select · ⏎/e set port · f forward on/off · o open · a system ports · p auto · r refresh · q quit"
    );
}

#[test]
fn without_connections_there_is_a_hint() {
    let mut ui = Ui::new(false);
    let s = ui.draw(9, 0);
    assert_eq!(s.body.len(), 2);
    assert_eq!(s.body[0], line(vec![]));
    assert_eq!(
        texts(&s.body[1]),
        "  No active SSH connections. Open one (e.g. `ssh myserver`) and it will appear here."
    );
}

#[test]
fn apps_are_drawn_in_columns() {
    let mut pinned = active(3000);
    pinned.pinned = true;
    let mut ui = shown(vec![host(
        "a",
        vec![app(22, Tier::System, None, FwdView::Off), pinned, active(8000)],
    )]);
    let body = ui.draw(20, 0).body;
    let all: Vec<String> = body.iter().map(texts).collect();
    assert_eq!(
        all,
        vec![
            "",
            " ● bob@web01",
            "   PROCESS                  REMOTE             LOCAL  STATUS",
            " ▸ node                    lo:3000    127.0.0.1:3000  ● forwarded  ⊙ pinned",
            "   node                    lo:8000    127.0.0.1:8000  ● forwarded",
            "   + 1 system port hidden (press a)",
        ]
    );
    assert_eq!(body[3].style, Style { reversed: true, ..plain() });
    assert_eq!(body[4].style, plain());
    assert_eq!(body[4].spans[1], span("● ", fg(Color::Green)));
}

#[test]
fn statuses_have_their_marks() {
    let tail = |a: AppView| {
        let mut ui = Ui::new(true);
        ui.apply(Ev::Snapshot(vec![host("a", vec![active(1), a])]), 0);
        let l = ui.draw(20, 0).body.remove(4);
        (l.spans[1].text.clone(), l.spans[2].text.clone(), l.spans[2].style)
    };
    let t = |m: &str, w: &str, s: Style| (m.to_string(), w.to_string(), s);
    let a = |s: FwdView| app(2, Tier::App, None, s);
    assert_eq!(tail(a(FwdView::External)), t("⇄ ", "via your ssh", fg(Color::Cyan)));
    assert_eq!(tail(a(FwdView::Pending)), t("◌ ", "connecting…", fg(Color::Yellow)));
    assert_eq!(tail(a(FwdView::Off)), t("○ ", "—", fg(Color::DarkGray)));
    let mut muted = a(FwdView::Off);
    muted.muted = true;
    assert_eq!(tail(muted), t("○ ", "off", fg(Color::DarkGray)));
    assert_eq!(tail(a(FwdView::Error("no".into()))), t("✖ ", "no", fg(Color::Red)));
    assert_eq!(
        tail(app(2, Tier::System, None, FwdView::Off)),
        t("○ ", "—  [system]", dim())
    );
    assert_eq!(tail(app(2, Tier::Bg, None, FwdView::Off)), t("○ ", "—", dim()));
}

#[test]
fn hosts_are_drawn_by_their_state() {
    let first = |h: HostView| shown(vec![h]).draw(20, 0).body.remove(1);
    let bold = Style { bold: true, ..plain() };
    let mut h = host("a", vec![]);
    h.master = MasterView::Connecting;
    h.alias = Some("web".into());
    assert_eq!(
        first(h),
        line(vec![
            span(" ", plain()),
            span("⟳ ", fg(Color::Yellow)),
            span("bob@web01", bold),
            span("  connecting…", fg(Color::Yellow)),
            span("  [web]", dim()),
        ])
    );
    let mut h = host("a", vec![]);
    h.master = MasterView::Ready { shared: true };
    h.scan_err = Some("oops".into());
    assert_eq!(
        first(h),
        line(vec![
            span(" ", plain()),
            span("● ", fg(Color::Green)),
            span("bob@web01", bold),
            span("  (sharing your ssh session)", dim()),
            span("  scan failed: oops", fg(Color::Red)),
        ])
    );
    let mut h = host("a", vec![active(1)]);
    h.master = MasterView::Failed("no route".into());
    let mut ui = shown(vec![h]);
    let body = ui.draw(20, 0).body;
    assert_eq!(texts(&body[1]), " ✖ bob@web01  no route");
    assert_eq!(body.len(), 2);
}

#[test]
fn empty_hosts_say_why() {
    let say = |h: HostView| texts(&shown(vec![h]).draw(20, 0).body[2]);
    let mut h = host("a", vec![]);
    assert_eq!(say(h.clone()), "   no listening apps detected");
    h.scanned_once = false;
    assert_eq!(say(h), "   scanning…");
    let two = vec![
        app(22, Tier::System, None, FwdView::Off),
        app(53, Tier::Bg, None, FwdView::Off),
    ];
    assert_eq!(say(host("a", two)), "   no apps detected (2 system ports hidden — press a)");
}

#[test]
fn the_selected_line_stays_in_view() {
    let apps: Vec<AppView> = (1..=20).map(active).collect();
    let mut ui = shown(vec![host("a", apps)]);
    assert_eq!(ui.draw(5, 0).scroll, 0);
    for _ in 0..19 {
        ui.handle_key(ch('j'), 0);
    }
    // The last app is line 22 of 23; the body has 5 lines.
    assert_eq!(ui.draw(5, 0).scroll, 18);
    for _ in 0..19 {
        ui.handle_key(ch('k'), 0);
    }
    assert_eq!(ui.draw(5, 0).scroll, 3);
    ui.apply(Ev::Snapshot(vec![]), 0);
    assert_eq!(ui.draw(0, 0).scroll, 1);
}
