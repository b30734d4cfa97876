//! What the lines on the screen say.
use vstd::prelude::*;
use crate::host;
use crate::laws;
use crate::screen;
use crate::screen::{Color, Style};
use crate::text;
use crate::text_laws;
use crate::types;
use crate::types::Tier;
use crate::ui;

verus! {

/// So many blanks as it takes to make a text of this length `width` characters long.
pub open spec fn fill(len: nat, width: nat) -> Seq<char> {
    Seq::new(
        if len < width {
            (width - len) as nat
        } else {
            0
        },
        |i: int| ' ',
    )
}

/// The line of an app shows its process, the address and port on the remote, and the local port, each
/// in its column: the process on the left, the others on the right of theirs.
pub proof fn app_lines_have_three_columns(app: types::AppModel, selected: bool)
    ensures
        ({
            let process = match app.process {
                Some(p) => p,
                None => "?"@,
            };
            let there = app.addr + ":"@ + text::decimal(app.rport as nat);
            let here = match app.lport {
                Some(p) => "127.0.0.1:"@ + text::decimal(p as nat),
                None => "—"@,
            };
            let cursor = if selected {
                " ▸ "@
            } else {
                "   "@
            };
            let l = screen::app_line(app, selected);
            &&& l.spans.len() == 3
            &&& l.spans[0].text == cursor + process + fill(process.len(), 18) + " "@ + fill(
                there.len(),
                12,
            ) + there + " "@ + fill(here.len(), 17) + here + "  "@
        }),
{
    let process = match app.process {
        Some(p) => p,
        None => "?"@,
    };
    let there = app.addr + ":"@ + text::decimal(app.rport as nat);
    let here = match app.lport {
        Some(p) => "127.0.0.1:"@ + text::decimal(p as nat),
        None => "—"@,
    };
    let cursor = if selected {
        " ▸ "@
    } else {
        "   "@
    };
    let t = screen::app_line(app, selected).spans[0].text;
    assert(screen::pad_right(process, 18) =~= process + fill(process.len(), 18));
    assert(screen::pad_left(there, 12) =~= fill(there.len(), 12) + there);
    assert(screen::pad_left(here, 17) =~= fill(here.len(), 17) + here);
    assert(t == cursor + screen::columns(process, there, here));
    lemma_columns(
        cursor,
        process,
        fill(process.len(), 18),
        fill(there.len(), 12),
        there,
        fill(here.len(), 17),
        here,
        " "@,
        "  "@,
    );
}

proof fn lemma_assoc(a: Seq<char>, b: Seq<char>, c: Seq<char>)
    ensures
        a + (b + c) == a + b + c,
{
    assert(a + (b + c) =~= a + b + c);
}

proof fn lemma_columns(
    c: Seq<char>,
    p: Seq<char>,
    f: Seq<char>,
    g: Seq<char>,
    t: Seq<char>,
    k: Seq<char>,
    l: Seq<char>,
    one: Seq<char>,
    two: Seq<char>,
)
    ensures
        c + ((p + f) + one + (g + t) + one + (k + l) + two) == c + p + f + one + g + t + one + k + l
            + two,
{
    let x = p + f;
    let y = g + t;
    let z = k + l;
    lemma_assoc(c, x + one + y + one + z, two);
    lemma_assoc(c, x + one + y + one, z);
    lemma_assoc(c, x + one + y, one);
    lemma_assoc(c, x + one, y);
    lemma_assoc(c, x, one);
    lemma_assoc(c, p, f);
    lemma_assoc(c + p + f + one, g, t);
    lemma_assoc(c + p + f + one + g + t + one, k, l);
}

/// Wherever an app has a local port, the first span of its line ends, but for two blanks, in
/// 127.0.0.1: and a decimal that reads back as that port.
pub proof fn lines_tell_the_local_port(app: types::AppModel, selected: bool, p: u16)
    requires
        app.lport == Some(p),
    ensures
        ({
            let t = screen::app_line(app, selected).spans[0].text;
            let d = text::decimal(p as nat);
            let tail = "127.0.0.1:"@ + d + "  "@;
            &&& t.len() > tail.len()
            &&& t.skip(t.len() - tail.len()) == tail
            &&& text::parse_uint(d, 10, 65535) == Some(p as nat)
        }),
{
    app_lines_have_three_columns(app, selected);
    laws::decimal_reads_back(p as nat, 65535);
    reveal_strlit(" ");
    let t = screen::app_line(app, selected).spans[0].text;
    let here = "127.0.0.1:"@ + text::decimal(p as nat);
    let tail = here + "  "@;
    assert(t.skip(t.len() - tail.len()) =~= tail);
    assert("127.0.0.1:"@ + text::decimal(p as nat) + "  "@ =~= tail);
}

/// Two apps that differ only in their local port have different lines.
pub proof fn lines_differ_with_the_local_port(
    app: types::AppModel,
    selected: bool,
    p: u16,
    q: u16,
)
    requires
        p != q,
    ensures
        screen::app_line(types::AppModel { lport: Some(p), ..app }, selected).spans[0].text
            != screen::app_line(types::AppModel { lport: Some(q), ..app }, selected).spans[0].text,
{
    let a = types::AppModel { lport: Some(p), ..app };
    let b = types::AppModel { lport: Some(q), ..app };
    let s = screen::app_line(a, selected).spans[0].text;
    let t = screen::app_line(b, selected).spans[0].text;
    lines_tell_the_local_port(a, selected, p);
    lines_tell_the_local_port(b, selected, q);
    if s == t {
        lemma_same_tail(t, p, q);
    }
}

proof fn lemma_same_tail(t: Seq<char>, p: u16, q: u16)
    requires
        ({
            let x = "127.0.0.1:"@ + text::decimal(p as nat) + "  "@;
            let y = "127.0.0.1:"@ + text::decimal(q as nat) + "  "@;
            &&& t.len() > x.len()
            &&& t.len() > y.len()
            &&& t.skip(t.len() - x.len()) == x
            &&& t.skip(t.len() - y.len()) == y
        }),
    ensures
        p == q,
{
    reveal_strlit("127.0.0.1:");
    reveal_strlit("  ");
    let c = text::decimal(p as nat);
    let d = text::decimal(q as nat);
    laws::lemma_decimal(p as nat);
    laws::lemma_decimal(q as nat);
    let x = "127.0.0.1:"@ + c + "  "@;
    let y = "127.0.0.1:"@ + d + "  "@;
    let n = t.len();
    if c.len() == d.len() {
        assert(x == y);
        assert(x.subrange(10, 10 + c.len() as int) =~= c);
        assert(y.subrange(10, 10 + d.len() as int) =~= d);
        text_laws::decimals_differ(p as nat, q as nat);
    } else if c.len() > d.len() {
        let k = (n - 2 - d.len() - 1) as int;
        assert(t[k] == y[k - (n - y.len())]);
        assert(y[9] == ':');
        assert(k - (n - y.len()) == 9);
        assert(t[k] == x[k - (n - x.len())]);
        let j = k - (n - x.len()) - 10;
        assert(x[j + 10] == c[j]);
        assert('0' <= c[j] <= '9');
    } else {
        let k = (n - 2 - c.len() - 1) as int;
        assert(t[k] == x[k - (n - x.len())]);
        assert(x[9] == ':');
        assert(k - (n - x.len()) == 9);
        assert(t[k] == y[k - (n - y.len())]);
        let j = k - (n - y.len()) - 10;
        assert(y[j + 10] == d[j]);
        assert('0' <= d[j] <= '9');
    }
}

/// The line of an app says how its forward stands, in words, with a mark and in a color of its own;
/// that it is pinned, and that it is a system service, is said behind that.
pub proof fn app_lines_tell_the_status(app: types::AppModel, selected: bool)
    ensures
        ({
            let l = screen::app_line(app, selected);
            let more = (if app.pinned {
                "  ⊙ pinned"@
            } else {
                ""@
            }) + (if app.tier == Tier::System {
                "  [system]"@
            } else {
                ""@
            });
            let faded = app.tier != Tier::App && !selected;
            let look = |c: Color|
                if faded {
                    Style { fg: None, bold: false, dim: true, reversed: false }
                } else {
                    Style { fg: Some(c), bold: false, dim: false, reversed: false }
                };
            let says = |mark: Seq<char>, words: Seq<char>, c: Color|
                l.spans[1].text == mark && l.spans[2].text == words + more && l.spans[1].style == look(
                    c,
                ) && l.spans[2].style == look(c);
            &&& app.status is Active ==> says("● "@, "forwarded"@, Color::Green)
            &&& app.status is External ==> says("⇄ "@, "via your ssh"@, Color::Cyan)
            &&& app.status is Pending ==> says("◌ "@, "connecting…"@, Color::Yellow)
            &&& app.status is Off && app.muted ==> says("○ "@, "off"@, Color::DarkGray)
            &&& app.status is Off && !app.muted ==> says("○ "@, "—"@, Color::DarkGray)
            &&& app.status matches types::FwdModel::Error(e) ==> says("✖ "@, e, Color::Red)
            &&& l.spans[0].style == (Style { fg: None, bold: false, dim: faded, reversed: false })
            &&& l.style == (Style { fg: None, bold: false, dim: false, reversed: selected })
        }),
{
    reveal_strlit(" ");
    reveal_strlit("●");
    reveal_strlit("● ");
    reveal_strlit("⇄");
    reveal_strlit("⇄ ");
    reveal_strlit("◌");
    reveal_strlit("◌ ");
    reveal_strlit("○");
    reveal_strlit("○ ");
    reveal_strlit("✖");
    reveal_strlit("✖ ");
    reveal_strlit("");
    assert("●"@ + " "@ =~= "● "@);
    assert("⇄"@ + " "@ =~= "⇄ "@);
    assert("◌"@ + " "@ =~= "◌ "@);
    assert("○"@ + " "@ =~= "○ "@);
    assert("✖"@ + " "@ =~= "✖ "@);
    let l = screen::app_line(app, selected);
    let (mark, words, color) = screen::status(app);
    let more = (if app.pinned {
        "  ⊙ pinned"@
    } else {
        ""@
    }) + (if app.tier == Tier::System {
        "  [system]"@
    } else {
        ""@
    });
    assert(l.spans[2].text =~= words + more);
}

/// The line of a host shows its title in bold, and how its connection stands: connecting, up, shared
/// with the user's session, or failed with the reason.
pub proof fn host_lines_tell_the_connection(h: types::HostModel)
    ensures
        ({
            let s = screen::host_line(h).spans;
            let look = |c: Color| Style { fg: Some(c), bold: false, dim: false, reversed: false };
            let piece = |i: int, t: Seq<char>, style: Style|
                s[i] == (screen::SpanModel { text: t, style });
            &&& s.len() >= 3
            &&& piece(0, " "@, Style { fg: None, bold: false, dim: false, reversed: false })
            &&& piece(2, h.title, Style { fg: None, bold: true, dim: false, reversed: false })
            &&& h.master is Connecting ==> s.len() >= 4 && piece(1, "⟳ "@, look(Color::Yellow))
                && piece(3, "  connecting…"@, look(Color::Yellow))
            &&& h.master is Ready ==> piece(1, "● "@, look(Color::Green))
            &&& (h.master is Ready && h.master->shared) ==> s.len() >= 4 && piece(
                3,
                "  (sharing your ssh session)"@,
                Style { fg: None, bold: false, dim: true, reversed: false },
            )
            &&& h.master matches types::MasterModel::Failed(e) ==> s.len() >= 4 && piece(
                1,
                "✖ "@,
                look(Color::Red),
            ) && piece(3, "  "@ + e, look(Color::Red))
        }),
{
}

/// Behind that the line of a host shows the destination that the user typed, where it is another, and
/// the error of the last scan, where there was one, and nothing else.
pub proof fn host_lines_tell_the_alias_and_the_error(h: types::HostModel)
    ensures
        ({
            let bare = types::HostModel { alias: None, scan_err: None, ..h };
            let s = screen::host_line(h).spans;
            let b = screen::host_line(bare).spans;
            &&& s == b + (match h.alias {
                Some(a) => seq![
                    screen::SpanModel {
                        text: "  ["@ + a + "]"@,
                        style: Style { fg: None, bold: false, dim: true, reversed: false },
                    },
                ],
                None => Seq::empty(),
            }) + (match h.scan_err {
                Some(e) => seq![
                    screen::SpanModel {
                        text: "  scan failed: "@ + e,
                        style: Style {
                            fg: Some(Color::Red),
                            bold: false,
                            dim: false,
                            reversed: false,
                        },
                    },
                ],
                None => Seq::empty(),
            })
            &&& h.master is Ready ==> b.len() == (if h.master->shared {
                4int
            } else {
                3
            })
            &&& !(h.master is Ready) ==> b.len() == 4
        }),
{
    let bare = types::HostModel { alias: None, scan_err: None, ..h };
    let s = screen::host_line(h).spans;
    let b = screen::host_line(bare).spans;
    match (h.alias, h.scan_err) {
        (Some(a), Some(e)) => {
            assert(s =~= b + seq![s[b.len() as int]] + seq![s[b.len() as int + 1]]);
        },
        (Some(a), None) => {
            assert(s =~= b + seq![s[b.len() as int]] + Seq::<screen::SpanModel>::empty());
        },
        (None, Some(e)) => {
            assert(s =~= b + Seq::<screen::SpanModel>::empty() + seq![s[b.len() as int]]);
        },
        (None, None) => {
            assert(s =~= b + Seq::<screen::SpanModel>::empty() + Seq::<screen::SpanModel>::empty());
        },
    }
}

/// The apps that are shown are all of them, or without system services and hidden ports those that are
/// neither, in their order.
pub proof fn shown_apps_are_these(apps: Seq<types::AppModel>, show_system: bool)
    ensures
        ui::visible_apps(apps, show_system) == apps.filter(
            |a: types::AppModel| show_system || a.tier == Tier::App,
        ),
    decreases apps.len(),
{
    reveal(Seq::filter);
    if apps.len() > 0 {
        shown_apps_are_these(apps.drop_last(), show_system);
    }
}

proof fn lemma_block(
    snap: Seq<types::HostModel>,
    show_system: bool,
    sel: Option<(Seq<char>, u16)>,
    i: int,
    k: int,
)
    requires
        0 <= i < snap.len(),
        0 <= k < ui::host_block(snap[i], show_system, sel).len(),
    ensures
        ui::blocks(snap, show_system, sel).0.contains(ui::host_block(snap[i], show_system, sel)[k]),
    decreases snap.len(),
{
    let fewer = snap.drop_last();
    let (before, at) = ui::blocks(fewer, show_system, sel);
    let all = ui::blocks(snap, show_system, sel).0;
    let l = ui::host_block(snap[i], show_system, sel)[k];
    if i < fewer.len() {
        assert(fewer[i] == snap[i]);
        lemma_block(fewer, show_system, sel, i, k);
        let n = choose|n: int| 0 <= n < before.len() && before[n] == l;
        assert(all[n] == l);
    } else {
        assert(all[before.len() + k] == l);
    }
}

/// Every host has its line on the screen, and every app that is shown has its line under its host once
/// that is connected, drawn as selected exactly where it is.
pub proof fn everything_has_its_line(u: ui::UiModel, i: int, j: int)
    requires
        0 <= i < u.snap.len(),
    ensures
        ({
            let h = u.snap[i];
            let a = h.apps[j];
            &&& u.body().0.contains(screen::host_line(h))
            &&& 0 <= j < h.apps.len() && h.master is Ready && (u.show_system || a.tier == Tier::App)
                ==> u.body().0.contains(screen::app_line(a, u.sel == Some((h.key, a.rport))))
        }),
{
    let h = u.snap[i];
    let a = h.apps[j];
    let block = ui::host_block(h, u.show_system, u.sel);
    assert(block[1] == screen::host_line(h));
    lemma_block(u.snap, u.show_system, u.sel, i, 1);
    if 0 <= j < h.apps.len() && h.master is Ready && (u.show_system || a.tier == Tier::App) {
        let test = |b: types::AppModel| u.show_system || b.tier == Tier::App;
        shown_apps_are_these(h.apps, u.show_system);
        let apps = ui::visible_apps(h.apps, u.show_system);
        assert(test(h.apps[j]));
        assert(h.apps.filter(test).contains(h.apps[j]));
        let n = choose|n: int| 0 <= n < apps.len() && apps[n] == a;
        let l = screen::app_line(a, u.sel == Some((h.key, a.rport)));
        assert(ui::app_lines(h.key, apps, u.sel)[n] == l);
        assert(block[n + 3] == l);
        lemma_block(u.snap, u.show_system, u.sel, i, n + 3);
    }
}

/// Under a host that is not connected there is nothing; under one without shown apps it is said why;
/// and under a table it is said how many ports are hidden, where some are.
pub proof fn hidden_ports_are_counted(h: types::HostModel, sel: Option<(Seq<char>, u16)>)
    ensures
        ({
            let shown = h.apps.filter(|a: types::AppModel| a.tier == Tier::App);
            let hidden = (h.apps.len() - shown.len()) as nat;
            let body = ui::host_body(h, false, sel);
            let ending = if hidden == 1 {
                ""@
            } else {
                "s"@
            };
            &&& !(h.master is Ready) ==> body.len() == 0
            &&& h.master is Ready && shown.len() == 0 ==> body.len() == 1 && body[0].spans.len() == 1
                && body[0].spans[0].text == (if !h.scanned_once {
                "   scanning…"@
            } else if hidden > 0 {
                "   no apps detected ("@ + text::decimal(hidden) + " system port"@ + ending
                    + " hidden — press a)"@
            } else {
                "   no listening apps detected"@
            })
            &&& h.master is Ready && shown.len() > 0 && hidden == 0 ==> body.len() == shown.len() + 1
            &&& h.master is Ready && shown.len() > 0 && hidden > 0 ==> body.len() == shown.len() + 2
                && body.last().spans.len() == 1 && body.last().spans[0].text == "   + "@
                + text::decimal(hidden) + " system port"@ + ending + " hidden (press a)"@
        }),
{
    shown_apps_are_these(h.apps, false);
    let all = false;
    let f = |a: types::AppModel| a.tier == Tier::App;
    let g = |a: types::AppModel| all || a.tier == Tier::App;
    assert(f =~= g);
    assert(ui::visible_apps(h.apps, false) == h.apps.filter(f));
}

/// The line at the top says whether apps are forwarded by themselves, and how many connections there
/// are.
pub proof fn the_top_line_counts_connections(u: ui::UiModel)
    ensures
        ({
            let s = u.header().spans;
            let n = u.snap.len();
            &&& s.len() == 4
            &&& s[0].text == " ssh-autoport "@
            &&& u.auto ==> s[2].text == "auto-forward ON"@ && s[2].style.fg == Some(Color::Green)
            &&& !u.auto ==> s[2].text == "auto-forward OFF"@ && s[2].style.fg == Some(Color::Red)
            &&& s[3].text == "  ·  "@ + text::decimal(n) + " connection"@ + (if n == 1 {
                ""@
            } else {
                "s"@
            })
        }),
{
    reveal_strlit("");
    let s = u.header().spans;
    let n = u.snap.len();
    let t = "  ·  "@ + text::decimal(n) + " connection"@ + ui::plural(n);
    assert(t + ""@ =~= t);
}

/// A message for the user is shown for six seconds and then forgotten; while a local port is being
/// typed, the prompt is shown in its place, with what the port is for and what was typed.
pub proof fn messages_stay_for_six_seconds(u: ui::UiModel, height: u16, now: u64)
    ensures
        ({
            let (after, s) = u.drawn(height, now);
            &&& u.editing matches Some(e) ==> s.note is Some && s.note->0.spans.len() == 6
                && s.note->0.spans[1].text == e.label && s.note->0.spans[3].text == e.buf
                && after.toast == u.toast
            &&& u.editing is None ==> (match u.toast {
                Some((msg, at)) => if now < at || now - at < 6_000_000_000 {
                    s.note is Some && s.note->0.spans.len() == 1 && s.note->0.spans[0].text == " "@
                        + msg && after.toast == u.toast
                } else {
                    s.note is None && after.toast is None
                },
                None => s.note is None && after.toast is None,
            })
            &&& after == (ui::UiModel { scroll: s.scroll, toast: after.toast, ..u })
            &&& s.header == u.header() && s.body == u.body().0
        }),
{
}

/// Drawing moves the lines only where it takes that to have the selected one in view.
pub proof fn lines_move_as_little_as_it_takes(u: ui::UiModel, height: u16, now: u64)
    requires
        height > 0,
        0 < u.body().0.len() <= 0x1_0000,
        u.scroll < u.body().0.len(),
        u.body().1 matches Some(n) ==> u.scroll <= n < u.scroll + height && n < u.body().0.len(),
    ensures
        u.drawn(height, now).1.scroll == u.scroll,
{
}

/// Where there is no connection it is said so.
pub proof fn no_connection_is_said(u: ui::UiModel)
    requires
        u.snap.len() == 0,
    ensures
        u.body().0.len() == 2,
        u.body().0[1].spans.len() == 1,
        u.body().0[1].spans[0].text
            == "  No active SSH connections. Open one (e.g. `ssh myserver`) and it will appear here."@,
        u.body().1 is None,
{
}

} // verus!
