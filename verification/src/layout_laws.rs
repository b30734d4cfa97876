//! Where the lines on the screen stand, and what else the keys come down to.
use vstd::prelude::*;
use crate::key_laws;
use crate::screen;
use crate::screen::{Color, Style};
use crate::screen_laws;
use crate::types;
use crate::types::Tier;
use crate::ui;
use crate::ui::{Key, KeyCode};

verus! {

/// The hosts are drawn one below the other: an empty line, the line of the host, and what there is on
/// it.
pub proof fn hosts_are_drawn_in_order(
    snap: Seq<types::HostModel>,
    h: types::HostModel,
    show_system: bool,
    sel: Option<(Seq<char>, u16)>,
)
    ensures
        ({
            let empty = screen::LineModel {
                spans: Seq::empty(),
                style: Style { fg: None, bold: false, dim: false, reversed: false },
            };
            &&& ui::blocks(Seq::empty(), show_system, sel).0.len() == 0
            &&& ui::blocks(snap.push(h), show_system, sel).0 == ui::blocks(snap, show_system, sel).0
                + seq![empty, screen::host_line(h)] + ui::host_body(h, show_system, sel)
        }),
{
    assert(snap.push(h).drop_last() =~= snap);
    let before = ui::blocks(snap, show_system, sel).0;
    let head = seq![screen::line(Seq::empty()), screen::host_line(h)];
    let body = ui::host_body(h, show_system, sel);
    assert(before + (head + body) =~= before + head + body);
}

/// The apps of a connected host that are shown are drawn one below the other, in their order, under
/// the names of the columns; the selected one, and no other, is drawn as selected.
pub proof fn apps_are_drawn_in_order(
    h: types::HostModel,
    show_system: bool,
    sel: Option<(Seq<char>, u16)>,
    k: int,
)
    requires
        h.master is Ready,
    ensures
        ({
            let shown = h.apps.filter(|a: types::AppModel| show_system || a.tier == Tier::App);
            let body = ui::host_body(h, show_system, sel);
            &&& 0 <= k < shown.len() ==> body.len() > k + 1 && body[k + 1] == screen::app_line(
                shown[k],
                sel is Some && sel->0 == (h.key, shown[k].rport),
            )
            &&& shown.len() > 0 && (show_system || shown.len() == h.apps.len()) ==> body.len()
                == shown.len() + 1
            &&& shown.len() == 0 ==> body.len() == 1
            &&& shown.len() > 0 ==> body[0].spans.len() == 1 && body[0].spans[0].style.dim
                && body[0].spans[0].text == "   "@ + "PROCESS"@ + screen_laws::fill(7, 18) + " "@
                + screen_laws::fill(6, 12) + "REMOTE"@ + " "@ + screen_laws::fill(5, 17) + "LOCAL"@
                + "  "@ + "STATUS"@
        }),
{
    screen_laws::shown_apps_are_these(h.apps, show_system);
    let apps = ui::visible_apps(h.apps, show_system);
    let body = ui::host_body(h, show_system, sel);
    if apps.len() > 0 {
        lemma_titles();
    }
    if 0 <= k < apps.len() {
        let lines = ui::app_lines(h.key, apps, sel);
        assert(lines[k] == screen::app_line(apps[k], sel == Some((h.key, apps[k].rport))));
        let table = seq![screen::text_line(ui::titles(), screen::dim())] + lines;
        assert(table[k + 1] == lines[k]);
        assert(body[k + 1] == table[k + 1]);
    }
}

proof fn lemma_titles()
    ensures
        ui::titles() == "   "@ + "PROCESS"@ + screen_laws::fill(7, 18) + " "@ + screen_laws::fill(
            6,
            12,
        ) + "REMOTE"@ + " "@ + screen_laws::fill(5, 17) + "LOCAL"@ + "  "@ + "STATUS"@,
{
    reveal_strlit("   ");
    reveal_strlit("  ");
    reveal_strlit(" ");
    reveal_strlit("PROCESS");
    reveal_strlit("REMOTE");
    reveal_strlit("LOCAL");
    reveal_strlit("STATUS");
    assert(ui::titles() =~= "   "@ + "PROCESS"@ + screen_laws::fill(7, 18) + " "@
        + screen_laws::fill(6, 12) + "REMOTE"@ + " "@ + screen_laws::fill(5, 17) + "LOCAL"@ + "  "@
        + "STATUS"@);
}

/// This app is on the screen and selected.
pub open spec fn is_selected(u: ui::UiModel, i: int, j: int) -> bool {
    &&& 0 <= i < u.snap.len()
    &&& u.snap[i].master is Ready
    &&& 0 <= j < u.snap[i].apps.len()
    &&& u.show_system || u.snap[i].apps[j].tier == Tier::App
    &&& u.sel is Some && u.sel->0 == (u.snap[i].key, u.snap[i].apps[j].rport)
}

/// The selection names the port of this app.
pub open spec fn names(sel: Option<(Seq<char>, u16)>, a: types::AppModel) -> bool {
    match sel {
        Some((_, rport)) => rport == a.rport,
        None => false,
    }
}

proof fn lemma_index(key: Seq<char>, apps: Seq<types::AppModel>, sel: Option<(Seq<char>, u16)>, j: int)
    requires
        0 <= j < apps.len(),
        sel == Some((key, apps[j].rport)),
    ensures
        ui::selected_index(key, apps, sel) is Some,
    decreases apps.len(),
{
    if j < apps.len() - 1 {
        assert(apps.drop_last()[j] == apps[j]);
        lemma_index(key, apps.drop_last(), sel, j);
    }
}

proof fn lemma_index_shape(key: Seq<char>, apps: Seq<types::AppModel>, sel: Option<(Seq<char>, u16)>)
    ensures
        ui::selected_index(key, apps, sel) matches Some(n) ==> 0 <= n < apps.len() && sel == Some(
            (key, apps[n].rport),
        ),
    decreases apps.len(),
{
    if apps.len() > 0 {
        lemma_index_shape(key, apps.drop_last(), sel);
    }
}

proof fn lemma_at(
    snap: Seq<types::HostModel>,
    show_system: bool,
    sel: Option<(Seq<char>, u16)>,
    i: int,
    j: int,
)
    requires
        0 <= i < snap.len(),
        snap[i].master is Ready,
        0 <= j < snap[i].apps.len(),
        show_system || snap[i].apps[j].tier == Tier::App,
        sel == Some((snap[i].key, snap[i].apps[j].rport)),
    ensures
        ui::blocks(snap, show_system, sel).1 is Some,
    decreases snap.len(),
{
    let fewer = snap.drop_last();
    if i < fewer.len() {
        assert(fewer[i] == snap[i]);
        lemma_at(fewer, show_system, sel, i, j);
    } else {
        let h = snap[i];
        let test = |a: types::AppModel| show_system || a.tier == Tier::App;
        screen_laws::shown_apps_are_these(h.apps, show_system);
        let apps = ui::visible_apps(h.apps, show_system);
        assert(test(h.apps[j]));
        assert(h.apps.filter(test).contains(h.apps[j]));
        let n = choose|n: int| 0 <= n < apps.len() && apps[n] == h.apps[j];
        lemma_index(h.key, apps, sel, n);
    }
}

proof fn lemma_at_line(
    snap: Seq<types::HostModel>,
    show_system: bool,
    sel: Option<(Seq<char>, u16)>,
)
    ensures
        ui::blocks(snap, show_system, sel).1 matches Some(n) ==> {
            &&& 0 <= n < ui::blocks(snap, show_system, sel).0.len()
            &&& exists|a: types::AppModel|
                names(sel, a) && ui::blocks(snap, show_system, sel).0[n]
                    == #[trigger] screen::app_line(a, true)
        },
    decreases snap.len(),
{
    if snap.len() > 0 {
        lemma_at_line(snap.drop_last(), show_system, sel);
        let h = snap.last();
        let apps = ui::visible_apps(h.apps, show_system);
        lemma_index_shape(h.key, apps, sel);
        let block = ui::host_block(h, show_system, sel);
        let (before, at) = ui::blocks(snap.drop_last(), show_system, sel);
        let all = ui::blocks(snap, show_system, sel).0;
        match ui::block_index(h, show_system, sel) {
            Some(n) => {
                let i = n - 3;
                let line = screen::app_line(apps[i], true);
                assert(ui::app_lines(h.key, apps, sel)[i] == line);
                assert(block[n] == line);
                assert(all[before.len() + n] == line);
            },
            None => {
                match at {
                    Some(n) => {
                        assert(all[n] == before[n]);
                    },
                    None => {},
                }
            },
        }
    }
}

/// The line that is kept in view is that of the selected app, and there is one whenever an app on the
/// screen is selected.
pub proof fn the_selected_app_has_the_marked_line(u: ui::UiModel, i: int, j: int)
    ensures
        is_selected(u, i, j) ==> u.body().1 is Some,
        u.body().1 matches Some(n) ==> 0 <= n < u.body().0.len() && exists|a: types::AppModel|
            names(u.sel, a) && u.body().0[n] == #[trigger] screen::app_line(
                a,
                true,
            ),
{
    if is_selected(u, i, j) {
        lemma_at(u.snap, u.show_system, u.sel, i, j);
    }
    if u.snap.len() > 0 {
        lemma_at_line(u.snap, u.show_system, u.sel);
    }
}

/// The first line in view: as before where the selected line is in view; the selected line where it
/// was above; and so that the selected line is the last one where it was below. Never beyond the end.
pub proof fn the_view_follows_the_selection(u: ui::UiModel, height: u16, now: u64)
    requires
        height > 0,
        0 < u.body().0.len() <= 0x1_0000,
    ensures
        ({
            let s = u.drawn(height, now).1.scroll;
            let last = u.body().0.len() - 1;
            let end = |n: int| if n < last {
                n
            } else {
                last
            };
            &&& u.body().1 is None ==> s == end(u.scroll as int)
            &&& u.body().1 matches Some(n) ==> {
                &&& n < u.scroll ==> s == n
                &&& n >= u.scroll + height ==> s == n - height + 1
                &&& u.scroll <= n < u.scroll + height ==> s == end(u.scroll as int)
            }
        }),
{
    the_selected_app_has_the_marked_line(u, 0, 0);
}

/// Holding the control key down makes no difference but for the key that ends the program.
pub proof fn the_control_key_rarely_counts(u: ui::UiModel, code: KeyCode, now: u64)
    ensures
        u.editing is Some || code != KeyCode::Char('c') ==> u.keyed(Key { code, control: true }, now)
            == u.keyed(Key { code, control: false }, now),
{
}

/// Keys that mean nothing while a port is typed change nothing.
pub proof fn typing_heeds_no_other_keys(u: ui::UiModel, control: bool, now: u64)
    requires
        u.editing is Some,
    ensures
        ({
            let (after, outcome) = u.keyed(Key { code: KeyCode::Other, control }, now);
            &&& after == u
            &&& outcome.cmd is None
            &&& outcome.open is None
        }),
{
}

/// Without a row that is selected, moving down leads to the second row and moving up to the first, and
/// without rows nothing gets selected.
pub proof fn moving_begins_at_the_first_row(u: ui::UiModel, now: u64)
    requires
        u.editing is None,
        u.sel is None || !u.rows().contains(u.sel->0),
    ensures
        ({
            let rows = u.rows();
            let down = u.keyed(key_laws::letter('j'), now).0;
            let up = u.keyed(key_laws::letter('k'), now).0;
            &&& rows.len() == 0 ==> down.sel is None && up.sel is None
            &&& rows.len() == 1 ==> down.sel == Some(rows[0]) && up.sel == Some(rows[0])
            &&& rows.len() > 1 ==> down.sel == Some(rows[1]) && up.sel == Some(rows[0])
            &&& down == (ui::UiModel { sel: down.sel, ..u })
            &&& up == (ui::UiModel { sel: up.sel, ..u })
        }),
{
}

/// The line at the bottom asks for the port of the app that is being edited, and shows what has been
/// typed; the last line names the keys.
pub proof fn the_port_is_asked_for(u: ui::UiModel, height: u16, now: u64)
    ensures
        ({
            let s = u.drawn(height, now).1;
            let plain = Style { fg: None, bold: false, dim: false, reversed: false };
            &&& u.editing matches Some(e) ==> s.note is Some && s.note->0.spans == seq![
                screen::SpanModel { text: " local port for "@, style: plain },
                screen::SpanModel { text: e.label, style: Style { bold: true, ..plain } },
                screen::SpanModel { text: ": "@, style: plain },
                screen::SpanModel {
                    text: e.buf,
                    style: Style { fg: Some(Color::Yellow), bold: true, ..plain },
                },
                screen::SpanModel {
                    text: "▏"@,
                    style: Style { fg: Some(Color::Yellow), ..plain },
                },
                screen::SpanModel {
                    text: "   Enter apply · Esc cancel"@,
                    style: Style { dim: true, ..plain },
                },
            ]
            &&& u.editing is None && s.note is Some ==> s.note->0.spans[0].style.fg == Some(
                Color::Yellow,
            )
            &&& s.help.spans.len() == 1
            &&& s.help.spans[0].text
                == " ↑↓ select · ⏎/e set port · f forward on/off · o open · a system ports · p auto · r refresh · q quit"@
        }),
{
}

/// The top line in full, and the looks of the lines that stand for apps that are not shown.
pub proof fn other_lines_look_so(u: ui::UiModel, h: types::HostModel, sel: Option<(Seq<char>, u16)>)
    ensures
        ({
            let plain = Style { fg: None, bold: false, dim: false, reversed: false };
            let s = u.header().spans;
            let body = ui::host_body(h, false, sel);
            let shown = h.apps.filter(|a: types::AppModel| false || a.tier == Tier::App);
            &&& s.len() == 4
            &&& s[0].style == (Style { bold: true, reversed: true, ..plain })
            &&& s[1] == (screen::SpanModel { text: "  "@, style: plain })
            &&& s[2].style == (Style {
                fg: Some(
                    if u.auto {
                        Color::Green
                    } else {
                        Color::Red
                    },
                ),
                ..plain
            })
            &&& s[3].style == (Style { dim: true, ..plain })
            &&& u.header().style == plain
            &&& screen::host_line(h).style == plain
            &&& h.master is Ready && shown.len() < h.apps.len() ==> body.last().spans[0].style == (
            Style { dim: true, ..plain }) && body.last().style == plain
        }),
{
    let show = false;
    screen_laws::shown_apps_are_these(h.apps, show);
    assert((|a: types::AppModel| show || a.tier == Tier::App) =~= (|a: types::AppModel|
        false || a.tier == Tier::App));
    screen_laws::hidden_ports_are_counted(h, sel);
}

} // verus!
