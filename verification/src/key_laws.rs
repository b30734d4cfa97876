//! What the keys do.
use vstd::prelude::*;
use crate::laws;
use crate::screen_laws;
use crate::text;
use crate::types;
use crate::types::Tier;
use crate::ui;
use crate::ui::{Action, Key, KeyCode};

verus! {

/// The app `j` of the host `i` is the selected one: they are the first with the key and the port that
/// the selection names.
pub open spec fn selects(u: ui::UiModel, i: int, j: int) -> bool {
    &&& 0 <= i < u.snap.len()
    &&& 0 <= j < u.snap[i].apps.len()
    &&& u.sel == Some((u.snap[i].key, u.snap[i].apps[j].rport))
    &&& forall|k: int| 0 <= k < i ==> (#[trigger] u.snap[k]).key != u.snap[i].key
    &&& forall|k: int|
        0 <= k < j ==> (#[trigger] u.snap[i].apps[k]).rport != u.snap[i].apps[j].rport
}

proof fn lemma_host_of(snap: Seq<types::HostModel>, i: int)
    requires
        0 <= i < snap.len(),
        forall|k: int| 0 <= k < i ==> (#[trigger] snap[k]).key != snap[i].key,
    ensures
        ui::host_of(snap, snap[i].key) == Some(snap[i]),
    decreases snap.len(),
{
    if i > 0 {
        let rest = snap.drop_first();
        assert(rest[i - 1] == snap[i]);
        assert forall|k: int| 0 <= k < i - 1 implies (#[trigger] rest[k]).key != rest[i - 1].key by {
            assert(rest[k] == snap[k + 1]);
        }
        assert(snap[0].key != snap[i].key);
        lemma_host_of(rest, i - 1);
    }
}

proof fn lemma_app_on(apps: Seq<types::AppModel>, j: int)
    requires
        0 <= j < apps.len(),
        forall|k: int| 0 <= k < j ==> (#[trigger] apps[k]).rport != apps[j].rport,
    ensures
        ui::app_on(apps, apps[j].rport) == Some(apps[j]),
    decreases apps.len(),
{
    if j > 0 {
        let rest = apps.drop_first();
        assert(rest[j - 1] == apps[j]);
        assert forall|k: int| 0 <= k < j - 1 implies (#[trigger] rest[k]).rport != rest[j - 1].rport by {
            assert(rest[k] == apps[k + 1]);
        }
        assert(apps[0].rport != apps[j].rport);
        lemma_app_on(rest, j - 1);
    }
}

proof fn lemma_selected(u: ui::UiModel, i: int, j: int)
    requires
        selects(u, i, j),
    ensures
        u.selected() == Some((u.snap[i], u.snap[i].apps[j])),
{
    lemma_host_of(u.snap, i);
    lemma_app_on(u.snap[i].apps, j);
}

/// The key of a letter.
pub open spec fn letter(c: char) -> Key {
    Key { code: KeyCode::Char(c), control: false }
}

/// The command of a key, which then does nothing else.
pub open spec fn commands(
    u: ui::UiModel,
    key: Key,
    now: u64,
    cmd: types::CmdModel,
) -> bool {
    let (after, outcome) = u.keyed(key, now);
    &&& after == u
    &&& outcome.action == Action::Continue
    &&& outcome.cmd == Some(cmd)
    &&& outcome.open is None
}

/// The keys that act on the selected app name exactly that app: f turns its forward off or on, and h
/// hides it or unhides it.
pub proof fn keys_act_on_the_selected_app(u: ui::UiModel, i: int, j: int, now: u64)
    requires
        u.editing is None,
        selects(u, i, j),
    ensures
        ({
            let host = u.snap[i].key;
            let rport = u.snap[i].apps[j].rport;
            &&& commands(u, letter('f'), now, types::CmdModel::Toggle { host, rport })
            &&& commands(u, letter('h'), now, types::CmdModel::ToggleHidden { host, rport })
        }),
{
    lemma_selected(u, i, j);
}

/// The keys that act on everything: p turns auto-forwarding off or on, and r scans all hosts.
pub proof fn keys_act_on_everything(u: ui::UiModel, now: u64)
    requires
        u.editing is None,
    ensures
        commands(u, letter('p'), now, types::CmdModel::ToggleAuto),
        commands(u, letter('r'), now, types::CmdModel::Refresh),
{
}

/// The keys q and control-c end the program, and no other key does; nothing ends it while a local
/// port is being typed.
pub proof fn the_program_ends_by_two_keys(u: ui::UiModel, key: Key, now: u64)
    ensures
        u.keyed(key, now).1.action == Action::Quit <==> u.editing is None && (key.code
            == KeyCode::Char('q') || (key.code == KeyCode::Char('c') && key.control)),
{
}

/// The key o opens the local port of the selected app in the browser where the app is forwarded, by
/// the program or by the user's own session, and says that there is nothing to open where it is not.
pub proof fn forwarded_apps_can_be_opened(u: ui::UiModel, i: int, j: int, now: u64)
    requires
        u.editing is None,
        selects(u, i, j),
    ensures
        ({
            let a = u.snap[i].apps[j];
            let (after, outcome) = u.keyed(letter('o'), now);
            let can = (a.status is Active || a.status is External) && a.lport is Some;
            &&& outcome.cmd is None && outcome.action == Action::Continue
            &&& can ==> outcome.open == a.lport && after == u
            &&& !can ==> outcome.open is None && after == (ui::UiModel {
                toast: Some(("not forwarded yet — nothing to open"@, now)),
                ..u
            })
        }),
{
    lemma_selected(u, i, j);
}

/// Enter and e begin to type a local port for the selected app, with the one that it has to begin
/// with.
pub proof fn typing_begins_with_the_port_it_has(u: ui::UiModel, i: int, j: int, now: u64)
    requires
        u.editing is None,
        selects(u, i, j),
    ensures
        ({
            let h = u.snap[i];
            let a = h.apps[j];
            let (after, outcome) = u.keyed(letter('e'), now);
            let e = after.editing->0;
            &&& u.keyed(Key { code: KeyCode::Enter, control: false }, now) == (after, outcome)
            &&& after.editing is Some
            &&& after == (ui::UiModel { editing: after.editing, ..u })
            &&& e.host == h.key
            &&& e.rport == a.rport
            &&& e.label == (match a.process {
                Some(p) => p,
                None => "?"@,
            }) + " (remote :"@ + text::decimal(a.rport as nat) + ") on "@ + h.title
            &&& a.lport matches Some(p) ==> e.buf == text::decimal(p as nat)
            &&& a.lport is None ==> e.buf.len() == 0
            &&& outcome.cmd is None && outcome.open is None && outcome.action == Action::Continue
        }),
{
    lemma_selected(u, i, j);
}

/// Where nothing is selected the keys that act on an app do nothing.
pub proof fn without_a_selection_nothing_is_done(u: ui::UiModel, now: u64)
    requires
        u.editing is None,
        u.sel is None,
    ensures
        ({
            let none = ui::OutcomeModel { action: Action::Continue, cmd: None, open: None };
            &&& u.keyed(letter('f'), now) == (u, none)
            &&& u.keyed(letter('h'), now) == (u, none)
            &&& u.keyed(letter('e'), now) == (u, none)
            &&& u.keyed(letter('o'), now) == (u, none)
            &&& u.keyed(Key { code: KeyCode::Enter, control: false }, now) == (u, none)
        }),
{
}

/// All other keys do nothing.
pub proof fn other_keys_do_nothing(u: ui::UiModel, key: Key, now: u64)
    requires
        u.editing is None,
        key.code is Esc || key.code is Backspace || key.code is Other || (key.code matches KeyCode::Char(
            c,
        ) && !(c == 'q' || c == 'c' || c == 'k' || c == 'j' || c == 'e' || c == 'f' || c == 'h' || c
            == 'a' || c == 'p' || c == 'r' || c == 'o')) || (key.code == KeyCode::Char('c')
            && !key.control),
    ensures
        u.keyed(key, now) == (
            u,
            ui::OutcomeModel { action: Action::Continue, cmd: None, open: None },
        ),
{
}

/// While a local port is being typed: a digit is put behind what was typed, up to five of them, and no
/// other character is; backspace takes the last one away; escape ends it without effect.
pub proof fn typing_edits_the_port(u: ui::UiModel, c: char, now: u64)
    requires
        u.editing is Some,
    ensures
        ({
            let e = u.editing->0;
            let none = ui::OutcomeModel { action: Action::Continue, cmd: None, open: None };
            let with = |buf: Seq<char>|
                ui::UiModel { editing: Some(ui::EditModel { buf, ..e }), ..u };
            let press = |code: KeyCode| u.keyed(Key { code, control: false }, now);
            &&& '0' <= c <= '9' && e.buf.len() < 5 ==> press(KeyCode::Char(c)) == (
                with(e.buf + seq![c]),
                none,
            )
            &&& !('0' <= c <= '9') || e.buf.len() >= 5 ==> press(KeyCode::Char(c)) == (u, none)
            &&& e.buf.len() > 0 ==> press(KeyCode::Backspace) == (with(e.buf.drop_last()), none)
            &&& e.buf.len() == 0 ==> press(KeyCode::Backspace) == (u, none)
            &&& press(KeyCode::Esc) == (ui::UiModel { editing: None, ..u }, none)
            &&& press(KeyCode::Up) == (u, none) && press(KeyCode::Down) == (u, none)
        }),
{
    let e = u.editing->0;
    assert(e.buf.push(c) =~= e.buf + seq![c]);
}

/// Enter assigns the port that was typed to the app that it was typed for, for every port from 1 to
/// 65535; what is no such port is told, and nothing is assigned.
pub proof fn enter_assigns_what_was_typed(u: ui::UiModel, p: u16, now: u64)
    requires
        u.editing is Some,
    ensures
        ({
            let e = u.editing->0;
            let (after, outcome) = u.keyed(Key { code: KeyCode::Enter, control: false }, now);
            &&& after.editing is None
            &&& p >= 1 && e.buf == text::decimal(p as nat) ==> outcome.cmd == Some(
                types::CmdModel::Assign { host: e.host, rport: e.rport, lport: p },
            ) && after == (ui::UiModel { editing: None, ..u })
            &&& (match text::parse_uint(e.buf, 10, 65535) {
                Some(n) => n == 0,
                None => true,
            }) ==> outcome.cmd is None && after == (ui::UiModel {
                editing: None,
                toast: Some(("\""@ + e.buf + "\" is not a valid port (1-65535)"@, now)),
                ..u
            })
        }),
{
    laws::decimal_reads_back(p as nat, 65535);
}

proof fn lemma_row_at(rows: Seq<(Seq<char>, u16)>, i: int)
    requires
        0 <= i < rows.len(),
        forall|k: int| 0 <= k < i ==> #[trigger] rows[k] != rows[i],
    ensures
        ui::row_index(rows, Some(rows[i])) == i,
    decreases rows.len(),
{
    assert(rows.contains(rows[i]));
    if i > 0 {
        let rest = rows.drop_first();
        assert(rest[i - 1] == rows[i]);
        assert forall|k: int| 0 <= k < i - 1 implies #[trigger] rest[k] != rest[i - 1] by {
            assert(rest[k] == rows[k + 1]);
        }
        assert(rows[0] != rows[i]);
        lemma_row_at(rest, i - 1);
    }
}

/// The selection moves by one row, down by the arrow and by j, up by the arrow and by k, and stops at
/// the ends.
pub proof fn the_selection_moves_by_one_row(u: ui::UiModel, i: int, now: u64)
    requires
        u.editing is None,
        0 <= i < u.rows().len(),
        u.sel == Some(u.rows()[i]),
        forall|k: int| 0 <= k < i ==> #[trigger] u.rows()[k] != u.rows()[i],
    ensures
        ({
            let rows = u.rows();
            let down = ui::UiModel {
                sel: Some(
                    if i + 1 < rows.len() {
                        rows[i + 1]
                    } else {
                        rows[i]
                    },
                ),
                ..u
            };
            let up = ui::UiModel {
                sel: Some(
                    if i > 0 {
                        rows[i - 1]
                    } else {
                        rows[i]
                    },
                ),
                ..u
            };
            &&& u.keyed(letter('j'), now).0 == down
            &&& u.keyed(Key { code: KeyCode::Down, control: false }, now).0 == down
            &&& u.keyed(letter('k'), now).0 == up
            &&& u.keyed(Key { code: KeyCode::Up, control: false }, now).0 == up
            &&& u.keyed(letter('j'), now).1.cmd is None && u.keyed(letter('k'), now).1.cmd is None
        }),
{
    lemma_row_at(u.rows(), i);
}

/// The rows that can be selected are those of the apps that are shown, host after host.
pub proof fn rows_are_those_of_shown_apps(
    snap: Seq<types::HostModel>,
    h: types::HostModel,
    show_system: bool,
)
    ensures
        ui::rows(Seq::empty(), show_system) == Seq::<(Seq<char>, u16)>::empty(),
        ui::rows(snap.push(h), show_system) == ui::rows(snap, show_system) + h.apps.filter(
            |a: types::AppModel| show_system || a.tier == Tier::App,
        ).map_values(|a: types::AppModel| (h.key, a.rport)),
{
    screen_laws::shown_apps_are_these(h.apps, show_system);
    assert(snap.push(h).drop_last() =~= snap);
    assert(snap.push(h).last() == h);
    let apps = ui::visible_apps(h.apps, show_system);
    assert(ui::host_rows(h, show_system) =~= apps.map_values(
        |a: types::AppModel| (h.key, a.rport),
    ));
}

/// The key a shows the hidden ports, or hides them again; the selection stays where its app is still
/// shown, and goes to the first row where it is not.
pub proof fn hidden_ports_are_shown_by_a_key(u: ui::UiModel, now: u64)
    requires
        u.editing is None,
    ensures
        ({
            let (after, outcome) = u.keyed(letter('a'), now);
            let rows = ui::rows(u.snap, !u.show_system);
            &&& after.show_system == !u.show_system
            &&& after == (ui::UiModel { show_system: !u.show_system, sel: after.sel, ..u })
            &&& u.sel is Some && rows.contains(u.sel->0) ==> after.sel == u.sel
            &&& !(u.sel is Some && rows.contains(u.sel->0)) && rows.len() > 0 ==> after.sel == Some(
                rows[0],
            )
            &&& rows.len() == 0 ==> after.sel is None
            &&& outcome.cmd is None
        }),
{
}

/// What the worker tells is taken in: a snapshot replaces what is shown, a message is shown from now
/// on, and auto-forwarding is shown as it is. Nothing else changes.
pub proof fn news_of_the_worker_is_taken_in(
    u: ui::UiModel,
    snap: Seq<types::HostModel>,
    msg: Seq<char>,
    on: bool,
    now: u64,
)
    ensures
        ({
            let after = u.applied(types::EvModel::Snapshot(snap), now);
            &&& after == (ui::UiModel { snap, sel: after.sel, ..u })
            &&& u.applied(types::EvModel::Toast(msg), now) == (ui::UiModel {
                toast: Some((msg, now)),
                ..u
            })
            &&& u.applied(types::EvModel::AutoMode(on), now) == (ui::UiModel { auto: on, ..u })
            &&& u.applied(types::EvModel::CleanedUp, now) == u
        }),
{
}

/// Where what was selected is gone, or nothing was selected, the first row is.
pub proof fn the_first_row_is_selected(u: ui::UiModel, snap: Seq<types::HostModel>, now: u64)
    ensures
        ({
            let after = u.applied(types::EvModel::Snapshot(snap), now);
            let rows = ui::rows(snap, u.show_system);
            &&& rows.len() > 0 && !(u.sel is Some && rows.contains(u.sel->0)) ==> after.sel == Some(
                rows[0],
            )
            &&& rows.len() == 0 ==> after.sel is None
        }),
{
}

proof fn lemma_no_host(snap: Seq<types::HostModel>, key: Seq<char>)
    requires
        forall|k: int| 0 <= k < snap.len() ==> (#[trigger] snap[k]).key != key,
    ensures
        ui::host_of(snap, key) is None,
    decreases snap.len(),
{
    if snap.len() > 0 {
        let rest = snap.drop_first();
        assert forall|k: int| 0 <= k < rest.len() implies (#[trigger] rest[k]).key != key by {
            assert(rest[k] == snap[k + 1]);
        }
        assert(snap[0].key != key);
        lemma_no_host(rest, key);
    }
}

/// While the host of the selection is gone, the keys that act on an app do nothing.
pub proof fn what_is_gone_is_not_acted_on(u: ui::UiModel, key: Seq<char>, rport: u16, now: u64)
    requires
        u.editing is None,
        u.sel == Some((key, rport)),
        forall|k: int| 0 <= k < u.snap.len() ==> (#[trigger] u.snap[k]).key != key,
    ensures
        ({
            let none = ui::OutcomeModel { action: Action::Continue, cmd: None, open: None };
            &&& u.keyed(letter('f'), now) == (u, none)
            &&& u.keyed(letter('h'), now) == (u, none)
            &&& u.keyed(letter('e'), now) == (u, none)
            &&& u.keyed(letter('o'), now) == (u, none)
        }),
{
    lemma_no_host(u.snap, key);
}

} // verus!
