//! What holds of the user interface whatever happens.
use vstd::prelude::*;
use crate::screen;
use crate::text;
use crate::types;
use crate::ui;
use crate::ui::{Action, Key};

verus! {

/// What holds of the interface: the selection is a row that can be selected, and what is typed is at
/// most five digits.
pub open spec fn ui_ok(u: ui::UiModel) -> bool {
    &&& u.sel is Some ==> u.rows().contains(u.sel->0)
    &&& u.editing is Some ==> port_digits(u.editing->0.buf)
}

/// At most five decimal digits.
pub open spec fn port_digits(s: Seq<char>) -> bool {
    s.len() <= 5 && forall|i: int| 0 <= i < s.len() ==> ui::is_digit(#[trigger] s[i])
}

proof fn lemma_digits(n: nat, width: nat)
    requires
        width >= 1,
        n < vstd::arithmetic::power::pow(10, width),
    ensures
        text::decimal(n).len() <= width,
        forall|i: int|
            0 <= i < text::decimal(n).len() ==> ui::is_digit(#[trigger] text::decimal(n)[i]),
    decreases n,
{
    if n >= 10 {
        vstd::arithmetic::power::lemma_pow1(10);
        assert(width > 1);
        assert(vstd::arithmetic::power::pow(10, width) == 10 * vstd::arithmetic::power::pow(
            10,
            (width - 1) as nat,
        )) by {
            reveal(vstd::arithmetic::power::pow);
        }
        lemma_digits(n / 10, (width - 1) as nat);
    }
}

proof fn lemma_port_digits(p: u16)
    ensures
        port_digits(text::decimal(p as nat)),
{
    assert(vstd::arithmetic::power::pow(10, 5) == 100000) by {
        reveal_with_fuel(vstd::arithmetic::power::pow, 6);
    }
    lemma_digits(p as nat, 5);
}

proof fn lemma_fixed(u: ui::UiModel)
    requires
        u.editing is Some ==> port_digits(u.editing->0.buf),
    ensures
        ui_ok(u.fixed()),
        u.rows().len() > 0 ==> u.fixed().sel is Some,
{
    if u.rows().len() > 0 {
        assert(u.rows().contains(u.rows()[0]));
    }
    assert(u.fixed().rows() == u.rows());
}

proof fn lemma_row_index(rows: Seq<(Seq<char>, u16)>, sel: Option<(Seq<char>, u16)>)
    ensures
        0 <= ui::row_index(rows, sel),
        rows.len() > 0 ==> ui::row_index(rows, sel) < rows.len(),
    decreases rows.len(),
{
    if sel is Some && rows.contains(sel->0) && rows[0] != sel->0 {
        let i = choose|i: int| 0 <= i < rows.len() && rows[i] == sel->0;
        assert(rows.drop_first()[i - 1] == sel->0);
        lemma_row_index(rows.drop_first(), sel);
    }
}

proof fn lemma_moved(u: ui::UiModel, down: bool)
    requires
        ui_ok(u),
    ensures
        ui_ok(u.moved(down)),
{
    let rows = u.rows();
    lemma_row_index(rows, u.sel);
    assert(u.moved(down).rows() == rows);
    if rows.len() > 0 {
        let cur = ui::row_index(rows, u.sel);
        let next = if down {
            if cur + 1 < rows.len() {
                cur + 1
            } else {
                rows.len() - 1
            }
        } else if cur > 0 {
            cur - 1
        } else {
            0
        };
        assert(rows.contains(rows[next]));
    }
}

/// Every event of the worker keeps the interface fine.
pub proof fn events_keep_ui_ok(u: ui::UiModel, ev: types::EvModel, now: u64)
    requires
        ui_ok(u),
    ensures
        ui_ok(u.applied(ev, now)),
{
    match ev {
        types::EvModel::Snapshot(snap) => {
            lemma_fixed(ui::UiModel { snap, ..u });
        },
        _ => {
            assert(u.applied(ev, now).rows() == u.rows());
        },
    }
}

/// Every key keeps the interface fine.
pub proof fn keys_keep_ui_ok(u: ui::UiModel, key: Key, now: u64)
    requires
        ui_ok(u),
    ensures
        ui_ok(u.keyed(key, now).0),
{
    let after = u.keyed(key, now).0;
    match u.editing {
        Some(edit) => {
            assert(after.rows() == u.rows());
        },
        None => {
            lemma_moved(u, true);
            lemma_moved(u, false);
            lemma_fixed(ui::UiModel { show_system: !u.show_system, ..u });
            assert(u.edited().rows() == u.rows());
            match u.selected() {
                Some((h, a)) => {
                    if a.lport is Some {
                        lemma_port_digits(a.lport->0);
                    }
                },
                None => {},
            }
            assert(u.opened(now).0.rows() == u.rows());
        },
    }
}

/// Drawing keeps the interface fine.
pub proof fn drawing_keeps_ui_ok(u: ui::UiModel, height: u16, now: u64)
    requires
        ui_ok(u),
    ensures
        ui_ok(u.drawn(height, now).0),
{
    assert(u.drawn(height, now).0.rows() == u.rows());
}

/// The selection survives a refresh for as long as its app can be selected; after a refresh
/// something is selected wherever there is something to select.
pub proof fn selection_survives_refreshes(
    u: ui::UiModel,
    snap: Seq<types::HostModel>,
    now: u64,
)
    ensures
        ({
            let after = u.applied(types::EvModel::Snapshot(snap), now);
            let rows = ui::rows(snap, u.show_system);
            &&& u.sel is Some && rows.contains(u.sel->0) ==> after.sel == u.sel
            &&& after.sel is Some <==> rows.len() > 0
            &&& after.sel is Some ==> rows.contains(after.sel->0)
        }),
{
    let rows = ui::rows(snap, u.show_system);
    if rows.len() > 0 {
        assert(rows.contains(rows[0]));
    }
}

/// While a local port is being typed no key ends the program, and the only command that comes of it
/// assigns a port from 1 to 65535 to the app that it was typed for.
pub proof fn typing_only_assigns(u: ui::UiModel, key: Key, now: u64)
    requires
        u.editing is Some,
    ensures
        ({
            let outcome = u.keyed(key, now).1;
            &&& outcome.action == Action::Continue
            &&& outcome.open is None
            &&& outcome.cmd matches Some(cmd) ==> (cmd matches types::CmdModel::Assign {
                host,
                rport,
                lport,
            } && host == u.editing->0.host && rport == u.editing->0.rport && lport >= 1
                && text::parse_uint(u.editing->0.buf, 10, 0xffff) == Some(lport as nat))
        }),
{
}

proof fn lemma_selected_index(
    key: Seq<char>,
    apps: Seq<types::AppModel>,
    sel: Option<(Seq<char>, u16)>,
)
    ensures
        ui::selected_index(key, apps, sel) matches Some(i) ==> 0 <= i < apps.len() && sel == Some(
            (key, apps[i].rport),
        ),
    decreases apps.len(),
{
    if apps.len() > 0 {
        lemma_selected_index(key, apps.drop_last(), sel);
    }
}

/// The line that is brought into view is one of the body, and it is drawn as the selected one.
pub proof fn selected_line_is_the_selected_app(
    snap: Seq<types::HostModel>,
    show_system: bool,
    sel: Option<(Seq<char>, u16)>,
)
    ensures
        ui::blocks(snap, show_system, sel).1 matches Some(n) ==> {
            &&& 0 <= n < ui::blocks(snap, show_system, sel).0.len()
            &&& ui::blocks(snap, show_system, sel).0[n].style == screen::reversed()
        },
    decreases snap.len(),
{
    if snap.len() > 0 {
        selected_line_is_the_selected_app(snap.drop_last(), show_system, sel);
        let h = snap.last();
        let apps = ui::visible_apps(h.apps, show_system);
        lemma_selected_index(h.key, apps, sel);
        let block = ui::host_block(h, show_system, sel);
        match ui::block_index(h, show_system, sel) {
            Some(n) => {
                let i = n - 3;
                let line = screen::app_line(apps[i], true);
                assert(ui::app_lines(h.key, apps, sel)[i] == line);
                assert(block[n] == line);
            },
            None => {},
        }
    }
}

/// The selected line is in view after drawing, as far as lines can be counted in sixteen bits.
pub proof fn selected_line_is_in_view(u: ui::UiModel, height: u16, now: u64)
    requires
        height > 0,
        u.body().0.len() <= 0x1_0000,
        u.body().1 is Some,
    ensures
        ({
            let drawn = u.drawn(height, now).1;
            drawn.scroll <= u.body().1->0 < drawn.scroll + height
        }),
{
    selected_line_is_the_selected_app(u.snap, u.show_system, u.sel);
}

} // verus!
