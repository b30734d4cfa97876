//! The state of the user interface: what is selected, what is typed, what is shown.
use vstd::prelude::*;
use crate::host;
use crate::maps;
use crate::screen;
use crate::screen::{Color, Line, Span, Style};
use crate::text;
use crate::types;
use crate::types::{AppView, Cmd, Ev, FwdView, HostView, MasterView, Tier};

verus! {

/// Whether the program goes on after a key.
#[derive(Debug, Clone, Copy, PartialEq, Eq, Structural)]
pub enum Action {
    Continue,
    Quit,
}

/// A key of the keyboard.
#[derive(Debug, Clone, Copy, PartialEq, Eq, Structural)]
pub enum KeyCode {
    Esc,
    Backspace,
    Enter,
    Up,
    Down,
    Char(char),
    Other,
}

/// A key that was pressed.
#[derive(Debug, Clone, Copy, PartialEq, Eq, Structural)]
pub struct Key {
    pub code: KeyCode,
    /// The control key was held down, and no other modifier.
    pub control: bool,
}

/// What a key led to.
#[derive(Debug, PartialEq)]
pub struct Outcome {
    pub action: Action,
    /// A command for the worker.
    pub cmd: Option<Cmd>,
    /// A local port to open in the browser.
    pub open: Option<u16>,
}

/// The model of an [`Outcome`].
pub struct OutcomeModel {
    pub action: Action,
    pub cmd: Option<types::CmdModel>,
    pub open: Option<u16>,
}

impl View for Outcome {
    type V = OutcomeModel;

    open spec fn view(&self) -> OutcomeModel {
        OutcomeModel {
            action: self.action,
            cmd: match self.cmd {
                Some(c) => Some(c@),
                None => None,
            },
            open: self.open,
        }
    }
}

/// A local port that is being typed.
struct Edit {
    host: String,
    rport: u16,
    label: String,
    buf: Vec<char>,
}

/// The model of a local port that is being typed.
#[verifier::ext_equal]
pub struct EditModel {
    pub host: Seq<char>,
    pub rport: u16,
    pub label: Seq<char>,
    pub buf: Seq<char>,
}

impl View for Edit {
    type V = EditModel;

    closed spec fn view(&self) -> EditModel {
        EditModel { host: self.host@, rport: self.rport, label: self.label@, buf: self.buf@ }
    }
}

/// The user interface.
pub struct Ui {
    snap: Vec<HostView>,
    auto: bool,
    show_system: bool,
    /// The selected app, by its identity, so that the selection survives refreshes.
    sel: Option<(String, u16)>,
    editing: Option<Edit>,
    toast: Option<(String, u64)>,
    scroll: u16,
}

/// The model of a [`Ui`].
#[verifier::ext_equal]
pub struct UiModel {
    pub snap: Seq<types::HostModel>,
    pub auto: bool,
    pub show_system: bool,
    pub sel: Option<(Seq<char>, u16)>,
    pub editing: Option<EditModel>,
    pub toast: Option<(Seq<char>, u64)>,
    pub scroll: u16,
}

impl View for Ui {
    type V = UiModel;

    closed spec fn view(&self) -> UiModel {
        UiModel {
            snap: types::host_models(self.snap@),
            auto: self.auto,
            show_system: self.show_system,
            sel: match self.sel {
                Some((k, p)) => Some((k@, p)),
                None => None,
            },
            editing: match self.editing {
                Some(e) => Some(e@),
                None => None,
            },
            toast: match self.toast {
                Some((m, at)) => Some((m@, at)),
                None => None,
            },
            scroll: self.scroll,
        }
    }
}

/// Whether an app is shown: apps always are, the rest only on demand.
pub open spec fn visible(app: types::AppModel, show_system: bool) -> bool {
    show_system || app.tier == Tier::App
}

/// The apps that are shown, in order.
pub open spec fn visible_apps(apps: Seq<types::AppModel>, show_system: bool) -> Seq<types::AppModel>
    decreases apps.len(),
{
    if apps.len() == 0 {
        Seq::empty()
    } else {
        let before = visible_apps(apps.drop_last(), show_system);
        if visible(apps.last(), show_system) {
            before.push(apps.last())
        } else {
            before
        }
    }
}

/// The rows of a host that can be selected.
pub open spec fn host_rows(h: types::HostModel, show_system: bool) -> Seq<(Seq<char>, u16)> {
    let apps = visible_apps(h.apps, show_system);
    Seq::new(apps.len(), |i: int| (h.key, apps[i].rport))
}

/// The rows that can be selected.
pub open spec fn rows(snap: Seq<types::HostModel>, show_system: bool) -> Seq<(Seq<char>, u16)>
    decreases snap.len(),
{
    if snap.len() == 0 {
        Seq::empty()
    } else {
        rows(snap.drop_last(), show_system) + host_rows(snap.last(), show_system)
    }
}

/// The first host with the key.
pub open spec fn host_of(snap: Seq<types::HostModel>, key: Seq<char>) -> Option<types::HostModel>
    decreases snap.len(),
{
    if snap.len() == 0 {
        None
    } else if snap[0].key == key {
        Some(snap[0])
    } else {
        host_of(snap.drop_first(), key)
    }
}

/// The first app on the port.
pub open spec fn app_on(apps: Seq<types::AppModel>, rport: u16) -> Option<types::AppModel>
    decreases apps.len(),
{
    if apps.len() == 0 {
        None
    } else if apps[0].rport == rport {
        Some(apps[0])
    } else {
        app_on(apps.drop_first(), rport)
    }
}

/// The position of a row, zero where it is not among them.
pub open spec fn row_index(rows: Seq<(Seq<char>, u16)>, sel: Option<(Seq<char>, u16)>) -> int
    decreases rows.len(),
{
    if sel is None || !rows.contains(sel->0) {
        0
    } else if rows[0] == sel->0 {
        0
    } else {
        1 + row_index(rows.drop_first(), sel)
    }
}

impl UiModel {
    /// The rows that can be selected.
    pub open spec fn rows(self) -> Seq<(Seq<char>, u16)> {
        rows(self.snap, self.show_system)
    }

    /// The selection, or else the first row, so that a row is selected where there is one.
    pub open spec fn fixed(self) -> UiModel {
        let rows = self.rows();
        UiModel {
            sel: if self.sel is Some && rows.contains(self.sel->0) {
                self.sel
            } else if rows.len() > 0 {
                Some(rows[0])
            } else {
                None
            },
            ..self
        }
    }

    /// The host and the app that are selected.
    pub open spec fn selected(self) -> Option<(types::HostModel, types::AppModel)> {
        match self.sel {
            None => None,
            Some((key, rport)) => match host_of(self.snap, key) {
                None => None,
                Some(h) => match app_on(h.apps, rport) {
                    None => None,
                    Some(a) => Some((h, a)),
                },
            },
        }
    }

    /// The selection moved by one row, down or up; it stops at the ends.
    pub open spec fn moved(self, down: bool) -> UiModel {
        let rows = self.rows();
        let cur = row_index(rows, self.sel);
        UiModel {
            sel: if rows.len() == 0 {
                None
            } else if down {
                Some(
                    rows[if cur + 1 < rows.len() {
                        cur + 1
                    } else {
                        rows.len() - 1
                    }],
                )
            } else {
                Some(
                    rows[if cur > 0 {
                        cur - 1
                    } else {
                        0
                    }],
                )
            },
            ..self
        }
    }

    /// The interface with a message for the user.
    pub open spec fn told(self, msg: Seq<char>, now: u64) -> UiModel {
        UiModel { toast: Some((msg, now)), ..self }
    }

    /// The interface after an event of the worker.
    pub open spec fn applied(self, ev: types::EvModel, now: u64) -> UiModel {
        match ev {
            types::EvModel::Snapshot(snap) => UiModel { snap, ..self }.fixed(),
            types::EvModel::Toast(msg) => self.told(msg, now),
            types::EvModel::AutoMode(auto) => UiModel { auto, ..self },
            types::EvModel::CleanedUp => self,
        }
    }
}

fn shows(app: &AppView, show_system: bool) -> (r: bool)
    ensures
        r == visible(app@, show_system),
{
    show_system || app.tier == Tier::App
}

/// The models of rows.
spec fn row_models(v: Seq<(String, u16)>) -> Seq<(Seq<char>, u16)> {
    Seq::new(v.len(), |i: int| (v[i].0@, v[i].1))
}

fn same_row(a: &(String, u16), b: &(String, u16)) -> (r: bool)
    ensures
        r == ((a.0@, a.1) == (b.0@, b.1)),
{
    a.1 == b.1 && text::same_text(a.0.as_str(), b.0.as_str())
}

fn push_host_rows(h: &HostView, show_system: bool, out: &mut Vec<(String, u16)>)
    ensures
        row_models(final(out)@) == row_models(old(out)@) + host_rows(h@, show_system),
{
    let ghost start = row_models(out@);
    let ghost apps = h@.apps;
    let ghost key = h@.key;
    assert(apps.take(0) =~= Seq::<types::AppModel>::empty());
    assert(row_models(out@) =~= start + host_rows(
        types::HostModel { apps: apps.take(0), ..h@ },
        show_system,
    ));
    for i in 0..h.apps.len()
        invariant
            apps == h@.apps,
            row_models(out@) == start + host_rows(
                types::HostModel { apps: apps.take(i as int), ..h@ },
                show_system,
            ),
    {
        let ghost before = row_models(out@);
        assert(apps.take(i + 1).drop_last() =~= apps.take(i as int));
        assert(apps.take(i + 1).last() == h.apps@[i as int]@);
        if shows(&h.apps[i], show_system) {
            out.push((h.key.clone(), h.apps[i].rport));
            assert(row_models(out@) =~= before.push((h@.key, apps[i as int].rport)));
        }
        assert(row_models(out@) =~= start + host_rows(
            types::HostModel { apps: apps.take(i + 1), ..h@ },
            show_system,
        ));
    }
    assert(apps.take(apps.len() as int) =~= apps);
}

impl Ui {
    /// The interface before anything is known.
    pub fn new(show_system: bool) -> (r: Ui)
        ensures
            r@ == (UiModel {
                snap: Seq::empty(),
                auto: true,
                show_system,
                sel: None,
                editing: None,
                toast: None,
                scroll: 0,
            }),
    {
        let r = Ui {
            snap: Vec::new(),
            auto: true,
            show_system,
            sel: None,
            editing: None,
            toast: None,
            scroll: 0,
        };
        assert(r@.snap =~= Seq::<types::HostModel>::empty());
        r
    }

    /// The rows that can be selected.
    fn selectable(&self) -> (r: Vec<(String, u16)>)
        ensures
            row_models(r@) == self@.rows(),
    {
        let mut out: Vec<(String, u16)> = Vec::new();
        let ghost snap = self@.snap;
        assert(snap.take(0) =~= Seq::<types::HostModel>::empty());
        assert(row_models(out@) =~= Seq::<(Seq<char>, u16)>::empty());
        for i in 0..self.snap.len()
            invariant
                snap == self@.snap,
                row_models(out@) == rows(snap.take(i as int), self@.show_system),
        {
            assert(snap.take(i + 1).drop_last() =~= snap.take(i as int));
            assert(snap.take(i + 1).last() == self.snap@[i as int]@);
            push_host_rows(&self.snap[i], self.show_system, &mut out);
        }
        assert(snap.take(snap.len() as int) =~= snap);
        out
    }

    /// The position of the selected row, if it is there.
    fn position(&self, rows: &Vec<(String, u16)>) -> (r: Option<usize>)
        ensures
            r is Some <==> self@.sel is Some && row_models(rows@).contains(self@.sel->0),
            r matches Some(i) ==> i < rows@.len() && i == row_index(row_models(rows@), self@.sel),
    {
        let sel = match &self.sel {
            Some(s) => s,
            None => {
                return None;
            },
        };
        let ghost all = row_models(rows@);
        let ghost want = self@.sel;
        assert(all.skip(0) =~= all);
        for i in 0..rows.len()
            invariant
                all == row_models(rows@),
                want == self@.sel,
                want == Some((sel.0@, sel.1)),
                forall|j: int| 0 <= j < i ==> #[trigger] all[j] != want->0,
                all.contains(want->0) ==> row_index(all, want) == i + row_index(
                    all.skip(i as int),
                    want,
                ),
        {
            assert(all[i as int] == (rows@[i as int].0@, rows@[i as int].1));
            assert(all.skip(i as int)[0] == all[i as int]);
            assert(all.skip(i as int).drop_first() =~= all.skip(i + 1));
            if same_row(&rows[i], sel) {
                return Some(i);
            }
            proof {
                if all.contains(want->0) {
                    let j = choose|j: int| 0 <= j < all.len() && all[j] == want->0;
                    assert(all.skip(i as int)[j - i] == want->0);
                }
            }
        }
        None
    }

    /// Keeps the selection on a row.
    fn fix_selection(&mut self)
        ensures
            final(self)@ == old(self)@.fixed(),
    {
        let rows = self.selectable();
        if self.position(&rows).is_none() {
            let ghost all = row_models(rows@);
            if rows.len() > 0 {
                assert(all[0] == (rows@[0].0@, rows@[0].1));
                self.sel = Some((rows[0].0.clone(), rows[0].1));
            } else {
                self.sel = None;
            }
        }
    }

    /// Takes in an event of the worker.
    pub fn apply(&mut self, ev: Ev, now: u64)
        ensures
            final(self)@ == old(self)@.applied(ev@, now),
    {
        match ev {
            Ev::Snapshot(snap) => {
                self.snap = snap;
                self.fix_selection();
            },
            Ev::Toast(msg) => {
                self.toast = Some((msg, now));
            },
            Ev::AutoMode(auto) => {
                self.auto = auto;
            },
            Ev::CleanedUp => {},
        }
    }

    /// Moves the selection by one row.
    fn move_sel(&mut self, down: bool)
        ensures
            final(self)@ == old(self)@.moved(down),
    {
        let rows = self.selectable();
        let ghost all = row_models(rows@);
        if rows.len() == 0 {
            self.sel = None;
            return ;
        }
        let cur: usize = match self.position(&rows) {
            Some(i) => i,
            None => 0,
        };
        let next: usize = if down {
            if cur < rows.len() - 1 {
                cur + 1
            } else {
                rows.len() - 1
            }
        } else if cur > 0 {
            cur - 1
        } else {
            0
        };
        assert(all[next as int] == (rows@[next as int].0@, rows@[next as int].1));
        self.sel = Some((rows[next].0.clone(), rows[next].1));
    }

    /// The host and the app that are selected.
    fn selected_app(&self) -> (r: Option<(&HostView, &AppView)>)
        ensures
            r is Some <==> self@.selected() is Some,
            r matches Some((h, a)) ==> self@.selected() == Some((h@, a@)),
    {
        let (key, rport) = match &self.sel {
            Some((k, p)) => (k, *p),
            None => {
                return None;
            },
        };
        let ghost snap = self@.snap;
        assert(snap.skip(0) =~= snap);
        for i in 0..self.snap.len()
            invariant
                snap == self@.snap,
                self@.sel == Some((key@, rport)),
                host_of(snap, key@) == host_of(snap.skip(i as int), key@),
        {
            assert(snap.skip(i as int)[0] == self.snap@[i as int]@);
            assert(snap.skip(i as int).drop_first() =~= snap.skip(i + 1));
            if text::same_text(self.snap[i].key.as_str(), key.as_str()) {
                let h = &self.snap[i];
                let ghost apps = h@.apps;
                assert(apps.skip(0) =~= apps);
                for j in 0..h.apps.len()
                    invariant
                        apps == h@.apps,
                        self@.sel == Some((key@, rport)),
                        host_of(self@.snap, key@) == Some(h@),
                        app_on(apps, rport) == app_on(apps.skip(j as int), rport),
                {
                    assert(apps.skip(j as int)[0] == h.apps@[j as int]@);
                    assert(apps.skip(j as int).drop_first() =~= apps.skip(j + 1));
                    if h.apps[j].rport == rport {
                        return Some((h, &h.apps[j]));
                    }
                }
                return None;
            }
        }
        None
    }
}

/// A decimal digit.
pub open spec fn is_digit(c: char) -> bool {
    '0' <= c <= '9'
}

/// Nothing more is to be done about a key.
pub open spec fn nothing() -> OutcomeModel {
    OutcomeModel { action: Action::Continue, cmd: None, open: None }
}

/// The worker is to follow a command.
pub open spec fn sends(cmd: types::CmdModel) -> OutcomeModel {
    OutcomeModel { action: Action::Continue, cmd: Some(cmd), open: None }
}

/// The words for an app that a local port is typed for.
pub open spec fn edit_label(h: types::HostModel, a: types::AppModel) -> Seq<char> {
    let process = match a.process {
        Some(p) => p,
        None => "?"@,
    };
    process + " (remote :"@ + text::decimal(a.rport as nat) + ") on "@ + h.title
}

impl UiModel {
    /// The interface and the outcome once a key was pressed while a local port is being typed.
    pub open spec fn typed(self, edit: EditModel, code: KeyCode, now: u64) -> (
        UiModel,
        OutcomeModel,
    ) {
        match code {
            KeyCode::Esc => (UiModel { editing: None, ..self }, nothing()),
            KeyCode::Backspace => (
                UiModel {
                    editing: Some(
                        EditModel {
                            buf: if edit.buf.len() > 0 {
                                edit.buf.drop_last()
                            } else {
                                edit.buf
                            },
                            ..edit
                        },
                    ),
                    ..self
                },
                nothing(),
            ),
            KeyCode::Char(c) => (
                UiModel {
                    editing: Some(
                        if is_digit(c) && edit.buf.len() < 5 {
                            EditModel { buf: edit.buf.push(c), ..edit }
                        } else {
                            edit
                        },
                    ),
                    ..self
                },
                nothing(),
            ),
            KeyCode::Enter => match text::parse_uint(edit.buf, 10, 0xffff) {
                Some(p) if p >= 1 => (
                    UiModel { editing: None, ..self },
                    sends(
                        types::CmdModel::Assign {
                            host: edit.host,
                            rport: edit.rport,
                            lport: p as u16,
                        },
                    ),
                ),
                _ => (
                    UiModel { editing: None, ..self }.told(
                        "\""@ + edit.buf + "\" is not a valid port (1-65535)"@,
                        now,
                    ),
                    nothing(),
                ),
            },
            _ => (self, nothing()),
        }
    }

    /// The interface once a local port for the selected app is being typed.
    pub open spec fn edited(self) -> UiModel {
        match self.selected() {
            Some((h, a)) => UiModel {
                editing: Some(
                    EditModel {
                        host: h.key,
                        rport: a.rport,
                        label: edit_label(h, a),
                        buf: match a.lport {
                            Some(p) => text::decimal(p as nat),
                            None => Seq::empty(),
                        },
                    },
                ),
                ..self
            },
            None => self,
        }
    }

    /// The interface and the outcome once the selected app is to be opened in the browser.
    pub open spec fn opened(self, now: u64) -> (UiModel, OutcomeModel) {
        match self.selected() {
            Some((h, a)) => if (a.status is Active || a.status is External) && a.lport is Some {
                (self, OutcomeModel { action: Action::Continue, cmd: None, open: a.lport })
            } else {
                (self.told("not forwarded yet — nothing to open"@, now), nothing())
            },
            None => (self, nothing()),
        }
    }

    /// The interface and the outcome once a key was pressed while nothing is being typed.
    pub open spec fn pressed(self, key: Key, now: u64) -> (UiModel, OutcomeModel) {
        match key.code {
            KeyCode::Up => (self.moved(false), nothing()),
            KeyCode::Down => (self.moved(true), nothing()),
            KeyCode::Enter => (self.edited(), nothing()),
            KeyCode::Char(c) => {
                if c == 'q' || (c == 'c' && key.control) {
                    (self, OutcomeModel { action: Action::Quit, cmd: None, open: None })
                } else if c == 'k' {
                    (self.moved(false), nothing())
                } else if c == 'j' {
                    (self.moved(true), nothing())
                } else if c == 'e' {
                    (self.edited(), nothing())
                } else if c == 'f' {
                    (
                        self,
                        match self.selected() {
                            Some((h, a)) => sends(
                                types::CmdModel::Toggle { host: h.key, rport: a.rport },
                            ),
                            None => nothing(),
                        },
                    )
                } else if c == 'h' {
                    (
                        self,
                        match self.selected() {
                            Some((h, a)) => sends(
                                types::CmdModel::ToggleHidden { host: h.key, rport: a.rport },
                            ),
                            None => nothing(),
                        },
                    )
                } else if c == 'a' {
                    (UiModel { show_system: !self.show_system, ..self }.fixed(), nothing())
                } else if c == 'p' {
                    (self, sends(types::CmdModel::ToggleAuto))
                } else if c == 'r' {
                    (self, sends(types::CmdModel::Refresh))
                } else if c == 'o' {
                    self.opened(now)
                } else {
                    (self, nothing())
                }
            },
            _ => (self, nothing()),
        }
    }

    /// The interface and the outcome once a key was pressed.
    pub open spec fn keyed(self, key: Key, now: u64) -> (UiModel, OutcomeModel) {
        match self.editing {
            Some(edit) => self.typed(edit, key.code, now),
            None => self.pressed(key, now),
        }
    }
}

/// Nothing more is to be done about a key.
fn no_more() -> (r: Outcome)
    ensures
        r@ == nothing(),
{
    Outcome { action: Action::Continue, cmd: None, open: None }
}

/// The worker is to follow a command.
fn send(cmd: Cmd) -> (r: Outcome)
    ensures
        r@ == sends(cmd@),
{
    Outcome { action: Action::Continue, cmd: Some(cmd), open: None }
}

impl Ui {
    /// Takes in a key that was pressed while a local port is being typed.
    fn type_key(&mut self, edit: Edit, code: KeyCode, now: u64) -> (r: Outcome)
        requires
            old(self)@.editing is None,
        ensures
            ({
                let before = UiModel { editing: Some(edit@), ..old(self)@ };
                (final(self)@, r@) == before.typed(edit@, code, now)
            }),
    {
        let mut edit = edit;
        match code {
            KeyCode::Esc => no_more(),
            KeyCode::Backspace => {
                let _gone = edit.buf.pop();
                self.editing = Some(edit);
                no_more()
            },
            KeyCode::Char(c) => {
                if '0' <= c && c <= '9' && edit.buf.len() < 5 {
                    edit.buf.push(c);
                }
                self.editing = Some(edit);
                no_more()
            },
            KeyCode::Enter => match text::port_of(edit.buf.as_slice()) {
                Some(p) if p >= 1 => send(
                    Cmd::Assign { host: edit.host, rport: edit.rport, lport: p },
                ),
                _ => {
                    let mut msg = "\"".to_owned();
                    msg.append(text::text_of(edit.buf.as_slice()).as_str());
                    msg.append("\" is not a valid port (1-65535)");
                    self.toast = Some((msg, now));
                    no_more()
                },
            },
            _ => {
                self.editing = Some(edit);
                no_more()
            },
        }
    }

    /// Starts typing a local port for the selected app.
    fn edit_selected(&mut self)
        ensures
            final(self)@ == old(self)@.edited(),
    {
        let edit = match self.selected_app() {
            Some((h, a)) => {
                let mut label = match &a.process {
                    Some(p) => p.clone(),
                    None => "?".to_owned(),
                };
                label.append(" (remote :");
                label.append(text::decimal_of(a.rport as u64).as_str());
                label.append(") on ");
                label.append(h.title.as_str());
                let buf = match a.lport {
                    Some(p) => text::chars_of(text::decimal_of(p as u64).as_str()),
                    None => Vec::new(),
                };
                Edit { host: h.key.clone(), rport: a.rport, label, buf }
            },
            None => {
                return ;
            },
        };
        self.editing = Some(edit);
    }

    /// Opens the selected app in the browser.
    fn open_selected(&mut self, now: u64) -> (r: Outcome)
        ensures
            (final(self)@, r@) == old(self)@.opened(now),
    {
        let target = match self.selected_app() {
            Some((_, a)) => match (&a.status, a.lport) {
                (FwdView::Active, Some(lp)) | (FwdView::External, Some(lp)) => Some(lp),
                _ => None,
            },
            None => {
                return no_more();
            },
        };
        match target {
            Some(lp) => Outcome { action: Action::Continue, cmd: None, open: Some(lp) },
            None => {
                self.toast = Some(("not forwarded yet — nothing to open".to_owned(), now));
                no_more()
            },
        }
    }

    /// The identity of the selected app.
    fn target(&self) -> (r: Option<(String, u16)>)
        ensures
            r is Some <==> self@.selected() is Some,
            r matches Some((k, p)) ==> (self@.selected() matches Some((h, a)) && k@ == h.key && p
                == a.rport),
    {
        match self.selected_app() {
            Some((h, a)) => Some((h.key.clone(), a.rport)),
            None => None,
        }
    }

    /// Takes in a key that was pressed while nothing is being typed.
    fn press_key(&mut self, key: Key, now: u64) -> (r: Outcome)
        ensures
            (final(self)@, r@) == old(self)@.pressed(key, now),
    {
        match key.code {
            KeyCode::Up => {
                self.move_sel(false);
                no_more()
            },
            KeyCode::Down => {
                self.move_sel(true);
                no_more()
            },
            KeyCode::Enter => {
                self.edit_selected();
                no_more()
            },
            KeyCode::Char(c) => {
                if c == 'q' || (c == 'c' && key.control) {
                    Outcome { action: Action::Quit, cmd: None, open: None }
                } else if c == 'k' {
                    self.move_sel(false);
                    no_more()
                } else if c == 'j' {
                    self.move_sel(true);
                    no_more()
                } else if c == 'e' {
                    self.edit_selected();
                    no_more()
                } else if c == 'f' {
                    match self.target() {
                        Some((host, rport)) => send(Cmd::Toggle { host, rport }),
                        None => no_more(),
                    }
                } else if c == 'h' {
                    match self.target() {
                        Some((host, rport)) => send(Cmd::ToggleHidden { host, rport }),
                        None => no_more(),
                    }
                } else if c == 'a' {
                    self.show_system = !self.show_system;
                    self.fix_selection();
                    no_more()
                } else if c == 'p' {
                    send(Cmd::ToggleAuto)
                } else if c == 'r' {
                    send(Cmd::Refresh)
                } else if c == 'o' {
                    self.open_selected(now)
                } else {
                    no_more()
                }
            },
            _ => no_more(),
        }
    }

    /// Takes in a key that was pressed.
    pub fn handle_key(&mut self, key: Key, now: u64) -> (r: Outcome)
        ensures
            (final(self)@, r@) == old(self)@.keyed(key, now),
    {
        let mut editing: Option<Edit> = None;
        std::mem::swap(&mut editing, &mut self.editing);
        match editing {
            Some(edit) => self.type_key(edit, key.code, now),
            None => self.press_key(key, now),
        }
    }
}

/// What is drawn: one line at the top, the body from line `scroll` on, one line for the prompt or a
/// message, one line of help.
#[derive(Debug, PartialEq)]
pub struct Screen {
    pub header: Line,
    pub body: Vec<Line>,
    pub scroll: u16,
    pub note: Option<Line>,
    pub help: Line,
}

/// The model of a [`Screen`].
#[verifier::ext_equal]
pub struct ScreenModel {
    pub header: screen::LineModel,
    pub body: Seq<screen::LineModel>,
    pub scroll: u16,
    pub note: Option<screen::LineModel>,
    pub help: screen::LineModel,
}

impl View for Screen {
    type V = ScreenModel;

    open spec fn view(&self) -> ScreenModel {
        ScreenModel {
            header: self.header@,
            body: maps::views(self.body@),
            scroll: self.scroll,
            note: match self.note {
                Some(l) => Some(l@),
                None => None,
            },
            help: self.help@,
        }
    }
}

/// The ending of a noun that is counted.
pub open spec fn plural(n: nat) -> Seq<char> {
    if n == 1 {
        ""@
    } else {
        "s"@
    }
}

fn plural_of(n: usize) -> (r: String)
    ensures
        r@ == plural(n as nat),
{
    if n == 1 {
        "".to_owned()
    } else {
        "s".to_owned()
    }
}

/// A number of things.
pub open spec fn count(before: Seq<char>, n: nat, noun: Seq<char>, after: Seq<char>) -> Seq<char> {
    before + text::decimal(n) + noun + plural(n) + after
}

fn count_of(before: &str, n: usize, noun: &str, after: &str) -> (r: String)
    ensures
        r@ == count(before@, n as nat, noun@, after@),
{
    let mut r = before.to_owned();
    r.append(text::decimal_of(n as u64).as_str());
    r.append(noun);
    r.append(plural_of(n).as_str());
    r.append(after);
    r
}

/// The lines of apps of a host.
pub open spec fn app_lines(
    key: Seq<char>,
    apps: Seq<types::AppModel>,
    sel: Option<(Seq<char>, u16)>,
) -> Seq<screen::LineModel> {
    Seq::new(
        apps.len(),
        |i: int| screen::app_line(apps[i], sel == Some((key, apps[i].rport))),
    )
}

/// The position of the selected app among apps of a host.
pub open spec fn selected_index(
    key: Seq<char>,
    apps: Seq<types::AppModel>,
    sel: Option<(Seq<char>, u16)>,
) -> Option<int>
    decreases apps.len(),
{
    if apps.len() == 0 {
        None
    } else if sel == Some((key, apps.last().rport)) {
        Some(apps.len() - 1)
    } else {
        selected_index(key, apps.drop_last(), sel)
    }
}

/// The line in place of the apps where none are shown.
pub open spec fn no_apps(scanned_once: bool, hidden: nat) -> Seq<char> {
    if !scanned_once {
        "   scanning…"@
    } else if hidden > 0 {
        count("   no apps detected ("@, hidden, " system port"@, " hidden — press a)"@)
    } else {
        "   no listening apps detected"@
    }
}

/// The titles of the columns.
pub open spec fn titles() -> Seq<char> {
    "   "@ + screen::columns("PROCESS"@, "REMOTE"@, "LOCAL"@) + "STATUS"@
}

/// The lines below the line of a host.
pub open spec fn host_body(
    h: types::HostModel,
    show_system: bool,
    sel: Option<(Seq<char>, u16)>,
) -> Seq<screen::LineModel> {
    let apps = visible_apps(h.apps, show_system);
    let hidden = (h.apps.len() - apps.len()) as nat;
    if !(h.master is Ready) {
        Seq::empty()
    } else if apps.len() == 0 {
        seq![screen::text_line(no_apps(h.scanned_once, hidden), screen::dim())]
    } else {
        let table = seq![screen::text_line(titles(), screen::dim())] + app_lines(h.key, apps, sel);
        if hidden > 0 && !show_system {
            table.push(
                screen::text_line(
                    count("   + "@, hidden, " system port"@, " hidden (press a)"@),
                    screen::dim(),
                ),
            )
        } else {
            table
        }
    }
}

/// The lines of a host.
pub open spec fn host_block(
    h: types::HostModel,
    show_system: bool,
    sel: Option<(Seq<char>, u16)>,
) -> Seq<screen::LineModel> {
    seq![screen::line(Seq::empty()), screen::host_line(h)] + host_body(h, show_system, sel)
}

/// The line of the selected app among the lines of a host.
pub open spec fn block_index(
    h: types::HostModel,
    show_system: bool,
    sel: Option<(Seq<char>, u16)>,
) -> Option<int> {
    if !(h.master is Ready) {
        None
    } else {
        match selected_index(h.key, visible_apps(h.apps, show_system), sel) {
            Some(i) => Some(3 + i),
            None => None,
        }
    }
}

/// The lines of hosts, and the line of the selected app among them.
pub open spec fn blocks(
    snap: Seq<types::HostModel>,
    show_system: bool,
    sel: Option<(Seq<char>, u16)>,
) -> (Seq<screen::LineModel>, Option<int>)
    decreases snap.len(),
{
    if snap.len() == 0 {
        (Seq::empty(), None)
    } else {
        let (lines, at) = blocks(snap.drop_last(), show_system, sel);
        (
            lines + host_block(snap.last(), show_system, sel),
            match block_index(snap.last(), show_system, sel) {
                Some(i) => Some(lines.len() + i),
                None => at,
            },
        )
    }
}

/// A number cut down to sixteen bits.
pub open spec fn cut(n: int) -> u16 {
    (n % 0x1_0000) as u16
}

/// The first line of the body that is drawn, moved as little as it takes to have the selected line
/// in view.
pub open spec fn scrolled(scroll: u16, at: Option<int>, lines: nat, height: u16) -> u16 {
    let h: int = if height == 0 {
        1
    } else {
        height as int
    };
    let there = match at {
        Some(n) => {
            let sl = cut(n);
            if sl < scroll {
                sl
            } else if sl - scroll >= h {
                (sl - h + 1) as u16
            } else {
                scroll
            }
        },
        None => scroll,
    };
    let end = cut(
        if lines > 0 {
            lines - 1
        } else {
            0
        },
    );
    if there < end {
        there
    } else {
        end
    }
}

/// How long a message stays, in nanoseconds.
pub open spec fn toast_ttl() -> u64 {
    6_000_000_000
}

impl UiModel {
    /// All lines of the body, and the line of the selected app.
    pub open spec fn body(self) -> (Seq<screen::LineModel>, Option<int>) {
        if self.snap.len() == 0 {
            (
                seq![
                    screen::line(Seq::empty()),
                    screen::text_line(
                        "  No active SSH connections. Open one (e.g. `ssh myserver`) and it will appear here."@,
                        screen::dim(),
                    ),
                ],
                None,
            )
        } else {
            blocks(self.snap, self.show_system, self.sel)
        }
    }

    /// The line at the top.
    pub open spec fn header(self) -> screen::LineModel {
        screen::line(
            seq![
                screen::span(
                    " ssh-autoport "@,
                    (Style { bold: true, reversed: true, ..screen::plain() }),
                ),
                screen::span("  "@, screen::plain()),
                if self.auto {
                    screen::span("auto-forward ON"@, screen::colored(Color::Green))
                } else {
                    screen::span("auto-forward OFF"@, screen::colored(Color::Red))
                },
                screen::span(
                    count("  ·  "@, self.snap.len(), " connection"@, ""@),
                    screen::dim(),
                ),
            ],
        )
    }

    /// The line for the prompt, or for a message while it is fresh.
    pub open spec fn note(self, now: u64) -> Option<screen::LineModel> {
        match (self.editing, self.toast) {
            (Some(e), _) => Some(
                screen::line(
                    seq![
                        screen::span(" local port for "@, screen::plain()),
                        screen::span(e.label, screen::bold()),
                        screen::span(": "@, screen::plain()),
                        screen::span(
                            e.buf,
                            (Style { bold: true, ..screen::colored(Color::Yellow) }),
                        ),
                        screen::span("▏"@, screen::colored(Color::Yellow)),
                        screen::span("   Enter apply · Esc cancel"@, screen::dim()),
                    ],
                ),
            ),
            (None, Some((msg, at))) => if host::elapsed(at, now) < toast_ttl() {
                Some(screen::text_line(" "@ + msg, screen::colored(Color::Yellow)))
            } else {
                None
            },
            (None, None) => None,
        }
    }

    /// The line of help.
    pub open spec fn help(self) -> screen::LineModel {
        screen::text_line(
            " ↑↓ select · ⏎/e set port · f forward on/off · o open · a system ports · p auto · r refresh · q quit"@,
            screen::dim(),
        )
    }

    /// The interface and what is drawn, in a body of `height` lines: a message that has been there
    /// long enough is forgotten.
    pub open spec fn drawn(self, height: u16, now: u64) -> (UiModel, ScreenModel) {
        let (lines, at) = self.body();
        let scroll = scrolled(self.scroll, at, lines.len(), height);
        let stale = self.editing is None && self.toast is Some && self.note(now) is None;
        (
            UiModel {
                scroll,
                toast: if stale {
                    None
                } else {
                    self.toast
                },
                ..self
            },
            ScreenModel {
                header: self.header(),
                body: lines,
                scroll,
                note: self.note(now),
                help: self.help(),
            },
        )
    }
}

fn put_line(lines: &mut Vec<Line>, l: Line)
    ensures
        maps::views(final(lines)@) == maps::views(old(lines)@).push(l@),
{
    lines.push(l);
    assert(maps::views(lines@) =~= maps::views(old(lines)@).push(l@));
}

fn visible_count(apps: &Vec<AppView>, show_system: bool) -> (r: usize)
    ensures
        r == visible_apps(types::app_models(apps@), show_system).len(),
        r <= apps@.len(),
{
    let ghost all = types::app_models(apps@);
    let mut n: usize = 0;
    assert(all.take(0) =~= Seq::<types::AppModel>::empty());
    for i in 0..apps.len()
        invariant
            all == types::app_models(apps@),
            n <= i,
            n == visible_apps(all.take(i as int), show_system).len(),
    {
        assert(all.take(i + 1).drop_last() =~= all.take(i as int));
        assert(all.take(i + 1).last() == apps@[i as int]@);
        if shows(&apps[i], show_system) {
            n = n + 1;
        }
    }
    assert(all.take(all.len() as int) =~= all);
    n
}

/// The model of a selection.
spec fn sel_model(sel: Option<(String, u16)>) -> Option<(Seq<char>, u16)> {
    match sel {
        Some((k, p)) => Some((k@, p)),
        None => None,
    }
}

fn is_selected(sel: &Option<(String, u16)>, key: &String, rport: u16) -> (r: bool)
    ensures
        r == (sel_model(*sel) == Some((key@, rport))),
{
    match sel {
        Some((k, p)) => *p == rport && text::same_text(k.as_str(), key.as_str()),
        None => false,
    }
}

/// Appends the lines of the apps that are shown; the position of the selected one.
fn put_apps(
    h: &HostView,
    show_system: bool,
    sel: &Option<(String, u16)>,
    lines: &mut Vec<Line>,
) -> (r: Option<usize>)
    ensures
        ({
            let apps = visible_apps(h@.apps, show_system);
            let at = selected_index(h@.key, apps, sel_model(*sel));
            &&& maps::views(final(lines)@) == maps::views(old(lines)@) + app_lines(
                h@.key,
                apps,
                sel_model(*sel),
            )
            &&& r is Some <==> at is Some
            &&& r matches Some(i) ==> at == Some(i as int) && i < apps.len()
        }),
{
    let ghost start = maps::views(lines@);
    let ghost all = h@.apps;
    let ghost want = sel_model(*sel);
    let mut at: Option<usize> = None;
    let mut n: usize = 0;
    assert(all.take(0) =~= Seq::<types::AppModel>::empty());
    assert(start =~= start + app_lines(h@.key, Seq::empty(), want));
    for i in 0..h.apps.len()
        invariant
            all == h@.apps,
            want == sel_model(*sel),
            n <= i,
            n == visible_apps(all.take(i as int), show_system).len(),
            maps::views(lines@) == start + app_lines(
                h@.key,
                visible_apps(all.take(i as int), show_system),
                want,
            ),
            at is Some <==> selected_index(
                h@.key,
                visible_apps(all.take(i as int), show_system),
                want,
            ) is Some,
            at matches Some(k) ==> k < n && selected_index(
                h@.key,
                visible_apps(all.take(i as int), show_system),
                want,
            ) == Some(k as int),
    {
        let ghost before = visible_apps(all.take(i as int), show_system);
        assert(all.take(i + 1).drop_last() =~= all.take(i as int));
        assert(all.take(i + 1).last() == h.apps@[i as int]@);
        if shows(&h.apps[i], show_system) {
            let selected = is_selected(sel, &h.key, h.apps[i].rport);
            if selected {
                at = Some(n);
            }
            put_line(lines, screen::app_line_of(&h.apps[i], selected));
            n = n + 1;
            proof {
                let now = before.push(all[i as int]);
                assert(now.drop_last() =~= before);
                assert(app_lines(h@.key, now, want) =~= app_lines(h@.key, before, want).push(
                    screen::app_line(all[i as int], selected),
                ));
                assert(maps::views(lines@) =~= start + app_lines(h@.key, now, want));
            }
        }
    }
    assert(all.take(all.len() as int) =~= all);
    at
}

/// Appends the lines of a host; the line of the selected app among them.
fn put_host(
    h: &HostView,
    show_system: bool,
    sel: &Option<(String, u16)>,
    lines: &mut Vec<Line>,
) -> (r: Option<usize>)
    ensures
        ({
            let block = host_block(h@, show_system, sel_model(*sel));
            let at = block_index(h@, show_system, sel_model(*sel));
            &&& maps::views(final(lines)@) == maps::views(old(lines)@) + block
            &&& r is Some <==> at is Some
            &&& r matches Some(i) ==> at == Some(i as int) && i < block.len()
        }),
{
    let ghost start = maps::views(lines@);
    let ghost want = sel_model(*sel);
    let none: Vec<Span> = Vec::new();
    assert(maps::views(none@) =~= Seq::<screen::SpanModel>::empty());
    put_line(lines, screen::line_of(none));
    put_line(lines, screen::host_line_of(h));
    let mut at: Option<usize> = None;
    match &h.master {
        MasterView::Ready { .. } => {
            let shown: usize = visible_count(&h.apps, show_system);
            let hidden: usize = h.apps.len() - shown;
            if shown == 0 {
                let msg = if !h.scanned_once {
                    "   scanning…".to_owned()
                } else if hidden > 0 {
                    count_of("   no apps detected (", hidden, " system port", " hidden — press a)")
                } else {
                    "   no listening apps detected".to_owned()
                };
                put_line(lines, screen::text_line_of(msg.as_str(), screen::dim_style()));
            } else {
                let mut head = "   ".to_owned();
                head.append(screen::columns_of("PROCESS", "REMOTE", "LOCAL").as_str());
                head.append("STATUS");
                put_line(lines, screen::text_line_of(head.as_str(), screen::dim_style()));
                match put_apps(h, show_system, sel, lines) {
                    Some(i) => {
                        assert(i + 3 <= maps::views(lines@).len());
                        assert(i + 3 <= lines.len());
                        at = Some(i + 3);
                    },
                    None => {},
                }
                if hidden > 0 && !show_system {
                    let msg = count_of("   + ", hidden, " system port", " hidden (press a)");
                    put_line(lines, screen::text_line_of(msg.as_str(), screen::dim_style()));
                }
            }
        },
        _ => {},
    }
    assert(maps::views(lines@) =~= start + host_block(h@, show_system, want));
    at
}

fn cut_of(n: usize) -> (r: u16)
    ensures
        r == cut(n as int),
{
    let r: u16 = (n % 0x1_0000) as u16;
    r
}

fn scrolled_of(scroll: u16, at: Option<usize>, lines: usize, height: u16) -> (r: u16)
    ensures
        r == scrolled(
            scroll,
            match at {
                Some(i) => Some(i as int),
                None => None,
            },
            lines as nat,
            height,
        ),
{
    let h: u16 = if height == 0 {
        1
    } else {
        height
    };
    let there: u16 = match at {
        Some(n) => {
            let sl: u16 = cut_of(n);
            if sl < scroll {
                sl
            } else if sl - scroll >= h {
                sl - h + 1
            } else {
                scroll
            }
        },
        None => scroll,
    };
    let end: u16 = cut_of(
        if lines > 0 {
            lines - 1
        } else {
            0
        },
    );
    if there < end {
        there
    } else {
        end
    }
}

impl Ui {
    /// All lines of the body, and the line of the selected app.
    fn body_lines(&self) -> (r: (Vec<Line>, Option<usize>))
        ensures
            maps::views(r.0@) == self@.body().0,
            r.1 is Some <==> self@.body().1 is Some,
            r.1 matches Some(i) ==> self@.body().1 == Some(i as int),
    {
        let mut lines: Vec<Line> = Vec::new();
        assert(maps::views(lines@) =~= Seq::<screen::LineModel>::empty());
        if self.snap.len() == 0 {
            let none: Vec<Span> = Vec::new();
            assert(maps::views(none@) =~= Seq::<screen::SpanModel>::empty());
            put_line(&mut lines, screen::line_of(none));
            put_line(
                &mut lines,
                screen::text_line_of(
                    "  No active SSH connections. Open one (e.g. `ssh myserver`) and it will appear here.",
                    screen::dim_style(),
                ),
            );
            assert(maps::views(lines@) =~= self@.body().0);
            return (lines, None);
        }
        let ghost snap = self@.snap;
        let ghost want = self@.sel;
        assert(want == sel_model(self.sel));
        let mut at: Option<usize> = None;
        assert(snap.take(0) =~= Seq::<types::HostModel>::empty());
        for i in 0..self.snap.len()
            invariant
                snap == self@.snap,
                want == self@.sel,
                want == sel_model(self.sel),
                maps::views(lines@) == blocks(snap.take(i as int), self@.show_system, want).0,
                at is Some <==> blocks(snap.take(i as int), self@.show_system, want).1 is Some,
                at matches Some(k) ==> blocks(snap.take(i as int), self@.show_system, want).1
                    == Some(k as int),
        {
            assert(snap.take(i + 1).drop_last() =~= snap.take(i as int));
            assert(snap.take(i + 1).last() == self.snap@[i as int]@);
            let n: usize = lines.len();
            match put_host(&self.snap[i], self.show_system, &self.sel, &mut lines) {
                Some(k) => {
                    assert(maps::views(lines@).len() == n + host_block(
                        snap[i as int],
                        self@.show_system,
                        want,
                    ).len());
                    assert(n + k < lines.len());
                    at = Some(n + k);
                },
                None => {},
            }
        }
        assert(snap.take(snap.len() as int) =~= snap);
        (lines, at)
    }
}

impl Ui {
    /// The line at the top.
    fn header_line(&self) -> (r: Line)
        ensures
            r@ == self@.header(),
    {
        let auto = if self.auto {
            screen::span_of("auto-forward ON", screen::color_style(Color::Green))
        } else {
            screen::span_of("auto-forward OFF", screen::color_style(Color::Red))
        };
        let n: usize = self.snap.len();
        let spans: Vec<Span> = vec![
            screen::span_of(
                " ssh-autoport ",
                Style { fg: None, bold: true, dim: false, reversed: true },
            ),
            screen::span_of("  ", screen::plain_style()),
            auto,
            screen::span_of(count_of("  ·  ", n, " connection", "").as_str(), screen::dim_style()),
        ];
        assert(maps::views(spans@) =~= self@.header().spans);
        screen::line_of(spans)
    }

    /// The prompt for a local port that is being typed.
    fn prompt(edit: &Edit) -> (r: Line)
        ensures
            forall|ui: UiModel, now: u64| ui.editing == Some(edit@) ==> #[trigger] ui.note(now)
                == Some(r@),
    {
        let buf = text::text_of(edit.buf.as_slice());
        let spans: Vec<Span> = vec![
            screen::span_of(" local port for ", screen::plain_style()),
            screen::span_of(edit.label.as_str(), screen::bold_style()),
            screen::span_of(": ", screen::plain_style()),
            screen::span_of(
                buf.as_str(),
                Style { fg: Some(Color::Yellow), bold: true, dim: false, reversed: false },
            ),
            screen::span_of("▏", screen::color_style(Color::Yellow)),
            screen::span_of("   Enter apply · Esc cancel", screen::dim_style()),
        ];
        let r = screen::line_of(spans);
        assert forall|ui: UiModel, now: u64| ui.editing == Some(edit@) implies #[trigger] ui.note(
            now,
        ) == Some(r@) by {
            assert(r@.spans =~= ui.note(now)->0.spans);
        }
        r
    }

    /// What is drawn, in a body of `height` lines.
    pub fn draw(&mut self, height: u16, now: u64) -> (r: Screen)
        ensures
            (final(self)@, r@) == old(self)@.drawn(height, now),
    {
        let header = self.header_line();
        let (body, at) = self.body_lines();
        let scroll: u16 = scrolled_of(self.scroll, at, body.len(), height);
        self.scroll = scroll;
        let mut stale = false;
        let note = match &self.editing {
            Some(edit) => Some(Ui::prompt(edit)),
            None => match &self.toast {
                Some((msg, since)) => if host::elapsed_of(*since, now) < 6_000_000_000 {
                    let mut t = " ".to_owned();
                    t.append(msg.as_str());
                    Some(screen::text_line_of(t.as_str(), screen::color_style(Color::Yellow)))
                } else {
                    stale = true;
                    None
                },
                None => None,
            },
        };
        if stale {
            self.toast = None;
        }
        let help = screen::text_line_of(
            " ↑↓ select · ⏎/e set port · f forward on/off · o open · a system ports · p auto · r refresh · q quit",
            screen::dim_style(),
        );
        Screen { header, body, scroll, note, help }
    }
}

/// The address of an app in the browser.
pub fn browser_url(lport: u16) -> (r: String)
    ensures
        r@ == "http://127.0.0.1:"@ + text::decimal(lport as nat) + "/"@,
{
    let mut url = "http://127.0.0.1:".to_owned();
    url.append(text::decimal_of(lport as u64).as_str());
    url.append("/");
    url
}

} // verus!
