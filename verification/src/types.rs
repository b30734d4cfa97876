//! What the worker and the user interface tell each other.
use vstd::prelude::*;

verus! {

/// Commands from the user interface to the worker.
#[derive(Debug, PartialEq)]
pub enum Cmd {
    /// Manually assign a local port to a remote app (pins it).
    Assign { host: String, rport: u16, lport: u16 },
    /// Toggle forwarding on or off for a remote app.
    Toggle { host: String, rport: u16 },
    /// Attach or replace the user's note on a remote app (empty text clears it).
    SetComment { host: String, rport: u16, text: String },
    /// Hide (demote to background) or unhide (promote to app) a port, overriding the heuristic.
    ToggleHidden { host: String, rport: u16 },
    /// Pause or resume forwarding for a whole server.
    ToggleHost { host: String },
    /// Force a rescan of all hosts now.
    Refresh,
    /// Toggle global auto-forwarding.
    ToggleAuto,
    /// Shut down: tear down the masters and forwards that were created here.
    Quit,
}

/// The model of a [`Cmd`].
pub enum CmdModel {
    Assign { host: Seq<char>, rport: u16, lport: u16 },
    Toggle { host: Seq<char>, rport: u16 },
    SetComment { host: Seq<char>, rport: u16, text: Seq<char> },
    ToggleHidden { host: Seq<char>, rport: u16 },
    ToggleHost { host: Seq<char> },
    Refresh,
    ToggleAuto,
    Quit,
}

impl View for Cmd {
    type V = CmdModel;

    open spec fn view(&self) -> CmdModel {
        match *self {
            Cmd::Assign { host, rport, lport } => CmdModel::Assign { host: host@, rport, lport },
            Cmd::Toggle { host, rport } => CmdModel::Toggle { host: host@, rport },
            Cmd::SetComment { host, rport, text } => CmdModel::SetComment {
                host: host@,
                rport,
                text: text@,
            },
            Cmd::ToggleHidden { host, rport } => CmdModel::ToggleHidden { host: host@, rport },
            Cmd::ToggleHost { host } => CmdModel::ToggleHost { host: host@ },
            Cmd::Refresh => CmdModel::Refresh,
            Cmd::ToggleAuto => CmdModel::ToggleAuto,
            Cmd::Quit => CmdModel::Quit,
        }
    }
}

/// Events from the worker to the user interface.
#[derive(Debug, PartialEq)]
pub enum Ev {
    Snapshot(Vec<HostView>),
    Toast(String),
    AutoMode(bool),
    CleanedUp,
}

/// The model of an [`Ev`].
pub enum EvModel {
    Snapshot(Seq<HostModel>),
    Toast(Seq<char>),
    AutoMode(bool),
    CleanedUp,
}

impl View for Ev {
    type V = EvModel;

    open spec fn view(&self) -> EvModel {
        match *self {
            Ev::Snapshot(hosts) => EvModel::Snapshot(host_models(hosts@)),
            Ev::Toast(msg) => EvModel::Toast(msg@),
            Ev::AutoMode(on) => EvModel::AutoMode(on),
            Ev::CleanedUp => EvModel::CleanedUp,
        }
    }
}

/// The state of the connection to a host.
#[derive(Debug, PartialEq)]
pub enum MasterView {
    Connecting,
    /// `shared` means that the user's own ControlMaster carries the connection.
    Ready { shared: bool },
    Failed(String),
}

/// The model of a [`MasterView`].
pub enum MasterModel {
    Connecting,
    Ready { shared: bool },
    Failed(Seq<char>),
}

impl View for MasterView {
    type V = MasterModel;

    open spec fn view(&self) -> MasterModel {
        match *self {
            MasterView::Connecting => MasterModel::Connecting,
            MasterView::Ready { shared } => MasterModel::Ready { shared },
            MasterView::Failed(err) => MasterModel::Failed(err@),
        }
    }
}

/// The state of the forward of a remote port.
#[derive(Debug, PartialEq)]
pub enum FwdView {
    Off,
    Pending,
    Active,
    /// Already forwarded by the user's own ssh session or config (-L, LocalForward): shown, not
    /// managed.
    External,
    Error(String),
}

/// The model of a [`FwdView`].
pub enum FwdModel {
    Off,
    Pending,
    Active,
    External,
    Error(Seq<char>),
}

impl View for FwdView {
    type V = FwdModel;

    open spec fn view(&self) -> FwdModel {
        match *self {
            FwdView::Off => FwdModel::Off,
            FwdView::Pending => FwdModel::Pending,
            FwdView::Active => FwdModel::Active,
            FwdView::External => FwdModel::External,
            FwdView::Error(err) => FwdModel::Error(err@),
        }
    }
}

impl Clone for FwdView {
    fn clone(&self) -> (r: FwdView)
        ensures
            r@ == self@,
    {
        match self {
            FwdView::Off => FwdView::Off,
            FwdView::Pending => FwdView::Pending,
            FwdView::Active => FwdView::Active,
            FwdView::External => FwdView::External,
            FwdView::Error(err) => FwdView::Error(err.clone()),
        }
    }
}

impl Clone for MasterView {
    fn clone(&self) -> (r: MasterView)
        ensures
            r@ == self@,
    {
        match self {
            MasterView::Connecting => MasterView::Connecting,
            MasterView::Ready { shared } => MasterView::Ready { shared: *shared },
            MasterView::Failed(err) => MasterView::Failed(err.clone()),
        }
    }
}

/// How a remote port is treated.
#[derive(Debug, Clone, Copy, PartialEq, Eq, Structural)]
pub enum Tier {
    /// A real app: shown, auto-forwarded.
    App,
    /// Background noise: hidden, never auto-forwarded, manually forwardable.
    Bg,
    /// Infrastructure (sshd, DNS): hidden, never auto-forwarded.
    System,
}

/// The text in an optional string.
pub open spec fn opt_text(o: Option<String>) -> Option<Seq<char>> {
    match o {
        Some(s) => Some(s@),
        None => None,
    }
}

/// A copy of an optional string.
pub fn copy_opt(o: &Option<String>) -> (r: Option<String>)
    ensures
        opt_text(r) == opt_text(*o),
{
    match o {
        Some(s) => Some(s.clone()),
        None => None,
    }
}

/// A remote app as it is shown.
#[derive(Debug, PartialEq)]
pub struct AppView {
    pub rport: u16,
    /// Normalized remote bind address: "lo", "*", or a literal address.
    pub addr: String,
    pub process: Option<String>,
    pub pid: Option<u32>,
    pub cmdline: Option<String>,
    pub comment: Option<String>,
    /// Effective tier (the user's override already applied).
    pub tier: Tier,
    /// The user pinned this tier by hand.
    pub overridden: bool,
    pub lport: Option<u16>,
    pub status: FwdView,
    pub pinned: bool,
    pub muted: bool,
}

/// The model of an [`AppView`].
#[verifier::ext_equal]
pub struct AppModel {
    pub rport: u16,
    pub addr: Seq<char>,
    pub process: Option<Seq<char>>,
    pub pid: Option<u32>,
    pub cmdline: Option<Seq<char>>,
    pub comment: Option<Seq<char>>,
    pub tier: Tier,
    pub overridden: bool,
    pub lport: Option<u16>,
    pub status: FwdModel,
    pub pinned: bool,
    pub muted: bool,
}

impl View for AppView {
    type V = AppModel;

    open spec fn view(&self) -> AppModel {
        AppModel {
            rport: self.rport,
            addr: self.addr@,
            process: opt_text(self.process),
            pid: self.pid,
            cmdline: opt_text(self.cmdline),
            comment: opt_text(self.comment),
            tier: self.tier,
            overridden: self.overridden,
            lport: self.lport,
            status: self.status@,
            pinned: self.pinned,
            muted: self.muted,
        }
    }
}

impl Clone for AppView {
    fn clone(&self) -> (r: AppView)
        ensures
            r@ == self@,
    {
        AppView {
            rport: self.rport,
            addr: self.addr.clone(),
            process: copy_opt(&self.process),
            pid: self.pid,
            cmdline: copy_opt(&self.cmdline),
            comment: copy_opt(&self.comment),
            tier: self.tier,
            overridden: self.overridden,
            lport: self.lport,
            status: self.status.clone(),
            pinned: self.pinned,
            muted: self.muted,
        }
    }
}

/// A host as it is shown.
#[derive(Debug, PartialEq)]
pub struct HostView {
    /// Canonical identity: user@hostname:port
    pub key: String,
    /// user@hostname for display.
    pub title: String,
    /// The destination as the user typed it (config alias and the like), if different.
    pub alias: Option<String>,
    pub master: MasterView,
    pub paused: bool,
    pub scan_err: Option<String>,
    pub scanned_once: bool,
    pub apps: Vec<AppView>,
}

/// The model of a [`HostView`].
#[verifier::ext_equal]
pub struct HostModel {
    pub key: Seq<char>,
    pub title: Seq<char>,
    pub alias: Option<Seq<char>>,
    pub master: MasterModel,
    pub paused: bool,
    pub scan_err: Option<Seq<char>>,
    pub scanned_once: bool,
    pub apps: Seq<AppModel>,
}

/// The models of apps.
pub open spec fn app_models(apps: Seq<AppView>) -> Seq<AppModel> {
    Seq::new(apps.len(), |i: int| apps[i]@)
}

/// The models of hosts.
pub open spec fn host_models(hosts: Seq<HostView>) -> Seq<HostModel> {
    Seq::new(hosts.len(), |i: int| hosts[i]@)
}

impl View for HostView {
    type V = HostModel;

    open spec fn view(&self) -> HostModel {
        HostModel {
            key: self.key@,
            title: self.title@,
            alias: opt_text(self.alias),
            master: self.master@,
            paused: self.paused,
            scan_err: opt_text(self.scan_err),
            scanned_once: self.scanned_once,
            apps: app_models(self.apps@),
        }
    }
}

impl Clone for HostView {
    fn clone(&self) -> (r: HostView)
        ensures
            r@ == self@,
    {
        let mut apps: Vec<AppView> = Vec::new();
        for i in 0..self.apps.len()
            invariant
                app_models(apps@) == app_models(self.apps@).take(i as int),
        {
            let ghost before = app_models(apps@);
            apps.push(self.apps[i].clone());
            assert(app_models(apps@) =~= before.push(self.apps@[i as int]@));
            assert(app_models(self.apps@).take(i + 1) =~= before.push(self.apps@[i as int]@));
        }
        assert(app_models(apps@) =~= app_models(self.apps@));
        HostView {
            key: self.key.clone(),
            title: self.title.clone(),
            alias: copy_opt(&self.alias),
            master: self.master.clone(),
            paused: self.paused,
            scan_err: copy_opt(&self.scan_err),
            scanned_once: self.scanned_once,
            apps,
        }
    }
}

} // verus!
