//! SSH ControlMaster management and dynamic port forwards.
//!
//! Per host:
//!  1. If the user's own ssh config provides a ControlMaster (a live socket at the resolved
//!     ControlPath), it is shared.
//!  2. Otherwise an own master on a private control socket is reused or created. Authentication
//!     runs in BatchMode (keys and agent only), so that nothing ever hangs on a prompt.
//!
//! Every operation after that (scans, `-O forward`, `-O cancel`) talks to the live socket with
//! `-F /dev/null`: the user's config applies once, when a connection is established.
use std::collections::hash_map::DefaultHasher;
use std::hash::Hasher;
use vstd::prelude::*;
use crate::remote;
use crate::text;
use crate::types;
use crate::util;
use crate::util::{Invocation, Output};

verus! {

/// Everything needed to address a live master.
#[derive(Debug, PartialEq)]
pub struct MasterRef {
    pub dest: String,
    /// The path of the control socket.
    pub socket: String,
}

/// The model of a [`MasterRef`].
#[verifier::ext_equal]
pub struct MasterRefModel {
    pub dest: Seq<char>,
    pub socket: Seq<char>,
}

impl View for MasterRef {
    type V = MasterRefModel;

    open spec fn view(&self) -> MasterRefModel {
        MasterRefModel { dest: self.dest@, socket: self.socket@ }
    }
}

impl Clone for MasterRef {
    fn clone(&self) -> (r: MasterRef)
        ensures
            r@ == self@,
    {
        MasterRef { dest: self.dest.clone(), socket: self.socket.clone() }
    }
}

/// A live (or adopted) master connection for one host.
#[derive(Debug, PartialEq)]
pub struct Master {
    pub r: MasterRef,
    /// True when this is the user's own ControlMaster, which is never torn down.
    pub external: bool,
    /// The process that was started for it, by the number under which it is kept.
    pub child: Option<u64>,
}

/// The model of a [`Master`].
#[verifier::ext_equal]
pub struct LinkModel {
    pub r: MasterRefModel,
    pub external: bool,
    pub child: Option<u64>,
}

impl LinkModel {
    /// What it takes to end this master.
    pub open spec fn shutdown(self) -> ShutdownModel {
        ShutdownModel { command: self.r.exit(), kill: self.child, socket: self.r.socket }
    }
}

impl View for Master {
    type V = LinkModel;

    open spec fn view(&self) -> LinkModel {
        LinkModel { r: self.r@, external: self.external, child: self.child }
    }
}

impl Clone for Master {
    fn clone(&self) -> (r: Master)
        ensures
            r@ == self@,
    {
        Master { r: self.r.clone(), external: self.external, child: self.child }
    }
}

/// The options of every command for a live socket. If the socket has died, plain ssh would fall
/// back to a direct connection; a failing ProxyCommand turns that into a fast error.
pub open spec fn base_args(socket: Seq<char>) -> Seq<Seq<char>> {
    seq![
        "-F"@,
        "/dev/null"@,
        "-o"@,
        "BatchMode=yes"@,
        "-o"@,
        "ProxyCommand=false"@,
        "-S"@,
        socket,
    ]
}

/// The forward between a local port and a port of the server itself, as an `-L` spec.
pub open spec fn forward_spec(lport: u16, rport: u16) -> Seq<char> {
    "127.0.0.1:"@ + text::decimal(lport as nat) + ":localhost:"@ + text::decimal(rport as nat)
}

impl MasterRefModel {
    /// The command that asks whether the master lives.
    pub open spec fn check(self) -> util::InvocationModel {
        util::InvocationModel {
            program: "ssh"@,
            args: base_args(self.socket) + seq!["-O"@, "check"@, self.dest],
            stdin: None,
            timeout_secs: 6,
        }
    }

    /// The command that runs the scan script on the remote.
    pub open spec fn scan(self) -> util::InvocationModel {
        util::InvocationModel {
            program: "ssh"@,
            args: base_args(self.socket) + seq!["-T"@, self.dest, "--"@, "sh"@],
            stdin: Some(remote::scan_script()),
            timeout_secs: 25,
        }
    }

    /// The command that adds (`forward`) or takes away (`cancel`) a forward.
    pub open spec fn mux(self, op: Seq<char>, lport: u16, rport: u16) -> util::InvocationModel {
        util::InvocationModel {
            program: "ssh"@,
            args: base_args(self.socket) + seq!["-O"@, op, "-L"@, forward_spec(lport, rport), self.dest],
            stdin: None,
            timeout_secs: 10,
        }
    }

    /// The command that ends the master.
    pub open spec fn exit(self) -> util::InvocationModel {
        util::InvocationModel {
            program: "ssh"@,
            args: base_args(self.socket) + seq!["-O"@, "exit"@, self.dest],
            stdin: None,
            timeout_secs: 5,
        }
    }
}

impl MasterRef {
    fn base(&self) -> (r: Vec<String>)
        ensures
            text::string_texts(r@) == base_args(self.socket@),
    {
        let r: Vec<String> = vec![
            "-F".to_owned(),
            "/dev/null".to_owned(),
            "-o".to_owned(),
            "BatchMode=yes".to_owned(),
            "-o".to_owned(),
            "ProxyCommand=false".to_owned(),
            "-S".to_owned(),
            self.socket.clone(),
        ];
        assert(text::string_texts(r@) =~= base_args(self.socket@));
        r
    }

    /// A command for the live socket, with `more` behind the common options.
    fn command(&self, more: Vec<String>, stdin: Option<String>, timeout_secs: u64) -> (r: Invocation)
        ensures
            r@ == (util::InvocationModel {
                program: "ssh"@,
                args: base_args(self.socket@) + text::string_texts(more@),
                stdin: types::opt_text(stdin),
                timeout_secs,
            }),
    {
        let mut args = self.base();
        let mut more = more;
        let ghost tail = text::string_texts(more@);
        args.append(&mut more);
        assert(text::string_texts(args@) =~= base_args(self.socket@) + tail);
        Invocation { program: "ssh".to_owned(), args, stdin, timeout_secs }
    }

    /// The command that asks whether the master lives; [`check_result`] reads its answer.
    pub fn check(&self) -> (r: Invocation)
        ensures
            r@ == self@.check(),
    {
        let more: Vec<String> = vec!["-O".to_owned(), "check".to_owned(), self.dest.clone()];
        assert(text::string_texts(more@) =~= seq!["-O"@, "check"@, self.dest@]);
        self.command(more, None, 6)
    }

    /// The command that runs the port scan on the remote over the multiplexed connection;
    /// [`scan_result`] reads its answer. The script goes over standard input into `sh`, so that it
    /// works regardless of the user's login shell.
    pub fn scan(&self) -> (r: Invocation)
        ensures
            r@ == self@.scan(),
    {
        let more: Vec<String> = vec![
            "-T".to_owned(),
            self.dest.clone(),
            "--".to_owned(),
            "sh".to_owned(),
        ];
        assert(text::string_texts(more@) =~= seq!["-T"@, self.dest@, "--"@, "sh"@]);
        self.command(more, Some(remote::script()), 25)
    }

    /// The command that adds a forward; [`mux_result`] reads its answer.
    pub fn forward(&self, lport: u16, rport: u16) -> (r: Invocation)
        ensures
            r@ == self@.mux("forward"@, lport, rport),
    {
        self.mux_forward("forward", lport, rport)
    }

    /// The command that takes a forward away; [`mux_result`] reads its answer.
    pub fn cancel(&self, lport: u16, rport: u16) -> (r: Invocation)
        ensures
            r@ == self@.mux("cancel"@, lport, rport),
    {
        self.mux_forward("cancel", lport, rport)
    }

    fn mux_forward(&self, op: &str, lport: u16, rport: u16) -> (r: Invocation)
        ensures
            r@ == self@.mux(op@, lport, rport),
    {
        let mut spec = "127.0.0.1:".to_owned();
        spec.append(text::decimal_of(lport as u64).as_str());
        spec.append(":localhost:");
        spec.append(text::decimal_of(rport as u64).as_str());
        let more: Vec<String> = vec![
            "-O".to_owned(),
            op.to_owned(),
            "-L".to_owned(),
            spec,
            self.dest.clone(),
        ];
        assert(text::string_texts(more@) =~= seq![
            "-O"@,
            op@,
            "-L"@,
            forward_spec(lport, rport),
            self.dest@,
        ]);
        self.command(more, None, 10)
    }
}

/// The answer to [`MasterRef::check`] says that the master lives.
pub open spec fn check_answer(ran: Result<Output, String>) -> bool {
    ran matches Ok(out) && out.success
}

/// Whether the answer to [`MasterRef::check`] says that the master lives.
pub fn check_result(ran: &Result<Output, String>) -> (r: bool)
    ensures
        r == check_answer(*ran),
{
    match ran {
        Ok(out) => out.success,
        Err(_) => false,
    }
}

/// The output of the scan, or why there is none.
pub open spec fn scan_answer(ran: Result<Output, String>) -> Result<Seq<char>, Seq<char>> {
    match ran {
        Err(e) => Err(e@),
        Ok(out) => if !out.success && out.stdout@.len() == 0 {
            Err(util::headline(util::lossy(out.stderr@), "unknown error"@))
        } else {
            Ok(util::lossy(out.stdout@))
        },
    }
}

/// The output of the scan, or why there is none.
pub fn scan_result(ran: &Result<Output, String>) -> (r: Result<String, String>)
    ensures
        match scan_answer(*ran) {
            Ok(out) => r is Ok && r->Ok_0@ == out,
            Err(e) => r is Err && r->Err_0@ == e,
        },
{
    match ran {
        Err(e) => Err(e.clone()),
        Ok(out) => if !out.success && out.stdout.len() == 0 {
            Err(util::first_line(out.stderr.as_slice()))
        } else {
            Ok(util::lossy_text(out.stdout.as_slice()))
        },
    }
}

/// Whether a forward was added or taken away, or why not.
pub open spec fn mux_answer(ran: Result<Output, String>) -> Result<(), Seq<char>> {
    match ran {
        Err(e) => Err(e@),
        Ok(out) => if out.success {
            Ok(())
        } else {
            Err(util::headline(util::lossy(out.stderr@), "unknown error"@))
        },
    }
}

/// Whether a forward was added or taken away, or why not.
pub fn mux_result(ran: &Result<Output, String>) -> (r: Result<(), String>)
    ensures
        match mux_answer(*ran) {
            Ok(_) => r is Ok,
            Err(e) => r is Err && r->Err_0@ == e,
        },
{
    match ran {
        Err(e) => Err(e.clone()),
        Ok(out) => if out.success {
            Ok(())
        } else {
            Err(util::first_line(out.stderr.as_slice()))
        },
    }
}

/// The directory of the control sockets: under `XDG_RUNTIME_DIR`, or else under the directory for
/// temporary files, with the user's name.
pub open spec fn socket_dir(
    runtime: Option<Seq<char>>,
    temp: Seq<char>,
    user: Option<Seq<char>>,
) -> Seq<char> {
    match runtime {
        Some(rt) => util::joined(rt, "ssh-autoport"@),
        None => util::joined(
            temp,
            "ssh-autoport-"@ + match user {
                Some(u) => u,
                None => "u"@,
            },
        ),
    }
}

/// The last `width` hexadecimal digits of `n`, with leading zeros.
pub open spec fn hex(n: nat, width: nat) -> Seq<char>
    decreases width,
{
    if width == 0 {
        Seq::empty()
    } else {
        hex(n / 16, (width - 1) as nat).push(text::hex_digit(n % 16))
    }
}

/// The hash of a text: its bytes and a closing byte that no text holds, through std's hasher.
pub open spec fn text_hash(s: Seq<char>) -> u64 {
    <DefaultHasher as vstd::std_specs::hash::DefaultHasherAdditionalSpecFns>::spec_finish(
        seq![vstd::utf8::encode_utf8(s), seq![0xffu8]],
    )
}

/// The control socket of a host in the directory of the sockets.
pub open spec fn socket_path(dir: Seq<char>, key: Seq<char>) -> Seq<char> {
    util::joined(dir, "m-"@ + hex(text_hash(key) as nat, 12) + ".sock"@)
}

/// The directory of the control sockets, from the value of `XDG_RUNTIME_DIR`, the directory for
/// temporary files and the value of `USER`.
pub fn socket_dir_of(runtime: &Option<String>, temp: &str, user: &Option<String>) -> (r: String)
    ensures
        r@ == socket_dir(types::opt_text(*runtime), temp@, types::opt_text(*user)),
{
    match runtime {
        Some(rt) => util::join_path(rt.as_str(), "ssh-autoport"),
        None => {
            let mut name = "ssh-autoport-".to_owned();
            match user {
                Some(u) => {
                    name.append(u.as_str());
                },
                None => {
                    name.append("u");
                },
            }
            util::join_path(temp, name.as_str())
        },
    }
}

/// The last `width` hexadecimal digits of a number.
fn hex_of(n: u64, width: usize) -> (r: Vec<char>)
    ensures
        r@ == hex(n as nat, width as nat),
    decreases width,
{
    if width == 0 {
        Vec::new()
    } else {
        let mut r = hex_of(n / 16, width - 1);
        r.push(text::hex_digit_of(n % 16));
        r
    }
}

/// The control socket of a host in the directory of the sockets.
pub fn socket_path_of(dir: &str, key: &str) -> (r: String)
    ensures
        r@ == socket_path(dir@, key@),
{
    let mut h = DefaultHasher::new();
    h.write(key.as_bytes());
    let closing: [u8; 1] = [0xff];
    h.write(&closing);
    assert(closing@ =~= seq![0xffu8]);
    assert(h@ =~= seq![vstd::utf8::encode_utf8(key@), seq![0xffu8]]);
    let mut name = "m-".to_owned();
    let digits = hex_of(h.finish(), 12);
    name.append(text::text_of(digits.as_slice()).as_str());
    name.append(".sock");
    util::join_path(dir, name.as_str())
}

/// The mode of the directory of the control sockets: only the user may enter it.
pub const SOCKET_DIR_MODE: u32 = 0o700;

/// What came of making the directory of the control sockets.
#[derive(Debug, PartialEq)]
pub enum DirNews {
    /// It is there, made now or before.
    Made,
    /// Something of that name stands there, which is then taken for it.
    Exists,
    /// It could not be made, for this reason.
    Failed(String),
}

/// The control socket of a host, from what came of making its directory, or why there is none.
pub fn socket_in(dir: &str, key: &str, made: &DirNews) -> (r: Result<String, String>)
    ensures
        match *made {
            DirNews::Failed(e) => r is Err && r->Err_0@ == "cannot create socket dir: "@ + e@,
            _ => r is Ok && r->Ok_0@ == socket_path(dir@, key@),
        },
{
    match made {
        DirNews::Failed(e) => {
            let mut err = "cannot create socket dir: ".to_owned();
            err.append(e.as_str());
            Err(err)
        },
        _ => Ok(socket_path_of(dir, key)),
    }
}

/// The arguments of the ssh that becomes a master of its own. Only here the user's config applies
/// (HostName, keys, ProxyJump), so the parts of it that belong to the user's own sessions are
/// switched off.
pub open spec fn master_args(
    socket: Seq<char>,
    extra: Seq<Seq<char>>,
    dest: Seq<char>,
) -> Seq<Seq<char>> {
    seq![
        "-M"@,
        "-N"@,
        "-S"@,
        socket,
        "-o"@,
        "BatchMode=yes"@,
        "-o"@,
        "ConnectTimeout=10"@,
        "-o"@,
        "ServerAliveInterval=15"@,
        "-o"@,
        "ServerAliveCountMax=3"@,
        "-o"@,
        "RemoteCommand=none"@,
        "-o"@,
        "ClearAllForwardings=yes"@,
    ] + extra + seq![dest]
}

fn master_args_of(socket: &str, extra: &Vec<String>, dest: &str) -> (r: Vec<String>)
    ensures
        text::string_texts(r@) == master_args(socket@, text::string_texts(extra@), dest@),
{
    let mut r: Vec<String> = vec![
        "-M".to_owned(),
        "-N".to_owned(),
        "-S".to_owned(),
        socket.to_owned(),
        "-o".to_owned(),
        "BatchMode=yes".to_owned(),
        "-o".to_owned(),
        "ConnectTimeout=10".to_owned(),
        "-o".to_owned(),
        "ServerAliveInterval=15".to_owned(),
        "-o".to_owned(),
        "ServerAliveCountMax=3".to_owned(),
        "-o".to_owned(),
        "RemoteCommand=none".to_owned(),
        "-o".to_owned(),
        "ClearAllForwardings=yes".to_owned(),
    ];
    let ghost head = text::string_texts(r@);
    assert(head + text::string_texts(extra@) + seq![dest@] =~= master_args(
        socket@,
        text::string_texts(extra@),
        dest@,
    ));
    let mut more = text::copy_strings(extra);
    let ghost tail = text::string_texts(more@);
    r.append(&mut more);
    assert(text::string_texts(r@) =~= head + tail);
    r.push(dest.to_owned());
    assert(text::string_texts(r@) =~= head + tail + seq![dest@]);
    r
}

/// Why a master that ended before it was ready could not connect, with advice where it wanted to
/// ask something.
pub open spec fn connect_error(stderr: Seq<char>) -> Seq<char> {
    let msg = util::headline(stderr, "connection failed"@);
    if text::contains_text(msg, "Permission denied"@) || text::contains_text(
        msg,
        "Interactive authentication"@,
    ) {
        msg
            + " — needs non-interactive auth: add your key to ssh-agent, or enable ControlMaster in ~/.ssh/config so I can share your session"@
    } else {
        msg
    }
}

fn connect_error_of(stderr: &str) -> (r: String)
    ensures
        r@ == connect_error(stderr@),
{
    let mut msg = util::headline_of(stderr, "connection failed");
    let cs = text::chars_of(msg.as_str());
    if text::has_text(cs.as_slice(), "Permission denied") || text::has_text(
        cs.as_slice(),
        "Interactive authentication",
    ) {
        msg.append(
            " — needs non-interactive auth: add your key to ssh-agent, or enable ControlMaster in ~/.ssh/config so I can share your session",
        );
    }
    msg
}

/// How far the way to a master has come.
pub enum Phase {
    /// The user's own master was asked whether it lives.
    Shared(MasterRef),
    /// The own control socket is looked up.
    Socket,
    /// A master on the own socket, left by an earlier run, was asked whether it lives.
    Own(MasterRef),
    /// A new master is started on the own socket.
    Spawning(MasterRef),
    /// The new master runs under the number `child`, and is given until `deadline`.
    Waiting { own: MasterRef, child: u64, deadline: u64 },
    /// The new master was asked whether it is ready.
    Probing { own: MasterRef, child: u64, deadline: u64 },
    /// The way has come to its end.
    Over,
}

/// The model of a [`Phase`].
pub enum PhaseModel {
    Shared(MasterRefModel),
    Socket,
    Own(MasterRefModel),
    Spawning(MasterRefModel),
    Waiting { own: MasterRefModel, child: u64, deadline: u64 },
    Probing { own: MasterRefModel, child: u64, deadline: u64 },
    Over,
}

impl View for Phase {
    type V = PhaseModel;

    open spec fn view(&self) -> PhaseModel {
        match *self {
            Phase::Shared(m) => PhaseModel::Shared(m@),
            Phase::Socket => PhaseModel::Socket,
            Phase::Own(m) => PhaseModel::Own(m@),
            Phase::Spawning(m) => PhaseModel::Spawning(m@),
            Phase::Waiting { own, child, deadline } => PhaseModel::Waiting {
                own: own@,
                child,
                deadline,
            },
            Phase::Probing { own, child, deadline } => PhaseModel::Probing {
                own: own@,
                child,
                deadline,
            },
            Phase::Over => PhaseModel::Over,
        }
    }
}

/// What to do next on the way to a master.
#[derive(Debug, PartialEq)]
pub enum Step {
    /// Ask this master whether it lives: answer with [`News::Checked`].
    Check(MasterRef),
    /// Look up the own control socket, in a directory that only the user may read: answer with
    /// [`News::Socket`].
    FindSocket,
    /// Take away the stale socket file and start ssh with these arguments, without input and with
    /// its errors kept: answer with [`News::Spawned`].
    Spawn { stale: String, args: Vec<String> },
    /// See whether this process has ended, after a pause where `pause` says so: answer with
    /// [`News::Looked`].
    Look { child: u64, pause: bool },
    /// Kill this process; the connection failed for this reason.
    GiveUp { child: u64, err: String },
    /// The connection stands, or failed for this reason.
    Done(Result<Master, String>),
}

/// The model of a [`Step`].
#[verifier::ext_equal]
pub enum StepModel {
    Check(MasterRefModel),
    FindSocket,
    Spawn { stale: Seq<char>, args: Seq<Seq<char>> },
    Look { child: u64, pause: bool },
    GiveUp { child: u64, err: Seq<char> },
    Ready(LinkModel),
    Failed(Seq<char>),
}

impl View for Step {
    type V = StepModel;

    open spec fn view(&self) -> StepModel {
        match *self {
            Step::Check(m) => StepModel::Check(m@),
            Step::FindSocket => StepModel::FindSocket,
            Step::Spawn { stale, args } => StepModel::Spawn {
                stale: stale@,
                args: text::string_texts(args@),
            },
            Step::Look { child, pause } => StepModel::Look { child, pause },
            Step::GiveUp { child, err } => StepModel::GiveUp { child, err: err@ },
            Step::Done(Ok(m)) => StepModel::Ready(m@),
            Step::Done(Err(e)) => StepModel::Failed(e@),
        }
    }
}

/// What a step brought to light.
pub enum News {
    /// Whether the master lives, and the time after it was asked.
    Checked { alive: bool, now: u64 },
    /// The own control socket, or why there is none.
    Socket(Result<String, String>),
    /// The number of the process that was started and the time of it, or why none was.
    Spawned { child: Result<u64, String>, now: u64 },
    /// What the process printed, if it has ended.
    Looked(Option<String>),
}

/// How long a new master may take, in nanoseconds.
pub open spec fn patience() -> u64 {
    15_000_000_000
}

/// The time `span` after `now`, or the end of time.
pub open spec fn later(now: u64, span: u64) -> u64 {
    if now + span > u64::MAX {
        u64::MAX
    } else {
        (now + span) as u64
    }
}

/// The news that a phase waits for.
pub open spec fn awaited(phase: PhaseModel, news: News) -> bool {
    match phase {
        PhaseModel::Shared(_) => news is Checked,
        PhaseModel::Socket => news is Socket,
        PhaseModel::Own(_) => news is Checked,
        PhaseModel::Spawning(_) => news is Spawned,
        PhaseModel::Waiting { .. } => news is Looked,
        PhaseModel::Probing { .. } => news is Checked,
        PhaseModel::Over => false,
    }
}

/// The first phase and step: the user's own master is asked first, where the config has one.
pub open spec fn connect_start(dest: Seq<char>, control_path: Option<Seq<char>>) -> (
    PhaseModel,
    StepModel,
) {
    match control_path {
        Some(cp) => {
            let shared = MasterRefModel { dest, socket: cp };
            (PhaseModel::Shared(shared), StepModel::Check(shared))
        },
        None => (PhaseModel::Socket, StepModel::FindSocket),
    }
}

/// The next phase and step. A shared master that lives is taken, else a master left on the own
/// socket; else a new one is started and watched until it is ready, ends, or runs out of time.
pub open spec fn connect_next(
    dest: Seq<char>,
    extra: Seq<Seq<char>>,
    phase: PhaseModel,
    news: News,
) -> (PhaseModel, StepModel) {
    match (phase, news) {
        (PhaseModel::Shared(m), News::Checked { alive, .. }) => if alive {
            (PhaseModel::Over, StepModel::Ready(LinkModel { r: m, external: true, child: None }))
        } else {
            (PhaseModel::Socket, StepModel::FindSocket)
        },
        (PhaseModel::Socket, News::Socket(Ok(sock))) => {
            let own = MasterRefModel { dest, socket: sock@ };
            (PhaseModel::Own(own), StepModel::Check(own))
        },
        (PhaseModel::Socket, News::Socket(Err(e))) => (PhaseModel::Over, StepModel::Failed(e@)),
        (PhaseModel::Own(m), News::Checked { alive, .. }) => if alive {
            (PhaseModel::Over, StepModel::Ready(LinkModel { r: m, external: false, child: None }))
        } else {
            (
                PhaseModel::Spawning(m),
                StepModel::Spawn { stale: m.socket, args: master_args(m.socket, extra, dest) },
            )
        },
        (PhaseModel::Spawning(m), News::Spawned { child: Ok(child), now }) => (
            PhaseModel::Waiting { own: m, child, deadline: later(now, patience()) },
            StepModel::Look { child, pause: false },
        ),
        (PhaseModel::Spawning(m), News::Spawned { child: Err(e), .. }) => (
            PhaseModel::Over,
            StepModel::Failed("cannot run ssh: "@ + e@),
        ),
        (PhaseModel::Waiting { own, child, deadline }, News::Looked(Some(stderr))) => (
            PhaseModel::Over,
            StepModel::Failed(connect_error(stderr@)),
        ),
        (PhaseModel::Waiting { own, child, deadline }, News::Looked(None)) => (
            PhaseModel::Probing { own, child, deadline },
            StepModel::Check(own),
        ),
        (PhaseModel::Probing { own, child, deadline }, News::Checked { alive, now }) => if alive {
            (
                PhaseModel::Over,
                StepModel::Ready(LinkModel { r: own, external: false, child: Some(child) }),
            )
        } else if now >= deadline {
            (
                PhaseModel::Over,
                StepModel::GiveUp { child, err: "timed out establishing connection"@ },
            )
        } else {
            (
                PhaseModel::Waiting { own, child, deadline },
                StepModel::Look { child, pause: true },
            )
        },
        _ => (phase, StepModel::FindSocket),
    }
}

/// The way to a master for one destination.
pub struct Connect {
    pub dest: String,
    pub extra: Vec<String>,
    pub phase: Phase,
}

impl Connect {
    /// The next step, after what the last one brought to light.
    pub fn next(&mut self, news: News) -> (r: Step)
        requires
            awaited(old(self).phase@, news),
        ensures
            final(self).dest@ == old(self).dest@,
            text::string_texts(final(self).extra@) == text::string_texts(old(self).extra@),
            (final(self).phase@, r@) == connect_next(
                old(self).dest@,
                text::string_texts(old(self).extra@),
                old(self).phase@,
                news,
            ),
    {
        let mut phase = Phase::Over;
        std::mem::swap(&mut phase, &mut self.phase);
        match (phase, news) {
            (Phase::Shared(m), News::Checked { alive, .. }) => if alive {
                Step::Done(Ok(Master { r: m, external: true, child: None }))
            } else {
                self.phase = Phase::Socket;
                Step::FindSocket
            },
            (Phase::Socket, News::Socket(Ok(sock))) => {
                let own = MasterRef { dest: self.dest.clone(), socket: sock };
                self.phase = Phase::Own(own.clone());
                Step::Check(own)
            },
            (Phase::Socket, News::Socket(Err(e))) => Step::Done(Err(e)),
            (Phase::Own(m), News::Checked { alive, .. }) => if alive {
                Step::Done(Ok(Master { r: m, external: false, child: None }))
            } else {
                let args = master_args_of(m.socket.as_str(), &self.extra, self.dest.as_str());
                let stale = m.socket.clone();
                self.phase = Phase::Spawning(m);
                Step::Spawn { stale, args }
            },
            (Phase::Spawning(m), News::Spawned { child: Ok(child), now }) => {
                let deadline: u64 = if now > u64::MAX - 15_000_000_000 {
                    u64::MAX
                } else {
                    now + 15_000_000_000
                };
                self.phase = Phase::Waiting { own: m, child, deadline };
                Step::Look { child, pause: false }
            },
            (Phase::Spawning(_), News::Spawned { child: Err(e), .. }) => {
                let mut err = "cannot run ssh: ".to_owned();
                err.append(e.as_str());
                Step::Done(Err(err))
            },
            (Phase::Waiting { .. }, News::Looked(Some(stderr))) => Step::Done(
                Err(connect_error_of(stderr.as_str())),
            ),
            (Phase::Waiting { own, child, deadline }, News::Looked(None)) => {
                self.phase = Phase::Probing { own: own.clone(), child, deadline };
                Step::Check(own)
            },
            (Phase::Probing { own, child, deadline }, News::Checked { alive, now }) => if alive {
                Step::Done(Ok(Master { r: own, external: false, child: Some(child) }))
            } else if now >= deadline {
                Step::GiveUp { child, err: "timed out establishing connection".to_owned() }
            } else {
                self.phase = Phase::Waiting { own, child, deadline };
                Step::Look { child, pause: true }
            },
            _ => {
                assert(false);
                Step::FindSocket
            },
        }
    }
}

/// What it takes to end a master.
#[derive(Debug, PartialEq)]
pub struct Shutdown {
    /// The command that asks it to end.
    pub command: Invocation,
    /// The process to kill after that.
    pub kill: Option<u64>,
    /// The socket file to take away last.
    pub socket: String,
}

/// The model of a [`Shutdown`].
#[verifier::ext_equal]
pub struct ShutdownModel {
    pub command: util::InvocationModel,
    pub kill: Option<u64>,
    pub socket: Seq<char>,
}

impl View for Shutdown {
    type V = ShutdownModel;

    open spec fn view(&self) -> ShutdownModel {
        ShutdownModel { command: self.command@, kill: self.kill, socket: self.socket@ }
    }
}

impl Master {
    /// Sets out to establish (or adopt) a master for this destination. `control_path` is the user's
    /// ControlPath as `ssh -G` resolved it, if any.
    pub fn connect(dest: &str, extra: &Vec<String>, control_path: &Option<String>) -> (r: (
        Connect,
        Step,
    ))
        ensures
            r.0.dest@ == dest@,
            text::string_texts(r.0.extra@) == text::string_texts(extra@),
            (r.0.phase@, r.1@) == connect_start(dest@, types::opt_text(*control_path)),
    {
        let extra = text::copy_strings(extra);
        match control_path {
            Some(cp) => {
                let shared = MasterRef { dest: dest.to_owned(), socket: cp.clone() };
                let phase = Phase::Shared(shared.clone());
                (Connect { dest: dest.to_owned(), extra, phase }, Step::Check(shared))
            },
            None => (
                Connect { dest: dest.to_owned(), extra, phase: Phase::Socket },
                Step::FindSocket,
            ),
        }
    }

    /// The command that asks whether the master lives; [`check_result`] reads its answer.
    pub fn alive(&self) -> (r: Invocation)
        ensures
            r@ == self@.r.check(),
    {
        self.r.check()
    }

    /// What it takes to end the master: nothing where it is the user's.
    pub fn close(&self) -> (r: Option<Shutdown>)
        ensures
            self.external ==> r is None,
            !self.external ==> r is Some && r->0@ == self@.shutdown(),
    {
        if self.external {
            None
        } else {
            let more: Vec<String> = vec!["-O".to_owned(), "exit".to_owned(), self.r.dest.clone()];
            assert(text::string_texts(more@) =~= seq!["-O"@, "exit"@, self.r.dest@]);
            let command = self.r.command(more, None, 5);
            Some(Shutdown { command, kill: self.child, socket: self.r.socket.clone() })
        }
    }
}

} // verus!
