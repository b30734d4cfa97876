//! Agentless scanning for remote listeners.
//!
//! A POSIX shell script runs in `sh` on the remote, and what it prints is parsed here, whichever
//! tool was available there: `ss`, then `netstat`, then raw /proc/net/tcp and /proc/net/tcp6 with a
//! map from inodes to processes.
use vstd::prelude::*;
use crate::addr;
use crate::maps;
use crate::maps::{MapKey, SortedMap};
use crate::text;
use crate::types;

verus! {

/// Fed to `sh` on the remote through standard input.
pub const SCAN_SCRIPT: &'static str = r#"LANG=C; export LANG
if command -v ss >/dev/null 2>&1; then
echo "@@FMT ss"
ss -tlnp 2>/dev/null || ss -tln 2>/dev/null
elif command -v netstat >/dev/null 2>&1; then
echo "@@FMT netstat"
netstat -tlnp 2>/dev/null || netstat -tln 2>/dev/null
else
echo "@@FMT proc"
cat /proc/net/tcp /proc/net/tcp6 2>/dev/null
echo "@@MAP"
for d in /proc/[0-9]*; do
c=`cat "$d/comm" 2>/dev/null` || continue
for f in "$d"/fd/*; do
s=`readlink "$f" 2>/dev/null` || continue
case "$s" in "socket:["*) i=${s#socket:[}; echo "${i%]} ${d#/proc/} $c";; esac
done
done
fi
"#;

/// The text of the scan script.
pub open spec fn scan_script() -> Seq<char> {
    SCAN_SCRIPT@
}

/// The scan script as a string.
pub fn script() -> (r: String)
    ensures
        r@ == scan_script(),
{
    SCAN_SCRIPT.to_owned()
}

/// A TCP listener found on the remote host.
#[derive(Debug, PartialEq, Default)]
pub struct RemoteApp {
    pub port: u16,
    /// Normalized bind address: "lo" (loopback), "*" (all), or literal.
    pub addr: String,
    pub process: Option<String>,
    pub pid: Option<u32>,
    /// Full command line, where it is known.
    pub cmdline: Option<String>,
}

/// The model of a [`RemoteApp`].
#[verifier::ext_equal]
pub struct RemoteModel {
    pub port: u16,
    pub addr: Seq<char>,
    pub process: Option<Seq<char>>,
    pub pid: Option<u32>,
    pub cmdline: Option<Seq<char>>,
}

impl View for RemoteApp {
    type V = RemoteModel;

    open spec fn view(&self) -> RemoteModel {
        RemoteModel {
            port: self.port,
            addr: self.addr@,
            process: types::opt_text(self.process),
            pid: self.pid,
            cmdline: types::opt_text(self.cmdline),
        }
    }
}

impl Clone for RemoteApp {
    fn clone(&self) -> (r: RemoteApp)
        ensures
            r@ == self@,
    {
        RemoteApp {
            port: self.port,
            addr: self.addr.clone(),
            process: types::copy_opt(&self.process),
            pid: self.pid,
            cmdline: types::copy_opt(&self.cmdline),
        }
    }
}

/// The models of listeners.
pub open spec fn models(apps: Seq<RemoteApp>) -> Seq<RemoteModel> {
    Seq::new(apps.len(), |i: int| apps[i]@)
}

/// The decimal digits at the start of a text.
pub open spec fn digit_run(s: Seq<char>) -> Seq<char>
    decreases s.len(),
{
    if s.len() > 0 && text::digit_value(s[0]) < 10 {
        seq![s[0]] + digit_run(s.drop_first())
    } else {
        Seq::empty()
    }
}

/// The process name and number in `users:(("name",pid=1,fd=2))`.
pub open spec fn ss_process(line: Seq<char>) -> (Option<Seq<char>>, Option<u32>) {
    match text::find_text(line, "((\""@) {
        None => (None, None),
        Some(i) => {
            let rest = line.skip(i + 3);
            let pid = match text::find_text(rest, "pid="@) {
                None => None,
                Some(j) => match text::parse_uint(digit_run(rest.skip(j + 4)), 10, 0xffff_ffff) {
                    None => None,
                    Some(n) => Some(n as u32),
                },
            };
            (Some(text::until(rest, '"')), pid)
        },
    }
}

/// `LISTEN 0 511 127.0.0.1:3000 0.0.0.0:* users:(("node",pid=1234,fd=23))`
pub open spec fn ss_line(line: Seq<char>) -> Option<RemoteModel> {
    let w = text::words(line);
    if w.len() < 5 || w[0] != "LISTEN"@ {
        None
    } else {
        match addr::addr_port(w[3]) {
            None => None,
            Some((a, port)) => {
                let (process, pid) = ss_process(line);
                Some(RemoteModel { port, addr: a, process, pid, cmdline: None })
            },
        }
    }
}

/// The first of the words that holds the character `c`.
pub open spec fn first_with(w: Seq<Seq<char>>, c: char) -> Option<Seq<char>>
    decreases w.len(),
{
    if w.len() == 0 {
        None
    } else {
        match first_with(w.drop_last(), c) {
            Some(f) => Some(f),
            None => if w.last().contains(c) {
                Some(w.last())
            } else {
                None
            },
        }
    }
}

/// The process name and number in `1234/node`.
pub open spec fn netstat_process(w: Seq<Seq<char>>) -> (Option<Seq<char>>, Option<u32>) {
    match first_with(w, '/') {
        None => (None, None),
        Some(f) => match text::split_once(f, '/') {
            None => (None, None),
            Some((p, name)) => match text::parse_uint(p, 10, 0xffff_ffff) {
                None => (None, None),
                Some(n) => (Some(name), Some(n as u32)),
            },
        },
    }
}

/// `tcp 0 0 127.0.0.1:3000 0.0.0.0:* LISTEN 1234/node`
pub open spec fn netstat_line(line: Seq<char>) -> Option<RemoteModel> {
    let w = text::words(line);
    if w.len() < 6 || !text::starts_with(w[0], "tcp"@) || !w.contains("LISTEN"@) {
        None
    } else {
        match addr::addr_port(w[3]) {
            None => None,
            Some((a, port)) => {
                let (process, pid) = netstat_process(w);
                Some(RemoteModel { port, addr: a, process, pid, cmdline: None })
            },
        }
    }
}

/// A socket in LISTEN state (`st` is `0A`) in the kernel's table.
#[verifier::ext_equal]
pub struct RowModel {
    pub port: u16,
    pub addr: Seq<char>,
    pub inode: u64,
}

/// `0: 0100007F:0BB8 00000000:0000 0A ... uid timeout inode ...`
pub open spec fn proc_line(line: Seq<char>) -> Option<RowModel> {
    let w = text::words(line);
    if w.len() < 10 || !text::ends_with(w[0], ":"@) || w[3] != "0A"@ {
        None
    } else {
        match (addr::kernel_addr_port(w[1]), text::parse_uint(w[9], 10, 0xffff_ffff_ffff_ffff)) {
            (Some((a, port)), Some(n)) => Some(RowModel { port, addr: a, inode: n as u64 }),
            _ => None,
        }
    }
}

/// The inode, the process number and the process name of an entry of the inode map.
pub open spec fn map_entry(a: Seq<char>, b: Seq<char>, c: Seq<char>) -> Option<
    (u64, u32, Seq<char>),
> {
    match (text::parse_uint(a, 10, 0xffff_ffff_ffff_ffff), text::parse_uint(b, 10, 0xffff_ffff)) {
        (Some(ino), Some(pid)) => Some((ino as u64, pid as u32, text::trim(c))),
        _ => None,
    }
}

/// A line of the inode map: two numbers and a name that may be missing, with single spaces between.
pub open spec fn map_line(line: Seq<char>) -> Option<(u64, u32, Seq<char>)> {
    match text::split_once(line, ' ') {
        None => None,
        Some((a, rest)) => match text::split_once(rest, ' ') {
            Some((b, c)) => map_entry(a, b, c),
            None => map_entry(a, rest, Seq::empty()),
        },
    }
}

/// What has been read of a scan: the format, whether the inode map has begun, and what was found.
#[verifier::ext_equal]
pub struct ScanModel {
    pub fmt: Seq<char>,
    pub in_map: bool,
    pub listeners: Seq<RemoteModel>,
    pub rows: Seq<RowModel>,
    pub inodes: Map<u64, (u32, Seq<char>)>,
}

impl ScanModel {
    /// Nothing read yet.
    pub open spec fn start() -> ScanModel {
        ScanModel {
            fmt: Seq::empty(),
            in_map: false,
            listeners: Seq::empty(),
            rows: Seq::empty(),
            inodes: Map::empty(),
        }
    }

    /// With a listener added, if there is one.
    pub open spec fn heard(self, app: Option<RemoteModel>) -> ScanModel {
        match app {
            Some(a) => ScanModel { listeners: self.listeners.push(a), ..self },
            None => self,
        }
    }

    /// With one more line read. A line `@@FMT name` sets the format, `@@MAP` begins the inode map
    /// (of two lines for one inode the first counts), and every other line is read as the format
    /// says.
    pub open spec fn read(self, raw: Seq<char>) -> ScanModel {
        let line = text::trim(raw);
        if line.len() == 0 {
            self
        } else if text::starts_with(line, "@@FMT "@) {
            ScanModel { fmt: text::trim(line.skip(6)), ..self }
        } else if line == "@@MAP"@ {
            ScanModel { in_map: true, ..self }
        } else if self.in_map {
            match map_line(line) {
                Some((ino, pid, comm)) => if self.inodes.contains_key(ino) {
                    self
                } else {
                    ScanModel { inodes: self.inodes.insert(ino, (pid, comm)), ..self }
                },
                None => self,
            }
        } else if self.fmt == "ss"@ {
            self.heard(ss_line(line))
        } else if self.fmt == "netstat"@ {
            self.heard(netstat_line(line))
        } else if self.fmt == "proc"@ {
            match proc_line(line) {
                Some(row) => ScanModel { rows: self.rows.push(row), ..self },
                None => self,
            }
        } else {
            self
        }
    }

    /// With all the lines read.
    pub open spec fn read_all(self, ls: Seq<Seq<char>>) -> ScanModel
        decreases ls.len(),
    {
        if ls.len() == 0 {
            self
        } else {
            self.read_all(ls.drop_last()).read(ls.last())
        }
    }

    /// The listener of a row of the kernel's table, with the process that holds its inode.
    pub open spec fn row_app(self, row: RowModel) -> RemoteModel {
        let known = self.inodes.contains_key(row.inode);
        let (pid, comm) = self.inodes[row.inode];
        RemoteModel {
            port: row.port,
            addr: row.addr,
            process: if known && comm.len() > 0 {
                Some(comm)
            } else {
                None
            },
            pid: if known {
                Some(pid)
            } else {
                None
            },
            cmdline: None,
        }
    }

    /// All listeners that were found, those of the kernel's table last.
    pub open spec fn found(self) -> Seq<RemoteModel> {
        self.listeners + self.rows.map_values(|row: RowModel| self.row_app(row))
    }
}

/// The listeners on the port `p`.
pub open spec fn on_port(apps: Seq<RemoteModel>, p: u16) -> Seq<RemoteModel> {
    apps.filter(|a: RemoteModel| a.port == p)
}

/// The first of the listeners that carries a process name, or else the first.
pub open spec fn named_first(own: Seq<RemoteModel>) -> RemoteModel
    decreases own.len(),
{
    if own.len() <= 1 {
        own[0]
    } else {
        let o = named_first(own.drop_last());
        if o.process is None && own.last().process is Some {
            own.last()
        } else {
            o
        }
    }
}

/// The one listener that stands for those on the port `p`: its process is the first that is known,
/// and its address is "*" where one of them is bound to all addresses.
pub open spec fn merged(apps: Seq<RemoteModel>, p: u16) -> RemoteModel {
    let own = on_port(apps, p);
    RemoteModel {
        port: p,
        addr: if exists|i: int| 0 <= i < own.len() && (#[trigger] own[i]).addr == "*"@ {
            "*"@
        } else {
            own[0].addr
        },
        process: named_first(own).process,
        pid: named_first(own).pid,
        cmdline: own[0].cmdline,
    }
}

/// For each port that occurs, the listener that stands for it.
pub open spec fn by_port(apps: Seq<RemoteModel>) -> Map<u16, RemoteModel> {
    Map::new(|p: u16| on_port(apps, p).len() > 0, |p: u16| merged(apps, p))
}

/// One listener for each port that occurs, in increasing order of the ports.
pub open spec fn listing(apps: Seq<RemoteModel>) -> Seq<RemoteModel> {
    let m = by_port(apps);
    let ports = maps::ordered_keys::<u16, RemoteModel>(m);
    Seq::new(ports.len(), |i: int| m[ports[i]])
}

/// The listeners that the output of the scan script tells of.
pub open spec fn scan_listing(out: Seq<char>) -> Seq<RemoteModel> {
    listing(ScanModel::start().read_all(text::lines(out)).found())
}

/// The processes that are infrastructure, not apps.
pub open spec fn deny_procs() -> Seq<Seq<char>> {
    seq![
        "sshd"@,
        "ssh"@,
        "systemd"@,
        "systemd-resolve"@,
        "systemd-resolved"@,
        "init"@,
        "dnsmasq"@,
        "named"@,
        "rpcbind"@,
        "rpc.statd"@,
        "cupsd"@,
        "exim4"@,
        "master"@,
        "sendmail"@,
        "chronyd"@,
        "ntpd"@,
        "avahi-daemon"@,
        "NetworkManager"@,
    ]
}

/// The ports that are infrastructure.
pub open spec fn deny_ports() -> Seq<u16> {
    seq![22u16, 25, 53, 111, 631, 5355]
}

/// A system service rather than a user app; `sshd_port` is the port of the very connection that
/// is scanned over.
pub open spec fn system_service(port: u16, process: Option<Seq<char>>, sshd_port: u16) -> bool {
    ||| port == sshd_port
    ||| deny_ports().contains(port)
    ||| process is Some && deny_procs().contains(text::strip_ends(process->0, '"', '"'))
}

/// The process name and number in a line of `ss`.
fn parse_ss_process(line: &[char]) -> (r: (Option<String>, Option<u32>))
    ensures
        (types::opt_text(r.0), r.1) == ss_process(line@),
{
    proof {
        reveal_strlit("((\"");
        reveal_strlit("pid=");
    }
    match text::find_of(line, "((\"") {
        None => (None, None),
        Some(i) => {
            assert(i + 3 <= line.len());
            let rest = text::back(line, i + 3);
            let name = text::text_of(text::until_of(rest, '"'));
            let pid = match text::find_of(rest, "pid=") {
                None => None,
                Some(j) => {
                    assert(j + 4 <= rest.len());
                    match text::uint_of(digit_run_of(text::back(rest, j + 4)), 10, 0xffff_ffff) {
                        None => None,
                        Some(n) => Some(n as u32),
                    }
                },
            };
            (Some(name), pid)
        },
    }
}

/// The decimal digits at the start of a text.
fn digit_run_of(s: &[char]) -> (r: &[char])
    ensures
        r@ == digit_run(s@),
{
    let mut i: usize = 0;
    assert(s@.skip(0) =~= s@);
    assert(digit_run(s@) =~= s@.take(0) + digit_run(s@.skip(0)));
    while i < s.len() && text::digit_of(s[i]) < 10
        invariant
            i <= s@.len(),
            digit_run(s@) == s@.take(i as int) + digit_run(s@.skip(i as int)),
        decreases s@.len() - i,
    {
        assert(s@.skip(i as int).drop_first() =~= s@.skip(i + 1));
        assert(s@.take(i as int) + (seq![s@[i as int]] + digit_run(s@.skip(i + 1))) =~= s@.take(i + 1)
            + digit_run(s@.skip(i + 1)));
        i = i + 1;
    }
    assert(digit_run(s@) =~= s@.take(i as int));
    text::front(s, i)
}

/// Parses a line of `ss`.
pub fn parse_ss_line(line: &[char]) -> (r: Option<RemoteApp>)
    ensures
        r is Some <==> ss_line(line@) is Some,
        r matches Some(a) ==> ss_line(line@) == Some(a@),
{
    let w = text::words_of(line);
    let ghost ws = text::words(line@);
    assert(text::texts(w@) == ws);
    if w.len() < 5 {
        return None;
    }
    assert(ws[0] == w@[0]@ && ws[3] == w@[3]@);
    if !text::is_text(w[0].as_slice(), "LISTEN") {
        return None;
    }
    match addr::split_addr_port(w[3].as_slice()) {
        None => None,
        Some((a, port)) => {
            let (process, pid) = parse_ss_process(line);
            Some(RemoteApp { port, addr: a, process, pid, cmdline: None })
        },
    }
}


/// Whether one of the words is `lit`.
fn has_word(w: &Vec<Vec<char>>, lit: &str) -> (r: bool)
    ensures
        r == text::texts(w@).contains(lit@),
{
    for i in 0..w.len()
        invariant
            forall|j: int| 0 <= j < i ==> text::texts(w@)[j] != lit@,
    {
        if text::is_text(w[i].as_slice(), lit) {
            assert(text::texts(w@)[i as int] == lit@);
            return true;
        }
    }
    false
}

/// The process name and number in the words of a line of `netstat`.
fn netstat_process_of(w: &Vec<Vec<char>>) -> (r: (Option<String>, Option<u32>))
    ensures
        (types::opt_text(r.0), r.1) == netstat_process(text::texts(w@)),
{
    let ghost ws = text::texts(w@);
    assert(ws.take(0) =~= Seq::<Seq<char>>::empty());
    for i in 0..w.len()
        invariant
            ws == text::texts(w@),
            first_with(ws.take(i as int), '/') is None,
    {
        assert(ws.take(i + 1).drop_last() =~= ws.take(i as int));
        assert(ws.take(i + 1).last() == w@[i as int]@);
        match text::split_once_of(w[i].as_slice(), '/') {
            None => {},
            Some((p, name)) => {
                proof {
                    lemma_first_with(ws, i + 1, '/');
                }
                return match text::uint_of(p, 10, 0xffff_ffff) {
                    None => (None, None),
                    Some(n) => (Some(text::text_of(name)), Some(n as u32)),
                };
            },
        }
    }
    assert(ws.take(ws.len() as int) =~= ws);
    (None, None)
}

proof fn lemma_first_with(w: Seq<Seq<char>>, i: int, c: char)
    requires
        0 <= i <= w.len(),
        first_with(w.take(i), c) is Some,
    ensures
        first_with(w, c) == first_with(w.take(i), c),
    decreases w.len() - i,
{
    if i < w.len() {
        assert(w.take(i + 1).drop_last() =~= w.take(i));
        lemma_first_with(w, i + 1, c);
    } else {
        assert(w.take(i) =~= w);
    }
}

/// Parses a line of `netstat`.
pub fn parse_netstat_line(line: &[char]) -> (r: Option<RemoteApp>)
    ensures
        r is Some <==> netstat_line(line@) is Some,
        r matches Some(a) ==> netstat_line(line@) == Some(a@),
{
    let w = text::words_of(line);
    let ghost ws = text::words(line@);
    assert(text::texts(w@) == ws);
    if w.len() < 6 {
        return None;
    }
    assert(ws[0] == w@[0]@ && ws[3] == w@[3]@);
    if !text::begins(w[0].as_slice(), "tcp") || !has_word(&w, "LISTEN") {
        return None;
    }
    match addr::split_addr_port(w[3].as_slice()) {
        None => None,
        Some((a, port)) => {
            let (process, pid) = netstat_process_of(&w);
            Some(RemoteApp { port, addr: a, process, pid, cmdline: None })
        },
    }
}

/// A socket in LISTEN state in the kernel's table.
pub struct ProcRow {
    pub port: u16,
    pub addr: String,
    pub inode: u64,
}

impl View for ProcRow {
    type V = RowModel;

    open spec fn view(&self) -> RowModel {
        RowModel { port: self.port, addr: self.addr@, inode: self.inode }
    }
}

/// Parses a line of /proc/net/tcp or /proc/net/tcp6.
pub fn parse_proc_line(line: &[char]) -> (r: Option<ProcRow>)
    ensures
        r is Some <==> proc_line(line@) is Some,
        r matches Some(a) ==> proc_line(line@) == Some(a@),
{
    let w = text::words_of(line);
    let ghost ws = text::words(line@);
    assert(text::texts(w@) == ws);
    if w.len() < 10 {
        return None;
    }
    assert(ws[0] == w@[0]@ && ws[1] == w@[1]@ && ws[3] == w@[3]@ && ws[9] == w@[9]@);
    if !text::ends(w[0].as_slice(), ":") || !text::is_text(w[3].as_slice(), "0A") {
        return None;
    }
    match addr::decode_hex_addr(w[1].as_slice()) {
        None => None,
        Some((a, port)) => match text::uint_of(w[9].as_slice(), 10, 0xffff_ffff_ffff_ffff) {
            None => None,
            Some(inode) => Some(ProcRow { port, addr: a, inode }),
        },
    }
}

/// The numbers and the name of a line of the inode map.
fn map_fields(a: &[char], b: &[char], c: &[char]) -> (r: Option<(u64, u32, String)>)
    ensures
        r is Some <==> map_entry(a@, b@, c@) is Some,
        r matches Some((ino, pid, comm)) ==> map_entry(a@, b@, c@) == Some((ino, pid, comm@)),
{
    match text::uint_of(a, 10, 0xffff_ffff_ffff_ffff) {
        None => None,
        Some(ino) => match text::uint_of(b, 10, 0xffff_ffff) {
            None => None,
            Some(pid) => Some((ino, pid as u32, text::text_of(text::trim_of(c)))),
        },
    }
}

/// Parses a line of the inode map.
fn parse_map_line(line: &[char]) -> (r: Option<(u64, u32, String)>)
    ensures
        r is Some <==> map_line(line@) is Some,
        r matches Some((ino, pid, comm)) ==> map_line(line@) == Some((ino, pid, comm@)),
{
    match text::split_once_of(line, ' ') {
        None => None,
        Some((a, rest)) => match text::split_once_of(rest, ' ') {
            Some((b, c)) => map_fields(a, b, c),
            None => {
                let none = text::front(rest, 0);
                assert(none@ =~= Seq::<char>::empty());
                map_fields(a, rest, none)
            },
        },
    }
}

/// What has been read of a scan.
struct Scan {
    fmt: String,
    in_map: bool,
    listeners: Vec<RemoteApp>,
    rows: Vec<ProcRow>,
    inodes: SortedMap<u64, (u32, String)>,
}

spec fn row_models(rows: Seq<ProcRow>) -> Seq<RowModel> {
    Seq::new(rows.len(), |i: int| rows[i]@)
}

impl View for Scan {
    type V = ScanModel;

    closed spec fn view(&self) -> ScanModel {
        ScanModel {
            fmt: self.fmt@,
            in_map: self.in_map,
            listeners: models(self.listeners@),
            rows: row_models(self.rows@),
            inodes: self.inodes@,
        }
    }
}

impl Scan {
    fn hear(&mut self, app: Option<RemoteApp>)
        ensures
            final(self)@ == old(self)@.heard(match app {
                Some(a) => Some(a@),
                None => None,
            }),
    {
        match app {
            Some(a) => {
                let ghost m = a@;
                self.listeners.push(a);
                assert(models(self.listeners@) =~= old(self)@.listeners.push(m));
            },
            None => {},
        }
    }

    fn read(&mut self, raw: &[char])
        ensures
            final(self)@ == old(self)@.read(raw@),
    {
        proof {
            reveal_strlit("@@FMT ");
        }
        let line = text::trim_of(raw);
        if line.len() == 0 {
            return;
        }
        match text::strip_of(line, "@@FMT ") {
            Some(f) => {
                self.fmt = text::text_of(text::trim_of(f));
                return;
            },
            None => {},
        }
        if text::is_text(line, "@@MAP") {
            self.in_map = true;
            return;
        }
        if self.in_map {
            match parse_map_line(line) {
                Some((ino, pid, comm)) => {
                    if !self.inodes.contains_key(&ino) {
                        self.inodes.insert(ino, (pid, comm));
                    }
                },
                None => {},
            }
            return;
        }
        if text::same_text(self.fmt.as_str(), "ss") {
            self.hear(parse_ss_line(line));
        } else if text::same_text(self.fmt.as_str(), "netstat") {
            self.hear(parse_netstat_line(line));
        } else if text::same_text(self.fmt.as_str(), "proc") {
            match parse_proc_line(line) {
                Some(row) => {
                    let ghost m = row@;
                    self.rows.push(row);
                    assert(row_models(self.rows@) =~= old(self)@.rows.push(m));
                },
                None => {},
            }
        }
    }

    fn row_app_of(&self, row: &ProcRow) -> (r: RemoteApp)
        ensures
            r@ == self@.row_app(row@),
    {
        let (pid, process): (Option<u32>, Option<String>) = match self.inodes.get(&row.inode) {
            Some(held) => {
                if held.1.as_str().is_empty() {
                    (Some(held.0), None)
                } else {
                    (Some(held.0), Some(held.1.clone()))
                }
            },
            None => (None, None),
        };
        RemoteApp { port: row.port, addr: row.addr.clone(), process, pid, cmdline: None }
    }
}

proof fn lemma_on_port_push(apps: Seq<RemoteModel>, a: RemoteModel, p: u16)
    ensures
        on_port(apps.push(a), p) == (if a.port == p {
            on_port(apps, p).push(a)
        } else {
            on_port(apps, p)
        }),
{
    reveal(Seq::filter);
    assert(apps.push(a).drop_last() =~= apps);
}

/// What one more listener changes in the map of ports.
pub(crate) proof fn lemma_by_port_push(apps: Seq<RemoteModel>, a: RemoteModel)
    ensures
        by_port(apps.push(a)) == (if by_port(apps).contains_key(a.port) {
            let cur = by_port(apps)[a.port];
            let takes = cur.process is None && a.process is Some;
            by_port(apps).insert(
                a.port,
                RemoteModel {
                    port: cur.port,
                    addr: if a.addr == "*"@ {
                        "*"@
                    } else {
                        cur.addr
                    },
                    process: if takes {
                        a.process
                    } else {
                        cur.process
                    },
                    pid: if takes {
                        a.pid
                    } else {
                        cur.pid
                    },
                    cmdline: cur.cmdline,
                },
            )
        } else {
            by_port(apps).insert(a.port, a)
        }),
{
    let after = by_port(apps.push(a));
    let p = a.port;
    let own = on_port(apps, p);
    assert forall|q: u16| #![auto] q != p implies on_port(apps.push(a), q) == on_port(apps, q) by {
        lemma_on_port_push(apps, a, q);
    }
    lemma_on_port_push(apps, a, p);
    let own2 = own.push(a);
    assert(own2.drop_last() =~= own);
    if own.len() > 0 {
        assert(own2[0] == own[0]);
        let star = exists|i: int| 0 <= i < own.len() && (#[trigger] own[i]).addr == "*"@;
        let star2 = exists|i: int| 0 <= i < own2.len() && (#[trigger] own2[i]).addr == "*"@;
        if star {
            let i = choose|i: int| 0 <= i < own.len() && (#[trigger] own[i]).addr == "*"@;
            assert(own2[i].addr == "*"@);
        }
        if a.addr == "*"@ {
            assert(own2[own2.len() - 1].addr == "*"@);
        }
        if star2 && a.addr != "*"@ {
            let i = choose|i: int| 0 <= i < own2.len() && (#[trigger] own2[i]).addr == "*"@;
            assert(own[i].addr == "*"@);
        }
    } else {
        assert(own2[0] == a);
        if a.addr != "*"@ {
            assert forall|i: int| 0 <= i < own2.len() implies (#[trigger] own2[i]).addr != "*"@ by {}
        }
    }
    assert(after =~= if by_port(apps).contains_key(a.port) {
        by_port(apps).insert(a.port, merged(apps.push(a), p))
    } else {
        by_port(apps).insert(a.port, a)
    });
}

/// Merges the duplicates of a port (IPv4 and IPv6), preferring entries that carry a process name
/// and widening the bind address.
pub fn dedupe(apps: Vec<RemoteApp>) -> (r: Vec<RemoteApp>)
    ensures
        models(r@) == listing(models(apps@)),
{
    let ghost all = models(apps@);
    let mut ports: SortedMap<u16, RemoteApp> = SortedMap::new();
    reveal(Seq::filter);
    assert(all.take(0) =~= Seq::<RemoteModel>::empty());
    assert(by_port(all.take(0)) =~= Map::<u16, RemoteModel>::empty());
    for i in 0..apps.len()
        invariant
            all == models(apps@),
            ports@ == by_port(all.take(i as int)),
    {
        let app = &apps[i];
        proof {
            lemma_by_port_push(all.take(i as int), app@);
            assert(all.take(i + 1) =~= all.take(i as int).push(app@));
        }
        match ports.remove(&app.port) {
            None => {
                assert(ports@ =~= by_port(all.take(i as int)));
                ports.insert(app.port, app.clone());
            },
            Some(mut cur) => {
                if cur.process.is_none() && app.process.is_some() {
                    cur.process = types::copy_opt(&app.process);
                    cur.pid = app.pid;
                }
                if text::same_text(app.addr.as_str(), "*") {
                    cur.addr = "*".to_owned();
                }
                ports.insert(app.port, cur);
                assert(ports@ =~= by_port(all.take(i + 1)));
            },
        }
    }
    assert(all.take(all.len() as int) =~= all);
    let mut out: Vec<RemoteApp> = Vec::new();
    let n: usize = ports.len();
    for i in 0..n
        invariant
            ports@ == by_port(all),
            n == maps::ordered_keys::<u16, RemoteModel>(ports@).len(),
            models(out@) == listing(all).take(i as int),
    {
        let ghost before = models(out@);
        let app = ports.value_at(i).clone();
        out.push(app);
        assert(models(out@) =~= before.push(app@));
        assert(listing(all).take(i + 1) =~= listing(all).take(i as int).push(app@));
    }
    assert(listing(all).take(out@.len() as int) =~= listing(all));
    out
}

/// The listeners that the output of the scan script tells of.
pub fn parse_scan(out: &str) -> (r: Vec<RemoteApp>)
    ensures
        models(r@) == scan_listing(out@),
{
    let cs = text::chars_of(out);
    let ls = text::lines_of(cs.as_slice());
    let ghost lines = text::lines(out@);
    assert(text::texts(ls@) == lines);
    let mut scan = Scan {
        fmt: String::new(),
        in_map: false,
        listeners: Vec::new(),
        rows: Vec::new(),
        inodes: SortedMap::new(),
    };
    assert(scan@ =~= ScanModel::start());
    assert(lines.take(0) =~= Seq::<Seq<char>>::empty());
    for i in 0..ls.len()
        invariant
            text::texts(ls@) == lines,
            scan@ == ScanModel::start().read_all(lines.take(i as int)),
    {
        assert(lines.take(i + 1).drop_last() =~= lines.take(i as int));
        assert(lines.take(i + 1).last() == ls@[i as int]@);
        scan.read(ls[i].as_slice());
    }
    assert(lines.take(lines.len() as int) =~= lines);
    let mut found: Vec<RemoteApp> = Vec::new();
    for i in 0..scan.listeners.len()
        invariant
            models(found@) == scan@.listeners.take(i as int),
            scan@.listeners == models(scan.listeners@),
    {
        let ghost before = models(found@);
        let app = scan.listeners[i].clone();
        found.push(app);
        assert(models(found@) =~= before.push(app@));
        assert(scan@.listeners.take(i + 1) =~= scan@.listeners.take(i as int).push(app@));
    }
    assert(models(found@) =~= scan@.listeners);
    let ghost tail = scan@.rows.map_values(|row: RowModel| scan@.row_app(row));
    assert(scan@.listeners + tail.take(0) =~= scan@.listeners);
    for i in 0..scan.rows.len()
        invariant
            scan@.rows == row_models(scan.rows@),
            tail == scan@.rows.map_values(|row: RowModel| scan@.row_app(row)),
            models(found@) == scan@.listeners + tail.take(i as int),
    {
        let ghost before = models(found@);
        let app = scan.row_app_of(&scan.rows[i]);
        found.push(app);
        assert(scan@.rows[i as int] == scan.rows@[i as int]@);
        assert(models(found@) =~= before.push(app@));
        assert(scan@.listeners + tail.take(i + 1) =~= (scan@.listeners + tail.take(i as int)).push(app@));
    }
    assert(tail.take(tail.len() as int) =~= tail);
    dedupe(found)
}

/// Whether a process name is infrastructure.
fn denied_proc(name: &[char]) -> (r: bool)
    ensures
        r == deny_procs().contains(name@),
{
    let list: Vec<&str> = vec![
        "sshd", "ssh", "systemd", "systemd-resolve", "systemd-resolved", "init", "dnsmasq", "named",
        "rpcbind", "rpc.statd", "cupsd", "exim4", "master", "sendmail", "chronyd", "ntpd",
        "avahi-daemon", "NetworkManager",
    ];
    let ghost all = deny_procs();
    assert(list@.len() == all.len());
    assert forall|i: int| 0 <= i < list@.len() implies (#[trigger] list@[i])@ == all[i] by {}
    for i in 0..list.len()
        invariant
            all == deny_procs(),
            list@.len() == all.len(),
            forall|j: int| 0 <= j < list@.len() ==> (#[trigger] list@[j])@ == all[j],
            forall|j: int| 0 <= j < i ==> all[j] != name@,
    {
        if text::is_text(name, list[i]) {
            assert(all[i as int] == name@);
            return true;
        }
    }
    false
}

/// Heuristic: is this a system service rather than a user app? `sshd_port` is the port of the very
/// connection that is scanned over.
pub fn is_system(app: &RemoteApp, sshd_port: u16) -> (r: bool)
    ensures
        r == system_service(app.port, types::opt_text(app.process), sshd_port),
{
    let p: u16 = app.port;
    let denied = p == 22 || p == 25 || p == 53 || p == 111 || p == 631 || p == 5355;
    proof {
        let d = deny_ports();
        assert(d[0] == 22 && d[1] == 25 && d[2] == 53 && d[3] == 111 && d[4] == 631 && d[5] == 5355);
        assert(denied == d.contains(p));
    }
    if p == sshd_port || denied {
        return true;
    }
    match &app.process {
        Some(name) => {
            let cs = text::chars_of(name.as_str());
            denied_proc(text::strip_ends_of(cs.as_slice(), '"', '"'))
        },
        None => false,
    }
}

} // verus!
