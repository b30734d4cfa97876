//! The active `ssh` client processes of the local machine, and the identity of their destinations
//! as `ssh -G` resolves it.
use vstd::prelude::*;
use crate::maps;
use crate::maps::{MapKey, SortedMap};
use crate::text;
use crate::types;
use crate::util;
use crate::util::{Invocation, Output};

verus! {

/// An active interactive ssh connection found in the local process table.
#[derive(Debug, PartialEq, Eq, Hash)]
pub struct LocalConn {
    pub pid: u32,
    /// Destination as typed: alias, host, user@host or ssh:// URL.
    pub dest: String,
    /// Carried-through ssh options that affect identity and authentication (-p, -l, -F, -i, -J),
    /// so that other ssh invocations match.
    pub extra: Vec<String>,
    /// Raw `-L` forward specs that this session was started with.
    pub lforwards: Vec<String>,
}

/// The model of a [`LocalConn`].
#[verifier::ext_equal]
pub struct ConnModel {
    pub pid: u32,
    pub dest: Seq<char>,
    pub extra: Seq<Seq<char>>,
    pub lforwards: Seq<Seq<char>>,
}

impl View for LocalConn {
    type V = ConnModel;

    open spec fn view(&self) -> ConnModel {
        ConnModel {
            pid: self.pid,
            dest: self.dest@,
            extra: text::string_texts(self.extra@),
            lforwards: text::string_texts(self.lforwards@),
        }
    }
}

impl Clone for LocalConn {
    fn clone(&self) -> (r: LocalConn)
        ensures
            r@ == self@,
    {
        LocalConn {
            pid: self.pid,
            dest: self.dest.clone(),
            extra: text::copy_strings(&self.extra),
            lforwards: text::copy_strings(&self.lforwards),
        }
    }
}

/// Canonical identity resolved through `ssh -G` (applies the user's config).
#[derive(Debug, PartialEq)]
pub struct Resolved {
    pub user: String,
    pub hostname: String,
    pub port: u16,
    /// Config LocalForwards that target the server itself (loopback): (local port, remote port).
    pub lforwards: Vec<(u16, u16)>,
    /// The resolved ControlPath from the user's config, if usable: it lets the user's
    /// ControlMaster be shared.
    pub control_path: Option<String>,
}

/// The model of a [`Resolved`].
#[verifier::ext_equal]
pub struct ResolvedModel {
    pub user: Seq<char>,
    pub hostname: Seq<char>,
    pub port: u16,
    pub lforwards: Seq<(u16, u16)>,
    pub control_path: Option<Seq<char>>,
}

impl View for Resolved {
    type V = ResolvedModel;

    open spec fn view(&self) -> ResolvedModel {
        ResolvedModel {
            user: self.user@,
            hostname: self.hostname@,
            port: self.port,
            lforwards: self.lforwards@,
            control_path: types::opt_text(self.control_path),
        }
    }
}

impl Clone for Resolved {
    fn clone(&self) -> (r: Resolved)
        ensures
            r@ == self@,
    {
        let mut lforwards: Vec<(u16, u16)> = Vec::new();
        for i in 0..self.lforwards.len()
            invariant
                lforwards@ == self.lforwards@.take(i as int),
        {
            lforwards.push(self.lforwards[i]);
            assert(self.lforwards@.take(i + 1) =~= lforwards@);
        }
        assert(lforwards@ =~= self.lforwards@);
        Resolved {
            user: self.user.clone(),
            hostname: self.hostname.clone(),
            port: self.port,
            lforwards,
            control_path: types::copy_opt(&self.control_path),
        }
    }
}

/// The ssh single-letter options that consume a value.
pub open spec fn arg_opt(c: char) -> bool {
    "bBcDEeFIiJLlmOopQRSWw"@.contains(c)
}

/// The options that are replicated on other ssh invocations.
pub open spec fn carry_opt(c: char) -> bool {
    "FpliJ"@.contains(c)
}

/// What a group of single-letter options asks for.
pub enum FlagsModel {
    /// Mux control (-O) or stdio forwarding (-W): not a user session worth tracking.
    Refused,
    /// No option with a value.
    Plain,
    /// An option with a value, and the rest of the word, which holds the value unless it is empty.
    Takes(char, Seq<char>),
}

/// Reads the letters after the dash.
pub open spec fn flags(f: Seq<char>) -> FlagsModel
    decreases f.len(),
{
    if f.len() == 0 {
        FlagsModel::Plain
    } else if f[0] == 'O' || f[0] == 'W' {
        FlagsModel::Refused
    } else if arg_opt(f[0]) {
        FlagsModel::Takes(f[0], f.skip(1))
    } else {
        flags(f.skip(1))
    }
}

/// What has been read of an ssh command line.
#[verifier::ext_equal]
pub struct ArgsModel {
    pub extra: Seq<Seq<char>>,
    pub lforwards: Seq<Seq<char>>,
}

impl ArgsModel {
    /// With the option `c` and its value read.
    pub open spec fn with(self, c: char, val: Seq<char>) -> ArgsModel {
        if carry_opt(c) {
            ArgsModel { extra: self.extra.push(seq!['-', c]).push(val), lforwards: self.lforwards }
        } else if c == 'L' {
            ArgsModel { extra: self.extra, lforwards: self.lforwards.push(val) }
        } else {
            self
        }
    }
}

/// The destination at the end of a command line and the options before it. A remote command behind
/// the destination means a one-off session, which is no connection; nor is one without destination.
pub open spec fn ssh_args(args: Seq<Seq<char>>, seen: ArgsModel) -> Option<(Seq<char>, ArgsModel)>
    decreases args.len(),
{
    if args.len() == 0 {
        None
    } else if args[0] == "--"@ {
        if args.len() == 2 {
            Some((args[1], seen))
        } else {
            None
        }
    } else if args[0].len() > 0 && args[0][0] == '-' {
        if args[0].len() == 1 {
            None
        } else {
            match flags(args[0].skip(1)) {
                FlagsModel::Refused => None,
                FlagsModel::Plain => ssh_args(args.skip(1), seen),
                FlagsModel::Takes(c, rest) => if rest.len() > 0 {
                    ssh_args(args.skip(1), seen.with(c, rest))
                } else if args.len() == 1 {
                    None
                } else {
                    ssh_args(args.skip(2), seen.with(c, args[1]))
                },
            }
        }
    } else if args.len() == 1 {
        Some((args[0], seen))
    } else {
        None
    }
}

/// What stands before and after the first white space.
pub open spec fn split_white(s: Seq<char>) -> Option<(Seq<char>, Seq<char>)>
    decreases s.len(),
{
    if s.len() == 0 {
        None
    } else if text::is_white(s[0]) {
        Some((Seq::empty(), s.skip(1)))
    } else {
        match split_white(s.drop_first()) {
            None => None,
            Some((a, b)) => Some((seq![s[0]] + a, b)),
        }
    }
}

/// The last component of a path.
pub open spec fn base_name(s: Seq<char>) -> Seq<char> {
    match text::rsplit_once(s, '/') {
        None => s,
        Some((_, b)) => b,
    }
}

/// A line of the process table, `pid args`, that is a plain ssh client (not sshd, ssh-agent, sftp,
/// scp) and none of the program's own helper processes.
pub open spec fn ps_line(line: Seq<char>) -> Option<ConnModel> {
    match split_white(text::trim_start(line)) {
        None => None,
        Some((pid_s, rest)) => match text::parse_uint(pid_s, 10, 0xffff_ffff) {
            None => None,
            Some(pid) => {
                let args = text::words(rest);
                if args.len() == 0 || base_name(args[0]) != "ssh"@ || text::contains_text(
                    rest,
                    "ssh-autoport"@,
                ) {
                    None
                } else {
                    match ssh_args(
                        args.skip(1),
                        ArgsModel { extra: Seq::empty(), lforwards: Seq::empty() },
                    ) {
                        None => None,
                        Some((dest, seen)) => Some(
                            ConnModel {
                                pid: pid as u32,
                                dest,
                                extra: seen.extra,
                                lforwards: seen.lforwards,
                            },
                        ),
                    }
                }
            },
        },
    }
}

/// Whether an option consumes a value.
fn takes_value(c: char) -> (r: bool)
    ensures
        r == arg_opt(c),
{
    let cs = text::chars_of("bBcDEeFIiJLlmOopQRSWw");
    text::first_of(cs.as_slice(), c).is_some()
}

/// Whether an option is replicated.
fn is_carried(c: char) -> (r: bool)
    ensures
        r == carry_opt(c),
{
    let cs = text::chars_of("FpliJ");
    text::first_of(cs.as_slice(), c).is_some()
}

/// What a group of single-letter options asks for.
enum Flags<'a> {
    Refused,
    Plain,
    Takes(char, &'a [char]),
}

impl<'a> View for Flags<'a> {
    type V = FlagsModel;

    closed spec fn view(&self) -> FlagsModel {
        match *self {
            Flags::Refused => FlagsModel::Refused,
            Flags::Plain => FlagsModel::Plain,
            Flags::Takes(c, rest) => FlagsModel::Takes(c, rest@),
        }
    }
}

fn flags_of(f: &[char]) -> (r: Flags<'_>)
    ensures
        r@ == flags(f@),
{
    let n: usize = f.len();
    assert(f@.skip(0) =~= f@);
    for j in 0..n
        invariant
            n == f@.len(),
            flags(f@) == flags(f@.skip(j as int)),
    {
        let c: char = f[j];
        assert(f@.skip(j as int)[0] == c);
        assert(f@.skip(j as int).skip(1) =~= f@.skip(j + 1));
        if c == 'O' || c == 'W' {
            return Flags::Refused;
        }
        if takes_value(c) {
            return Flags::Takes(c, text::back(f, j + 1));
        }
    }
    Flags::Plain
}

/// Parses the arguments of an ssh command line.
pub fn parse_ssh_args(args: &[Vec<char>], pid: u32) -> (r: Option<LocalConn>)
    ensures
        match ssh_args(
            text::texts(args@),
            ArgsModel { extra: Seq::empty(), lforwards: Seq::empty() },
        ) {
            None => r is None,
            Some((dest, seen)) => r is Some && r->0@ == (ConnModel {
                pid,
                dest,
                extra: seen.extra,
                lforwards: seen.lforwards,
            }),
        },
{
    let ghost all = text::texts(args@);
    let ghost none = ArgsModel { extra: Seq::empty(), lforwards: Seq::empty() };
    let mut extra: Vec<String> = Vec::new();
    let mut lforwards: Vec<String> = Vec::new();
    let mut i: usize = 0;
    let n: usize = args.len();
    assert(all.skip(0) =~= all);
    assert(text::string_texts(extra@) =~= Seq::<Seq<char>>::empty());
    assert(text::string_texts(lforwards@) =~= Seq::<Seq<char>>::empty());
    while i < n
        invariant
            i <= n,
            n == args@.len(),
            all == text::texts(args@),
            none == (ArgsModel { extra: Seq::empty(), lforwards: Seq::empty() }),
            ssh_args(all, none) == ssh_args(
                all.skip(i as int),
                ArgsModel {
                    extra: text::string_texts(extra@),
                    lforwards: text::string_texts(lforwards@),
                },
            ),
        decreases n - i,
    {
        let ghost seen = ArgsModel {
            extra: text::string_texts(extra@),
            lforwards: text::string_texts(lforwards@),
        };
        let ghost left = all.skip(i as int);
        let a = args[i].as_slice();
        assert(left[0] == a@);
        assert(left.skip(1) =~= all.skip(i + 1));
        if text::is_text(a, "--") {
            if n - i == 2 {
                assert(left[1] == args@[i + 1]@);
                return Some(LocalConn { pid, dest: text::text_of(args[i + 1].as_slice()), extra, lforwards });
            }
            return None;
        }
        if a.len() > 0 && a[0] == '-' {
            if a.len() == 1 {
                return None;
            }
            match flags_of(text::back(a, 1)) {
                Flags::Refused => {
                    return None;
                },
                Flags::Plain => {
                    i = i + 1;
                },
                Flags::Takes(c, rest) => {
                    let val: String;
                    if rest.len() > 0 {
                        val = text::text_of(rest);
                        i = i + 1;
                    } else {
                        if n - i == 1 {
                            return None;
                        }
                        assert(left[1] == args@[i + 1]@);
                        val = text::text_of(args[i + 1].as_slice());
                        assert(left.skip(2) =~= all.skip(i + 2));
                        i = i + 2;
                    }
                    let ghost v = val@;
                    if is_carried(c) {
                        let mut opt = String::new();
                        opt.push('-');
                        opt.push(c);
                        assert(opt@ =~= seq!['-', c]);
                        let ghost o = opt@;
                        extra.push(opt);
                        extra.push(val);
                        assert(text::string_texts(extra@) =~= seen.extra.push(o).push(v));
                    } else if c == 'L' {
                        lforwards.push(val);
                        assert(text::string_texts(lforwards@) =~= seen.lforwards.push(v));
                    }
                    assert(seen.with(c, v) =~= ArgsModel {
                        extra: text::string_texts(extra@),
                        lforwards: text::string_texts(lforwards@),
                    });
                },
            }
        } else {
            if n - i == 1 {
                return Some(LocalConn { pid, dest: text::text_of(a), extra, lforwards });
            }
            return None;
        }
    }
    None
}


/// What stands before and after the first white space.
fn split_white_of(s: &[char]) -> (r: Option<(&[char], &[char])>)
    ensures
        r is Some <==> split_white(s@) is Some,
        r matches Some((a, b)) ==> split_white(s@) == Some((a@, b@)),
{
    let n: usize = s.len();
    for i in 0..n
        invariant
            n == s@.len(),
            forall|j: int| 0 <= j < i ==> !text::is_white(#[trigger] s@[j]),
    {
        if text::white(s[i]) {
            proof {
                lemma_split_white(s@, i as int);
            }
            return Some((text::front(s, i), text::back(s, i + 1)));
        }
    }
    proof {
        lemma_no_white(s@);
    }
    None
}

pub(crate) proof fn lemma_split_white(s: Seq<char>, i: int)
    requires
        0 <= i < s.len(),
        text::is_white(s[i]),
        forall|j: int| 0 <= j < i ==> !text::is_white(#[trigger] s[j]),
    ensures
        split_white(s) == Some((s.take(i), s.skip(i + 1))),
    decreases i,
{
    if i == 0 {
        assert(s.take(0) =~= Seq::<char>::empty());
    } else {
        let t = s.drop_first();
        assert(t[i - 1] == s[i]);
        assert forall|j: int| 0 <= j < i - 1 implies !text::is_white(#[trigger] t[j]) by {
            assert(t[j] == s[j + 1]);
        }
        lemma_split_white(t, i - 1);
        assert(seq![s[0]] + t.take(i - 1) =~= s.take(i));
        assert(t.skip(i) =~= s.skip(i + 1));
    }
}

pub(crate) proof fn lemma_no_white(s: Seq<char>)
    requires
        forall|j: int| 0 <= j < s.len() ==> !text::is_white(#[trigger] s[j]),
    ensures
        split_white(s) is None,
    decreases s.len(),
{
    if s.len() > 0 {
        let t = s.drop_first();
        assert forall|j: int| 0 <= j < t.len() implies !text::is_white(#[trigger] t[j]) by {
            assert(t[j] == s[j + 1]);
        }
        lemma_no_white(t);
    }
}

/// Parses a line of the process table.
pub fn parse_ps_line(line: &str) -> (r: Option<LocalConn>)
    ensures
        r is Some <==> ps_line(line@) is Some,
        r matches Some(c) ==> ps_line(line@) == Some(c@),
{
    let cs = text::chars_of(line);
    match split_white_of(text::trim_start_of(cs.as_slice())) {
        None => None,
        Some((pid_s, rest)) => match text::uint_of(pid_s, 10, 0xffff_ffff) {
            None => None,
            Some(pid) => {
                let args = text::words_of(rest);
                let ghost ws = text::words(rest@);
                assert(text::texts(args@) == ws);
                if args.len() == 0 {
                    return None;
                }
                assert(ws[0] == args@[0]@);
                let base: &[char] = match text::rsplit_once_of(args[0].as_slice(), '/') {
                    None => args[0].as_slice(),
                    Some((_, b)) => b,
                };
                if !text::is_text(base, "ssh") || text::has_text(rest, "ssh-autoport") {
                    return None;
                }
                let tail = vstd::slice::slice_subrange(args.as_slice(), 1, args.len());
                assert(text::texts(tail@) =~= ws.skip(1));
                parse_ssh_args(tail, pid as u32)
            },
        },
    }
}

/// The parts of a forward spec that have been read, and how many brackets are open.
#[verifier::ext_equal]
pub struct FwdParts {
    pub parts: Seq<Seq<char>>,
    pub depth: nat,
}

/// The parts of a forward spec between colons that stand in no bracket; brackets are dropped.
pub open spec fn fwd_parts(s: Seq<char>) -> FwdParts
    decreases s.len(),
{
    if s.len() == 0 {
        FwdParts { parts: seq![Seq::empty()], depth: 0 }
    } else {
        let before = fwd_parts(s.drop_last());
        let p = before.parts;
        let c = s.last();
        if c == '[' {
            FwdParts { parts: p, depth: before.depth + 1 }
        } else if c == ']' {
            FwdParts {
                parts: p,
                depth: if before.depth == 0 {
                    0
                } else {
                    (before.depth - 1) as nat
                },
            }
        } else if c == ':' && before.depth == 0 {
            FwdParts { parts: p.push(Seq::empty()), depth: 0 }
        } else {
            FwdParts { parts: p.drop_last().push(p.last().push(c)), depth: before.depth }
        }
    }
}

/// Splits a forward spec on ':' while respecting IPv6 brackets, which are dropped.
pub fn split_fwd(s: &str) -> (r: Vec<String>)
    ensures
        text::string_texts(r@) == fwd_parts(s@).parts,
        r@.len() > 0,
{
    let cs = text::chars_of(s);
    let mut parts: Vec<String> = Vec::new();
    let mut cur = String::new();
    let mut depth: usize = 0;
    let n: usize = cs.len();
    assert(cs@.take(0) =~= Seq::<char>::empty());
    assert(text::string_texts(parts@).push(cur@) =~= seq![Seq::<char>::empty()]);
    for i in 0..n
        invariant
            n == cs@.len(),
            depth <= i,
            fwd_parts(cs@.take(i as int)) == (FwdParts {
                parts: text::string_texts(parts@).push(cur@),
                depth: depth as nat,
            }),
    {
        let ghost done = text::string_texts(parts@);
        let ghost held = cur@;
        assert(cs@.take(i + 1).drop_last() =~= cs@.take(i as int));
        let c: char = cs[i];
        if c == '[' {
            depth = depth + 1;
        } else if c == ']' {
            if depth > 0 {
                depth = depth - 1;
            }
        } else if c == ':' && depth == 0 {
            parts.push(cur);
            cur = String::new();
            assert(text::string_texts(parts@).push(cur@) =~= done.push(held).push(Seq::empty()));
        } else {
            cur.push(c);
            assert(done.push(held).drop_last().push(held.push(c)) =~= done.push(cur@));
        }
    }
    assert(cs@.take(n as int) =~= s@);
    let ghost done = text::string_texts(parts@);
    let ghost last = cur@;
    parts.push(cur);
    assert(text::string_texts(parts@) =~= done.push(last));
    parts
}

/// An ASCII letter in lower case; other characters as they are.
pub open spec fn ascii_lower(c: char) -> char {
    if 'A' <= c <= 'Z' {
        (c as nat + 32) as char
    } else {
        c
    }
}

/// Two texts that differ at most in the case of ASCII letters.
pub open spec fn same_ignoring_case(a: Seq<char>, b: Seq<char>) -> bool {
    a.len() == b.len() && forall|i: int|
        0 <= i < a.len() ==> ascii_lower(#[trigger] a[i]) == ascii_lower(b[i])
}

/// The names of the local machine itself.
pub open spec fn loopback_host(h: Seq<char>) -> bool {
    same_ignoring_case(h, "localhost"@) || h == "127.0.0.1"@ || h == "::1"@
}

fn lower(c: char) -> (r: char)
    ensures
        r == ascii_lower(c),
{
    let n: u32 = c as u32;
    if 65 <= n && n <= 90 {
        ((n + 32) as u8) as char
    } else {
        c
    }
}

fn same_ignoring_case_of(a: &[char], b: &str) -> (r: bool)
    ensures
        r == same_ignoring_case(a@, b@),
{
    let bs = text::chars_of(b);
    if a.len() != bs.len() {
        return false;
    }
    for i in 0..a.len()
        invariant
            a@.len() == bs@.len(),
            bs@ == b@,
            forall|j: int| 0 <= j < i ==> ascii_lower(#[trigger] a@[j]) == ascii_lower(b@[j]),
    {
        if lower(a[i]) != lower(bs[i]) {
            return false;
        }
    }
    true
}

/// Whether a host name is that of the local machine itself.
pub fn is_loopback_host(h: &str) -> (r: bool)
    ensures
        r == loopback_host(h@),
{
    let cs = text::chars_of(h);
    same_ignoring_case_of(cs.as_slice(), "localhost") || text::same_text(h, "127.0.0.1")
        || text::same_text(h, "::1")
}

/// A port as a text writes it.
pub open spec fn port_text(s: Seq<char>) -> Option<u16> {
    match text::parse_uint(s, 10, 0xffff) {
        Some(n) => Some(n as u16),
        None => None,
    }
}

fn parse_port(s: &str) -> (r: Option<u16>)
    ensures
        r == port_text(s@),
{
    let cs = text::chars_of(s);
    text::port_of(cs.as_slice())
}

/// An `-L` spec `[bind:]lport:host:rport`.
pub open spec fn l_spec(s: Seq<char>) -> Option<(u16, Seq<char>, u16)> {
    let p = fwd_parts(s).parts;
    if p.len() != 3 && p.len() != 4 {
        None
    } else {
        let n = p.len() as int;
        match (port_text(p[n - 3]), port_text(p[n - 1])) {
            (Some(lp), Some(rp)) => Some((lp, p[n - 2], rp)),
            _ => None,
        }
    }
}

/// Parses an `-L` spec: `[bind:]lport:host:rport` gives (lport, host, rport).
pub fn parse_l_spec(spec: &str) -> (r: Option<(u16, String, u16)>)
    ensures
        r is Some <==> l_spec(spec@) is Some,
        r matches Some((lp, host, rp)) ==> l_spec(spec@) == Some((lp, host@, rp)),
{
    let p = split_fwd(spec);
    let ghost ps = fwd_parts(spec@).parts;
    assert(text::string_texts(p@) == ps);
    let n: usize = p.len();
    if n != 3 && n != 4 {
        return None;
    }
    assert(ps[n - 3] == p@[n - 3]@ && ps[n - 2] == p@[n - 2]@ && ps[n - 1] == p@[n - 1]@);
    match parse_port(p[n - 3].as_str()) {
        None => None,
        Some(lp) => match parse_port(p[n - 1].as_str()) {
            None => None,
            Some(rp) => Some((lp, p[n - 2].clone(), rp)),
        },
    }
}

/// The tail of an `ssh -G` "localforward" line, for forwards that target the server itself.
pub open spec fn g_localforward(v: Seq<char>) -> Option<(u16, u16)> {
    let w = text::words(v);
    if w.len() < 2 {
        None
    } else {
        let listen = fwd_parts(w[0]).parts;
        let connect = fwd_parts(w[1]).parts;
        if connect.len() != 2 || !loopback_host(connect[0]) {
            None
        } else {
            match (port_text(listen.last()), port_text(connect[1])) {
                (Some(lp), Some(rp)) => Some((lp, rp)),
                _ => None,
            }
        }
    }
}

/// Parses the tail of an `ssh -G` "localforward" line: `8888 [localhost]:8888` or
/// `[127.0.0.1]:6006 [127.0.0.1]:6006`. Gives (local port, remote port) only for forwards that
/// target the server itself.
pub fn parse_g_localforward(v: &str) -> (r: Option<(u16, u16)>)
    ensures
        r == g_localforward(v@),
{
    let cs = text::chars_of(v);
    let w = text::words_of(cs.as_slice());
    let ghost ws = text::words(v@);
    assert(text::texts(w@) == ws);
    if w.len() < 2 {
        return None;
    }
    assert(ws[0] == w@[0]@ && ws[1] == w@[1]@);
    let listen = split_fwd(text::text_of(w[0].as_slice()).as_str());
    let connect = split_fwd(text::text_of(w[1].as_slice()).as_str());
    let ghost ls = fwd_parts(ws[0]).parts;
    let ghost ks = fwd_parts(ws[1]).parts;
    assert(text::string_texts(listen@) == ls && text::string_texts(connect@) == ks);
    if connect.len() != 2 {
        return None;
    }
    assert(ks[0] == connect@[0]@ && ks[1] == connect@[1]@);
    if !is_loopback_host(connect[0].as_str()) {
        return None;
    }
    assert(ls.last() == listen@[listen@.len() - 1]@);
    match parse_port(listen[listen.len() - 1].as_str()) {
        None => None,
        Some(lp) => match parse_port(connect[1].as_str()) {
            None => None,
            Some(rp) => Some((lp, rp)),
        },
    }
}


/// What has been read of the output of `ssh -G`.
#[verifier::ext_equal]
pub struct ConfigModel {
    pub user: Option<Seq<char>>,
    pub hostname: Option<Seq<char>>,
    pub port: Option<u16>,
    pub lforwards: Seq<(u16, u16)>,
    pub control_path: Option<Seq<char>>,
}

impl ConfigModel {
    /// Nothing read yet.
    pub open spec fn start() -> ConfigModel {
        ConfigModel {
            user: None,
            hostname: None,
            port: None,
            lforwards: Seq::empty(),
            control_path: None,
        }
    }

    /// With one more line read. "none" means that no ControlPath is set, and a leftover '%' that
    /// ssh did not expand it: neither can be used.
    pub open spec fn read(self, l: Seq<char>) -> ConfigModel {
        if text::starts_with(l, "user "@) {
            ConfigModel { user: Some(text::trim(l.skip(5))), ..self }
        } else if text::starts_with(l, "hostname "@) {
            ConfigModel { hostname: Some(text::trim(l.skip(9))), ..self }
        } else if text::starts_with(l, "port "@) {
            ConfigModel { port: port_text(text::trim(l.skip(5))), ..self }
        } else if text::starts_with(l, "localforward "@) {
            match g_localforward(l.skip(13)) {
                Some(f) => ConfigModel { lforwards: self.lforwards.push(f), ..self },
                None => self,
            }
        } else if text::starts_with(l, "controlpath "@) {
            let v = text::trim(l.skip(12));
            if v != "none"@ && !v.contains('%') && v.len() > 0 {
                ConfigModel { control_path: Some(v), ..self }
            } else {
                self
            }
        } else {
            self
        }
    }

    /// With all the lines read.
    pub open spec fn read_all(self, ls: Seq<Seq<char>>) -> ConfigModel
        decreases ls.len(),
    {
        if ls.len() == 0 {
            self
        } else {
            self.read_all(ls.drop_last()).read(ls.last())
        }
    }

    /// The identity, where user, host name and port are all known.
    pub open spec fn resolved(self) -> Option<ResolvedModel> {
        match (self.user, self.hostname, self.port) {
            (Some(user), Some(hostname), Some(port)) => Some(
                ResolvedModel {
                    user,
                    hostname,
                    port,
                    lforwards: self.lforwards,
                    control_path: self.control_path,
                },
            ),
            _ => None,
        }
    }
}

/// The identity that the output of `ssh -G` tells of.
pub open spec fn config_identity(out: Seq<char>) -> Option<ResolvedModel> {
    ConfigModel::start().read_all(text::lines(out)).resolved()
}

/// What has been read of the output of `ssh -G`.
struct Config {
    user: Option<String>,
    hostname: Option<String>,
    port: Option<u16>,
    lforwards: Vec<(u16, u16)>,
    control_path: Option<String>,
}

impl View for Config {
    type V = ConfigModel;

    closed spec fn view(&self) -> ConfigModel {
        ConfigModel {
            user: types::opt_text(self.user),
            hostname: types::opt_text(self.hostname),
            port: self.port,
            lforwards: self.lforwards@,
            control_path: types::opt_text(self.control_path),
        }
    }
}

impl Config {
    fn read(&mut self, l: &[char])
        ensures
            final(self)@ == old(self)@.read(l@),
    {
        proof {
            reveal_strlit("user ");
            reveal_strlit("hostname ");
            reveal_strlit("port ");
            reveal_strlit("localforward ");
            reveal_strlit("controlpath ");
        }
        if let Some(v) = text::strip_of(l, "user ") {
            self.user = Some(text::text_of(text::trim_of(v)));
        } else if let Some(v) = text::strip_of(l, "hostname ") {
            self.hostname = Some(text::text_of(text::trim_of(v)));
        } else if let Some(v) = text::strip_of(l, "port ") {
            self.port = text::port_of(text::trim_of(v));
        } else if let Some(v) = text::strip_of(l, "localforward ") {
            match parse_g_localforward(text::text_of(v).as_str()) {
                Some(f) => {
                    self.lforwards.push(f);
                },
                None => {},
            }
        } else if let Some(v) = text::strip_of(l, "controlpath ") {
            let t = text::trim_of(v);
            if !text::is_text(t, "none") && text::first_of(t, '%').is_none() && t.len() > 0 {
                self.control_path = Some(text::text_of(t));
            }
        }
    }
}

/// Reads the output of `ssh -G`.
pub fn parse_config(out: &str) -> (r: Option<Resolved>)
    ensures
        r is Some <==> config_identity(out@) is Some,
        r matches Some(c) ==> config_identity(out@) == Some(c@),
{
    let cs = text::chars_of(out);
    let ls = text::lines_of(cs.as_slice());
    let ghost lines = text::lines(out@);
    assert(text::texts(ls@) == lines);
    let mut conf = Config {
        user: None,
        hostname: None,
        port: None,
        lforwards: Vec::new(),
        control_path: None,
    };
    assert(conf@ =~= ConfigModel::start());
    assert(lines.take(0) =~= Seq::<Seq<char>>::empty());
    for i in 0..ls.len()
        invariant
            text::texts(ls@) == lines,
            conf@ == ConfigModel::start().read_all(lines.take(i as int)),
    {
        assert(lines.take(i + 1).drop_last() =~= lines.take(i as int));
        assert(lines.take(i + 1).last() == ls@[i as int]@);
        conf.read(ls[i].as_slice());
    }
    assert(lines.take(lines.len() as int) =~= lines);
    let Config { user, hostname, port, lforwards, control_path } = conf;
    match (user, hostname, port) {
        (Some(user), Some(hostname), Some(port)) => Some(
            Resolved { user, hostname, port, lforwards, control_path },
        ),
        _ => None,
    }
}

/// The command that resolves the identity of a destination (no connection is made).
pub open spec fn resolve_invocation(dest: Seq<char>, extra: Seq<Seq<char>>) -> util::InvocationModel {
    util::InvocationModel {
        program: "ssh"@,
        args: seq!["-G"@] + extra + seq![dest],
        stdin: None,
        timeout_secs: 5,
    }
}

/// The command that resolves the identity of a destination (no connection is made).
pub fn resolve_command(dest: &str, extra: &Vec<String>) -> (r: Invocation)
    ensures
        r@ == resolve_invocation(dest@, text::string_texts(extra@)),
{
    let mut args: Vec<String> = vec!["-G".to_owned()];
    let mut more = text::copy_strings(extra);
    let ghost es = text::string_texts(more@);
    args.append(&mut more);
    args.push(dest.to_owned());
    assert(text::string_texts(args@) =~= seq!["-G"@] + es + seq![dest@]);
    Invocation { program: "ssh".to_owned(), args, stdin: None, timeout_secs: 5 }
}

/// The effective user, host name and port that a run of `ssh -G` gave.
pub open spec fn resolve_answer(ran: Result<Output, String>) -> Option<ResolvedModel> {
    match ran {
        Ok(out) => if out.success {
            config_identity(util::lossy(out.stdout@))
        } else {
            None
        },
        Err(_) => None,
    }
}

/// The effective user, host name and port that a run of `ssh -G` gave.
pub fn resolve(ran: &Result<Output, String>) -> (r: Option<Resolved>)
    ensures
        match resolve_answer(*ran) {
            Some(m) => r is Some && r->0@ == m,
            None => r is None,
        },
{
    match ran {
        Ok(out) => if out.success {
            parse_config(util::lossy_text(out.stdout.as_slice()).as_str())
        } else {
            None
        },
        Err(_) => None,
    }
}

/// The order of lists of texts: element by element, a proper prefix first.
pub open spec fn list_before(a: Seq<Seq<char>>, b: Seq<Seq<char>>) -> bool
    decreases a.len(),
{
    if b.len() == 0 {
        false
    } else if a.len() == 0 {
        true
    } else if a[0] != b[0] {
        text::text_before(a[0], b[0])
    } else {
        list_before(a.drop_first(), b.drop_first())
    }
}

proof fn lemma_list_irreflexive(a: Seq<Seq<char>>)
    ensures
        !list_before(a, a),
    decreases a.len(),
{
    if a.len() > 0 {
        lemma_list_irreflexive(a.drop_first());
    }
}

proof fn lemma_list_transitive(a: Seq<Seq<char>>, b: Seq<Seq<char>>, c: Seq<Seq<char>>)
    requires
        list_before(a, b),
        list_before(b, c),
    ensures
        list_before(a, c),
    decreases a.len(),
{
    if a.len() > 0 {
        if a[0] == b[0] && b[0] == c[0] {
            lemma_list_transitive(a.drop_first(), b.drop_first(), c.drop_first());
        } else if a[0] != b[0] && b[0] != c[0] {
            text::lemma_text_transitive(a[0], b[0], c[0]);
            text::lemma_text_irreflexive(a[0]);
        }
    }
}

proof fn lemma_list_total(a: Seq<Seq<char>>, b: Seq<Seq<char>>)
    ensures
        a == b || list_before(a, b) || list_before(b, a),
    decreases a.len(),
{
    if a.len() == 0 || b.len() == 0 {
        if a.len() == 0 && b.len() == 0 {
            assert(a =~= b);
        }
    } else if a[0] == b[0] {
        lemma_list_total(a.drop_first(), b.drop_first());
        if a.drop_first() == b.drop_first() {
            assert(a =~= seq![a[0]] + a.drop_first());
            assert(b =~= seq![b[0]] + b.drop_first());
        }
    } else {
        text::lemma_text_total(a[0], b[0]);
    }
}

/// Whether one list of texts comes strictly before another.
fn list_precedes(a: &Vec<String>, b: &Vec<String>) -> (r: bool)
    ensures
        r == list_before(text::string_texts(a@), text::string_texts(b@)),
{
    let ghost x = text::string_texts(a@);
    let ghost y = text::string_texts(b@);
    let mut i: usize = 0;
    assert(x.skip(0) =~= x && y.skip(0) =~= y);
    while i < a.len() && i < b.len()
        invariant
            x == text::string_texts(a@),
            y == text::string_texts(b@),
            i <= x.len(),
            i <= y.len(),
            list_before(x, y) == list_before(x.skip(i as int), y.skip(i as int)),
        decreases x.len() - i,
    {
        assert(x.skip(i as int)[0] == a@[i as int]@ && y.skip(i as int)[0] == b@[i as int]@);
        if !text::same_text(a[i].as_str(), b[i].as_str()) {
            return text::text_precedes(a[i].as_str(), b[i].as_str());
        }
        assert(x.skip(i as int).drop_first() =~= x.skip(i + 1));
        assert(y.skip(i as int).drop_first() =~= y.skip(i + 1));
        i = i + 1;
    }
    i < b.len()
}

/// What tells connections apart: the destination and the carried options.
#[derive(Debug)]
pub struct ConnKey {
    pub dest: String,
    pub extra: Vec<String>,
}

impl View for ConnKey {
    type V = (Seq<char>, Seq<Seq<char>>);

    open spec fn view(&self) -> (Seq<char>, Seq<Seq<char>>) {
        (self.dest@, text::string_texts(self.extra@))
    }
}

impl MapKey for ConnKey {
    open spec fn before(a: (Seq<char>, Seq<Seq<char>>), b: (Seq<char>, Seq<Seq<char>>)) -> bool {
        if a.0 != b.0 {
            text::text_before(a.0, b.0)
        } else {
            list_before(a.1, b.1)
        }
    }

    proof fn before_irreflexive(a: (Seq<char>, Seq<Seq<char>>)) {
        lemma_list_irreflexive(a.1);
    }

    proof fn before_transitive(
        a: (Seq<char>, Seq<Seq<char>>),
        b: (Seq<char>, Seq<Seq<char>>),
        c: (Seq<char>, Seq<Seq<char>>),
    ) {
        if a.0 == b.0 && b.0 == c.0 {
            lemma_list_transitive(a.1, b.1, c.1);
        } else if a.0 != b.0 && b.0 != c.0 {
            text::lemma_text_transitive(a.0, b.0, c.0);
            text::lemma_text_irreflexive(a.0);
        }
    }

    proof fn before_total(a: (Seq<char>, Seq<Seq<char>>), b: (Seq<char>, Seq<Seq<char>>)) {
        if a.0 == b.0 {
            lemma_list_total(a.1, b.1);
        } else {
            text::lemma_text_total(a.0, b.0);
        }
    }

    fn precedes(&self, other: &ConnKey) -> (r: bool) {
        if text::same_text(self.dest.as_str(), other.dest.as_str()) {
            list_precedes(&self.extra, &other.extra)
        } else {
            text::text_precedes(self.dest.as_str(), other.dest.as_str())
        }
    }

    fn copy_key(&self) -> (r: ConnKey) {
        ConnKey { dest: self.dest.clone(), extra: text::copy_strings(&self.extra) }
    }
}

impl ConnModel {
    /// What tells this connection apart.
    pub open spec fn key(self) -> (Seq<char>, Seq<Seq<char>>) {
        (self.dest, self.extra)
    }
}

/// The connections in the lines of the process table: one for each destination with its options,
/// with the number of the process that is listed first and the forwards of all of them.
pub open spec fn sessions(ls: Seq<Seq<char>>) -> Map<(Seq<char>, Seq<Seq<char>>), ConnModel>
    decreases ls.len(),
{
    if ls.len() == 0 {
        Map::empty()
    } else {
        let before = sessions(ls.drop_last());
        match ps_line(ls.last()) {
            Some(c) => if before.contains_key(c.key()) {
                let first = before[c.key()];
                before.insert(
                    c.key(),
                    ConnModel { lforwards: first.lforwards + c.lforwards, ..first },
                )
            } else {
                before.insert(c.key(), c)
            },
            None => before,
        }
    }
}

/// The connections that the process table tells of, ordered by destination and options.
pub open spec fn session_listing(out: Seq<char>) -> Seq<ConnModel> {
    let m = sessions(text::lines(out));
    let keys = maps::ordered_keys::<ConnKey, ConnModel>(m);
    Seq::new(keys.len(), |i: int| m[keys[i]])
}

/// The models of connections.
pub open spec fn conn_models(v: Seq<LocalConn>) -> Seq<ConnModel> {
    Seq::new(v.len(), |i: int| v[i]@)
}

/// Reads the process table.
pub fn parse_ps(out: &str) -> (r: Vec<LocalConn>)
    ensures
        conn_models(r@) == session_listing(out@),
{
    let cs = text::chars_of(out);
    let ls = text::lines_of(cs.as_slice());
    let ghost lines = text::lines(out@);
    assert(text::texts(ls@) == lines);
    let mut found: SortedMap<ConnKey, LocalConn> = SortedMap::new();
    assert(lines.take(0) =~= Seq::<Seq<char>>::empty());
    for i in 0..ls.len()
        invariant
            text::texts(ls@) == lines,
            found@ == sessions(lines.take(i as int)),
    {
        assert(lines.take(i + 1).drop_last() =~= lines.take(i as int));
        assert(lines.take(i + 1).last() == ls@[i as int]@);
        match parse_ps_line(text::text_of(ls[i].as_slice()).as_str()) {
            Some(c) => {
                let key = ConnKey { dest: c.dest.clone(), extra: text::copy_strings(&c.extra) };
                if found.contains_key(&key) {
                    match found.get_mut(&key) {
                        Some(first) => {
                            let ghost held = text::string_texts(first.lforwards@);
                            let mut more = text::copy_strings(&c.lforwards);
                            let ghost added = text::string_texts(more@);
                            first.lforwards.append(&mut more);
                            assert(text::string_texts(first.lforwards@) =~= held + added);
                        },
                        None => {},
                    }
                } else {
                    found.insert(key, c);
                }
            },
            None => {},
        }
    }
    assert(lines.take(lines.len() as int) =~= lines);
    let mut conns: Vec<LocalConn> = Vec::new();
    let n: usize = found.len();
    let ghost all = session_listing(out@);
    for i in 0..n
        invariant
            found@ == sessions(text::lines(out@)),
            n == maps::ordered_keys::<ConnKey, ConnModel>(found@).len(),
            all == session_listing(out@),
            conn_models(conns@) == all.take(i as int),
    {
        let ghost before = conn_models(conns@);
        let c = found.value_at(i).clone();
        conns.push(c);
        assert(conn_models(conns@) =~= before.push(c@));
        assert(all.take(i + 1) =~= before.push(c@));
    }
    assert(all.take(n as int) =~= all);
    conns
}

/// The command that lists the process table.
pub open spec fn discover_invocation() -> util::InvocationModel {
    util::InvocationModel {
        program: "ps"@,
        args: seq!["-eo"@, "pid=,args="@],
        stdin: None,
        timeout_secs: 5,
    }
}

/// The command that lists the process table.
pub fn discover_command() -> (r: Invocation)
    ensures
        r@ == discover_invocation(),
{
    let args: Vec<String> = vec!["-eo".to_owned(), "pid=,args=".to_owned()];
    assert(text::string_texts(args@) =~= seq!["-eo"@, "pid=,args="@]);
    Invocation { program: "ps".to_owned(), args, stdin: None, timeout_secs: 5 }
}

/// The active ssh connections that a listing of the process table gave; none where it failed.
pub open spec fn discover_answer(ran: Result<Output, String>) -> Seq<ConnModel> {
    match ran {
        Ok(out) => if out.success {
            session_listing(util::lossy(out.stdout@))
        } else {
            Seq::empty()
        },
        Err(_) => Seq::empty(),
    }
}

/// The active ssh connections that a listing of the process table gave; none where it failed.
pub fn discover(ran: &Result<Output, String>) -> (r: Vec<LocalConn>)
    ensures
        conn_models(r@) == discover_answer(*ran),
{
    let none: Vec<LocalConn> = Vec::new();
    assert(conn_models(none@) =~= Seq::empty());
    match ran {
        Ok(out) => if out.success {
            parse_ps(util::lossy_text(out.stdout.as_slice()).as_str())
        } else {
            none
        },
        Err(_) => none,
    }
}

} // verus!
