use std::collections::hash_map::DefaultHasher;
use std::hash::{Hash, Hasher};

use ssh_autoport::control::{
    check_result, mux_result, scan_result, socket_dir_of, socket_in, socket_path_of, DirNews,
    Master, MasterRef, News, Step, SOCKET_DIR_MODE,
};
use ssh_autoport::remote::SCAN_SCRIPT;
use ssh_autoport::util::{
    first_line, headline_of, join_path, now_unix, spawn_error, timeout_error, unix_seconds, watch,
    Output, Poll, Watch,
};

fn mref(dest: &str, socket: &str) -> MasterRef {
    MasterRef { dest: dest.into(), socket: socket.into() }
}

fn ran(success: bool, stdout: &[u8], stderr: &[u8]) -> Result<Output, String> {
    Ok(Output { success, stdout: stdout.to_vec(), stderr: stderr.to_vec() })
}

const BASE: [&str; 8] =
    ["-F", "/dev/null", "-o", "BatchMode=yes", "-o", "ProxyCommand=false", "-S", "/s"];

fn with_base(more: &[&str]) -> Vec<String> {
    BASE.iter().chain(more.iter()).map(|s| s.to_string()).collect()
}

#[test]
fn commands_address_the_socket() {
    let m = mref("web01", "/s");
    assert_eq!(m.check().program, "ssh");
    assert_eq!(m.check().args, with_base(&["-O", "check", "web01"]));
    assert_eq!(m.check().timeout_secs, 6);
    assert_eq!(m.scan().args, with_base(&["-T", "web01", "--", "sh"]));
    assert_eq!(m.scan().stdin.as_deref(), Some(SCAN_SCRIPT));
    assert_eq!(m.scan().timeout_secs, 25);
    assert_eq!(
        m.forward(3001, 3000).args,
        with_base(&["-O", "forward", "-L", "127.0.0.1:3001:localhost:3000", "web01"])
    );
    assert_eq!(
        m.cancel(3001, 3000).args,
        with_base(&["-O", "cancel", "-L", "127.0.0.1:3001:localhost:3000", "web01"])
    );
    assert_eq!(m.cancel(3001, 3000).timeout_secs, 10);
}

#[test]
fn answers_are_read() {
    assert!(check_result(&ran(true, b"", b"")));
    assert!(!check_result(&ran(false, b"", b"")));
    assert!(!check_result(&Err("timed out".into())));
    assert_eq!(scan_result(&ran(true, b"", b"x")), Ok("".into()));
    assert_eq!(scan_result(&ran(false, b"out", b"x")), Ok("out".into()));
    assert_eq!(scan_result(&ran(false, b"", b"\n  no route \n")), Err("no route".into()));
    assert_eq!(scan_result(&ran(true, b"a\xffb", b"")), Ok("a\u{fffd}b".into()));
    assert_eq!(scan_result(&Err("timed out".into())), Err("timed out".into()));
    assert_eq!(mux_result(&ran(true, b"", b"noise")), Ok(()));
    assert_eq!(mux_result(&ran(false, b"", b"")), Err("unknown error".into()));
    assert_eq!(mux_result(&Err("e".into())), Err("e".into()));
}

#[test]
fn sockets_live_in_a_private_directory() {
    let s = |t: &str| Some(t.to_string());
    assert_eq!(socket_dir_of(&s("/run/user/1"), "/tmp", &s("bob")), "/run/user/1/ssh-autoport");
    assert_eq!(socket_dir_of(&None, "/tmp", &s("bob")), "/tmp/ssh-autoport-bob");
    assert_eq!(socket_dir_of(&None, "/tmp/", &None), "/tmp/ssh-autoport-u");
}

#[test]
fn socket_names_are_hashes_of_the_host() {
    for key in ["bob@web01:22", "", "ünïcode@h:1"] {
        let mut h = DefaultHasher::new();
        key.hash(&mut h);
        let want = format!("/d/m-{:012x}.sock", h.finish() & 0xffff_ffff_ffff);
        assert_eq!(socket_path_of("/d", key), want);
    }
}

#[test]
fn sockets_need_their_directory() {
    assert_eq!(SOCKET_DIR_MODE, 0o700);
    let path = Ok(socket_path_of("/run/user/1/ssh-autoport", "bob@web01:22"));
    for made in [DirNews::Made, DirNews::Exists] {
        assert_eq!(socket_in("/run/user/1/ssh-autoport", "bob@web01:22", &made), path);
    }
    let name = path.unwrap().strip_prefix("/run/user/1/ssh-autoport/m-").unwrap().to_string();
    let digits = name.strip_suffix(".sock").unwrap();
    assert_eq!(digits.len(), 12);
    assert!(digits.chars().all(|c| matches!(c, '0'..='9' | 'a'..='f')));
    assert_eq!(
        socket_in("/d", "bob@web01:22", &DirNews::Failed("read-only".into())),
        Err("cannot create socket dir: read-only".to_string())
    );
}

#[test]
fn commands_that_do_not_run_say_why() {
    assert_eq!(spawn_error("\"ssh\"", "not found"), "failed to run \"ssh\": not found");
    for program in ["ssh", "ps", "two words", "a\"b", "back\\slash", "new\nline"] {
        let shown = format!("{program:?}");
        assert_eq!(
            spawn_error(&shown, "not found"),
            format!("failed to run {program:?}: not found")
        );
    }
    assert_eq!(timeout_error(), "command timed out");
}

#[test]
fn a_shared_master_is_preferred() {
    let (mut c, step) = Master::connect("web01", &vec![], &Some("/cm".to_string()));
    assert_eq!(step, Step::Check(mref("web01", "/cm")));
    let step = c.next(News::Checked { alive: true, now: 0 });
    let m = Master { r: mref("web01", "/cm"), external: true, child: None };
    assert_eq!(step, Step::Done(Ok(m.clone())));
    assert_eq!(m.close(), None);
    assert_eq!(m.alive(), mref("web01", "/cm").check());
}

#[test]
fn a_master_of_an_earlier_run_is_reused() {
    let (mut c, step) = Master::connect("web01", &vec![], &Some("/cm".to_string()));
    assert_eq!(step, Step::Check(mref("web01", "/cm")));
    assert_eq!(c.next(News::Checked { alive: false, now: 0 }), Step::FindSocket);
    assert_eq!(c.next(News::Socket(Ok("/s".into()))), Step::Check(mref("web01", "/s")));
    assert_eq!(
        c.next(News::Checked { alive: true, now: 0 }),
        Step::Done(Ok(Master { r: mref("web01", "/s"), external: false, child: None }))
    );
}

#[test]
fn a_new_master_is_started_and_watched() {
    let extra = vec!["-p".to_string(), "2222".to_string()];
    let (mut c, step) = Master::connect("web01", &extra, &None);
    assert_eq!(step, Step::FindSocket);
    c.next(News::Socket(Ok("/s".into())));
    let step = c.next(News::Checked { alive: false, now: 0 });
    let args: Vec<String> = [
        "-M", "-N", "-S", "/s", "-o", "BatchMode=yes", "-o", "ConnectTimeout=10", "-o",
        "ServerAliveInterval=15", "-o", "ServerAliveCountMax=3", "-o", "RemoteCommand=none", "-o",
        "ClearAllForwardings=yes", "-p", "2222", "web01",
    ]
    .iter()
    .map(|s| s.to_string())
    .collect();
    assert_eq!(step, Step::Spawn { stale: "/s".into(), args });
    let start = 1_000_000_000;
    assert_eq!(
        c.next(News::Spawned { child: Ok(7), now: start }),
        Step::Look { child: 7, pause: false }
    );
    assert_eq!(c.next(News::Looked(None)), Step::Check(mref("web01", "/s")));
    assert_eq!(
        c.next(News::Checked { alive: false, now: start + 14_999_999_999 }),
        Step::Look { child: 7, pause: true }
    );
    assert_eq!(c.next(News::Looked(None)), Step::Check(mref("web01", "/s")));
    let m = Master { r: mref("web01", "/s"), external: false, child: Some(7) };
    assert_eq!(
        c.next(News::Checked { alive: true, now: start + 15_000_000_000 }),
        Step::Done(Ok(m.clone()))
    );
    let end = m.close().unwrap();
    assert_eq!(end.command.args, with_base(&["-O", "exit", "web01"]));
    assert_eq!(end.command.timeout_secs, 5);
    assert_eq!(end.kill, Some(7));
    assert_eq!(end.socket, "/s");
}

#[test]
fn a_new_master_may_run_out_of_time() {
    let (mut c, _) = Master::connect("web01", &vec![], &None);
    c.next(News::Socket(Ok("/s".into())));
    c.next(News::Checked { alive: false, now: 0 });
    c.next(News::Spawned { child: Ok(7), now: 0 });
    c.next(News::Looked(None));
    assert_eq!(
        c.next(News::Checked { alive: false, now: 15_000_000_000 }),
        Step::GiveUp { child: 7, err: "timed out establishing connection".into() }
    );
}

#[test]
fn failures_to_connect_are_told() {
    let (mut c, _) = Master::connect("web01", &vec![], &None);
    assert_eq!(
        c.next(News::Socket(Err("cannot create socket dir: no".into()))),
        Step::Done(Err("cannot create socket dir: no".into()))
    );
    let (mut c, _) = Master::connect("web01", &vec![], &None);
    c.next(News::Socket(Ok("/s".into())));
    c.next(News::Checked { alive: false, now: 0 });
    assert_eq!(
        c.next(News::Spawned { child: Err("not found".into()), now: 0 }),
        Step::Done(Err("cannot run ssh: not found".into()))
    );
}

fn ended_with(stderr: &str) -> Step {
    let (mut c, _) = Master::connect("web01", &vec![], &None);
    c.next(News::Socket(Ok("/s".into())));
    c.next(News::Checked { alive: false, now: 0 });
    c.next(News::Spawned { child: Ok(7), now: 0 });
    c.next(News::Looked(Some(stderr.into())))
}

#[test]
fn a_master_that_ends_says_why() {
    assert_eq!(ended_with(""), Step::Done(Err("connection failed".into())));
    assert_eq!(ended_with("\n no route to host\nbye"), Step::Done(Err("no route to host".into())));
    assert_eq!(
        ended_with("bob@h: Permission denied (publickey)."),
        Step::Done(Err("bob@h: Permission denied (publickey). — needs non-interactive auth: add your key to ssh-agent, or enable ControlMaster in ~/.ssh/config so I can share your session".into()))
    );
}

#[test]
fn first_lines_are_trimmed() {
    assert_eq!(first_line(b"\r\n   \n  bad \xff thing  \r\nmore"), "bad \u{fffd} thing");
    assert_eq!(first_line(b""), "unknown error");
    assert_eq!(headline_of(" \n", "nothing"), "nothing");
}

#[test]
fn commands_are_watched_until_their_deadline() {
    assert_eq!(watch(Poll::Ended, 9, 5), Watch::Collect);
    assert_eq!(watch(Poll::Running, 4, 5), Watch::Wait);
    assert_eq!(watch(Poll::Running, 5, 5), Watch::TimedOut);
    assert_eq!(watch(Poll::Unreadable, 4, 5), Watch::Fail);
}

#[test]
fn the_time_is_counted_from_the_epoch() {
    assert_eq!(unix_seconds(Some(12)), 12);
    assert_eq!(unix_seconds(None), 0);
    assert!(now_unix() > 1_500_000_000);
}

#[test]
fn paths_are_joined() {
    assert_eq!(join_path("/a", "b"), "/a/b");
    assert_eq!(join_path("/", "b"), "/b");
    assert_eq!(join_path("", "b"), "b");
}
