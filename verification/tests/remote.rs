use ssh_autoport::remote::{dedupe, is_system, parse_scan, script, RemoteApp, SCAN_SCRIPT};

#[test]
fn parses_ss_output() {
    let out = "@@FMT ss\n\
        State  Recv-Q Send-Q Local Address:Port Peer Address:Port Process\n\
        LISTEN 0      511        127.0.0.1:3000      0.0.0.0:*    users:((\"node\",pid=1234,fd=23))\n\
        LISTEN 0      128             [::]:8000         [::]:*    users:((\"python3\",pid=99,fd=5))\n\
        LISTEN 0      128          0.0.0.0:22        0.0.0.0:*\n";
    let apps = parse_scan(out);
    assert_eq!(apps.len(), 3);
    assert_eq!(
        apps[0],
        RemoteApp { port: 22, addr: "*".into(), process: None, pid: None, ..Default::default() }
    );
    assert_eq!(apps[1].process.as_deref(), Some("node"));
    assert_eq!(apps[1].addr, "lo");
    assert_eq!(apps[2].port, 8000);
    assert_eq!(apps[2].addr, "*");
    assert_eq!(apps[2].pid, Some(99));
}

#[test]
fn parses_netstat_output() {
    let out = "@@FMT netstat\n\
        Active Internet connections (only servers)\n\
        Proto Recv-Q Send-Q Local Address           Foreign Address         State       PID/Program name\n\
        tcp        0      0 127.0.0.1:5432          0.0.0.0:*               LISTEN      888/postgres\n\
        tcp6       0      0 :::8080                 :::*                    LISTEN      -\n";
    let apps = parse_scan(out);
    assert_eq!(apps.len(), 2);
    assert_eq!(apps[0].port, 5432);
    assert_eq!(apps[0].process.as_deref(), Some("postgres"));
    assert_eq!(apps[1].port, 8080);
    assert_eq!(apps[1].addr, "*");
    assert!(apps[1].process.is_none());
}

#[test]
fn parses_proc_output_with_map() {
    let out = "@@FMT proc\n\
        sl  local_address rem_address   st tx_queue rx_queue tr tm->when retrnsmt   uid  timeout inode\n\
        0: 0100007F:0BB8 00000000:0000 0A 00000000:00000000 00:00000000 00000000  1000 0 5555 1\n\
        1: 00000000:1F90 00000000:0000 0A 00000000:00000000 00:00000000 00000000  1000 0 6666 1\n\
        2: 0100007F:1234 0200007F:0050 01 00000000:00000000 00:00000000 00000000  1000 0 7777 1\n\
        0: 00000000000000000000000001000000:0FA0 00000000000000000000000000000000:0000 0A 00000000:00000000 00:00000000 00000000  1000 0 8888 1\n\
        @@MAP\n\
        5555 4242 node\n\
        8888 4300 my web app\n";
    let apps = parse_scan(out);
    assert_eq!(apps.len(), 3); // established socket excluded
    assert_eq!(
        apps[0],
        RemoteApp {
            port: 3000,
            addr: "lo".into(),
            process: Some("node".into()),
            pid: Some(4242),
            ..Default::default()
        }
    );
    assert_eq!(
        apps[1],
        RemoteApp {
            port: 4000,
            addr: "lo".into(),
            process: Some("my web app".into()),
            pid: Some(4300),
            ..Default::default()
        }
    );
    assert_eq!(
        apps[2],
        RemoteApp { port: 8080, addr: "*".into(), process: None, pid: None, ..Default::default() }
    );
}

#[test]
fn dedupes_v4_v6_same_port() {
    let out = "@@FMT ss\n\
        LISTEN 0 128 0.0.0.0:9000 0.0.0.0:*\n\
        LISTEN 0 128 [::]:9000 [::]:* users:((\"gunicorn\",pid=7,fd=5))\n";
    let apps = parse_scan(out);
    assert_eq!(apps.len(), 1);
    assert_eq!(apps[0].process.as_deref(), Some("gunicorn"));
}

#[test]
fn system_filter() {
    let sshd = RemoteApp {
        port: 2222,
        addr: "*".into(),
        process: Some("sshd".into()),
        pid: None,
        ..Default::default()
    };
    assert!(is_system(&sshd, 2222));
    let app = RemoteApp {
        port: 3000,
        addr: "lo".into(),
        process: Some("node".into()),
        pid: None,
        ..Default::default()
    };
    assert!(!is_system(&app, 22));
    let dns = RemoteApp {
        port: 53,
        addr: "lo".into(),
        process: None,
        pid: None,
        ..Default::default()
    };
    assert!(is_system(&dns, 22));
}

fn listener(port: u16, addr: &str, process: Option<&str>) -> RemoteApp {
    RemoteApp {
        port,
        addr: addr.into(),
        process: process.map(|p| p.into()),
        ..Default::default()
    }
}

#[test]
fn listings_have_each_port_once_in_order() {
    let apps = dedupe(vec![
        listener(9000, "10.0.0.1", None),
        listener(80, "lo", Some("nginx")),
        listener(9000, "*", Some("app")),
        listener(9000, "lo", Some("other")),
    ]);
    assert_eq!(apps, vec![listener(80, "lo", Some("nginx")), listener(9000, "*", Some("app"))]);
}

#[test]
fn listeners_before_a_format_are_not_heard() {
    assert!(parse_scan("LISTEN 0 128 0.0.0.0:9000 0.0.0.0:*\n").is_empty());
    assert!(parse_scan("").is_empty());
}

#[test]
fn infrastructure_is_known_by_its_process() {
    assert!(is_system(&listener(8125, "*", Some("avahi-daemon")), 22));
    assert!(is_system(&listener(8125, "*", Some("\"master\"")), 22));
    assert!(!is_system(&listener(8125, "*", Some("masters")), 22));
}

#[test]
fn the_script_is_handed_out_whole() {
    assert_eq!(script(), SCAN_SCRIPT);
    assert!(SCAN_SCRIPT.starts_with("LANG=C; export LANG\n"));
}
