use ssh_autoport::discover::{
    discover, discover_command, is_loopback_host, parse_config, parse_g_localforward, parse_l_spec,
    parse_ps, parse_ps_line, resolve, resolve_command, split_fwd, Resolved,
};
use ssh_autoport::util::Output;

#[test]
fn parses_plain_session() {
    let c = parse_ps_line("  1234 ssh web01").unwrap();
    assert_eq!(c.pid, 1234);
    assert_eq!(c.dest, "web01");
    assert!(c.extra.is_empty());
}

#[test]
fn parses_options_and_carries_identity_opts() {
    let c = parse_ps_line("77 /usr/bin/ssh -p 2222 -l bob -i /k/id -C -v host.example.com")
        .unwrap();
    assert_eq!(c.dest, "host.example.com");
    assert_eq!(c.extra, vec!["-p", "2222", "-l", "bob", "-i", "/k/id"]);
}

#[test]
fn parses_attached_option_value() {
    let c = parse_ps_line("9 ssh -p2222 user@h").unwrap();
    assert_eq!(c.dest, "user@h");
    assert_eq!(c.extra, vec!["-p", "2222"]);
}

#[test]
fn skips_remote_command_control_and_nonssh() {
    assert!(parse_ps_line("1 ssh host uptime").is_none());
    assert!(parse_ps_line("2 ssh -O check host").is_none());
    assert!(parse_ps_line("3 ssh -W h:22 jump").is_none());
    assert!(parse_ps_line("4 sshd: user@pts/0").is_none());
    assert!(parse_ps_line("5 ssh -M -N -S /run/ssh-autoport/x.sock host").is_none());
}

#[test]
fn keeps_user_forward_daemons_and_captures_l_specs() {
    let c = parse_ps_line("6 ssh -N -L 8080:localhost:80 -L 127.0.0.1:9090:127.0.0.1:90 web01")
        .unwrap();
    assert_eq!(c.dest, "web01");
    assert_eq!(c.lforwards, vec!["8080:localhost:80", "127.0.0.1:9090:127.0.0.1:90"]);
}

#[test]
fn parses_l_specs() {
    assert_eq!(parse_l_spec("8888:localhost:8888"), Some((8888, "localhost".into(), 8888)));
    assert_eq!(
        parse_l_spec("127.0.0.1:6006:127.0.0.1:6006"),
        Some((6006, "127.0.0.1".into(), 6006))
    );
    assert_eq!(parse_l_spec("[::1]:7000:[::1]:70"), Some((7000, "::1".into(), 70)));
    assert_eq!(parse_l_spec("nonsense"), None);
}

#[test]
fn parses_g_localforward_lines() {
    assert_eq!(parse_g_localforward("8888 [localhost]:8888"), Some((8888, 8888)));
    assert_eq!(parse_g_localforward("[127.0.0.1]:6006 [127.0.0.1]:6006"), Some((6006, 6006)));
    // Forward through the server to another machine: not this server's port.
    assert_eq!(parse_g_localforward("9999 [otherhost.internal]:80"), None);
}

#[test]
fn destination_may_follow_a_double_dash() {
    let c = parse_ps_line("10 ssh -p 22 -- web01").unwrap();
    assert_eq!(c.dest, "web01");
    assert!(parse_ps_line("10 ssh -- web01 uptime").is_none());
    assert!(parse_ps_line("10 ssh --").is_none());
}

#[test]
fn options_without_a_value_or_a_destination_are_no_session() {
    assert!(parse_ps_line("11 ssh -p").is_none());
    assert!(parse_ps_line("11 ssh -").is_none());
    assert!(parse_ps_line("11 ssh -v").is_none());
    assert!(parse_ps_line("11 ssh").is_none());
    assert!(parse_ps_line("eleven ssh web01").is_none());
    assert!(parse_ps_line("11").is_none());
}

#[test]
fn flags_may_be_grouped_before_a_value() {
    let c = parse_ps_line("12 ssh -Nvp2222 web01").unwrap();
    assert_eq!(c.extra, vec!["-p", "2222"]);
    assert_eq!(c.dest, "web01");
}

#[test]
fn sessions_are_listed_once_and_in_order() {
    let out = "3 ssh web02\n1 ssh web01\n2 ssh web01\n4 ssh -p 2222 web01\n5 vim ssh\n";
    let conns = parse_ps(out);
    let dests: Vec<(u32, &str, usize)> =
        conns.iter().map(|c| (c.pid, c.dest.as_str(), c.extra.len())).collect();
    assert_eq!(dests, vec![(1, "web01", 0), (4, "web01", 2), (3, "web02", 0)]);
}

#[test]
fn sessions_to_one_server_share_their_forwards() {
    let conns = parse_ps("10 ssh web01\n11 ssh -N -L 8080:localhost:80 web01\n");
    assert_eq!(conns.len(), 1);
    assert_eq!(conns[0].pid, 10);
    assert_eq!(conns[0].dest, "web01");
    assert_eq!(conns[0].lforwards, vec!["8080:localhost:80"]);
    let conns = parse_ps(
        "3 ssh -L 1:localhost:2 web01\n1 ssh -L 3:localhost:4 web02\n\
         2 ssh -L 5:localhost:6 -L 7:localhost:8 web01\n",
    );
    assert_eq!(conns.len(), 2);
    assert_eq!(conns[0].pid, 3);
    assert_eq!(
        conns[0].lforwards,
        vec!["1:localhost:2", "5:localhost:6", "7:localhost:8"]
    );
    assert_eq!(conns[1].lforwards, vec!["3:localhost:4"]);
}

#[test]
fn process_table_is_asked_and_read() {
    let c = discover_command();
    assert_eq!(c.program, "ps");
    assert_eq!(c.args, vec!["-eo", "pid=,args="]);
    assert_eq!(c.timeout_secs, 5);
    let ran = Ok(Output { success: true, stdout: b"7 ssh web01\n".to_vec(), stderr: Vec::new() });
    assert_eq!(discover(&ran).len(), 1);
    let failed = Ok(Output { success: false, stdout: b"7 ssh web01\n".to_vec(), stderr: Vec::new() });
    assert!(discover(&failed).is_empty());
    assert!(discover(&Err("timed out".to_string())).is_empty());
}

#[test]
fn invalid_bytes_in_the_process_table_are_replaced() {
    let ran =
        Ok(Output { success: true, stdout: b"7 ssh we\xffb01\n".to_vec(), stderr: Vec::new() });
    assert_eq!(discover(&ran)[0].dest, "we\u{fffd}b01");
}

#[test]
fn config_is_resolved() {
    let out = "user bob\nhostname web01.example.com\nport 2222\n\
        localforward 8888 [localhost]:8888\nlocalforward 9999 [other]:80\n\
        controlpath /home/bob/.ssh/cm-1\n";
    assert_eq!(
        parse_config(out),
        Some(Resolved {
            user: "bob".into(),
            hostname: "web01.example.com".into(),
            port: 2222,
            lforwards: vec![(8888, 8888)],
            control_path: Some("/home/bob/.ssh/cm-1".into()),
        })
    );
}

#[test]
fn config_without_identity_resolves_to_nothing() {
    assert_eq!(parse_config("user bob\n"), None);
    assert_eq!(parse_config(""), None);
    let none = parse_config("user bob\nhostname h\nport 22\ncontrolpath none\n").unwrap();
    assert_eq!(none.control_path, None);
}

#[test]
fn resolving_runs_ssh_without_connecting() {
    let c = resolve_command("web01", &vec!["-p".to_string(), "2222".to_string()]);
    assert_eq!(c.program, "ssh");
    assert_eq!(c.args, vec!["-G", "-p", "2222", "web01"]);
    let ran = Ok(Output {
        success: true,
        stdout: b"user bob\nhostname h\nport 22\n".to_vec(),
        stderr: Vec::new(),
    });
    assert_eq!(resolve(&ran).unwrap().hostname, "h");
    assert_eq!(resolve(&Err("no ssh".to_string())), None);
}

#[test]
fn forward_specs_split_outside_of_brackets() {
    assert_eq!(split_fwd("[::1]:7000:host:70"), vec!["::1", "7000", "host", "70"]);
    assert_eq!(split_fwd(""), vec![""]);
}

#[test]
fn loopback_has_three_names() {
    assert!(is_loopback_host("LocalHost"));
    assert!(is_loopback_host("127.0.0.1"));
    assert!(is_loopback_host("::1"));
    assert!(!is_loopback_host("localhost.localdomain"));
}

#[test]
fn forward_specs_read_back_on_concrete_ports() {
    assert_eq!(
        parse_l_spec("127.0.0.1:3001:localhost:3000"),
        Some((3001, "localhost".into(), 3000))
    );
}
