use ssh_autoport::ports::{
    find_free, has_port, listed_user, listing_commands, probe_list, who_uses,
};
use ssh_autoport::util::Output;

fn printed(stdout: &str) -> Result<Output, String> {
    Ok(Output { success: true, stdout: stdout.as_bytes().to_vec(), stderr: Vec::new() })
}

#[test]
fn first_usable_preference_wins() {
    assert_eq!(find_free(&[3000, 4000], &[], &[3000, 4000], Some(50000)), Some(3000));
    assert_eq!(find_free(&[3000, 4000], &[3000], &[3000, 4000], Some(50000)), Some(4000));
    assert_eq!(find_free(&[3000, 4000], &[], &[4000], Some(50000)), Some(4000));
    assert_eq!(find_free(&[3000], &[], &[], Some(50000)), Some(50000));
    assert_eq!(find_free(&[3000], &[], &[], None), None);
}

#[test]
fn privileged_ports_are_never_picked() {
    assert_eq!(find_free(&[80, 1023, 1024], &[], &[80, 1023, 1024], Some(50000)), Some(1024));
    assert_eq!(find_free(&[80], &[], &[80], Some(50000)), Some(50000));
}

#[test]
fn only_candidates_are_probed() {
    assert_eq!(probe_list(&[80, 3000, 4000, 5000], &[4000]), vec![3000, 5000]);
    assert!(has_port(&[1, 2], 2));
    assert!(!has_port(&[1, 2], 3));
}

#[test]
fn probing_the_candidates_loses_nothing() {
    let tries = probe_list(&[80, 3000, 4000], &[]);
    assert_eq!(tries, vec![3000, 4000]);
    // More ports were claimed after the probing.
    assert_eq!(find_free(&[80, 3000, 4000], &[3000], &tries, None), Some(4000));
}

#[test]
fn holder_is_named_by_ss() {
    let ss = "State Recv-Q Send-Q Local Address:Port Peer Address:Port Process\n\
        LISTEN 0 5 0.0.0.0:8123 0.0.0.0:* users:((\"python3\",pid=77,fd=3))\n";
    assert_eq!(listed_user(ss, 8123), Some("used by \"python3\"".to_string()));
    assert_eq!(listed_user(ss, 123), None);
}

#[test]
fn holder_is_named_by_netstat() {
    let ns = "tcp 0 0 127.0.0.1:5432 0.0.0.0:* LISTEN 888/postgres\n";
    assert_eq!(
        who_uses(&vec![printed("nothing here"), printed(ns)], 5432),
        "used by \"postgres\""
    );
    assert_eq!(
        who_uses(&vec![Err("no ss".to_string()), printed(ns)], 5432),
        "used by \"postgres\""
    );
}

#[test]
fn unknown_holders_stay_unknown() {
    let ss = "LISTEN 0 5 0.0.0.0:8123 0.0.0.0:*\n";
    assert_eq!(who_uses(&vec![printed(ss)], 8123), "already in use by another process");
    assert_eq!(who_uses(&vec![], 8123), "already in use by another process");
}

#[test]
fn two_commands_list_the_listeners() {
    let cs = listing_commands();
    assert_eq!(cs.len(), 2);
    assert_eq!(cs[0].program, "ss");
    assert_eq!(cs[1].program, "netstat");
    assert_eq!(cs[0].args, vec!["-tlnp"]);
    assert_eq!(cs[1].args, vec!["-tlnp"]);
    assert_eq!(cs[1].timeout_secs, 3);
}

#[test]
fn invalid_bytes_in_a_listing_are_replaced() {
    let out = b"LISTEN 0 5 0.0.0.0:8123 0.0.0.0:* users:((\"p\xff3\",pid=77,fd=3))\n";
    let ran = Ok(Output { success: true, stdout: out.to_vec(), stderr: Vec::new() });
    assert_eq!(who_uses(&vec![ran], 8123), "used by \"p\u{fffd}3\"");
}
