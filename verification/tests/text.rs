use ssh_autoport::addr::{decode_hex_addr, split_addr_port};
use ssh_autoport::control::{socket_dir_of, socket_path_of};
use ssh_autoport::text::{
    chars_of, decimal_of, lines_of, port_of, text_of, text_precedes, trim_of, uint_of, words_of,
};

fn cs(s: &str) -> Vec<char> {
    chars_of(s)
}

fn strings(v: Vec<Vec<char>>) -> Vec<String> {
    v.iter().map(|c| text_of(c)).collect()
}

#[test]
fn decimals_read_back() {
    for n in [0u64, 9, 10, 65535, 65536, u64::MAX] {
        assert_eq!(decimal_of(n), n.to_string());
        assert_eq!(uint_of(&cs(&decimal_of(n)), 10, u64::MAX), Some(n));
    }
    assert_eq!(port_of(&cs("65535")), Some(65535));
    assert_eq!(port_of(&cs("65536")), None);
    assert_eq!(port_of(&cs("+22")), Some(22));
    assert_eq!(port_of(&cs("")), None);
    assert_eq!(port_of(&cs("+")), None);
    assert_eq!(port_of(&cs("-1")), None);
    assert_eq!(uint_of(&cs("fF"), 16, 255), Some(255));
}

#[test]
fn texts_are_taken_apart_as_std_does() {
    for s in ["", "\n", "a\nb", "a\r\nb\n", "\r", "a\n\nb\n\n", " x\u{3000}y ", "\u{a0}z\t"] {
        let want: Vec<String> = s.lines().map(|l| l.to_string()).collect();
        assert_eq!(strings(lines_of(&cs(s))), want);
        let want: Vec<String> = s.split_whitespace().map(|w| w.to_string()).collect();
        assert_eq!(strings(words_of(&cs(s))), want);
        assert_eq!(text_of(trim_of(&cs(s))), s.trim());
    }
}

#[test]
fn texts_are_ordered_as_std_does() {
    let all = ["", "a", "ab", "b", "B", "é", "\u{ffff}", "\u{10000}"];
    for a in all {
        for b in all {
            assert_eq!(text_precedes(a, b), a < b);
        }
    }
}

#[test]
fn listening_addresses_are_normalized() {
    let at = |s: &str| split_addr_port(&cs(s));
    assert_eq!(at("0.0.0.0:80"), Some(("*".to_string(), 80)));
    assert_eq!(at("*:80"), Some(("*".to_string(), 80)));
    assert_eq!(at("[::]:80"), Some(("*".to_string(), 80)));
    assert_eq!(at("127.0.0.53:53"), Some(("lo".to_string(), 53)));
    assert_eq!(at("[::1]:631"), Some(("lo".to_string(), 631)));
    assert_eq!(at("[0:0:0:0:0:0:0:1]:631"), Some(("lo".to_string(), 631)));
    assert_eq!(at("10.0.0.1:22"), Some(("10.0.0.1".to_string(), 22)));
    assert_eq!(at("[fe80::1]:22"), Some(("fe80::1".to_string(), 22)));
    assert_eq!(at("127.0.0.053:53"), Some(("127.0.0.053".to_string(), 53)));
    assert_eq!(at("nothing"), None);
    assert_eq!(at("h:99999"), None);
}

#[test]
fn kernel_addresses_are_decoded() {
    let at = |s: &str| decode_hex_addr(&cs(s));
    assert_eq!(at("0100007F:0BB8"), Some(("lo".to_string(), 3000)));
    assert_eq!(at("00000000:1F90"), Some(("*".to_string(), 8080)));
    assert_eq!(at("0101A8C0:0016"), Some(("192.168.1.1".to_string(), 22)));
    assert_eq!(at("00000000000000000000000001000000:0FA0"), Some(("lo".to_string(), 4000)));
    assert_eq!(at("00000000000000000000000000000000:0FA0"), Some(("*".to_string(), 4000)));
    assert_eq!(
        at("0000000000000000FFFF00000101A8C0:0FA0"),
        Some(("192.168.1.1".to_string(), 4000))
    );
    assert_eq!(at("000080FE000000000000000001000000:0FA0"), Some(("fe80::1".to_string(), 4000)));
    assert_eq!(
        at("B80D0120000000000000000001000000:1F90"),
        Some(("2001:db8::1".to_string(), 8080))
    );
    assert_eq!(at("0100007F"), None);
    assert_eq!(at("010000:0016"), None);
    assert_eq!(at("0100007G:0016"), None);
}

#[test]
fn kernel_ipv6_addresses_are_literal() {
    for (bytes, addr) in [
        ("B80D0120000000000000000001000000", "2001:db8::1"),
        ("000080FE00000000CDAB341210000F00", "fe80::1234:abcd:f:10"),
        // No run, a run of one, and one at either end.
        ("02000100040003000600050008000700", "1:2:3:4:5:6:7:8"),
        ("00000100040003000600050008000700", "1:0:3:4:5:6:7:8"),
        ("00000000040003000600050008000700", "::3:4:5:6:7:8"),
        ("02000100040003000600050000000000", "1:2:3:4:5:6::"),
        ("00000100000000000000000000000000", "1::"),
        ("00000000000000000000000002000000", "::2"),
        // The longest run counts, and of two the first.
        ("00000100040000000000000008000000", "1:0:0:4::8"),
        ("00000100040000000000050008000000", "1::4:5:0:0:8"),
        ("02000000000000000600050000000700", "0:2::5:6:7:0"),
        ("0000000000000000FEFF000004030201", "::fffe:102:304"),
    ] {
        let at = format!("{bytes}:1F90");
        assert_eq!(decode_hex_addr(&cs(&at)), Some((addr.to_string(), 8080)));
    }
}

#[test]
fn own_sockets_carry_the_name() {
    for runtime in [Some("/run/user/1".to_string()), None] {
        let dir = socket_dir_of(&runtime, "/tmp", &None);
        assert!(socket_path_of(&dir, "bob@h:22").contains("ssh-autoport"));
    }
}
