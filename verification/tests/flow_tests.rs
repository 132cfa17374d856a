use l7extract::cursor::ByteCursor;
use l7extract::flow::{CookieRecord, FlowState, Packet, L4_TCP};
use l7extract::tls::extract_tls_sni;

const UDP: u8 = 17;

fn hello(name: &[u8]) -> Vec<u8> {
    let n = name.len();
    let mut out: Vec<u8> = vec![22, 3, 3, 0, (n + 56) as u8, 1, 0, 0, (n + 52) as u8, 3, 3];
    out.extend_from_slice(&[7u8; 32]);
    out.extend_from_slice(&[0, 0, 2, 0, 0x2f, 1, 0, 0, (n + 9) as u8]);
    out.extend_from_slice(&[0, 0, 0, (n + 5) as u8, 0, (n + 3) as u8, 0, 0, n as u8]);
    out.extend_from_slice(name);
    out
}

fn tcp(raw_len: u32, payload: &[u8]) -> Packet<'_> {
    Packet { packet_raw_len: raw_len, l4_type: L4_TCP, l7_payload: payload }
}

fn sorted(records: &[CookieRecord]) -> Vec<(bool, String)> {
    let mut out: Vec<(bool, String)> = records.iter().map(|r| (r.origin, r.value.clone())).collect();
    out.sort();
    out
}

#[test]
fn hello_helper_builds_a_client_hello() {
    let payload = hello(b"example.com");
    let mut cursor = ByteCursor::new(&payload);
    assert_eq!(extract_tls_sni(&mut cursor), Some("example.com"));
}

#[test]
fn fresh_flow_is_empty() {
    let mut flow = FlowState::new();
    assert_eq!(flow.byte_count(), 0);
    assert_eq!(flow.cookie_count(), 0);
    assert_eq!(flow.tls_sni(), "");
    let summary = flow.on_flow_terminate();
    assert_eq!(summary.byte_count, 0);
    assert_eq!(summary.count(), 0);
    assert!(summary.php_ids.is_empty());
    assert_eq!(summary.tls_sni, "");
}

#[test]
fn every_packet_counts_towards_the_bytes() {
    let mut flow = FlowState::new();
    flow.claim_l4_info(&tcp(60, b""));
    flow.claim_l4_info(&Packet { packet_raw_len: 1500, l4_type: UDP, l7_payload: b"data" });
    flow.claim_l4_info(&tcp(u32::MAX, b"GET / HTTP/1.1\r\n\r\n"));
    assert_eq!(flow.byte_count(), 60 + 1500 + u32::MAX as u64);
    assert_eq!(flow.cookie_count(), 0);
    assert_eq!(flow.tls_sni(), "");
}

#[test]
fn first_server_name_wins() {
    let mut flow = FlowState::new();
    flow.claim_l4_info(&tcp(100, &hello(b"first.example")));
    assert_eq!(flow.tls_sni(), "first.example");
    flow.claim_l4_info(&tcp(100, &hello(b"second.example")));
    assert_eq!(flow.tls_sni(), "first.example");
    let summary = flow.on_flow_terminate();
    assert_eq!(summary.tls_sni, "first.example");
    assert_eq!(summary.byte_count, 200);
}

#[test]
fn server_name_is_taken_from_the_first_packet_that_has_one() {
    let mut flow = FlowState::new();
    flow.claim_l4_info(&tcp(10, b"GET / HTTP/1.1\r\n\r\n"));
    flow.claim_l4_info(&tcp(10, &hello(b"")));
    assert_eq!(flow.tls_sni(), "");
    flow.claim_l4_info(&tcp(10, &hello(b"late.example")));
    assert_eq!(flow.tls_sni(), "late.example");
}

#[test]
fn repeated_cookie_counts_once() {
    let mut flow = FlowState::new();
    flow.claim_l4_info(&tcp(80, b"GET / HTTP/1.1\r\nCookie: PHPSESSID=aaa\r\n\r\n"));
    flow.claim_l4_info(&tcp(80, b"GET /x HTTP/1.1\r\nCookie: PHPSESSID=bbb\r\n\r\n"));
    flow.claim_l4_info(&tcp(80, b"GET /y HTTP/1.1\r\nCookie: PHPSESSID=aaa\r\n\r\n"));
    assert_eq!(flow.cookie_count(), 2);
    assert!(flow.has_cookie(false, "aaa"));
    assert!(flow.has_cookie(false, "bbb"));
    assert!(!flow.has_cookie(true, "aaa"));
    assert!(!flow.has_cookie(false, "ccc"));
    let summary = flow.on_flow_terminate();
    assert_eq!(summary.count(), 2);
    assert_eq!(
        sorted(&summary.php_ids),
        vec![(false, "aaa".to_string()), (false, "bbb".to_string())]
    );
    assert_eq!(summary.byte_count, 240);
}

#[test]
fn origin_is_part_of_the_identity() {
    let mut flow = FlowState::new();
    flow.claim_l4_info(&tcp(1, b"GET / HTTP/1.1\r\nCookie: PHPSESSID=same\r\n\r\n"));
    flow.claim_l4_info(&tcp(1, b"HTTP/1.1 200 OK\r\nSet-Cookie: PHPSESSID=same\r\n\r\n"));
    assert_eq!(flow.cookie_count(), 2);
    let summary = flow.on_flow_terminate();
    assert_eq!(
        sorted(&summary.php_ids),
        vec![(false, "same".to_string()), (true, "same".to_string())]
    );
    let flags: Vec<u8> = {
        let mut f: Vec<u8> = summary.php_ids.iter().map(|r| r.flag()).collect();
        f.sort();
        f
    };
    assert_eq!(flags, vec![0, 1]);
}

#[test]
fn packets_that_are_not_tcp_are_not_searched() {
    let mut flow = FlowState::new();
    flow.claim_l4_info(&Packet {
        packet_raw_len: 90,
        l4_type: UDP,
        l7_payload: b"GET / HTTP/1.1\r\nCookie: PHPSESSID=udp\r\n\r\n",
    });
    flow.claim_l4_info(&Packet { packet_raw_len: 90, l4_type: UDP, l7_payload: &hello(b"udp.example") });
    assert_eq!(flow.byte_count(), 180);
    assert_eq!(flow.cookie_count(), 0);
    assert_eq!(flow.tls_sni(), "");
}

#[test]
fn failed_search_leaves_the_state() {
    let mut flow = FlowState::new();
    flow.claim_l4_info(&tcp(5, b"GET / HTTP/1.1\r\nCookie: PHPSESSID=keep\r\n\r\n"));
    flow.claim_l4_info(&tcp(5, &hello(b"keep.example")));
    flow.claim_l4_info(&tcp(5, b"GET / HTTP/1.1\r\nCookie: PHPSESSID=cut"));
    flow.claim_l4_info(&tcp(5, &hello(b"other.example")[..40]));
    flow.claim_l4_info(&tcp(5, &[0xff, 0x00, 0x0a]));
    assert_eq!(flow.byte_count(), 25);
    assert_eq!(flow.cookie_count(), 1);
    assert!(flow.has_cookie(false, "keep"));
    assert_eq!(flow.tls_sni(), "keep.example");
}

#[test]
fn insert_cookie_reports_what_it_did() {
    let mut flow = FlowState::new();
    assert!(flow.insert_cookie(true, "a"));
    assert!(!flow.insert_cookie(true, "a"));
    assert!(flow.insert_cookie(false, "a"));
    assert!(flow.insert_cookie(true, "b"));
    assert!(flow.insert_cookie(true, ""));
    assert!(!flow.insert_cookie(true, ""));
    assert_eq!(flow.cookie_count(), 4);
}

#[test]
fn end_of_flow_hands_out_the_cookies() {
    let mut flow = FlowState::new();
    flow.claim_l4_info(&tcp(7, b"HTTP/1.1 200 OK\r\nSet-Cookie: PHPSESSID=s1; path=/\r\n\r\n"));
    flow.claim_l4_info(&tcp(7, &hello(b"example.com")));
    let summary = flow.on_flow_terminate();
    assert_eq!(summary.count(), 1);
    assert_eq!(sorted(&summary.php_ids), vec![(true, "s1".to_string())]);
    assert_eq!(summary.tls_sni, "example.com");
    assert_eq!(summary.byte_count, 14);
    assert_eq!(flow.cookie_count(), 0);
    assert_eq!(flow.byte_count(), 14);
    assert_eq!(flow.tls_sni(), "example.com");
    let again = flow.on_flow_terminate();
    assert_eq!(again.count(), 0);
    assert_eq!(again.tls_sni, "example.com");
}

#[test]
fn one_packet_may_give_only_one_of_the_two() {
    let mut flow = FlowState::new();
    let mut payload = b"GET / HTTP/1.1\r\nCookie: PHPSESSID=both\r\n\r\n".to_vec();
    payload.extend_from_slice(&hello(b"both.example"));
    flow.claim_l4_info(&tcp(3, &payload));
    assert!(flow.has_cookie(false, "both"));
    assert_eq!(flow.tls_sni(), "");
}
