use leader_election::headers::HeaderField;
use leader_election::protocol::{id_change_request, requested_function, RemoteCall};
use leader_election::server::{ElectionAction, Server};

fn s(text: &str) -> String {
    text.to_string()
}

fn fresh(my_id: &str) -> Server {
    Server::new(s("http://a"), s("http://b"), s("http://c"), s(my_id))
}

fn sorted_pairs(server: &Server) -> Vec<(String, String)> {
    let mut p = server.servers_info.id_to_ip.to_pairs();
    p.sort();
    p
}

#[test]
fn new_server_knows_three_peers() {
    let server = fresh("1");
    assert_eq!(server.servers_info.my_id, "1");
    assert!(!server.servers_info.is_asleep);
    assert_eq!(
        sorted_pairs(&server),
        vec![(s("0"), s("http://a")), (s("1"), s("http://b")), (s("2"), s("http://c"))]
    );
}

#[test]
fn election_asks_lowest_server_to_step_down() {
    let server = fresh("1");
    assert!(server.can_decide_election());
    let plan = server.plan_election();
    assert_eq!(plan.lowest_id, 0);
    match plan.action {
        ElectionAction::AskToStepDown(req) => {
            assert_eq!(req.url, "http://a");
            assert_eq!(requested_function(&req.headers), RemoteCall::ForceFailure);
        },
        _ => panic!("expected a step-down request"),
    }
}

#[test]
fn election_on_lowest_server_steps_down_itself() {
    let server = fresh("0");
    let plan = server.plan_election();
    assert_eq!(plan.lowest_id, 0);
    assert!(matches!(plan.action, ElectionAction::StepDown));
}

#[test]
fn election_with_non_canonical_lowest_id_finds_nobody() {
    let mut server = fresh("1");
    server.servers_info.id_to_ip.remove(&s("0"));
    server.servers_info.id_to_ip.insert(s("00"), s("http://a"));
    let plan = server.plan_election();
    assert_eq!(plan.lowest_id, 0);
    assert!(matches!(plan.action, ElectionAction::LowestUnreachable));
}

#[test]
fn election_on_empty_table() {
    let mut server = fresh("1");
    for id in ["0", "1", "2"] {
        server.servers_info.id_to_ip.remove(&s(id));
    }
    let plan = server.plan_election();
    assert_eq!(plan.lowest_id, i32::MAX);
    assert!(matches!(plan.action, ElectionAction::LowestUnreachable));
}

#[test]
fn election_not_decidable_with_text_ids() {
    let mut server = fresh("1");
    server.servers_info.id_to_ip.insert(s("boss"), s("http://d"));
    assert!(!server.can_decide_election());
    let mut server = fresh("me");
    assert!(!server.can_decide_election());
    server.servers_info.id_to_ip.remove(&s("0"));
    server.servers_info.id_to_ip.remove(&s("1"));
    server.servers_info.id_to_ip.remove(&s("2"));
    assert!(server.can_decide_election());
}

#[test]
fn rejoin_takes_the_next_highest_id() {
    let mut server = fresh("0");
    server.go_to_sleep();
    assert!(server.servers_info.is_asleep);
    server.wake_up();
    assert!(!server.servers_info.is_asleep);
    assert!(server.can_rejoin());
    let rejoin = server.rejoin_under_new_id();
    assert_eq!(rejoin.new_id, 3);
    assert_eq!(server.servers_info.my_id, "3");
    assert_eq!(
        sorted_pairs(&server),
        vec![(s("1"), s("http://b")), (s("2"), s("http://c")), (s("3"), s("http://a"))]
    );
    assert_eq!(rejoin.peers.len(), 2);
    assert_eq!(rejoin.notices.len(), 2);
    for (peer, notice) in rejoin.peers.iter().zip(rejoin.notices.iter()) {
        assert_eq!(notice.url, peer.1);
        assert_eq!(requested_function(&notice.headers), RemoteCall::BroadcastId);
    }
    let plan = server.plan_election();
    assert_eq!(plan.lowest_id, 1);
}

#[test]
fn rejoin_refused_when_own_id_missing_or_at_the_top() {
    let mut server = fresh("7");
    assert!(!server.can_rejoin());
    server.servers_info.id_to_ip.insert(s("2147483647"), s("http://z"));
    server.servers_info.id_to_ip.insert(s("7"), s("http://y"));
    assert!(!server.can_rejoin());
}

#[test]
fn notice_brings_other_servers_in_step() {
    let mut leader = fresh("0");
    let mut follower = fresh("2");
    let rejoin = leader.rejoin_under_new_id();
    for notice in rejoin.notices.iter() {
        let received: Vec<HeaderField> =
            notice.headers.iter().map(|h| HeaderField { name: h.name.clone(), value: h.value.clone() }).collect();
        assert!(Server::id_change_headers_readable(&received));
        follower.broadcast_id(&received);
        assert_eq!(sorted_pairs(&follower), sorted_pairs(&leader));
    }
    assert_eq!(follower.servers_info.my_id, "2");
}

#[test]
fn broadcast_with_missing_headers_uses_empty_text() {
    let mut server = fresh("1");
    let headers = vec![HeaderField { name: s("new_id"), value: b"9".to_vec() }];
    server.broadcast_id(&headers);
    assert_eq!(server.servers_info.id_to_ip.get(&s("9")), Some(String::new()));
    assert_eq!(server.servers_info.id_to_ip.to_pairs().len(), 4);
}

#[test]
fn broadcast_with_non_text_value_is_unreadable() {
    let headers = vec![HeaderField { name: s("new_ip"), value: vec![0xff] }];
    assert!(!Server::id_change_headers_readable(&headers));
}

#[test]
fn id_change_request_applied_directly() {
    let mut server = fresh("2");
    let req = id_change_request(&s("http://b"), &s("1"), &s("5"), &s("http://b2"));
    server.broadcast_id(&req.headers);
    assert_eq!(
        sorted_pairs(&server),
        vec![(s("0"), s("http://a")), (s("2"), s("http://c")), (s("5"), s("http://b2"))]
    );
}

#[test]
fn disjoint_id_changes_commute() {
    let first = id_change_request(&s("x"), &s("0"), &s("3"), &s("http://a3"));
    let second = id_change_request(&s("x"), &s("1"), &s("4"), &s("http://b4"));
    let mut one = fresh("2");
    one.broadcast_id(&first.headers);
    one.broadcast_id(&second.headers);
    let mut other = fresh("2");
    other.broadcast_id(&second.headers);
    other.broadcast_id(&first.headers);
    assert_eq!(sorted_pairs(&one), sorted_pairs(&other));
}

#[test]
fn fresh_id_change_keeps_table_size_and_numeric_ids() {
    let mut server = fresh("2");
    let notice = id_change_request(&s("x"), &s("1"), &s("3"), &s("http://b"));
    server.broadcast_id(&notice.headers);
    assert_eq!(server.servers_info.id_to_ip.to_pairs().len(), 3);
    assert!(server.servers_info.id_to_ip.all_ids_numeric());
    assert!(server.can_decide_election());
}
