use leader_election::balancer::{pick_election_server, Forwarder};
use leader_election::stats::{RequestTally, TallyReport};

#[test]
fn forwarder_rotates_over_servers() {
    let mut f = Forwarder::new(3);
    let seen: Vec<usize> = (0..7).map(|_| f.next_target()).collect();
    assert_eq!(seen, vec![0, 1, 2, 0, 1, 2, 0]);
}

#[test]
fn forwarder_single_server() {
    let mut f = Forwarder::new(1);
    assert_eq!(f.next_target(), 0);
    assert_eq!(f.next_target(), 0);
}

#[test]
fn election_server_pick_stays_in_range() {
    let mut hits = [0usize; 3];
    for _ in 0..300 {
        let i = pick_election_server(3).unwrap();
        assert!(i < 3);
        hits[i] += 1;
    }
    assert!(hits.iter().all(|h| *h > 0));
    assert_eq!(pick_election_server(1), Some(0));
}

#[test]
fn tally_reports_every_thousandth_accepted_connection() {
    let mut t = RequestTally::new();
    let mut reports = Vec::new();
    for n in 1..=2000i64 {
        let accepted = n % 10 != 0;
        if let Some(r) = t.record(accepted) {
            reports.push(r);
        }
    }
    assert_eq!(t.total_count(), 2000);
    assert!(reports.is_empty());
    let mut t = RequestTally::new();
    let mut reports = Vec::new();
    for n in 1..=2000i64 {
        let accepted = n % 7 != 0;
        if let Some(r) = t.record(accepted) {
            reports.push(r);
        }
    }
    assert_eq!(
        reports,
        vec![
            TallyReport { total: 1000, failed: 142, successful: 858 },
            TallyReport { total: 2000, failed: 285, successful: 1715 },
        ]
    );
    assert!(t.has_room());
}
