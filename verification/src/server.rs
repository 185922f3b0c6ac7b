//! A server's own state and the decisions it takes: whom to ask to step
//! down in an election, how to rejoin under a fresh id after stepping down,
//! and how to record another server's change of id.

use vstd::prelude::*;
use crate::decimal::{format_i32, parse_i32, spec_format_i32, spec_parse_i32, lemma_parse_format_roundtrip};
use crate::directory::{
    highest_id, id_value, ids_numeric, is_highest_id, keys_distinct, lemma_highest_id_exists,
    lemma_highest_id_unique, lowest_id, pairs_view, IdTable,
};
use crate::headers::{
    header_values_are_text, headers_view, last_header_text, last_value, lemma_last_value_absent,
    lemma_last_value_ignores_other_headers, lemma_last_value_is_last_named, text_or_empty, values_are_text,
    HeaderField,
};
use vstd::utf8::decode_utf8;
use crate::protocol::{
    failure_request, failure_request_view, id_change_request, id_change_request_view,
    lemma_id_change_request_reads_back, OutgoingRequest,
};

verus! {

/// The table every server starts from: ids `0`, `1` and `2` at the three
/// given addresses.
pub open spec fn initial_table(ip1: Seq<char>, ip2: Seq<char>, ip3: Seq<char>) -> Map<Seq<char>, Seq<char>> {
    Map::<Seq<char>, Seq<char>>::empty().insert("0"@, ip1).insert("1"@, ip2).insert("2"@, ip3)
}

/// What a server knows: every server's id and address, its own id, and
/// whether it is asleep.
pub struct ServersInfo {
    pub id_to_ip: IdTable,
    pub my_id: String,
    pub is_asleep: bool,
}

impl ServersInfo {
    /// The state of a server that starts with id `my_id` in a cluster of the
    /// three servers at `ip1`, `ip2` and `ip3`, ids `0`, `1` and `2`.
    pub fn new(ip1: String, ip2: String, ip3: String, my_id: String) -> (res: ServersInfo)
        ensures
            res.id_to_ip@ == initial_table(ip1@, ip2@, ip3@),
            res.my_id@ == my_id@,
            !res.is_asleep,
    {
        let mut table = IdTable::new();
        table.insert("0".to_owned(), ip1);
        table.insert("1".to_owned(), ip2);
        table.insert("2".to_owned(), ip3);
        ServersInfo { id_to_ip: table, my_id, is_asleep: false }
    }
}

/// A server of the cluster.
pub struct Server {
    pub servers_info: ServersInfo,
}

/// What a server does when asked to start an election.
pub enum ElectionAction {
    /// The lowest id is the server's own: it steps down itself.
    StepDown,
    /// Send this request, which asks the server with the lowest id to step down.
    AskToStepDown(OutgoingRequest),
    /// The lowest id, written out, is not an id of the table: nothing is sent.
    LowestUnreachable,
}

/// The outcome of starting an election: the lowest id found, and the action.
pub struct ElectionPlan {
    pub lowest_id: i32,
    pub action: ElectionAction,
}

/// An election can be decided: every id reads as a number, and the server's
/// own id does too where the decision needs it.
pub open spec fn election_decidable(m: Map<Seq<char>, Seq<char>>, my_id: Seq<char>) -> bool {
    &&& ids_numeric(m)
    &&& m.contains_key(spec_format_i32(lowest_id(m))) ==> spec_parse_i32(my_id) is Some
}

/// A server can step down and rejoin: it finds its own id in its table,
/// every id reads as a number, and there is a number above the greatest id.
pub open spec fn rejoin_possible(m: Map<Seq<char>, Seq<char>>, my_id: Seq<char>) -> bool {
    &&& m.contains_key(my_id)
    &&& ids_numeric(m)
    &&& highest_id(m) < i32::MAX
}

/// The id a server takes when it rejoins: one above the greatest id.
pub open spec fn rejoin_id(m: Map<Seq<char>, Seq<char>>) -> i32 {
    (highest_id(m) + 1) as i32
}

/// The table after the server with id `my_id` rejoined: its old id is gone
/// and its address is now under the rejoin id.
pub open spec fn rejoined_table(m: Map<Seq<char>, Seq<char>>, my_id: Seq<char>) -> Map<Seq<char>, Seq<char>> {
    m.remove(my_id).insert(spec_format_i32(rejoin_id(m)), m[my_id])
}

/// The headers of an id change can be read: every `old_id`, `new_id` and
/// `new_ip` header carries UTF-8.
pub open spec fn id_change_readable(hs: Seq<(Seq<char>, Seq<u8>)>) -> bool {
    &&& values_are_text(hs, "old_id"@)
    &&& values_are_text(hs, "new_id"@)
    &&& values_are_text(hs, "new_ip"@)
}

/// The table after recording the id change that headers `hs` announce: the
/// last `old_id` is dropped, then the last `new_id` is entered at the last
/// `new_ip` (a missing header reads as the empty text).
pub open spec fn id_change_applied(m: Map<Seq<char>, Seq<char>>, hs: Seq<(Seq<char>, Seq<u8>)>) -> Map<Seq<char>, Seq<char>> {
    m.remove(text_or_empty(last_value(hs, "old_id"@))).insert(
        text_or_empty(last_value(hs, "new_id"@)),
        text_or_empty(last_value(hs, "new_ip"@)),
    )
}

/// A server's rejoin: its new id, the other servers (id and address), and
/// for each of them, in the same order, the notice of the change to send.
pub struct Rejoin {
    pub new_id: i32,
    pub peers: Vec<(String, String)>,
    pub notices: Vec<OutgoingRequest>,
}

impl Server {
    /// A server that starts with id `my_id` among the three servers at
    /// `ip1`, `ip2` and `ip3`.
    pub fn new(ip1: String, ip2: String, ip3: String, my_id: String) -> (res: Server)
        ensures
            res.servers_info.id_to_ip@ == initial_table(ip1@, ip2@, ip3@),
            res.servers_info.my_id@ == my_id@,
            !res.servers_info.is_asleep,
    {
        Server { servers_info: ServersInfo::new(ip1, ip2, ip3, my_id) }
    }

    /// Whether an election can be decided in the current state.
    pub fn can_decide_election(&self) -> (res: bool)
        ensures
            res == election_decidable(self.servers_info.id_to_ip@, self.servers_info.my_id@),
    {
        let table = &self.servers_info.id_to_ip;
        if !table.all_ids_numeric() {
            return false;
        }
        let low = table.lowest_id();
        let key = format_i32(low);
        if table.contains(&key) {
            parse_i32(self.servers_info.my_id.as_str()).is_some()
        } else {
            true
        }
    }

    /// Decides an election: finds the lowest id of the table; the server
    /// with that id is to step down, by itself if it is this server, else on
    /// request.
    pub fn plan_election(&self) -> (res: ElectionPlan)
        requires
            election_decidable(self.servers_info.id_to_ip@, self.servers_info.my_id@),
        ensures
            res.lowest_id == lowest_id(self.servers_info.id_to_ip@),
            ({
                let m = self.servers_info.id_to_ip@;
                let key = spec_format_i32(res.lowest_id);
                if !m.contains_key(key) {
                    res.action is LowestUnreachable
                } else if id_value(self.servers_info.my_id@) == res.lowest_id {
                    res.action is StepDown
                } else {
                    res.action matches ElectionAction::AskToStepDown(r) && r@ == failure_request_view(m[key])
                }
            }),
    {
        let table = &self.servers_info.id_to_ip;
        let low = table.lowest_id();
        let key = format_i32(low);
        match table.get(&key) {
            Some(ip) => {
                let mine = parse_i32(self.servers_info.my_id.as_str());
                if low == mine.unwrap() {
                    ElectionPlan { lowest_id: low, action: ElectionAction::StepDown }
                } else {
                    ElectionPlan { lowest_id: low, action: ElectionAction::AskToStepDown(failure_request(&ip)) }
                }
            },
            None => ElectionPlan { lowest_id: low, action: ElectionAction::LowestUnreachable },
        }
    }

    /// Marks the server as asleep: it has stepped down for a while.
    pub fn go_to_sleep(&mut self)
        ensures
            final(self).servers_info.is_asleep,
            final(self).servers_info.id_to_ip@ == old(self).servers_info.id_to_ip@,
            final(self).servers_info.my_id@ == old(self).servers_info.my_id@,
    {
        self.servers_info.is_asleep = true;
    }

    /// Marks the server as awake again.
    pub fn wake_up(&mut self)
        ensures
            !final(self).servers_info.is_asleep,
            final(self).servers_info.id_to_ip@ == old(self).servers_info.id_to_ip@,
            final(self).servers_info.my_id@ == old(self).servers_info.my_id@,
    {
        self.servers_info.is_asleep = false;
    }

    /// Whether the server can rejoin in the current state.
    pub fn can_rejoin(&self) -> (res: bool)
        ensures
            res == rejoin_possible(self.servers_info.id_to_ip@, self.servers_info.my_id@),
    {
        let table = &self.servers_info.id_to_ip;
        if !table.contains(&self.servers_info.my_id) || !table.all_ids_numeric() {
            return false;
        }
        table.highest_id() < i32::MAX
    }

    /// Rejoins after stepping down: the server takes the id one above the
    /// greatest id of its table, keeps its address, drops its old id, and
    /// returns a notice of the change for every other server.
    pub fn rejoin_under_new_id(&mut self) -> (res: Rejoin)
        requires
            rejoin_possible(old(self).servers_info.id_to_ip@, old(self).servers_info.my_id@),
        ensures
            ({
                let m = old(self).servers_info.id_to_ip@;
                let old_id = old(self).servers_info.my_id@;
                let new_key = spec_format_i32(res.new_id);
                &&& res.new_id == rejoin_id(m)
                &&& final(self).servers_info.id_to_ip@ == rejoined_table(m, old_id)
                &&& final(self).servers_info.my_id@ == new_key
                &&& final(self).servers_info.is_asleep == old(self).servers_info.is_asleep
                &&& keys_distinct(res.peers@)
                &&& pairs_view(res.peers@) == rejoined_table(m, old_id).remove(new_key)
                &&& res.notices.len() == res.peers.len()
                &&& forall|i: int| 0 <= i < res.peers.len() ==> (#[trigger] res.notices@[i])@
                    == id_change_request_view(res.peers@[i].1@, old_id, new_key, m[old_id])
            }),
    {
        let ghost m = self.servers_info.id_to_ip@;
        let ghost old_id = self.servers_info.my_id@;
        let my_ip = self.servers_info.id_to_ip.get(&self.servers_info.my_id).unwrap();
        let high = self.servers_info.id_to_ip.highest_id();
        proof {
            lemma_highest_id_unique(m, high);
        }
        self.servers_info.id_to_ip.remove(&self.servers_info.my_id);
        let new_id = high + 1;
        let new_key = format_i32(new_id);
        self.servers_info.id_to_ip.insert(new_key.clone(), my_ip.clone());
        let peers = self.servers_info.id_to_ip.pairs_without(&new_key);
        let mut notices: Vec<OutgoingRequest> = Vec::new();
        let mut i: usize = 0;
        while i < peers.len()
            invariant
                i <= peers.len(),
                notices.len() == i,
                self.servers_info.my_id@ == old_id,
                forall|j: int| 0 <= j < i ==> (#[trigger] notices@[j])@
                    == id_change_request_view(peers@[j].1@, old_id, new_key@, my_ip@),
            decreases peers.len() - i,
        {
            let notice = id_change_request(&peers[i].1, &self.servers_info.my_id, &new_key, &my_ip);
            notices.push(notice);
            i = i + 1;
        }
        self.servers_info.my_id = new_key;
        Rejoin { new_id, peers, notices }
    }

    /// Whether `headers` can be read as an id change.
    pub fn id_change_headers_readable(headers: &Vec<HeaderField>) -> (res: bool)
        ensures
            res == id_change_readable(headers_view(headers@)),
    {
        header_values_are_text(headers, &"old_id".to_owned()) && header_values_are_text(headers, &"new_id".to_owned())
            && header_values_are_text(headers, &"new_ip".to_owned())
    }

    /// Records the id change another server announces in `headers`.
    pub fn broadcast_id(&mut self, headers: &Vec<HeaderField>)
        requires
            id_change_readable(headers_view(headers@)),
        ensures
            final(self).servers_info.id_to_ip@ == id_change_applied(old(self).servers_info.id_to_ip@, headers_view(headers@)),
            final(self).servers_info.my_id@ == old(self).servers_info.my_id@,
            final(self).servers_info.is_asleep == old(self).servers_info.is_asleep,
    {
        let old_id = last_header_text(headers, &"old_id".to_owned());
        let new_id = last_header_text(headers, &"new_id".to_owned());
        let new_ip = last_header_text(headers, &"new_ip".to_owned());
        self.servers_info.id_to_ip.remove(&old_id);
        self.servers_info.id_to_ip.insert(new_id, new_ip);
    }
}

/// A server that rejoins comes last in line: its new id is above every
/// other id of the table, every id still reads as a number, and the new id
/// is the greatest.
pub proof fn lemma_rejoined_server_is_last_in_line(m: Map<Seq<char>, Seq<char>>, my_id: Seq<char>)
    requires
        m.dom().finite(),
        rejoin_possible(m, my_id),
    ensures
        ({
            let t = rejoined_table(m, my_id);
            let n = rejoin_id(m);
            let new_key = spec_format_i32(n);
            &&& ids_numeric(t)
            &&& t.contains_key(new_key)
            &&& id_value(new_key) == n
            &&& forall|k: Seq<char>| #[trigger] t.contains_key(k) && k != new_key ==> id_value(k) < n
            &&& is_highest_id(t, n)
        }),
{
    lemma_highest_id_exists(m);
    let t = rejoined_table(m, my_id);
    let n = rejoin_id(m);
    let new_key = spec_format_i32(n);
    lemma_parse_format_roundtrip(n);
    assert forall|k: Seq<char>| #[trigger] t.contains_key(k) && k != new_key implies id_value(k) < n by {
        assert(m.contains_key(k));
    }
    assert forall|k: Seq<char>| #[trigger] t.contains_key(k) implies spec_parse_i32(k) is Some by {
        if k != new_key {
            assert(m.contains_key(k));
        }
    }
    assert(t.contains_key(new_key) && id_value(new_key) == n);
    assert forall|k: Seq<char>| #[trigger] t.contains_key(k) implies id_value(k) <= n by {
        if k != new_key {
            assert(m.contains_key(k));
        }
    }
}

/// Rejoining changes a server's id, never who is in the cluster: the table
/// keeps its size and its set of addresses.
pub proof fn lemma_rejoin_keeps_cluster(m: Map<Seq<char>, Seq<char>>, my_id: Seq<char>)
    requires
        m.dom().finite(),
        rejoin_possible(m, my_id),
    ensures
        ({
            let t = rejoined_table(m, my_id);
            &&& !m.contains_key(spec_format_i32(rejoin_id(m)))
            &&& t.dom().finite()
            &&& t.dom().len() == m.dom().len()
            &&& t.values() == m.values()
        }),
{
    lemma_highest_id_exists(m);
    let t = rejoined_table(m, my_id);
    let n = rejoin_id(m);
    let new_key = spec_format_i32(n);
    lemma_parse_format_roundtrip(n);
    if m.contains_key(new_key) {
        assert(id_value(new_key) <= highest_id(m));
    }
    assert(t.dom() =~= m.dom().remove(my_id).insert(new_key));
    assert forall|v: Seq<char>| #[trigger] t.values().contains(v) == m.values().contains(v) by {
        if t.values().contains(v) {
            let k = choose|k: Seq<char>| #[trigger] t.contains_key(k) && t[k] == v;
            if k == new_key {
                assert(m.contains_key(my_id) && m[my_id] == v);
            } else {
                assert(m.contains_key(k) && m[k] == v);
            }
        }
        if m.values().contains(v) {
            let k = choose|k: Seq<char>| #[trigger] m.contains_key(k) && m[k] == v;
            if k == my_id {
                assert(t.contains_key(new_key) && t[new_key] == v);
            } else {
                assert(t.contains_key(k) && t[k] == v);
            }
        }
    }
    assert(t.values() =~= m.values());
}

/// The notice a rejoining server sends brings every server whose table
/// agreed with the old one into agreement with the new one.
pub proof fn lemma_notice_brings_replica_in_step(m: Map<Seq<char>, Seq<char>>, my_id: Seq<char>, url: Seq<char>)
    ensures
        ({
            let hs = id_change_request_view(url, my_id, spec_format_i32(rejoin_id(m)), m[my_id]).1;
            &&& id_change_readable(hs)
            &&& id_change_applied(m, hs) == rejoined_table(m, my_id)
        }),
{
    lemma_id_change_request_reads_back(url, my_id, spec_format_i32(rejoin_id(m)), m[my_id]);
}

/// In a fresh cluster every id reads as a number and the first election
/// asks the server with id `0` to step down.
pub proof fn lemma_first_election_targets_server_zero(ip1: Seq<char>, ip2: Seq<char>, ip3: Seq<char>)
    ensures
        ids_numeric(initial_table(ip1, ip2, ip3)),
        lowest_id(initial_table(ip1, ip2, ip3)) == 0,
        initial_table(ip1, ip2, ip3).contains_key(spec_format_i32(0)),
        initial_table(ip1, ip2, ip3)[spec_format_i32(0)] == ip1,
{
    broadcast use vstd::string::group_string_axioms;
    reveal_strlit("0");
    reveal_strlit("1");
    reveal_strlit("2");
    let m = initial_table(ip1, ip2, ip3);
    assert("0"@ =~= seq!['0']);
    assert("1"@ =~= seq!['1']);
    assert("2"@ =~= seq!['2']);
    assert(spec_format_i32(0) =~= "0"@);
    lemma_parse_format_roundtrip(0);
    lemma_parse_format_roundtrip(1);
    lemma_parse_format_roundtrip(2);
    assert(spec_format_i32(1) =~= "1"@);
    assert(spec_format_i32(2) =~= "2"@);
    assert(id_value("0"@) == 0);
    assert(id_value("1"@) == 1);
    assert(id_value("2"@) == 2);
    assert forall|k: Seq<char>| #[trigger] m.contains_key(k) implies 0 <= id_value(k) && spec_parse_i32(k) is Some by {
        assert(k == "0"@ || k == "1"@ || k == "2"@);
    }
    assert(m.contains_key("0"@));
    assert(crate::directory::is_lowest_id(m, 0));
    crate::directory::lemma_lowest_id_unique(m, 0);
}

/// The id, new id and new address an id change announces.
pub open spec fn id_change_fields(hs: Seq<(Seq<char>, Seq<u8>)>) -> (Seq<char>, Seq<char>, Seq<char>) {
    (
        text_or_empty(last_value(hs, "old_id"@)),
        text_or_empty(last_value(hs, "new_id"@)),
        text_or_empty(last_value(hs, "new_ip"@)),
    )
}

/// Two id changes about different servers can be recorded in either order
/// with the same result.
pub proof fn lemma_disjoint_id_changes_commute(
    m: Map<Seq<char>, Seq<char>>,
    h1: Seq<(Seq<char>, Seq<u8>)>,
    h2: Seq<(Seq<char>, Seq<u8>)>,
)
    requires
        id_change_readable(h1),
        id_change_readable(h2),
        id_change_fields(h1).0 != id_change_fields(h2).0,
        id_change_fields(h1).0 != id_change_fields(h2).1,
        id_change_fields(h1).1 != id_change_fields(h2).0,
        id_change_fields(h1).1 != id_change_fields(h2).1,
    ensures
        id_change_applied(id_change_applied(m, h1), h2) == id_change_applied(id_change_applied(m, h2), h1),
{
    assert(id_change_applied(id_change_applied(m, h1), h2) =~= id_change_applied(id_change_applied(m, h2), h1));
}

/// `k` is an id in the form `i32::to_string` writes.
pub open spec fn canonical_id(k: Seq<char>) -> bool {
    spec_parse_i32(k) is Some && spec_format_i32(id_value(k)) == k
}

/// Every id of the table is in the form `i32::to_string` writes.
pub open spec fn ids_canonical(m: Map<Seq<char>, Seq<char>>) -> bool {
    forall|k: Seq<char>| #[trigger] m.contains_key(k) ==> canonical_id(k)
}

/// An id change that renames an id of the table to a fresh id in canonical
/// form keeps the table's size, and keeps every id canonical (so every id
/// still reads as a number).
pub proof fn lemma_fresh_id_change_keeps_table_shape(m: Map<Seq<char>, Seq<char>>, hs: Seq<(Seq<char>, Seq<u8>)>)
    requires
        m.dom().finite(),
        ids_canonical(m),
        id_change_readable(hs),
        m.contains_key(id_change_fields(hs).0),
        canonical_id(id_change_fields(hs).1),
        !m.remove(id_change_fields(hs).0).contains_key(id_change_fields(hs).1),
    ensures
        id_change_applied(m, hs).dom().finite(),
        id_change_applied(m, hs).dom().len() == m.dom().len(),
        ids_canonical(id_change_applied(m, hs)),
        ids_numeric(id_change_applied(m, hs)),
{
    let (o, n, _) = id_change_fields(hs);
    let t = id_change_applied(m, hs);
    assert(t.dom() =~= m.dom().remove(o).insert(n));
    assert forall|k: Seq<char>| #[trigger] t.contains_key(k) implies canonical_id(k) by {
        if k != n {
            assert(m.contains_key(k));
        }
    }
}

/// An election can always be decided when every id of the table and the
/// server's own id read as numbers.
pub proof fn lemma_election_decidable_when_ids_numeric(m: Map<Seq<char>, Seq<char>>, my_id: Seq<char>)
    requires
        ids_numeric(m),
        spec_parse_i32(my_id) is Some,
    ensures
        election_decidable(m, my_id),
{
}

/// In a fresh cluster, server `0` can decide an election and finds that its
/// own id is the lowest, written out as an id of the table: it steps down
/// itself.
pub proof fn lemma_fresh_cluster_server_zero_steps_down(ip1: Seq<char>, ip2: Seq<char>, ip3: Seq<char>)
    ensures
        election_decidable(initial_table(ip1, ip2, ip3), "0"@),
        initial_table(ip1, ip2, ip3).contains_key(spec_format_i32(lowest_id(initial_table(ip1, ip2, ip3)))),
        id_value("0"@) == lowest_id(initial_table(ip1, ip2, ip3)),
{
    broadcast use vstd::string::group_string_axioms;
    reveal_strlit("0");
    lemma_first_election_targets_server_zero(ip1, ip2, ip3);
    lemma_parse_format_roundtrip(0);
    assert(spec_format_i32(0) =~= "0"@);
}

/// A server can rejoin whenever its own id is in its table, every id reads
/// as a number, and every id is below `i32::MAX`.
pub proof fn lemma_rejoin_possible_below_max(m: Map<Seq<char>, Seq<char>>, my_id: Seq<char>)
    requires
        m.dom().finite(),
        m.contains_key(my_id),
        ids_numeric(m),
        forall|k: Seq<char>| #[trigger] m.contains_key(k) ==> id_value(k) < i32::MAX,
    ensures
        rejoin_possible(m, my_id),
{
    lemma_highest_id_exists(m);
    let k = choose|k: Seq<char>| #[trigger] m.contains_key(k) && id_value(k) == highest_id(m);
    assert(m.contains_key(my_id));
    assert(highest_id(m) != i32::MIN ==> m.contains_key(k) && id_value(k) == highest_id(m));
    assert(id_value(my_id) <= highest_id(m));
}

/// Recording an id change drops the announced old id, keeps every other
/// entry, and enters the announced new id at the text of the last `new_ip`
/// header, wherever it stands (the empty text when there is none).
pub proof fn lemma_id_change_entries(m: Map<Seq<char>, Seq<char>>, hs: Seq<(Seq<char>, Seq<u8>)>)
    ensures
        ({
            let t = id_change_applied(m, hs);
            let (o, n, p) = id_change_fields(hs);
            &&& t.contains_key(n) && t[n] == p
            &&& forall|k: Seq<char>| k != n ==> (#[trigger] t.contains_key(k) <==> m.contains_key(k) && k != o)
            &&& forall|k: Seq<char>| k != n && #[trigger] t.contains_key(k) ==> t[k] == m[k]
        }),
{
}

/// The address an id change enters is the value of the last `new_ip` header,
/// whatever headers stand around it.
pub proof fn lemma_id_change_enters_last_new_ip(m: Map<Seq<char>, Seq<char>>, hs: Seq<(Seq<char>, Seq<u8>)>, i: int)
    requires
        0 <= i < hs.len(),
        hs[i].0 == "new_ip"@,
        forall|j: int| i < j < hs.len() ==> (#[trigger] hs[j]).0 != "new_ip"@,
    ensures
        id_change_applied(m, hs)[text_or_empty(last_value(hs, "new_id"@))] == decode_utf8(hs[i].1),
{
    lemma_last_value_is_last_named(hs, "new_ip"@, i);
}

/// An id change without a `new_ip` header enters the new id with the empty
/// address.
pub proof fn lemma_id_change_without_new_ip(m: Map<Seq<char>, Seq<char>>, hs: Seq<(Seq<char>, Seq<u8>)>)
    requires
        forall|j: int| 0 <= j < hs.len() ==> (#[trigger] hs[j]).0 != "new_ip"@,
    ensures
        id_change_applied(m, hs)[text_or_empty(last_value(hs, "new_id"@))] == Seq::<char>::empty(),
{
    lemma_last_value_absent(hs, "new_ip"@);
}

/// Adding a header of any name other than `old_id`, `new_id` and `new_ip`,
/// at any place, does not change what recording the id change does.
pub proof fn lemma_id_change_ignores_other_headers(
    m: Map<Seq<char>, Seq<char>>,
    hs: Seq<(Seq<char>, Seq<u8>)>,
    pos: int,
    h: (Seq<char>, Seq<u8>),
)
    requires
        0 <= pos <= hs.len(),
        h.0 != "old_id"@,
        h.0 != "new_id"@,
        h.0 != "new_ip"@,
    ensures
        id_change_applied(m, hs.insert(pos, h)) == id_change_applied(m, hs),
{
    lemma_last_value_ignores_other_headers(hs, "old_id"@, pos, h);
    lemma_last_value_ignores_other_headers(hs, "new_id"@, pos, h);
    lemma_last_value_ignores_other_headers(hs, "new_ip"@, pos, h);
}

} // verus!
