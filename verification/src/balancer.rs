//! The balancer's decisions: which server receives the next client request,
//! and which server is asked to start the periodic election.

use vstd::prelude::*;

verus! {

/// The server `steps` places after `start` in the rotation over `count`
/// servers.
pub open spec fn rotation_target(start: nat, count: nat, steps: nat) -> nat {
    (start + steps) % count
}

/// Hands out server indices in a fixed rotation: each attempt to deliver a
/// client request, whether it succeeds or not, goes to the next server.
pub struct Forwarder {
    next: usize,
    servers: usize,
}

impl Forwarder {
    #[verifier::type_invariant]
    spec fn inv(self) -> bool {
        0 < self.servers && self.next < self.servers
    }

    /// The index the next attempt goes to.
    pub closed spec fn next_index(&self) -> nat {
        self.next as nat
    }

    /// The number of servers in the rotation.
    pub closed spec fn server_count(&self) -> nat {
        self.servers as nat
    }

    /// A rotation over `servers` servers that starts with the first.
    pub fn new(servers: usize) -> (res: Forwarder)
        requires
            servers > 0,
        ensures
            res.next_index() == 0,
            res.server_count() == servers,
    {
        Forwarder { next: 0, servers }
    }

    /// The index of the server to try now; the rotation moves on by one.
    pub fn next_target(&mut self) -> (res: usize)
        ensures
            res == old(self).next_index(),
            res < old(self).server_count(),
            final(self).server_count() == old(self).server_count(),
            final(self).next_index() == rotation_target(old(self).next_index(), old(self).server_count(), 1),
    {
        proof {
            use_type_invariant(&*self);
        }
        let current = self.next;
        self.next = (self.next + 1) % self.servers;
        current
    }
}

/// Walking the rotation one step at a time from `start` reaches, after
/// `steps + 1` steps, the server one after the one reached after `steps`.
pub proof fn lemma_rotation_step(start: nat, count: nat, steps: nat)
    requires
        count > 0,
    ensures
        rotation_target(rotation_target(start, count, steps), count, 1) == rotation_target(start, count, steps + 1),
{
    let c = count as int;
    let a = (start + steps) as int;
    vstd::arithmetic::div_mod::lemma_add_mod_noop_right(1, a, c);
    assert((a % c) + 1 == 1 + (a % c));
}

/// Any `count` consecutive attempts reach every one of the `count` servers.
pub proof fn lemma_rotation_visits_every_server(start: nat, count: nat, server: nat)
    requires
        start < count,
        server < count,
    ensures
        exists|steps: nat| steps < count && rotation_target(start, count, steps) == server,
{
    let steps: nat = if server >= start { (server - start) as nat } else { (server + count - start) as nat };
    if server >= start {
        vstd::arithmetic::div_mod::lemma_small_mod(server, count);
    } else {
        vstd::arithmetic::div_mod::lemma_mod_add_multiples_vanish(server as int, count as int);
        vstd::arithmetic::div_mod::lemma_small_mod(server, count);
    }
    assert(rotation_target(start, count, steps) == server);
}

#[verifier::external_type_specification]
#[verifier::external_body]
pub struct ExStdRng(rand::rngs::StdRng);

/// A seed filled from the operating system's generator with
/// `RngCore::try_fill_bytes` on `OsRng`.
///
/// Trusted: `None` when the operating system reports an error; nothing is
/// stated of the seed's bytes.
#[verifier::external_body]
fn os_seed() -> Option<[u8; 32]> {
    let mut seed = [0u8; 32];
    match rand::RngCore::try_fill_bytes(&mut rand::rngs::OsRng, &mut seed) {
        Ok(()) => Some(seed),
        Err(_) => None,
    }
}

/// The generator `StdRng::from_seed(seed)`.
///
/// Trusted: nothing is stated of the generator.
#[verifier::external_body]
fn seeded_generator(seed: [u8; 32]) -> rand::rngs::StdRng {
    <rand::rngs::StdRng as rand::SeedableRng>::from_seed(seed)
}

/// A number drawn with `gen_range(0..=upper)`.
///
/// Trusted: the number lies in `0..=upper`; which one is chance.
#[verifier::external_body]
fn index_up_to(rng: &mut rand::rngs::StdRng, upper: usize) -> (res: usize)
    ensures
        res <= upper,
{
    rand::Rng::gen_range(rng, 0..=upper)
}

/// Picks, at random, which of the `servers` servers is asked to start the
/// next election; `None` when the operating system supplies no randomness.
pub fn pick_election_server(servers: usize) -> (res: Option<usize>)
    requires
        servers > 0,
    ensures
        res matches Some(i) ==> i < servers,
{
    match os_seed() {
        Some(seed) => {
            let mut rng = seeded_generator(seed);
            Some(index_up_to(&mut rng, servers - 1))
        },
        None => None,
    }
}

} // verus!
