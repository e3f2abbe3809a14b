//! The table of mapped ports: which listening socket reports which port
//! number to its clients.

use vstd::prelude::*;

verus! {

/// An IP address as sockets compare them: the version and the address bits.
#[derive(Clone, Copy, Debug, PartialEq, Eq)]
pub enum IpKey {
    V4(u32),
    V6(u128),
}

/// A socket address as std's `SocketAddr` compares them: address, port,
/// and for IPv6 also the flow information and the scope id.
#[derive(Clone, Copy, Debug, PartialEq, Eq)]
pub struct SockKey {
    pub ip: IpKey,
    pub port: u16,
    pub flowinfo: u32,
    pub scope_id: u32,
}

/// One listener specification: an address and the ports to listen on.
#[derive(Clone, Copy, Debug, PartialEq, Eq)]
pub struct Config {
    pub start_port: u16,
    pub end_port: u16,
    pub mapped_port: Option<u16>,
    pub listener_ip: IpKey,
}

/// The socket address a listener binds for `ip` and `port`.
pub open spec fn key_at(ip: IpKey, port: u16) -> SockKey {
    SockKey { ip, port, flowinfo: 0, scope_id: 0 }
}

/// `c` binds `k` and asks for a mapped port.
pub open spec fn config_maps(c: Config, k: SockKey) -> bool {
    &&& c.mapped_port is Some
    &&& k == key_at(c.listener_ip, k.port)
    &&& c.start_port <= k.port <= c.end_port
}

/// The mapped port of the first configuration in `cs` that maps `k`.
pub open spec fn first_mapping(cs: Seq<Config>, k: SockKey) -> Option<u16>
    decreases cs.len(),
{
    if cs.len() == 0 {
        None
    } else {
        match first_mapping(cs.drop_last(), k) {
            Some(v) => Some(v),
            None => if config_maps(cs.last(), k) {
                cs.last().mapped_port
            } else {
                None
            },
        }
    }
}

/// The table `m` after the mappings of `cs` are added: a socket that already
/// has an entry keeps it, and otherwise the first configuration mapping it wins.
pub open spec fn extended(m: Map<SockKey, u16>, cs: Seq<Config>) -> Map<SockKey, u16> {
    Map::new(
        |k: SockKey| m.contains_key(k) || first_mapping(cs, k) is Some,
        |k: SockKey|
            if m.contains_key(k) {
                m[k]
            } else {
                first_mapping(cs, k).unwrap()
            },
    )
}

/// The sockets for `ip` and the ports `lo..=hi`, in increasing port order,
/// that have no entry in `m`.
pub open spec fn fresh_keys(m: Map<SockKey, u16>, ip: IpKey, lo: int, hi: int) -> Seq<SockKey>
    decreases hi - lo + 1,
{
    if hi < lo {
        Seq::empty()
    } else {
        let k = key_at(ip, hi as u16);
        fresh_keys(m, ip, lo, hi - 1) + if m.contains_key(k) {
            Seq::<SockKey>::empty()
        } else {
            seq![k]
        }
    }
}

/// The sockets that get a new entry when `cs` is added to `m`, in the order
/// they get it: configuration by configuration, port by port.
pub open spec fn new_keys(m: Map<SockKey, u16>, cs: Seq<Config>) -> Seq<SockKey>
    decreases cs.len(),
{
    if cs.len() == 0 {
        Seq::empty()
    } else {
        let c = cs.last();
        new_keys(m, cs.drop_last()) + match c.mapped_port {
            None => Seq::<SockKey>::empty(),
            Some(_) => fresh_keys(
                extended(m, cs.drop_last()),
                c.listener_ip,
                c.start_port as int,
                c.end_port as int,
            ),
        }
    }
}

/// Which port each mapped listening socket reports.
pub struct PortMap {
    entries: Vec<(SockKey, u16)>,
}

/// The table that a list of entries describes; a later entry for the same
/// socket replaces an earlier one.
pub open spec fn map_of(s: Seq<(SockKey, u16)>) -> Map<SockKey, u16>
    decreases s.len(),
{
    if s.len() == 0 {
        Map::empty()
    } else {
        map_of(s.drop_last()).insert(s.last().0, s.last().1)
    }
}

impl View for PortMap {
    type V = Map<SockKey, u16>;

    closed spec fn view(&self) -> Map<SockKey, u16> {
        map_of(self.entries@)
    }
}

proof fn lemma_map_of_suffix(s: Seq<(SockKey, u16)>, i: int, k: SockKey)
    requires
        0 <= i <= s.len(),
        forall|j: int| i <= j < s.len() ==> s[j].0 != k,
    ensures
        map_of(s).contains_key(k) == map_of(s.take(i)).contains_key(k),
        map_of(s)[k] == map_of(s.take(i))[k],
    decreases s.len() - i,
{
    if i < s.len() {
        lemma_map_of_suffix(s.drop_last(), i, k);
        assert(s.drop_last().take(i) == s.take(i));
    } else {
        assert(s.take(i) == s);
    }
}

fn same_ip(a: IpKey, b: IpKey) -> (r: bool)
    ensures
        r == (a == b),
{
    match (a, b) {
        (IpKey::V4(x), IpKey::V4(y)) => x == y,
        (IpKey::V6(x), IpKey::V6(y)) => x == y,
        _ => false,
    }
}

fn same_key(a: &SockKey, b: &SockKey) -> (r: bool)
    ensures
        r == (*a == *b),
{
    same_ip(a.ip, b.ip) && a.port == b.port && a.flowinfo == b.flowinfo && a.scope_id == b.scope_id
}

impl PortMap {
    /// The empty table.
    pub fn new() -> (m: PortMap)
        ensures
            m@ == Map::<SockKey, u16>::empty(),
    {
        PortMap { entries: Vec::new() }
    }

    /// The port reported for `key`, if it has one.
    pub fn get(&self, key: &SockKey) -> (r: Option<u16>)
        ensures
            r == (if self@.contains_key(*key) {
                Some(self@[*key])
            } else {
                None
            }),
    {
        let mut i: usize = self.entries.len();
        while i > 0
            invariant
                i <= self.entries.len(),
                forall|j: int| i <= j < self.entries@.len() ==> self.entries@[j].0 != *key,
            decreases i,
        {
            let e = self.entries[i - 1];
            if same_key(&e.0, key) {
                proof {
                    lemma_map_of_suffix(self.entries@, i as int, *key);
                    assert(self.entries@.take(i as int).drop_last() == self.entries@.take(i - 1));
                }
                return Some(e.1);
            }
            i = i - 1;
        }
        proof {
            lemma_map_of_suffix(self.entries@, 0, *key);
            assert(map_of(self.entries@.take(0)) == Map::<SockKey, u16>::empty());
        }
        None
    }

    /// Records that `key` reports `value`, unless `key` already has an entry;
    /// says whether it was recorded.
    pub fn insert_if_absent(&mut self, key: SockKey, value: u16) -> (inserted: bool)
        ensures
            inserted == !old(self)@.contains_key(key),
            final(self)@ == (if inserted {
                old(self)@.insert(key, value)
            } else {
                old(self)@
            }),
    {
        if self.get(&key).is_some() {
            false
        } else {
            let ghost before = self.entries@;
            self.entries.push((key, value));
            assert(self.entries@.drop_last() == before);
            true
        }
    }

    /// Adds the mappings of `configs`, in order, as the listener set-up does:
    /// for each configuration with a mapped port, each socket it binds gets
    /// that port unless it already has an entry. Returns the sockets that
    /// got a new entry, each once.
    pub fn extend_with(&mut self, configs: &Vec<Config>) -> (added: Vec<SockKey>)
        ensures
            final(self)@ == extended(old(self)@, configs@),
            added@ == new_keys(old(self)@, configs@),
            forall|i: int|
                0 <= i < added@.len() ==> !old(self)@.contains_key(#[trigger] added@[i])
                    && final(self)@.contains_key(added@[i]),
            forall|k: SockKey|
                final(self)@.contains_key(k) && !old(self)@.contains_key(k) ==> added@.contains(k),
            forall|i: int, j: int| 0 <= i < j < added@.len() ==> added@[i] != added@[j],
    {
        let ghost m0 = self@;
        let mut added: Vec<SockKey> = Vec::new();
        let mut i: usize = 0;
        assert(extended(m0, configs@.take(0)) =~= m0);
        while i < configs.len()
            invariant
                i <= configs.len(),
                self@ == extended(m0, configs@.take(i as int)),
                added@ == new_keys(m0, configs@.take(i as int)),
                forall|a: int|
                    0 <= a < added@.len() ==> !m0.contains_key(#[trigger] added@[a])
                        && self@.contains_key(added@[a]),
                forall|k: SockKey|
                    self@.contains_key(k) && !m0.contains_key(k) ==> added@.contains(k),
                forall|a: int, b: int| 0 <= a < b < added@.len() ==> added@[a] != added@[b],
            decreases configs.len() - i,
        {
            let c = configs[i];
            let ghost before = self@;
            let ghost prefix = configs@.take(i as int);
            let ghost next = configs@.take(i + 1);
            assert(next.drop_last() == prefix);
            assert(next.last() == c);
            match c.mapped_port {
                None => {
                    assert(extended(m0, next) =~= before);
                    assert(added@ =~= new_keys(m0, next));
                },
                Some(mp) => {
                    let end: u32 = c.end_port as u32;
                    let mut q: u32 = c.start_port as u32;
                    while q <= end
                        invariant
                            c == configs@[i as int],
                            c.mapped_port == Some(mp),
                            end == c.end_port,
                            c.start_port <= q,
                            q <= end + 1 || q == c.start_port,
                            before == extended(m0, prefix),
                            prefix == configs@.take(i as int),
                            added@ == new_keys(m0, prefix) + fresh_keys(
                                before,
                                c.listener_ip,
                                c.start_port as int,
                                q - 1,
                            ),
                            self@ == Map::new(
                                |k: SockKey|
                                    before.contains_key(k) || (k == key_at(c.listener_ip, k.port)
                                        && c.start_port <= k.port < q),
                                |k: SockKey|
                                    if before.contains_key(k) {
                                        before[k]
                                    } else {
                                        mp
                                    },
                            ),
                            forall|a: int|
                                0 <= a < added@.len() ==> !m0.contains_key(#[trigger] added@[a])
                                    && self@.contains_key(added@[a]),
                            forall|k: SockKey|
                                self@.contains_key(k) && !m0.contains_key(k) ==> added@.contains(k),
                            forall|a: int, b: int|
                                0 <= a < b < added@.len() ==> added@[a] != added@[b],
                        decreases end + 1 - q,
                    {
                        let key = SockKey { ip: c.listener_ip, port: q as u16, flowinfo: 0, scope_id: 0 };
                        let ghost pre = self@;
                        let ghost pre_added = added@;
                        assert(pre.contains_key(key) == before.contains_key(key));
                        assert(fresh_keys(before, c.listener_ip, c.start_port as int, q as int)
                            == fresh_keys(before, c.listener_ip, c.start_port as int, q - 1) + if before.contains_key(key) {
                            Seq::<SockKey>::empty()
                        } else {
                            seq![key]
                        });
                        if self.insert_if_absent(key, mp) {
                            added.push(key);
                            assert forall|a: int, b: int|
                                0 <= a < b < added@.len() implies added@[a] != added@[b] by {
                                if b == added@.len() - 1 {
                                    assert(pre.contains_key(pre_added[a]));
                                }
                            }
                            assert forall|k: SockKey|
                                self@.contains_key(k) && !m0.contains_key(k) implies added@.contains(k) by {
                                if k != key {
                                    assert(pre.contains_key(k));
                                    let w = choose|w: int| 0 <= w < pre_added.len() && pre_added[w] == k;
                                    assert(added@[w] == k);
                                } else {
                                    assert(added@[added@.len() - 1] == k);
                                }
                            }
                        }
                        q = q + 1;
                    }
                    assert(self@ =~= extended(m0, next));
                    assert(fresh_keys(before, c.listener_ip, c.start_port as int, q - 1)
                        == fresh_keys(before, c.listener_ip, c.start_port as int, c.end_port as int));
                    assert(added@ == new_keys(m0, next));
                },
            }
            i = i + 1;
        }
        assert(configs@.take(configs.len() as int) == configs@);
        added
    }
}

/// Adding the same configurations a second time changes nothing: the second
/// pass over the listeners (for UDP after TCP) leaves the table as the first
/// pass made it.
pub proof fn law_extend_is_idempotent(m: Map<SockKey, u16>, cs: Seq<Config>)
    ensures
        extended(extended(m, cs), cs) == extended(m, cs),
{
    assert(extended(extended(m, cs), cs) =~= extended(m, cs));
}

/// An entry, once made, never changes: adding configurations keeps every
/// socket that already has a reported port at that port.
pub proof fn law_entries_are_kept(m: Map<SockKey, u16>, cs: Seq<Config>, k: SockKey)
    requires
        m.contains_key(k),
    ensures
        extended(m, cs).contains_key(k),
        extended(m, cs)[k] == m[k],
{
}

proof fn lemma_first_mapping(cs: Seq<Config>, i: int, k: SockKey)
    requires
        0 <= i < cs.len(),
        config_maps(cs[i], k),
        forall|j: int| 0 <= j < i ==> !config_maps(#[trigger] cs[j], k),
    ensures
        first_mapping(cs, k) == cs[i].mapped_port,
    decreases cs.len(),
{
    if i < cs.len() - 1 {
        lemma_first_mapping(cs.drop_last(), i, k);
        assert(cs.drop_last()[i] == cs[i]);
        assert forall|j: int| 0 <= j < i implies !config_maps(#[trigger] cs.drop_last()[j], k) by {
            assert(cs.drop_last()[j] == cs[j]);
        }
    } else {
        lemma_no_mapping(cs.drop_last(), k);
        assert forall|j: int| 0 <= j < cs.drop_last().len() implies !config_maps(#[trigger] cs.drop_last()[j], k) by {
            assert(cs.drop_last()[j] == cs[j]);
        }
    }
}

proof fn lemma_no_mapping(cs: Seq<Config>, k: SockKey)
    ensures
        (forall|j: int| 0 <= j < cs.len() ==> !config_maps(#[trigger] cs[j], k)) ==> first_mapping(cs, k) is None,
    decreases cs.len(),
{
    if cs.len() > 0 {
        lemma_no_mapping(cs.drop_last(), k);
        if forall|j: int| 0 <= j < cs.len() ==> !config_maps(#[trigger] cs[j], k) {
            assert forall|j: int| 0 <= j < cs.drop_last().len() implies !config_maps(#[trigger] cs.drop_last()[j], k) by {
                assert(cs.drop_last()[j] == cs[j]);
            }
            assert(!config_maps(cs[cs.len() - 1], k));
        }
    }
}

/// On a socket without an entry, the first configuration that maps it
/// decides the reported port; later configurations for the same socket are
/// ignored.
pub proof fn law_first_configuration_wins(m: Map<SockKey, u16>, cs: Seq<Config>, i: int, k: SockKey)
    requires
        !m.contains_key(k),
        0 <= i < cs.len(),
        config_maps(cs[i], k),
        forall|j: int| 0 <= j < i ==> !config_maps(#[trigger] cs[j], k),
    ensures
        extended(m, cs).contains_key(k),
        Some(extended(m, cs)[k]) == cs[i].mapped_port,
{
    lemma_first_mapping(cs, i, k);
}

/// Spelled out on the socket's fields: a socket without an entry, bound by
/// configuration `i` (same address, no flow information or scope id, port
/// within its range) which has mapped port `mp`, and bound with a mapping by
/// no earlier configuration, reports `mp`.
pub proof fn law_socket_gets_first_mapping(
    m: Map<SockKey, u16>,
    cs: Seq<Config>,
    i: int,
    mp: u16,
    k: SockKey,
)
    requires
        !m.contains_key(k),
        0 <= i < cs.len(),
        cs[i].mapped_port == Some(mp),
        cs[i].listener_ip == k.ip,
        k.flowinfo == 0 && k.scope_id == 0,
        cs[i].start_port <= k.port <= cs[i].end_port,
        forall|j: int|
            0 <= j < i ==> (#[trigger] cs[j]).mapped_port is None || cs[j].listener_ip != k.ip
                || k.port < cs[j].start_port || k.port > cs[j].end_port,
    ensures
        extended(m, cs).contains_key(k),
        extended(m, cs)[k] == mp,
{
    assert(config_maps(cs[i], k));
    assert forall|j: int| 0 <= j < i implies !config_maps(#[trigger] cs[j], k) by {}
    law_first_configuration_wins(m, cs, i, k);
}

/// Spelled out on the socket's fields: a socket that no configuration binds
/// with a mapping gets no new entry, and neither does one with flow
/// information or a scope id.
pub proof fn law_other_sockets_get_no_entry(m: Map<SockKey, u16>, cs: Seq<Config>, k: SockKey)
    requires
        k.flowinfo != 0 || k.scope_id != 0 || forall|j: int|
            0 <= j < cs.len() ==> (#[trigger] cs[j]).mapped_port is None || cs[j].listener_ip
                != k.ip || k.port < cs[j].start_port || k.port > cs[j].end_port,
    ensures
        extended(m, cs).contains_key(k) == m.contains_key(k),
{
    assert forall|j: int| 0 <= j < cs.len() implies !config_maps(#[trigger] cs[j], k) by {}
    lemma_no_mapping(cs, k);
}

/// A socket that no configuration maps, and that had no entry, gets none.
pub proof fn law_unmapped_sockets_stay_unmapped(m: Map<SockKey, u16>, cs: Seq<Config>, k: SockKey)
    requires
        !m.contains_key(k),
        forall|j: int| 0 <= j < cs.len() ==> !config_maps(#[trigger] cs[j], k),
    ensures
        !extended(m, cs).contains_key(k),
{
    lemma_no_mapping(cs, k);
}

} // verus!
