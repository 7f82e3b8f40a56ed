//! The static peer map: which key belongs to the peer at which address.

use crate::address::{unmap_addr, unmapped, IpAddress};
use crate::table::{lemma_index_of_present, lemma_table_get, lemma_table_push, lemma_table_update, table};
use crate::text::texts;
use vstd::prelude::*;

verus! {

#[derive(Debug)]
struct Peer {
    ip: IpAddress,
    key: String,
}

/// The configured peers: a map from a peer's address, in its normal form, to
/// the peer's key. It is filled at startup and only read afterwards.
#[derive(Debug)]
pub struct StaticPeerMap {
    peers: Vec<Peer>,
}

impl View for StaticPeerMap {
    type V = Map<IpAddress, Seq<char>>;

    closed spec fn view(&self) -> Map<IpAddress, Seq<char>> {
        table(self.ips(), self.keys())
    }
}

impl StaticPeerMap {
    spec fn ips(&self) -> Seq<IpAddress> {
        Seq::new(self.peers.len() as nat, |i: int| self.peers[i].ip)
    }

    spec fn keys(&self) -> Seq<Seq<char>> {
        Seq::new(self.peers.len() as nat, |i: int| self.peers[i].key@)
    }

    /// The map is well formed: no address is held twice, and every address
    /// is held in its normal form.
    pub closed spec fn wf(&self) -> bool {
        &&& self.ips().no_duplicates()
        &&& forall|i: int| 0 <= i < self.peers.len() ==> unmapped(#[trigger] self.ips()[i]) == self.ips()[i]
    }

    /// Every address of a well-formed map is in its normal form, and the
    /// addresses are finitely many.
    pub proof fn lemma_wf(&self)
        requires
            self.wf(),
        ensures
            forall|ip: IpAddress| self@.dom().contains(ip) ==> unmapped(ip) == ip,
            self@.dom().finite(),
    {
        assert forall|ip: IpAddress| self@.dom().contains(ip) implies unmapped(ip) == ip by {
            lemma_index_of_present(self.ips(), ip);
        }
        assert(self@.dom() =~= self.ips().to_set());
        vstd::seq_lib::seq_to_set_is_finite(self.ips());
    }

    fn find(&self, ip: IpAddress) -> (r: Option<usize>)
        ensures
            match r {
                Some(i) => i < self.peers.len() && self.ips()[i as int] == ip,
                None => !self.ips().contains(ip),
            },
    {
        let mut i: usize = 0;
        while i < self.peers.len()
            invariant
                i <= self.peers.len(),
                forall|j: int| 0 <= j < i ==> self.ips()[j] != ip,
            decreases self.peers.len() - i,
        {
            if self.peers[i].ip == ip {
                return Some(i);
            }
            i += 1;
        }
        None
    }

    /// The map without any peer.
    pub fn new() -> (m: StaticPeerMap)
        ensures
            m.wf(),
            m@ == Map::<IpAddress, Seq<char>>::empty(),
    {
        let m = StaticPeerMap { peers: Vec::new() };
        assert(m@ =~= Map::<IpAddress, Seq<char>>::empty());
        m
    }

    /// How many addresses the map holds.
    pub fn len(&self) -> (n: usize)
        requires
            self.wf(),
        ensures
            n == self@.dom().len(),
    {
        proof {
            assert(self@.dom() =~= self.ips().to_set());
            self.ips().unique_seq_to_set();
        }
        self.peers.len()
    }

    /// Binds the normal form of `ip` to `key`. A key bound to that address
    /// before is replaced.
    pub fn insert(&mut self, ip: IpAddress, key: String)
        requires
            old(self).wf(),
        ensures
            final(self).wf(),
            final(self)@ == old(self)@.insert(unmapped(ip), key@),
    {
        let ip = unmap_addr(ip);
        let ghost before = *self;
        let ghost text = key@;
        match self.find(ip) {
            Some(i) => {
                self.peers[i].key = key;
                proof {
                    assert(self.ips() =~= before.ips());
                    assert(self.keys() =~= before.keys().update(i as int, text));
                    lemma_table_update(before.ips(), before.keys(), i as int, text);
                }
            },
            None => {
                self.peers.push(Peer { ip, key });
                proof {
                    assert(self.ips() =~= before.ips().push(ip));
                    assert(self.keys() =~= before.keys().push(text));
                    lemma_table_push(before.ips(), before.keys(), ip, text);
                }
            },
        }
    }

    /// The key of the peer at `ip`, looked up exactly as `ip` is given.
    pub fn get(&self, ip: IpAddress) -> (r: Option<String>)
        requires
            self.wf(),
        ensures
            r is Some == self@.dom().contains(ip),
            r matches Some(k) ==> k@ == self@[ip],
    {
        match self.find(ip) {
            Some(i) => {
                proof {
                    lemma_table_get(self.ips(), self.keys(), i as int);
                }
                Some(self.peers[i].key.clone())
            },
            None => None,
        }
    }

    /// The key of the peer that connects from `source`: `source` is brought
    /// to its normal form and looked up.
    pub fn resolve(&self, source: IpAddress) -> (r: Option<String>)
        requires
            self.wf(),
        ensures
            r is Some == self@.dom().contains(unmapped(source)),
            r matches Some(k) ==> k@ == self@[unmapped(source)],
    {
        self.get(unmap_addr(source))
    }

    /// The keys of all peers, one for each address.
    pub fn peer_keys(&self) -> (r: Vec<String>)
        requires
            self.wf(),
        ensures
            r.len() == self@.dom().len(),
            texts(r@).to_set() == self@.values(),
    {
        let mut r: Vec<String> = Vec::new();
        let mut i: usize = 0;
        while i < self.peers.len()
            invariant
                i <= self.peers.len(),
                r.len() == i,
                forall|j: int| 0 <= j < i ==> r[j]@ == self.keys()[j],
            decreases self.peers.len() - i,
        {
            r.push(self.peers[i].key.clone());
            i += 1;
        }
        proof {
            assert(self@.dom() =~= self.ips().to_set());
            self.ips().unique_seq_to_set();
            assert(texts(r@) =~= self.keys());
            assert forall|k: Seq<char>| self.keys().to_set().contains(k) <==> self@.values().contains(k) by {
                if self.keys().contains(k) {
                    let j = choose|j: int| 0 <= j < self.keys().len() && self.keys()[j] == k;
                    lemma_table_get(self.ips(), self.keys(), j);
                    assert(self@.dom().contains(self.ips()[j]) && self@[self.ips()[j]] == k);
                }
                if self@.values().contains(k) {
                    let ip = choose|ip: IpAddress| self@.dom().contains(ip) && self@[ip] == k;
                    lemma_index_of_present(self.ips(), ip);
                    let j = crate::table::index_of(self.ips(), ip);
                    assert(self.keys()[j] == k);
                }
            }
            assert(self.keys().to_set() =~= self@.values());
        }
        r
    }
}

/// A connection from an IPv4 address and one from the IPv6 address that maps
/// it resolve to the same peer, or both to none.
pub proof fn mapped_source_resolves_alike(peers: Map<IpAddress, Seq<char>>, v4: u32)
    ensures
        unmapped(IpAddress::V6(crate::address::mapped_v6(v4))) == unmapped(IpAddress::V4(v4)),
        peers.dom().contains(unmapped(IpAddress::V6(crate::address::mapped_v6(v4))))
            == peers.dom().contains(unmapped(IpAddress::V4(v4))),
        peers[unmapped(IpAddress::V6(crate::address::mapped_v6(v4)))] == peers[unmapped(
            IpAddress::V4(v4),
        )],
{
    crate::address::mapped_and_plain_agree(v4);
}

} // verus!
