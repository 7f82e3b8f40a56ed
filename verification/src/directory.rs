//! The peer directory: for each configured peer, the addresses it last
//! published and the peers that have asked about it.

use crate::address::PeerAddr;
use crate::peers::StaticPeerMap;
use crate::text::texts;
use crate::table::{lemma_index_of_present, lemma_table_get, lemma_table_update, table};
use vstd::prelude::*;

verus! {

/// What the directory holds for one peer.
pub struct PeerInfoView {
    /// The addresses of the peer's latest announcement, in its order.
    pub addrs: Seq<PeerAddr>,
    /// The peers that have asked about this peer, in the order of their first
    /// question.
    pub contacts: Seq<Seq<char>>,
}

/// The directory as a map from a peer's key to what is held for that peer.
pub type DirectoryView = Map<Seq<char>, PeerInfoView>;

/// The entry of a peer that has neither announced nor been asked about.
pub open spec fn blank() -> PeerInfoView {
    PeerInfoView { addrs: Seq::empty(), contacts: Seq::empty() }
}

/// The directory of the peers `keys` at startup.
pub open spec fn fresh(keys: Set<Seq<char>>) -> DirectoryView {
    Map::new(|k: Seq<char>| keys.contains(k), |k: Seq<char>| blank())
}

/// The directory after `key` announces `addrs`: the addresses of `key` are
/// replaced as a whole, its contacts stay. A key that is not configured
/// changes nothing.
pub open spec fn published(d: DirectoryView, key: Seq<char>, addrs: Seq<PeerAddr>) -> DirectoryView {
    if d.dom().contains(key) {
        d.insert(key, PeerInfoView { addrs, contacts: d[key].contacts })
    } else {
        d
    }
}

/// Whether `asker` is told the addresses of `target`: `target` is configured
/// and lists `asker` among its contacts.
pub open spec fn reveals(d: DirectoryView, asker: Seq<char>, target: Seq<char>) -> bool {
    d.dom().contains(target) && d[target].contacts.contains(asker)
}

/// The addresses that `asker` is told when it asks about `target`.
pub open spec fn revealed(d: DirectoryView, asker: Seq<char>, target: Seq<char>) -> Seq<PeerAddr> {
    if reveals(d, asker, target) {
        d[target].addrs
    } else {
        Seq::empty()
    }
}

/// Whether a question of `asker` about `target` adds a contact: `target` is
/// configured and does not list `asker` yet.
pub open spec fn registers(d: DirectoryView, asker: Seq<char>, target: Seq<char>) -> bool {
    d.dom().contains(target) && !d[target].contacts.contains(asker)
}

/// The directory after `asker` asked about `target`: `asker` is appended to
/// the contacts of `target` unless it is listed there already. A target that
/// is not configured changes nothing.
pub open spec fn asked(d: DirectoryView, asker: Seq<char>, target: Seq<char>) -> DirectoryView {
    if registers(d, asker, target) {
        d.insert(
            target,
            PeerInfoView { addrs: d[target].addrs, contacts: d[target].contacts.push(asker) },
        )
    } else {
        d
    }
}

/// No peer is listed twice among the contacts of any peer.
pub open spec fn consistent(d: DirectoryView) -> bool {
    forall|k: Seq<char>| d.dom().contains(k) ==> (#[trigger] d[k]).contacts.no_duplicates()
}

#[derive(Debug)]
struct Record {
    key: String,
    addrs: Vec<PeerAddr>,
    contacts: Vec<String>,
}

impl Record {
    spec fn info(&self) -> PeerInfoView {
        PeerInfoView { addrs: self.addrs@, contacts: texts(self.contacts@) }
    }
}

/// The peer directory. Its keys are fixed when it is made.
#[derive(Debug)]
pub struct Directory {
    records: Vec<Record>,
}

impl View for Directory {
    type V = DirectoryView;

    closed spec fn view(&self) -> DirectoryView {
        table(self.keys(), self.infos())
    }
}

fn position(list: &Vec<String>, key: &String) -> (r: Option<usize>)
    ensures
        match r {
            Some(i) => i < list.len() && list[i as int]@ == key@,
            None => !texts(list@).contains(key@),
        },
{
    let mut i: usize = 0;
    while i < list.len()
        invariant
            i <= list.len(),
            forall|j: int| 0 <= j < i ==> list[j]@ != key@,
        decreases list.len() - i,
    {
        if list[i] == *key {
            return Some(i);
        }
        i += 1;
    }
    None
}

fn copy_addrs(v: &Vec<PeerAddr>) -> (r: Vec<PeerAddr>)
    ensures
        r@ == v@,
{
    let mut r: Vec<PeerAddr> = Vec::new();
    let mut i: usize = 0;
    while i < v.len()
        invariant
            i <= v.len(),
            r@ == v@.take(i as int),
        decreases v.len() - i,
    {
        r.push(v[i]);
        assert(v@.take(i as int).push(v[i as int]) =~= v@.take(i + 1));
        i += 1;
    }
    assert(v@.take(v.len() as int) =~= v@);
    r
}

fn copy_texts(v: &Vec<String>) -> (r: Vec<String>)
    ensures
        texts(r@) == texts(v@),
{
    let mut r: Vec<String> = Vec::new();
    let mut i: usize = 0;
    while i < v.len()
        invariant
            i <= v.len(),
            r.len() == i,
            forall|j: int| 0 <= j < i ==> r[j]@ == v[j]@,
        decreases v.len() - i,
    {
        r.push(v[i].clone());
        i += 1;
    }
    assert(texts(r@) =~= texts(v@));
    r
}

impl Directory {
    spec fn keys(&self) -> Seq<Seq<char>> {
        Seq::new(self.records.len() as nat, |i: int| self.records[i].key@)
    }

    spec fn infos(&self) -> Seq<PeerInfoView> {
        Seq::new(self.records.len() as nat, |i: int| self.records[i].info())
    }

    /// The directory is well formed: no key is held twice, and no peer is
    /// listed twice among the contacts of a peer.
    pub closed spec fn wf(&self) -> bool {
        &&& self.keys().no_duplicates()
        &&& forall|i: int|
            0 <= i < self.records.len() ==> (#[trigger] self.records[i]).info().contacts.no_duplicates()
    }

    /// A well-formed directory is consistent, and its keys are finitely many.
    pub proof fn lemma_wf(&self)
        requires
            self.wf(),
        ensures
            consistent(self@),
            self@.dom().finite(),
    {
        assert forall|k: Seq<char>| self@.dom().contains(k) implies (#[trigger] self@[k]).contacts.no_duplicates() by {
            lemma_index_of_present(self.keys(), k);
            let i = crate::table::index_of(self.keys(), k);
            assert(self.infos()[i] == self.records[i].info());
        }
        assert(self@.dom() =~= self.keys().to_set());
        vstd::seq_lib::seq_to_set_is_finite(self.keys());
    }

    fn find(&self, key: &String) -> (r: Option<usize>)
        ensures
            match r {
                Some(i) => i < self.records.len() && self.keys()[i as int] == key@,
                None => !self.keys().contains(key@),
            },
    {
        let mut i: usize = 0;
        while i < self.records.len()
            invariant
                i <= self.records.len(),
                forall|j: int| 0 <= j < i ==> self.records[j].key@ != key@,
            decreases self.records.len() - i,
        {
            if self.records[i].key == *key {
                return Some(i);
            }
            i += 1;
        }
        None
    }

    /// The directory of the peers `keys`: each key once, with no addresses and
    /// no contacts.
    pub fn new(keys: &Vec<String>) -> (d: Directory)
        ensures
            d.wf(),
            d@ == fresh(texts(keys@).to_set()),
    {
        let mut d = Directory { records: Vec::new() };
        let mut i: usize = 0;
        while i < keys.len()
            invariant
                i <= keys.len(),
                d.keys().no_duplicates(),
                forall|j: int| 0 <= j < d.records.len() ==> (#[trigger] d.records[j]).info() == blank(),
                forall|k: Seq<char>|
                    d.keys().contains(k) <==> exists|j: int| 0 <= j < i && #[trigger] keys[j]@ == k,
            decreases keys.len() - i,
        {
            let ghost before = d.keys();
            let found = d.find(&keys[i]);
            if found.is_none() {
                let key = keys[i].clone();
                d.records.push(Record { key, addrs: Vec::new(), contacts: Vec::new() });
                proof {
                    assert(d.keys() =~= before.push(keys[i as int]@));
                    assert(texts(Seq::<String>::empty()) =~= Seq::<Seq<char>>::empty());
                    assert forall|k: Seq<char>| d.keys().contains(k) <==> exists|j: int|
                        0 <= j < i + 1 && #[trigger] keys[j]@ == k by {
                        if d.keys().contains(k) {
                            let r = choose|r: int| 0 <= r < d.keys().len() && d.keys()[r] == k;
                            if r < before.len() {
                                assert(before[r] == k);
                                assert(before.contains(k));
                            } else {
                                assert(keys[i as int]@ == k);
                            }
                        }
                        if exists|j: int| 0 <= j < i + 1 && #[trigger] keys[j]@ == k {
                            let j = choose|j: int| 0 <= j < i + 1 && #[trigger] keys[j]@ == k;
                            if j < i {
                                assert(before.contains(k));
                                let r = choose|r: int| 0 <= r < before.len() && before[r] == k;
                                assert(d.keys()[r] == k);
                            } else {
                                assert(d.keys()[before.len() as int] == k);
                            }
                        }
                    }
                }
            } else {
                proof {
                    assert(before[found.unwrap() as int] == keys[i as int]@);
                    assert(before.contains(keys[i as int]@));
                }
            }
            i += 1;
        }
        proof {
            let want = fresh(texts(keys@).to_set());
            assert forall|k: Seq<char>| d@.dom().contains(k) <==> want.dom().contains(k) by {
                if d.keys().contains(k) {
                    let j = choose|j: int| 0 <= j < keys.len() && #[trigger] keys[j]@ == k;
                    assert(texts(keys@)[j] == k);
                }
                if texts(keys@).contains(k) {
                    let j = choose|j: int| 0 <= j < texts(keys@).len() && texts(keys@)[j] == k;
                    assert(keys[j]@ == k);
                }
            }
            assert forall|k: Seq<char>| d@.dom().contains(k) implies #[trigger] d@[k] == want[k] by {
                assert(d.keys().contains(k));
                lemma_index_of_present(d.keys(), k);
                let r = crate::table::index_of(d.keys(), k);
                assert(d@[k] == d.infos()[r]);
                assert(d.records[r].info() == blank());
                assert(want.dom().contains(k));
            }
            assert(d@.dom() =~= want.dom());
            assert(d@ =~= want);
            assert forall|r: int| 0 <= r < d.records.len() implies (#[trigger] d.records[r]).info().contacts.no_duplicates() by {
                assert(d.records[r].info() == blank());
            }
        }
        d
    }

    /// The directory at startup: the keys of the configured peers, each with
    /// no addresses and no contacts.
    pub fn for_peers(peers: &StaticPeerMap) -> (d: Directory)
        requires
            peers.wf(),
        ensures
            d.wf(),
            d@ == fresh(peers@.values()),
    {
        let keys = peers.peer_keys();
        Directory::new(&keys)
    }

    /// How many peers the directory holds.
    pub fn len(&self) -> (n: usize)
        requires
            self.wf(),
        ensures
            n == self@.dom().len(),
    {
        proof {
            assert(self@.dom() =~= self.keys().to_set());
            self.keys().unique_seq_to_set();
        }
        self.records.len()
    }

    /// Whether `key` is a configured peer.
    pub fn contains(&self, key: &str) -> (known: bool)
        ensures
            known == self@.dom().contains(key@),
    {
        let k = key.to_owned();
        self.find(&k).is_some()
    }

    /// The addresses that `key` last announced, or `None` if `key` is not a
    /// configured peer.
    pub fn addresses(&self, key: &str) -> (r: Option<Vec<PeerAddr>>)
        requires
            self.wf(),
        ensures
            r is Some == self@.dom().contains(key@),
            r matches Some(v) ==> v@ == self@[key@].addrs,
    {
        let k = key.to_owned();
        match self.find(&k) {
            None => None,
            Some(i) => {
                proof {
                    lemma_table_get(self.keys(), self.infos(), i as int);
                }
                Some(copy_addrs(&self.records[i].addrs))
            },
        }
    }

    /// The peers that have asked about `key`, in the order of their first
    /// question, or `None` if `key` is not a configured peer.
    pub fn contacts(&self, key: &str) -> (r: Option<Vec<String>>)
        requires
            self.wf(),
        ensures
            r is Some == self@.dom().contains(key@),
            r matches Some(v) ==> texts(v@) == self@[key@].contacts,
    {
        let k = key.to_owned();
        match self.find(&k) {
            None => None,
            Some(i) => {
                proof {
                    lemma_table_get(self.keys(), self.infos(), i as int);
                }
                Some(copy_texts(&self.records[i].contacts))
            },
        }
    }

    /// Replaces the addresses of `key` by `addrs` and says whether `key` is a
    /// configured peer. For a key that is not, nothing changes.
    pub fn publish(&mut self, key: &str, addrs: Vec<PeerAddr>) -> (known: bool)
        requires
            old(self).wf(),
        ensures
            final(self).wf(),
            known == old(self)@.dom().contains(key@),
            final(self)@ == published(old(self)@, key@, addrs@),
    {
        let k = key.to_owned();
        match self.find(&k) {
            None => false,
            Some(i) => {
                let ghost before = *self;
                let ghost new_addrs = addrs@;
                self.records[i].addrs = addrs;
                proof {
                    let info = PeerInfoView {
                        addrs: new_addrs,
                        contacts: before.records[i as int].info().contacts,
                    };
                    assert(self.keys() =~= before.keys());
                    assert(self.infos() =~= before.infos().update(i as int, info));
                    lemma_table_update(before.keys(), before.infos(), i as int, info);
                    lemma_table_get(before.keys(), before.infos(), i as int);
                }
                true
            },
        }
    }

    /// Answers the question of `asker` about `target`.
    ///
    /// The first part of the result holds the addresses of `target` if
    /// `asker` is already among the contacts of `target`, and is empty
    /// otherwise. The second part says whether `asker` was added to those
    /// contacts by this question. For a target that is not a configured peer
    /// nothing changes and nothing is revealed.
    pub fn lookup(&mut self, asker: &str, target: &str) -> (r: (Vec<PeerAddr>, bool))
        requires
            old(self).wf(),
        ensures
            final(self).wf(),
            r.0@ == revealed(old(self)@, asker@, target@),
            r.1 == registers(old(self)@, asker@, target@),
            final(self)@ == asked(old(self)@, asker@, target@),
    {
        let t = target.to_owned();
        match self.find(&t) {
            None => (Vec::new(), false),
            Some(i) => {
                let me = asker.to_owned();
                proof {
                    lemma_table_get(self.keys(), self.infos(), i as int);
                }
                if position(&self.records[i].contacts, &me).is_some() {
                    let addrs = copy_addrs(&self.records[i].addrs);
                    proof {
                        let p = choose|p: int|
                            0 <= p < self.records[i as int].contacts.len()
                                && self.records[i as int].contacts[p]@ == me@;
                        assert(texts(self.records[i as int].contacts@)[p] == me@);
                    }
                    (addrs, false)
                } else {
                    let ghost before = *self;
                    self.records[i].contacts.push(me);
                    proof {
                        let old_info = before.records[i as int].info();
                        let info = PeerInfoView {
                            addrs: old_info.addrs,
                            contacts: old_info.contacts.push(asker@),
                        };
                        assert(texts(self.records[i as int].contacts@) =~= old_info.contacts.push(
                            asker@,
                        ));
                        assert(self.keys() =~= before.keys());
                        assert(self.infos() =~= before.infos().update(i as int, info));
                        lemma_table_update(before.keys(), before.infos(), i as int, info);
                        assert(info.contacts.no_duplicates());
                    }
                    (Vec::new(), true)
                }
            },
        }
    }
}

} // verus!
