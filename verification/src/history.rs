//! What holds of the directory after any sequence of announcements and
//! questions.

use crate::address::PeerAddr;
use crate::directory::{asked, consistent, published, revealed, reveals, DirectoryView};
use vstd::prelude::*;

verus! {

/// One change that a session can make to the directory.
pub enum Operation {
    /// `key` announces `addrs`.
    Publish { key: Seq<char>, addrs: Seq<PeerAddr> },
    /// `asker` asks about `target`.
    Ask { asker: Seq<char>, target: Seq<char> },
}

/// The directory after `op`.
pub open spec fn applied(d: DirectoryView, op: Operation) -> DirectoryView {
    match op {
        Operation::Publish { key, addrs } => published(d, key, addrs),
        Operation::Ask { asker, target } => asked(d, asker, target),
    }
}

/// The directory after the operations `ops`, first to last.
pub open spec fn run(d: DirectoryView, ops: Seq<Operation>) -> DirectoryView
    decreases ops.len(),
{
    if ops.len() == 0 {
        d
    } else {
        applied(run(d, ops.drop_last()), ops.last())
    }
}

/// None of `ops` is an announcement of `key`.
pub open spec fn silent(ops: Seq<Operation>, key: Seq<char>) -> bool {
    forall|i: int|
        0 <= i < ops.len() ==> !((#[trigger] ops[i]) matches Operation::Publish { key: k, .. } && k
            == key)
}

/// The keys of the directory never change.
pub proof fn keys_never_change(d: DirectoryView, ops: Seq<Operation>)
    ensures
        run(d, ops).dom() == d.dom(),
    decreases ops.len(),
{
    if ops.len() > 0 {
        keys_never_change(d, ops.drop_last());
        assert(run(d, ops).dom() =~= run(d, ops.drop_last()).dom());
    }
}

/// A question never lists a peer a second time among the contacts of
/// another.
pub proof fn asking_keeps_contacts_distinct(d: DirectoryView, asker: Seq<char>, target: Seq<char>)
    requires
        consistent(d),
    ensures
        consistent(asked(d, asker, target)),
{
    let e = asked(d, asker, target);
    assert forall|k: Seq<char>| e.dom().contains(k) implies (#[trigger] e[k]).contacts.no_duplicates() by {
        assert(d[k].contacts.no_duplicates());
    }
}

/// No peer is ever listed twice among the contacts of another.
pub proof fn contacts_stay_distinct(d: DirectoryView, ops: Seq<Operation>)
    requires
        consistent(d),
    ensures
        consistent(run(d, ops)),
    decreases ops.len(),
{
    if ops.len() > 0 {
        contacts_stay_distinct(d, ops.drop_last());
        let mid = run(d, ops.drop_last());
        match ops.last() {
            Operation::Publish { key, addrs } => {
                let e = published(mid, key, addrs);
                assert forall|k: Seq<char>| e.dom().contains(k) implies (#[trigger] e[k]).contacts.no_duplicates() by {
                    assert(mid[k].contacts.no_duplicates());
                }
            },
            Operation::Ask { asker, target } => {
                asking_keeps_contacts_distinct(mid, asker, target);
            },
        }
    }
}

/// Contacts only grow: what a peer's contacts held before, they hold
/// afterwards, in the same places.
pub proof fn contacts_only_grow(d: DirectoryView, ops: Seq<Operation>, key: Seq<char>)
    requires
        d.dom().contains(key),
    ensures
        run(d, ops).dom().contains(key),
        d[key].contacts.is_prefix_of(run(d, ops)[key].contacts),
    decreases ops.len(),
{
    if ops.len() > 0 {
        contacts_only_grow(d, ops.drop_last(), key);
        let mid = run(d, ops.drop_last());
        let end = run(d, ops);
        assert(mid[key].contacts.is_prefix_of(end[key].contacts));
    }
}

/// Only a peer's own announcement changes its addresses.
pub proof fn addresses_stay_until_announced(d: DirectoryView, ops: Seq<Operation>, key: Seq<char>)
    requires
        d.dom().contains(key),
        silent(ops, key),
    ensures
        run(d, ops).dom().contains(key),
        run(d, ops)[key].addrs == d[key].addrs,
    decreases ops.len(),
{
    if ops.len() > 0 {
        let front = ops.drop_last();
        assert forall|i: int| 0 <= i < front.len() implies !((#[trigger] front[i]) matches Operation::Publish {
            key: k,
            ..
        } && k == key) by {
            assert(front[i] == ops[i]);
        }
        addresses_stay_until_announced(d, front, key);
    }
}

/// After `target` has announced `addrs`, and whatever else happens short of
/// another announcement of `target`, a question about `target` is answered
/// with exactly `addrs` or with nothing: never with a part of `addrs` or with
/// more.
pub proof fn answer_is_all_or_nothing(
    d: DirectoryView,
    target: Seq<char>,
    addrs: Seq<PeerAddr>,
    ops: Seq<Operation>,
    asker: Seq<char>,
)
    requires
        d.dom().contains(target),
        silent(ops, target),
    ensures
        ({
            let now = run(published(d, target, addrs), ops);
            revealed(now, asker, target) == if reveals(now, asker, target) {
                addrs
            } else {
                Seq::empty()
            }
        }),
{
    addresses_stay_until_announced(published(d, target, addrs), ops, target);
}

/// A question about a peer that is not configured changes nothing and
/// reveals nothing.
pub proof fn unknown_target_changes_nothing(d: DirectoryView, asker: Seq<char>, target: Seq<char>)
    requires
        !d.dom().contains(target),
    ensures
        asked(d, asker, target) == d,
        revealed(d, asker, target) == Seq::<PeerAddr>::empty(),
{
}

/// Mutual discovery between two peers that have not asked about each other:
/// `b` announces `addrs`; the first question of `a` about `b` reveals nothing and registers `a`; the first question of `b` about `a`
/// reveals nothing and registers `b`; the second question of `a` about `b`
/// reveals `addrs`.
pub proof fn mutual_discovery(d: DirectoryView, a: Seq<char>, b: Seq<char>, addrs: Seq<PeerAddr>)
    requires
        d.dom().contains(a),
        d.dom().contains(b),
        a != b,
        !d[b].contacts.contains(a),
        !d[a].contacts.contains(b),
    ensures
        ({
            let d1 = published(d, b, addrs);
            let d2 = asked(d1, a, b);
            let d3 = asked(d2, b, a);
            &&& revealed(d1, a, b) == Seq::<PeerAddr>::empty()
            &&& d2[b].contacts == d[b].contacts.push(a)
            &&& revealed(d2, b, a) == Seq::<PeerAddr>::empty()
            &&& d3[a].contacts == d[a].contacts.push(b)
            &&& revealed(d3, a, b) == addrs
        }),
{
    let d1 = published(d, b, addrs);
    let d2 = asked(d1, a, b);
    let d3 = asked(d2, b, a);
    assert(d2[b].contacts == d[b].contacts.push(a));
    assert(d2[b].contacts[d[b].contacts.len() as int] == a);
    assert(d2[a] == d[a]);
    assert(d3[b] == d2[b]);
    assert(d3[b].contacts.contains(a));
}

/// Announcing the same addresses twice in a row leaves the directory as
/// announcing them once does.
pub proof fn publish_is_idempotent(d: DirectoryView, key: Seq<char>, addrs: Seq<PeerAddr>)
    ensures
        published(published(d, key, addrs), key, addrs) == published(d, key, addrs),
{
    assert(published(published(d, key, addrs), key, addrs) =~= published(d, key, addrs));
}

/// A later announcement replaces an earlier one: after `target` has
/// announced `first` and then `second`, every answer that reveals anything
/// reveals `second`, whatever was asked in between or afterwards.
pub proof fn later_announcement_replaces(
    d: DirectoryView,
    target: Seq<char>,
    first: Seq<PeerAddr>,
    between: Seq<Operation>,
    second: Seq<PeerAddr>,
    after: Seq<Operation>,
    asker: Seq<char>,
)
    requires
        d.dom().contains(target),
        silent(after, target),
    ensures
        ({
            let then = run(published(d, target, first), between);
            let now = run(published(then, target, second), after);
            revealed(now, asker, target) == if reveals(now, asker, target) {
                second
            } else {
                Seq::empty()
            }
        }),
{
    keys_never_change(published(d, target, first), between);
    let then = run(published(d, target, first), between);
    answer_is_all_or_nothing(then, target, second, after, asker);
}

} // verus!
