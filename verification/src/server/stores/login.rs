use vstd::prelude::*;

use crate::server::datatypes::{PeerAddress, Username};

verus! {

/// Who is logged in, by the address of the peer.
pub struct LoginStore {
    usernames_per_socket: Vec<(PeerAddress, Username)>,
}

/// The logins that a list of entries amounts to; a later entry for a peer
/// overrides an earlier one.
pub open spec fn logins_of(entries: Seq<(PeerAddress, Username)>) -> Map<PeerAddress, Username>
    decreases entries.len(),
{
    if entries.len() == 0 {
        Map::empty()
    } else {
        logins_of(entries.drop_last()).insert(entries.last().0, entries.last().1)
    }
}

/// No peer has two entries.
pub open spec fn peers_distinct(entries: Seq<(PeerAddress, Username)>) -> bool {
    forall|i: int, j: int|
        0 <= i < j < entries.len() ==> (#[trigger] entries[i]).0 != (#[trigger] entries[j]).0
}

/// A peer that has no entry is not logged in.
pub proof fn lemma_logins_absent(entries: Seq<(PeerAddress, Username)>, peer: PeerAddress)
    requires
        forall|i: int| 0 <= i < entries.len() ==> (#[trigger] entries[i]).0 != peer,
    ensures
        !logins_of(entries).contains_key(peer),
    decreases entries.len(),
{
    if entries.len() > 0 {
        lemma_logins_absent(entries.drop_last(), peer);
    }
}

/// A peer with exactly one entry is logged in under the name in that entry.
pub proof fn lemma_logins_present(entries: Seq<(PeerAddress, Username)>, i: int)
    requires
        peers_distinct(entries),
        0 <= i < entries.len(),
    ensures
        logins_of(entries).contains_key(entries[i].0),
        logins_of(entries)[entries[i].0] == entries[i].1,
    decreases entries.len(),
{
    if i < entries.len() - 1 {
        assert(peers_distinct(entries.drop_last()));
        lemma_logins_present(entries.drop_last(), i);
    }
}

/// Taking out a peer's only entry logs the peer out and no one else.
pub proof fn lemma_logins_remove(entries: Seq<(PeerAddress, Username)>, i: int)
    requires
        peers_distinct(entries),
        0 <= i < entries.len(),
    ensures
        peers_distinct(entries.remove(i)),
        logins_of(entries.remove(i)) == logins_of(entries).remove(entries[i].0),
    decreases entries.len(),
{
    let rest = entries.remove(i);
    assert(peers_distinct(rest));
    if i == entries.len() - 1 {
        assert(rest =~= entries.drop_last());
        assert forall|k: int| 0 <= k < rest.len() implies (#[trigger] rest[k]).0 != entries[i].0 by {
            assert(rest[k] == entries[k]);
        }
        lemma_logins_absent(rest, entries[i].0);
        assert(logins_of(rest) =~= logins_of(entries).remove(entries[i].0));
    } else {
        assert(peers_distinct(entries.drop_last()));
        lemma_logins_remove(entries.drop_last(), i);
        assert(rest.drop_last() =~= entries.drop_last().remove(i));
        assert(rest.last() == entries.last());
        assert(entries.last().0 != entries[i].0);
        assert(logins_of(rest) =~= logins_of(entries).remove(entries[i].0));
    }
}

impl View for LoginStore {
    type V = Map<PeerAddress, Username>;

    /// Who is logged in.
    closed spec fn view(&self) -> Map<PeerAddress, Username> {
        logins_of(self.usernames_per_socket@)
    }
}

impl Default for LoginStore {
    fn default() -> (store: Self)
        ensures
            store.wf(),
            store@ == Map::<PeerAddress, Username>::empty(),
    {
        Self { usernames_per_socket: Vec::new() }
    }
}

impl LoginStore {
    /// No peer has two entries.
    pub closed spec fn wf(&self) -> bool {
        peers_distinct(self.usernames_per_socket@)
    }

    /// A store in which no one is logged in.
    pub fn new() -> (store: Self)
        ensures
            store.wf(),
            store@ == Map::<PeerAddress, Username>::empty(),
    {
        Self { usernames_per_socket: Vec::new() }
    }

    /// Where the entry of `peer` stands, if it has one.
    fn find(&self, peer: &PeerAddress) -> (place: Option<usize>)
        requires
            self.wf(),
        ensures
            place.is_some() == self@.contains_key(*peer),
            place.is_some() ==> place.unwrap() < self.usernames_per_socket@.len()
                && self.usernames_per_socket@[place.unwrap() as int].0 == *peer
                && self.usernames_per_socket@[place.unwrap() as int].1 == self@[*peer],
    {
        let mut i: usize = 0;
        while i < self.usernames_per_socket.len()
            invariant
                self.wf(),
                i <= self.usernames_per_socket@.len(),
                forall|k: int| 0 <= k < i ==> (#[trigger] self.usernames_per_socket@[k]).0 != *peer,
            decreases self.usernames_per_socket@.len() - i,
        {
            if self.usernames_per_socket[i].0 == *peer {
                proof {
                    lemma_logins_present(self.usernames_per_socket@, i as int);
                }
                return Some(i);
            }
            i = i + 1;
        }
        proof {
            lemma_logins_absent(self.usernames_per_socket@, *peer);
        }
        None
    }

    /// The name that `peer` is logged in under, if it is logged in.
    pub fn get_login(&self, peer: &PeerAddress) -> (username: Option<Username>)
        requires
            self.wf(),
        ensures
            username == (if self@.contains_key(*peer) {
                Some(self@[*peer])
            } else {
                None
            }),
    {
        match self.find(peer) {
            None => None,
            Some(place) => Some(self.usernames_per_socket[place].1.clone()),
        }
    }

    /// The name that `peer` is logged in under, or the failure that it is
    /// not logged in.
    pub fn check_login(&self, peer: &PeerAddress) -> (username: Result<Username, NotLoggedIn>)
        requires
            self.wf(),
        ensures
            username.is_ok() == self@.contains_key(*peer),
            username matches Ok(name) ==> name == self@[*peer],
    {
        match self.get_login(peer) {
            None => Err(NotLoggedIn),
            Some(name) => Ok(name),
        }
    }

    /// Logs `peer` in under `username`, in place of the name it was logged
    /// in under before, if any.
    pub fn log_peer_in(&mut self, peer: PeerAddress, username: String)
        requires
            old(self).wf(),
        ensures
            final(self).wf(),
            final(self)@ == old(self)@.insert(peer, username),
    {
        self.log_peer_out(&peer);
        proof {
            lemma_logins_absent_rev(self.usernames_per_socket@, peer);
            assert(self.usernames_per_socket@.push((peer, username)).drop_last()
                =~= self.usernames_per_socket@);
            assert(old(self)@.remove(peer).insert(peer, username) =~= old(self)@.insert(
                peer,
                username,
            ));
        }
        self.usernames_per_socket.push((peer, username));
    }

    /// Logs `peer` out; does nothing if it is not logged in.
    pub fn log_peer_out(&mut self, peer: &PeerAddress)
        requires
            old(self).wf(),
        ensures
            final(self).wf(),
            final(self)@ == old(self)@.remove(*peer),
    {
        match self.find(peer) {
            None => {
                proof {
                    assert(self@.remove(*peer) =~= self@);
                }
            },
            Some(place) => {
                proof {
                    lemma_logins_remove(self.usernames_per_socket@, place as int);
                }
                self.usernames_per_socket.remove(place);
            },
        }
    }
}

/// A peer that is not logged in has no entry.
pub proof fn lemma_logins_absent_rev(entries: Seq<(PeerAddress, Username)>, peer: PeerAddress)
    requires
        !logins_of(entries).contains_key(peer),
    ensures
        forall|i: int| 0 <= i < entries.len() ==> (#[trigger] entries[i]).0 != peer,
    decreases entries.len(),
{
    if entries.len() > 0 {
        lemma_logins_absent_rev(entries.drop_last(), peer);
        assert forall|i: int| 0 <= i < entries.len() implies (#[trigger] entries[i]).0 != peer by {
            if i < entries.len() - 1 {
                assert(entries.drop_last()[i] == entries[i]);
            }
        }
    }
}

/// The failure of a request from a peer that is not logged in.
#[derive(Clone, Copy, Debug, PartialEq, Eq, Structural)]
pub struct NotLoggedIn;

} // verus!
