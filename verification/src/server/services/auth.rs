use vstd::prelude::*;

use crate::server::datatypes::PeerAddress;
use crate::server::stores::LoginStore;

verus! {

/// Logging a peer in and out.
pub struct AuthService {
    peer: PeerAddress,
}

impl AuthService {
    /// The peer that this service answers.
    pub closed spec fn peer(&self) -> PeerAddress {
        self.peer
    }

    pub fn new(peer: PeerAddress) -> (service: Self)
        ensures
            service.peer() == peer,
    {
        Self { peer }
    }

    /// Records that the peer goes by `username` from now on.
    pub fn login(&mut self, logins: &mut LoginStore, username: String)
        requires
            old(logins).wf(),
        ensures
            final(self).peer() == old(self).peer(),
            final(logins).wf(),
            final(logins)@ == old(logins)@.insert(old(self).peer(), username),
    {
        logins.log_peer_in(self.peer, username);
    }

    /// Forgets the peer's name.
    pub fn logout(&mut self, logins: &mut LoginStore)
        requires
            old(logins).wf(),
        ensures
            final(self).peer() == old(self).peer(),
            final(logins).wf(),
            final(logins)@ == old(logins)@.remove(old(self).peer()),
    {
        logins.log_peer_out(&self.peer);
    }
}

} // verus!
