//! The registry of cluster peers: a list of addresses without repetition.

use crate::text::str_eq;
use vstd::prelude::*;

verus! {

/// Whether `addr` is among `peers`.
pub open spec fn knows(peers: Seq<Seq<char>>, addr: Seq<char>) -> bool {
    exists|i: int| 0 <= i < peers.len() && #[trigger] peers[i] == addr
}

/// The peers after `addr` has joined: a known address changes nothing, a
/// new one goes to the end.
pub open spec fn with_peer(peers: Seq<Seq<char>>, addr: Seq<char>) -> Seq<Seq<char>> {
    if knows(peers, addr) {
        peers
    } else {
        peers.push(addr)
    }
}

/// Joining keeps a list free of repetition, makes the address known, and
/// changes nothing when repeated.
pub proof fn lemma_with_peer(peers: Seq<Seq<char>>, addr: Seq<char>)
    requires
        peers.no_duplicates(),
    ensures
        with_peer(peers, addr).no_duplicates(),
        knows(with_peer(peers, addr), addr),
        with_peer(with_peer(peers, addr), addr) == with_peer(peers, addr),
{
    let out = with_peer(peers, addr);
    if knows(peers, addr) {
    } else {
        assert(out[peers.len() as int] == addr);
        assert forall|i: int, j: int| 0 <= i < out.len() && 0 <= j < out.len() && i != j implies out[i]
            != out[j] by {
            if i < peers.len() && j < peers.len() {
                assert(out[i] == peers[i] && out[j] == peers[j]);
            } else if i < peers.len() {
                assert(out[i] == peers[i]);
            } else {
                assert(out[j] == peers[j]);
            }
        }
    }
}

/// The addresses of the peers that have joined, in the order of joining.
pub struct Cluster {
    peers: Vec<String>,
}

impl Cluster {
    /// The addresses held, in the order of joining.
    pub closed spec fn peers(&self) -> Seq<Seq<char>> {
        self.peers.deep_view()
    }

    /// The invariant of the registry: no address is held twice.
    pub open spec fn wf(&self) -> bool {
        self.peers().no_duplicates()
    }

    /// A registry without peers.
    pub fn new() -> (c: Self)
        ensures
            c.wf(),
            c.peers() == Seq::<Seq<char>>::empty(),
    {
        let c = Cluster { peers: Vec::new() };
        assert(c.peers() =~= Seq::<Seq<char>>::empty());
        c
    }

    /// Registers `addr` unless it is registered already.
    pub fn add_peer(&mut self, addr: String)
        requires
            old(self).wf(),
        ensures
            final(self).wf(),
            final(self).peers() == with_peer(old(self).peers(), addr@),
    {
        proof {
            lemma_with_peer(self.peers(), addr@);
        }
        let mut i: usize = 0;
        while i < self.peers.len()
            invariant
                i <= self.peers.len(),
                *self == *old(self),
                self.wf(),
                forall|j: int| 0 <= j < i ==> #[trigger] self.peers()[j] != addr@,
            decreases self.peers.len() - i,
        {
            if str_eq(self.peers[i].as_str(), addr.as_str()) {
                assert(self.peers()[i as int] == addr@);
                return ;
            }
            i += 1;
        }
        self.peers.push(addr);
        assert(self.peers() =~= old(self).peers().push(addr@));
    }

    /// The registered addresses, in the order of joining.
    pub fn list_peers(&self) -> (r: Vec<String>)
        ensures
            r.deep_view() == self.peers(),
    {
        let mut out: Vec<String> = Vec::new();
        let mut i: usize = 0;
        while i < self.peers.len()
            invariant
                i <= self.peers.len(),
                out.len() == i,
                forall|j: int| 0 <= j < i ==> (#[trigger] out[j])@ == self.peers[j]@,
            decreases self.peers.len() - i,
        {
            out.push(self.peers[i].clone());
            i += 1;
        }
        assert(out.deep_view() =~= self.peers());
        out
    }
}

} // verus!
