//! Per-connection network statistics.

use vstd::prelude::*;

use crate::assoc::{assoc_map, has_key, lemma_assoc_map_absent, lemma_assoc_map_index,
    lemma_assoc_map_push, lemma_assoc_map_update, unique_keys};
use crate::networking::protocol::ClientId;

verus! {

/// A player's network statistics.
#[derive(Debug, Copy, Clone, PartialEq, Eq, Hash, Structural)]
pub struct PlayerNetStat {
    /// The player's round-trip latency in milliseconds.
    pub ping: u128,
}

/// The statistics of every connection, keyed by client id.
#[derive(Debug)]
pub struct PlayerNetStats {
    entries: Vec<(ClientId, PlayerNetStat)>,
}

impl View for PlayerNetStats {
    type V = Seq<(ClientId, PlayerNetStat)>;

    closed spec fn view(&self) -> Seq<(ClientId, PlayerNetStat)> {
        self.entries@
    }
}

impl PlayerNetStats {
    pub open spec fn wf(&self) -> bool {
        unique_keys(self@)
    }

    pub open spec fn as_map(&self) -> Map<ClientId, PlayerNetStat> {
        assoc_map(self@)
    }

    pub fn new() -> (r: Self)
        ensures
            r.wf(),
            r.as_map() =~= Map::<ClientId, PlayerNetStat>::empty(),
    {
        PlayerNetStats { entries: Vec::new() }
    }

    fn find(&self, client_id: ClientId) -> (r: Option<usize>)
        ensures
            r is Some <==> has_key(self@, client_id),
            r matches Some(i) ==> i < self@.len() && self@[i as int].0 == client_id,
    {
        let n = self.entries.len();
        let mut i: usize = 0;
        while i < n
            invariant
                n == self@.len(),
                i <= n,
                forall|j: int| 0 <= j < i ==> (#[trigger] self@[j]).0 != client_id,
            decreases n - i,
        {
            if self.entries[i].0 == client_id {
                return Some(i);
            }
            i += 1;
        }
        None
    }

    /// The statistics recorded for that connection, if any.
    pub fn get(&self, client_id: ClientId) -> (r: Option<PlayerNetStat>)
        requires
            self.wf(),
        ensures
            r is Some <==> self.as_map().contains_key(client_id),
            r matches Some(st) ==> self.as_map()[client_id] == st,
    {
        match self.find(client_id) {
            Some(i) => {
                proof {
                    lemma_assoc_map_index(self@, i as int);
                }
                Some(self.entries[i].1)
            },
            None => {
                proof {
                    lemma_assoc_map_absent(self@, client_id);
                }
                None
            },
        }
    }

    /// Records a measured round-trip latency for that connection,
    /// creating its entry if it had none.
    pub fn record_ping(&mut self, client_id: ClientId, ping: u128)
        requires
            old(self).wf(),
        ensures
            final(self).wf(),
            final(self).as_map() =~= old(self).as_map().insert(
                client_id,
                PlayerNetStat { ping },
            ),
    {
        let stat = PlayerNetStat { ping };
        match self.find(client_id) {
            Some(i) => {
                proof {
                    lemma_assoc_map_update(self@, i as int, stat);
                }
                self.entries[i] = (client_id, stat);
            },
            None => {
                proof {
                    lemma_assoc_map_push(self@, client_id, stat);
                    let s2 = self@.push((client_id, stat));
                    assert(forall|x: int| 0 <= x < self@.len() ==> s2[x] == self@[x]);
                    assert(unique_keys(s2));
                }
                self.entries.push((client_id, stat));
            },
        }
    }

    /// Discards the statistics of a connection that is gone.
    pub fn remove(&mut self, client_id: ClientId) -> (r: Option<PlayerNetStat>)
        requires
            old(self).wf(),
        ensures
            final(self).wf(),
            final(self).as_map() =~= old(self).as_map().remove(client_id),
            r is Some <==> old(self).as_map().contains_key(client_id),
            r matches Some(st) ==> old(self).as_map()[client_id] == st,
    {
        match self.find(client_id) {
            Some(i) => {
                proof {
                    lemma_assoc_map_index(self@, i as int);
                    crate::assoc::lemma_assoc_map_remove(self@, i as int);
                }
                let (_, st) = self.entries.remove(i);
                Some(st)
            },
            None => {
                proof {
                    lemma_assoc_map_absent(self@, client_id);
                    assert(self.as_map() =~= self.as_map().remove(client_id));
                }
                None
            },
        }
    }
}

} // verus!
