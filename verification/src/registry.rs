//! The connection registry: the single source of truth for which
//! connections are currently reachable and how to reach them.
//!
//! Each live connection is an identifier (its socket address as text)
//! mapped to the outbound half of its websocket channel.  The registry
//! never blocks: an operation walks its entries and returns.

use vstd::prelude::*;

verus! {

#[verifier::external_type_specification]
#[verifier::external_body]
#[verifier::reject_recursive_types(T)]
pub struct ExUnboundedSender<T>(futures_channel::mpsc::UnboundedSender<T>);

#[verifier::external_type_specification]
#[verifier::external_body]
pub struct ExMessage(tungstenite::Message);

/// Why a directed send failed: the connection is not registered, or its
/// channel is already closed.
#[derive(Clone, Copy, Debug, PartialEq, Eq, Structural)]
pub enum RegistryError {
    NotConnected,
}

/// Relies on `futures_channel::mpsc::UnboundedSender::unbounded_send`, with
/// the text wrapped as a `tungstenite` text message: it delivers on an open
/// channel and errs once the receiving half is gone.  Which of the two
/// happens depends on the channel's state, so nothing is promised here; the
/// registry's contracts say what holds either way.
#[verifier::external_body]
fn send_text(
    tx: &futures_channel::mpsc::UnboundedSender<tungstenite::Message>,
    text: String,
) -> (r: Result<(), ()>) {
    match tx.unbounded_send(tungstenite::Message::text(text)) {
        Ok(()) => Ok(()),
        Err(_) => Err(()),
    }
}

/// The identifiers of a list of registry entries.
spec fn entry_ids(
    s: Seq<(String, futures_channel::mpsc::UnboundedSender<tungstenite::Message>)>,
) -> Seq<Seq<char>> {
    s.map_values(
        |e: (String, futures_channel::mpsc::UnboundedSender<tungstenite::Message>)| e.0@,
    )
}

/// The handle under `id`, walking the entries front first.
spec fn lookup_entry(
    s: Seq<(String, futures_channel::mpsc::UnboundedSender<tungstenite::Message>)>,
    id: Seq<char>,
) -> Option<futures_channel::mpsc::UnboundedSender<tungstenite::Message>>
    decreases s.len(),
{
    if s.len() == 0 {
        None
    } else if s[0].0@ == id {
        Some(s[0].1)
    } else {
        lookup_entry(s.drop_first(), id)
    }
}

/// The live map from connection identifier to outbound delivery handle.
/// Alongside it, a ghost history of the directed sends the registry was
/// handed, so callers can state which message went to which connection.
pub struct ConnectionRegistry {
    entries: Vec<(String, futures_channel::mpsc::UnboundedSender<tungstenite::Message>)>,
    log: Ghost<Seq<(Seq<char>, Seq<char>)>>,
}

impl ConnectionRegistry {
    /// The identifiers of the registered connections.
    pub closed spec fn ids(&self) -> Seq<Seq<char>> {
        entry_ids(self.entries@)
    }

    /// Whether the connection `id` is currently registered.
    pub open spec fn contains_id(&self, id: Seq<char>) -> bool {
        self.ids().contains(id)
    }

    /// The delivery handle currently serving `id`, if any.
    pub closed spec fn handle_of(&self, id: Seq<char>) -> Option<
        futures_channel::mpsc::UnboundedSender<tungstenite::Message>,
    > {
        lookup_entry(self.entries@, id)
    }

    /// The history of directed sends, oldest first: each entry is the
    /// addressed connection identifier and the message text handed over.
    /// Delivery itself still depends on the channel's state.
    pub closed spec fn sent(&self) -> Seq<(Seq<char>, Seq<char>)> {
        self.log@
    }

    /// An empty registry.
    pub fn new() -> (r: Self)
        ensures
            forall|k: Seq<char>| !r.contains_id(k),
            r.sent() == Seq::<(Seq<char>, Seq<char>)>::empty(),
    {
        let r = ConnectionRegistry {
            entries: Vec::new(),
            log: Ghost(Seq::<(Seq<char>, Seq<char>)>::empty()),
        };
        proof {
            assert(r.ids() =~= Seq::<Seq<char>>::empty());
        }
        r
    }

    /// Inserts or replaces the entry for `id`: the given handle now serves
    /// the id, the last writer winning, and there is no error condition.
    pub fn register(
        &mut self,
        id: String,
        handle: futures_channel::mpsc::UnboundedSender<tungstenite::Message>,
    )
        ensures
            final(self).contains_id(id@),
            final(self).handle_of(id@) == Some(handle),
            forall|k: Seq<char>| k != id@ ==> (final(self).contains_id(k) <==> old(
                self,
            ).contains_id(k)),
            final(self).sent() == old(self).sent(),
    {
        self.remove(&id);
        let ghost mid = self.ids();
        let ghost h = handle;
        self.entries.insert(0, (id, handle));
        proof {
            assert(self.entries@[0].1 == h);
            assert(self.handle_of(id@) == Some(h));
            assert(self.ids() =~= seq![id@] + mid);
            assert(self.ids()[0] == id@);
            assert forall|k: Seq<char>| k != id@ implies (self.contains_id(k) <==> mid.contains(
                k,
            )) by {
                if mid.contains(k) {
                    let w = choose|w: int| 0 <= w < mid.len() && mid[w] == k;
                    assert(self.ids()[w + 1] == k);
                }
                if self.contains_id(k) {
                    let w = choose|w: int| 0 <= w < self.ids().len() && self.ids()[w] == k;
                    assert(mid[w - 1] == k);
                }
            }
        }
    }

    /// Deletes the entry for `id`; removing an absent id is a no-op.
    pub fn remove(&mut self, id: &String)
        ensures
            !final(self).contains_id(id@),
            forall|k: Seq<char>| k != id@ ==> (final(self).contains_id(k) <==> old(
                self,
            ).contains_id(k)),
            final(self).sent() == old(self).sent(),
    {
        broadcast use vstd::seq_lib::lemma_seq_contains_after_push;

        let ghost before = self.ids();
        let mut kept: Vec<(String, futures_channel::mpsc::UnboundedSender<tungstenite::Message>)> =
            Vec::new();
        proof {
            assert(entry_ids(kept@) =~= Seq::<Seq<char>>::empty());
        }
        while self.entries.len() > 0
            invariant
                before == old(self).ids(),
                self.log == old(self).log,
                forall|t: int| 0 <= t < kept@.len() ==> #[trigger] kept@[t].0@ != id@,
                forall|k: Seq<char>|
                    k != id@ ==> (before.contains(k) <==> (entry_ids(self.entries@).contains(k)
                        || entry_ids(kept@).contains(k))),
            decreases self.entries@.len(),
        {
            let ghost rem = entry_ids(self.entries@);
            let ghost keptids = entry_ids(kept@);
            let entry = self.entries.pop().unwrap();
            let ghost e = entry.0@;
            proof {
                assert(entry_ids(self.entries@) =~= rem.drop_last());
                assert(rem.drop_last().push(e) =~= rem);
            }
            if !entry.0.eq(id) {
                kept.push(entry);
                proof {
                    assert(entry_ids(kept@) =~= keptids.push(e));
                    assert forall|k: Seq<char>| k != id@ implies (before.contains(k) <==> (
                    entry_ids(self.entries@).contains(k) || entry_ids(kept@).contains(k))) by {
                        vstd::seq_lib::lemma_seq_contains_after_push(rem.drop_last(), e, k);
                        vstd::seq_lib::lemma_seq_contains_after_push(keptids, e, k);
                        assert(before.contains(k) <==> (rem.contains(k) || keptids.contains(k)));
                        assert(rem.contains(k) == rem.drop_last().push(e).contains(k));
                        assert(entry_ids(self.entries@) == rem.drop_last());
                        assert(entry_ids(kept@).contains(k) == keptids.push(e).contains(k));
                    }
                }
            } else {
                proof {
                    assert forall|k: Seq<char>| k != id@ implies (before.contains(k) <==> (
                    entry_ids(self.entries@).contains(k) || entry_ids(kept@).contains(k))) by {
                        vstd::seq_lib::lemma_seq_contains_after_push(rem.drop_last(), e, k);
                        assert(rem.contains(k) == rem.drop_last().push(e).contains(k));
                    }
                }
            }
        }
        proof {
            assert(entry_ids(self.entries@) =~= Seq::<Seq<char>>::empty());
        }
        self.entries = kept;
        proof {
            assert forall|w: int|
                0 <= w < entry_ids(self.entries@).len() implies entry_ids(self.entries@)[w]
                != id@ by {
                assert(entry_ids(self.entries@)[w] == self.entries@[w].0@);
            }
            assert(!self.contains_id(id@));
        }
    }

    /// Delivers `message` to exactly the connection `id`, recording the
    /// directed send in the history either way.  An unregistered id fails
    /// with `NotConnected`, as does a registered one whose channel has
    /// closed; a failure is not retried.
    pub fn send(&mut self, id: &String, message: String) -> (r: Result<(), RegistryError>)
        ensures
            final(self).ids() == old(self).ids(),
            final(self).sent() == old(self).sent().push((id@, message@)),
            !old(self).contains_id(id@) ==> r == Result::<(), RegistryError>::Err(
                RegistryError::NotConnected,
            ),
            r is Ok ==> old(self).contains_id(id@),
    {
        let ghost msg = message@;
        proof {
            self.log@ = self.log@.push((id@, msg));
        }
        let n = self.entries.len();
        let mut i: usize = 0;
        while i < n
            invariant
                i <= n,
                n == self.entries@.len(),
                self.entries@ == old(self).entries@,
                msg == message@,
                self.log@ == old(self).log@.push((id@, msg)),
                forall|t: int| 0 <= t < i ==> self.ids()[t] != id@,
            decreases n - i,
        {
            if self.entries[i].0.eq(id) {
                proof {
                    assert(self.ids()[i as int] == id@);
                }
                return match send_text(&self.entries[i].1, message) {
                    Ok(()) => Ok(()),
                    Err(()) => Err(RegistryError::NotConnected),
                };
            }
            i += 1;
        }
        proof {
            assert forall|w: int| 0 <= w < self.ids().len() implies self.ids()[w] != id@ by {}
            assert(!self.contains_id(id@));
        }
        Err(RegistryError::NotConnected)
    }

    /// Forwards `message` to every registered connection, best effort:
    /// a recipient whose channel has closed is skipped, never aborting
    /// delivery to the others.  The registered connections are unchanged.
    pub fn broadcast(&self, message: &String)
    {
        let n = self.entries.len();
        let mut i: usize = 0;
        while i < n
            invariant
                i <= n,
                n == self.entries@.len(),
            decreases n - i,
        {
            let text = message.clone();
            let _ignored = send_text(&self.entries[i].1, text);
            i += 1;
        }
    }
}

} // verus!
