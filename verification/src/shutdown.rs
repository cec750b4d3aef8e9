//! Whether a connection has been told to shut down. The notification comes
//! through a broadcast channel; once it has been received the flag stays set
//! and waiting again returns at once.

use tokio::sync::broadcast::Receiver;
use vstd::prelude::*;

verus! {

/// A call that changes a `Shutdown` (`is_shutdown` takes `&self` and changes
/// nothing).
pub enum ShutdownCall {
    /// `pending`
    Pending,
    /// `mark_received`, made once the notification has arrived
    MarkReceived,
}

/// The flag after one call, from the flag before it.
pub open spec fn received_after_call(received: bool, call: ShutdownCall) -> bool {
    match call {
        ShutdownCall::MarkReceived => true,
        ShutdownCall::Pending => received,
    }
}

/// The flag after a sequence of calls on a fresh `Shutdown`.
pub open spec fn received_after(calls: Seq<ShutdownCall>) -> bool
    decreases calls.len(),
{
    if calls.len() == 0 {
        false
    } else {
        received_after_call(received_after(calls.drop_last()), calls.last())
    }
}

/// The flag together with the calls that set it.
struct Flag {
    set: bool,
    calls: Ghost<Seq<ShutdownCall>>,
}

impl Flag {
    /// The flag is what the calls made so far give.
    #[verifier::type_invariant]
    closed spec fn follows_calls(&self) -> bool {
        self.set == received_after(self.calls@)
    }

    fn is_set(&self) -> (res: bool)
        ensures
            res == self.set,
            res == received_after(self.calls@),
    {
        proof {
            use_type_invariant(self);
        }
        self.set
    }

    fn record(&mut self, call: ShutdownCall)
        ensures
            final(self).calls@ == old(self).calls@.push(call),
            final(self).set == received_after_call(old(self).set, call),
            final(self).set == received_after(final(self).calls@),
    {
        proof {
            use_type_invariant(&*self);
        }
        let ghost calls = self.calls@.push(call);
        assert(calls.drop_last() =~= self.calls@);
        let set = match call {
            ShutdownCall::MarkReceived => true,
            ShutdownCall::Pending => self.set,
        };
        *self = Flag { set, calls: Ghost(calls) };
    }
}

pub struct Shutdown {
    notify: Receiver<()>,
    shutdown: Flag,
}

impl Shutdown {
    /// Whether the shutdown notification has been received.
    pub closed spec fn received(&self) -> bool {
        self.shutdown.set
    }

    /// The calls made on this value since `new`, in order.
    pub closed spec fn history(&self) -> Seq<ShutdownCall> {
        self.shutdown.calls@
    }

    /// The channel the notification comes through.
    pub closed spec fn channel(&self) -> Receiver<()> {
        self.notify
    }

    /// Watches `notify`; no notification has been received yet.
    pub fn new(notify: Receiver<()>) -> (res: Shutdown)
        ensures
            res.channel() == notify,
            res.history() == Seq::<ShutdownCall>::empty(),
            !res.received(),
    {
        Shutdown { notify, shutdown: Flag { set: false, calls: Ghost(Seq::empty()) } }
    }

    /// Whether the shutdown notification has been received: what the calls
    /// made since `new` give.
    pub fn is_shutdown(&self) -> (res: bool)
        ensures
            res == self.received(),
            res == received_after(self.history()),
    {
        self.shutdown.is_set()
    }

    /// The channel to wait on, where the notification has not been received
    /// yet; `None` where it has, so that waiting ends at once.
    pub fn pending(&mut self) -> (res: Option<&mut Receiver<()>>)
        ensures
            res is None <==> old(self).received(),
            final(self).history() == old(self).history().push(ShutdownCall::Pending),
            final(self).received() == received_after(final(self).history()),
            final(self).received() == old(self).received(),
            res matches Some(r) ==> *r == old(self).channel() && final(self).channel() == *final(r),
            res is None ==> final(self).channel() == old(self).channel(),
    {
        self.shutdown.record(ShutdownCall::Pending);
        if self.shutdown.is_set() {
            None
        } else {
            Some(&mut self.notify)
        }
    }

    /// Records that the notification (or the channel's closing) arrived.
    pub fn mark_received(&mut self)
        ensures
            final(self).history() == old(self).history().push(ShutdownCall::MarkReceived),
            final(self).received() == received_after(final(self).history()),
            final(self).received(),
            final(self).channel() == old(self).channel(),
    {
        self.shutdown.record(ShutdownCall::MarkReceived);
    }
}

/// Over any sequence of calls on a fresh `Shutdown` (its `history()`, which
/// `is_shutdown` reads through `received_after`), the flag is set exactly
/// when `mark_received` has been called (that is, a wait for the
/// notification has completed), and once set it never clears: it holds after
/// every longer sequence too.
pub proof fn lemma_flag_is_sticky(calls: Seq<ShutdownCall>)
    ensures
        received_after(calls) <==> exists|i: int|
            0 <= i < calls.len() && #[trigger] calls[i] == ShutdownCall::MarkReceived,
        forall|j: int|
            0 <= j <= calls.len() && #[trigger] received_after(calls.take(j)) ==> received_after(calls),
    decreases calls.len(),
{
    if calls.len() > 0 {
        let prefix = calls.drop_last();
        lemma_flag_is_sticky(prefix);
        if received_after(calls) {
            if !(calls.last() == ShutdownCall::MarkReceived) {
                let i = choose|i: int|
                    0 <= i < prefix.len() && #[trigger] prefix[i] == ShutdownCall::MarkReceived;
                assert(calls[i] == ShutdownCall::MarkReceived);
            } else {
                assert(calls[calls.len() - 1] == ShutdownCall::MarkReceived);
            }
        } else {
            assert forall|i: int| 0 <= i < calls.len() implies !(#[trigger] calls[i]
                == ShutdownCall::MarkReceived) by {
                if i < prefix.len() {
                    assert(prefix[i] == calls[i]);
                }
            }
        }
        assert forall|j: int|
            0 <= j <= calls.len() && #[trigger] received_after(calls.take(j)) implies received_after(
            calls) by {
            if j < calls.len() {
                assert(calls.take(j) == prefix.take(j));
                assert(received_after(prefix.take(j)));
            } else {
                assert(calls.take(j) == calls);
            }
        }
    } else {
        assert forall|j: int| 0 <= j <= calls.len() && #[trigger] received_after(calls.take(j))
            implies received_after(calls) by {
            assert(calls.take(j) == calls);
        }
    }
}

} // verus!
