//! The life cycle of a client's connection to a server: pending, then
//! authenticating, then connected, and finally disconnected.
use vstd::prelude::*;

verus! {

/// The phases a connection goes through.
#[derive(Copy, Clone, PartialEq, Eq, Debug, Structural)]
pub enum ConnectionPhase {
    /// Nothing has been sent yet.
    Pending,
    /// The authentication request is on its way.
    Auth,
    /// The server accepted the client.
    Connected,
    /// The connection is gone; nothing brings it back.
    Disconnected,
}

/// The phase of a client's connection to one server.
pub struct ServerState {
    phase: ConnectionPhase,
}

/// Moving to `Auth`: succeeds only from `Pending`.
pub open spec fn spec_try_set_auth(p: ConnectionPhase) -> (bool, ConnectionPhase) {
    if p == ConnectionPhase::Pending {
        (true, ConnectionPhase::Auth)
    } else {
        (false, p)
    }
}

/// Moving to `Connected`: succeeds only from `Auth`.
pub open spec fn spec_try_set_connected(p: ConnectionPhase) -> (bool, ConnectionPhase) {
    if p == ConnectionPhase::Auth {
        (true, ConnectionPhase::Connected)
    } else {
        (false, p)
    }
}

/// Moving to `Disconnected`: always ends there, and reports whether the
/// connection was not disconnected before.
pub open spec fn spec_try_set_disconnected(p: ConnectionPhase) -> (bool, ConnectionPhase) {
    (p != ConnectionPhase::Disconnected, ConnectionPhase::Disconnected)
}

/// How far along its life cycle a phase is.
pub open spec fn phase_rank(p: ConnectionPhase) -> int {
    match p {
        ConnectionPhase::Pending => 0,
        ConnectionPhase::Auth => 1,
        ConnectionPhase::Connected => 2,
        ConnectionPhase::Disconnected => 3,
    }
}

impl View for ServerState {
    type V = ConnectionPhase;

    closed spec fn view(&self) -> ConnectionPhase {
        self.phase
    }
}

impl ServerState {
    /// A connection that has not started yet.
    pub fn new() -> (r: Self)
        ensures
            r@ == ConnectionPhase::Pending,
    {
        ServerState { phase: ConnectionPhase::Pending }
    }

    /// Marks the start of authentication; returns whether the connection was
    /// pending.
    pub fn try_set_auth(&mut self) -> (r: bool)
        ensures
            (r, final(self)@) == spec_try_set_auth(old(self)@),
    {
        match self.phase {
            ConnectionPhase::Pending => {
                self.phase = ConnectionPhase::Auth;
                true
            },
            _ => false,
        }
    }

    /// Marks the connection as accepted; returns whether it was
    /// authenticating.
    pub fn try_set_connected(&mut self) -> (r: bool)
        ensures
            (r, final(self)@) == spec_try_set_connected(old(self)@),
    {
        match self.phase {
            ConnectionPhase::Auth => {
                self.phase = ConnectionPhase::Connected;
                true
            },
            _ => false,
        }
    }

    /// Marks the connection as gone, from any phase; returns whether it was
    /// not gone before, so that exactly one caller reports the loss.
    pub fn try_set_disconnected(&mut self) -> (r: bool)
        ensures
            (r, final(self)@) == spec_try_set_disconnected(old(self)@),
    {
        let was_connected = match self.phase {
            ConnectionPhase::Disconnected => false,
            _ => true,
        };
        self.phase = ConnectionPhase::Disconnected;
        was_connected
    }

    /// Whether the server accepted the client and the connection is not
    /// gone.
    pub fn is_connected(&self) -> (r: bool)
        ensures
            r == (self@ == ConnectionPhase::Connected),
    {
        match self.phase {
            ConnectionPhase::Connected => true,
            _ => false,
        }
    }
}

/// No transition moves a connection back to an earlier phase.
pub proof fn lemma_phase_never_goes_back(p: ConnectionPhase)
    ensures
        phase_rank(spec_try_set_auth(p).1) >= phase_rank(p),
        phase_rank(spec_try_set_connected(p).1) >= phase_rank(p),
        phase_rank(spec_try_set_disconnected(p).1) >= phase_rank(p),
{
}

/// Once disconnected, a connection stays disconnected and every transition
/// reports failure.
pub proof fn lemma_disconnected_is_final()
    ensures
        spec_try_set_auth(ConnectionPhase::Disconnected) == (false, ConnectionPhase::Disconnected),
        spec_try_set_connected(ConnectionPhase::Disconnected) == (false, ConnectionPhase::Disconnected),
        spec_try_set_disconnected(ConnectionPhase::Disconnected) == (false, ConnectionPhase::Disconnected),
{
}

/// A transition that reports success always changes the phase, so of two
/// callers racing for the same transition at most one is told it won.
pub proof fn lemma_success_changes_phase(p: ConnectionPhase)
    ensures
        spec_try_set_auth(p).0 ==> spec_try_set_auth(p).1 != p,
        spec_try_set_connected(p).0 ==> spec_try_set_connected(p).1 != p,
        spec_try_set_disconnected(p).0 ==> spec_try_set_disconnected(p).1 != p,
        !spec_try_set_disconnected(spec_try_set_disconnected(p).1).0,
{
}

/// The only way to become connected is through authentication: `Connected`
/// is reached from `Auth` by `try_set_connected`, and from no other phase by
/// any transition.
pub proof fn lemma_connected_only_after_auth(p: ConnectionPhase)
    ensures
        spec_try_set_connected(p).1 == ConnectionPhase::Connected ==> p == ConnectionPhase::Auth
            || p == ConnectionPhase::Connected,
        spec_try_set_auth(p).1 == ConnectionPhase::Connected ==> p == ConnectionPhase::Connected,
        spec_try_set_disconnected(p).1 != ConnectionPhase::Connected,
{
}

/// One call of a transition.
#[derive(Copy, Clone, PartialEq, Eq, Debug, Structural)]
pub enum Transition {
    SetAuth,
    SetConnected,
    SetDisconnected,
}

/// One transition applied to a phase: whether it reported success, and the
/// phase after it.
pub open spec fn spec_step(p: ConnectionPhase, t: Transition) -> (bool, ConnectionPhase) {
    match t {
        Transition::SetAuth => spec_try_set_auth(p),
        Transition::SetConnected => spec_try_set_connected(p),
        Transition::SetDisconnected => spec_try_set_disconnected(p),
    }
}

/// Transitions applied one after the other, in the order the calls took
/// effect: what each call reported, and the phase after the last.
pub open spec fn spec_run(p: ConnectionPhase, ts: Seq<Transition>) -> (Seq<bool>, ConnectionPhase)
    decreases ts.len(),
{
    if ts.len() == 0 {
        (Seq::empty(), p)
    } else {
        let (ok, q) = spec_step(p, ts[0]);
        let (oks, last) = spec_run(q, ts.drop_first());
        (seq![ok] + oks, last)
    }
}

/// Once disconnected, every later sequence of calls reports failure for each
/// call and leaves the connection disconnected, so it is never seen as
/// connected again.
pub proof fn lemma_disconnected_absorbs(ts: Seq<Transition>)
    ensures
        spec_run(ConnectionPhase::Disconnected, ts).1 == ConnectionPhase::Disconnected,
        spec_run(ConnectionPhase::Disconnected, ts).0.len() == ts.len(),
        forall|i: int| 0 <= i < ts.len() ==> !#[trigger] spec_run(ConnectionPhase::Disconnected, ts).0[i],
    decreases ts.len(),
{
    if ts.len() > 0 {
        lemma_disconnected_absorbs(ts.drop_first());
        let oks = spec_run(ConnectionPhase::Disconnected, ts.drop_first()).0;
        assert forall|i: int| 0 <= i < ts.len() implies !#[trigger] spec_run(ConnectionPhase::Disconnected, ts).0[i] by {
            if i > 0 {
                assert(spec_run(ConnectionPhase::Disconnected, ts).0[i] == oks[i - 1]);
            }
        }
    }
}

/// Of `k >= 1` disconnect calls, in whatever order they take effect, the
/// first reports whether the connection was not disconnected yet and every
/// other one reports failure: exactly one caller learns of the loss when
/// there was one to learn of. Afterwards the connection is disconnected.
pub proof fn lemma_one_disconnect_reports(p: ConnectionPhase, k: nat)
    requires
        k >= 1,
    ensures
        ({
            let (oks, last) = spec_run(p, Seq::new(k, |i: int| Transition::SetDisconnected));
            &&& last == ConnectionPhase::Disconnected
            &&& oks.len() == k
            &&& oks[0] == (p != ConnectionPhase::Disconnected)
            &&& forall|i: int| 1 <= i < k ==> !#[trigger] oks[i]
        }),
{
    let ts = Seq::new(k, |i: int| Transition::SetDisconnected);
    let rest = ts.drop_first();
    lemma_disconnected_absorbs(rest);
    let oks = spec_run(p, ts).0;
    let oks1 = spec_run(ConnectionPhase::Disconnected, rest).0;
    assert forall|i: int| 1 <= i < k implies !#[trigger] oks[i] by {
        assert(oks[i] == oks1[i - 1]);
    }
}

} // verus!
