//! The session manager's state: at most one live session process-wide,
//! the config it was established with (kept for reconnection), and its
//! last-activity time. The network itself lives outside; the manager is
//! the decision core of the connect / health-check / one-shot-reconnect
//! protocol, driven in two phases so that no lock is ever held across a
//! blocking call: a pure step that says what to do, then a commit of the
//! outcome.
use vstd::prelude::*;
use vstd::string::StringExecFns;
use crate::types::{PrintError, PrintErrorView, SSHConfig};

verus! {

/// A live, authenticated session: the transport handle is held by the
/// driver and identified here by a token.
pub struct ActiveSession {
    pub config: SSHConfig,
    pub last_activity: u64,
    pub transport: u64,
}

/// Owner of the single session resource.
pub struct SessionManager {
    pub session: Option<ActiveSession>,
}

/// The manager after a successful connect: the new session, under the
/// supplied config, fresh at `now`.
pub open spec fn spec_connect(
    m: SessionManager,
    config: SSHConfig,
    transport: u64,
    now: u64,
) -> SessionManager {
    SessionManager { session: Some(ActiveSession { config, last_activity: now, transport }) }
}

/// The manager after the session is dropped — by `disconnect` or by a
/// failed keep-alive probe.
pub open spec fn spec_drop_session(m: SessionManager) -> SessionManager {
    SessionManager { session: None }
}

impl SessionManager {
    /// Whether a session is currently held.
    pub open spec fn connected(&self) -> bool {
        self.session is Some
    }

    pub open spec fn config_view(&self) -> crate::types::SSHConfigView
        recommends
            self.connected(),
    {
        self.session->0.config@
    }

    pub open spec fn last_activity(&self) -> u64
        recommends
            self.connected(),
    {
        self.session->0.last_activity
    }

    pub open spec fn transport_token(&self) -> u64
        recommends
            self.connected(),
    {
        self.session->0.transport
    }

    /// A manager holding no session.
    pub fn new() -> (r: Self)
        ensures
            !r.connected(),
    {
        SessionManager { session: None }
    }

    /// Whether a session is held right now. Never fails and never
    /// blocks: the driver degrades lock contention to "not connected"
    /// rather than waiting.
    pub fn status(&self) -> (r: bool)
        ensures
            r == self.connected(),
    {
        match &self.session {
            Some(_) => true,
            None => false,
        }
    }

    /// Commits a successfully established and authenticated transport:
    /// the manager stores the session and the config it was built with,
    /// and reports a human-readable confirmation naming the host.
    pub fn connect_established(&mut self, config: SSHConfig, transport: u64, now: u64) -> (r:
        String)
        ensures
            *final(self) == spec_connect(*old(self), config, transport, now),
            final(self).connected(),
            final(self).config_view() == config@,
            final(self).last_activity() == now,
            final(self).transport_token() == transport,
            r@ == "Connected to "@ + config.host@,
    {
        let message = String::from_str("Connected to ").concat(config.host.as_str());
        self.session = Some(ActiveSession { config, last_activity: now, transport });
        message
    }

    /// Drops the session. Fails exactly when none exists.
    pub fn disconnect(&mut self) -> (r: Result<(), PrintError>)
        ensures
            match r {
                Ok(_) => old(self).connected() && *final(self) == spec_drop_session(*old(self)),
                Err(e) => !old(self).connected() && *final(self) == *old(self) && e@
                    == (PrintErrorView::Connection { message: "no active session"@ }),
            },
    {
        match &self.session {
            Some(_) => {
                self.session = None;
                Ok(())
            },
            None => Err(
                PrintError::Connection { message: String::from_str("no active session") },
            ),
        }
    }

    /// First phase of the health check run before every remote command:
    /// names the transport to probe. Fails exactly when no session is
    /// held, with the error that tells the caller to connect first.
    pub fn probe_target(&self) -> (r: Result<u64, PrintError>)
        ensures
            match r {
                Ok(t) => self.connected() && t == self.transport_token(),
                Err(e) => !self.connected() && e@ == (PrintErrorView::Connection {
                    message: "no active session"@,
                }),
            },
    {
        match &self.session {
            Some(s) => Ok(s.transport),
            None => Err(
                PrintError::Connection { message: String::from_str("no active session") },
            ),
        }
    }

    /// Commits a successful keep-alive probe: the session stays, its
    /// last-activity time moves to `now`.
    pub fn probe_succeeded(&mut self, now: u64)
        requires
            old(self).connected(),
        ensures
            final(self).connected(),
            final(self).config_view() == old(self).config_view(),
            final(self).transport_token() == old(self).transport_token(),
            final(self).last_activity() == now,
    {
        match &mut self.session {
            Some(s) => {
                s.last_activity = now;
            },
            None => {},
        }
    }

    /// Commits a failed keep-alive probe: the dead session is discarded
    /// and the stored config is handed back for the single silent
    /// reconnection attempt. Fails exactly when no session was held.
    pub fn probe_failed_take_config(&mut self) -> (r: Result<SSHConfig, PrintError>)
        ensures
            match r {
                Ok(cfg) => old(self).connected() && cfg@ == old(self).config_view() && *final(self)
                    == spec_drop_session(*old(self)),
                Err(e) => !old(self).connected() && *final(self) == *old(self) && e@
                    == (PrintErrorView::Connection { message: "no active session"@ }),
            },
    {
        let taken = self.session.take();
        match taken {
            Some(s) => Ok(s.config),
            None => Err(
                PrintError::Connection { message: String::from_str("no active session") },
            ),
        }
    }
}

/// The error surfaced when the single silent reconnection attempt also
/// failed: no further retry, the caller must reconnect explicitly.
pub fn reconnect_failed_error() -> (r: PrintError)
    ensures
        r@ == (PrintErrorView::Connection {
            message: "connection lost; reconnect and try again"@,
        }),
{
    PrintError::Connection { message: String::from_str("connection lost; reconnect and try again") }
}

// ---------- Laws ----------

/// Connecting reports connected, and disconnecting afterwards reports
/// not connected: `status` returns exactly what these transitions leave
/// behind, whatever the manager held before.
pub proof fn lemma_connect_disconnect_status(
    m: SessionManager,
    config: SSHConfig,
    transport: u64,
    now: u64,
)
    ensures
        spec_connect(m, config, transport, now).connected(),
        !spec_drop_session(spec_connect(m, config, transport, now)).connected(),
{
}

/// One failed probe followed by a reconnect with the stored config
/// leaves the manager connected under the same config: the command that
/// triggered the health check can then run normally, and its caller
/// observes no error.
pub proof fn lemma_probe_failure_reconnect_restores(m: SessionManager, transport: u64, now: u64)
    requires
        m.connected(),
    ensures
        ({
            let cfg = m.session->0.config;
            let m2 = spec_connect(spec_drop_session(m), cfg, transport, now);
            m2.connected() && m2.config_view() == m.config_view() && m2.last_activity() == now
        }),
{
}

} // verus!
