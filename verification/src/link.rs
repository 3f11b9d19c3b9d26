//! A pooled connection to another server.
//!
//! Clients, replication and upstream resolution talk to a server the same way:
//! a connection is kept open, and one that has gone stale is dialed again once
//! rather than failing the request outright. The network is the caller's: it
//! performs the [`LinkTask`] and hands back what came of it.

use vstd::prelude::*;

use crate::error::{Error, ErrorModel, Result, outcome};
use crate::protocol::{Response, ResponseModel};

verus! {

/// What a request over a link needs next.
#[derive(Debug, Clone, Copy, PartialEq, Eq, Structural)]
pub enum LinkTask {
    /// Send the request over the connection at hand and await the reply.
    Exchange,
    /// Open a new connection; the one at hand, if any, is of no use.
    Dial,
}

/// How far a request has come.
#[derive(Debug, Clone, Copy, PartialEq, Eq, Structural)]
pub enum LinkPhase {
    /// It goes over the connection that was kept.
    Kept,
    /// A new connection is wanted.
    Dialing,
    /// It goes over a connection that was opened for it.
    Fresh,
}

/// Where a request starts: over the connection that was kept, if there is one.
pub open spec fn phase_at_start(connected: bool) -> LinkPhase {
    if connected {
        LinkPhase::Kept
    } else {
        LinkPhase::Dialing
    }
}

/// What the request needs in a phase.
pub open spec fn task_in(p: LinkPhase) -> LinkTask {
    match p {
        LinkPhase::Dialing => LinkTask::Dial,
        _ => LinkTask::Exchange,
    }
}

/// What an attempt at an exchange comes to.
#[derive(Debug, PartialEq, Eq)]
pub enum LinkOutcome {
    /// The request is answered, and the connection is kept for the next one.
    Answered(Response),
    /// The request has failed, and no connection is kept.
    Failed(Error),
    /// The connection had gone stale: it is dropped and the request goes on.
    Redial,
}

/// A [`LinkOutcome`] taken by the views of its parts.
#[verifier::ext_equal]
pub enum LinkOutcomeModel {
    Answered(ResponseModel),
    Failed(ErrorModel),
    Redial,
}

impl View for LinkOutcome {
    type V = LinkOutcomeModel;

    open spec fn view(&self) -> LinkOutcomeModel {
        match *self {
            LinkOutcome::Answered(r) => LinkOutcomeModel::Answered(r@),
            LinkOutcome::Failed(e) => LinkOutcomeModel::Failed(e@),
            LinkOutcome::Redial => LinkOutcomeModel::Redial,
        }
    }
}

/// What an exchange in a phase comes to, and the phase after it: only a
/// connection that was kept gets a second chance.
pub open spec fn exchanged_in(
    p: LinkPhase,
    reply: std::result::Result<ResponseModel, ErrorModel>,
) -> (LinkOutcomeModel, LinkPhase) {
    match reply {
        Ok(r) => (LinkOutcomeModel::Answered(r), p),
        Err(e) => if p is Kept {
            (LinkOutcomeModel::Redial, LinkPhase::Dialing)
        } else {
            (LinkOutcomeModel::Failed(e), p)
        },
    }
}

/// One request over a link.
pub struct LinkRequest {
    phase: LinkPhase,
}

impl View for LinkRequest {
    type V = LinkPhase;

    closed spec fn view(&self) -> LinkPhase {
        self.phase
    }
}

impl LinkRequest {
    /// A request over a link that has a connection, or has none.
    pub fn start(connected: bool) -> (r: Self)
        ensures
            r@ == phase_at_start(connected),
    {
        LinkRequest {
            phase: if connected {
                LinkPhase::Kept
            } else {
                LinkPhase::Dialing
            },
        }
    }

    /// What the request needs next.
    pub fn task(&self) -> (t: LinkTask)
        ensures
            t == task_in(self@),
    {
        match self.phase {
            LinkPhase::Dialing => LinkTask::Dial,
            _ => LinkTask::Exchange,
        }
    }

    /// A new connection was opened.
    pub fn dialed(&mut self)
        ensures
            final(self)@ == LinkPhase::Fresh,
    {
        self.phase = LinkPhase::Fresh;
    }

    /// What came of the exchange.
    pub fn exchanged(&mut self, reply: Result<Response>) -> (o: LinkOutcome)
        ensures
            (o@, final(self)@) == exchanged_in(old(self)@, outcome(reply)),
    {
        match reply {
            Ok(r) => LinkOutcome::Answered(r),
            Err(e) => match self.phase {
                LinkPhase::Kept => {
                    self.phase = LinkPhase::Dialing;
                    LinkOutcome::Redial
                },
                _ => LinkOutcome::Failed(e),
            },
        }
    }
}

/// A request is dialed for at most once: after a new connection was opened, an
/// exchange settles it either way.
pub proof fn a_request_dials_once(reply: std::result::Result<ResponseModel, ErrorModel>)
    ensures
        exchanged_in(LinkPhase::Fresh, reply).0 !is Redial,
        exchanged_in(LinkPhase::Fresh, reply).1 == LinkPhase::Fresh,
{
}

/// A stale connection fails no request: what went wrong on it is forgotten,
/// and the request goes on over a new one.
pub proof fn a_stale_connection_is_forgiven(e: ErrorModel)
    ensures
        exchanged_in(LinkPhase::Kept, Err(e)) == (LinkOutcomeModel::Redial, LinkPhase::Dialing),
        task_in(LinkPhase::Dialing) == LinkTask::Dial,
{
}

} // verus!
