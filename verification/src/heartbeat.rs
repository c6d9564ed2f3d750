//! The heartbeat control: a button that starts and stops a heartbeat on the
//! coordinator's side.

use vstd::prelude::*;
use crate::ids::{is_random_id, mint_id, CorrelationId, SubscriberId};
use crate::messages::{Call, Request, RequestMessage};
use crate::router::LongRunnerCtx;

verus! {

/// What can happen to the heartbeat control.
#[derive(Clone, Debug, PartialEq, Eq)]
pub enum Msg {
    Ack(CorrelationId),
    IncrementTimer,
    /// The button was clicked.
    HeartbeatClick,
    EndHeartbeat,
    /// A result came back from the coordinator.
    Emission(String),
}

/// Where the heartbeat stands.
#[derive(Clone, Copy, Debug, PartialEq, Eq, Structural)]
pub enum HeartbeatStatus {
    Off,
    Started,
    Running(u128),
    Cancelling,
}

impl Default for HeartbeatStatus {
    fn default() -> (status: HeartbeatStatus)
        ensures
            status == HeartbeatStatus::Off,
    {
        HeartbeatStatus::Off
    }
}

impl HeartbeatStatus {
    /// The status after a click on the button. `fresh` is the identifier
    /// under which a started heartbeat runs.
    pub open spec fn clicked(self, fresh: u128) -> HeartbeatStatus {
        match self {
            HeartbeatStatus::Off => HeartbeatStatus::Started,
            HeartbeatStatus::Started => HeartbeatStatus::Running(fresh),
            HeartbeatStatus::Running(_) => HeartbeatStatus::Cancelling,
            HeartbeatStatus::Cancelling => HeartbeatStatus::Off,
        }
    }

    /// The text on the button.
    pub open spec fn label(self) -> Seq<char> {
        match self {
            HeartbeatStatus::Off => "Start"@,
            HeartbeatStatus::Started => "Starting..."@,
            HeartbeatStatus::Running(_) => "Cancel"@,
            HeartbeatStatus::Cancelling => "Stopping ..."@,
        }
    }
}

/// The state of one heartbeat control.
#[derive(Clone, Copy, Debug, PartialEq, Eq, Structural)]
pub struct HeartbeatState {
    /// The subscriber id under which the control is registered.
    pub guid: SubscriberId,
    pub status: HeartbeatStatus,
}

impl HeartbeatState {
    /// The state of a control that was just made: off.
    pub fn new(guid: SubscriberId) -> (state: HeartbeatState)
        ensures
            state == (HeartbeatState { guid, status: HeartbeatStatus::Off }),
    {
        HeartbeatState { guid, status: HeartbeatStatus::Off }
    }

    /// Whether `action` moves the control on by one step: a click does,
    /// unless it is the click that starts the heartbeat and the request
    /// cannot be sent because its correlation id is already in use.
    pub open spec fn moves_on(self, action: Msg, in_use: bool) -> bool {
        action is HeartbeatClick && !(self.status is Off && in_use)
    }

    /// The text on the button.
    pub fn text(&self) -> (text: &'static str)
        ensures
            text@ == self.status.label(),
    {
        match self.status {
            HeartbeatStatus::Off => "Start",
            HeartbeatStatus::Started => "Starting...",
            HeartbeatStatus::Running(_) => "Cancel",
            HeartbeatStatus::Cancelling => "Stopping ...",
        }
    }

    /// The state after `action`, where `fresh` is the identifier to use if
    /// the action needs a new one. A click moves the control on by one step.
    /// The click that starts the heartbeat also sends the request, for which
    /// the control must be registered with `long_runner`; if `fresh` is not
    /// fresh there, nothing is sent and the control stays off. Any other
    /// action leaves the state as it is.
    pub fn reduce_with<C>(
        self,
        action: &Msg,
        fresh: u128,
        long_runner: &mut LongRunnerCtx<C>,
    ) -> (next: (HeartbeatState, Option<Call>))
        requires
            old(long_runner).wf(),
            *action is HeartbeatClick && self.status is Off ==> old(long_runner)@.is_registered(
                self.guid,
            ),
        ensures
            final(long_runner).wf(),
            next.0.guid == self.guid,
            next.0.status == if self.moves_on(*action, old(long_runner)@.is_pending(fresh)) {
                self.status.clicked(fresh)
            } else {
                self.status
            },
            match next.1 {
                Some(call) => {
                    &&& *action is HeartbeatClick
                    &&& self.status is Off
                    &&& !old(long_runner)@.is_pending(fresh)
                    &&& call.guid == fresh
                    &&& call.request.message == RequestMessage::Heartbeat
                    &&& final(long_runner)@ == old(long_runner)@.sent(fresh, self.guid)
                },
                None => {
                    &&& !(*action is HeartbeatClick && self.status is Off && !old(
                        long_runner,
                    )@.is_pending(fresh))
                    &&& final(long_runner)@ == old(long_runner)@
                },
            },
    {
        match action {
            Msg::HeartbeatClick => match self.status {
                HeartbeatStatus::Off => {
                    let msg = Request { message: RequestMessage::Heartbeat };
                    match long_runner.send_as(fresh, &self.guid, msg) {
                        Some(call) => (
                            HeartbeatState { guid: self.guid, status: HeartbeatStatus::Started },
                            Some(call),
                        ),
                        None => (self, None),
                    }
                },
                HeartbeatStatus::Started => (
                    HeartbeatState { guid: self.guid, status: HeartbeatStatus::Running(fresh) },
                    None,
                ),
                HeartbeatStatus::Running(_) => (
                    HeartbeatState { guid: self.guid, status: HeartbeatStatus::Cancelling },
                    None,
                ),
                HeartbeatStatus::Cancelling => (
                    HeartbeatState { guid: self.guid, status: HeartbeatStatus::Off },
                    None,
                ),
            },
            _ => (self, None),
        }
    }

    /// The state after `action`; see `reduce_with`. Where the action needs a
    /// new identifier, one is minted: the correlation id of the request that
    /// starts the heartbeat, and the identifier under which it then runs.
    /// The click that starts the heartbeat sends the request whenever nobody
    /// waits for an id of the shape that minted ids have; it can only fail to
    /// send while somebody does.
    pub fn reduce<C>(self, action: &Msg, long_runner: &mut LongRunnerCtx<C>) -> (next: (
        HeartbeatState,
        Option<Call>,
    ))
        requires
            old(long_runner).wf(),
            *action is HeartbeatClick && self.status is Off ==> old(long_runner)@.is_registered(
                self.guid,
            ),
        ensures
            final(long_runner).wf(),
            next.0.guid == self.guid,
            *action is HeartbeatClick && self.status is Off && (forall|guid: CorrelationId|
                is_random_id(guid) ==> !(#[trigger] old(long_runner)@.is_pending(guid)))
                ==> next.1 is Some,
            !(*action is HeartbeatClick) ==> next.0.status == self.status,
            *action is HeartbeatClick ==> match self.status {
                HeartbeatStatus::Off => next.0.status == if next.1 is Some {
                    HeartbeatStatus::Started
                } else {
                    HeartbeatStatus::Off
                },
                HeartbeatStatus::Started => next.0.status is Running && is_random_id(
                    next.0.status->Running_0,
                ),
                HeartbeatStatus::Running(_) => next.0.status is Cancelling,
                HeartbeatStatus::Cancelling => next.0.status is Off,
            },
            match next.1 {
                Some(call) => {
                    &&& *action is HeartbeatClick && self.status is Off
                    &&& is_random_id(call.guid)
                    &&& !old(long_runner)@.is_pending(call.guid)
                    &&& call.request.message == RequestMessage::Heartbeat
                    &&& final(long_runner)@ == old(long_runner)@.sent(call.guid, self.guid)
                },
                None => {
                    &&& final(long_runner)@ == old(long_runner)@
                    &&& *action is HeartbeatClick && self.status is Off
                        ==> (exists|guid: CorrelationId|
                        is_random_id(guid) && #[trigger] old(long_runner)@.is_pending(guid))
                },
            },
    {
        let needs_fresh = match action {
            Msg::HeartbeatClick => match self.status {
                HeartbeatStatus::Off | HeartbeatStatus::Started => true,
                _ => false,
            },
            _ => false,
        };
        let fresh: u128 = if needs_fresh {
            mint_id()
        } else {
            0
        };
        self.reduce_with(action, fresh, long_runner)
    }
}

} // verus!
