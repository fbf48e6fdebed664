//! The relay's hook surface: what it asks of the host when loaded, and what it
//! decides for each host call. The relay keeps no state between calls; every
//! hook leaves it unchanged, and the host performs the actions it returns.

use std::collections::BTreeMap;

use vstd::prelude::*;

use crate::command::{command_of, command_view, parse_command, RenameCommand};

verus! {

/// The one privileged operation the relay needs from its host.
#[derive(Clone, Copy, PartialEq, Eq, Debug)]
pub enum Capability {
    ChangeApplicationState,
}

/// The host notifications the relay registers interest in.
#[derive(Clone, Copy, PartialEq, Eq, Debug)]
pub enum EventKind {
    PermissionRequestResult,
}

/// Everything the relay asks of the host at load time.
pub struct LoadActions {
    /// The capabilities to request, in order.
    pub permissions: Vec<Capability>,
    /// The event kinds to subscribe to, in order.
    pub subscriptions: Vec<EventKind>,
}

/// An inbound pipe message. Only `payload` is ever read: the relay decodes
/// every payload that reaches it, whatever the message is named.
pub struct PipeMessage {
    pub name: String,
    pub payload: Option<String>,
}

/// A host-delivered event. The relay ignores them all, including the answer
/// to its own capability request.
pub enum HostEvent {
    /// The host's answer to a capability request: `true` when granted.
    PermissionRequestResult(bool),
    /// Any other event the host may deliver.
    Other,
}

/// The command a pipe message asks for: the decoded payload, or nothing when
/// the message carries no payload.
pub open spec fn message_command(m: PipeMessage) -> Option<(u32, Seq<char>)> {
    match m.payload {
        Some(p) => command_of(p@),
        None => None,
    }
}

/// The relay itself: a stateless command bridge, one value per plugin instance.
pub struct PaneRenamer;

impl PaneRenamer {
    /// Called once at load time. Whatever the configuration holds, the relay
    /// asks for exactly one capability — changing application state — and
    /// exactly one subscription — the host's answer to that request.
    pub fn load(&mut self, _configuration: BTreeMap<String, String>) -> (actions: LoadActions)
        ensures
            *final(self) == *old(self),
            actions.permissions@ == seq![Capability::ChangeApplicationState],
            actions.subscriptions@ == seq![EventKind::PermissionRequestResult],
    {
        let mut permissions: Vec<Capability> = Vec::new();
        permissions.push(Capability::ChangeApplicationState);
        let mut subscriptions: Vec<EventKind> = Vec::new();
        subscriptions.push(EventKind::PermissionRequestResult);
        proof {
            assert(permissions@ =~= seq![Capability::ChangeApplicationState]);
            assert(subscriptions@ =~= seq![EventKind::PermissionRequestResult]);
        }
        LoadActions { permissions, subscriptions }
    }

    /// Called for every inbound pipe message. Returns the rename command the
    /// payload denotes, if any, together with `false`: the relay is an
    /// observer and never blocks the message for downstream consumers.
    pub fn pipe(&mut self, pipe_message: PipeMessage) -> (r: (Option<RenameCommand>, bool))
        ensures
            *final(self) == *old(self),
            command_view(r.0) == message_command(pipe_message),
            r.1 == false,
    {
        let command = match &pipe_message.payload {
            Some(payload) => parse_command(payload.as_str()),
            None => None,
        };
        (command, false)
    }

    /// Called for every event the relay is subscribed to. It ignores the
    /// event's contents and never asks to be re-rendered.
    pub fn update(&mut self, _event: HostEvent) -> (render_needed: bool)
        ensures
            *final(self) == *old(self),
            render_needed == false,
    {
        false
    }

    /// The relay draws nothing, at any size.
    pub fn render(&mut self, _rows: usize, _cols: usize)
        ensures
            *final(self) == *old(self),
    {
    }
}

impl Default for PaneRenamer {
    /// The host builds the plugin's single instance through `Default`.
    fn default() -> (r: Self)
        ensures
            r == (PaneRenamer),
    {
        PaneRenamer
    }
}

} // verus!
