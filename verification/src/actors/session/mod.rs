//! What the server knows of one client: how its requests become commands for the world, and what
//! it is sent of the world.

use crate::actors::world::{CommandView, WorldCommand};
use crate::entities::agent::{AgentId, AgentKey};
use crate::messages::{ServerMessage, ServerMessageView};
use vstd::prelude::*;

pub mod combat;
pub mod delta;
pub mod ids;
pub mod items;

use crate::actors::session::ids::{global_of, local_of, LocalIds};

verus! {

/// The session of one player.
#[derive(Debug)]
pub struct SessionActor {
    pub player_key: AgentKey,
    /// The agents that the client knows.
    pub agents: LocalIds,
    /// The containers that the client has open.
    pub containers: LocalIds,
}

/// The session and the world do not agree.
#[derive(Debug, Clone, Copy, PartialEq, Eq, Structural)]
pub enum SessionError {
    InvalidState,
}

/// What becomes of a request.
#[derive(Debug)]
pub enum Outcome {
    /// The world is asked to do something.
    Command(WorldCommand),
    /// The client is told that it cannot be done.
    Deny(&'static str),
    Nothing,
}

pub enum OutcomeView {
    Command(CommandView),
    Deny(Seq<char>),
    Nothing,
}

impl View for Outcome {
    type V = OutcomeView;

    open spec fn view(&self) -> OutcomeView {
        match *self {
            Outcome::Command(command) => OutcomeView::Command(command@),
            Outcome::Deny(text) => OutcomeView::Deny(text@),
            Outcome::Nothing => OutcomeView::Nothing,
        }
    }
}

/// Messages in the order in which they are sent.
pub open spec fn message_views(messages: Seq<ServerMessage>) -> Seq<ServerMessageView> {
    Seq::new(messages.len(), |i: int| messages[i]@)
}

impl SessionActor {
    pub open spec fn wf(&self) -> bool {
        self.agents.wf() && self.containers.wf()
    }

    /// A session whose client knows nothing yet.
    pub fn new(player_key: AgentKey) -> (s: Self)
        ensures
            s.wf(),
            s.player_key == player_key,
            s.agents@.len() == 0,
            s.containers@.len() == 0,
    {
        SessionActor { player_key, agents: LocalIds::new(), containers: LocalIds::new() }
    }

    /// By which number the client knows an agent.
    pub open spec fn id_of(&self, key: AgentKey) -> Option<AgentId> {
        match local_of(self.agents@, key.0) {
            Some(id) => Some(AgentId(id)),
            None => None,
        }
    }

    /// Which agent the client knows by a number.
    pub open spec fn key_of(&self, id: AgentId) -> Option<AgentKey> {
        match global_of(self.agents@, id.0) {
            Some(key) => Some(AgentKey(key)),
            None => None,
        }
    }

    /// By which number the client knows an agent.
    pub fn agent_id(&self, key: AgentKey) -> (r: Option<AgentId>)
        ensures
            r == self.id_of(key),
    {
        match self.agents.get_local(key.0) {
            Some(id) => Some(AgentId(id)),
            None => None,
        }
    }

    /// Which agent the client knows by a number.
    pub fn agent_key(&self, id: AgentId) -> (r: Option<AgentKey>)
        ensures
            r == self.key_of(id),
    {
        match self.agents.get_global(id.0) {
            Some(key) => Some(AgentKey(key)),
            None => None,
        }
    }
}

} // verus!
