//! Where something said is heard.

use vstd::prelude::*;

verus! {

#[derive(Debug, Clone, Copy, PartialEq, Eq, Hash, Structural)]
pub struct ChannelId(pub u16);

#[derive(Debug, Clone, Copy, PartialEq, Eq, Hash, Structural)]
pub enum ChatMessageType {
    Local,
    Private,
    Channel,
}

/// Whom a player speaks to.
#[derive(Debug, Clone, PartialEq, Eq)]
pub enum SayTarget {
    Local,
    Channel(ChannelId),
    Player(String),
}

} // verus!
