//! What a client and the server tell each other.

use crate::entities::agent::{AgentId, Facing, OutfitColors, OutfitId, Pool};
use crate::entities::chat::{ChannelId, ChatMessageType, SayTarget};
use crate::entities::effects::{EffectId, MissileId};
use crate::entities::inventory::InventorySlot;
use crate::entities::items::{ClientItemRef, ContainerId, ItemId};
use crate::entities::position::{Direction, Position};
use crate::entities::skills::SkillType;
use crate::entities::spells::{SpellGroup, SpellId, SpellTarget};
use vstd::prelude::*;

verus! {

/// What a client is told of one tile: its items from the ground up, each with its amount.
pub type ItemStack = [Option<(ItemId, u8)>; 8];

#[derive(Debug, Clone, Copy, PartialEq, Eq, Structural)]
pub struct Color(pub u8, pub u8, pub u8);

#[derive(Debug, Clone, Copy, PartialEq, Eq, Structural)]
pub enum TextMessageType {
    ActionDenied,
    Look,
}

#[derive(Debug, Clone, Copy, PartialEq, Eq, Structural)]
pub enum FloatingTextType {
    HitPoints,
    CreatureSay,
}

/// A skill's level, and how much of the next one is done, in hundredths of a percent.
#[derive(Debug, Clone, Copy, PartialEq, Eq, Structural)]
pub struct SkillProgress {
    pub level: u16,
    pub percent_bp: u16,
}

/// One line of the list of spells that a player can cast.
#[derive(Debug, Clone, PartialEq, Eq)]
pub struct SpellListEntry {
    pub id: SpellId,
    pub name: String,
    pub words: String,
    pub level: u16,
    pub icon: u16,
    pub aimable: bool,
    pub group: SpellGroup,
}

/// A `SpellListEntry` as its characters and numbers.
pub struct SpellListEntryView {
    pub id: SpellId,
    pub name: Seq<char>,
    pub words: Seq<char>,
    pub level: u16,
    pub icon: u16,
    pub aimable: bool,
    pub group: SpellGroup,
}

impl View for SpellListEntry {
    type V = SpellListEntryView;

    open spec fn view(&self) -> SpellListEntryView {
        SpellListEntryView {
            id: self.id,
            name: self.name@,
            words: self.words@,
            level: self.level,
            icon: self.icon,
            aimable: self.aimable,
            group: self.group,
        }
    }
}

/// What a client asks of the server.
#[allow(inconsistent_fields)]
#[derive(Debug, Clone, PartialEq, Eq)]
pub enum ClientMessage {
    Ping,
    Login { auth_token: String },
    MovePlayer { direction: Direction },
    GetPlayerPosition,
    MoveItem { item: ClientItemRef, amount: u8, to: Position },
    UseItem { item: ClientItemRef },
    CloseContainer { container_id: ContainerId },
    OpenParentContainer { container_id: ContainerId },
    ChangeDirection { direction: Facing },
    Logout,
    UseItemWith { source: ClientItemRef, target: ClientItemRef, target_agent: Option<AgentId> },
    Look { position: Position },
    Say { message: String, target: SayTarget },
    RequestChannels,
    OpenChannel { channel: ChannelId },
    CloseChannel { channel: ChannelId },
    OpenPmChat { name: String },
    SetTarget { agent_id: Option<AgentId>, seq: u32 },
    CastSpell { spell_id: SpellId, target: SpellTarget, param: Option<String> },
}

/// Whom a player speaks to, as its characters and numbers.
pub enum SayTargetView {
    Local,
    Channel(ChannelId),
    Player(Seq<char>),
}

impl View for SayTarget {
    type V = SayTargetView;

    open spec fn view(&self) -> SayTargetView {
        match *self {
            SayTarget::Local => SayTargetView::Local,
            SayTarget::Channel(channel) => SayTargetView::Channel(channel),
            SayTarget::Player(name) => SayTargetView::Player(name@),
        }
    }
}

/// A `ClientMessage` as its characters and numbers.
#[allow(inconsistent_fields)]
pub enum ClientMessageView {
    Ping,
    Login { auth_token: Seq<char> },
    MovePlayer { direction: Direction },
    GetPlayerPosition,
    MoveItem { item: ClientItemRef, amount: u8, to: Position },
    UseItem { item: ClientItemRef },
    CloseContainer { container_id: ContainerId },
    OpenParentContainer { container_id: ContainerId },
    ChangeDirection { direction: Facing },
    Logout,
    UseItemWith { source: ClientItemRef, target: ClientItemRef, target_agent: Option<AgentId> },
    Look { position: Position },
    Say { message: Seq<char>, target: SayTargetView },
    RequestChannels,
    OpenChannel { channel: ChannelId },
    CloseChannel { channel: ChannelId },
    OpenPmChat { name: Seq<char> },
    SetTarget { agent_id: Option<AgentId>, seq: u32 },
    CastSpell { spell_id: SpellId, target: SpellTarget, param: Option<Seq<char>> },
}

/// The characters of a text that may be missing.
pub open spec fn optional_view(text: Option<String>) -> Option<Seq<char>> {
    match text {
        Some(t) => Some(t@),
        None => None,
    }
}

impl View for ClientMessage {
    type V = ClientMessageView;

    open spec fn view(&self) -> ClientMessageView {
        match *self {
            ClientMessage::Ping => ClientMessageView::Ping,
            ClientMessage::Login { auth_token } => ClientMessageView::Login {
                auth_token: auth_token@,
            },
            ClientMessage::MovePlayer { direction } => ClientMessageView::MovePlayer { direction },
            ClientMessage::GetPlayerPosition => ClientMessageView::GetPlayerPosition,
            ClientMessage::MoveItem { item, amount, to } => ClientMessageView::MoveItem {
                item,
                amount,
                to,
            },
            ClientMessage::UseItem { item } => ClientMessageView::UseItem { item },
            ClientMessage::CloseContainer { container_id } => ClientMessageView::CloseContainer {
                container_id,
            },
            ClientMessage::OpenParentContainer { container_id } =>
                ClientMessageView::OpenParentContainer { container_id },
            ClientMessage::ChangeDirection { direction } => ClientMessageView::ChangeDirection {
                direction,
            },
            ClientMessage::Logout => ClientMessageView::Logout,
            ClientMessage::UseItemWith { source, target, target_agent } =>
                ClientMessageView::UseItemWith { source, target, target_agent },
            ClientMessage::Look { position } => ClientMessageView::Look { position },
            ClientMessage::Say { message, target } => ClientMessageView::Say {
                message: message@,
                target: target@,
            },
            ClientMessage::RequestChannels => ClientMessageView::RequestChannels,
            ClientMessage::OpenChannel { channel } => ClientMessageView::OpenChannel { channel },
            ClientMessage::CloseChannel { channel } => ClientMessageView::CloseChannel { channel },
            ClientMessage::OpenPmChat { name } => ClientMessageView::OpenPmChat { name: name@ },
            ClientMessage::SetTarget { agent_id, seq } => ClientMessageView::SetTarget {
                agent_id,
                seq,
            },
            ClientMessage::CastSpell { spell_id, target, param } => ClientMessageView::CastSpell {
                spell_id,
                target,
                param: optional_view(param),
            },
        }
    }
}

/// What the server tells a client.
#[allow(inconsistent_fields)]
#[derive(Debug, PartialEq, Eq)]
pub enum ServerMessage {
    Pong,
    LoginError,
    DescribePlayer {
        agent_id: AgentId,
        position: Position,
        facing: Facing,
        name: String,
        level: u16,
        life: Pool,
        mana: Pool,
        outfit: (OutfitId, OutfitColors),
        speed: u16,
        capacity: u32,
        inventory_head: Option<ItemId>,
        inventory_amulet: Option<ItemId>,
        inventory_backpack: Option<ItemId>,
        inventory_chest: Option<ItemId>,
        inventory_right_hand: Option<ItemId>,
        inventory_left_hand: Option<ItemId>,
        inventory_legs: Option<ItemId>,
        inventory_feet: Option<ItemId>,
        inventory_ring: Option<ItemId>,
        inventory_trinket: Option<ItemId>,
    },
    DescribeMap { tiles: Vec<ItemStack>, center: Position, floor: u8 },
    TileUpdated { position: Position, items: ItemStack },
    PlayerWalkAck { position: Position, tiles: Vec<(u8, Vec<ItemStack>)> },
    PlayerPosition { position: Position },
    TextMessage { text: String, message_type: TextMessageType },
    OpenContainer {
        container_id: ContainerId,
        capacity: u8,
        has_parent: bool,
        title: String,
        items: Vec<Option<(ItemId, u8)>>,
    },
    UpdateContainer { container_id: ContainerId, items: Vec<Option<(ItemId, u8)>> },
    ContainerClosed { container_id: ContainerId },
    PlayerWalkDenied,
    IventorySlotUpdated { slot: InventorySlot, item_id: Option<ItemId> },
    PlayerCapacityUpdated { cap: u32 },
    AgentChangedDirection { agent_id: AgentId, facing: Facing },
    RemoveAgent { agent_id: AgentId },
    MoveAgent { agent_id: AgentId, direction: Direction, from: Position },
    SpawnAgent {
        agent_id: AgentId,
        outfit: (OutfitId, OutfitColors),
        position: Position,
        facing: Facing,
        name: String,
        life: u32,
        speed: u16,
    },
    TeleportAgent { agent_id: AgentId, position: Position },
    ChatMessage {
        author: String,
        message_type: ChatMessageType,
        channel: ChannelId,
        position: Option<Position>,
        message: String,
    },
    ChannelList { channels: Vec<(ChannelId, String)> },
    PrivateChatOpened { name: String },
    FloatingText {
        text: String,
        position: Position,
        text_type: FloatingTextType,
        color: Option<Color>,
    },
    TargetLost { seq: u32 },
    DamagedBy { agent_id: AgentId },
    ShowEffect { effect_id: EffectId, position: Position, delta: Vec<(i8, i8)> },
    AgentLifeChanged { agent_id: AgentId, current: u32, max: u32 },
    LaunchMissile { from: Position, to: Position, missile_id: MissileId },
    AgentManaUpdated { agent_id: AgentId, current: u32, max: u32 },
    PlayerSkills { experience: u64, skills: Vec<(SkillType, SkillProgress)> },
    SkillUpdated { skill: SkillType, progress: SkillProgress },
    ExperienceUpdated { experience: u64 },
    SpellCast { spell: SpellId, spell_cooldown_ms: u32, group_cooldown_ms: u32 },
    SpellList { spells: Vec<SpellListEntry> },
    AgentSpeedUpdated { agent_id: AgentId, speed: u16 },
    PlayerStatus { status: u32 },
}

/// What a player wears, slot by slot.
pub struct Equipped {
    pub head: Option<ItemId>,
    pub amulet: Option<ItemId>,
    pub backpack: Option<ItemId>,
    pub chest: Option<ItemId>,
    pub right_hand: Option<ItemId>,
    pub left_hand: Option<ItemId>,
    pub legs: Option<ItemId>,
    pub feet: Option<ItemId>,
    pub ring: Option<ItemId>,
    pub trinket: Option<ItemId>,
}

/// A tile's items as a sequence of `MAX_VISIBLE_ITEMS` places.
pub type StackView = Seq<Option<(ItemId, u8)>>;

/// A `ServerMessage` as its characters, numbers and sequences.
#[allow(inconsistent_fields)]
pub enum ServerMessageView {
    Pong,
    LoginError,
    DescribePlayer {
        agent_id: AgentId,
        position: Position,
        facing: Facing,
        name: Seq<char>,
        level: u16,
        life: Pool,
        mana: Pool,
        outfit: (OutfitId, OutfitColors),
        speed: u16,
        capacity: u32,
        equipped: Equipped,
    },
    DescribeMap { tiles: Seq<StackView>, center: Position, floor: u8 },
    TileUpdated { position: Position, items: StackView },
    PlayerWalkAck { position: Position, tiles: Seq<(u8, Seq<StackView>)> },
    PlayerPosition { position: Position },
    TextMessage { text: Seq<char>, message_type: TextMessageType },
    OpenContainer {
        container_id: ContainerId,
        capacity: u8,
        has_parent: bool,
        title: Seq<char>,
        items: StackView,
    },
    UpdateContainer { container_id: ContainerId, items: StackView },
    ContainerClosed { container_id: ContainerId },
    PlayerWalkDenied,
    IventorySlotUpdated { slot: InventorySlot, item_id: Option<ItemId> },
    PlayerCapacityUpdated { cap: u32 },
    AgentChangedDirection { agent_id: AgentId, facing: Facing },
    RemoveAgent { agent_id: AgentId },
    MoveAgent { agent_id: AgentId, direction: Direction, from: Position },
    SpawnAgent {
        agent_id: AgentId,
        outfit: (OutfitId, OutfitColors),
        position: Position,
        facing: Facing,
        name: Seq<char>,
        life: u32,
        speed: u16,
    },
    TeleportAgent { agent_id: AgentId, position: Position },
    ChatMessage {
        author: Seq<char>,
        message_type: ChatMessageType,
        channel: ChannelId,
        position: Option<Position>,
        message: Seq<char>,
    },
    ChannelList { channels: Seq<(ChannelId, Seq<char>)> },
    PrivateChatOpened { name: Seq<char> },
    FloatingText {
        text: Seq<char>,
        position: Position,
        text_type: FloatingTextType,
        color: Option<Color>,
    },
    TargetLost { seq: u32 },
    DamagedBy { agent_id: AgentId },
    ShowEffect { effect_id: EffectId, position: Position, delta: Seq<(i8, i8)> },
    AgentLifeChanged { agent_id: AgentId, current: u32, max: u32 },
    LaunchMissile { from: Position, to: Position, missile_id: MissileId },
    AgentManaUpdated { agent_id: AgentId, current: u32, max: u32 },
    PlayerSkills { experience: u64, skills: Seq<(SkillType, SkillProgress)> },
    SkillUpdated { skill: SkillType, progress: SkillProgress },
    ExperienceUpdated { experience: u64 },
    SpellCast { spell: SpellId, spell_cooldown_ms: u32, group_cooldown_ms: u32 },
    SpellList { spells: Seq<SpellListEntryView> },
    AgentSpeedUpdated { agent_id: AgentId, speed: u16 },
    PlayerStatus { status: u32 },
}

/// The views of a list of tiles.
pub open spec fn stacks_view(tiles: Seq<ItemStack>) -> Seq<StackView> {
    Seq::new(tiles.len(), |i: int| tiles[i]@)
}

/// The views of the strips of several floors.
pub open spec fn strips_view(strips: Seq<(u8, Vec<ItemStack>)>) -> Seq<(u8, Seq<StackView>)> {
    Seq::new(strips.len(), |i: int| (strips[i].0, stacks_view(strips[i].1@)))
}

/// The views of a list of channels.
pub open spec fn channels_view(channels: Seq<(ChannelId, String)>) -> Seq<(ChannelId, Seq<char>)> {
    Seq::new(channels.len(), |i: int| (channels[i].0, channels[i].1@))
}

/// The views of a list of spells.
pub open spec fn spells_view(spells: Seq<SpellListEntry>) -> Seq<SpellListEntryView> {
    Seq::new(spells.len(), |i: int| spells[i]@)
}

impl View for ServerMessage {
    type V = ServerMessageView;

    open spec fn view(&self) -> ServerMessageView {
        match *self {
            ServerMessage::Pong => ServerMessageView::Pong,
            ServerMessage::LoginError => ServerMessageView::LoginError,
            ServerMessage::DescribePlayer {
                agent_id,
                position,
                facing,
                name,
                level,
                life,
                mana,
                outfit,
                speed,
                capacity,
                inventory_head,
                inventory_amulet,
                inventory_backpack,
                inventory_chest,
                inventory_right_hand,
                inventory_left_hand,
                inventory_legs,
                inventory_feet,
                inventory_ring,
                inventory_trinket,
            } => ServerMessageView::DescribePlayer {
                agent_id,
                position,
                facing,
                name: name@,
                level,
                life,
                mana,
                outfit,
                speed,
                capacity,
                equipped: Equipped {
                    head: inventory_head,
                    amulet: inventory_amulet,
                    backpack: inventory_backpack,
                    chest: inventory_chest,
                    right_hand: inventory_right_hand,
                    left_hand: inventory_left_hand,
                    legs: inventory_legs,
                    feet: inventory_feet,
                    ring: inventory_ring,
                    trinket: inventory_trinket,
                },
            },
            ServerMessage::DescribeMap { tiles, center, floor } => ServerMessageView::DescribeMap {
                tiles: stacks_view(tiles@),
                center,
                floor,
            },
            ServerMessage::TileUpdated { position, items } => ServerMessageView::TileUpdated {
                position,
                items: items@,
            },
            ServerMessage::PlayerWalkAck { position, tiles } => ServerMessageView::PlayerWalkAck {
                position,
                tiles: strips_view(tiles@),
            },
            ServerMessage::PlayerPosition { position } => ServerMessageView::PlayerPosition {
                position,
            },
            ServerMessage::TextMessage { text, message_type } => ServerMessageView::TextMessage {
                text: text@,
                message_type,
            },
            ServerMessage::OpenContainer { container_id, capacity, has_parent, title, items } =>
                ServerMessageView::OpenContainer {
                    container_id,
                    capacity,
                    has_parent,
                    title: title@,
                    items: items@,
                },
            ServerMessage::UpdateContainer { container_id, items } =>
                ServerMessageView::UpdateContainer { container_id, items: items@ },
            ServerMessage::ContainerClosed { container_id } => ServerMessageView::ContainerClosed {
                container_id,
            },
            ServerMessage::PlayerWalkDenied => ServerMessageView::PlayerWalkDenied,
            ServerMessage::IventorySlotUpdated { slot, item_id } =>
                ServerMessageView::IventorySlotUpdated { slot, item_id },
            ServerMessage::PlayerCapacityUpdated { cap } =>
                ServerMessageView::PlayerCapacityUpdated { cap },
            ServerMessage::AgentChangedDirection { agent_id, facing } =>
                ServerMessageView::AgentChangedDirection { agent_id, facing },
            ServerMessage::RemoveAgent { agent_id } => ServerMessageView::RemoveAgent { agent_id },
            ServerMessage::MoveAgent { agent_id, direction, from } => ServerMessageView::MoveAgent {
                agent_id,
                direction,
                from,
            },
            ServerMessage::SpawnAgent { agent_id, outfit, position, facing, name, life, speed } =>
                ServerMessageView::SpawnAgent {
                    agent_id,
                    outfit,
                    position,
                    facing,
                    name: name@,
                    life,
                    speed,
                },
            ServerMessage::TeleportAgent { agent_id, position } =>
                ServerMessageView::TeleportAgent { agent_id, position },
            ServerMessage::ChatMessage { author, message_type, channel, position, message } =>
                ServerMessageView::ChatMessage {
                    author: author@,
                    message_type,
                    channel,
                    position,
                    message: message@,
                },
            ServerMessage::ChannelList { channels } => ServerMessageView::ChannelList {
                channels: channels_view(channels@),
            },
            ServerMessage::PrivateChatOpened { name } => ServerMessageView::PrivateChatOpened {
                name: name@,
            },
            ServerMessage::FloatingText { text, position, text_type, color } =>
                ServerMessageView::FloatingText { text: text@, position, text_type, color },
            ServerMessage::TargetLost { seq } => ServerMessageView::TargetLost { seq },
            ServerMessage::DamagedBy { agent_id } => ServerMessageView::DamagedBy { agent_id },
            ServerMessage::ShowEffect { effect_id, position, delta } =>
                ServerMessageView::ShowEffect { effect_id, position, delta: delta@ },
            ServerMessage::AgentLifeChanged { agent_id, current, max } =>
                ServerMessageView::AgentLifeChanged { agent_id, current, max },
            ServerMessage::LaunchMissile { from, to, missile_id } =>
                ServerMessageView::LaunchMissile { from, to, missile_id },
            ServerMessage::AgentManaUpdated { agent_id, current, max } =>
                ServerMessageView::AgentManaUpdated { agent_id, current, max },
            ServerMessage::PlayerSkills { experience, skills } => ServerMessageView::PlayerSkills {
                experience,
                skills: skills@,
            },
            ServerMessage::SkillUpdated { skill, progress } => ServerMessageView::SkillUpdated {
                skill,
                progress,
            },
            ServerMessage::ExperienceUpdated { experience } =>
                ServerMessageView::ExperienceUpdated { experience },
            ServerMessage::SpellCast { spell, spell_cooldown_ms, group_cooldown_ms } =>
                ServerMessageView::SpellCast { spell, spell_cooldown_ms, group_cooldown_ms },
            ServerMessage::SpellList { spells } => ServerMessageView::SpellList {
                spells: spells_view(spells@),
            },
            ServerMessage::AgentSpeedUpdated { agent_id, speed } =>
                ServerMessageView::AgentSpeedUpdated { agent_id, speed },
            ServerMessage::PlayerStatus { status } => ServerMessageView::PlayerStatus { status },
        }
    }
}

} // verus!
