//! Reading what the server sends and writing what a client asks.

use rustibia::constants::VIEWPORT_SIZE;
use rustibia::entities::agent::{AgentId, Facing, OutfitColors, OutfitId, Pool};
use rustibia::entities::chat::{ChannelId, ChatMessageType, SayTarget};
use rustibia::entities::effects::{EffectId, MissileId};
use rustibia::entities::inventory::InventorySlot;
use rustibia::entities::items::{ClientItemRef, ContainerId, ItemId};
use rustibia::entities::position::{Direction, Position};
use rustibia::entities::skills::SkillType;
use rustibia::entities::spells::{SpellGroup, SpellId, SpellTarget};
use rustibia::messages::{
    ClientMessage, Color, FloatingTextType, ItemStack, ServerMessage, SkillProgress, SpellListEntry,
    TextMessageType,
};
use rustibia::wire::codec::{LoadtestCodec, WireError};
use std::collections::BTreeSet;
use tokio_util::bytes::{Buf, BufMut, BytesMut};


/// Writes what the server writes.
struct Writer {
    out: Vec<u8>,
}

impl Writer {
    fn u8(&mut self, v: u8) {
        self.out.push(v);
    }

    fn u16(&mut self, v: u16) {
        self.out.extend_from_slice(&v.to_le_bytes());
    }

    fn u32(&mut self, v: u32) {
        self.out.extend_from_slice(&v.to_le_bytes());
    }

    fn u64(&mut self, v: u64) {
        self.out.extend_from_slice(&v.to_le_bytes());
    }

    fn position(&mut self, p: &Position) {
        self.u16(p.x);
        self.u16(p.y);
        self.u8(p.z);
    }

    fn text(&mut self, s: &str) {
        self.u16(s.len() as u16);
        self.out.extend_from_slice(s.as_bytes());
    }

    fn facing(&mut self, facing: Facing) {
        self.u8(match facing {
            Facing::North => 1,
            Facing::East => 2,
            Facing::South => 3,
            Facing::West => 4,
        });
    }

    fn item(&mut self, item: Option<ItemId>) {
        self.u16(item.map_or(0xFFFF, |id| id.0));
    }

    fn items(&mut self, items: &[Option<(ItemId, u8)>]) {
        for (id, amount) in items.iter().flatten() {
            self.u16(id.0);
            self.u8(*amount);
        }
        self.u16(0xFFFF);
    }

    fn pool(&mut self, pool: &Pool) {
        self.u32(pool.current);
        self.u32(pool.maximum);
    }

    fn outfit(&mut self, outfit: &(OutfitId, OutfitColors)) {
        self.u16(outfit.0 .0);
        for color in [outfit.1.head, outfit.1.body, outfit.1.legs, outfit.1.feet] {
            self.u8(color);
        }
    }

    fn progress(&mut self, progress: &SkillProgress) {
        self.u16(progress.level);
        self.u16(progress.percent_bp);
    }

    fn body(&mut self, message: &ServerMessage) {
        match message {
            ServerMessage::Pong => self.u8(0),
            ServerMessage::LoginError => self.u8(1),
            ServerMessage::DescribeMap { tiles, center, floor } => {
                self.u8(2);
                self.position(center);
                self.u8(*floor);
                for tile in tiles {
                    self.items(tile);
                }
            }
            ServerMessage::TileUpdated { position, items } => {
                self.u8(3);
                self.position(position);
                self.items(items);
            }
            ServerMessage::PlayerWalkAck { position, tiles } => {
                self.u8(4);
                self.position(position);
                for (floor, strip) in tiles {
                    self.u8(*floor);
                    self.u8(strip.len() as u8);
                    for tile in strip {
                        self.items(tile);
                    }
                }
                self.u8(0xFF);
            }
            ServerMessage::PlayerPosition { position } => {
                self.u8(5);
                self.position(position);
            }
            ServerMessage::DescribePlayer {
                agent_id,
                position,
                facing,
                name,
                level,
                life,
                mana,
                outfit,
                speed,
                capacity,
                inventory_head,
                inventory_amulet,
                inventory_backpack,
                inventory_chest,
                inventory_right_hand,
                inventory_left_hand,
                inventory_legs,
                inventory_feet,
                inventory_ring,
                inventory_trinket,
            } => {
                self.u8(6);
                self.u16(agent_id.0);
                self.position(position);
                self.facing(*facing);
                self.text(name);
                self.u16(*level);
                self.pool(life);
                self.pool(mana);
                self.outfit(outfit);
                self.u16(*speed);
                self.u32(*capacity);
                for item in [
                    inventory_head,
                    inventory_amulet,
                    inventory_backpack,
                    inventory_chest,
                    inventory_right_hand,
                    inventory_left_hand,
                    inventory_legs,
                    inventory_feet,
                    inventory_ring,
                    inventory_trinket,
                ] {
                    self.item(*item);
                }
            }
            ServerMessage::TextMessage { text, message_type } => {
                self.u8(7);
                self.text(text);
                self.u8(match message_type {
                    TextMessageType::ActionDenied => 1,
                    TextMessageType::Look => 2,
                });
            }
            ServerMessage::OpenContainer { container_id, capacity, has_parent, title, items } => {
                self.u8(8);
                self.u16(container_id.0);
                self.u8(*capacity);
                self.u8(*has_parent as u8);
                self.u8(title.len() as u8);
                self.out.extend_from_slice(title.as_bytes());
                self.items(items);
            }
            ServerMessage::UpdateContainer { container_id, items } => {
                self.u8(9);
                self.u16(container_id.0);
                self.items(items);
            }
            ServerMessage::ContainerClosed { container_id } => {
                self.u8(10);
                self.u16(container_id.0);
            }
            ServerMessage::PlayerWalkDenied => self.u8(11),
            ServerMessage::IventorySlotUpdated { slot, item_id } => {
                self.u8(12);
                self.u8(slot.as_id());
                self.item(*item_id);
            }
            ServerMessage::PlayerCapacityUpdated { cap } => {
                self.u8(13);
                self.u32(*cap);
            }
            ServerMessage::AgentChangedDirection { agent_id, facing } => {
                self.u8(14);
                self.u16(agent_id.0);
                self.facing(*facing);
            }
            ServerMessage::RemoveAgent { agent_id } => {
                self.u8(15);
                self.u16(agent_id.0);
            }
            ServerMessage::MoveAgent { agent_id, direction, from } => {
                self.u8(16);
                self.u16(agent_id.0);
                self.u8(match direction {
                    Direction::North => 0,
                    Direction::East => 1,
                    Direction::West => 2,
                    Direction::South => 3,
                    Direction::NorthEast => 4,
                    Direction::NorthWest => 5,
                    Direction::SouthEast => 6,
                    Direction::SouthWest => 7,
                });
                self.position(from);
            }
            ServerMessage::SpawnAgent {
                agent_id,
                outfit,
                position,
                facing,
                name,
                life,
                speed,
            } => {
                self.u8(17);
                self.u16(agent_id.0);
                self.position(position);
                self.facing(*facing);
                self.text(name);
                self.u32(*life);
                self.outfit(outfit);
                self.u16(*speed);
            }
            ServerMessage::TeleportAgent { agent_id, position } => {
                self.u8(18);
                self.u16(agent_id.0);
                self.position(position);
            }
            ServerMessage::ChatMessage { author, message_type, channel, position, message } => {
                self.u8(19);
                self.text(author);
                self.u8(match message_type {
                    ChatMessageType::Local => 1,
                    ChatMessageType::Private => 2,
                    ChatMessageType::Channel => 3,
                });
                self.u16(channel.0);
                match position {
                    Some(position) => {
                        self.u8(1);
                        self.position(position);
                    }
                    None => self.u8(0),
                }
                self.text(message);
            }
            ServerMessage::ChannelList { channels } => {
                self.u8(20);
                self.u16(channels.len() as u16);
                for (channel, name) in channels {
                    self.u16(channel.0);
                    self.text(name);
                }
            }
            ServerMessage::PrivateChatOpened { name } => {
                self.u8(21);
                self.text(name);
            }
            ServerMessage::FloatingText { text, position, text_type, color } => {
                self.u8(22);
                self.text(text);
                self.position(position);
                self.u8(match text_type {
                    FloatingTextType::HitPoints => 1,
                    FloatingTextType::CreatureSay => 2,
                });
                match color {
                    Some(Color(r, g, b)) => {
                        self.u8(1);
                        self.u8(*r);
                        self.u8(*g);
                        self.u8(*b);
                    }
                    None => self.u8(0),
                }
            }
            ServerMessage::TargetLost { seq } => {
                self.u8(23);
                self.u32(*seq);
            }
            ServerMessage::AgentLifeChanged { agent_id, current, max } => {
                self.u8(24);
                self.u16(agent_id.0);
                self.u32(*current);
                self.u32(*max);
            }
            ServerMessage::ShowEffect { effect_id, position, delta } => {
                self.u8(25);
                self.u16(effect_id.0);
                self.position(position);
                for (dx, dy) in delta {
                    self.u8(*dx as u8);
                    self.u8(*dy as u8);
                }
            }
            ServerMessage::LaunchMissile { from, to, missile_id } => {
                self.u8(26);
                self.position(from);
                self.position(to);
                self.u16(missile_id.0);
            }
            ServerMessage::AgentManaUpdated { agent_id, current, max } => {
                self.u8(27);
                self.u16(agent_id.0);
                self.u32(*current);
                self.u32(*max);
            }
            ServerMessage::PlayerSkills { experience, skills } => {
                self.u8(28);
                self.u64(*experience);
                self.u8(skills.len() as u8);
                for (skill, progress) in skills {
                    self.u8(skill.as_id());
                    self.progress(progress);
                }
            }
            ServerMessage::SkillUpdated { skill, progress } => {
                self.u8(29);
                self.u8(skill.as_id());
                self.progress(progress);
            }
            ServerMessage::ExperienceUpdated { experience } => {
                self.u8(30);
                self.u64(*experience);
            }
            ServerMessage::SpellCast { spell, spell_cooldown_ms, group_cooldown_ms } => {
                self.u8(31);
                self.u16(spell.0);
                self.u32(*spell_cooldown_ms);
                self.u32(*group_cooldown_ms);
            }
            ServerMessage::SpellList { spells } => {
                self.u8(32);
                self.u16(spells.len() as u16);
                for spell in spells {
                    self.u16(spell.id.0);
                    self.text(&spell.name);
                    self.text(&spell.words);
                    self.u16(spell.level);
                    self.u16(spell.icon);
                    self.u8(spell.aimable as u8);
                    self.u8(spell.group.as_id());
                }
            }
            ServerMessage::AgentSpeedUpdated { agent_id, speed } => {
                self.u8(33);
                self.u16(agent_id.0);
                self.u16(*speed);
            }
            ServerMessage::PlayerStatus { status } => {
                self.u8(34);
                self.u32(*status);
            }
            ServerMessage::DamagedBy { agent_id } => {
                self.u8(35);
                self.u16(agent_id.0);
            }
        }
    }
}

fn server_encode(message: &ServerMessage, buf: &mut BytesMut) {
    let mut writer = Writer { out: Vec::new() };
    writer.body(message);
    buf.put_u16_le(writer.out.len() as u16);
    buf.extend_from_slice(&writer.out);
}

/// Reads what the server reads.
fn server_decode(buf: &mut BytesMut) -> ClientMessage {
    let len = buf.get_u16_le() as usize;
    assert_eq!(buf.len(), len, "the frame's length");
    let message = match buf.get_u8() {
        0 => ClientMessage::Ping,
        1 => ClientMessage::Login { auth_token: rest(buf) },
        2 => ClientMessage::MovePlayer {
            direction: match buf.get_u8() {
                0 => Direction::North,
                1 => Direction::East,
                2 => Direction::West,
                3 => Direction::South,
                4 => Direction::NorthEast,
                5 => Direction::NorthWest,
                6 => Direction::SouthEast,
                _ => Direction::SouthWest,
            },
        },
        3 => ClientMessage::GetPlayerPosition,
        4 => {
            let position = position(buf);
            let item_id = ItemId(buf.get_u16_le());
            let amount = buf.get_u8();
            let stack_index = buf.get_u8();
            let item = ClientItemRef { position, item_id, stack_index };
            ClientMessage::MoveItem { item, amount, to: self::position(buf) }
        }
        5 => ClientMessage::UseItem { item: item_ref(buf) },
        6 => ClientMessage::CloseContainer { container_id: ContainerId(buf.get_u16_le()) },
        7 => ClientMessage::OpenParentContainer { container_id: ContainerId(buf.get_u16_le()) },
        8 => ClientMessage::ChangeDirection {
            direction: match buf.get_u8() {
                1 => Facing::North,
                2 => Facing::East,
                3 => Facing::South,
                _ => Facing::West,
            },
        },
        9 => ClientMessage::Logout,
        10 => ClientMessage::UseItemWith {
            source: item_ref(buf),
            target: item_ref(buf),
            target_agent: optional_agent(buf),
        },
        11 => ClientMessage::Look { position: position(buf) },
        12 => {
            let target = match buf.get_u8() {
                1 => SayTarget::Local,
                2 => SayTarget::Player(text(buf)),
                _ => SayTarget::Channel(ChannelId(buf.get_u16_le())),
            };
            ClientMessage::Say { message: rest(buf), target }
        }
        13 => ClientMessage::RequestChannels,
        14 => ClientMessage::OpenChannel { channel: ChannelId(buf.get_u16_le()) },
        15 => ClientMessage::CloseChannel { channel: ChannelId(buf.get_u16_le()) },
        16 => ClientMessage::OpenPmChat { name: rest(buf) },
        17 => ClientMessage::SetTarget { agent_id: optional_agent(buf), seq: buf.get_u32_le() },
        18 => {
            let spell_id = SpellId(buf.get_u16_le());
            let target = match buf.get_u8() {
                0 => SpellTarget::NoTarget,
                1 => SpellTarget::Agent(AgentId(buf.get_u16_le())),
                _ => SpellTarget::Position(position(buf)),
            };
            let param = text(buf);
            let param = if param.is_empty() { None } else { Some(param) };
            ClientMessage::CastSpell { spell_id, target, param }
        }
        other => panic!("opcode {other}"),
    };
    message
}

fn position(buf: &mut BytesMut) -> Position {
    Position::new(buf.get_u16_le(), buf.get_u16_le(), buf.get_u8())
}

fn item_ref(buf: &mut BytesMut) -> ClientItemRef {
    ClientItemRef {
        position: position(buf),
        item_id: ItemId(buf.get_u16_le()),
        stack_index: buf.get_u8(),
    }
}

fn optional_agent(buf: &mut BytesMut) -> Option<AgentId> {
    match buf.get_u16_le() {
        0xFFFF => None,
        id => Some(AgentId(id)),
    }
}

fn text(buf: &mut BytesMut) -> String {
    let len = buf.get_u16_le() as usize;
    String::from_utf8(buf.split_to(len).to_vec()).unwrap()
}

fn rest(buf: &mut BytesMut) -> String {
    let len = buf.len();
    String::from_utf8(buf.split_to(len).to_vec()).unwrap()
}

const CLIENT_MESSAGE_VARIANTS: usize = 19;

/// Exhaustive on purpose: a new `ClientMessage` variant fails to compile here
/// until it is given an index. `every_client_message_variant_has_a_sample`
/// is what then catches a variant with an index but no sample.
fn client_message_variant_index(message: &ClientMessage) -> usize {
    match message {
        ClientMessage::Ping => 0,
        ClientMessage::Login { .. } => 1,
        ClientMessage::MovePlayer { .. } => 2,
        ClientMessage::GetPlayerPosition => 3,
        ClientMessage::MoveItem { .. } => 4,
        ClientMessage::UseItem { .. } => 5,
        ClientMessage::CloseContainer { .. } => 6,
        ClientMessage::OpenParentContainer { .. } => 7,
        ClientMessage::ChangeDirection { .. } => 8,
        ClientMessage::Logout => 9,
        ClientMessage::UseItemWith { .. } => 10,
        ClientMessage::Look { .. } => 11,
        ClientMessage::Say { .. } => 12,
        ClientMessage::RequestChannels => 13,
        ClientMessage::OpenChannel { .. } => 14,
        ClientMessage::CloseChannel { .. } => 15,
        ClientMessage::OpenPmChat { .. } => 16,
        ClientMessage::SetTarget { .. } => 17,
        ClientMessage::CastSpell { .. } => 18,
    }
}

fn every_client_message() -> Vec<ClientMessage> {
    let item = ClientItemRef {
        position: Position::new(100, 200, 7),
        item_id: ItemId(266),
        stack_index: 1,
    };

    vec![
        ClientMessage::Ping,
        ClientMessage::Login {
            auth_token: "token-abc".to_string(),
        },
        ClientMessage::MovePlayer {
            direction: Direction::NorthEast,
        },
        ClientMessage::GetPlayerPosition,
        ClientMessage::MoveItem {
            item: item,
            amount: 3,
            to: Position::new(101, 200, 7),
        },
        ClientMessage::UseItem { item: item },
        ClientMessage::CloseContainer {
            container_id: ContainerId(2),
        },
        ClientMessage::OpenParentContainer {
            container_id: ContainerId(2),
        },
        ClientMessage::ChangeDirection {
            direction: Facing::West,
        },
        ClientMessage::Logout,
        ClientMessage::UseItemWith {
            source: item,
            target: item,
            target_agent: Some(AgentId(9)),
        },
        ClientMessage::Look {
            position: Position::new(5, 6, 7),
        },
        ClientMessage::Say {
            message: "hello there".to_string(),
            target: SayTarget::Local,
        },
        ClientMessage::Say {
            message: "on a channel".to_string(),
            target: SayTarget::Channel(ChannelId(1)),
        },
        ClientMessage::Say {
            message: "privately".to_string(),
            target: SayTarget::Player("Someone".to_string()),
        },
        ClientMessage::RequestChannels,
        ClientMessage::OpenChannel {
            channel: ChannelId(3),
        },
        ClientMessage::CloseChannel {
            channel: ChannelId(3),
        },
        ClientMessage::OpenPmChat {
            name: "Someone".to_string(),
        },
        ClientMessage::SetTarget {
            agent_id: Some(AgentId(9)),
            seq: 42,
        },
        ClientMessage::SetTarget {
            agent_id: None,
            seq: 43,
        },
        ClientMessage::CastSpell {
            spell_id: SpellId(1),
            target: SpellTarget::NoTarget,
            param: None,
        },
        ClientMessage::CastSpell {
            spell_id: SpellId(2),
            target: SpellTarget::Agent(AgentId(9)),
            param: Some("Someone".to_string()),
        },
        ClientMessage::CastSpell {
            spell_id: SpellId(3),
            target: SpellTarget::Position(Position::new(5, 6, 7)),
            param: None,
        },
    ]
}

#[test]
fn every_client_message_variant_has_a_sample() {
    let indices: BTreeSet<usize> = every_client_message()
        .iter()
        .map(client_message_variant_index)
        .collect();

    assert_eq!(indices, (0..CLIENT_MESSAGE_VARIANTS).collect());
}

/// The server's own decoder reads back what this codec writes, so a
/// layout or opcode divergence between the two halves fails here rather than
/// silently desyncing a run.
#[test]
fn the_server_decodes_everything_this_codec_encodes() {
    for message in every_client_message() {
        let mut buf = BytesMut::new();
        LoadtestCodec::default()
            .encode(message.clone(), &mut buf)
            .expect("encoding");

        let decoded = server_decode(&mut buf);

        assert_eq!(decoded, message, "round trip");
        assert!(buf.is_empty(), "the frame left trailing bytes");
    }
}

const SERVER_MESSAGE_VARIANTS: usize = 36;

/// Exhaustive for the same reason as `client_message_variant_index`.
fn server_message_variant_index(message: &ServerMessage) -> usize {
    match message {
        ServerMessage::Pong => 0,
        ServerMessage::LoginError => 1,
        ServerMessage::DescribePlayer { .. } => 2,
        ServerMessage::DescribeMap { .. } => 3,
        ServerMessage::TileUpdated { .. } => 4,
        ServerMessage::PlayerWalkAck { .. } => 5,
        ServerMessage::PlayerPosition { .. } => 6,
        ServerMessage::TextMessage { .. } => 7,
        ServerMessage::OpenContainer { .. } => 8,
        ServerMessage::UpdateContainer { .. } => 9,
        ServerMessage::ContainerClosed { .. } => 10,
        ServerMessage::PlayerWalkDenied => 11,
        ServerMessage::IventorySlotUpdated { .. } => 12,
        ServerMessage::PlayerCapacityUpdated { .. } => 13,
        ServerMessage::AgentChangedDirection { .. } => 14,
        ServerMessage::RemoveAgent { .. } => 15,
        ServerMessage::MoveAgent { .. } => 16,
        ServerMessage::SpawnAgent { .. } => 17,
        ServerMessage::TeleportAgent { .. } => 18,
        ServerMessage::ChatMessage { .. } => 19,
        ServerMessage::ChannelList { .. } => 20,
        ServerMessage::PrivateChatOpened { .. } => 21,
        ServerMessage::FloatingText { .. } => 22,
        ServerMessage::TargetLost { .. } => 23,
        ServerMessage::DamagedBy { .. } => 24,
        ServerMessage::ShowEffect { .. } => 25,
        ServerMessage::AgentLifeChanged { .. } => 26,
        ServerMessage::LaunchMissile { .. } => 27,
        ServerMessage::AgentManaUpdated { .. } => 28,
        ServerMessage::PlayerSkills { .. } => 29,
        ServerMessage::SkillUpdated { .. } => 30,
        ServerMessage::ExperienceUpdated { .. } => 31,
        ServerMessage::SpellCast { .. } => 32,
        ServerMessage::SpellList { .. } => 33,
        ServerMessage::AgentSpeedUpdated { .. } => 34,
        ServerMessage::PlayerStatus { .. } => 35,
    }
}

fn every_server_message() -> Vec<ServerMessage> {
    let tiles: Vec<ItemStack> = (0..VIEWPORT_SIZE)
        .map(|i| {
            let mut stack: ItemStack = Default::default();
            stack[0] = Some((ItemId(100 + i as u16), 1));
            stack
        })
        .collect();

    let mut one_item: ItemStack = Default::default();
    one_item[0] = Some((ItemId(266), 1));

    vec![
        ServerMessage::Pong,
        ServerMessage::LoginError,
        ServerMessage::DescribePlayer {
            agent_id: AgentId(7),
            position: Position::new(100, 200, 7),
            facing: Facing::North,
            name: "Bob".to_string(),
            level: 9,
            life: Pool {
                current: 30,
                maximum: 40,
            },
            mana: Pool {
                current: 50,
                maximum: 60,
            },
            outfit: (OutfitId(128), OutfitColors::new(1, 2, 3, 4)),
            speed: 120,
            capacity: 340,
            inventory_head: Some(ItemId(1)),
            inventory_amulet: None,
            inventory_backpack: Some(ItemId(2)),
            inventory_chest: None,
            inventory_right_hand: Some(ItemId(3)),
            inventory_left_hand: None,
            inventory_legs: Some(ItemId(4)),
            inventory_feet: None,
            inventory_ring: Some(ItemId(5)),
            inventory_trinket: None,
        },
        ServerMessage::DescribeMap {
            tiles,
            center: Position::new(32097, 31103, 7),
            floor: 7,
        },
        ServerMessage::TileUpdated {
            position: Position::new(32097, 31103, 7),
            items: one_item,
        },
        ServerMessage::PlayerWalkAck {
            position: Position::new(32098, 31103, 7),
            tiles: vec![(7u8, vec![Default::default(); 3])],
        },
        ServerMessage::PlayerWalkAck {
            position: Position::new(32098, 31103, 7),
            tiles: vec![],
        },
        ServerMessage::PlayerPosition {
            position: Position::new(1, 2, 7),
        },
        ServerMessage::TextMessage {
            text: "You cannot do that".to_string(),
            message_type: TextMessageType::ActionDenied,
        },
        ServerMessage::TextMessage {
            text: "You see a sword".to_string(),
            message_type: TextMessageType::Look,
        },
        ServerMessage::OpenContainer {
            container_id: ContainerId(3),
            capacity: 8,
            has_parent: false,
            title: "bag".to_string(),
            items: vec![Some((ItemId(100), 1))],
        },
        ServerMessage::UpdateContainer {
            container_id: ContainerId(3),
            items: vec![Some((ItemId(100), 1))],
        },
        ServerMessage::ContainerClosed {
            container_id: ContainerId(3),
        },
        ServerMessage::PlayerWalkDenied,
        ServerMessage::IventorySlotUpdated {
            slot: InventorySlot::Backpack,
            item_id: Some(ItemId(2)),
        },
        ServerMessage::IventorySlotUpdated {
            slot: InventorySlot::Head,
            item_id: None,
        },
        ServerMessage::PlayerCapacityUpdated { cap: 400 },
        ServerMessage::AgentChangedDirection {
            agent_id: AgentId(9),
            facing: Facing::East,
        },
        ServerMessage::RemoveAgent {
            agent_id: AgentId(9),
        },
        ServerMessage::MoveAgent {
            agent_id: AgentId(9),
            direction: Direction::SouthWest,
            from: Position::new(10, 10, 7),
        },
        ServerMessage::SpawnAgent {
            agent_id: AgentId(9),
            outfit: (OutfitId(1), OutfitColors::new(1, 2, 3, 4)),
            position: Position::new(10, 10, 7),
            facing: Facing::South,
            name: "Rat".to_string(),
            life: 20,
            speed: 100,
        },
        ServerMessage::TeleportAgent {
            agent_id: AgentId(9),
            position: Position::new(11, 11, 7),
        },
        ServerMessage::ChatMessage {
            author: "Rizael".to_string(),
            message_type: ChatMessageType::Local,
            channel: ChannelId(0),
            position: Some(Position::new(300, 400, 7)),
            message: "hello".to_string(),
        },
        ServerMessage::ChatMessage {
            author: "Rizael".to_string(),
            message_type: ChatMessageType::Channel,
            channel: ChannelId(7),
            position: None,
            message: "hello".to_string(),
        },
        ServerMessage::ChannelList {
            channels: vec![
                (ChannelId(1), "World Chat".to_string()),
                (ChannelId(7), "Help".to_string()),
            ],
        },
        ServerMessage::PrivateChatOpened {
            name: "Rizael".to_string(),
        },
        ServerMessage::FloatingText {
            text: "-25".to_string(),
            position: Position::new(100, 200, 7),
            text_type: FloatingTextType::HitPoints,
            color: Some(Color(255, 0, 64)),
        },
        ServerMessage::FloatingText {
            text: "hi".to_string(),
            position: Position::new(100, 200, 7),
            text_type: FloatingTextType::CreatureSay,
            color: None,
        },
        ServerMessage::TargetLost { seq: 77 },
        ServerMessage::DamagedBy {
            agent_id: AgentId(9),
        },
        ServerMessage::ShowEffect {
            effect_id: EffectId(13),
            position: Position::new(100, 200, 7),
            delta: vec![(0, 0)],
        },
        ServerMessage::ShowEffect {
            effect_id: EffectId(13),
            position: Position::new(100, 200, 7),
            delta: vec![(0, -1), (0, -2)],
        },
        ServerMessage::AgentLifeChanged {
            agent_id: AgentId(9),
            current: 30,
            max: 40,
        },
        ServerMessage::LaunchMissile {
            from: Position::new(1, 1, 7),
            to: Position::new(2, 2, 7),
            missile_id: MissileId(5),
        },
        ServerMessage::AgentManaUpdated {
            agent_id: AgentId(9),
            current: 10,
            max: 20,
        },
        ServerMessage::PlayerSkills {
            experience: 4231,
            skills: vec![(
                SkillType::Level,
                SkillProgress {
                    level: 8,
                    percent_bp: 4321,
                },
            )],
        },
        ServerMessage::SkillUpdated {
            skill: SkillType::Sword,
            progress: SkillProgress {
                level: 12,
                percent_bp: 4909,
            },
        },
        ServerMessage::ExperienceUpdated { experience: 4231 },
        ServerMessage::SpellCast {
            spell: SpellId(4),
            spell_cooldown_ms: 1000,
            group_cooldown_ms: 2000,
        },
        ServerMessage::SpellList {
            spells: vec![SpellListEntry {
                id: SpellId(4),
                name: "Ab".to_string(),
                words: "cd".to_string(),
                level: 12,
                icon: 29,
                aimable: true,
                group: SpellGroup::Support,
            }],
        },
        ServerMessage::AgentSpeedUpdated {
            agent_id: AgentId(9),
            speed: 130,
        },
        ServerMessage::PlayerStatus { status: 0x0A },
    ]
}

#[test]
fn every_server_message_variant_has_a_sample() {
    let indices: BTreeSet<usize> = every_server_message()
        .iter()
        .map(server_message_variant_index)
        .collect();

    assert_eq!(indices, (0..SERVER_MESSAGE_VARIANTS).collect());
}

#[test]
fn this_codec_decodes_everything_the_server_encodes() {
    for message in every_server_message() {
        let mut buf = BytesMut::new();
        server_encode(&message, &mut buf);

        let decoded = LoadtestCodec::default().decode(&mut buf).expect("decoding");

        assert_eq!(decoded, Some(message), "round trip");
        assert!(buf.is_empty(), "the frame left trailing bytes");
    }
}

#[test]
fn bytes_read_counts_the_frame_including_its_length_prefix_but_not_a_partial_one() {
    let mut buf = BytesMut::new();
    server_encode(&ServerMessage::Pong, &mut buf);
    let full_len = buf.len() as u64;
    let mut partial = buf.clone().split_to(1);

    let mut codec = LoadtestCodec::default();
    assert_eq!(codec.decode(&mut partial).unwrap(), None);
    assert_eq!(
        codec.bytes_read(),
        0,
        "an incomplete frame must not be counted yet"
    );

    codec.decode(&mut buf).unwrap();
    assert_eq!(codec.bytes_read(), full_len);
}

#[test]
fn a_partial_frame_decodes_to_none() {
    let mut buf = BytesMut::new();
    server_encode(&ServerMessage::Pong, &mut buf);
    let mut partial = buf.split_to(1);

    assert_eq!(LoadtestCodec::default().decode(&mut partial).unwrap(), None);
}

/// The server's own decoder uses unchecked reads throughout, so a truncated frame
/// anywhere in any arm has to return rather than panic. Cutting a sample exactly on
/// a `ShowEffect` delta-pair boundary is a legitimate `Ok`, so this only checks that
/// `decode` returns for every length, not which way it returns.
#[test]
fn every_truncation_of_every_server_message_returns_without_panicking() {
    for message in every_server_message() {
        let mut full = BytesMut::new();
        server_encode(&message, &mut full);
        let full_payload_len = full.len() - 2;

        for len in 0..=full_payload_len {
            let mut frame = BytesMut::new();
            frame.put_u16_le(len as u16);
            frame.extend_from_slice(&full[2..2 + len]);

            let _ = LoadtestCodec::default().decode(&mut frame);
        }
    }
}

#[test]
fn a_trailing_byte_inside_the_payload_is_rejected() {
    let mut buf = BytesMut::new();
    server_encode(&ServerMessage::Pong, &mut buf);
    let declared_len = u16::from_le_bytes([buf[0], buf[1]]) as usize;
    buf[0..2].copy_from_slice(&((declared_len + 1) as u16).to_le_bytes());
    buf.put_u8(0xFF);

    assert!(LoadtestCodec::default().decode(&mut buf).is_err());
}

fn decode(frame: &[u8]) -> Result<Option<ServerMessage>, WireError> {
    LoadtestCodec::default().decode(&mut BytesMut::from(frame))
}

#[test]
fn an_unknown_opcode_and_an_empty_payload_are_told_apart_from_a_malformed_one() {
    assert_eq!(decode(&[1, 0, 36]), Err(WireError::UnknownOpcode(36)));
    assert_eq!(decode(&[0, 0]), Err(WireError::Malformed { opcode: 0 }));
    assert_eq!(decode(&[2, 0, 23, 7]), Err(WireError::Malformed { opcode: 23 }));
    assert_eq!(decode(&[4, 0, 21, 1, 0, 0xFF]), Err(WireError::Malformed { opcode: 21 }));
}

#[test]
fn frames_are_read_one_after_the_other() {
    let mut buf = BytesMut::new();
    server_encode(&ServerMessage::Pong, &mut buf);
    server_encode(&ServerMessage::TargetLost { seq: 0x01020304 }, &mut buf);
    let mut codec = LoadtestCodec::default();

    assert_eq!(codec.decode(&mut buf).unwrap(), Some(ServerMessage::Pong));
    assert_eq!(
        codec.decode(&mut buf).unwrap(),
        Some(ServerMessage::TargetLost { seq: 0x01020304 })
    );
    assert_eq!(codec.decode(&mut buf).unwrap(), None);
    assert_eq!(codec.bytes_read(), 3 + 7);
}

#[test]
fn a_frame_is_written_behind_what_is_there() {
    let mut buf = BytesMut::from(&[9u8, 9][..]);
    LoadtestCodec::default()
        .encode(ClientMessage::SetTarget { agent_id: Some(AgentId(0x0102)), seq: 5 }, &mut buf)
        .unwrap();
    assert_eq!(&buf[..], &[9, 9, 7, 0, 17, 2, 1, 5, 0, 0, 0]);
}
