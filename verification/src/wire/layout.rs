//! The bytes of each message: what they say, and how they are laid out.

use crate::constants::{MAX_VISIBLE_ITEMS, VIEWPORT_SIZE};
use crate::entities::agent::{AgentId, Facing, OutfitColors, OutfitId, Pool};
use crate::entities::chat::{ChannelId, ChatMessageType};
use crate::entities::effects::{EffectId, MissileId};
use crate::entities::inventory::InventorySlot;
use crate::entities::items::{ClientItemRef, ContainerId, ItemId};
use crate::entities::position::{Direction, Position};
use crate::entities::skills::SkillType;
use crate::entities::spells::{SpellGroup, SpellId, SpellTarget};
use crate::messages::{
    ClientMessageView, Color, Equipped, FloatingTextType, SayTargetView, ServerMessageView, SkillProgress,
    SpellListEntryView, StackView, TextMessageType,
};
use crate::wire::buffer::{le16, le32, take_i8, take_u16, take_u32, take_u64, take_u8};
use vstd::prelude::*;
use vstd::utf8::{decode_utf8, encode_utf8, valid_utf8};

verus! {

/// A value read off the front of some bytes, and the bytes after it.
pub type Taken<T> = Option<(T, Seq<u8>)>;

/// Reads on with `next` where something was read.
pub open spec fn bind<A, B>(first: Taken<A>, next: spec_fn(A, Seq<u8>) -> Taken<B>) -> Taken<B> {
    match first {
        Some((a, rest)) => next(a, rest),
        None => None,
    }
}

/// `n` bytes of UTF-8 off the front of `s`.
pub open spec fn take_text(n: int, s: Seq<u8>) -> Taken<Seq<char>> {
    if s.len() < n || !valid_utf8(s.take(n)) {
        None
    } else {
        Some((decode_utf8(s.take(n)), s.skip(n)))
    }
}

/// A text with its length in two bytes before it.
pub open spec fn take_string(s: Seq<u8>) -> Taken<Seq<char>> {
    bind(take_u16(s), |n: u16, s: Seq<u8>| take_text(n as int, s))
}

/// A text with its length in one byte before it.
pub open spec fn take_short_string(s: Seq<u8>) -> Taken<Seq<char>> {
    bind(take_u8(s), |n: u8, s: Seq<u8>| take_text(n as int, s))
}

pub open spec fn take_position(s: Seq<u8>) -> Taken<Position> {
    bind(take_u16(s), |x: u16, s: Seq<u8>|
    bind(take_u16(s), |y: u16, s: Seq<u8>|
    bind(take_u8(s), |z: u8, s: Seq<u8>|
        Some((Position { x, y, z }, s)))))
}

pub open spec fn direction_of(code: u8) -> Option<Direction> {
    match code {
        0 => Some(Direction::North),
        1 => Some(Direction::East),
        2 => Some(Direction::West),
        3 => Some(Direction::South),
        4 => Some(Direction::NorthEast),
        5 => Some(Direction::NorthWest),
        6 => Some(Direction::SouthEast),
        7 => Some(Direction::SouthWest),
        _ => None,
    }
}

pub open spec fn direction_code(direction: Direction) -> u8 {
    match direction {
        Direction::North => 0,
        Direction::East => 1,
        Direction::West => 2,
        Direction::South => 3,
        Direction::NorthEast => 4,
        Direction::NorthWest => 5,
        Direction::SouthEast => 6,
        Direction::SouthWest => 7,
    }
}

pub open spec fn facing_of(code: u8) -> Option<Facing> {
    match code {
        1 => Some(Facing::North),
        2 => Some(Facing::East),
        3 => Some(Facing::South),
        4 => Some(Facing::West),
        _ => None,
    }
}

pub open spec fn facing_code(facing: Facing) -> u8 {
    match facing {
        Facing::North => 1,
        Facing::East => 2,
        Facing::South => 3,
        Facing::West => 4,
    }
}

pub open spec fn chat_message_type_of(code: u8) -> Option<ChatMessageType> {
    match code {
        1 => Some(ChatMessageType::Local),
        2 => Some(ChatMessageType::Private),
        3 => Some(ChatMessageType::Channel),
        _ => None,
    }
}

pub open spec fn chat_message_type_code(message_type: ChatMessageType) -> u8 {
    match message_type {
        ChatMessageType::Local => 1,
        ChatMessageType::Private => 2,
        ChatMessageType::Channel => 3,
    }
}

pub open spec fn text_message_type_of(code: u8) -> Option<TextMessageType> {
    match code {
        1 => Some(TextMessageType::ActionDenied),
        2 => Some(TextMessageType::Look),
        _ => None,
    }
}

pub open spec fn text_message_type_code(message_type: TextMessageType) -> u8 {
    match message_type {
        TextMessageType::ActionDenied => 1,
        TextMessageType::Look => 2,
    }
}

pub open spec fn floating_text_type_of(code: u8) -> Option<FloatingTextType> {
    match code {
        1 => Some(FloatingTextType::HitPoints),
        2 => Some(FloatingTextType::CreatureSay),
        _ => None,
    }
}

pub open spec fn floating_text_type_code(text_type: FloatingTextType) -> u8 {
    match text_type {
        FloatingTextType::HitPoints => 1,
        FloatingTextType::CreatureSay => 2,
    }
}

pub open spec fn spell_group_of(code: u8) -> Option<SpellGroup> {
    match code {
        0 => Some(SpellGroup::Attack),
        1 => Some(SpellGroup::Healing),
        2 => Some(SpellGroup::Support),
        _ => None,
    }
}

pub open spec fn spell_group_code(group: SpellGroup) -> u8 {
    match group {
        SpellGroup::Attack => 0,
        SpellGroup::Healing => 1,
        SpellGroup::Support => 2,
    }
}

/// One byte that stands for a value of `T`.
pub open spec fn take_code<T>(of: spec_fn(u8) -> Option<T>, s: Seq<u8>) -> Taken<T> {
    bind(
        take_u8(s),
        |code: u8, s: Seq<u8>|
            match of(code) {
                Some(v) => Some((v, s)),
                None => None,
            },
    )
}

pub open spec fn take_direction(s: Seq<u8>) -> Taken<Direction> {
    take_code(|code: u8| direction_of(code), s)
}

pub open spec fn take_facing(s: Seq<u8>) -> Taken<Facing> {
    take_code(|code: u8| facing_of(code), s)
}

pub open spec fn take_chat_message_type(s: Seq<u8>) -> Taken<ChatMessageType> {
    take_code(|code: u8| chat_message_type_of(code), s)
}

pub open spec fn take_text_message_type(s: Seq<u8>) -> Taken<TextMessageType> {
    take_code(|code: u8| text_message_type_of(code), s)
}

pub open spec fn take_floating_text_type(s: Seq<u8>) -> Taken<FloatingTextType> {
    take_code(|code: u8| floating_text_type_of(code), s)
}

pub open spec fn take_spell_group(s: Seq<u8>) -> Taken<SpellGroup> {
    take_code(|code: u8| spell_group_of(code), s)
}

pub open spec fn take_slot(s: Seq<u8>) -> Taken<InventorySlot> {
    take_code(|code: u8| InventorySlot::spec_from_id(code), s)
}

pub open spec fn take_skill(s: Seq<u8>) -> Taken<SkillType> {
    take_code(|code: u8| SkillType::spec_from_id(code), s)
}

/// A byte that is zero for `false`.
pub open spec fn take_flag(s: Seq<u8>) -> Taken<bool> {
    bind(take_u8(s), |b: u8, s: Seq<u8>| Some((b != 0, s)))
}

pub open spec fn take_agent_id(s: Seq<u8>) -> Taken<AgentId> {
    bind(take_u16(s), |id: u16, s: Seq<u8>| Some((AgentId(id), s)))
}

pub open spec fn take_container_id(s: Seq<u8>) -> Taken<ContainerId> {
    bind(take_u16(s), |id: u16, s: Seq<u8>| Some((ContainerId(id), s)))
}

pub open spec fn take_spell_id(s: Seq<u8>) -> Taken<SpellId> {
    bind(take_u16(s), |id: u16, s: Seq<u8>| Some((SpellId(id), s)))
}

pub open spec fn take_channel_id(s: Seq<u8>) -> Taken<ChannelId> {
    bind(take_u16(s), |id: u16, s: Seq<u8>| Some((ChannelId(id), s)))
}

/// An item, or none where its number is all ones.
pub open spec fn take_optional_item(s: Seq<u8>) -> Taken<Option<ItemId>> {
    bind(
        take_u16(s),
        |raw: u16, s: Seq<u8>|
            Some((
                if raw == 0xFFFF {
                    None
                } else {
                    Some(ItemId(raw))
                },
                s,
            )),
    )
}

pub open spec fn take_pool(s: Seq<u8>) -> Taken<Pool> {
    bind(take_u32(s), |current: u32, s: Seq<u8>|
    bind(take_u32(s), |maximum: u32, s: Seq<u8>|
        Some((Pool { current, maximum }, s))))
}

pub open spec fn take_colors(s: Seq<u8>) -> Taken<OutfitColors> {
    bind(take_u8(s), |head: u8, s: Seq<u8>|
    bind(take_u8(s), |body: u8, s: Seq<u8>|
    bind(take_u8(s), |legs: u8, s: Seq<u8>|
    bind(take_u8(s), |feet: u8, s: Seq<u8>|
        Some((OutfitColors { head, body, legs, feet }, s))))))
}

pub open spec fn take_outfit(s: Seq<u8>) -> Taken<(OutfitId, OutfitColors)> {
    bind(take_u16(s), |id: u16, s: Seq<u8>|
    bind(take_colors(s), |colors: OutfitColors, s: Seq<u8>|
        Some(((OutfitId(id), colors), s))))
}

/// Items with their amounts, up to a number that is all ones.
pub open spec fn take_entries(s: Seq<u8>) -> Taken<Seq<(ItemId, u8)>>
    decreases s.len(),
{
    match take_u16(s) {
        None => None,
        Some((id, s1)) => if id == 0xFFFF {
            Some((Seq::empty(), s1))
        } else {
            match take_u8(s1) {
                None => None,
                Some((amount, s2)) => match take_entries(s2) {
                    None => None,
                    Some((more, rest)) => Some((seq![(ItemId(id), amount)] + more, rest)),
                },
            }
        },
    }
}

/// A tile's items, with empty places up to `MAX_VISIBLE_ITEMS`.
pub open spec fn padded(entries: Seq<(ItemId, u8)>) -> StackView {
    Seq::new(
        MAX_VISIBLE_ITEMS as nat,
        |i: int|
            if i < entries.len() {
                Some(entries[i])
            } else {
                None
            },
    )
}

pub open spec fn take_stack(s: Seq<u8>) -> Taken<StackView> {
    bind(
        take_entries(s),
        |entries: Seq<(ItemId, u8)>, s: Seq<u8>|
            if entries.len() > MAX_VISIBLE_ITEMS {
                None
            } else {
                Some((padded(entries), s))
            },
    )
}

/// A container's items, each in a place of its own.
pub open spec fn filled(entries: Seq<(ItemId, u8)>) -> StackView {
    Seq::new(entries.len(), |i: int| Some(entries[i]))
}

pub open spec fn take_container_items(s: Seq<u8>) -> Taken<StackView> {
    bind(take_entries(s), |entries: Seq<(ItemId, u8)>, s: Seq<u8>| Some((filled(entries), s)))
}

/// `n` tiles, one after the other.
pub open spec fn take_stacks(n: nat, s: Seq<u8>) -> Taken<Seq<StackView>>
    decreases n,
{
    if n == 0 {
        Some((Seq::empty(), s))
    } else {
        match take_stack(s) {
            None => None,
            Some((first, s1)) => match take_stacks((n - 1) as nat, s1) {
                None => None,
                Some((more, rest)) => Some((seq![first] + more, rest)),
            },
        }
    }
}

/// Reading a tile uses up bytes.
pub proof fn lemma_take_entries_shrinks(s: Seq<u8>)
    ensures
        take_entries(s) matches Some((_, rest)) ==> rest.len() < s.len(),
    decreases s.len(),
{
    if let Some((id, s1)) = take_u16(s) {
        if let Some((amount, s2)) = take_u8(s1) {
            lemma_take_entries_shrinks(s2);
        }
    }
}

/// Reading tiles adds no bytes.
pub proof fn lemma_take_stacks_shrinks(n: nat, s: Seq<u8>)
    ensures
        take_stacks(n, s) matches Some((_, rest)) ==> rest.len() <= s.len(),
    decreases n,
{
    if n > 0 {
        lemma_take_entries_shrinks(s);
        if let Some((first, s1)) = take_stack(s) {
            lemma_take_stacks_shrinks((n - 1) as nat, s1);
        }
    }
}

/// The strips of several floors, up to a floor number that is all ones.
pub open spec fn take_strips(s: Seq<u8>) -> Taken<Seq<(u8, Seq<StackView>)>>
    decreases s.len(),
{
    match take_u8(s) {
        None => None,
        Some((floor, s1)) => if floor == 0xFF {
            Some((Seq::empty(), s1))
        } else {
            match take_u8(s1) {
                None => None,
                Some((count, s2)) => {
                    proof {
                        lemma_take_stacks_shrinks(count as nat, s2);
                    }
                    match take_stacks(count as nat, s2) {
                        None => None,
                        Some((strip, s3)) => match take_strips(s3) {
                            None => None,
                            Some((more, rest)) => Some((seq![(floor, strip)] + more, rest)),
                        },
                    }
                },
            }
        },
    }
}

/// `n` channels, one after the other.
pub open spec fn take_channels(n: nat, s: Seq<u8>) -> Taken<Seq<(ChannelId, Seq<char>)>>
    decreases n,
{
    if n == 0 {
        Some((Seq::empty(), s))
    } else {
        match take_channel_id(s) {
            None => None,
            Some((id, s1)) => match take_string(s1) {
                None => None,
                Some((name, s2)) => match take_channels((n - 1) as nat, s2) {
                    None => None,
                    Some((more, rest)) => Some((seq![(id, name)] + more, rest)),
                },
            },
        }
    }
}

/// Signed pairs up to the end of `s`.
pub open spec fn take_deltas(s: Seq<u8>) -> Taken<Seq<(i8, i8)>>
    decreases s.len(),
{
    if s.len() == 0 {
        Some((Seq::empty(), s))
    } else {
        match take_i8(s) {
            None => None,
            Some((dx, s1)) => match take_i8(s1) {
                None => None,
                Some((dy, s2)) => match take_deltas(s2) {
                    None => None,
                    Some((more, rest)) => Some((seq![(dx, dy)] + more, rest)),
                },
            },
        }
    }
}

pub open spec fn take_progress(s: Seq<u8>) -> Taken<SkillProgress> {
    bind(take_u16(s), |level: u16, s: Seq<u8>|
    bind(take_u16(s), |percent_bp: u16, s: Seq<u8>|
        Some((SkillProgress { level, percent_bp }, s))))
}

pub open spec fn take_skill_entry(s: Seq<u8>) -> Taken<(SkillType, SkillProgress)> {
    bind(take_skill(s), |skill: SkillType, s: Seq<u8>|
    bind(take_progress(s), |progress: SkillProgress, s: Seq<u8>|
        Some(((skill, progress), s))))
}

/// `n` skills, one after the other.
pub open spec fn take_skills(n: nat, s: Seq<u8>) -> Taken<Seq<(SkillType, SkillProgress)>>
    decreases n,
{
    if n == 0 {
        Some((Seq::empty(), s))
    } else {
        match take_skill_entry(s) {
            None => None,
            Some((entry, s1)) => match take_skills((n - 1) as nat, s1) {
                None => None,
                Some((more, rest)) => Some((seq![entry] + more, rest)),
            },
        }
    }
}

#[verifier::opaque]
pub open spec fn take_spell_entry(s: Seq<u8>) -> Taken<SpellListEntryView> {
    bind(take_spell_id(s), |id: SpellId, s: Seq<u8>|
    bind(take_string(s), |name: Seq<char>, s: Seq<u8>|
    bind(take_string(s), |words: Seq<char>, s: Seq<u8>|
    bind(take_u16(s), |level: u16, s: Seq<u8>|
    bind(take_u16(s), |icon: u16, s: Seq<u8>|
    bind(take_flag(s), |aimable: bool, s: Seq<u8>|
    bind(take_spell_group(s), |group: SpellGroup, s: Seq<u8>|
        Some((SpellListEntryView { id, name, words, level, icon, aimable, group }, s)))))))))
}

/// `n` spells, one after the other.
pub open spec fn take_spells(n: nat, s: Seq<u8>) -> Taken<Seq<SpellListEntryView>>
    decreases n,
{
    if n == 0 {
        Some((Seq::empty(), s))
    } else {
        match take_spell_entry(s) {
            None => None,
            Some((entry, s1)) => match take_spells((n - 1) as nat, s1) {
                None => None,
                Some((more, rest)) => Some((seq![entry] + more, rest)),
            },
        }
    }
}

/// A place behind a byte that is one, or a byte that is zero.
pub open spec fn take_optional_position(s: Seq<u8>) -> Taken<Option<Position>> {
    bind(
        take_u8(s),
        |tag: u8, s: Seq<u8>|
            if tag == 1 {
                bind(take_position(s), |position: Position, s: Seq<u8>| Some((Some(position), s)))
            } else if tag == 0 {
                Some((None, s))
            } else {
                None
            },
    )
}

pub open spec fn take_color(s: Seq<u8>) -> Taken<Color> {
    bind(take_u8(s), |r: u8, s: Seq<u8>|
    bind(take_u8(s), |g: u8, s: Seq<u8>|
    bind(take_u8(s), |b: u8, s: Seq<u8>|
        Some((Color(r, g, b), s)))))
}

/// A colour behind a byte that is one, or a byte that is zero.
pub open spec fn take_optional_color(s: Seq<u8>) -> Taken<Option<Color>> {
    bind(
        take_u8(s),
        |tag: u8, s: Seq<u8>|
            if tag == 1 {
                bind(take_color(s), |color: Color, s: Seq<u8>| Some((Some(color), s)))
            } else if tag == 0 {
                Some((None, s))
            } else {
                None
            },
    )
}

pub open spec fn take_effect_id(s: Seq<u8>) -> Taken<EffectId> {
    bind(take_u16(s), |id: u16, s: Seq<u8>| Some((EffectId(id), s)))
}

pub open spec fn take_missile_id(s: Seq<u8>) -> Taken<MissileId> {
    bind(take_u16(s), |id: u16, s: Seq<u8>| Some((MissileId(id), s)))
}

/// Channels with their number in two bytes before them.
pub open spec fn take_channel_list(s: Seq<u8>) -> Taken<Seq<(ChannelId, Seq<char>)>> {
    bind(take_u16(s), |n: u16, s: Seq<u8>| take_channels(n as nat, s))
}

/// Skills with their number in one byte before them.
pub open spec fn take_skill_list(s: Seq<u8>) -> Taken<Seq<(SkillType, SkillProgress)>> {
    bind(take_u8(s), |n: u8, s: Seq<u8>| take_skills(n as nat, s))
}

/// Spells with their number in two bytes before them.
pub open spec fn take_spell_list(s: Seq<u8>) -> Taken<Seq<SpellListEntryView>> {
    bind(take_u16(s), |n: u16, s: Seq<u8>| take_spells(n as nat, s))
}

pub const SRV_PONG: u8 = 0;
pub const SRV_LOGIN_ERROR: u8 = 1;
pub const SRV_DESCRIBE_MAP: u8 = 2;
pub const SRV_TILE_UPDATED: u8 = 3;
pub const SRV_PLAYER_WALK_ACK: u8 = 4;
pub const SRV_PLAYER_POS: u8 = 5;
pub const SRV_DESCRIBE_PLAYER: u8 = 6;
pub const SRV_TEXT_MESSAGE: u8 = 7;
pub const SRV_OPEN_CONTAINER: u8 = 8;
pub const SRV_UPDATE_CONTAINER: u8 = 9;
pub const SRV_CONTAINER_CLOSED: u8 = 10;
pub const SRV_PLAYER_WALK_DENIED: u8 = 11;
pub const SRV_INVENTORY_SLOT_UPDATED: u8 = 12;
pub const SRV_PLAYER_CAPACITY_UPDATED: u8 = 13;
pub const SRV_AGENT_DIRECTION_CHANGED: u8 = 14;
pub const SRV_REMOVE_AGENT: u8 = 15;
pub const SRV_MOVE_AGENT: u8 = 16;
pub const SRV_SPAWN_AGENT: u8 = 17;
pub const SRV_TELEPORT_AGENT: u8 = 18;
pub const SRV_CHAT_MESSAGE: u8 = 19;
pub const SRV_CHANNEL_LIST: u8 = 20;
pub const SRV_PRIVATE_CHAT_OPENED: u8 = 21;
pub const SRV_FLOATING_TEXT: u8 = 22;
pub const SRV_TARGET_LOST: u8 = 23;
pub const SRV_AGENT_LIFE_UPDATED: u8 = 24;
pub const SRV_SHOW_EFFECT: u8 = 25;
pub const SRV_LAUNCH_MISSILE: u8 = 26;
pub const SRV_AGENT_MANA_UPDATED: u8 = 27;
pub const SRV_PLAYER_SKILLS: u8 = 28;
pub const SRV_SKILL_UPDATED: u8 = 29;
pub const SRV_EXPERIENCE_UPDATED: u8 = 30;
pub const SRV_SPELL_CAST: u8 = 31;
pub const SRV_SPELL_LIST: u8 = 32;
pub const SRV_AGENT_SPEED_UPDATED: u8 = 33;
pub const SRV_PLAYER_STATUS: u8 = 34;
pub const SRV_DAMAGED_BY: u8 = 35;

#[verifier::opaque]
pub open spec fn take_equipped(s: Seq<u8>) -> Taken<Equipped> {
    bind(take_optional_item(s), |head: Option<ItemId>, s: Seq<u8>|
    bind(take_optional_item(s), |amulet: Option<ItemId>, s: Seq<u8>|
    bind(take_optional_item(s), |backpack: Option<ItemId>, s: Seq<u8>|
    bind(take_optional_item(s), |chest: Option<ItemId>, s: Seq<u8>|
    bind(take_optional_item(s), |right_hand: Option<ItemId>, s: Seq<u8>|
    bind(take_optional_item(s), |left_hand: Option<ItemId>, s: Seq<u8>|
    bind(take_optional_item(s), |legs: Option<ItemId>, s: Seq<u8>|
    bind(take_optional_item(s), |feet: Option<ItemId>, s: Seq<u8>|
    bind(take_optional_item(s), |ring: Option<ItemId>, s: Seq<u8>|
    bind(take_optional_item(s), |trinket: Option<ItemId>, s: Seq<u8>|
        Some((
            Equipped {
                head,
                amulet,
                backpack,
                chest,
                right_hand,
                left_hand,
                legs,
                feet,
                ring,
                trinket,
            },
            s,
        ))))))))))))
}

pub open spec fn take_describe_map(s: Seq<u8>) -> Taken<ServerMessageView> {
    bind(take_position(s), |center: Position, s: Seq<u8>|
    bind(take_u8(s), |floor: u8, s: Seq<u8>|
    bind(take_stacks(VIEWPORT_SIZE as nat, s), |tiles: Seq<StackView>, s: Seq<u8>|
        Some((ServerMessageView::DescribeMap { center, floor, tiles }, s)))))
}

pub open spec fn take_tile_updated(s: Seq<u8>) -> Taken<ServerMessageView> {
    bind(take_position(s), |position: Position, s: Seq<u8>|
    bind(take_stack(s), |items: StackView, s: Seq<u8>|
        Some((ServerMessageView::TileUpdated { position, items }, s))))
}

pub open spec fn take_player_walk_ack(s: Seq<u8>) -> Taken<ServerMessageView> {
    bind(take_position(s), |position: Position, s: Seq<u8>|
    bind(take_strips(s), |tiles: Seq<(u8, Seq<StackView>)>, s: Seq<u8>|
        Some((ServerMessageView::PlayerWalkAck { position, tiles }, s))))
}

pub open spec fn take_describe_player(s: Seq<u8>) -> Taken<ServerMessageView> {
    bind(take_agent_id(s), |agent_id: AgentId, s: Seq<u8>|
    bind(take_position(s), |position: Position, s: Seq<u8>|
    bind(take_facing(s), |facing: Facing, s: Seq<u8>|
    bind(take_string(s), |name: Seq<char>, s: Seq<u8>|
    bind(take_u16(s), |level: u16, s: Seq<u8>|
    bind(take_pool(s), |life: Pool, s: Seq<u8>|
    bind(take_pool(s), |mana: Pool, s: Seq<u8>|
    bind(take_outfit(s), |outfit: (OutfitId, OutfitColors), s: Seq<u8>|
    bind(take_u16(s), |speed: u16, s: Seq<u8>|
    bind(take_u32(s), |capacity: u32, s: Seq<u8>|
    bind(take_equipped(s), |equipped: Equipped, s: Seq<u8>|
        Some((
            ServerMessageView::DescribePlayer {
                agent_id,
                position,
                facing,
                name,
                level,
                life,
                mana,
                outfit,
                speed,
                capacity,
                equipped,
            },
            s,
        )))))))))))))
}

pub open spec fn take_text_message(s: Seq<u8>) -> Taken<ServerMessageView> {
    bind(take_string(s), |text: Seq<char>, s: Seq<u8>|
    bind(take_text_message_type(s), |message_type: TextMessageType, s: Seq<u8>|
        Some((ServerMessageView::TextMessage { text, message_type }, s))))
}

pub open spec fn take_open_container(s: Seq<u8>) -> Taken<ServerMessageView> {
    bind(take_container_id(s), |container_id: ContainerId, s: Seq<u8>|
    bind(take_u8(s), |capacity: u8, s: Seq<u8>|
    bind(take_flag(s), |has_parent: bool, s: Seq<u8>|
    bind(take_short_string(s), |title: Seq<char>, s: Seq<u8>|
    bind(take_container_items(s), |items: StackView, s: Seq<u8>|
        Some((
            ServerMessageView::OpenContainer {
                container_id,
                capacity,
                has_parent,
                title,
                items,
            },
            s,
        )))))))
}

pub open spec fn take_update_container(s: Seq<u8>) -> Taken<ServerMessageView> {
    bind(take_container_id(s), |container_id: ContainerId, s: Seq<u8>|
    bind(take_container_items(s), |items: StackView, s: Seq<u8>|
        Some((ServerMessageView::UpdateContainer { container_id, items }, s))))
}

pub open spec fn take_iventory_slot_updated(s: Seq<u8>) -> Taken<ServerMessageView> {
    bind(take_slot(s), |slot: InventorySlot, s: Seq<u8>|
    bind(take_optional_item(s), |item_id: Option<ItemId>, s: Seq<u8>|
        Some((ServerMessageView::IventorySlotUpdated { slot, item_id }, s))))
}

pub open spec fn take_agent_changed_direction(s: Seq<u8>) -> Taken<ServerMessageView> {
    bind(take_agent_id(s), |agent_id: AgentId, s: Seq<u8>|
    bind(take_facing(s), |facing: Facing, s: Seq<u8>|
        Some((ServerMessageView::AgentChangedDirection { agent_id, facing }, s))))
}

pub open spec fn take_move_agent(s: Seq<u8>) -> Taken<ServerMessageView> {
    bind(take_agent_id(s), |agent_id: AgentId, s: Seq<u8>|
    bind(take_direction(s), |direction: Direction, s: Seq<u8>|
    bind(take_position(s), |from: Position, s: Seq<u8>|
        Some((ServerMessageView::MoveAgent { agent_id, direction, from }, s)))))
}

pub open spec fn take_spawn_agent(s: Seq<u8>) -> Taken<ServerMessageView> {
    bind(take_agent_id(s), |agent_id: AgentId, s: Seq<u8>|
    bind(take_position(s), |position: Position, s: Seq<u8>|
    bind(take_facing(s), |facing: Facing, s: Seq<u8>|
    bind(take_string(s), |name: Seq<char>, s: Seq<u8>|
    bind(take_u32(s), |life: u32, s: Seq<u8>|
    bind(take_outfit(s), |outfit: (OutfitId, OutfitColors), s: Seq<u8>|
    bind(take_u16(s), |speed: u16, s: Seq<u8>|
        Some((
            ServerMessageView::SpawnAgent {
                agent_id,
                position,
                facing,
                name,
                life,
                outfit,
                speed,
            },
            s,
        )))))))))
}

pub open spec fn take_teleport_agent(s: Seq<u8>) -> Taken<ServerMessageView> {
    bind(take_agent_id(s), |agent_id: AgentId, s: Seq<u8>|
    bind(take_position(s), |position: Position, s: Seq<u8>|
        Some((ServerMessageView::TeleportAgent { agent_id, position }, s))))
}

pub open spec fn take_chat_message(s: Seq<u8>) -> Taken<ServerMessageView> {
    bind(take_string(s), |author: Seq<char>, s: Seq<u8>|
    bind(take_chat_message_type(s), |message_type: ChatMessageType, s: Seq<u8>|
    bind(take_channel_id(s), |channel: ChannelId, s: Seq<u8>|
    bind(take_optional_position(s), |position: Option<Position>, s: Seq<u8>|
    bind(take_string(s), |message: Seq<char>, s: Seq<u8>|
        Some((
            ServerMessageView::ChatMessage {
                author,
                message_type,
                channel,
                position,
                message,
            },
            s,
        )))))))
}

pub open spec fn take_floating_text(s: Seq<u8>) -> Taken<ServerMessageView> {
    bind(take_string(s), |text: Seq<char>, s: Seq<u8>|
    bind(take_position(s), |position: Position, s: Seq<u8>|
    bind(take_floating_text_type(s), |text_type: FloatingTextType, s: Seq<u8>|
    bind(take_optional_color(s), |color: Option<Color>, s: Seq<u8>|
        Some((ServerMessageView::FloatingText { text, position, text_type, color }, s))))))
}

pub open spec fn take_agent_life_changed(s: Seq<u8>) -> Taken<ServerMessageView> {
    bind(take_agent_id(s), |agent_id: AgentId, s: Seq<u8>|
    bind(take_u32(s), |current: u32, s: Seq<u8>|
    bind(take_u32(s), |max: u32, s: Seq<u8>|
        Some((ServerMessageView::AgentLifeChanged { agent_id, current, max }, s)))))
}

pub open spec fn take_show_effect(s: Seq<u8>) -> Taken<ServerMessageView> {
    bind(take_effect_id(s), |effect_id: EffectId, s: Seq<u8>|
    bind(take_position(s), |position: Position, s: Seq<u8>|
    bind(take_deltas(s), |delta: Seq<(i8, i8)>, s: Seq<u8>|
        Some((ServerMessageView::ShowEffect { effect_id, position, delta }, s)))))
}

pub open spec fn take_launch_missile(s: Seq<u8>) -> Taken<ServerMessageView> {
    bind(take_position(s), |from: Position, s: Seq<u8>|
    bind(take_position(s), |to: Position, s: Seq<u8>|
    bind(take_missile_id(s), |missile_id: MissileId, s: Seq<u8>|
        Some((ServerMessageView::LaunchMissile { from, to, missile_id }, s)))))
}

pub open spec fn take_agent_mana_updated(s: Seq<u8>) -> Taken<ServerMessageView> {
    bind(take_agent_id(s), |agent_id: AgentId, s: Seq<u8>|
    bind(take_u32(s), |current: u32, s: Seq<u8>|
    bind(take_u32(s), |max: u32, s: Seq<u8>|
        Some((ServerMessageView::AgentManaUpdated { agent_id, current, max }, s)))))
}

pub open spec fn take_player_skills(s: Seq<u8>) -> Taken<ServerMessageView> {
    bind(take_u64(s), |experience: u64, s: Seq<u8>|
    bind(take_skill_list(s), |skills: Seq<(SkillType, SkillProgress)>, s: Seq<u8>|
        Some((ServerMessageView::PlayerSkills { experience, skills }, s))))
}

pub open spec fn take_skill_updated(s: Seq<u8>) -> Taken<ServerMessageView> {
    bind(take_skill(s), |skill: SkillType, s: Seq<u8>|
    bind(take_progress(s), |progress: SkillProgress, s: Seq<u8>|
        Some((ServerMessageView::SkillUpdated { skill, progress }, s))))
}

pub open spec fn take_spell_cast(s: Seq<u8>) -> Taken<ServerMessageView> {
    bind(take_spell_id(s), |spell: SpellId, s: Seq<u8>|
    bind(take_u32(s), |spell_cooldown_ms: u32, s: Seq<u8>|
    bind(take_u32(s), |group_cooldown_ms: u32, s: Seq<u8>|
        Some((ServerMessageView::SpellCast { spell, spell_cooldown_ms, group_cooldown_ms }, s)))))
}

pub open spec fn take_agent_speed_updated(s: Seq<u8>) -> Taken<ServerMessageView> {
    bind(take_agent_id(s), |agent_id: AgentId, s: Seq<u8>|
    bind(take_u16(s), |speed: u16, s: Seq<u8>|
        Some((ServerMessageView::AgentSpeedUpdated { agent_id, speed }, s))))
}

/// What a payload says after its opcode, `None` where it breaks off or names what does not exist.
pub open spec fn take_body(opcode: u8, s: Seq<u8>) -> Taken<ServerMessageView> {
    match opcode {
        SRV_PONG => Some((ServerMessageView::Pong, s)),
        SRV_LOGIN_ERROR => Some((ServerMessageView::LoginError, s)),
        SRV_DESCRIBE_MAP => take_describe_map(s),
        SRV_TILE_UPDATED => take_tile_updated(s),
        SRV_PLAYER_WALK_ACK => take_player_walk_ack(s),
        SRV_PLAYER_POS =>
            bind(take_position(s), |position: Position, s: Seq<u8>|
                Some((ServerMessageView::PlayerPosition { position }, s))),
        SRV_DESCRIBE_PLAYER => take_describe_player(s),
        SRV_TEXT_MESSAGE => take_text_message(s),
        SRV_OPEN_CONTAINER => take_open_container(s),
        SRV_UPDATE_CONTAINER => take_update_container(s),
        SRV_CONTAINER_CLOSED =>
            bind(take_container_id(s), |container_id: ContainerId, s: Seq<u8>|
                Some((ServerMessageView::ContainerClosed { container_id }, s))),
        SRV_PLAYER_WALK_DENIED => Some((ServerMessageView::PlayerWalkDenied, s)),
        SRV_INVENTORY_SLOT_UPDATED => take_iventory_slot_updated(s),
        SRV_PLAYER_CAPACITY_UPDATED =>
            bind(take_u32(s), |cap: u32, s: Seq<u8>|
                Some((ServerMessageView::PlayerCapacityUpdated { cap }, s))),
        SRV_AGENT_DIRECTION_CHANGED => take_agent_changed_direction(s),
        SRV_REMOVE_AGENT =>
            bind(take_agent_id(s), |agent_id: AgentId, s: Seq<u8>|
                Some((ServerMessageView::RemoveAgent { agent_id }, s))),
        SRV_MOVE_AGENT => take_move_agent(s),
        SRV_SPAWN_AGENT => take_spawn_agent(s),
        SRV_TELEPORT_AGENT => take_teleport_agent(s),
        SRV_CHAT_MESSAGE => take_chat_message(s),
        SRV_CHANNEL_LIST =>
            bind(take_channel_list(s), |channels: Seq<(ChannelId, Seq<char>)>, s: Seq<u8>|
                Some((ServerMessageView::ChannelList { channels }, s))),
        SRV_PRIVATE_CHAT_OPENED =>
            bind(take_string(s), |name: Seq<char>, s: Seq<u8>|
                Some((ServerMessageView::PrivateChatOpened { name }, s))),
        SRV_FLOATING_TEXT => take_floating_text(s),
        SRV_TARGET_LOST =>
            bind(take_u32(s), |seq: u32, s: Seq<u8>|
                Some((ServerMessageView::TargetLost { seq }, s))),
        SRV_AGENT_LIFE_UPDATED => take_agent_life_changed(s),
        SRV_SHOW_EFFECT => take_show_effect(s),
        SRV_LAUNCH_MISSILE => take_launch_missile(s),
        SRV_AGENT_MANA_UPDATED => take_agent_mana_updated(s),
        SRV_PLAYER_SKILLS => take_player_skills(s),
        SRV_SKILL_UPDATED => take_skill_updated(s),
        SRV_EXPERIENCE_UPDATED =>
            bind(take_u64(s), |experience: u64, s: Seq<u8>|
                Some((ServerMessageView::ExperienceUpdated { experience }, s))),
        SRV_SPELL_CAST => take_spell_cast(s),
        SRV_SPELL_LIST =>
            bind(take_spell_list(s), |spells: Seq<SpellListEntryView>, s: Seq<u8>|
                Some((ServerMessageView::SpellList { spells }, s))),
        SRV_AGENT_SPEED_UPDATED => take_agent_speed_updated(s),
        SRV_PLAYER_STATUS =>
            bind(take_u32(s), |status: u32, s: Seq<u8>|
                Some((ServerMessageView::PlayerStatus { status }, s))),
        SRV_DAMAGED_BY =>
            bind(take_agent_id(s), |agent_id: AgentId, s: Seq<u8>|
                Some((ServerMessageView::DamagedBy { agent_id }, s))),
        _ => None,
    }
}

pub const CLI_PING: u8 = 0;
pub const CLI_LOGIN: u8 = 1;
pub const CLI_MOVE_PLAYER: u8 = 2;
pub const CLI_GET_PLAYER_POS: u8 = 3;
pub const CLI_MOVE_ITEM: u8 = 4;
pub const CLI_USE_ITEM: u8 = 5;
pub const CLI_CLOSE_CONTAINER: u8 = 6;
pub const CLI_OPEN_PARENT_CONTAINER: u8 = 7;
pub const CLI_CHANGE_DIRECTION: u8 = 8;
pub const CLI_LOGOUT: u8 = 9;
pub const CLI_USE_ITEM_WITH: u8 = 10;
pub const CLI_LOOK: u8 = 11;
pub const CLI_SAY: u8 = 12;
pub const CLI_REQUEST_CHANNELS: u8 = 13;
pub const CLI_OPEN_CHANNEL: u8 = 14;
pub const CLI_CLOSE_CHANNEL: u8 = 15;
pub const CLI_OPEN_PM_CHAT: u8 = 16;
pub const CLI_SET_TARGET: u8 = 17;
pub const CLI_CAST_SPELL: u8 = 18;

pub open spec fn position_bytes(p: Position) -> Seq<u8> {
    le16(p.x) + (le16(p.y) + seq![p.z])
}

pub open spec fn item_ref_bytes(item: ClientItemRef) -> Seq<u8> {
    position_bytes(item.position) + (le16(item.item_id.0) + seq![item.stack_index])
}

/// The number of an agent, all ones where there is none.
pub open spec fn optional_agent_bytes(agent_id: Option<AgentId>) -> Seq<u8> {
    le16(
        match agent_id {
            Some(id) => id.0,
            None => 0xFFFF,
        },
    )
}

/// A text with its length before it, cut to two bytes.
pub open spec fn string_bytes(text: Seq<char>) -> Seq<u8> {
    le16((encode_utf8(text).len() % 0x1_0000) as u16) + encode_utf8(text)
}

pub open spec fn param_bytes(param: Option<Seq<char>>) -> Seq<u8> {
    match param {
        Some(text) => string_bytes(text),
        None => le16(0),
    }
}

pub open spec fn spell_target_bytes(target: SpellTarget) -> Seq<u8> {
    match target {
        SpellTarget::NoTarget => seq![0u8],
        SpellTarget::Agent(agent_id) => seq![1u8] + le16(agent_id.0),
        SpellTarget::Position(position) => seq![2u8] + position_bytes(position),
    }
}

pub open spec fn say_target_bytes(target: SayTargetView) -> Seq<u8> {
    match target {
        SayTargetView::Local => seq![1u8],
        SayTargetView::Channel(channel) => seq![3u8] + le16(channel.0),
        SayTargetView::Player(name) => seq![2u8] + string_bytes(name),
    }
}

/// The opcode of what a client asks.
pub open spec fn client_opcode(message: ClientMessageView) -> u8 {
    match message {
        ClientMessageView::Ping => CLI_PING,
        ClientMessageView::Login { .. } => CLI_LOGIN,
        ClientMessageView::MovePlayer { .. } => CLI_MOVE_PLAYER,
        ClientMessageView::GetPlayerPosition => CLI_GET_PLAYER_POS,
        ClientMessageView::MoveItem { .. } => CLI_MOVE_ITEM,
        ClientMessageView::UseItem { .. } => CLI_USE_ITEM,
        ClientMessageView::CloseContainer { .. } => CLI_CLOSE_CONTAINER,
        ClientMessageView::OpenParentContainer { .. } => CLI_OPEN_PARENT_CONTAINER,
        ClientMessageView::ChangeDirection { .. } => CLI_CHANGE_DIRECTION,
        ClientMessageView::Logout => CLI_LOGOUT,
        ClientMessageView::UseItemWith { .. } => CLI_USE_ITEM_WITH,
        ClientMessageView::Look { .. } => CLI_LOOK,
        ClientMessageView::Say { .. } => CLI_SAY,
        ClientMessageView::RequestChannels => CLI_REQUEST_CHANNELS,
        ClientMessageView::OpenChannel { .. } => CLI_OPEN_CHANNEL,
        ClientMessageView::CloseChannel { .. } => CLI_CLOSE_CHANNEL,
        ClientMessageView::OpenPmChat { .. } => CLI_OPEN_PM_CHAT,
        ClientMessageView::SetTarget { .. } => CLI_SET_TARGET,
        ClientMessageView::CastSpell { .. } => CLI_CAST_SPELL,
    }
}

/// What follows the opcode in what a client asks.
pub open spec fn client_body(message: ClientMessageView) -> Seq<u8> {
    match message {
        ClientMessageView::Login { auth_token } => encode_utf8(auth_token),
        ClientMessageView::MovePlayer { direction } => seq![direction_code(direction)],
        ClientMessageView::MoveItem { item, amount, to } => position_bytes(item.position) + (le16(
            item.item_id.0,
        ) + (seq![amount] + (seq![item.stack_index] + position_bytes(to)))),
        ClientMessageView::UseItem { item } => item_ref_bytes(item),
        ClientMessageView::CloseContainer { container_id } => le16(container_id.0),
        ClientMessageView::OpenParentContainer { container_id } => le16(container_id.0),
        ClientMessageView::ChangeDirection { direction } => seq![facing_code(direction)],
        ClientMessageView::UseItemWith { source, target, target_agent } => item_ref_bytes(source)
            + (item_ref_bytes(target) + optional_agent_bytes(target_agent)),
        ClientMessageView::Look { position } => position_bytes(position),
        ClientMessageView::Say { message, target } => say_target_bytes(target) + encode_utf8(
            message,
        ),
        ClientMessageView::OpenChannel { channel } => le16(channel.0),
        ClientMessageView::CloseChannel { channel } => le16(channel.0),
        ClientMessageView::OpenPmChat { name } => encode_utf8(name),
        ClientMessageView::SetTarget { agent_id, seq } => optional_agent_bytes(agent_id) + le32(
            seq,
        ),
        ClientMessageView::CastSpell { spell_id, target, param } => le16(spell_id.0) + (
        spell_target_bytes(target) + param_bytes(param)),
        _ => Seq::empty(),
    }
}

/// What a client asks, as a payload.
pub open spec fn client_payload(message: ClientMessageView) -> Seq<u8> {
    seq![client_opcode(message)] + client_body(message)
}

/// A payload with its length before it, cut to two bytes.
pub open spec fn frame(payload: Seq<u8>) -> Seq<u8> {
    le16((payload.len() % 0x1_0000) as u16) + payload
}

} // verus!
