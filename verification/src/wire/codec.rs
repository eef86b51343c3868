//! Reading the server's frames and writing the client's.

use crate::constants::{MAX_VISIBLE_ITEMS, VIEWPORT_SIZE};
use crate::entities::agent::{AgentId, Facing, OutfitColors, OutfitId, Pool};
use crate::entities::chat::{ChannelId, ChatMessageType, SayTarget};
use crate::entities::effects::{EffectId, MissileId};
use crate::entities::inventory::InventorySlot;
use crate::entities::items::{ClientItemRef, ContainerId, ItemId};
use crate::entities::position::{Direction, Position};
use crate::entities::skills::SkillType;
use crate::entities::spells::{SpellGroup, SpellId, SpellTarget};
use crate::messages::{
    channels_view, optional_view, spells_view, stacks_view, strips_view, ClientMessage, Color, Equipped, FloatingTextType, ItemStack,
    ServerMessage, ServerMessageView, SkillProgress, SpellListEntry, SpellListEntryView, StackView,
    TextMessageType,
};
use crate::wire::buffer::{
    advance, buffer_len, byte_at, from_utf8, held, put_slice, put_u16_le, put_u32_le, put_u8, set_byte, split_to, take_i8, take_u16, take_u32, take_u64,
    take_u8, to_vec, try_get_i8, try_get_u16_le, try_get_u32_le, try_get_u64_le, try_get_u8,
    u16_at,
};
use crate::wire::layout::{
    CLI_CAST_SPELL, CLI_CHANGE_DIRECTION, CLI_CLOSE_CHANNEL, CLI_CLOSE_CONTAINER, CLI_GET_PLAYER_POS, CLI_LOGIN, CLI_LOGOUT, CLI_LOOK, CLI_MOVE_ITEM, CLI_MOVE_PLAYER, CLI_OPEN_CHANNEL, CLI_OPEN_PARENT_CONTAINER, CLI_OPEN_PM_CHAT, CLI_PING, CLI_REQUEST_CHANNELS, CLI_SAY, CLI_SET_TARGET, CLI_USE_ITEM, CLI_USE_ITEM_WITH, SRV_AGENT_DIRECTION_CHANGED, SRV_AGENT_LIFE_UPDATED, SRV_AGENT_MANA_UPDATED, SRV_AGENT_SPEED_UPDATED, SRV_CHANNEL_LIST, SRV_CHAT_MESSAGE, SRV_CONTAINER_CLOSED, SRV_DAMAGED_BY, SRV_DESCRIBE_MAP, SRV_DESCRIBE_PLAYER, SRV_EXPERIENCE_UPDATED, SRV_FLOATING_TEXT, SRV_INVENTORY_SLOT_UPDATED, SRV_LAUNCH_MISSILE, SRV_LOGIN_ERROR, SRV_MOVE_AGENT, SRV_OPEN_CONTAINER, SRV_PLAYER_CAPACITY_UPDATED, SRV_PLAYER_POS, SRV_PLAYER_SKILLS, SRV_PLAYER_STATUS, SRV_PLAYER_WALK_ACK, SRV_PLAYER_WALK_DENIED, SRV_PONG, SRV_PRIVATE_CHAT_OPENED, SRV_REMOVE_AGENT, SRV_SHOW_EFFECT, SRV_SKILL_UPDATED, SRV_SPAWN_AGENT, SRV_SPELL_CAST, SRV_SPELL_LIST, SRV_TARGET_LOST, SRV_TELEPORT_AGENT, SRV_TEXT_MESSAGE, SRV_TILE_UPDATED, SRV_UPDATE_CONTAINER, Taken, client_payload, direction_code, facing_code, filled, frame, item_ref_bytes, lemma_take_stacks_shrinks, optional_agent_bytes, padded, param_bytes, position_bytes, say_target_bytes, spell_target_bytes, string_bytes, take_body, take_channel_list, take_channels, take_chat_message_type, take_container_items, take_deltas, take_describe_player, take_direction, take_entries, take_equipped, take_facing, take_floating_text_type, take_optional_color, take_optional_item, take_optional_position, take_outfit, take_pool, take_position, take_progress, take_short_string, take_skill, take_skill_list, take_skills, take_slot, take_spell_entry, take_spell_group, take_spell_list, take_spells, take_stack, take_stacks, take_string, take_strips, take_text, take_text_message_type,
};
use tokio_util::bytes::{BytesMut, TryGetError};
use vstd::prelude::*;
use vstd::std_specs::convert::FromSpecImpl;

verus! {

/// Why a connection can no longer be read.
#[derive(Debug, Clone, Copy, PartialEq, Eq, Structural)]
pub enum WireError {
    /// The socket failed.
    Io,
    /// A frame breaks off, or holds something that no message holds at that place.
    Malformed { opcode: u8 },
    /// A frame starts with a number that no message has.
    UnknownOpcode(u8),
}

impl From<TryGetError> for WireError {
    fn from(_e: TryGetError) -> (r: Self) {
        WireError::Malformed { opcode: 0 }
    }
}

impl FromSpecImpl<TryGetError> for WireError {
    open spec fn obeys_from_spec() -> bool {
        true
    }

    open spec fn from_spec(_e: TryGetError) -> Self {
        WireError::Malformed { opcode: 0 }
    }
}

impl WireError {
    /// The error with the opcode filled in that the reader of a single field does not know.
    pub open spec fn spec_with_opcode(self, opcode: u8) -> WireError {
        match self {
            WireError::Malformed { .. } => WireError::Malformed { opcode },
            other => other,
        }
    }

    /// The error with the opcode filled in that the reader of a single field does not know.
    pub fn with_opcode(self, opcode: u8) -> (r: WireError)
        ensures
            r == self.spec_with_opcode(opcode),
    {
        match self {
            WireError::Malformed { .. } => WireError::Malformed { opcode },
            other => other,
        }
    }
}

/// A field was read as `taken` says, and `after` is left.
pub open spec fn reads<T>(r: Result<T, WireError>, after: Seq<u8>, taken: Taken<T>) -> bool {
    match taken {
        Some((v, rest)) => r == Ok::<T, WireError>(v) && after == rest,
        None => r == Err::<T, WireError>(WireError::Malformed { opcode: 0 }),
    }
}

/// A field was read whose view is as `taken` says, and `after` is left.
pub open spec fn reads_view<T: View>(
    r: Result<T, WireError>,
    after: Seq<u8>,
    taken: Taken<T::V>,
) -> bool {
    match taken {
        Some((v, rest)) => r is Ok && r->Ok_0@ == v && after == rest,
        None => r == Err::<T, WireError>(WireError::Malformed { opcode: 0 }),
    }
}

fn read_u8(buf: &mut BytesMut) -> (r: Result<u8, WireError>)
    ensures
        reads(r, held(*final(buf)), take_u8(held(*old(buf)))),
{
    match try_get_u8(buf) {
        Ok(v) => Ok(v),
        Err(e) => Err(WireError::from(e)),
    }
}

fn read_i8(buf: &mut BytesMut) -> (r: Result<i8, WireError>)
    ensures
        reads(r, held(*final(buf)), take_i8(held(*old(buf)))),
{
    match try_get_i8(buf) {
        Ok(v) => Ok(v),
        Err(e) => Err(WireError::from(e)),
    }
}

fn read_u16(buf: &mut BytesMut) -> (r: Result<u16, WireError>)
    ensures
        reads(r, held(*final(buf)), take_u16(held(*old(buf)))),
{
    match try_get_u16_le(buf) {
        Ok(v) => Ok(v),
        Err(e) => Err(WireError::from(e)),
    }
}

fn read_u32(buf: &mut BytesMut) -> (r: Result<u32, WireError>)
    ensures
        reads(r, held(*final(buf)), take_u32(held(*old(buf)))),
{
    match try_get_u32_le(buf) {
        Ok(v) => Ok(v),
        Err(e) => Err(WireError::from(e)),
    }
}

fn read_u64(buf: &mut BytesMut) -> (r: Result<u64, WireError>)
    ensures
        reads(r, held(*final(buf)), take_u64(held(*old(buf)))),
{
    match try_get_u64_le(buf) {
        Ok(v) => Ok(v),
        Err(e) => Err(WireError::from(e)),
    }
}

fn read_utf8(buf: &mut BytesMut, len: usize) -> (r: Result<String, WireError>)
    ensures
        reads_view(r, held(*final(buf)), take_text(len as int, held(*old(buf)))),
{
    if buffer_len(buf) < len {
        return Err(WireError::Malformed { opcode: 0 });
    }
    let front = split_to(buf, len);
    match from_utf8(to_vec(&front)) {
        Some(text) => Ok(text),
        None => Err(WireError::Malformed { opcode: 0 }),
    }
}

fn read_string(buf: &mut BytesMut) -> (r: Result<String, WireError>)
    ensures
        reads_view(r, held(*final(buf)), take_string(held(*old(buf)))),
{
    let len: u16 = read_u16(buf)?;
    read_utf8(buf, len as usize)
}

fn read_short_string(buf: &mut BytesMut) -> (r: Result<String, WireError>)
    ensures
        reads_view(r, held(*final(buf)), take_short_string(held(*old(buf)))),
{
    let len: u8 = read_u8(buf)?;
    read_utf8(buf, len as usize)
}

fn read_position(buf: &mut BytesMut) -> (r: Result<Position, WireError>)
    ensures
        reads(r, held(*final(buf)), take_position(held(*old(buf)))),
{
    Ok(Position { x: read_u16(buf)?, y: read_u16(buf)?, z: read_u8(buf)? })
}

fn read_direction(buf: &mut BytesMut) -> (r: Result<Direction, WireError>)
    ensures
        reads(r, held(*final(buf)), take_direction(held(*old(buf)))),
{
    match read_u8(buf)? {
        0 => Ok(Direction::North),
        1 => Ok(Direction::East),
        2 => Ok(Direction::West),
        3 => Ok(Direction::South),
        4 => Ok(Direction::NorthEast),
        5 => Ok(Direction::NorthWest),
        6 => Ok(Direction::SouthEast),
        7 => Ok(Direction::SouthWest),
        _ => Err(WireError::Malformed { opcode: 0 }),
    }
}

fn read_facing(buf: &mut BytesMut) -> (r: Result<Facing, WireError>)
    ensures
        reads(r, held(*final(buf)), take_facing(held(*old(buf)))),
{
    match read_u8(buf)? {
        1 => Ok(Facing::North),
        2 => Ok(Facing::East),
        3 => Ok(Facing::South),
        4 => Ok(Facing::West),
        _ => Err(WireError::Malformed { opcode: 0 }),
    }
}

fn read_chat_message_type(buf: &mut BytesMut) -> (r: Result<ChatMessageType, WireError>)
    ensures
        reads(r, held(*final(buf)), take_chat_message_type(held(*old(buf)))),
{
    match read_u8(buf)? {
        1 => Ok(ChatMessageType::Local),
        2 => Ok(ChatMessageType::Private),
        3 => Ok(ChatMessageType::Channel),
        _ => Err(WireError::Malformed { opcode: 0 }),
    }
}

fn read_text_message_type(buf: &mut BytesMut) -> (r: Result<TextMessageType, WireError>)
    ensures
        reads(r, held(*final(buf)), take_text_message_type(held(*old(buf)))),
{
    match read_u8(buf)? {
        1 => Ok(TextMessageType::ActionDenied),
        2 => Ok(TextMessageType::Look),
        _ => Err(WireError::Malformed { opcode: 0 }),
    }
}

fn read_floating_text_type(buf: &mut BytesMut) -> (r: Result<FloatingTextType, WireError>)
    ensures
        reads(r, held(*final(buf)), take_floating_text_type(held(*old(buf)))),
{
    match read_u8(buf)? {
        1 => Ok(FloatingTextType::HitPoints),
        2 => Ok(FloatingTextType::CreatureSay),
        _ => Err(WireError::Malformed { opcode: 0 }),
    }
}

fn read_spell_group(buf: &mut BytesMut) -> (r: Result<SpellGroup, WireError>)
    ensures
        reads(r, held(*final(buf)), take_spell_group(held(*old(buf)))),
{
    match read_u8(buf)? {
        0 => Ok(SpellGroup::Attack),
        1 => Ok(SpellGroup::Healing),
        2 => Ok(SpellGroup::Support),
        _ => Err(WireError::Malformed { opcode: 0 }),
    }
}

fn read_slot(buf: &mut BytesMut) -> (r: Result<InventorySlot, WireError>)
    ensures
        reads(r, held(*final(buf)), take_slot(held(*old(buf)))),
{
    match InventorySlot::from_id(read_u8(buf)?) {
        Some(slot) => Ok(slot),
        None => Err(WireError::Malformed { opcode: 0 }),
    }
}

fn read_skill(buf: &mut BytesMut) -> (r: Result<SkillType, WireError>)
    ensures
        reads(r, held(*final(buf)), take_skill(held(*old(buf)))),
{
    match SkillType::from_id(read_u8(buf)?) {
        Some(skill) => Ok(skill),
        None => Err(WireError::Malformed { opcode: 0 }),
    }
}

fn read_optional_item(buf: &mut BytesMut) -> (r: Result<Option<ItemId>, WireError>)
    ensures
        reads(r, held(*final(buf)), take_optional_item(held(*old(buf)))),
{
    let raw: u16 = read_u16(buf)?;
    Ok(
        if raw == 0xFFFF {
            None
        } else {
            Some(ItemId(raw))
        },
    )
}

fn read_pool(buf: &mut BytesMut) -> (r: Result<Pool, WireError>)
    ensures
        reads(r, held(*final(buf)), take_pool(held(*old(buf)))),
{
    Ok(Pool { current: read_u32(buf)?, maximum: read_u32(buf)? })
}

fn read_outfit(buf: &mut BytesMut) -> (r: Result<(OutfitId, OutfitColors), WireError>)
    ensures
        reads(r, held(*final(buf)), take_outfit(held(*old(buf)))),
{
    let id: u16 = read_u16(buf)?;
    let colors = OutfitColors::new(read_u8(buf)?, read_u8(buf)?, read_u8(buf)?, read_u8(buf)?);
    Ok((OutfitId(id), colors))
}

/// `taken` off the front of what was there first is `done` followed by what is still to come.
spec fn continues<T>(whole: Taken<Seq<T>>, done: Seq<T>, still: Taken<Seq<T>>) -> bool {
    match still {
        None => whole is None,
        Some((more, rest)) => whole == Some((done + more, rest)),
    }
}

fn read_tile_entries(buf: &mut BytesMut) -> (r: Result<Vec<(ItemId, u8)>, WireError>)
    ensures
        reads_view(r, held(*final(buf)), take_entries(held(*old(buf)))),
{
    let mut items: Vec<(ItemId, u8)> = Vec::new();
    let ghost start = held(*buf);
    assert(continues(take_entries(start), items@, take_entries(held(*buf)))) by {
        if let Some((more, rest)) = take_entries(start) {
            assert(items@ + more =~= more);
        }
    }
    loop
        invariant
            continues(take_entries(start), items@, take_entries(held(*buf))),
            start == held(*old(buf)),
        decreases held(*buf).len(),
    {
        let ghost here = held(*buf);
        let ghost done = items@;
        let id: u16 = read_u16(buf)?;
        if id == 0xFFFF {
            assert(items@ + Seq::<(ItemId, u8)>::empty() =~= items@);
            return Ok(items);
        }
        let amount: u8 = read_u8(buf)?;
        items.push((ItemId(id), amount));
        assert(continues(take_entries(start), items@, take_entries(held(*buf)))) by {
            if let Some((more, rest)) = take_entries(held(*buf)) {
                assert(done + (seq![(ItemId(id), amount)] + more) =~= items@ + more);
            }
        }
    }
}

fn read_item_stack(buf: &mut BytesMut) -> (r: Result<ItemStack, WireError>)
    ensures
        reads_view(r, held(*final(buf)), take_stack(held(*old(buf)))),
{
    let entries = read_tile_entries(buf)?;
    if entries.len() > MAX_VISIBLE_ITEMS {
        return Err(WireError::Malformed { opcode: 0 });
    }
    let mut stack: ItemStack = [None; 8];
    let mut i: usize = 0;
    while i < entries.len()
        invariant
            i <= entries.len() <= MAX_VISIBLE_ITEMS,
            stack@ == padded(entries@.take(i as int)),
        decreases entries.len() - i,
    {
        stack[i] = Some(entries[i]);
        i += 1;
        assert(stack@ =~= padded(entries@.take(i as int)));
    }
    assert(entries@.take(i as int) =~= entries@);
    Ok(stack)
}

fn read_container_items(buf: &mut BytesMut) -> (r: Result<Vec<Option<(ItemId, u8)>>, WireError>)
    ensures
        reads_view(r, held(*final(buf)), take_container_items(held(*old(buf)))),
{
    let entries = read_tile_entries(buf)?;
    let mut items: Vec<Option<(ItemId, u8)>> = Vec::new();
    let mut i: usize = 0;
    while i < entries.len()
        invariant
            i <= entries.len(),
            items@ == filled(entries@.take(i as int)),
        decreases entries.len() - i,
    {
        items.push(Some(entries[i]));
        i += 1;
        assert(items@ =~= filled(entries@.take(i as int)));
    }
    assert(entries@.take(i as int) =~= entries@);
    Ok(items)
}

/// The tiles read have the views that `taken` says, and `after` is left.
spec fn reads_stacks(
    r: Result<Vec<ItemStack>, WireError>,
    after: Seq<u8>,
    taken: Taken<Seq<StackView>>,
) -> bool {
    match taken {
        Some((v, rest)) => r is Ok && stacks_view(r->Ok_0@) == v && after == rest,
        None => r == Err::<Vec<ItemStack>, WireError>(WireError::Malformed { opcode: 0 }),
    }
}

fn read_item_stacks(buf: &mut BytesMut, count: usize) -> (r: Result<Vec<ItemStack>, WireError>)
    ensures
        reads_stacks(r, held(*final(buf)), take_stacks(count as nat, held(*old(buf)))),
{
    let mut tiles: Vec<ItemStack> = Vec::new();
    let ghost start = held(*buf);
    let ghost whole = take_stacks(count as nat, start);
    let mut i: usize = 0;
    assert(continues(whole, stacks_view(tiles@), whole)) by {
        if let Some((more, rest)) = whole {
            assert(stacks_view(tiles@) + more =~= more);
        }
    }
    while i < count
        invariant
            i <= count,
            whole == take_stacks(count as nat, held(*old(buf))),
            continues(whole, stacks_view(tiles@), take_stacks((count - i) as nat, held(*buf))),
        decreases count - i,
    {
        let ghost done = stacks_view(tiles@);
        let stack = read_item_stack(buf)?;
        tiles.push(stack);
        i += 1;
        assert(continues(whole, stacks_view(tiles@), take_stacks((count - i) as nat, held(*buf))))
            by {
            if let Some((more, rest)) = take_stacks((count - i) as nat, held(*buf)) {
                assert(done + (seq![stack@] + more) =~= stacks_view(tiles@) + more);
            }
        }
    }
    assert(stacks_view(tiles@) + Seq::<StackView>::empty() =~= stacks_view(tiles@));
    Ok(tiles)
}

/// The strips read have the views that `taken` says, and `after` is left.
spec fn reads_strips(
    r: Result<Vec<(u8, Vec<ItemStack>)>, WireError>,
    after: Seq<u8>,
    taken: Taken<Seq<(u8, Seq<StackView>)>>,
) -> bool {
    match taken {
        Some((v, rest)) => r is Ok && strips_view(r->Ok_0@) == v && after == rest,
        None => r == Err::<Vec<(u8, Vec<ItemStack>)>, WireError>(
            WireError::Malformed { opcode: 0 },
        ),
    }
}

fn read_strips(buf: &mut BytesMut) -> (r: Result<Vec<(u8, Vec<ItemStack>)>, WireError>)
    ensures
        reads_strips(r, held(*final(buf)), take_strips(held(*old(buf)))),
{
    let mut tiles: Vec<(u8, Vec<ItemStack>)> = Vec::new();
    let ghost whole = take_strips(held(*buf));
    assert(continues(whole, strips_view(tiles@), whole)) by {
        if let Some((more, rest)) = whole {
            assert(strips_view(tiles@) + more =~= more);
        }
    }
    loop
        invariant
            whole == take_strips(held(*old(buf))),
            continues(whole, strips_view(tiles@), take_strips(held(*buf))),
        decreases held(*buf).len(),
    {
        let ghost done = strips_view(tiles@);
        let floor: u8 = read_u8(buf)?;
        if floor == 0xFF {
            assert(done + Seq::<(u8, Seq<StackView>)>::empty() =~= done);
            return Ok(tiles);
        }
        let count: u8 = read_u8(buf)?;
        proof {
            lemma_take_stacks_shrinks(count as nat, held(*buf));
        }
        let strip = read_item_stacks(buf, count as usize)?;
        let ghost seen = stacks_view(strip@);
        tiles.push((floor, strip));
        assert(continues(whole, strips_view(tiles@), take_strips(held(*buf)))) by {
            if let Some((more, rest)) = take_strips(held(*buf)) {
                assert(done + (seq![(floor, seen)] + more) =~= strips_view(tiles@) + more);
            }
        }
    }
}

/// The channels read have the views that `taken` says, and `after` is left.
spec fn reads_channels(
    r: Result<Vec<(ChannelId, String)>, WireError>,
    after: Seq<u8>,
    taken: Taken<Seq<(ChannelId, Seq<char>)>>,
) -> bool {
    match taken {
        Some((v, rest)) => r is Ok && channels_view(r->Ok_0@) == v && after == rest,
        None => r == Err::<Vec<(ChannelId, String)>, WireError>(WireError::Malformed { opcode: 0 }),
    }
}

fn read_channels(buf: &mut BytesMut) -> (r: Result<Vec<(ChannelId, String)>, WireError>)
    ensures
        reads_channels(r, held(*final(buf)), take_channel_list(held(*old(buf)))),
{
    let count: u16 = read_u16(buf)?;
    let mut channels: Vec<(ChannelId, String)> = Vec::new();
    let ghost whole = take_channels(count as nat, held(*buf));
    let mut i: u16 = 0;
    assert(continues(whole, channels_view(channels@), whole)) by {
        if let Some((more, rest)) = whole {
            assert(channels_view(channels@) + more =~= more);
        }
    }
    while i < count
        invariant
            i <= count,
            whole == take_channel_list(held(*old(buf))),
            continues(whole, channels_view(channels@), take_channels((count - i) as nat, held(*buf))),
        decreases count - i,
    {
        let ghost done = channels_view(channels@);
        let id = ChannelId(read_u16(buf)?);
        let name = read_string(buf)?;
        let ghost said = name@;
        channels.push((id, name));
        i += 1;
        assert(continues(
            whole,
            channels_view(channels@),
            take_channels((count - i) as nat, held(*buf)),
        )) by {
            if let Some((more, rest)) = take_channels((count - i) as nat, held(*buf)) {
                assert(done + (seq![(id, said)] + more) =~= channels_view(channels@) + more);
            }
        }
    }
    assert(channels_view(channels@) + Seq::<(ChannelId, Seq<char>)>::empty() =~= channels_view(
        channels@,
    ));
    Ok(channels)
}

fn read_deltas(buf: &mut BytesMut) -> (r: Result<Vec<(i8, i8)>, WireError>)
    ensures
        reads_view(r, held(*final(buf)), take_deltas(held(*old(buf)))),
{
    let mut delta: Vec<(i8, i8)> = Vec::new();
    let ghost whole = take_deltas(held(*buf));
    assert(continues(whole, delta@, whole)) by {
        if let Some((more, rest)) = whole {
            assert(delta@ + more =~= more);
        }
    }
    while buffer_len(buf) > 0
        invariant
            whole == take_deltas(held(*old(buf))),
            continues(whole, delta@, take_deltas(held(*buf))),
        decreases held(*buf).len(),
    {
        let ghost done = delta@;
        let dx: i8 = read_i8(buf)?;
        let dy: i8 = read_i8(buf)?;
        delta.push((dx, dy));
        assert(continues(whole, delta@, take_deltas(held(*buf)))) by {
            if let Some((more, rest)) = take_deltas(held(*buf)) {
                assert(done + (seq![(dx, dy)] + more) =~= delta@ + more);
            }
        }
    }
    assert(delta@ + Seq::<(i8, i8)>::empty() =~= delta@);
    Ok(delta)
}

fn read_progress(buf: &mut BytesMut) -> (r: Result<SkillProgress, WireError>)
    ensures
        reads(r, held(*final(buf)), take_progress(held(*old(buf)))),
{
    Ok(SkillProgress { level: read_u16(buf)?, percent_bp: read_u16(buf)? })
}

fn read_skills(buf: &mut BytesMut) -> (r: Result<Vec<(SkillType, SkillProgress)>, WireError>)
    ensures
        reads_view(r, held(*final(buf)), take_skill_list(held(*old(buf)))),
{
    let count: u8 = read_u8(buf)?;
    let mut skills: Vec<(SkillType, SkillProgress)> = Vec::new();
    let ghost whole = take_skills(count as nat, held(*buf));
    let mut i: u8 = 0;
    assert(continues(whole, skills@, whole)) by {
        if let Some((more, rest)) = whole {
            assert(skills@ + more =~= more);
        }
    }
    while i < count
        invariant
            i <= count,
            whole == take_skill_list(held(*old(buf))),
            continues(whole, skills@, take_skills((count - i) as nat, held(*buf))),
        decreases count - i,
    {
        let ghost done = skills@;
        let skill = read_skill(buf)?;
        let progress = read_progress(buf)?;
        skills.push((skill, progress));
        i += 1;
        assert(continues(whole, skills@, take_skills((count - i) as nat, held(*buf)))) by {
            if let Some((more, rest)) = take_skills((count - i) as nat, held(*buf)) {
                assert(done + (seq![(skill, progress)] + more) =~= skills@ + more);
            }
        }
    }
    assert(skills@ + Seq::<(SkillType, SkillProgress)>::empty() =~= skills@);
    Ok(skills)
}

fn read_spell_entry(buf: &mut BytesMut) -> (r: Result<SpellListEntry, WireError>)
    ensures
        reads_view(r, held(*final(buf)), take_spell_entry(held(*old(buf)))),
{
    proof {
        reveal(take_spell_entry);
    }
    let id = SpellId(read_u16(buf)?);
    let name = read_string(buf)?;
    let words = read_string(buf)?;
    let level: u16 = read_u16(buf)?;
    let icon: u16 = read_u16(buf)?;
    let aimable: bool = read_u8(buf)? != 0;
    let group = read_spell_group(buf)?;
    Ok(SpellListEntry { id, name, words, level, icon, aimable, group })
}

/// The spells read have the views that `taken` says, and `after` is left.
spec fn reads_spells(
    r: Result<Vec<SpellListEntry>, WireError>,
    after: Seq<u8>,
    taken: Taken<Seq<SpellListEntryView>>,
) -> bool {
    match taken {
        Some((v, rest)) => r is Ok && spells_view(r->Ok_0@) == v && after == rest,
        None => r == Err::<Vec<SpellListEntry>, WireError>(WireError::Malformed { opcode: 0 }),
    }
}

fn read_spells(buf: &mut BytesMut) -> (r: Result<Vec<SpellListEntry>, WireError>)
    ensures
        reads_spells(r, held(*final(buf)), take_spell_list(held(*old(buf)))),
{
    let count: u16 = read_u16(buf)?;
    let mut spells: Vec<SpellListEntry> = Vec::new();
    let ghost whole = take_spells(count as nat, held(*buf));
    let mut i: u16 = 0;
    assert(continues(whole, spells_view(spells@), whole)) by {
        if let Some((more, rest)) = whole {
            assert(spells_view(spells@) + more =~= more);
        }
    }
    while i < count
        invariant
            i <= count,
            whole == take_spell_list(held(*old(buf))),
            continues(whole, spells_view(spells@), take_spells((count - i) as nat, held(*buf))),
        decreases count - i,
    {
        let ghost done = spells_view(spells@);
        let entry = read_spell_entry(buf)?;
        let ghost seen = entry@;
        spells.push(entry);
        i += 1;
        assert(continues(whole, spells_view(spells@), take_spells((count - i) as nat, held(*buf))))
            by {
            if let Some((more, rest)) = take_spells((count - i) as nat, held(*buf)) {
                assert(done + (seq![seen] + more) =~= spells_view(spells@) + more);
            }
        }
    }
    assert(spells_view(spells@) + Seq::<SpellListEntryView>::empty() =~= spells_view(spells@));
    Ok(spells)
}

fn read_optional_position(buf: &mut BytesMut) -> (r: Result<Option<Position>, WireError>)
    ensures
        reads(r, held(*final(buf)), take_optional_position(held(*old(buf)))),
{
    match read_u8(buf)? {
        1 => Ok(Some(read_position(buf)?)),
        0 => Ok(None),
        _ => Err(WireError::Malformed { opcode: 0 }),
    }
}

fn read_optional_color(buf: &mut BytesMut) -> (r: Result<Option<Color>, WireError>)
    ensures
        reads(r, held(*final(buf)), take_optional_color(held(*old(buf)))),
{
    match read_u8(buf)? {
        1 => Ok(Some(Color(read_u8(buf)?, read_u8(buf)?, read_u8(buf)?))),
        0 => Ok(None),
        _ => Err(WireError::Malformed { opcode: 0 }),
    }
}

fn read_equipped(buf: &mut BytesMut) -> (r: Result<Equipped, WireError>)
    ensures
        reads(r, held(*final(buf)), take_equipped(held(*old(buf)))),
{
    proof {
        reveal(take_equipped);
    }
    Ok(
        Equipped {
            head: read_optional_item(buf)?,
            amulet: read_optional_item(buf)?,
            backpack: read_optional_item(buf)?,
            chest: read_optional_item(buf)?,
            right_hand: read_optional_item(buf)?,
            left_hand: read_optional_item(buf)?,
            legs: read_optional_item(buf)?,
            feet: read_optional_item(buf)?,
            ring: read_optional_item(buf)?,
            trinket: read_optional_item(buf)?,
        },
    )
}

fn decode_player(payload: &mut BytesMut) -> (r: Result<ServerMessage, WireError>)
    ensures
        reads_view(r, held(*final(payload)), take_describe_player(held(*old(payload)))),
{
    let agent_id = AgentId(read_u16(payload)?);
    let position = read_position(payload)?;
    let facing = read_facing(payload)?;
    let name = read_string(payload)?;
    let level: u16 = read_u16(payload)?;
    let life = read_pool(payload)?;
    let mana = read_pool(payload)?;
    let outfit = read_outfit(payload)?;
    let speed: u16 = read_u16(payload)?;
    let capacity: u32 = read_u32(payload)?;
    let equipped = read_equipped(payload)?;
    Ok(
        ServerMessage::DescribePlayer {
            agent_id,
            position,
            facing,
            name,
            level,
            life,
            mana,
            outfit,
            speed,
            capacity,
            inventory_head: equipped.head,
            inventory_amulet: equipped.amulet,
            inventory_backpack: equipped.backpack,
            inventory_chest: equipped.chest,
            inventory_right_hand: equipped.right_hand,
            inventory_left_hand: equipped.left_hand,
            inventory_legs: equipped.legs,
            inventory_feet: equipped.feet,
            inventory_ring: equipped.ring,
            inventory_trinket: equipped.trinket,
        },
    )
}

/// What the server says with `opcode`, read off the front of `payload`.
fn decode_body(opcode: u8, payload: &mut BytesMut) -> (r: Result<ServerMessage, WireError>)
    ensures
        opcode <= SRV_DAMAGED_BY ==> reads_view(
            r,
            held(*final(payload)),
            take_body(opcode, held(*old(payload))),
        ),
        opcode > SRV_DAMAGED_BY ==> r == Err::<ServerMessage, WireError>(
            WireError::UnknownOpcode(opcode),
        ),
        opcode > SRV_DAMAGED_BY ==> held(*final(payload)) == held(*old(payload)),
{
    match opcode {
        SRV_PONG => Ok(ServerMessage::Pong),
        SRV_LOGIN_ERROR => Ok(ServerMessage::LoginError),
        SRV_DESCRIBE_MAP => {
            let center = read_position(payload)?;
            let floor: u8 = read_u8(payload)?;
            let tiles = read_item_stacks(payload, VIEWPORT_SIZE)?;
            Ok(ServerMessage::DescribeMap { center, floor, tiles })
        },
        SRV_TILE_UPDATED => {
            let position = read_position(payload)?;
            let items = read_item_stack(payload)?;
            Ok(ServerMessage::TileUpdated { position, items })
        },
        SRV_PLAYER_WALK_ACK => {
            let position = read_position(payload)?;
            let tiles = read_strips(payload)?;
            Ok(ServerMessage::PlayerWalkAck { position, tiles })
        },
        SRV_PLAYER_POS => Ok(ServerMessage::PlayerPosition { position: read_position(payload)? }),
        SRV_DESCRIBE_PLAYER => decode_player(payload),
        SRV_TEXT_MESSAGE => {
            let text = read_string(payload)?;
            let message_type = read_text_message_type(payload)?;
            Ok(ServerMessage::TextMessage { text, message_type })
        },
        SRV_OPEN_CONTAINER => {
            let container_id = ContainerId(read_u16(payload)?);
            let capacity: u8 = read_u8(payload)?;
            let has_parent: bool = read_u8(payload)? != 0;
            let title = read_short_string(payload)?;
            let items = read_container_items(payload)?;
            Ok(ServerMessage::OpenContainer { container_id, capacity, has_parent, title, items })
        },
        SRV_UPDATE_CONTAINER => {
            let container_id = ContainerId(read_u16(payload)?);
            let items = read_container_items(payload)?;
            Ok(ServerMessage::UpdateContainer { container_id, items })
        },
        SRV_CONTAINER_CLOSED => Ok(ServerMessage::ContainerClosed { container_id: ContainerId(read_u16(payload)?) }),
        SRV_PLAYER_WALK_DENIED => Ok(ServerMessage::PlayerWalkDenied),
        SRV_INVENTORY_SLOT_UPDATED => {
            let slot = read_slot(payload)?;
            let item_id = read_optional_item(payload)?;
            Ok(ServerMessage::IventorySlotUpdated { slot, item_id })
        },
        SRV_PLAYER_CAPACITY_UPDATED => Ok(ServerMessage::PlayerCapacityUpdated { cap: read_u32(payload)? }),
        SRV_AGENT_DIRECTION_CHANGED => {
            let agent_id = AgentId(read_u16(payload)?);
            let facing = read_facing(payload)?;
            Ok(ServerMessage::AgentChangedDirection { agent_id, facing })
        },
        SRV_REMOVE_AGENT => Ok(ServerMessage::RemoveAgent { agent_id: AgentId(read_u16(payload)?) }),
        SRV_MOVE_AGENT => {
            let agent_id = AgentId(read_u16(payload)?);
            let direction = read_direction(payload)?;
            let from = read_position(payload)?;
            Ok(ServerMessage::MoveAgent { agent_id, direction, from })
        },
        SRV_SPAWN_AGENT => {
            let agent_id = AgentId(read_u16(payload)?);
            let position = read_position(payload)?;
            let facing = read_facing(payload)?;
            let name = read_string(payload)?;
            let life: u32 = read_u32(payload)?;
            let outfit = read_outfit(payload)?;
            let speed: u16 = read_u16(payload)?;
            Ok(ServerMessage::SpawnAgent { agent_id, position, facing, name, life, outfit, speed })
        },
        SRV_TELEPORT_AGENT => {
            let agent_id = AgentId(read_u16(payload)?);
            let position = read_position(payload)?;
            Ok(ServerMessage::TeleportAgent { agent_id, position })
        },
        SRV_CHAT_MESSAGE => {
            let author = read_string(payload)?;
            let message_type = read_chat_message_type(payload)?;
            let channel = ChannelId(read_u16(payload)?);
            let position = read_optional_position(payload)?;
            let message = read_string(payload)?;
            Ok(ServerMessage::ChatMessage { author, message_type, channel, position, message })
        },
        SRV_CHANNEL_LIST => Ok(ServerMessage::ChannelList { channels: read_channels(payload)? }),
        SRV_PRIVATE_CHAT_OPENED => Ok(ServerMessage::PrivateChatOpened { name: read_string(payload)? }),
        SRV_FLOATING_TEXT => {
            let text = read_string(payload)?;
            let position = read_position(payload)?;
            let text_type = read_floating_text_type(payload)?;
            let color = read_optional_color(payload)?;
            Ok(ServerMessage::FloatingText { text, position, text_type, color })
        },
        SRV_TARGET_LOST => Ok(ServerMessage::TargetLost { seq: read_u32(payload)? }),
        SRV_AGENT_LIFE_UPDATED => {
            let agent_id = AgentId(read_u16(payload)?);
            let current: u32 = read_u32(payload)?;
            let max: u32 = read_u32(payload)?;
            Ok(ServerMessage::AgentLifeChanged { agent_id, current, max })
        },
        SRV_SHOW_EFFECT => {
            let effect_id = EffectId(read_u16(payload)?);
            let position = read_position(payload)?;
            let delta = read_deltas(payload)?;
            Ok(ServerMessage::ShowEffect { effect_id, position, delta })
        },
        SRV_LAUNCH_MISSILE => {
            let from = read_position(payload)?;
            let to = read_position(payload)?;
            let missile_id = MissileId(read_u16(payload)?);
            Ok(ServerMessage::LaunchMissile { from, to, missile_id })
        },
        SRV_AGENT_MANA_UPDATED => {
            let agent_id = AgentId(read_u16(payload)?);
            let current: u32 = read_u32(payload)?;
            let max: u32 = read_u32(payload)?;
            Ok(ServerMessage::AgentManaUpdated { agent_id, current, max })
        },
        SRV_PLAYER_SKILLS => {
            let experience: u64 = read_u64(payload)?;
            let skills = read_skills(payload)?;
            Ok(ServerMessage::PlayerSkills { experience, skills })
        },
        SRV_SKILL_UPDATED => {
            let skill = read_skill(payload)?;
            let progress = read_progress(payload)?;
            Ok(ServerMessage::SkillUpdated { skill, progress })
        },
        SRV_EXPERIENCE_UPDATED => Ok(ServerMessage::ExperienceUpdated { experience: read_u64(payload)? }),
        SRV_SPELL_CAST => {
            let spell = SpellId(read_u16(payload)?);
            let spell_cooldown_ms: u32 = read_u32(payload)?;
            let group_cooldown_ms: u32 = read_u32(payload)?;
            Ok(ServerMessage::SpellCast { spell, spell_cooldown_ms, group_cooldown_ms })
        },
        SRV_SPELL_LIST => Ok(ServerMessage::SpellList { spells: read_spells(payload)? }),
        SRV_AGENT_SPEED_UPDATED => {
            let agent_id = AgentId(read_u16(payload)?);
            let speed: u16 = read_u16(payload)?;
            Ok(ServerMessage::AgentSpeedUpdated { agent_id, speed })
        },
        SRV_PLAYER_STATUS => Ok(ServerMessage::PlayerStatus { status: read_u32(payload)? }),
        SRV_DAMAGED_BY => Ok(ServerMessage::DamagedBy { agent_id: AgentId(read_u16(payload)?) }),
        _ => Err(WireError::UnknownOpcode(opcode)),
    }
}

/// What a payload means: the message that it holds from end to end, or why it holds none.
pub open spec fn meaning(payload: Seq<u8>) -> Result<ServerMessageView, WireError> {
    if payload.len() == 0 {
        Err(WireError::Malformed { opcode: 0 })
    } else if payload[0] > SRV_DAMAGED_BY {
        Err(WireError::UnknownOpcode(payload[0]))
    } else {
        match take_body(payload[0], payload.skip(1)) {
            Some((message, rest)) => if rest.len() == 0 {
                Ok(message)
            } else {
                Err(WireError::Malformed { opcode: payload[0] })
            },
            None => Err(WireError::Malformed { opcode: payload[0] }),
        }
    }
}

/// The payload of the first frame in `bytes`, and the bytes after the frame, once the frame is
/// there from end to end.
pub open spec fn first_frame(bytes: Seq<u8>) -> Option<(Seq<u8>, Seq<u8>)> {
    if bytes.len() < 2 || bytes.len() < 2 + u16_at(bytes, 0) {
        None
    } else {
        Some((bytes.subrange(2, 2 + u16_at(bytes, 0)), bytes.skip(2 + u16_at(bytes, 0))))
    }
}

fn decode_message(payload: &mut BytesMut) -> (r: Result<ServerMessage, WireError>)
    ensures
        held(*old(payload)).len() == 0 ==> r == Err::<ServerMessage, WireError>(
            WireError::Malformed { opcode: 0 },
        ),
        held(*old(payload)).len() > 0 ==> ({
            let opcode = held(*old(payload))[0];
            let taken = take_body(opcode, held(*old(payload)).skip(1));
            if opcode > SRV_DAMAGED_BY {
                r == Err::<ServerMessage, WireError>(WireError::UnknownOpcode(opcode))
            } else {
                match taken {
                    Some((v, rest)) => r is Ok && r->Ok_0@ == v && held(*final(payload)) == rest,
                    None => r == Err::<ServerMessage, WireError>(WireError::Malformed { opcode }),
                }
            }
        }),
{
    let opcode: u8 = read_u8(payload)?;
    match decode_body(opcode, payload) {
        Ok(message) => Ok(message),
        Err(error) => Err(error.with_opcode(opcode)),
    }
}

fn encode_position(pos: &Position, dst: &mut BytesMut)
    requires
        held(*old(dst)).len() + 5 <= isize::MAX,
    ensures
        held(*final(dst)) == held(*old(dst)) + position_bytes(*pos),
{
    put_u16_le(dst, pos.x);
    put_u16_le(dst, pos.y);
    put_u8(dst, pos.z);
    assert(held(*dst) =~= held(*old(dst)) + position_bytes(*pos));
}

fn encode_direction(direction: Direction) -> (code: u8)
    ensures
        code == direction_code(direction),
{
    match direction {
        Direction::North => 0x00,
        Direction::East => 0x01,
        Direction::West => 0x02,
        Direction::South => 0x03,
        Direction::NorthEast => 0x04,
        Direction::NorthWest => 0x05,
        Direction::SouthEast => 0x06,
        Direction::SouthWest => 0x07,
    }
}

fn encode_facing(facing: Facing) -> (code: u8)
    ensures
        code == facing_code(facing),
{
    match facing {
        Facing::North => 1,
        Facing::East => 2,
        Facing::South => 3,
        Facing::West => 4,
    }
}

fn encode_item_ref(item: &ClientItemRef, dst: &mut BytesMut)
    requires
        held(*old(dst)).len() + 8 <= isize::MAX,
    ensures
        held(*final(dst)) == held(*old(dst)) + item_ref_bytes(*item),
{
    encode_position(&item.position, dst);
    put_u16_le(dst, item.item_id.0);
    put_u8(dst, item.stack_index);
    assert(held(*dst) =~= held(*old(dst)) + item_ref_bytes(*item));
}

fn encode_optional_agent(agent_id: Option<AgentId>, dst: &mut BytesMut)
    requires
        held(*old(dst)).len() + 2 <= isize::MAX,
    ensures
        held(*final(dst)) == held(*old(dst)) + optional_agent_bytes(agent_id),
{
    match agent_id {
        Some(id) => put_u16_le(dst, id.0),
        None => put_u16_le(dst, 0xFFFF),
    }
}

fn encode_string(s: &str, dst: &mut BytesMut)
    requires
        held(*old(dst)).len() + string_bytes(s@).len() <= isize::MAX,
    ensures
        held(*final(dst)) == held(*old(dst)) + string_bytes(s@),
{
    let bytes = s.as_bytes();
    put_u16_le(dst, (bytes.len() % 0x1_0000) as u16);
    put_slice(dst, bytes);
    assert(held(*dst) =~= held(*old(dst)) + string_bytes(s@));
}

fn encode_param(param: &Option<String>, dst: &mut BytesMut)
    requires
        held(*old(dst)).len() + param_bytes(optional_view(*param)).len() <= isize::MAX,
    ensures
        held(*final(dst)) == held(*old(dst)) + param_bytes(optional_view(*param)),
{
    match param {
        Some(s) => encode_string(s.as_str(), dst),
        None => put_u16_le(dst, 0),
    }
}

fn encode_spell_target(target: &SpellTarget, dst: &mut BytesMut)
    requires
        held(*old(dst)).len() + spell_target_bytes(*target).len() <= isize::MAX,
    ensures
        held(*final(dst)) == held(*old(dst)) + spell_target_bytes(*target),
{
    match target {
        SpellTarget::NoTarget => put_u8(dst, 0x00),
        SpellTarget::Agent(agent_id) => {
            put_u8(dst, 0x01);
            put_u16_le(dst, agent_id.0);
        },
        SpellTarget::Position(position) => {
            put_u8(dst, 0x02);
            encode_position(position, dst);
        },
    }
    assert(held(*dst) =~= held(*old(dst)) + spell_target_bytes(*target));
}

fn encode_say_target(target: &SayTarget, dst: &mut BytesMut)
    requires
        held(*old(dst)).len() + say_target_bytes(target@).len() <= isize::MAX,
    ensures
        held(*final(dst)) == held(*old(dst)) + say_target_bytes(target@),
{
    match target {
        SayTarget::Local => put_u8(dst, 0x01),
        SayTarget::Channel(channel) => {
            put_u8(dst, 0x03);
            put_u16_le(dst, channel.0);
        },
        SayTarget::Player(name) => {
            put_u8(dst, 0x02);
            encode_string(name.as_str(), dst);
        },
    }
    assert(held(*dst) =~= held(*old(dst)) + say_target_bytes(target@));
}

fn encode_payload(item: &ClientMessage, dst: &mut BytesMut)
    requires
        held(*old(dst)).len() + client_payload(item@).len() <= isize::MAX,
    ensures
        held(*final(dst)) == held(*old(dst)) + client_payload(item@),
{
    match item {
        ClientMessage::Ping => put_u8(dst, CLI_PING),
        ClientMessage::Login { auth_token } => {
            put_u8(dst, CLI_LOGIN);
            put_slice(dst, auth_token.as_str().as_bytes());
        },
        ClientMessage::MovePlayer { direction } => {
            put_u8(dst, CLI_MOVE_PLAYER);
            put_u8(dst, encode_direction(*direction));
        },
        ClientMessage::GetPlayerPosition => put_u8(dst, CLI_GET_PLAYER_POS),
        ClientMessage::MoveItem { item, amount, to } => {
            put_u8(dst, CLI_MOVE_ITEM);
            encode_position(&item.position, dst);
            put_u16_le(dst, item.item_id.0);
            put_u8(dst, *amount);
            put_u8(dst, item.stack_index);
            encode_position(to, dst);
        },
        ClientMessage::UseItem { item } => {
            put_u8(dst, CLI_USE_ITEM);
            encode_item_ref(item, dst);
        },
        ClientMessage::CloseContainer { container_id } => {
            put_u8(dst, CLI_CLOSE_CONTAINER);
            put_u16_le(dst, container_id.0);
        },
        ClientMessage::OpenParentContainer { container_id } => {
            put_u8(dst, CLI_OPEN_PARENT_CONTAINER);
            put_u16_le(dst, container_id.0);
        },
        ClientMessage::ChangeDirection { direction } => {
            put_u8(dst, CLI_CHANGE_DIRECTION);
            put_u8(dst, encode_facing(*direction));
        },
        ClientMessage::Logout => put_u8(dst, CLI_LOGOUT),
        ClientMessage::UseItemWith { source, target, target_agent } => {
            put_u8(dst, CLI_USE_ITEM_WITH);
            encode_item_ref(source, dst);
            encode_item_ref(target, dst);
            encode_optional_agent(*target_agent, dst);
        },
        ClientMessage::Look { position } => {
            put_u8(dst, CLI_LOOK);
            encode_position(position, dst);
        },
        ClientMessage::Say { message, target } => {
            put_u8(dst, CLI_SAY);
            encode_say_target(target, dst);
            put_slice(dst, message.as_str().as_bytes());
        },
        ClientMessage::RequestChannels => put_u8(dst, CLI_REQUEST_CHANNELS),
        ClientMessage::OpenChannel { channel } => {
            put_u8(dst, CLI_OPEN_CHANNEL);
            put_u16_le(dst, channel.0);
        },
        ClientMessage::CloseChannel { channel } => {
            put_u8(dst, CLI_CLOSE_CHANNEL);
            put_u16_le(dst, channel.0);
        },
        ClientMessage::OpenPmChat { name } => {
            put_u8(dst, CLI_OPEN_PM_CHAT);
            put_slice(dst, name.as_str().as_bytes());
        },
        ClientMessage::SetTarget { agent_id, seq } => {
            put_u8(dst, CLI_SET_TARGET);
            encode_optional_agent(*agent_id, dst);
            put_u32_le(dst, *seq);
        },
        ClientMessage::CastSpell { spell_id, target, param } => {
            put_u8(dst, CLI_CAST_SPELL);
            put_u16_le(dst, spell_id.0);
            encode_spell_target(target, dst);
            encode_param(param, dst);
        },
    }
    assert(held(*dst) =~= held(*old(dst)) + client_payload(item@));
}

/// The reading and the writing end of a connection.
#[derive(Debug)]
pub struct LoadtestCodec {
    bytes_read: u64,
}

impl Default for LoadtestCodec {
    fn default() -> (codec: Self)
        ensures
            codec.read_so_far() == 0,
    {
        LoadtestCodec { bytes_read: 0 }
    }
}

impl LoadtestCodec {
    /// The length of all frames read so far, their length prefixes counted in.
    pub closed spec fn read_so_far(&self) -> int {
        self.bytes_read as int
    }

    /// The length of all frames read so far, their length prefixes counted in.
    pub fn bytes_read(&self) -> (n: u64)
        ensures
            n == self.read_so_far(),
    {
        self.bytes_read
    }

    /// Takes the first frame off `buf` and reads it, or takes nothing while it is incomplete.
    #[verifier::rlimit(40)]
    pub fn decode(&mut self, buf: &mut BytesMut) -> (r: Result<Option<ServerMessage>, WireError>)
        requires
            old(self).read_so_far() + 2 + u16::MAX <= u64::MAX,
        ensures
            match first_frame(held(*old(buf))) {
                None => {
                    &&& r == Ok::<Option<ServerMessage>, WireError>(None)
                    &&& held(*final(buf)) == held(*old(buf))
                    &&& final(self).read_so_far() == old(self).read_so_far()
                },
                Some((payload, rest)) => {
                    &&& held(*final(buf)) == rest
                    &&& final(self).read_so_far() == old(self).read_so_far() + 2 + payload.len()
                    &&& match meaning(payload) {
                        Ok(message) => r is Ok && r->Ok_0 is Some && r->Ok_0->0@ == message,
                        Err(error) => r == Err::<Option<ServerMessage>, WireError>(error),
                    }
                },
            },
    {
        if buffer_len(buf) < 2 {
            return Ok(None);
        }
        let payload_len: usize = byte_at(buf, 0) as usize + 256 * byte_at(buf, 1) as usize;
        if buffer_len(buf) < 2 + payload_len {
            return Ok(None);
        }
        let ghost bytes = held(*buf);
        self.bytes_read = self.bytes_read + 2 + payload_len as u64;
        advance(buf, 2);
        let mut payload = split_to(buf, payload_len);
        assert(held(payload) =~= bytes.subrange(2, 2 + payload_len));
        assert(held(*buf) =~= bytes.skip(2 + payload_len));
        let opcode: u8 = if buffer_len(&payload) > 0 {
            byte_at(&payload, 0)
        } else {
            0
        };
        let message = decode_message(&mut payload)?;
        if buffer_len(&payload) > 0 {
            return Err(WireError::Malformed { opcode });
        }
        Ok(Some(message))
    }

    /// Appends a frame that holds `item`. A payload of more than `u16::MAX` bytes is written
    /// whole behind a length that is cut to its low two bytes.
    pub fn encode(&mut self, item: ClientMessage, dst: &mut BytesMut) -> (r: Result<(), WireError>)
        requires
            held(*old(dst)).len() + frame(client_payload(item@)).len() <= isize::MAX,
        ensures
            r == Ok::<(), WireError>(()),
            held(*final(dst)) == held(*old(dst)) + frame(client_payload(item@)),
            final(self).read_so_far() == old(self).read_so_far(),
    {
        let ghost before = held(*dst);
        let len_offset: usize = buffer_len(dst);
        put_u16_le(dst, 0);
        encode_payload(&item, dst);
        let payload_len: u16 = ((buffer_len(dst) - len_offset - 2) % 0x1_0000) as u16;
        set_byte(dst, len_offset, (payload_len % 256) as u8);
        set_byte(dst, len_offset + 1, (payload_len / 256) as u8);
        assert(held(*dst) =~= before + frame(client_payload(item@)));
        Ok(())
    }
}

} // verus!
