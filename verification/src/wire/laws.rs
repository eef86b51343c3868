//! What is written can be read back.

use crate::constants::{MAX_VISIBLE_ITEMS, VIEWPORT_SIZE};
use crate::entities::agent::{AgentId, Facing, OutfitColors, OutfitId, Pool};
use crate::entities::chat::ChannelId;
use crate::entities::items::{ClientItemRef, ContainerId, ItemId};
use crate::entities::position::{Direction, Position};
use crate::entities::skills::SkillType;
use crate::entities::spells::{SpellId, SpellTarget};
use crate::messages::{
    ClientMessageView, Color, Equipped, SayTargetView, ServerMessageView, SkillProgress, SpellListEntryView, StackView,
};
use crate::wire::buffer::{
    le16, le32, le64, take_u16, take_u32, take_u64, take_u8, u16_at, u32_at,
};
use crate::wire::codec::{first_frame, meaning, WireError};
use crate::wire::layout::{
    CLI_CAST_SPELL, CLI_CHANGE_DIRECTION, CLI_CLOSE_CHANNEL, CLI_CLOSE_CONTAINER, CLI_GET_PLAYER_POS, CLI_LOGIN, CLI_LOGOUT, CLI_LOOK, CLI_MOVE_ITEM, CLI_MOVE_PLAYER, CLI_OPEN_CHANNEL, CLI_OPEN_PARENT_CONTAINER, CLI_OPEN_PM_CHAT, CLI_PING, CLI_REQUEST_CHANNELS, CLI_SAY, CLI_SET_TARGET, CLI_USE_ITEM, CLI_USE_ITEM_WITH, SRV_AGENT_DIRECTION_CHANGED, SRV_AGENT_LIFE_UPDATED, SRV_AGENT_MANA_UPDATED, SRV_AGENT_SPEED_UPDATED, SRV_CHANNEL_LIST, SRV_CHAT_MESSAGE, SRV_CONTAINER_CLOSED, SRV_DAMAGED_BY, SRV_DESCRIBE_MAP, SRV_DESCRIBE_PLAYER, SRV_EXPERIENCE_UPDATED, SRV_FLOATING_TEXT, SRV_INVENTORY_SLOT_UPDATED, SRV_LAUNCH_MISSILE, SRV_LOGIN_ERROR, SRV_MOVE_AGENT, SRV_OPEN_CONTAINER, SRV_PLAYER_CAPACITY_UPDATED, SRV_PLAYER_POS, SRV_PLAYER_SKILLS, SRV_PLAYER_STATUS, SRV_PLAYER_WALK_ACK, SRV_PLAYER_WALK_DENIED, SRV_PONG, SRV_PRIVATE_CHAT_OPENED, SRV_REMOVE_AGENT, SRV_SHOW_EFFECT, SRV_SKILL_UPDATED, SRV_SPAWN_AGENT, SRV_SPELL_CAST, SRV_SPELL_LIST, SRV_TARGET_LOST, SRV_TELEPORT_AGENT, SRV_TEXT_MESSAGE, SRV_TILE_UPDATED, SRV_UPDATE_CONTAINER, Taken, bind, chat_message_type_code, client_body, client_opcode, client_payload, direction_code, facing_code, filled, floating_text_type_code, frame, item_ref_bytes, optional_agent_bytes, padded, param_bytes, position_bytes, say_target_bytes, spell_group_code, spell_target_bytes, string_bytes, take_agent_changed_direction, take_agent_id, take_agent_life_changed, take_agent_mana_updated, take_agent_speed_updated, take_body, take_channel_id, take_channel_list, take_channels, take_chat_message, take_container_id, take_container_items, take_deltas, take_describe_map, take_describe_player, take_direction, take_entries, take_equipped, take_facing, take_floating_text, take_iventory_slot_updated, take_launch_missile, take_move_agent, take_open_container, take_optional_color, take_optional_item, take_optional_position, take_outfit, take_player_skills, take_player_walk_ack, take_pool, take_position, take_progress, take_short_string, take_show_effect, take_skill_list, take_skill_updated, take_skills, take_spawn_agent, take_spell_cast, take_spell_entry, take_spell_id, take_spell_list, take_spells, take_stack, take_stacks, take_string, take_strips, take_teleport_agent, take_text, take_text_message, take_tile_updated, take_update_container, text_message_type_code,
};
use vstd::prelude::*;
use vstd::utf8::{encode_utf8, encode_utf8_decode_utf8, encode_utf8_valid_utf8};

verus! {

pub proof fn lemma_u8(v: u8, t: Seq<u8>)
    ensures
        take_u8(seq![v] + t) == Some((v, t)),
{
    assert((seq![v] + t).skip(1) =~= t);
}

pub proof fn lemma_u16(v: u16, t: Seq<u8>)
    ensures
        take_u16(le16(v) + t) == Some((v, t)),
{
    assert((le16(v) + t).skip(2) =~= t);
}

pub proof fn lemma_u32(v: u32, t: Seq<u8>)
    ensures
        take_u32(le32(v) + t) == Some((v, t)),
{
    let s = le32(v) + t;
    assert(s.skip(4) =~= t);
    assert(u16_at(s, 0) == (v % 0x1_0000) as u16);
    assert(u16_at(s, 2) == (v / 0x1_0000) as u16);
}

pub proof fn lemma_u64(v: u64, t: Seq<u8>)
    ensures
        take_u64(le64(v) + t) == Some((v, t)),
{
    let s = le64(v) + t;
    let low = (v % 0x1_0000_0000) as u32;
    let high = (v / 0x1_0000_0000) as u32;
    assert(s.skip(8) =~= t);
    assert(u16_at(s, 0) == (low % 0x1_0000) as u16);
    assert(u16_at(s, 2) == (low / 0x1_0000) as u16);
    assert(u32_at(s, 0) == low);
    assert(u16_at(s, 4) == (high % 0x1_0000) as u16);
    assert(u16_at(s, 6) == (high / 0x1_0000) as u16);
    assert(u32_at(s, 4) == high);
}

pub proof fn lemma_position(p: Position, t: Seq<u8>)
    ensures
        take_position(position_bytes(p) + t) == Some((p, t)),
{
    let s = position_bytes(p) + t;
    assert(s =~= le16(p.x) + (le16(p.y) + (seq![p.z] + t)));
    lemma_u16(p.x, le16(p.y) + (seq![p.z] + t));
    lemma_u16(p.y, seq![p.z] + t);
    lemma_u8(p.z, t);
}

/// A text whose length fits before it in two bytes.
pub open spec fn fits(text: Seq<char>) -> bool {
    encode_utf8(text).len() <= u16::MAX
}

/// A text whose length fits before it in one byte.
pub open spec fn fits_short(text: Seq<char>) -> bool {
    encode_utf8(text).len() <= u8::MAX
}

/// A text with its length in one byte before it.
pub open spec fn short_string_bytes(text: Seq<char>) -> Seq<u8> {
    seq![encode_utf8(text).len() as u8] + encode_utf8(text)
}

pub proof fn lemma_text(text: Seq<char>, t: Seq<u8>)
    ensures
        take_text(encode_utf8(text).len() as int, encode_utf8(text) + t) == Some((text, t)),
{
    let bytes = encode_utf8(text);
    assert((bytes + t).take(bytes.len() as int) =~= bytes);
    assert((bytes + t).skip(bytes.len() as int) =~= t);
    encode_utf8_valid_utf8(text);
    encode_utf8_decode_utf8(text);
}

pub proof fn lemma_string(text: Seq<char>, t: Seq<u8>)
    requires
        fits(text),
    ensures
        take_string(string_bytes(text) + t) == Some((text, t)),
{
    let n = encode_utf8(text).len() as u16;
    assert(string_bytes(text) + t =~= le16(n) + (encode_utf8(text) + t));
    lemma_u16(n, encode_utf8(text) + t);
    lemma_text(text, t);
}

pub proof fn lemma_short_string(text: Seq<char>, t: Seq<u8>)
    requires
        fits_short(text),
    ensures
        take_short_string(short_string_bytes(text) + t) == Some((text, t)),
{
    let n = encode_utf8(text).len() as u8;
    assert(short_string_bytes(text) + t =~= seq![n] + (encode_utf8(text) + t));
    lemma_u8(n, encode_utf8(text) + t);
    lemma_text(text, t);
}

/// The number of an item, all ones where there is none.
pub open spec fn optional_item_bytes(item: Option<ItemId>) -> Seq<u8> {
    le16(
        match item {
            Some(id) => id.0,
            None => 0xFFFF,
        },
    )
}

/// An item whose number does not mean that there is none.
pub open spec fn named(item: Option<ItemId>) -> bool {
    item != Some(ItemId(0xFFFF))
}

pub proof fn lemma_optional_item(item: Option<ItemId>, t: Seq<u8>)
    requires
        named(item),
    ensures
        take_optional_item(optional_item_bytes(item) + t) == Some((item, t)),
{
    lemma_u16(
        match item {
            Some(id) => id.0,
            None => 0xFFFF,
        },
        t,
    );
}

pub open spec fn pool_bytes(pool: Pool) -> Seq<u8> {
    le32(pool.current) + le32(pool.maximum)
}

pub proof fn lemma_pool(pool: Pool, t: Seq<u8>)
    ensures
        take_pool(pool_bytes(pool) + t) == Some((pool, t)),
{
    assert(pool_bytes(pool) + t =~= le32(pool.current) + (le32(pool.maximum) + t));
    lemma_u32(pool.current, le32(pool.maximum) + t);
    lemma_u32(pool.maximum, t);
}

pub open spec fn outfit_bytes(outfit: (OutfitId, OutfitColors)) -> Seq<u8> {
    le16(outfit.0.0) + seq![outfit.1.head, outfit.1.body, outfit.1.legs, outfit.1.feet]
}

pub proof fn lemma_outfit(outfit: (OutfitId, OutfitColors), t: Seq<u8>)
    ensures
        take_outfit(outfit_bytes(outfit) + t) == Some((outfit, t)),
{
    let c = outfit.1;
    let t3 = seq![c.feet] + t;
    let t2 = seq![c.legs] + t3;
    let t1 = seq![c.body] + t2;
    let t0 = seq![c.head] + t1;
    assert(outfit_bytes(outfit) + t =~= le16(outfit.0.0) + t0);
    lemma_u16(outfit.0.0, t0);
    lemma_u8(c.head, t1);
    lemma_u8(c.body, t2);
    lemma_u8(c.legs, t3);
    lemma_u8(c.feet, t);
}

/// Items with their amounts, closed by a number that is all ones.
pub open spec fn entries_bytes(entries: Seq<(ItemId, u8)>) -> Seq<u8>
    decreases entries.len(),
{
    if entries.len() == 0 {
        le16(0xFFFF)
    } else {
        le16(entries[0].0.0) + (seq![entries[0].1] + entries_bytes(entries.drop_first()))
    }
}

/// No entry has the number that closes the list.
pub open spec fn entries_sendable(entries: Seq<(ItemId, u8)>) -> bool {
    forall|i: int| 0 <= i < entries.len() ==> (#[trigger] entries[i]).0 != ItemId(0xFFFF)
}

pub proof fn lemma_entries(entries: Seq<(ItemId, u8)>, t: Seq<u8>)
    requires
        entries_sendable(entries),
    ensures
        take_entries(entries_bytes(entries) + t) == Some((entries, t)),
    decreases entries.len(),
{
    if entries.len() == 0 {
        lemma_u16(0xFFFF, t);
        assert(entries =~= Seq::empty());
    } else {
        let more = entries.drop_first();
        let t1 = entries_bytes(more) + t;
        assert(entries_bytes(entries) + t =~= le16(entries[0].0.0) + (seq![entries[0].1] + t1));
        lemma_u16(entries[0].0.0, seq![entries[0].1] + t1);
        lemma_u8(entries[0].1, t1);
        assert forall|i: int| 0 <= i < more.len() implies (#[trigger] more[i]).0 != ItemId(
            0xFFFF,
        ) by {
            assert(more[i] == entries[i + 1]);
        }
        lemma_entries(more, t);
        assert(seq![entries[0]] + more =~= entries);
    }
}

/// The items of a tile that are there.
pub open spec fn present(stack: StackView) -> Seq<(ItemId, u8)>
    decreases stack.len(),
{
    if stack.len() == 0 || stack[0] is None {
        Seq::empty()
    } else {
        seq![stack[0]->0] + present(stack.drop_first())
    }
}

pub open spec fn stack_bytes(stack: StackView) -> Seq<u8> {
    entries_bytes(present(stack))
}

/// A tile whose items stand before its empty places.
pub open spec fn is_padded(stack: StackView) -> bool {
    &&& stack == padded(present(stack))
    &&& present(stack).len() <= MAX_VISIBLE_ITEMS
    &&& entries_sendable(present(stack))
}

pub proof fn lemma_stack(stack: StackView, t: Seq<u8>)
    requires
        is_padded(stack),
    ensures
        take_stack(stack_bytes(stack) + t) == Some((stack, t)),
{
    lemma_entries(present(stack), t);
}

pub open spec fn container_items_bytes(items: StackView) -> Seq<u8> {
    entries_bytes(present(items))
}

/// A container without an empty place.
pub open spec fn is_filled(items: StackView) -> bool {
    items == filled(present(items)) && entries_sendable(present(items))
}

pub proof fn lemma_container_items(items: StackView, t: Seq<u8>)
    requires
        is_filled(items),
    ensures
        take_container_items(container_items_bytes(items) + t) == Some((items, t)),
{
    lemma_entries(present(items), t);
}

pub open spec fn stacks_bytes(stacks: Seq<StackView>) -> Seq<u8>
    decreases stacks.len(),
{
    if stacks.len() == 0 {
        Seq::empty()
    } else {
        stack_bytes(stacks[0]) + stacks_bytes(stacks.drop_first())
    }
}

pub open spec fn stacks_sendable(stacks: Seq<StackView>) -> bool {
    forall|i: int| 0 <= i < stacks.len() ==> is_padded(#[trigger] stacks[i])
}

pub proof fn lemma_stacks(stacks: Seq<StackView>, t: Seq<u8>)
    requires
        stacks_sendable(stacks),
    ensures
        take_stacks(stacks.len(), stacks_bytes(stacks) + t) == Some((stacks, t)),
    decreases stacks.len(),
{
    if stacks.len() == 0 {
        assert(stacks_bytes(stacks) + t =~= t);
        assert(stacks =~= Seq::empty());
    } else {
        let more = stacks.drop_first();
        let t1 = stacks_bytes(more) + t;
        assert(stacks_bytes(stacks) + t =~= stack_bytes(stacks[0]) + t1);
        lemma_stack(stacks[0], t1);
        assert forall|i: int| 0 <= i < more.len() implies is_padded(#[trigger] more[i]) by {
            assert(more[i] == stacks[i + 1]);
        }
        lemma_stacks(more, t);
        assert(seq![stacks[0]] + more =~= stacks);
    }
}

/// The strips of several floors, closed by a floor number that is all ones.
pub open spec fn strips_bytes(strips: Seq<(u8, Seq<StackView>)>) -> Seq<u8>
    decreases strips.len(),
{
    if strips.len() == 0 {
        seq![0xFFu8]
    } else {
        seq![strips[0].0] + (seq![strips[0].1.len() as u8] + (stacks_bytes(strips[0].1)
            + strips_bytes(strips.drop_first())))
    }
}

pub open spec fn strip_sendable(strip: (u8, Seq<StackView>)) -> bool {
    strip.0 != 0xFF && strip.1.len() <= u8::MAX && stacks_sendable(strip.1)
}

pub open spec fn strips_sendable(strips: Seq<(u8, Seq<StackView>)>) -> bool {
    forall|i: int| 0 <= i < strips.len() ==> strip_sendable(#[trigger] strips[i])
}

pub proof fn lemma_strips(strips: Seq<(u8, Seq<StackView>)>, t: Seq<u8>)
    requires
        strips_sendable(strips),
    ensures
        take_strips(strips_bytes(strips) + t) == Some((strips, t)),
    decreases strips.len(),
{
    if strips.len() == 0 {
        lemma_u8(0xFF, t);
        assert(strips =~= Seq::empty());
    } else {
        let (floor, strip) = strips[0];
        let more = strips.drop_first();
        let t2 = strips_bytes(more) + t;
        let t1 = stacks_bytes(strip) + t2;
        let t0 = seq![strip.len() as u8] + t1;
        assert(strips_bytes(strips) + t =~= seq![floor] + t0);
        assert(strip_sendable(strips[0]));
        lemma_u8(floor, t0);
        lemma_u8(strip.len() as u8, t1);
        lemma_stacks(strip, t2);
        assert forall|i: int| 0 <= i < more.len() implies strip_sendable(#[trigger] more[i]) by {
            assert(more[i] == strips[i + 1]);
        }
        lemma_strips(more, t);
        assert(seq![(floor, strip)] + more =~= strips);
    }
}

pub open spec fn channels_bytes(channels: Seq<(ChannelId, Seq<char>)>) -> Seq<u8>
    decreases channels.len(),
{
    if channels.len() == 0 {
        Seq::empty()
    } else {
        le16(channels[0].0.0) + (string_bytes(channels[0].1) + channels_bytes(channels.drop_first()))
    }
}

pub open spec fn channel_list_bytes(channels: Seq<(ChannelId, Seq<char>)>) -> Seq<u8> {
    le16(channels.len() as u16) + channels_bytes(channels)
}

pub open spec fn channels_sendable(channels: Seq<(ChannelId, Seq<char>)>) -> bool {
    &&& channels.len() <= u16::MAX
    &&& forall|i: int| 0 <= i < channels.len() ==> fits((#[trigger] channels[i]).1)
}

pub proof fn lemma_channels(channels: Seq<(ChannelId, Seq<char>)>, t: Seq<u8>)
    requires
        channels_sendable(channels),
    ensures
        take_channels(channels.len(), channels_bytes(channels) + t) == Some((channels, t)),
    decreases channels.len(),
{
    if channels.len() == 0 {
        assert(channels_bytes(channels) + t =~= t);
        assert(channels =~= Seq::empty());
    } else {
        let (id, name) = channels[0];
        let more = channels.drop_first();
        let t1 = channels_bytes(more) + t;
        assert(channels_bytes(channels) + t =~= le16(id.0) + (string_bytes(name) + t1));
        lemma_u16(id.0, string_bytes(name) + t1);
        lemma_string(name, t1);
        assert forall|i: int| 0 <= i < more.len() implies fits((#[trigger] more[i]).1) by {
            assert(more[i] == channels[i + 1]);
        }
        lemma_channels(more, t);
        assert(seq![(id, name)] + more =~= channels);
    }
}

pub proof fn lemma_channel_list(channels: Seq<(ChannelId, Seq<char>)>, t: Seq<u8>)
    requires
        channels_sendable(channels),
    ensures
        take_channel_list(channel_list_bytes(channels) + t) == Some((channels, t)),
{
    let n = channels.len() as u16;
    assert(channel_list_bytes(channels) + t =~= le16(n) + (channels_bytes(channels) + t));
    lemma_u16(n, channels_bytes(channels) + t);
    lemma_channels(channels, t);
}

pub open spec fn i8_byte(v: i8) -> u8 {
    if v >= 0 {
        v as u8
    } else {
        (v + 256) as u8
    }
}

pub open spec fn deltas_bytes(deltas: Seq<(i8, i8)>) -> Seq<u8>
    decreases deltas.len(),
{
    if deltas.len() == 0 {
        Seq::empty()
    } else {
        seq![i8_byte(deltas[0].0)] + (seq![i8_byte(deltas[0].1)] + deltas_bytes(
            deltas.drop_first(),
        ))
    }
}

pub proof fn lemma_deltas(deltas: Seq<(i8, i8)>)
    ensures
        take_deltas(deltas_bytes(deltas)) == Some((deltas, Seq::<u8>::empty())),
    decreases deltas.len(),
{
    if deltas.len() == 0 {
        assert(deltas =~= Seq::empty());
    } else {
        let (dx, dy) = deltas[0];
        let more = deltas.drop_first();
        let t1 = deltas_bytes(more);
        let t0 = seq![i8_byte(dy)] + t1;
        assert((seq![i8_byte(dx)] + t0).skip(1) =~= t0);
        assert(t0.skip(1) =~= t1);
        lemma_deltas(more);
        assert(seq![(dx, dy)] + more =~= deltas);
    }
}

pub open spec fn progress_bytes(progress: SkillProgress) -> Seq<u8> {
    le16(progress.level) + le16(progress.percent_bp)
}

pub proof fn lemma_progress(progress: SkillProgress, t: Seq<u8>)
    ensures
        take_progress(progress_bytes(progress) + t) == Some((progress, t)),
{
    assert(progress_bytes(progress) + t =~= le16(progress.level) + (le16(progress.percent_bp) + t));
    lemma_u16(progress.level, le16(progress.percent_bp) + t);
    lemma_u16(progress.percent_bp, t);
}

pub open spec fn skills_bytes(skills: Seq<(SkillType, SkillProgress)>) -> Seq<u8>
    decreases skills.len(),
{
    if skills.len() == 0 {
        Seq::empty()
    } else {
        seq![skills[0].0.id()] + (progress_bytes(skills[0].1) + skills_bytes(skills.drop_first()))
    }
}

pub open spec fn skill_list_bytes(skills: Seq<(SkillType, SkillProgress)>) -> Seq<u8> {
    seq![skills.len() as u8] + skills_bytes(skills)
}

pub proof fn lemma_skills(skills: Seq<(SkillType, SkillProgress)>, t: Seq<u8>)
    ensures
        take_skills(skills.len(), skills_bytes(skills) + t) == Some((skills, t)),
    decreases skills.len(),
{
    if skills.len() == 0 {
        assert(skills_bytes(skills) + t =~= t);
        assert(skills =~= Seq::empty());
    } else {
        let (skill, progress) = skills[0];
        let more = skills.drop_first();
        let t1 = skills_bytes(more) + t;
        assert(skills_bytes(skills) + t =~= seq![skill.id()] + (progress_bytes(progress) + t1));
        lemma_u8(skill.id(), progress_bytes(progress) + t1);
        lemma_progress(progress, t1);
        lemma_skills(more, t);
        assert(seq![(skill, progress)] + more =~= skills);
    }
}

pub proof fn lemma_skill_list(skills: Seq<(SkillType, SkillProgress)>, t: Seq<u8>)
    requires
        skills.len() <= u8::MAX,
    ensures
        take_skill_list(skill_list_bytes(skills) + t) == Some((skills, t)),
{
    let n = skills.len() as u8;
    assert(skill_list_bytes(skills) + t =~= seq![n] + (skills_bytes(skills) + t));
    lemma_u8(n, skills_bytes(skills) + t);
    lemma_skills(skills, t);
}

/// One for `true`.
pub open spec fn flag_code(flag: bool) -> u8 {
    if flag {
        1
    } else {
        0
    }
}

pub open spec fn spell_entry_bytes(e: SpellListEntryView) -> Seq<u8> {
    le16(e.id.0) + (string_bytes(e.name) + (string_bytes(e.words) + (le16(e.level) + (le16(e.icon)
        + (seq![flag_code(e.aimable)] + seq![spell_group_code(e.group)])))))
}

pub open spec fn spell_sendable(e: SpellListEntryView) -> bool {
    fits(e.name) && fits(e.words)
}

pub proof fn lemma_spell_entry(e: SpellListEntryView, t: Seq<u8>)
    requires
        spell_sendable(e),
    ensures
        take_spell_entry(spell_entry_bytes(e) + t) == Some((e, t)),
{
    reveal(take_spell_entry);
    let t5 = seq![spell_group_code(e.group)] + t;
    let t4 = seq![flag_code(e.aimable)] + t5;
    let t3 = le16(e.icon) + t4;
    let t2 = le16(e.level) + t3;
    let t1 = string_bytes(e.words) + t2;
    let t0 = string_bytes(e.name) + t1;
    assert(spell_entry_bytes(e) + t =~= le16(e.id.0) + t0);
    lemma_u16(e.id.0, t0);
    lemma_string(e.name, t1);
    lemma_string(e.words, t2);
    lemma_u16(e.level, t3);
    lemma_u16(e.icon, t4);
    lemma_u8(flag_code(e.aimable), t5);
    lemma_u8(spell_group_code(e.group), t);
}

pub open spec fn spells_bytes(spells: Seq<SpellListEntryView>) -> Seq<u8>
    decreases spells.len(),
{
    if spells.len() == 0 {
        Seq::empty()
    } else {
        spell_entry_bytes(spells[0]) + spells_bytes(spells.drop_first())
    }
}

pub open spec fn spell_list_bytes(spells: Seq<SpellListEntryView>) -> Seq<u8> {
    le16(spells.len() as u16) + spells_bytes(spells)
}

pub open spec fn spells_sendable(spells: Seq<SpellListEntryView>) -> bool {
    &&& spells.len() <= u16::MAX
    &&& forall|i: int| 0 <= i < spells.len() ==> spell_sendable(#[trigger] spells[i])
}

pub proof fn lemma_spells(spells: Seq<SpellListEntryView>, t: Seq<u8>)
    requires
        spells_sendable(spells),
    ensures
        take_spells(spells.len(), spells_bytes(spells) + t) == Some((spells, t)),
    decreases spells.len(),
{
    if spells.len() == 0 {
        assert(spells_bytes(spells) + t =~= t);
        assert(spells =~= Seq::empty());
    } else {
        let more = spells.drop_first();
        let t1 = spells_bytes(more) + t;
        assert(spells_bytes(spells) + t =~= spell_entry_bytes(spells[0]) + t1);
        lemma_spell_entry(spells[0], t1);
        assert forall|i: int| 0 <= i < more.len() implies spell_sendable(#[trigger] more[i]) by {
            assert(more[i] == spells[i + 1]);
        }
        lemma_spells(more, t);
        assert(seq![spells[0]] + more =~= spells);
    }
}

pub proof fn lemma_spell_list(spells: Seq<SpellListEntryView>, t: Seq<u8>)
    requires
        spells_sendable(spells),
    ensures
        take_spell_list(spell_list_bytes(spells) + t) == Some((spells, t)),
{
    let n = spells.len() as u16;
    assert(spell_list_bytes(spells) + t =~= le16(n) + (spells_bytes(spells) + t));
    lemma_u16(n, spells_bytes(spells) + t);
    lemma_spells(spells, t);
}

pub open spec fn optional_position_bytes(position: Option<Position>) -> Seq<u8> {
    match position {
        Some(p) => seq![1u8] + position_bytes(p),
        None => seq![0u8],
    }
}

pub proof fn lemma_optional_position(position: Option<Position>, t: Seq<u8>)
    ensures
        take_optional_position(optional_position_bytes(position) + t) == Some((position, t)),
{
    match position {
        Some(p) => {
            assert(optional_position_bytes(position) + t =~= seq![1u8] + (position_bytes(p) + t));
            lemma_u8(1, position_bytes(p) + t);
            lemma_position(p, t);
        },
        None => lemma_u8(0, t),
    }
}

pub open spec fn optional_color_bytes(color: Option<Color>) -> Seq<u8> {
    match color {
        Some(c) => seq![1u8, c.0, c.1, c.2],
        None => seq![0u8],
    }
}

pub proof fn lemma_optional_color(color: Option<Color>, t: Seq<u8>)
    ensures
        take_optional_color(optional_color_bytes(color) + t) == Some((color, t)),
{
    match color {
        Some(c) => {
            let t2 = seq![c.2] + t;
            let t1 = seq![c.1] + t2;
            let t0 = seq![c.0] + t1;
            assert(optional_color_bytes(color) + t =~= seq![1u8] + t0);
            lemma_u8(1, t0);
            lemma_u8(c.0, t1);
            lemma_u8(c.1, t2);
            lemma_u8(c.2, t);
        },
        None => lemma_u8(0, t),
    }
}

proof fn lemma_regroup(a: Seq<u8>, b: Seq<u8>, c: Seq<u8>)
    ensures
        a + b + c == a + (b + c),
{
    assert(a + b + c =~= a + (b + c));
}

pub open spec fn equipped_bytes(e: Equipped) -> Seq<u8> {
    optional_item_bytes(e.head) + (
    optional_item_bytes(e.amulet) + (
    optional_item_bytes(e.backpack) + (
    optional_item_bytes(e.chest) + (
    optional_item_bytes(e.right_hand) + (
    optional_item_bytes(e.left_hand) + (
    optional_item_bytes(e.legs) + (
    optional_item_bytes(e.feet) + (
    optional_item_bytes(e.ring) + optional_item_bytes(e.trinket)))))))))
}

pub open spec fn equipped_sendable(e: Equipped) -> bool {
    &&& named(e.head)
    &&& named(e.amulet)
    &&& named(e.backpack)
    &&& named(e.chest)
    &&& named(e.right_hand)
    &&& named(e.left_hand)
    &&& named(e.legs)
    &&& named(e.feet)
    &&& named(e.ring)
    &&& named(e.trinket)
}

pub proof fn lemma_equipped(e: Equipped, t: Seq<u8>)
    requires
        equipped_sendable(e),
    ensures
        take_equipped(equipped_bytes(e) + t) == Some((e, t)),
{
    reveal(take_equipped);
    let b9 = optional_item_bytes(e.trinket);
    let b8 = optional_item_bytes(e.ring) + b9;
    let b7 = optional_item_bytes(e.feet) + b8;
    let b6 = optional_item_bytes(e.legs) + b7;
    let b5 = optional_item_bytes(e.left_hand) + b6;
    let b4 = optional_item_bytes(e.right_hand) + b5;
    let b3 = optional_item_bytes(e.chest) + b4;
    let b2 = optional_item_bytes(e.backpack) + b3;
    let b1 = optional_item_bytes(e.amulet) + b2;
    assert(equipped_bytes(e) == optional_item_bytes(e.head) + b1);
    lemma_regroup(optional_item_bytes(e.head), b1, t);
    lemma_regroup(optional_item_bytes(e.amulet), b2, t);
    lemma_regroup(optional_item_bytes(e.backpack), b3, t);
    lemma_regroup(optional_item_bytes(e.chest), b4, t);
    lemma_regroup(optional_item_bytes(e.right_hand), b5, t);
    lemma_regroup(optional_item_bytes(e.left_hand), b6, t);
    lemma_regroup(optional_item_bytes(e.legs), b7, t);
    lemma_regroup(optional_item_bytes(e.feet), b8, t);
    lemma_regroup(optional_item_bytes(e.ring), b9, t);
    lemma_optional_item(e.head, b1 + t);
    lemma_optional_item(e.amulet, b2 + t);
    lemma_optional_item(e.backpack, b3 + t);
    lemma_optional_item(e.chest, b4 + t);
    lemma_optional_item(e.right_hand, b5 + t);
    lemma_optional_item(e.left_hand, b6 + t);
    lemma_optional_item(e.legs, b7 + t);
    lemma_optional_item(e.feet, b8 + t);
    lemma_optional_item(e.ring, b9 + t);
    lemma_optional_item(e.trinket, t);
}

/// The opcode of what the server tells.
pub open spec fn server_opcode(message: ServerMessageView) -> u8 {
    match message {
        ServerMessageView::Pong => SRV_PONG,
        ServerMessageView::LoginError => SRV_LOGIN_ERROR,
        ServerMessageView::DescribeMap { .. } => SRV_DESCRIBE_MAP,
        ServerMessageView::TileUpdated { .. } => SRV_TILE_UPDATED,
        ServerMessageView::PlayerWalkAck { .. } => SRV_PLAYER_WALK_ACK,
        ServerMessageView::PlayerPosition { .. } => SRV_PLAYER_POS,
        ServerMessageView::DescribePlayer { .. } => SRV_DESCRIBE_PLAYER,
        ServerMessageView::TextMessage { .. } => SRV_TEXT_MESSAGE,
        ServerMessageView::OpenContainer { .. } => SRV_OPEN_CONTAINER,
        ServerMessageView::UpdateContainer { .. } => SRV_UPDATE_CONTAINER,
        ServerMessageView::ContainerClosed { .. } => SRV_CONTAINER_CLOSED,
        ServerMessageView::PlayerWalkDenied => SRV_PLAYER_WALK_DENIED,
        ServerMessageView::IventorySlotUpdated { .. } => SRV_INVENTORY_SLOT_UPDATED,
        ServerMessageView::PlayerCapacityUpdated { .. } => SRV_PLAYER_CAPACITY_UPDATED,
        ServerMessageView::AgentChangedDirection { .. } => SRV_AGENT_DIRECTION_CHANGED,
        ServerMessageView::RemoveAgent { .. } => SRV_REMOVE_AGENT,
        ServerMessageView::MoveAgent { .. } => SRV_MOVE_AGENT,
        ServerMessageView::SpawnAgent { .. } => SRV_SPAWN_AGENT,
        ServerMessageView::TeleportAgent { .. } => SRV_TELEPORT_AGENT,
        ServerMessageView::ChatMessage { .. } => SRV_CHAT_MESSAGE,
        ServerMessageView::ChannelList { .. } => SRV_CHANNEL_LIST,
        ServerMessageView::PrivateChatOpened { .. } => SRV_PRIVATE_CHAT_OPENED,
        ServerMessageView::FloatingText { .. } => SRV_FLOATING_TEXT,
        ServerMessageView::TargetLost { .. } => SRV_TARGET_LOST,
        ServerMessageView::AgentLifeChanged { .. } => SRV_AGENT_LIFE_UPDATED,
        ServerMessageView::ShowEffect { .. } => SRV_SHOW_EFFECT,
        ServerMessageView::LaunchMissile { .. } => SRV_LAUNCH_MISSILE,
        ServerMessageView::AgentManaUpdated { .. } => SRV_AGENT_MANA_UPDATED,
        ServerMessageView::PlayerSkills { .. } => SRV_PLAYER_SKILLS,
        ServerMessageView::SkillUpdated { .. } => SRV_SKILL_UPDATED,
        ServerMessageView::ExperienceUpdated { .. } => SRV_EXPERIENCE_UPDATED,
        ServerMessageView::SpellCast { .. } => SRV_SPELL_CAST,
        ServerMessageView::SpellList { .. } => SRV_SPELL_LIST,
        ServerMessageView::AgentSpeedUpdated { .. } => SRV_AGENT_SPEED_UPDATED,
        ServerMessageView::PlayerStatus { .. } => SRV_PLAYER_STATUS,
        ServerMessageView::DamagedBy { .. } => SRV_DAMAGED_BY,
    }
}

/// What follows the opcode in what the server tells.
pub open spec fn server_body(message: ServerMessageView) -> Seq<u8> {
    match message {
        ServerMessageView::DescribeMap { center, floor, tiles } => position_bytes(center) + (seq![floor] + stacks_bytes(tiles)),
        ServerMessageView::TileUpdated { position, items } => position_bytes(position) + stack_bytes(items),
        ServerMessageView::PlayerWalkAck { position, tiles } => position_bytes(position) + strips_bytes(tiles),
        ServerMessageView::PlayerPosition { position } => position_bytes(position),
        ServerMessageView::DescribePlayer { agent_id, position, facing, name, level, life, mana, outfit, speed, capacity, equipped } => le16(agent_id.0) + (position_bytes(position) + (seq![facing_code(facing)] + (string_bytes(name) + (le16(level) + (pool_bytes(life) + (pool_bytes(mana) + (outfit_bytes(outfit) + (le16(speed) + (le32(capacity) + equipped_bytes(equipped)))))))))),
        ServerMessageView::TextMessage { text, message_type } => string_bytes(text) + seq![text_message_type_code(message_type)],
        ServerMessageView::OpenContainer { container_id, capacity, has_parent, title, items } => le16(container_id.0) + (seq![capacity] + (seq![flag_code(has_parent)] + (short_string_bytes(title) + container_items_bytes(items)))),
        ServerMessageView::UpdateContainer { container_id, items } => le16(container_id.0) + container_items_bytes(items),
        ServerMessageView::ContainerClosed { container_id } => le16(container_id.0),
        ServerMessageView::IventorySlotUpdated { slot, item_id } => seq![slot.id()] + optional_item_bytes(item_id),
        ServerMessageView::PlayerCapacityUpdated { cap } => le32(cap),
        ServerMessageView::AgentChangedDirection { agent_id, facing } => le16(agent_id.0) + seq![facing_code(facing)],
        ServerMessageView::RemoveAgent { agent_id } => le16(agent_id.0),
        ServerMessageView::MoveAgent { agent_id, direction, from } => le16(agent_id.0) + (seq![direction_code(direction)] + position_bytes(from)),
        ServerMessageView::SpawnAgent { agent_id, position, facing, name, life, outfit, speed } => le16(agent_id.0) + (position_bytes(position) + (seq![facing_code(facing)] + (string_bytes(name) + (le32(life) + (outfit_bytes(outfit) + le16(speed)))))),
        ServerMessageView::TeleportAgent { agent_id, position } => le16(agent_id.0) + position_bytes(position),
        ServerMessageView::ChatMessage { author, message_type, channel, position, message } => string_bytes(author) + (seq![chat_message_type_code(message_type)] + (le16(channel.0) + (optional_position_bytes(position) + string_bytes(message)))),
        ServerMessageView::ChannelList { channels } => channel_list_bytes(channels),
        ServerMessageView::PrivateChatOpened { name } => string_bytes(name),
        ServerMessageView::FloatingText { text, position, text_type, color } => string_bytes(text) + (position_bytes(position) + (seq![floating_text_type_code(text_type)] + optional_color_bytes(color))),
        ServerMessageView::TargetLost { seq } => le32(seq),
        ServerMessageView::AgentLifeChanged { agent_id, current, max } => le16(agent_id.0) + (le32(current) + le32(max)),
        ServerMessageView::ShowEffect { effect_id, position, delta } => le16(effect_id.0) + (position_bytes(position) + deltas_bytes(delta)),
        ServerMessageView::LaunchMissile { from, to, missile_id } => position_bytes(from) + (position_bytes(to) + le16(missile_id.0)),
        ServerMessageView::AgentManaUpdated { agent_id, current, max } => le16(agent_id.0) + (le32(current) + le32(max)),
        ServerMessageView::PlayerSkills { experience, skills } => le64(experience) + skill_list_bytes(skills),
        ServerMessageView::SkillUpdated { skill, progress } => seq![skill.id()] + progress_bytes(progress),
        ServerMessageView::ExperienceUpdated { experience } => le64(experience),
        ServerMessageView::SpellCast { spell, spell_cooldown_ms, group_cooldown_ms } => le16(spell.0) + (le32(spell_cooldown_ms) + le32(group_cooldown_ms)),
        ServerMessageView::SpellList { spells } => spell_list_bytes(spells),
        ServerMessageView::AgentSpeedUpdated { agent_id, speed } => le16(agent_id.0) + le16(speed),
        ServerMessageView::PlayerStatus { status } => le32(status),
        ServerMessageView::DamagedBy { agent_id } => le16(agent_id.0),
        _ => Seq::empty(),
    }
}

/// A message that the layout can hold: no text or list is too long for the length before it, and
/// no number in it means that there is none.
pub open spec fn sendable(message: ServerMessageView) -> bool {
    match message {
        ServerMessageView::DescribeMap { tiles, .. } => tiles.len() == VIEWPORT_SIZE && stacks_sendable(tiles),
        ServerMessageView::TileUpdated { items, .. } => is_padded(items),
        ServerMessageView::PlayerWalkAck { tiles, .. } => strips_sendable(tiles),
        ServerMessageView::DescribePlayer { name, equipped, .. } => fits(name) && equipped_sendable(equipped),
        ServerMessageView::TextMessage { text, .. } => fits(text),
        ServerMessageView::OpenContainer { title, items, .. } => fits_short(title) && is_filled(items),
        ServerMessageView::UpdateContainer { items, .. } => is_filled(items),
        ServerMessageView::IventorySlotUpdated { item_id, .. } => named(item_id),
        ServerMessageView::SpawnAgent { name, .. } => fits(name),
        ServerMessageView::ChatMessage { author, message, .. } => fits(author) && fits(message),
        ServerMessageView::ChannelList { channels, .. } => channels_sendable(channels),
        ServerMessageView::PrivateChatOpened { name, .. } => fits(name),
        ServerMessageView::FloatingText { text, .. } => fits(text),
        ServerMessageView::PlayerSkills { skills, .. } => skills.len() <= u8::MAX,
        ServerMessageView::SpellList { spells, .. } => spells_sendable(spells),
        _ => true,
    }
}

proof fn lemma_read_describe_map(told: ServerMessageView)
    requires
        told is DescribeMap,
        sendable(told),
    ensures
        take_describe_map(server_body(told)) == Some((told, Seq::<u8>::empty())),
{
    if let ServerMessageView::DescribeMap { center, floor, tiles } = told {
        let end = Seq::<u8>::empty();
        let t1 = stacks_bytes(tiles) + end;
        assert(t1 =~= stacks_bytes(tiles));
        let t0 = seq![floor] + t1;
        assert(server_body(told) == position_bytes(center) + t0);
        lemma_position(center, t0);
        lemma_u8(floor, t1);
        lemma_stacks(tiles, end);
    }
}

proof fn lemma_read_tile_updated(told: ServerMessageView)
    requires
        told is TileUpdated,
        sendable(told),
    ensures
        take_tile_updated(server_body(told)) == Some((told, Seq::<u8>::empty())),
{
    if let ServerMessageView::TileUpdated { position, items } = told {
        let end = Seq::<u8>::empty();
        let t0 = stack_bytes(items) + end;
        assert(t0 =~= stack_bytes(items));
        assert(server_body(told) == position_bytes(position) + t0);
        lemma_position(position, t0);
        lemma_stack(items, end);
    }
}

proof fn lemma_read_player_walk_ack(told: ServerMessageView)
    requires
        told is PlayerWalkAck,
        sendable(told),
    ensures
        take_player_walk_ack(server_body(told)) == Some((told, Seq::<u8>::empty())),
{
    if let ServerMessageView::PlayerWalkAck { position, tiles } = told {
        let end = Seq::<u8>::empty();
        let t0 = strips_bytes(tiles) + end;
        assert(t0 =~= strips_bytes(tiles));
        assert(server_body(told) == position_bytes(position) + t0);
        lemma_position(position, t0);
        lemma_strips(tiles, end);
    }
}

#[verifier::rlimit(80)]
proof fn lemma_read_describe_player(told: ServerMessageView)
    requires
        told is DescribePlayer,
        sendable(told),
    ensures
        take_describe_player(server_body(told)) == Some((told, Seq::<u8>::empty())),
{
    if let ServerMessageView::DescribePlayer { agent_id, position, facing, name, level, life, mana, outfit, speed, capacity, equipped } = told {
        let end = Seq::<u8>::empty();
        let t9 = equipped_bytes(equipped) + end;
        assert(t9 =~= equipped_bytes(equipped));
        let t8 = le32(capacity) + t9;
        let t7 = le16(speed) + t8;
        let t6 = outfit_bytes(outfit) + t7;
        let t5 = pool_bytes(mana) + t6;
        let t4 = pool_bytes(life) + t5;
        let t3 = le16(level) + t4;
        let t2 = string_bytes(name) + t3;
        let t1 = seq![facing_code(facing)] + t2;
        let t0 = position_bytes(position) + t1;
        assert(server_body(told) == le16(agent_id.0) + t0);
        lemma_u16(agent_id.0, t0);
        lemma_position(position, t1);
        lemma_u8(facing_code(facing), t2);
        lemma_string(name, t3);
        lemma_u16(level, t4);
        lemma_pool(life, t5);
        lemma_pool(mana, t6);
        lemma_outfit(outfit, t7);
        lemma_u16(speed, t8);
        lemma_u32(capacity, t9);
        lemma_equipped(equipped, end);
    }
}

proof fn lemma_read_text_message(told: ServerMessageView)
    requires
        told is TextMessage,
        sendable(told),
    ensures
        take_text_message(server_body(told)) == Some((told, Seq::<u8>::empty())),
{
    if let ServerMessageView::TextMessage { text, message_type } = told {
        let end = Seq::<u8>::empty();
        let t0 = seq![text_message_type_code(message_type)] + end;
        assert(t0 =~= seq![text_message_type_code(message_type)]);
        assert(server_body(told) == string_bytes(text) + t0);
        lemma_string(text, t0);
        lemma_u8(text_message_type_code(message_type), end);
    }
}

proof fn lemma_read_open_container(told: ServerMessageView)
    requires
        told is OpenContainer,
        sendable(told),
    ensures
        take_open_container(server_body(told)) == Some((told, Seq::<u8>::empty())),
{
    if let ServerMessageView::OpenContainer { container_id, capacity, has_parent, title, items } = told {
        let end = Seq::<u8>::empty();
        let t3 = container_items_bytes(items) + end;
        assert(t3 =~= container_items_bytes(items));
        let t2 = short_string_bytes(title) + t3;
        let t1 = seq![flag_code(has_parent)] + t2;
        let t0 = seq![capacity] + t1;
        assert(server_body(told) == le16(container_id.0) + t0);
        lemma_u16(container_id.0, t0);
        lemma_u8(capacity, t1);
        lemma_u8(flag_code(has_parent), t2);
        lemma_short_string(title, t3);
        lemma_container_items(items, end);
    }
}

proof fn lemma_read_update_container(told: ServerMessageView)
    requires
        told is UpdateContainer,
        sendable(told),
    ensures
        take_update_container(server_body(told)) == Some((told, Seq::<u8>::empty())),
{
    if let ServerMessageView::UpdateContainer { container_id, items } = told {
        let end = Seq::<u8>::empty();
        let t0 = container_items_bytes(items) + end;
        assert(t0 =~= container_items_bytes(items));
        assert(server_body(told) == le16(container_id.0) + t0);
        lemma_u16(container_id.0, t0);
        lemma_container_items(items, end);
    }
}

proof fn lemma_read_iventory_slot_updated(told: ServerMessageView)
    requires
        told is IventorySlotUpdated,
        sendable(told),
    ensures
        take_iventory_slot_updated(server_body(told)) == Some((told, Seq::<u8>::empty())),
{
    if let ServerMessageView::IventorySlotUpdated { slot, item_id } = told {
        let end = Seq::<u8>::empty();
        let t0 = optional_item_bytes(item_id) + end;
        assert(t0 =~= optional_item_bytes(item_id));
        assert(server_body(told) == seq![slot.id()] + t0);
        lemma_u8(slot.id(), t0);
        lemma_optional_item(item_id, end);
    }
}

proof fn lemma_read_agent_changed_direction(told: ServerMessageView)
    requires
        told is AgentChangedDirection,
        sendable(told),
    ensures
        take_agent_changed_direction(server_body(told)) == Some((told, Seq::<u8>::empty())),
{
    if let ServerMessageView::AgentChangedDirection { agent_id, facing } = told {
        let end = Seq::<u8>::empty();
        let t0 = seq![facing_code(facing)] + end;
        assert(t0 =~= seq![facing_code(facing)]);
        assert(server_body(told) == le16(agent_id.0) + t0);
        lemma_u16(agent_id.0, t0);
        lemma_u8(facing_code(facing), end);
    }
}

proof fn lemma_read_move_agent(told: ServerMessageView)
    requires
        told is MoveAgent,
        sendable(told),
    ensures
        take_move_agent(server_body(told)) == Some((told, Seq::<u8>::empty())),
{
    if let ServerMessageView::MoveAgent { agent_id, direction, from } = told {
        let end = Seq::<u8>::empty();
        let t1 = position_bytes(from) + end;
        assert(t1 =~= position_bytes(from));
        let t0 = seq![direction_code(direction)] + t1;
        assert(server_body(told) == le16(agent_id.0) + t0);
        lemma_u16(agent_id.0, t0);
        lemma_u8(direction_code(direction), t1);
        lemma_position(from, end);
    }
}

proof fn lemma_read_spawn_agent(told: ServerMessageView)
    requires
        told is SpawnAgent,
        sendable(told),
    ensures
        take_spawn_agent(server_body(told)) == Some((told, Seq::<u8>::empty())),
{
    if let ServerMessageView::SpawnAgent { agent_id, position, facing, name, life, outfit, speed } = told {
        let end = Seq::<u8>::empty();
        let t5 = le16(speed) + end;
        assert(t5 =~= le16(speed));
        let t4 = outfit_bytes(outfit) + t5;
        let t3 = le32(life) + t4;
        let t2 = string_bytes(name) + t3;
        let t1 = seq![facing_code(facing)] + t2;
        let t0 = position_bytes(position) + t1;
        assert(server_body(told) == le16(agent_id.0) + t0);
        lemma_u16(agent_id.0, t0);
        lemma_position(position, t1);
        lemma_u8(facing_code(facing), t2);
        lemma_string(name, t3);
        lemma_u32(life, t4);
        lemma_outfit(outfit, t5);
        lemma_u16(speed, end);
    }
}

proof fn lemma_read_teleport_agent(told: ServerMessageView)
    requires
        told is TeleportAgent,
        sendable(told),
    ensures
        take_teleport_agent(server_body(told)) == Some((told, Seq::<u8>::empty())),
{
    if let ServerMessageView::TeleportAgent { agent_id, position } = told {
        let end = Seq::<u8>::empty();
        let t0 = position_bytes(position) + end;
        assert(t0 =~= position_bytes(position));
        assert(server_body(told) == le16(agent_id.0) + t0);
        lemma_u16(agent_id.0, t0);
        lemma_position(position, end);
    }
}

proof fn lemma_read_chat_message(told: ServerMessageView)
    requires
        told is ChatMessage,
        sendable(told),
    ensures
        take_chat_message(server_body(told)) == Some((told, Seq::<u8>::empty())),
{
    if let ServerMessageView::ChatMessage { author, message_type, channel, position, message } = told {
        let end = Seq::<u8>::empty();
        let t3 = string_bytes(message) + end;
        assert(t3 =~= string_bytes(message));
        let t2 = optional_position_bytes(position) + t3;
        let t1 = le16(channel.0) + t2;
        let t0 = seq![chat_message_type_code(message_type)] + t1;
        assert(server_body(told) == string_bytes(author) + t0);
        lemma_string(author, t0);
        lemma_u8(chat_message_type_code(message_type), t1);
        lemma_u16(channel.0, t2);
        lemma_optional_position(position, t3);
        lemma_string(message, end);
    }
}

proof fn lemma_read_floating_text(told: ServerMessageView)
    requires
        told is FloatingText,
        sendable(told),
    ensures
        take_floating_text(server_body(told)) == Some((told, Seq::<u8>::empty())),
{
    if let ServerMessageView::FloatingText { text, position, text_type, color } = told {
        let end = Seq::<u8>::empty();
        let t2 = optional_color_bytes(color) + end;
        assert(t2 =~= optional_color_bytes(color));
        let t1 = seq![floating_text_type_code(text_type)] + t2;
        let t0 = position_bytes(position) + t1;
        assert(server_body(told) == string_bytes(text) + t0);
        lemma_string(text, t0);
        lemma_position(position, t1);
        lemma_u8(floating_text_type_code(text_type), t2);
        lemma_optional_color(color, end);
    }
}

proof fn lemma_read_agent_life_changed(told: ServerMessageView)
    requires
        told is AgentLifeChanged,
        sendable(told),
    ensures
        take_agent_life_changed(server_body(told)) == Some((told, Seq::<u8>::empty())),
{
    if let ServerMessageView::AgentLifeChanged { agent_id, current, max } = told {
        let end = Seq::<u8>::empty();
        let t1 = le32(max) + end;
        assert(t1 =~= le32(max));
        let t0 = le32(current) + t1;
        assert(server_body(told) == le16(agent_id.0) + t0);
        lemma_u16(agent_id.0, t0);
        lemma_u32(current, t1);
        lemma_u32(max, end);
    }
}

proof fn lemma_read_show_effect(told: ServerMessageView)
    requires
        told is ShowEffect,
        sendable(told),
    ensures
        take_show_effect(server_body(told)) == Some((told, Seq::<u8>::empty())),
{
    if let ServerMessageView::ShowEffect { effect_id, position, delta } = told {
        let end = Seq::<u8>::empty();
        let t1 = deltas_bytes(delta);
        let t0 = position_bytes(position) + t1;
        assert(server_body(told) == le16(effect_id.0) + t0);
        lemma_u16(effect_id.0, t0);
        lemma_position(position, t1);
        lemma_deltas(delta);
    }
}

proof fn lemma_read_launch_missile(told: ServerMessageView)
    requires
        told is LaunchMissile,
        sendable(told),
    ensures
        take_launch_missile(server_body(told)) == Some((told, Seq::<u8>::empty())),
{
    if let ServerMessageView::LaunchMissile { from, to, missile_id } = told {
        let end = Seq::<u8>::empty();
        let t1 = le16(missile_id.0) + end;
        assert(t1 =~= le16(missile_id.0));
        let t0 = position_bytes(to) + t1;
        assert(server_body(told) == position_bytes(from) + t0);
        lemma_position(from, t0);
        lemma_position(to, t1);
        lemma_u16(missile_id.0, end);
    }
}

proof fn lemma_read_agent_mana_updated(told: ServerMessageView)
    requires
        told is AgentManaUpdated,
        sendable(told),
    ensures
        take_agent_mana_updated(server_body(told)) == Some((told, Seq::<u8>::empty())),
{
    if let ServerMessageView::AgentManaUpdated { agent_id, current, max } = told {
        let end = Seq::<u8>::empty();
        let t1 = le32(max) + end;
        assert(t1 =~= le32(max));
        let t0 = le32(current) + t1;
        assert(server_body(told) == le16(agent_id.0) + t0);
        lemma_u16(agent_id.0, t0);
        lemma_u32(current, t1);
        lemma_u32(max, end);
    }
}

proof fn lemma_read_player_skills(told: ServerMessageView)
    requires
        told is PlayerSkills,
        sendable(told),
    ensures
        take_player_skills(server_body(told)) == Some((told, Seq::<u8>::empty())),
{
    if let ServerMessageView::PlayerSkills { experience, skills } = told {
        let end = Seq::<u8>::empty();
        let t0 = skill_list_bytes(skills) + end;
        assert(t0 =~= skill_list_bytes(skills));
        assert(server_body(told) == le64(experience) + t0);
        lemma_u64(experience, t0);
        lemma_skill_list(skills, end);
    }
}

proof fn lemma_read_skill_updated(told: ServerMessageView)
    requires
        told is SkillUpdated,
        sendable(told),
    ensures
        take_skill_updated(server_body(told)) == Some((told, Seq::<u8>::empty())),
{
    if let ServerMessageView::SkillUpdated { skill, progress } = told {
        let end = Seq::<u8>::empty();
        let t0 = progress_bytes(progress) + end;
        assert(t0 =~= progress_bytes(progress));
        assert(server_body(told) == seq![skill.id()] + t0);
        lemma_u8(skill.id(), t0);
        lemma_progress(progress, end);
    }
}

proof fn lemma_read_spell_cast(told: ServerMessageView)
    requires
        told is SpellCast,
        sendable(told),
    ensures
        take_spell_cast(server_body(told)) == Some((told, Seq::<u8>::empty())),
{
    if let ServerMessageView::SpellCast { spell, spell_cooldown_ms, group_cooldown_ms } = told {
        let end = Seq::<u8>::empty();
        let t1 = le32(group_cooldown_ms) + end;
        assert(t1 =~= le32(group_cooldown_ms));
        let t0 = le32(spell_cooldown_ms) + t1;
        assert(server_body(told) == le16(spell.0) + t0);
        lemma_u16(spell.0, t0);
        lemma_u32(spell_cooldown_ms, t1);
        lemma_u32(group_cooldown_ms, end);
    }
}

proof fn lemma_read_agent_speed_updated(told: ServerMessageView)
    requires
        told is AgentSpeedUpdated,
        sendable(told),
    ensures
        take_agent_speed_updated(server_body(told)) == Some((told, Seq::<u8>::empty())),
{
    if let ServerMessageView::AgentSpeedUpdated { agent_id, speed } = told {
        let end = Seq::<u8>::empty();
        let t0 = le16(speed) + end;
        assert(t0 =~= le16(speed));
        assert(server_body(told) == le16(agent_id.0) + t0);
        lemma_u16(agent_id.0, t0);
        lemma_u16(speed, end);
    }
}

/// Whatever the server tells, in the layout that both ends keep, is read back as it was told, and
/// nothing of it is left over.
pub proof fn law_server_messages_are_read_back(message: ServerMessageView)
    requires
        sendable(message),
    ensures
        take_body(server_opcode(message), server_body(message)) == Some(
            (message, Seq::<u8>::empty()),
        ),
{
    let end = Seq::<u8>::empty();
    match message {
        ServerMessageView::DescribeMap { .. } => lemma_read_describe_map(message),
        ServerMessageView::TileUpdated { .. } => lemma_read_tile_updated(message),
        ServerMessageView::PlayerWalkAck { .. } => lemma_read_player_walk_ack(message),
        ServerMessageView::PlayerPosition { position } => {
            assert(server_body(message) =~= position_bytes(position) + end);
            lemma_position(position, end);
        },
        ServerMessageView::DescribePlayer { .. } => lemma_read_describe_player(message),
        ServerMessageView::TextMessage { .. } => lemma_read_text_message(message),
        ServerMessageView::OpenContainer { .. } => lemma_read_open_container(message),
        ServerMessageView::UpdateContainer { .. } => lemma_read_update_container(message),
        ServerMessageView::ContainerClosed { container_id } => {
            assert(server_body(message) =~= le16(container_id.0) + end);
            lemma_u16(container_id.0, end);
        },
        ServerMessageView::IventorySlotUpdated { .. } => lemma_read_iventory_slot_updated(message),
        ServerMessageView::PlayerCapacityUpdated { cap } => {
            assert(server_body(message) =~= le32(cap) + end);
            lemma_u32(cap, end);
        },
        ServerMessageView::AgentChangedDirection { .. } => lemma_read_agent_changed_direction(message),
        ServerMessageView::RemoveAgent { agent_id } => {
            assert(server_body(message) =~= le16(agent_id.0) + end);
            lemma_u16(agent_id.0, end);
        },
        ServerMessageView::MoveAgent { .. } => lemma_read_move_agent(message),
        ServerMessageView::SpawnAgent { .. } => lemma_read_spawn_agent(message),
        ServerMessageView::TeleportAgent { .. } => lemma_read_teleport_agent(message),
        ServerMessageView::ChatMessage { .. } => lemma_read_chat_message(message),
        ServerMessageView::ChannelList { channels } => {
            assert(server_body(message) =~= channel_list_bytes(channels) + end);
            lemma_channel_list(channels, end);
        },
        ServerMessageView::PrivateChatOpened { name } => {
            assert(server_body(message) =~= string_bytes(name) + end);
            lemma_string(name, end);
        },
        ServerMessageView::FloatingText { .. } => lemma_read_floating_text(message),
        ServerMessageView::TargetLost { seq } => {
            assert(server_body(message) =~= le32(seq) + end);
            lemma_u32(seq, end);
        },
        ServerMessageView::AgentLifeChanged { .. } => lemma_read_agent_life_changed(message),
        ServerMessageView::ShowEffect { .. } => lemma_read_show_effect(message),
        ServerMessageView::LaunchMissile { .. } => lemma_read_launch_missile(message),
        ServerMessageView::AgentManaUpdated { .. } => lemma_read_agent_mana_updated(message),
        ServerMessageView::PlayerSkills { .. } => lemma_read_player_skills(message),
        ServerMessageView::SkillUpdated { .. } => lemma_read_skill_updated(message),
        ServerMessageView::ExperienceUpdated { experience } => {
            assert(server_body(message) =~= le64(experience) + end);
            lemma_u64(experience, end);
        },
        ServerMessageView::SpellCast { .. } => lemma_read_spell_cast(message),
        ServerMessageView::SpellList { spells } => {
            assert(server_body(message) =~= spell_list_bytes(spells) + end);
            lemma_spell_list(spells, end);
        },
        ServerMessageView::AgentSpeedUpdated { .. } => lemma_read_agent_speed_updated(message),
        ServerMessageView::PlayerStatus { status } => {
            assert(server_body(message) =~= le32(status) + end);
            lemma_u32(status, end);
        },
        ServerMessageView::DamagedBy { agent_id } => {
            assert(server_body(message) =~= le16(agent_id.0) + end);
            lemma_u16(agent_id.0, end);
        },
        _ => {},
    }
}

/// Any payload of at most `u16::MAX` bytes comes out of its frame as it went in, whatever
/// follows the frame.
pub proof fn law_frames_are_delimited(payload: Seq<u8>, rest: Seq<u8>)
    requires
        payload.len() <= u16::MAX,
    ensures
        first_frame(frame(payload) + rest) == Some((payload, rest)),
{
    let bytes = frame(payload) + rest;
    assert(u16_at(bytes, 0) == payload.len());
    assert(bytes.subrange(2, 2 + payload.len() as int) =~= payload);
    assert(bytes.skip(2 + payload.len() as int) =~= rest);
}

/// A frame that has not arrived in full is not read.
pub proof fn law_a_partial_frame_waits(payload: Seq<u8>, arrived: int)
    requires
        payload.len() <= u16::MAX,
        0 <= arrived < frame(payload).len(),
    ensures
        first_frame(frame(payload).take(arrived)) is None,
{
    let bytes = frame(payload).take(arrived);
    if arrived >= 2 {
        assert(u16_at(bytes, 0) == payload.len());
    }
}

/// What the server tells, framed, is what the client reads off the front of its buffer.
pub proof fn law_server_frames_are_read_back(message: ServerMessageView, rest: Seq<u8>)
    requires
        sendable(message),
        server_body(message).len() < u16::MAX,
    ensures
        ({
            let payload = seq![server_opcode(message)] + server_body(message);
            &&& first_frame(frame(payload) + rest) == Some((payload, rest))
            &&& meaning(payload) == Ok::<ServerMessageView, WireError>(message)
        }),
{
    let payload = seq![server_opcode(message)] + server_body(message);
    law_frames_are_delimited(payload, rest);
    assert(payload.skip(1) =~= server_body(message));
    law_server_messages_are_read_back(message);
}

/// A payload that goes on after what its opcode calls for is refused.
pub proof fn law_trailing_bytes_are_refused(payload: Seq<u8>)
    requires
        payload.len() > 0,
        take_body(payload[0], payload.skip(1)) matches Some((_, rest)) && rest.len() > 0,
        payload[0] <= SRV_DAMAGED_BY,
    ensures
        meaning(payload) == Err::<ServerMessageView, WireError>(
            WireError::Malformed { opcode: payload[0] },
        ),
{
}

pub open spec fn take_item_ref(s: Seq<u8>) -> Taken<ClientItemRef> {
    bind(take_position(s), |position: Position, s: Seq<u8>|
    bind(take_u16(s), |id: u16, s: Seq<u8>|
    bind(take_u8(s), |stack_index: u8, s: Seq<u8>|
        Some((ClientItemRef { position, item_id: ItemId(id), stack_index }, s)))))
}

pub open spec fn take_optional_agent(s: Seq<u8>) -> Taken<Option<AgentId>> {
    bind(take_u16(s), |raw: u16, s: Seq<u8>|
        Some((if raw == 0xFFFF { None } else { Some(AgentId(raw)) }, s)))
}

/// All that is left, as text.
pub open spec fn take_tail(s: Seq<u8>) -> Taken<Seq<char>> {
    take_text(s.len() as int, s)
}

pub open spec fn take_say_target(s: Seq<u8>) -> Taken<SayTargetView> {
    bind(take_u8(s), |tag: u8, s: Seq<u8>|
        if tag == 1 {
            Some((SayTargetView::Local, s))
        } else if tag == 2 {
            bind(take_string(s), |name: Seq<char>, s: Seq<u8>| Some((SayTargetView::Player(name), s)))
        } else if tag == 3 {
            bind(take_channel_id(s), |channel: ChannelId, s: Seq<u8>|
                Some((SayTargetView::Channel(channel), s)))
        } else {
            None
        })
}

pub open spec fn take_spell_target(s: Seq<u8>) -> Taken<SpellTarget> {
    bind(take_u8(s), |tag: u8, s: Seq<u8>|
        if tag == 0 {
            Some((SpellTarget::NoTarget, s))
        } else if tag == 1 {
            bind(take_agent_id(s), |id: AgentId, s: Seq<u8>| Some((SpellTarget::Agent(id), s)))
        } else if tag == 2 {
            bind(take_position(s), |position: Position, s: Seq<u8>|
                Some((SpellTarget::Position(position), s)))
        } else {
            None
        })
}

/// A text that is taken to be missing where it is empty.
pub open spec fn take_param(s: Seq<u8>) -> Taken<Option<Seq<char>>> {
    bind(take_string(s), |text: Seq<char>, s: Seq<u8>|
        Some((if text.len() == 0 { None } else { Some(text) }, s)))
}

/// What a client's payload asks, read field by field in the order of the layout.
pub open spec fn take_client_body(opcode: u8, s: Seq<u8>) -> Taken<ClientMessageView> {
    match opcode {
        CLI_PING => Some((ClientMessageView::Ping, s)),
        CLI_LOGIN => bind(take_tail(s), |auth_token: Seq<char>, s: Seq<u8>|
            Some((ClientMessageView::Login { auth_token }, s))),
        CLI_MOVE_PLAYER => bind(take_direction(s), |direction: Direction, s: Seq<u8>|
            Some((ClientMessageView::MovePlayer { direction }, s))),
        CLI_GET_PLAYER_POS => Some((ClientMessageView::GetPlayerPosition, s)),
        CLI_MOVE_ITEM =>
            bind(take_position(s), |position: Position, s: Seq<u8>|
            bind(take_u16(s), |id: u16, s: Seq<u8>|
            bind(take_u8(s), |amount: u8, s: Seq<u8>|
            bind(take_u8(s), |stack_index: u8, s: Seq<u8>|
            bind(take_position(s), |to: Position, s: Seq<u8>|
                Some((
                    ClientMessageView::MoveItem {
                        item: ClientItemRef { position, item_id: ItemId(id), stack_index },
                        amount,
                        to,
                    },
                    s,
                ))))))),
        CLI_USE_ITEM => bind(take_item_ref(s), |item: ClientItemRef, s: Seq<u8>|
            Some((ClientMessageView::UseItem { item }, s))),
        CLI_CLOSE_CONTAINER => bind(take_container_id(s), |container_id: ContainerId, s: Seq<u8>|
            Some((ClientMessageView::CloseContainer { container_id }, s))),
        CLI_OPEN_PARENT_CONTAINER =>
            bind(take_container_id(s), |container_id: ContainerId, s: Seq<u8>|
                Some((ClientMessageView::OpenParentContainer { container_id }, s))),
        CLI_CHANGE_DIRECTION => bind(take_facing(s), |direction: Facing, s: Seq<u8>|
            Some((ClientMessageView::ChangeDirection { direction }, s))),
        CLI_LOGOUT => Some((ClientMessageView::Logout, s)),
        CLI_USE_ITEM_WITH =>
            bind(take_item_ref(s), |source: ClientItemRef, s: Seq<u8>|
            bind(take_item_ref(s), |target: ClientItemRef, s: Seq<u8>|
            bind(take_optional_agent(s), |target_agent: Option<AgentId>, s: Seq<u8>|
                Some((ClientMessageView::UseItemWith { source, target, target_agent }, s))))),
        CLI_LOOK => bind(take_position(s), |position: Position, s: Seq<u8>|
            Some((ClientMessageView::Look { position }, s))),
        CLI_SAY =>
            bind(take_say_target(s), |target: SayTargetView, s: Seq<u8>|
            bind(take_tail(s), |message: Seq<char>, s: Seq<u8>|
                Some((ClientMessageView::Say { message, target }, s)))),
        CLI_REQUEST_CHANNELS => Some((ClientMessageView::RequestChannels, s)),
        CLI_OPEN_CHANNEL => bind(take_channel_id(s), |channel: ChannelId, s: Seq<u8>|
            Some((ClientMessageView::OpenChannel { channel }, s))),
        CLI_CLOSE_CHANNEL => bind(take_channel_id(s), |channel: ChannelId, s: Seq<u8>|
            Some((ClientMessageView::CloseChannel { channel }, s))),
        CLI_OPEN_PM_CHAT => bind(take_tail(s), |name: Seq<char>, s: Seq<u8>|
            Some((ClientMessageView::OpenPmChat { name }, s))),
        CLI_SET_TARGET =>
            bind(take_optional_agent(s), |agent_id: Option<AgentId>, s: Seq<u8>|
            bind(take_u32(s), |seq: u32, s: Seq<u8>|
                Some((ClientMessageView::SetTarget { agent_id, seq }, s)))),
        CLI_CAST_SPELL =>
            bind(take_spell_id(s), |spell_id: SpellId, s: Seq<u8>|
            bind(take_spell_target(s), |target: SpellTarget, s: Seq<u8>|
            bind(take_param(s), |param: Option<Seq<char>>, s: Seq<u8>|
                Some((ClientMessageView::CastSpell { spell_id, target, param }, s))))),
        _ => None,
    }
}

/// A request that the layout can hold: no text is too long for the length before it, no agent has
/// the number that means that there is none, and a parameter that is there is not empty.
pub open spec fn askable(message: ClientMessageView) -> bool {
    match message {
        ClientMessageView::UseItemWith { target_agent, .. } => target_agent != Some(
            AgentId(0xFFFF),
        ),
        ClientMessageView::Say { target, .. } => match target {
            SayTargetView::Player(name) => fits(name),
            _ => true,
        },
        ClientMessageView::SetTarget { agent_id, .. } => agent_id != Some(AgentId(0xFFFF)),
        ClientMessageView::CastSpell { param, .. } => match param {
            Some(text) => fits(text) && text.len() > 0,
            None => true,
        },
        _ => true,
    }
}

proof fn lemma_item_ref(item: ClientItemRef, t: Seq<u8>)
    ensures
        take_item_ref(item_ref_bytes(item) + t) == Some((item, t)),
{
    let t1 = seq![item.stack_index] + t;
    let t0 = le16(item.item_id.0) + t1;
    assert(item_ref_bytes(item) + t =~= position_bytes(item.position) + t0);
    lemma_position(item.position, t0);
    lemma_u16(item.item_id.0, t1);
    lemma_u8(item.stack_index, t);
}

proof fn lemma_optional_agent(agent: Option<AgentId>, t: Seq<u8>)
    requires
        agent != Some(AgentId(0xFFFF)),
    ensures
        take_optional_agent(optional_agent_bytes(agent) + t) == Some((agent, t)),
{
    lemma_u16(
        match agent {
            Some(id) => id.0,
            None => 0xFFFF,
        },
        t,
    );
}

proof fn lemma_tail(text: Seq<char>)
    ensures
        take_tail(encode_utf8(text)) == Some((text, Seq::<u8>::empty())),
{
    let end = Seq::<u8>::empty();
    assert(encode_utf8(text) + end =~= encode_utf8(text));
    lemma_text(text, end);
}

proof fn lemma_say_target(target: SayTargetView, t: Seq<u8>)
    requires
        target matches SayTargetView::Player(name) ==> fits(name),
    ensures
        take_say_target(say_target_bytes(target) + t) == Some((target, t)),
{
    match target {
        SayTargetView::Local => lemma_u8(1, t),
        SayTargetView::Channel(channel) => {
            assert(say_target_bytes(target) + t =~= seq![3u8] + (le16(channel.0) + t));
            lemma_u8(3, le16(channel.0) + t);
            lemma_u16(channel.0, t);
        },
        SayTargetView::Player(name) => {
            assert(say_target_bytes(target) + t =~= seq![2u8] + (string_bytes(name) + t));
            lemma_u8(2, string_bytes(name) + t);
            lemma_string(name, t);
        },
    }
}

proof fn lemma_spell_target(target: SpellTarget, t: Seq<u8>)
    ensures
        take_spell_target(spell_target_bytes(target) + t) == Some((target, t)),
{
    match target {
        SpellTarget::NoTarget => lemma_u8(0, t),
        SpellTarget::Agent(id) => {
            assert(spell_target_bytes(target) + t =~= seq![1u8] + (le16(id.0) + t));
            lemma_u8(1, le16(id.0) + t);
            lemma_u16(id.0, t);
        },
        SpellTarget::Position(position) => {
            assert(spell_target_bytes(target) + t =~= seq![2u8] + (position_bytes(position) + t));
            lemma_u8(2, position_bytes(position) + t);
            lemma_position(position, t);
        },
    }
}

proof fn lemma_param(param: Option<Seq<char>>, t: Seq<u8>)
    requires
        param matches Some(text) ==> fits(text) && text.len() > 0,
    ensures
        take_param(param_bytes(param) + t) == Some((param, t)),
{
    match param {
        Some(text) => lemma_string(text, t),
        None => {
            let nothing = Seq::<char>::empty();
            assert(encode_utf8(nothing) =~= Seq::empty());
            assert(string_bytes(nothing) =~= le16(0));
            lemma_string(nothing, t);
        },
    }
}

proof fn lemma_read_move_item(item: ClientItemRef, amount: u8, to: Position)
    ensures
        take_client_body(
            CLI_MOVE_ITEM,
            client_body(ClientMessageView::MoveItem { item, amount, to }),
        ) == Some((ClientMessageView::MoveItem { item, amount, to }, Seq::<u8>::empty())),
{
    let end = Seq::<u8>::empty();
    let t3 = position_bytes(to) + end;
    assert(t3 =~= position_bytes(to));
    let t2 = seq![item.stack_index] + t3;
    let t1 = seq![amount] + t2;
    let t0 = le16(item.item_id.0) + t1;
    lemma_position(item.position, t0);
    lemma_u16(item.item_id.0, t1);
    lemma_u8(amount, t2);
    lemma_u8(item.stack_index, t3);
    lemma_position(to, end);
}

/// Whatever a client asks is read back, in the layout that both ends keep, as it was asked, and
/// nothing of it is left over.
pub proof fn law_client_messages_are_read_back(message: ClientMessageView)
    requires
        askable(message),
    ensures
        take_client_body(client_opcode(message), client_body(message)) == Some(
            (message, Seq::<u8>::empty()),
        ),
{
    let end = Seq::<u8>::empty();
    let asked = message;
    assert(client_body(asked) + end =~= client_body(asked));
    match message {
        ClientMessageView::Login { auth_token } => lemma_tail(auth_token),
        ClientMessageView::MovePlayer { direction } => lemma_u8(direction_code(direction), end),
        ClientMessageView::MoveItem { item, amount, to } => lemma_read_move_item(item, amount, to),
        ClientMessageView::UseItem { item } => lemma_item_ref(item, end),
        ClientMessageView::CloseContainer { container_id } => lemma_u16(container_id.0, end),
        ClientMessageView::OpenParentContainer { container_id } => lemma_u16(container_id.0, end),
        ClientMessageView::ChangeDirection { direction } => lemma_u8(facing_code(direction), end),
        ClientMessageView::UseItemWith { source, target, target_agent } => {
            let t1 = optional_agent_bytes(target_agent) + end;
            assert(t1 =~= optional_agent_bytes(target_agent));
            lemma_item_ref(source, item_ref_bytes(target) + t1);
            lemma_item_ref(target, t1);
            lemma_optional_agent(target_agent, end);
        },
        ClientMessageView::Look { position } => lemma_position(position, end),
        ClientMessageView::Say { message, target } => {
            lemma_say_target(target, encode_utf8(message));
            lemma_tail(message);
        },
        ClientMessageView::OpenChannel { channel } => lemma_u16(channel.0, end),
        ClientMessageView::CloseChannel { channel } => lemma_u16(channel.0, end),
        ClientMessageView::OpenPmChat { name } => lemma_tail(name),
        ClientMessageView::SetTarget { agent_id, seq } => {
            let t1 = le32(seq) + end;
            assert(t1 =~= le32(seq));
            lemma_optional_agent(agent_id, t1);
            lemma_u32(seq, end);
        },
        ClientMessageView::CastSpell { spell_id, target, param } => {
            let t1 = param_bytes(param) + end;
            assert(t1 =~= param_bytes(param));
            let t0 = spell_target_bytes(target) + t1;
            lemma_u16(spell_id.0, t0);
            lemma_spell_target(target, t1);
            lemma_param(param, end);
        },
        _ => {},
    }
}

/// Two different requests are never written as the same bytes.
pub proof fn law_client_messages_differ_on_the_wire(a: ClientMessageView, b: ClientMessageView)
    requires
        askable(a),
        askable(b),
        client_payload(a) == client_payload(b),
    ensures
        a == b,
{
    assert(client_payload(a)[0] == client_opcode(a));
    assert(client_payload(b)[0] == client_opcode(b));
    assert(client_payload(a).skip(1) =~= client_body(a));
    assert(client_payload(b).skip(1) =~= client_body(b));
    law_client_messages_are_read_back(a);
    law_client_messages_are_read_back(b);
}

/// Whether a place stands in some bytes from `at` on: its column and its row in two bytes each,
/// the lower one first, and its floor in one.
pub open spec fn place_at(s: Seq<u8>, at: int, p: Position) -> bool {
    &&& at + 5 <= s.len()
    &&& s[at] + 256 * s[at + 1] == p.x
    &&& s[at + 2] + 256 * s[at + 3] == p.y
    &&& s[at + 4] == p.z
}

/// A frame is the payload with its length before it, in two bytes with the lower one first.
pub proof fn law_a_frame_begins_with_its_length(payload: Seq<u8>, i: int)
    requires
        payload.len() <= u16::MAX,
        0 <= i < payload.len(),
    ensures
        frame(payload).len() == payload.len() + 2,
        frame(payload)[0] + 256 * frame(payload)[1] == payload.len(),
        frame(payload)[i + 2] == payload[i],
{
}

/// What a client asks begins with a byte that says what it is.
pub proof fn law_requests_begin_with_what_they_are(message: ClientMessageView)
    ensures
        ({
            let first = client_payload(message)[0];
            &&& client_payload(message).len() >= 1
            &&& message is Ping <==> first == 0
            &&& message is Login <==> first == 1
            &&& message is MovePlayer <==> first == 2
            &&& message is GetPlayerPosition <==> first == 3
            &&& message is MoveItem <==> first == 4
            &&& message is UseItem <==> first == 5
            &&& message is CloseContainer <==> first == 6
            &&& message is OpenParentContainer <==> first == 7
            &&& message is ChangeDirection <==> first == 8
            &&& message is Logout <==> first == 9
            &&& message is UseItemWith <==> first == 10
            &&& message is Look <==> first == 11
            &&& message is Say <==> first == 12
            &&& message is RequestChannels <==> first == 13
            &&& message is OpenChannel <==> first == 14
            &&& message is CloseChannel <==> first == 15
            &&& message is OpenPmChat <==> first == 16
            &&& message is SetTarget <==> first == 17
            &&& message is CastSpell <==> first == 18
        }),
{
}

/// What a client asks goes on with the numbers that it names, each in its place and the lower byte
/// first.
pub proof fn law_requests_hold_each_number_in_its_place(message: ClientMessageView)
    ensures
        ({
            let s = client_payload(message);
            match message {
                ClientMessageView::MovePlayer { direction } => s.len() == 2 && s[1] == (
                match direction {
                    Direction::North => 0u8,
                    Direction::East => 1,
                    Direction::West => 2,
                    Direction::South => 3,
                    Direction::NorthEast => 4,
                    Direction::NorthWest => 5,
                    Direction::SouthEast => 6,
                    Direction::SouthWest => 7,
                }),
                ClientMessageView::ChangeDirection { direction } => s.len() == 2 && s[1] == (
                match direction {
                    Facing::North => 1u8,
                    Facing::East => 2,
                    Facing::South => 3,
                    Facing::West => 4,
                }),
                ClientMessageView::MoveItem { item, amount, to } => {
                    &&& s.len() == 15
                    &&& place_at(s, 1, item.position)
                    &&& s[6] + 256 * s[7] == item.item_id.0
                    &&& s[8] == amount
                    &&& s[9] == item.stack_index
                    &&& place_at(s, 10, to)
                },
                ClientMessageView::UseItem { item } => {
                    &&& s.len() == 9
                    &&& place_at(s, 1, item.position)
                    &&& s[6] + 256 * s[7] == item.item_id.0
                    &&& s[8] == item.stack_index
                },
                ClientMessageView::UseItemWith { source, target, target_agent } => {
                    &&& s.len() == 19
                    &&& place_at(s, 1, source.position)
                    &&& s[6] + 256 * s[7] == source.item_id.0
                    &&& s[8] == source.stack_index
                    &&& place_at(s, 9, target.position)
                    &&& s[14] + 256 * s[15] == target.item_id.0
                    &&& s[16] == target.stack_index
                    &&& s[17] + 256 * s[18] == (match target_agent {
                        Some(id) => id.0 as int,
                        None => 0xFFFF,
                    })
                },
                ClientMessageView::CloseContainer { container_id } => s.len() == 3 && s[1] + 256
                    * s[2] == container_id.0,
                ClientMessageView::OpenParentContainer { container_id } => s.len() == 3 && s[1]
                    + 256 * s[2] == container_id.0,
                ClientMessageView::Look { position } => s.len() == 6 && place_at(s, 1, position),
                ClientMessageView::OpenChannel { channel } => s.len() == 3 && s[1] + 256 * s[2]
                    == channel.0,
                ClientMessageView::CloseChannel { channel } => s.len() == 3 && s[1] + 256 * s[2]
                    == channel.0,
                ClientMessageView::SetTarget { agent_id, seq } => {
                    &&& s.len() == 7
                    &&& s[1] + 256 * s[2] == (match agent_id {
                        Some(id) => id.0 as int,
                        None => 0xFFFF,
                    })
                    &&& s[3] + 0x100 * s[4] + 0x1_0000 * s[5] + 0x100_0000 * s[6] == seq
                },
                ClientMessageView::CastSpell { spell_id, target, .. } => {
                    &&& s[1] + 256 * s[2] == spell_id.0
                    &&& match target {
                        SpellTarget::NoTarget => s[3] == 0,
                        SpellTarget::Agent(id) => s[3] == 1 && s[4] + 256 * s[5] == id.0,
                        SpellTarget::Position(p) => s[3] == 2 && place_at(s, 4, p),
                    }
                },
                ClientMessageView::Say { target, .. } => match target {
                    SayTargetView::Local => s[1] == 1,
                    SayTargetView::Player(_) => s[1] == 2,
                    SayTargetView::Channel(channel) => s[1] == 3 && s[2] + 256 * s[3] == channel.0,
                },
                ClientMessageView::Ping
                | ClientMessageView::GetPlayerPosition
                | ClientMessageView::Logout
                | ClientMessageView::RequestChannels => s.len() == 1,
                _ => true,
            }
        }),
{
}

/// What the server tells of an agent or of its player is read off the bytes in their places, the
/// lower byte of each number first.
pub proof fn law_what_is_told_is_read_off_its_place(s: Seq<u8>, opcode: u8)
    ensures
        ({
            let told = take_body(opcode, s);
            &&& opcode == 0 ==> told == Some((ServerMessageView::Pong, s))
            &&& opcode == 1 ==> told == Some((ServerMessageView::LoginError, s))
            &&& opcode == 11 ==> told == Some((ServerMessageView::PlayerWalkDenied, s))
            &&& opcode == 5 && s.len() >= 5 ==> (told matches Some(
                (ServerMessageView::PlayerPosition { position }, _),
            ) && place_at(s, 0, position))
            &&& opcode == 10 && s.len() >= 2 ==> (told matches Some(
                (ServerMessageView::ContainerClosed { container_id }, _),
            ) && container_id.0 == s[0] + 256 * s[1])
            &&& opcode == 13 && s.len() >= 4 ==> (told matches Some(
                (ServerMessageView::PlayerCapacityUpdated { cap }, _),
            ) && cap == s[0] + 0x100 * s[1] + 0x1_0000 * s[2] + 0x100_0000 * s[3])
            &&& opcode == 15 && s.len() >= 2 ==> (told matches Some(
                (ServerMessageView::RemoveAgent { agent_id }, _),
            ) && agent_id.0 == s[0] + 256 * s[1])
            &&& opcode == 16 && s.len() >= 8 && s[2] < 8 ==> (told matches Some(
                (ServerMessageView::MoveAgent { agent_id, direction, from }, _),
            ) && agent_id.0 == s[0] + 256 * s[1] && s[2] == (match direction {
                Direction::North => 0u8,
                Direction::East => 1,
                Direction::West => 2,
                Direction::South => 3,
                Direction::NorthEast => 4,
                Direction::NorthWest => 5,
                Direction::SouthEast => 6,
                Direction::SouthWest => 7,
            }) && place_at(s, 3, from))
            &&& opcode == 18 && s.len() >= 7 ==> (told matches Some(
                (ServerMessageView::TeleportAgent { agent_id, position }, _),
            ) && agent_id.0 == s[0] + 256 * s[1] && place_at(s, 2, position))
            &&& opcode == 23 && s.len() >= 4 ==> (told matches Some(
                (ServerMessageView::TargetLost { seq }, _),
            ) && seq == s[0] + 0x100 * s[1] + 0x1_0000 * s[2] + 0x100_0000 * s[3])
            &&& opcode == 24 && s.len() >= 10 ==> (told matches Some(
                (ServerMessageView::AgentLifeChanged { agent_id, current, max }, _),
            ) && agent_id.0 == s[0] + 256 * s[1] && current == s[2] + 0x100 * s[3] + 0x1_0000 * s[4]
                + 0x100_0000 * s[5] && max == s[6] + 0x100 * s[7] + 0x1_0000 * s[8] + 0x100_0000
                * s[9])
            &&& opcode == 27 && s.len() >= 10 ==> (told matches Some(
                (ServerMessageView::AgentManaUpdated { agent_id, current, max }, _),
            ) && agent_id.0 == s[0] + 256 * s[1] && current == s[2] + 0x100 * s[3] + 0x1_0000 * s[4]
                + 0x100_0000 * s[5] && max == s[6] + 0x100 * s[7] + 0x1_0000 * s[8] + 0x100_0000
                * s[9])
            &&& opcode == 31 && s.len() >= 10 ==> (told matches Some(
                (ServerMessageView::SpellCast { spell, spell_cooldown_ms, group_cooldown_ms }, _),
            ) && spell.0 == s[0] + 256 * s[1] && spell_cooldown_ms == s[2] + 0x100 * s[3] + 0x1_0000
                * s[4] + 0x100_0000 * s[5] && group_cooldown_ms == s[6] + 0x100 * s[7] + 0x1_0000
                * s[8] + 0x100_0000 * s[9])
            &&& opcode == 33 && s.len() >= 4 ==> (told matches Some(
                (ServerMessageView::AgentSpeedUpdated { agent_id, speed }, _),
            ) && agent_id.0 == s[0] + 256 * s[1] && speed == s[2] + 256 * s[3])
            &&& opcode == 34 && s.len() >= 4 ==> (told matches Some(
                (ServerMessageView::PlayerStatus { status }, _),
            ) && status == s[0] + 0x100 * s[1] + 0x1_0000 * s[2] + 0x100_0000 * s[3])
            &&& opcode == 35 && s.len() >= 2 ==> (told matches Some(
                (ServerMessageView::DamagedBy { agent_id }, _),
            ) && agent_id.0 == s[0] + 256 * s[1])
            &&& opcode > 35 ==> told is None
        }),
{
}

/// Where a missile is told to fly it flies: first from where, then to where, then what it is.
pub proof fn law_a_missile_is_read_from_its_start(s: Seq<u8>)
    requires
        s.len() >= 12,
    ensures
        take_body(26, s) matches Some(
            (ServerMessageView::LaunchMissile { from, to, missile_id }, _),
        ) && place_at(s, 0, from) && place_at(s, 5, to) && missile_id.0 == s[10] + 256 * s[11],
{
}

/// A tile is read as its items from the ground up, each with its number and its amount, up to a
/// number that is all ones; places above them are empty.
pub proof fn law_a_tile_is_read_from_the_ground_up(s: Seq<u8>, id: u16, amount: u8, rest: Seq<u8>)
    requires
        id != 0xFFFF,
        s.len() == 3,
        s[0] + 256 * s[1] == id,
        s[2] == amount,
    ensures
        take_entries(s + rest) matches Some((entries, after)) ==> {
            &&& entries.len() > 0 && entries[0].0.0 == id && entries[0].1 == amount
            &&& take_entries(rest) matches Some((more, end)) && entries == seq![entries[0]] + more
                && after == end
        },
        take_entries(rest) is None ==> take_entries(s + rest) is None,
        take_entries(seq![0xFFu8, 0xFFu8] + rest) == Some(
            (Seq::<(ItemId, u8)>::empty(), rest),
        ),
{
    assert((s + rest).skip(2).skip(1) =~= rest);
    assert((seq![0xFFu8, 0xFFu8] + rest).skip(2) =~= rest);
}

} // verus!
