//! Fighting and casting: what a client asks for, and what it is shown.

use crate::actors::session::ids::law_numbers_stand_for_one_thing;
use crate::actors::session::{message_views, Outcome, OutcomeView, SessionActor};
use crate::actors::world::{CommandView, WorldCommand};
use crate::entities::agent::{group_pause, AgentBody, AgentId, AgentKey, AgentView, BodyView};
use crate::entities::chat::{ChannelId, ChatMessageType};
use crate::entities::combat::CombatDamage;
use crate::entities::effects::{single_effect, AreaEffect, AreaEffectView, EffectId};
use crate::entities::healing::RestoreType;
use crate::entities::map::{GameMap, MapView};
use crate::entities::position::Position;
use crate::entities::spells::{Spell, SpellDelivery, SpellGroup, SpellId, SpellTarget};
use crate::entities::targeting::AreaTarget;
use crate::game::config::GameConfig;
use crate::game::spells::SpellCastingDenyReason;
use crate::game::tick::TickDelta;
use crate::messages::{
    optional_view, Color, FloatingTextType, ServerMessage, ServerMessageView, TextMessageType,
};
use crate::text::{decimal, law_a_written_number_reads_as_itself, reads_as, to_decimal};
use vstd::prelude::*;

verus! {

/// Whether casting a spell is heard: a rune is used without a word.
pub fn speaks_its_words(spell: &Spell) -> (r: bool)
    ensures
        r == (spell.delivery is Words),
{
    match spell.delivery {
        SpellDelivery::Words => true,
        SpellDelivery::Rune => false,
    }
}

/// How a client is told why something cannot be done.
pub open spec fn denied_text(text: Seq<char>) -> ServerMessageView {
    ServerMessageView::TextMessage { text, message_type: TextMessageType::ActionDenied }
}

/// How an effect is shown.
pub open spec fn shown_effect(effect: AreaEffectView) -> ServerMessageView {
    ServerMessageView::ShowEffect {
        effect_id: effect.effect_id,
        position: effect.origin,
        delta: effect.delta,
    }
}

/// How an effect is shown.
pub fn send_effect(effect: AreaEffect) -> (m: ServerMessage)
    ensures
        m@ == shown_effect(effect@),
{
    ServerMessage::ShowEffect {
        effect_id: effect.effect_id,
        position: effect.origin,
        delta: effect.delta,
    }
}

/// A number that floats up from a tile.
pub open spec fn floating_number(value: u32, position: Position, color: Color) -> ServerMessageView {
    ServerMessageView::FloatingText {
        text: decimal(value as nat),
        position,
        text_type: FloatingTextType::HitPoints,
        color: Some(color),
    }
}

fn float_number(value: u32, position: Position, color: Color) -> (m: ServerMessage)
    ensures
        m@ == floating_number(value, position, color),
{
    ServerMessage::FloatingText {
        text: to_decimal(value as u64),
        position,
        text_type: FloatingTextType::HitPoints,
        color: Some(color),
    }
}

fn add_message(messages: &mut Vec<ServerMessage>, m: ServerMessage)
    ensures
        message_views(final(messages)@) == message_views(old(messages)@).push(m@),
{
    let ghost before = message_views(messages@);
    messages.push(m);
    assert(message_views(messages@) =~= before.push(m@));
}

/// What a client is told, where there is anything to tell.
pub open spec fn also(messages: Seq<ServerMessageView>, m: Option<ServerMessageView>) -> Seq<
    ServerMessageView,
> {
    match m {
        Some(m) => messages.push(m),
        None => messages,
    }
}

pub open spec fn optional_message(m: Option<ServerMessage>) -> Option<ServerMessageView> {
    match m {
        Some(m) => Some(m@),
        None => None,
    }
}

/// The name of an agent.
pub open spec fn name_of(a: AgentView) -> Seq<char> {
    match a.body {
        BodyView::Player(player) => player.name,
        BodyView::Creature(kind) => kind.name@,
    }
}

/// A number of ticks in milliseconds, as the wire has them.
pub open spec fn wire_ms(ticks: int, tick_ms: u64) -> u32 {
    ((ticks * tick_ms) % 0x1_0000_0000) as u32
}

fn to_wire_ms(ticks: TickDelta, tick_ms: u64) -> (ms: u32)
    requires
        ticks.0 * tick_ms <= u64::MAX,
    ensures
        ms == wire_ms(ticks.0 as int, tick_ms),
{
    let ms: u64 = ticks.0 * tick_ms;
    (ms % 0x1_0000_0000) as u32
}

impl SessionActor {
    /// The player fights another agent, or nobody any more.
    pub fn handle_set_target(&self, agent_id: Option<AgentId>, seq: u32) -> (command: WorldCommand)
        ensures
            command@ == (CommandView::SetTarget {
                agent_key: self.player_key,
                target: match agent_id {
                    Some(id) => self.key_of(id),
                    None => None,
                },
                seq,
            }),
    {
        let target: Option<AgentKey> = match agent_id {
            Some(id) => self.agent_key(id),
            None => None,
        };
        WorldCommand::SetTarget { agent_key: self.player_key, target, seq }
    }

    /// The player casts a spell. One at an agent that the client should not know is denied.
    pub fn handle_cast_spell(&self, spell_id: SpellId, target: SpellTarget, param: Option<String>) -> (r:
        Outcome)
        ensures
            r@ == ({
                let aimed = match target {
                    SpellTarget::NoTarget => Some(AreaTarget::NoTarget),
                    SpellTarget::Agent(id) => match self.key_of(id) {
                        Some(key) => Some(AreaTarget::Agent(key)),
                        None => None,
                    },
                    SpellTarget::Position(pos) => Some(AreaTarget::Position(pos)),
                };
                match aimed {
                    Some(target) => OutcomeView::Command(
                        CommandView::CastSpell {
                            agent_key: self.player_key,
                            spell: spell_id,
                            target,
                            param: optional_view(param),
                        },
                    ),
                    None => OutcomeView::Deny("Invalid target"@),
                }
            }),
    {
        let target: AreaTarget = match target {
            SpellTarget::NoTarget => AreaTarget::NoTarget,
            SpellTarget::Agent(id) => match self.agent_key(id) {
                Some(key) => AreaTarget::Agent(key),
                None => return Outcome::Deny("Invalid target"),
            },
            SpellTarget::Position(pos) => AreaTarget::Position(pos),
        };
        Outcome::Command(
            WorldCommand::CastSpell { agent_key: self.player_key, spell: spell_id, target, param },
        )
    }

    /// The player has lost its target.
    pub fn target_lost(&self, seq: u32) -> (m: ServerMessage)
        ensures
            m@ == (ServerMessageView::TargetLost { seq }),
    {
        ServerMessage::TargetLost { seq }
    }

    /// The life of an agent that is on the map and that the client knows.
    pub open spec fn life_of(&self, m: MapView, key: AgentKey) -> Option<ServerMessageView> {
        match self.id_of(key) {
            Some(agent_id) => if m.agents.contains_key(key.0) {
                Some(
                    ServerMessageView::AgentLifeChanged {
                        agent_id,
                        current: m.agents[key.0].life.current,
                        max: m.agents[key.0].life.maximum,
                    },
                )
            } else {
                None
            },
            None => None,
        }
    }

    /// What the client is told of an agent's life.
    pub fn life_updated(&self, map: &GameMap, agent_key: AgentKey) -> (m: Option<ServerMessage>)
        requires
            map.wf(),
        ensures
            optional_message(m) == self.life_of(map@, agent_key),
    {
        match self.agent_id(agent_key) {
            Some(agent_id) => match map.get_agent(agent_key) {
                Some(agent) => Some(
                    ServerMessage::AgentLifeChanged {
                        agent_id,
                        current: agent.life.current,
                        max: agent.life.maximum,
                    },
                ),
                None => None,
            },
            None => None,
        }
    }

    /// The mana of the player.
    pub open spec fn own_mana(&self, m: MapView) -> Option<ServerMessageView> {
        match self.id_of(self.player_key) {
            Some(agent_id) => if m.agents.contains_key(self.player_key.0) {
                Some(
                    ServerMessageView::AgentManaUpdated {
                        agent_id,
                        current: m.agents[self.player_key.0].mana.current,
                        max: m.agents[self.player_key.0].mana.maximum,
                    },
                )
            } else {
                None
            },
            None => None,
        }
    }

    /// What the client is told of its player's mana.
    pub fn mana_updated(&self, map: &GameMap) -> (m: Option<ServerMessage>)
        requires
            map.wf(),
        ensures
            optional_message(m) == self.own_mana(map@),
    {
        match self.agent_id(self.player_key) {
            Some(agent_id) => match map.get_agent(self.player_key) {
                Some(agent) => Some(
                    ServerMessage::AgentManaUpdated {
                        agent_id,
                        current: agent.mana.current,
                        max: agent.mana.maximum,
                    },
                ),
                None => None,
            },
            None => None,
        }
    }

    /// Who has hit the player, where the client knows it.
    pub open spec fn blamed(&self, source: Option<AgentKey>, target: AgentKey) -> Option<
        ServerMessageView,
    > {
        match source {
            Some(source) => if target == self.player_key {
                match self.id_of(source) {
                    Some(agent_id) => Some(ServerMessageView::DamagedBy { agent_id }),
                    None => None,
                }
            } else {
                None
            },
            None => None,
        }
    }

    /// What the client is shown of a hit: the splash and the number on the tile that the hit came
    /// with, whether or not whoever was hit is still on the map, and who dealt it where that was
    /// dealt to the player.
    pub fn agent_took_damage(
        &self,
        map: &GameMap,
        source: Option<AgentKey>,
        target: AgentKey,
        position: Position,
        damage: CombatDamage,
        effect: EffectId,
        text_color: Color,
    ) -> (messages: Vec<ServerMessage>)
        requires
            map.wf(),
        ensures
            message_views(messages@) == ({
                let splash = seq![shown_effect(single_effect(effect, position))];
                let named = also(splash, self.blamed(source, target));
                let numbered = if damage.value > 0 {
                    named.push(floating_number(damage.value, position, text_color))
                } else {
                    named
                };
                also(numbered, self.life_of(map@, target))
            }),
    {
        let mut messages: Vec<ServerMessage> = Vec::new();
        add_message(&mut messages, send_effect(AreaEffect::single(effect, position)));
        assert(message_views(messages@) =~= seq![shown_effect(single_effect(effect, position))]);
        if target == self.player_key {
            if let Some(source) = source {
                if let Some(agent_id) = self.agent_id(source) {
                    add_message(&mut messages, ServerMessage::DamagedBy { agent_id });
                }
            }
        }
        if damage.value > 0 {
            add_message(&mut messages, float_number(damage.value, position, text_color));
        }
        if let Some(m) = self.life_updated(map, target) {
            add_message(&mut messages, m);
        }
        messages
    }

    /// What the client hears of somebody it knows drinking a potion.
    pub fn potion_drunk(&self, target: AgentKey, position: Position) -> (m: Option<ServerMessage>)
        ensures
            optional_message(m) == (if self.id_of(target) is Some {
                Some(
                    ServerMessageView::FloatingText {
                        text: "Aaaah..."@,
                        position,
                        text_type: FloatingTextType::CreatureSay,
                        color: None,
                    },
                )
            } else {
                None
            }),
    {
        if self.agent_id(target).is_some() {
            Some(
                ServerMessage::FloatingText {
                    text: "Aaaah...".to_owned(),
                    position,
                    text_type: FloatingTextType::CreatureSay,
                    color: None,
                },
            )
        } else {
            None
        }
    }

    /// What the client is shown of a healing.
    pub fn agent_healed(
        &self,
        map: &GameMap,
        agent_key: AgentKey,
        position: Position,
        amount: u32,
        restore_type: RestoreType,
        config: &GameConfig,
    ) -> (messages: Vec<ServerMessage>)
        requires
            map.wf(),
        ensures
            message_views(messages@) == ({
                let glow = seq![
                    shown_effect(single_effect(config.effect_ids.healing_spell, position)),
                ];
                let color = match restore_type {
                    RestoreType::Life => config.text_colors.palepink,
                    RestoreType::Mana => config.text_colors.blue,
                };
                let numbered = if amount > 0 {
                    glow.push(floating_number(amount, position, color))
                } else {
                    glow
                };
                match restore_type {
                    RestoreType::Life => also(numbered, self.life_of(map@, agent_key)),
                    RestoreType::Mana => also(numbered, self.own_mana(map@)),
                }
            }),
    {
        let mut messages: Vec<ServerMessage> = Vec::new();
        let glow: EffectId = config.effect_ids.healing_spell;
        add_message(&mut messages, send_effect(AreaEffect::single(glow, position)));
        assert(message_views(messages@) =~= seq![shown_effect(single_effect(glow, position))]);
        if amount > 0 {
            let color: Color = match restore_type {
                RestoreType::Life => config.text_colors.palepink,
                RestoreType::Mana => config.text_colors.blue,
            };
            add_message(&mut messages, float_number(amount, position, color));
        }
        let last: Option<ServerMessage> = match restore_type {
            RestoreType::Life => self.life_updated(map, agent_key),
            RestoreType::Mana => self.mana_updated(map),
        };
        if let Some(m) = last {
            add_message(&mut messages, m);
        }
        messages
    }

    /// What the client is shown of a miss: a puff on the tile, and no number.
    pub fn attack_missed(&self, position: Position, config: &GameConfig) -> (m: ServerMessage)
        ensures
            m@ == shown_effect(single_effect(config.effect_ids.miss, position)),
    {
        send_effect(AreaEffect::single(config.effect_ids.miss, position))
    }

    /// What the client hears of a cast: the words from where the caster is, and, for the player
    /// itself, how long it has to wait.
    pub open spec fn cast_messages(
        &self,
        m: MapView,
        key: AgentKey,
        spell: Option<Spell>,
        tick_ms: u64,
        config: GameConfig,
    ) -> Seq<ServerMessageView> {
        match spell {
            Some(spell) => if m.agents.contains_key(key.0) && m.positions.contains_key(key.0) {
                let spoken = if spell.delivery is Words {
                    seq![
                        ServerMessageView::ChatMessage {
                            author: name_of(m.agents[key.0]),
                            message_type: ChatMessageType::Local,
                            channel: ChannelId(0),
                            position: Some(m.positions[key.0]),
                            message: spell.words@,
                        },
                    ]
                } else {
                    Seq::empty()
                };
                if self.player_key == key {
                    spoken.push(
                        ServerMessageView::SpellCast {
                            spell: spell.id,
                            spell_cooldown_ms: wire_ms(spell.cooldown.0 as int, tick_ms),
                            group_cooldown_ms: wire_ms(
                                group_pause(spell.group, spell.group_cooldown, config),
                                tick_ms,
                            ),
                        },
                    )
                } else {
                    spoken
                }
            } else {
                Seq::empty()
            },
            None => Seq::empty(),
        }
    }

    /// What the client hears of a cast.
    pub fn spell_cast(
        &self,
        map: &GameMap,
        agent_key: AgentKey,
        spell: Option<&Spell>,
        tick_ms: u64,
        config: &GameConfig,
    ) -> (messages: Vec<ServerMessage>)
        requires
            map.wf(),
            spell matches Some(spell) ==> {
                &&& spell.cooldown.0 * tick_ms <= u64::MAX
                &&& group_pause(spell.group, spell.group_cooldown, *config) * tick_ms <= u64::MAX
            },
        ensures
            message_views(messages@) == self.cast_messages(
                map@,
                agent_key,
                match spell {
                    Some(spell) => Some(*spell),
                    None => None,
                },
                tick_ms,
                *config,
            ),
    {
        let mut messages: Vec<ServerMessage> = Vec::new();
        assert(message_views(messages@) =~= Seq::empty());
        let agent = match map.get_agent(agent_key) {
            Some(agent) => agent,
            None => return messages,
        };
        let position: Position = match map.agent_position(agent_key) {
            Some(position) => position,
            None => return messages,
        };
        let spell = match spell {
            Some(spell) => spell,
            None => return messages,
        };
        if speaks_its_words(spell) {
            let author: String = match &agent.body {
                AgentBody::Player(player) => player.name.clone(),
                AgentBody::Creature(kind) => kind.name.clone(),
            };
            let chat = ServerMessage::ChatMessage {
                author,
                message_type: ChatMessageType::Local,
                channel: ChannelId(0),
                position: Some(position),
                message: spell.words.clone(),
            };
            let ghost heard = chat@;
            add_message(&mut messages, chat);
            assert(message_views(messages@) =~= seq![heard]);
        }
        if self.player_key == agent_key {
            let pause: TickDelta = match spell.group_cooldown {
                Some(pause) => pause,
                None => spell.group.cooldown(config),
            };
            add_message(
                &mut messages,
                ServerMessage::SpellCast {
                    spell: spell.id,
                    spell_cooldown_ms: to_wire_ms(spell.cooldown, tick_ms),
                    group_cooldown_ms: to_wire_ms(pause, tick_ms),
                },
            );
        }
        messages
    }

    /// What the client is shown of a cast that was denied: the puff, and, where it was the player's
    /// own, the reason. `rune_text` words that for a rune.
    pub fn spell_denied<F: Fn(&SpellCastingDenyReason) -> String>(
        &self,
        agent_key: AgentKey,
        position: Position,
        reason: &SpellCastingDenyReason,
        delivery: SpellDelivery,
        rune_text: &F,
        config: &GameConfig,
    ) -> (messages: Vec<ServerMessage>)
        requires
            rune_text.requires((reason,)),
        ensures
            ({
                let puff = shown_effect(single_effect(config.effect_ids.puff, position));
                if self.player_key != agent_key {
                    message_views(messages@) == seq![puff]
                } else {
                    match delivery {
                        SpellDelivery::Words => message_views(messages@) == seq![
                            puff,
                            denied_text(reason.text()),
                        ],
                        SpellDelivery::Rune => exists|text: String| #[trigger]
                            rune_text.ensures((reason,), text) && message_views(messages@) == seq![
                                puff,
                                denied_text(text@),
                            ],
                    }
                }
            }),
    {
        let mut messages: Vec<ServerMessage> = Vec::new();
        add_message(
            &mut messages,
            send_effect(AreaEffect::single(config.effect_ids.puff, position)),
        );
        let ghost puff = shown_effect(single_effect(config.effect_ids.puff, position));
        assert(message_views(messages@) =~= seq![puff]);
        if self.player_key == agent_key {
            let text: String = match delivery {
                SpellDelivery::Words => reason.message(),
                SpellDelivery::Rune => rune_text(reason),
            };
            let ghost said = text@;
            add_message(
                &mut messages,
                ServerMessage::TextMessage { text, message_type: TextMessageType::ActionDenied },
            );
            assert(message_views(messages@) =~= seq![puff, denied_text(said)]);
        }
        messages
    }
}

/// A client that knows an agent is told its life under the number it knows it by; one that does
/// not know it is told nothing. Its own player's mana it is told in the same way.
pub proof fn law_pools_are_told_by_number(s: SessionActor, m: MapView, key: AgentKey, i: int)
    requires
        s.wf(),
        0 <= i < s.agents@.len(),
        s.agents@[i].0 == key.0,
        m.agents.contains_key(key.0),
    ensures
        ({
            let a = m.agents[key.0];
            &&& s.life_of(m, key) matches Some(ServerMessageView::AgentLifeChanged {
                agent_id,
                current,
                max,
            }) && agent_id.0 == s.agents@[i].1 && current == a.life.current && max == a.life.maximum
            &&& key == s.player_key ==> (s.own_mana(m) matches Some(
                ServerMessageView::AgentManaUpdated { agent_id, current, max },
            ) && agent_id.0 == s.agents@[i].1 && current == a.mana.current && max == a.mana.maximum)
        }),
{
    law_numbers_stand_for_one_thing(s.agents@, i, 0, 0);
}

/// A player is told who hurt it where its client knows who that was, and nobody else is told.
pub proof fn law_only_the_hurt_player_is_told_by_whom(
    s: SessionActor,
    source: AgentKey,
    target: AgentKey,
    i: int,
)
    requires
        s.wf(),
        0 <= i < s.agents@.len(),
        s.agents@[i].0 == source.0,
    ensures
        target == s.player_key ==> (s.blamed(Some(source), target) matches Some(
            ServerMessageView::DamagedBy { agent_id },
        ) && agent_id.0 == s.agents@[i].1),
        target != s.player_key ==> s.blamed(Some(source), target) is None,
        s.blamed(None, target) is None,
{
    law_numbers_stand_for_one_thing(s.agents@, i, 0, 0);
}

/// What is written above a tile is the number itself, at that tile and in its colour.
pub proof fn law_a_floating_number_reads_as_itself(value: u32, position: Position, color: Color)
    ensures
        floating_number(value, position, color) matches ServerMessageView::FloatingText {
            text,
            position: at,
            text_type,
            color: c,
        } && reads_as(text) == value && at == position && text_type == FloatingTextType::HitPoints
            && c == Some(color),
{
    law_a_written_number_reads_as_itself(value as nat);
}

/// Words are heard where their caster stands and in its name; a rune is used without a word. Only
/// the caster is told how long it has to wait: as many milliseconds as the ticks take, as far as
/// four bytes count.
pub proof fn law_a_cast_is_heard_and_its_caster_told(
    s: SessionActor,
    m: MapView,
    key: AgentKey,
    spell: Spell,
    tick_ms: u64,
    config: GameConfig,
)
    requires
        m.agents.contains_key(key.0),
        m.positions.contains_key(key.0),
    ensures
        ({
            let told = s.cast_messages(m, key, Some(spell), tick_ms, config);
            let heard: int = if spell.delivery is Words {
                1
            } else {
                0
            };
            let waits: int = spell.cooldown.0 * tick_ms;
            let group_waits: int = match spell.group_cooldown {
                Some(cooldown) => cooldown.0 as int,
                None => match spell.group {
                    SpellGroup::Attack => config.combat.attack_group_cooldown.0 as int,
                    SpellGroup::Healing => config.combat.healing_group_cooldown.0 as int,
                    SpellGroup::Support => config.combat.support_group_cooldown.0 as int,
                },
            } * tick_ms;
            &&& spell.delivery is Words ==> (told[0] matches ServerMessageView::ChatMessage {
                author,
                message_type,
                position,
                message,
                ..
            } && author == (match m.agents[key.0].body {
                BodyView::Player(player) => player.name,
                BodyView::Creature(kind) => kind.name@,
            }) && message_type == ChatMessageType::Local && position == Some(m.positions[key.0])
                && message == spell.words@)
            &&& key != s.player_key ==> told.len() == heard
            &&& key == s.player_key ==> told.len() == heard + 1
            &&& key == s.player_key ==> (told[heard] matches ServerMessageView::SpellCast {
                spell: id,
                spell_cooldown_ms,
                group_cooldown_ms,
            } && id == spell.id && (waits <= u32::MAX ==> spell_cooldown_ms == waits) && (group_waits
                <= u32::MAX ==> group_cooldown_ms == group_waits))
        }),
{
    let a: int = spell.cooldown.0 as int;
    let g: int = group_pause(spell.group, spell.group_cooldown, config);
    assert(a * tick_ms >= 0) by (nonlinear_arith)
        requires
            a >= 0,
    ;
    assert(g * tick_ms >= 0) by (nonlinear_arith)
        requires
            g >= 0,
    ;
}

} // verus!
