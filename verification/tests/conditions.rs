//! Conditions: food, blocks, shields, speed and wounds that deal damage over time.

use rustibia::entities::combat::CombatElement;
use rustibia::entities::conditions::{
    Conditions, DamageOverTime, SpeedEffect, TimedCondition, BURNING_BIT, HASTED_BIT, HUNGRY_BIT,
    LOGOUT_BLOCK_BIT, MAGIC_SHIELD_BIT, PARALYZED_BIT, POISONED_BIT,
};
use rustibia::entities::effects::EffectId;
use rustibia::game::config::{CombatConfig, EffectIds, GameConfig, TextColors};
use rustibia::game::tick::{Tick, TickDelta};
use rustibia::messages::Color;

fn config() -> GameConfig {
    GameConfig {
        max_fed_ticks: TickDelta(24000),
        logout_block_ticks: TickDelta(1200),
        regen_ticks: TickDelta(120),
        use_item_cooldown_ticks: TickDelta(4),
        combat: CombatConfig {
            attack_group_cooldown: TickDelta(40),
            healing_group_cooldown: TickDelta(20),
            support_group_cooldown: TickDelta(40),
            auto_attack_ticks: TickDelta(40),
        },
        effect_ids: EffectIds {
            healing_spell: EffectId(1),
            mana_hit: EffectId(2),
            miss: EffectId(3),
            puff: EffectId(4),
        },
        text_colors: TextColors { blue: Color(0, 0, 255), palepink: Color(255, 200, 200) },
    }
}

#[test]
fn the_status_word_reads_what_is_present_and_hungry_without_food() {
    let mut conditions = Conditions::new();
    assert_eq!(conditions.status(), HUNGRY_BIT);

    conditions.add_fed_ticks(Tick(0), TickDelta(100));
    conditions.reset_logout_block(Tick(0), &config());
    conditions.apply_speed(SpeedEffect::Haste, 30);

    assert_eq!(conditions.status(), LOGOUT_BLOCK_BIT | HASTED_BIT);
}

fn poison(total: u32) -> DamageOverTime {
    DamageOverTime::decaying(CombatElement::Earth, None, TickDelta(80), total, None)
}

#[test]
fn a_decaying_schedule_matches_the_reference_sequence() {
    let mut dot = poison(100);
    let mut hits = Vec::new();
    while let Some(hit) = dot.next_hit() {
        hits.push(hit);
    }

    assert_eq!(&hits[..9], &[5, 5, 5, 5, 4, 4, 4, 4, 4]);
    assert_eq!(hits.len(), 46);
    assert_eq!(hits.iter().sum::<u32>(), 100);
}

fn hits_of(total: u32, start: Option<u32>) -> Vec<u32> {
    let mut dot =
        DamageOverTime::decaying(CombatElement::Fire, None, TickDelta(180), total, start);
    let mut hits = Vec::new();
    while let Some(hit) = dot.next_hit() {
        hits.push(hit);
    }
    hits
}

#[test]
fn a_total_as_near_its_milestone_as_with_another_hit_is_decided_by_rounding() {
    assert_eq!(hits_of(6, Some(2)), [2, 2, 1, 1]);
    assert_eq!(hits_of(22, None), in_floating_point(22, 2));
}

/// The same hits, worked out with floating-point numbers.
fn in_floating_point(total: u32, start: u32) -> Vec<u32> {
    let (mut value, mut dealt) = (start, 0);
    let mut hits = Vec::new();
    while value > 0 && dealt < total {
        let hit = value.min(total - dealt);
        hits.push(hit);
        dealt += hit;
        let line = ((start + 1 - value) * total / start) as f64;
        let with_another = (1.0 - (dealt + value) as f64 / line).abs();
        let as_is = (1.0 - dealt as f64 / line).abs();
        if with_another >= as_is {
            value -= 1;
        }
    }
    hits
}

#[test]
fn hits_fall_as_floating_point_has_it() {
    for total in 1..200 {
        for start in 1..=total {
            assert_eq!(
                hits_of(total, Some(start)),
                in_floating_point(total, start),
                "total {total}, start {start}"
            );
        }
    }
    for total in [997, 1024, 3001, 4096, 59_999] {
        for start in [1, 2, 3, 7, 20, 64, 100, 500] {
            assert_eq!(
                hits_of(total, Some(start)),
                in_floating_point(total, start),
                "total {total}, start {start}"
            );
        }
    }
}

#[test]
fn hits_fall_by_one_at_a_time_but_for_the_last() {
    assert_eq!(hits_of(10, Some(5)), [5, 4, 1]);
    for total in 1..120 {
        for start in 1..=total {
            let hits = hits_of(total, Some(start));
            assert_eq!(hits[0], start);
            for i in 1..hits.len() {
                let last = i == hits.len() - 1;
                assert!(hits[i] >= 1);
                assert!(hits[i] == hits[i - 1] || hits[i] + 1 == hits[i - 1] || last);
            }
        }
    }
}

#[test]
fn a_flat_schedule_deals_its_count_unchanged() {
    let mut dot = DamageOverTime::flat(CombatElement::Fire, None, TickDelta(200), 10, 7);

    assert_eq!(dot.remaining(), 70);

    let mut hits = Vec::new();
    while let Some(hit) = dot.next_hit() {
        hits.push(hit);
    }

    assert_eq!(hits, [10, 10, 10, 10, 10, 10, 10]);
}

#[test]
fn an_authored_start_never_spends_more_than_the_roll() {
    let mut dot = DamageOverTime::decaying(CombatElement::Fire, None, TickDelta(180), 3, Some(50));
    let mut dealt = 0;
    while let Some(hit) = dot.next_hit() {
        dealt += hit;
    }

    assert_eq!(dealt, 3);
    assert_eq!(dot.remaining(), 0);
}

#[test]
fn any_authored_start_spends_exactly_the_roll() {
    for total in 1..60 {
        for start in 0..70 {
            let mut dot = DamageOverTime::decaying(
                CombatElement::Fire,
                None,
                TickDelta(180),
                total,
                Some(start),
            );
            let mut dealt = 0;
            while let Some(hit) = dot.next_hit() {
                dealt += hit;
                assert_eq!(dot.remaining(), total - dealt);
            }
            assert_eq!(dealt, total, "start {start}");
        }
    }
}

#[test]
fn only_a_stronger_condition_of_the_same_element_replaces_what_is_left() {
    let mut conditions = Conditions::new();
    let first = conditions.apply_damage_over_time(poison(100)).unwrap();

    assert!(conditions.apply_damage_over_time(poison(20)).is_none());

    let second = conditions.apply_damage_over_time(poison(500)).unwrap();

    assert_ne!(first, second);
    assert!(conditions.next_damage_hit(CombatElement::Earth, first).is_none());
    assert!(conditions.next_damage_hit(CombatElement::Earth, second).is_some());
}

#[test]
fn hungry_is_the_absence_of_fed() {
    let mut conditions = Conditions::new();
    assert_eq!(conditions.status() & HUNGRY_BIT, HUNGRY_BIT);

    conditions.add_fed_ticks(Tick(0), TickDelta(100));
    assert_eq!(conditions.status() & HUNGRY_BIT, 0);

    conditions.remove_timed(TimedCondition::Fed);
    assert_eq!(conditions.status() & HUNGRY_BIT, HUNGRY_BIT);
}

#[test]
fn a_damage_condition_shows_its_element() {
    let mut conditions = Conditions::new();
    conditions.apply_damage_over_time(DamageOverTime::decaying(
        CombatElement::Fire,
        None,
        TickDelta(180),
        100,
        None,
    ));

    assert_eq!(conditions.status() & BURNING_BIT, BURNING_BIT);
    assert_eq!(conditions.status() & POISONED_BIT, 0);
}

#[test]
fn a_full_stomach_refuses_another_meal() {
    let mut conditions = Conditions::new();
    let config = config();
    conditions.add_fed_ticks(Tick(0), config.max_fed_ticks);

    assert!(!conditions.can_feed(Tick(0), TickDelta(240), &config));
    assert!(conditions.can_feed(Tick(0).plus(config.max_fed_ticks), TickDelta(240), &config));
}

#[test]
fn eating_after_the_food_ran_out_starts_a_new_chain() {
    let mut conditions = Conditions::new();
    let first = conditions.add_fed_ticks(Tick(0), TickDelta(100));
    let second = conditions.add_fed_ticks(Tick(100), TickDelta(100));

    assert_ne!(first, second);
    assert_eq!(conditions.fed().unwrap().0, Tick(200));
}

#[test]
fn eating_while_fed_keeps_the_chain_and_adds_to_it() {
    let mut conditions = Conditions::new();
    let first = conditions.add_fed_ticks(Tick(0), TickDelta(100));
    let second = conditions.add_fed_ticks(Tick(40), TickDelta(100));

    assert_eq!(first, second);
    assert_eq!(conditions.fed(), Some((Tick(200), first)));
}

#[test]
fn a_speed_condition_replaces_the_other_kind_and_takes_a_new_generation() {
    let mut conditions = Conditions::new();
    let hasted = conditions.apply_speed(SpeedEffect::Haste, 30);
    let paralysed = conditions.apply_speed(SpeedEffect::Paralysis, -80);

    assert_ne!(hasted, paralysed);
    assert_eq!(conditions.speed_change(), -80);
    assert_eq!(conditions.status() & (PARALYZED_BIT | HASTED_BIT), PARALYZED_BIT);
}

#[test]
fn a_paralysis_clamped_to_nothing_still_shows_as_paralysed() {
    let mut conditions = Conditions::new();
    conditions.apply_speed(SpeedEffect::Paralysis, 0);

    assert_eq!(conditions.status() & PARALYZED_BIT, PARALYZED_BIT);
}

#[test]
fn only_the_live_generation_expires_a_speed_condition() {
    let mut conditions = Conditions::new();
    let first = conditions.apply_speed(SpeedEffect::Haste, 30);
    let second = conditions.apply_speed(SpeedEffect::Haste, 50);

    assert!(!conditions.expire_speed(first));
    assert_eq!(conditions.speed_change(), 50);
    assert!(conditions.expire_speed(second));
    assert_eq!(conditions.speed_change(), 0);
    assert_eq!(conditions.status() & HASTED_BIT, 0);
}

#[test]
fn a_cure_removes_only_its_element() {
    let mut conditions = Conditions::new();
    conditions.apply_damage_over_time(poison(100));
    conditions.apply_damage_over_time(DamageOverTime::decaying(
        CombatElement::Fire,
        None,
        TickDelta(180),
        100,
        None,
    ));

    assert!(conditions.cure(CombatElement::Earth));
    assert!(!conditions.cure(CombatElement::Earth));
    assert_eq!(conditions.status() & (POISONED_BIT | BURNING_BIT), BURNING_BIT);
}

#[test]
fn the_magic_shield_lapses_at_its_deadline() {
    let mut conditions = Conditions::new();
    conditions.extend_magic_shield(Tick(100));

    assert!(conditions.is_magic_shielded(Tick(99)));
    assert_eq!(conditions.status() & MAGIC_SHIELD_BIT, MAGIC_SHIELD_BIT);
    assert!(!conditions.is_magic_shielded(Tick(100)));

    conditions.extend_magic_shield(Tick(300));
    conditions.remove_magic_shield();
    assert!(!conditions.is_magic_shielded(Tick(0)));
}

#[test]
fn a_logout_block_reports_only_its_creation() {
    let mut conditions = Conditions::new();
    let config = config();

    assert!(conditions.reset_logout_block(Tick(0), &config));
    assert!(!conditions.reset_logout_block(Tick(10), &config));

    assert_eq!(
        conditions.until(TimedCondition::LogoutBlock),
        Some(Tick(10).plus(config.logout_block_ticks))
    );
}

#[test]
fn a_logout_block_ends_at_its_tick() {
    let mut conditions = Conditions::new();
    let config = config();
    conditions.reset_logout_block(Tick(0), &config);

    assert!(conditions.is_logout_blocked(Tick(config.logout_block_ticks.0 - 1)));
    assert!(!conditions.is_logout_blocked(Tick(config.logout_block_ticks.0)));
}

#[test]
fn a_shorter_magic_shield_does_not_shorten_a_longer_one() {
    let mut conditions = Conditions::new();

    assert!(conditions.extend_magic_shield(Tick(100)));
    assert!(!conditions.extend_magic_shield(Tick(50)));
    assert_eq!(conditions.until(TimedCondition::MagicShield), Some(Tick(100)));

    conditions.extend_magic_shield(Tick(200));
    assert_eq!(conditions.until(TimedCondition::MagicShield), Some(Tick(200)));
}

#[test]
fn removing_a_timed_condition_leaves_the_others() {
    let mut conditions = Conditions::new();
    conditions.reset_logout_block(Tick(0), &config());
    conditions.extend_magic_shield(Tick(100));

    conditions.remove_timed(TimedCondition::LogoutBlock);

    assert_eq!(conditions.until(TimedCondition::LogoutBlock), None);
    assert_eq!(conditions.until(TimedCondition::MagicShield), Some(Tick(100)));
}

#[test]
fn a_copy_of_the_conditions_is_its_own() {
    let mut conditions = Conditions::new();
    conditions.extend_magic_shield(Tick(100));
    let copy = conditions.copy();
    conditions.remove_magic_shield();

    assert!(copy.is_magic_shielded(Tick(0)));
    assert!(!conditions.is_magic_shielded(Tick(0)));
}
