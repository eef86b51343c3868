//! Measuring a run, and setting one up.

use rustibia::clock::{Duration, Instant};
use rustibia::doubles::{Double, to_seconds};
use rustibia::entities::inventory::InventorySlot;
use rustibia::entities::skills::SkillType;
use rustibia::entities::spells::{SpellGroup, SpellId};
use rustibia::entities::vocation::Vocation;
use rustibia::loadtest::account::{
    Character, CharacterId, MAX_BOT_INDEX, bot_name, build_inventory, missing_names, skill_rows,
};
use rustibia::loadtest::config::{
    Behaviour, CharacterKit, Coords, Inventory, KitConfig, KitError, Route, Stack, validate_kit,
};
use rustibia::loadtest::metrics::{
    Counter, Event, Meta, Metrics, Probe, Report, counter_name, probe_name,
};
use rustibia::loadtest::probes::Probes;
use rustibia::loadtest::run::{
    RunError, assign_route, disconnected_total, dropped_total, login_schedule, require_routes,
    select_bots, status, token_refused, verdict,
};
use std::collections::HashSet;


#[test]
fn samples_land_in_the_bucket_of_their_offset() {
    let mut metrics = Metrics::new(Duration::from_secs(10));

    metrics.record(
        Probe::WalkAck,
        Duration::from_secs(0),
        Duration::from_millis(20),
    );
    metrics.record(
        Probe::WalkAck,
        Duration::from_secs(9),
        Duration::from_millis(40),
    );
    metrics.record(
        Probe::WalkAck,
        Duration::from_secs(11),
        Duration::from_millis(60),
    );

    let report = metrics.report(Meta::default());

    assert_eq!(report.buckets.len(), 2);
    assert_eq!(report.buckets[0].samples(Probe::WalkAck), 2);
    assert_eq!(report.buckets[1].samples(Probe::WalkAck), 1);
}

fn float(number: Double) -> f64 {
    number.mantissa as f64 * 2f64.powi(number.exponent)
}

/// How many buckets of `width` an event at `elapsed` makes.
fn buckets_for(elapsed: Duration, width: Duration) -> Vec<f64> {
    let mut metrics = Metrics::new(width);
    metrics.count(Counter::WalkDenied, elapsed, 1);
    let report = metrics.report(Meta::default());
    assert_eq!(report.buckets.last().unwrap().count_of(Counter::WalkDenied), 1);
    report.buckets.iter().map(|b| float(b.start_secs)).collect()
}

#[test]
fn buckets_are_found_as_floating_point_has_it() {
    assert_eq!(buckets_for(Duration::from_millis(300), Duration::from_millis(100)).len(), 3);
    assert_eq!(buckets_for(Duration::from_secs(0), Duration::from_secs(0)), [0.0]);
    for width in [100, 300, 700, 999, 1_000, 1_700, 10_000] {
        for tenth in 0..120 {
            let elapsed = tenth * width / 3;
            let secs = std::time::Duration::from_millis(elapsed).as_secs_f64();
            let width_secs = std::time::Duration::from_millis(width).as_secs_f64();
            let starts =
                buckets_for(Duration::from_millis(elapsed), Duration::from_millis(width));

            assert_eq!(starts.len() - 1, (secs / width_secs).floor() as usize);
            for (i, start) in starts.iter().enumerate() {
                assert_eq!(*start, i as f64 * width_secs);
            }
        }
    }
}

#[test]
fn a_span_in_seconds_is_what_floating_point_has() {
    for nanos in [0u64, 1, 2, 999, 999_999_999, 1_000_000_000, 1_234_567_891, 3_300_000_000,
        123_456_789_012_345_678, u64::MAX]
    {
        assert_eq!(
            float(to_seconds(Duration { nanos: nanos as u128 })),
            std::time::Duration::from_nanos(nanos).as_secs_f64(),
            "{nanos}"
        );
    }
    let longest = std::time::Duration::MAX;
    assert_eq!(
        float(to_seconds(Duration { nanos: longest.as_nanos() })),
        longest.as_secs_f64()
    );
}

#[test]
fn buckets_know_their_own_start_time() {
    let mut metrics = Metrics::new(Duration::from_secs(10));
    metrics.record(
        Probe::WalkAck,
        Duration::from_secs(25),
        Duration::from_millis(1),
    );

    let report = metrics.report(Meta::default());

    assert_eq!(report.buckets.len(), 3);
    assert_eq!(float(report.buckets[0].start_secs), 0.0);
    assert_eq!(float(report.buckets[1].start_secs), 10.0);
    assert_eq!(float(report.buckets[2].start_secs), 20.0);
}

#[test]
fn the_aggregate_percentile_covers_every_bucket() {
    let mut metrics = Metrics::new(Duration::from_secs(10));
    for ms in 1..=100 {
        metrics.record(
            Probe::WalkAck,
            Duration::from_secs(ms % 30),
            Duration::from_millis(ms),
        );
    }

    let report = metrics.report(Meta::default());

    assert_eq!(report.total.samples(Probe::WalkAck), 100);
    assert!(report.total.p99(Probe::WalkAck).unwrap() >= 99_000);
}

#[test]
fn an_untouched_probes_percentile_serialises_as_null() {
    let metrics = Metrics::new(Duration::from_secs(10));

    let report = metrics.report(Meta::default());

    assert_eq!(probe_name(Probe::WalkAck), "walk_ack");
    assert_eq!(report.total.p99(Probe::WalkAck), None);
    assert_eq!(report.total.samples(Probe::WalkAck), 0);
}

#[test]
fn counters_add_up_by_the_given_amount_and_serialise() {
    let mut metrics = Metrics::new(Duration::from_secs(10));
    metrics.count(Counter::WalkDenied, Duration::from_secs(0), 1);
    metrics.count(Counter::WalkDenied, Duration::from_secs(0), 2);

    let report = metrics.report(Meta::default());

    assert_eq!(counter_name(Counter::WalkDenied), "walk_denied");
    assert_eq!(report.total.count_of(Counter::WalkDenied), 3);
}

#[test]
fn a_counter_from_a_later_bucket_still_reaches_the_total() {
    let mut metrics = Metrics::new(Duration::from_secs(10));
    metrics.count(Counter::SessionDisconnected, Duration::from_secs(0), 1);
    metrics.count(Counter::SessionDisconnected, Duration::from_secs(25), 1);

    let report = metrics.report(Meta::default());

    assert_eq!(report.total.count_of(Counter::SessionDisconnected), 2);
    assert_eq!(report.buckets.len(), 3);
    assert_eq!(report.buckets[2].count_of(Counter::SessionDisconnected), 1);
}

#[test]
fn a_drop_is_tracked_per_probe_not_as_a_flat_counter() {
    let mut metrics = Metrics::new(Duration::from_secs(10));
    metrics.record_drop(Probe::WalkAck, Duration::zero());
    metrics.record_drop(Probe::WalkAck, Duration::zero());
    metrics.record_drop(Probe::OpenContainer, Duration::zero());

    let report = metrics.report(Meta::default());

    assert_eq!(report.total.dropped(Probe::WalkAck), 2);
    assert_eq!(report.total.dropped(Probe::OpenContainer), 1);
    assert_eq!(report.total.dropped(Probe::Ping), 0);
}

#[test]
fn apply_dispatches_every_event_kind() {
    let mut metrics = Metrics::new(Duration::from_secs(10));

    metrics.apply(Event::Counted(Counter::LoginSucceeded, 1), Duration::zero());
    metrics.apply(
        Event::Sampled(Probe::Ping, Duration::from_millis(5)),
        Duration::zero(),
    );
    metrics.apply(Event::Dropped(Probe::Ping), Duration::zero());
    metrics.apply(
        Event::Received {
            messages: 3,
            bytes: 90,
        },
        Duration::zero(),
    );

    let report = metrics.report(Meta::default());
    assert_eq!(report.total.count_of(Counter::LoginSucceeded), 1);
    assert_eq!(report.total.samples(Probe::Ping), 1);
    assert_eq!(report.total.dropped(Probe::Ping), 1);
    assert_eq!(report.total.messages(), 3);
    assert_eq!(report.total.bytes(), 90);
}

#[test]
fn latest_bucket_is_the_most_recently_written_one() {
    let mut metrics = Metrics::new(Duration::from_secs(10));
    assert!(metrics.report(Meta::default()).buckets.last().is_none());

    metrics.record(
        Probe::WalkAck,
        Duration::from_secs(0),
        Duration::from_millis(500),
    );
    metrics.record(
        Probe::WalkAck,
        Duration::from_secs(20),
        Duration::from_millis(5),
    );

    let report = metrics.report(Meta::default());
    let latest = report.buckets.last().unwrap();
    assert_eq!(float(latest.start_secs), 20.0);
    assert_eq!(latest.samples(Probe::WalkAck), 1);
    assert!(
        (latest.p99(Probe::WalkAck).unwrap() as f64 / 1000.0 - 5.0).abs() < 0.1,
        "the histogram's own rounding at 3 significant figures, not the bucket lookup, \
         accounts for any difference from 5.0 exactly"
    );
}

#[test]
fn percentiles_and_the_longest_are_what_was_recorded() {
    let mut metrics = Metrics::new(Duration::from_secs(10));
    for micros in [100, 200, 300, 400] {
        metrics.record(Probe::Ping, Duration::zero(), Duration::from_micros(micros));
    }

    let total = metrics.report(Meta::default()).total;

    assert_eq!(total.percentile(Probe::Ping, 50), Some(200));
    assert_eq!(total.longest(Probe::Ping), Some(400));
    assert_eq!(total.longest(Probe::WalkAck), None);
}

fn at(millis: u64) -> Instant {
    Instant { nanos: 1_000_000_000 }.plus(Duration::from_millis(millis))
}

#[test]
fn a_cancelled_send_is_never_matched_by_a_later_reply() {
    let mut probes = Probes::new();

    probes.open(Probe::WalkAck, at(0));
    probes.cancel(Probe::WalkAck);
    probes.open(Probe::WalkAck, at(50));
    let sample = probes.resolve(Probe::WalkAck, at(60)).unwrap();

    assert_eq!(sample, Duration::from_millis(10));
}

#[test]
fn a_second_container_open_before_the_first_resolves_replaces_it_and_counts_a_drop() {
    let mut probes = Probes::new();

    probes.open(Probe::OpenContainer, at(0));
    probes.open(Probe::OpenContainer, at(30));

    assert!(probes.take_events().contains(&Event::Dropped(Probe::OpenContainer)));
    let sample = probes.resolve(Probe::OpenContainer, at(40)).unwrap();
    assert_eq!(sample, Duration::from_millis(10));
    assert_eq!(probes.resolve(Probe::OpenContainer, at(50)), None);
}

#[test]
fn casts_resolve_by_their_own_spell_id_regardless_of_send_order() {
    let mut probes = Probes::new();

    probes.open_cast(SpellId(1), SpellGroup::Attack);
    probes.open_cast(SpellId(2), SpellGroup::Healing);

    assert_eq!(probes.resolve_cast(SpellId(2)), Some(SpellGroup::Healing));
    assert_eq!(probes.resolve_cast(SpellId(1)), Some(SpellGroup::Attack));
}

#[test]
fn a_refused_casts_stale_entry_is_overwritten_by_its_next_attempt() {
    let mut probes = Probes::new();

    probes.open_cast(SpellId(1), SpellGroup::Attack);
    probes.open_cast(SpellId(1), SpellGroup::Attack);

    assert_eq!(probes.resolve_cast(SpellId(1)), Some(SpellGroup::Attack));
    assert_eq!(probes.resolve_cast(SpellId(1)), None);
}

#[test]
fn what_came_in_is_flushed_once() {
    let mut probes = Probes::new();
    probes.note_incoming();
    probes.note_incoming();

    probes.flush_received(90);
    probes.flush_received(90);
    probes.flush_received(100);

    assert_eq!(
        probes.take_events(),
        vec![
            Event::Received { messages: 2, bytes: 90 },
            Event::Received { messages: 0, bytes: 10 },
        ]
    );
}

fn route(name: &str) -> Route {
    Route { name: name.to_string(), waypoints: vec![Coords { x: 100, y: 100, z: 7 }] }
}

#[test]
fn logins_are_spread_across_the_ramp() {
    let starts = login_schedule(4, Duration::from_secs(60));

    assert_eq!(starts[0], Duration::from_secs(0));
    assert_eq!(starts[3], Duration::from_secs(45));
}

#[test]
fn a_zero_ramp_starts_everyone_at_once() {
    let starts = login_schedule(4, Duration::zero());

    assert!(starts.iter().all(|s| *s == Duration::zero()));
}

#[test]
fn routes_are_assigned_round_robin() {
    let routes = vec![route("a"), route("b")];

    assert_eq!(assign_route(&routes, 0).name, "a");
    assert_eq!(assign_route(&routes, 1).name, "b");
    assert_eq!(assign_route(&routes, 2).name, "a");
}

#[test]
fn the_status_line_reports_the_last_buckets_sample_count_not_the_totals() {
    let mut metrics = Metrics::new(Duration::from_secs(10));
    for _ in 0..100 {
        metrics.record(Probe::WalkAck, Duration::from_secs(0), Duration::from_micros(1));
    }
    for _ in 0..3 {
        metrics.record(Probe::WalkAck, Duration::from_secs(20), Duration::from_micros(1));
    }
    let report = metrics.report(Meta::default());
    assert_eq!(report.total.samples(Probe::WalkAck), 103);

    assert_eq!(status(&report).walk_samples, 3);
}

#[test]
fn an_untouched_probe_reports_as_unavailable_rather_than_zero() {
    let report = Metrics::new(Duration::from_secs(10)).report(Meta::default());

    let line = status(&report);

    assert_eq!(line.walk_p99, None);
    assert_eq!(line.ping_p99, None);
}

fn a_report(counts: &[(Counter, u64)]) -> Report {
    let mut metrics = Metrics::new(Duration::from_secs(10));
    for (counter, n) in counts {
        metrics.count(*counter, Duration::zero(), *n);
    }
    metrics.record_drop(Probe::Ping, Duration::zero());
    metrics.report(Meta::default())
}

#[test]
fn every_way_to_lose_a_connection_counts_as_disconnected() {
    let report = a_report(&[
        (Counter::ConnectFailed, 1),
        (Counter::LoginSendFailed, 2),
        (Counter::BurstDisconnected, 3),
        (Counter::SessionDisconnected, 4),
        (Counter::LoginFailed, 50),
    ]);

    assert_eq!(disconnected_total(&report.total), 10);
    assert_eq!(dropped_total(&report.total), 1);
    assert_eq!(
        token_refused(),
        vec![
            Event::Counted(Counter::LoginAttempted, 1),
            Event::Counted(Counter::LoginFailed, 1),
        ]
    );
}

#[test]
fn a_run_without_routes_or_characters_is_refused() {
    let none: Vec<Route> = Vec::new();
    let error = require_routes(&none, &"run.yaml".to_string()).unwrap_err();
    assert_eq!(error.message(), "run.yaml names no routes");
    assert!(require_routes(&vec![route("a")], &"run.yaml".to_string()).is_ok());

    let someone = || {
        vec![
            Character { id: CharacterId(1), name: "Loadbot Aaa".to_string() },
            Character { id: CharacterId(2), name: "Loadbotter".to_string() },
            Character { id: CharacterId(3), name: "Loadbot Aab".to_string() },
        ]
    };
    let bots = select_bots(someone(), &"Loadbot".to_string(), None).unwrap();
    assert_eq!(bots.iter().map(|bot| bot.id.0).collect::<Vec<i32>>(), vec![1, 3]);
    let first = select_bots(someone(), &"Loadbot".to_string(), Some(1)).unwrap();
    assert_eq!(first.len(), 1);
    let error = select_bots(someone(), &"Other".to_string(), None).unwrap_err();
    assert_eq!(error.message(), "no character starts with \"Other \" — run `seed` first");
}

#[test]
fn a_run_that_measured_nothing_is_no_success() {
    assert!(matches!(verdict(None, &a_report(&[])), Err(RunError::NothingMeasured)));
    assert_eq!(
        RunError::NothingMeasured.message(),
        "no bot logged in successfully — nothing was measured"
    );
    let spells = vec!["exura".to_string(), "exori".to_string()];
    let logged_in = a_report(&[(Counter::LoginSucceeded, 1)]);
    let error = verdict(Some(spells), &logged_in).unwrap_err();
    assert_eq!(
        error.message(),
        "configured spell(s) unusable by any bot's vocation or level: exura, exori"
    );
    assert!(verdict(None, &logged_in).is_ok());
}

#[test]
fn only_the_missing_names_are_created() {
    let existing = vec![Character { id: CharacterId(1), name: "Loadbot Aaa".to_string() }];

    assert_eq!(missing_names(&existing, "Loadbot", 2), vec!["Loadbot Aab".to_string()]);
}

#[test]
fn an_existing_name_is_matched_case_insensitively() {
    let existing = vec![Character { id: CharacterId(1), name: "loadbot aaa".to_string() }];

    let created = missing_names(&existing, "Loadbot", 1);

    assert!(created.is_empty(), "must not recreate an existing name");
}

#[test]
fn generated_names_satisfy_the_sites_character_name_rule() {
    assert_eq!(bot_name("Loadbot", 0), "Loadbot Aaa");
    assert_eq!(bot_name("Loadbot", 1), "Loadbot Aab");
    assert_eq!(bot_name("Loadbot", 26), "Loadbot Aba");
    assert_eq!(bot_name("Loadbot", MAX_BOT_INDEX), "Loadbot Zzz");

    let mut seen = HashSet::new();
    for index in [0, 1, 25, 26, MAX_BOT_INDEX] {
        let name = bot_name("Loadbot", index);

        assert!(
            name.chars().all(|c| c.is_alphabetic() || c == ' '),
            "{name} contains something other than letters and spaces"
        );
        assert!(
            (2..=29).contains(&name.chars().count()),
            "{name} is outside the site's length bounds"
        );
        assert!(
            !name.starts_with(' ') && !name.ends_with(' '),
            "{name} has leading or trailing whitespace"
        );
        assert!(!name.contains("  "), "{name} has a doubled space");
        assert!(seen.insert(name.to_lowercase()), "duplicate name: {name}");
    }
}

fn a_kit(amount: u8, stacks: u8) -> Inventory {
    Inventory { backpack: 2854, weapon: 3264, contents: vec![Stack { item: 266, stacks, amount }] }
}

#[test]
fn the_backpack_carries_the_stacks_and_the_weapon_stands_alone() {
    let inventory = build_inventory(&a_kit(100, 2));

    let backpack = &inventory[&InventorySlot::Backpack.as_id()];
    assert_eq!(backpack.item_id, 2854);
    let content = backpack.content.as_ref().expect("a backpack holds content");
    assert_eq!(content.len(), 2);
    assert!(content.iter().all(|s| s.item_id == 266 && s.amount == 100));

    let weapon = &inventory[&InventorySlot::RightHand.as_id()];
    assert_eq!(weapon.item_id, 3264);
    assert!(weapon.content.is_none());
}

#[test]
fn a_stack_is_capped_at_the_protocol_maximum() {
    let inventory = build_inventory(&a_kit(255, 1));

    assert_eq!(
        inventory[&InventorySlot::Backpack.as_id()].content.as_ref().unwrap()[0].amount,
        100
    );
}

fn a_character(skills: Vec<(SkillType, i16)>) -> KitConfig {
    KitConfig {
        character: CharacterKit {
            vocation: Vocation::Sorcerer,
            level: 20,
            life: 500,
            mana: 400,
            capacity: 60000,
            start: Coords { x: 32097, y: 31103, z: 7 },
            skills,
        },
        kit: a_kit(100, 2),
    }
}

#[test]
fn level_may_not_be_listed_under_skills() {
    let with_level = a_character(vec![
        (SkillType::Sword, 50),
        (SkillType::Shielding, 40),
        (SkillType::Level, 30),
    ]);

    let err = validate_kit(with_level).unwrap_err();

    assert_eq!(err, KitError::LevelAmongSkills);
    assert!(err.message().contains("level"), "{}", err.message());
    let kit = validate_kit(a_character(vec![(SkillType::Sword, 50)])).unwrap();
    assert_eq!(
        skill_rows(&kit.character),
        vec![
            (SkillType::Level.as_id() as i16, 20),
            (SkillType::Sword.as_id() as i16, 50),
        ]
    );
}

#[test]
fn the_settings_of_tests_are_pinned() {
    let behaviour = Behaviour::test_default();
    assert_eq!(behaviour.attack_spell, "exori flam");
    assert_eq!(behaviour.decision_interval_ms, (180, 320));
}
