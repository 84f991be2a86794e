use vibecoded_game::biome::{BiomeDefinition, BiomeRegistry};
use vibecoded_game::combat::{round_robin, AttackHitbox, AttackPhase, AttackState, ComboTracker};
use vibecoded_game::contacts::ContactTracker;
use vibecoded_game::enemy::{EnemyHealth, HitOutcome};
use vibecoded_game::layers::{CollisionGroupBits, CollisionLayers};
use vibecoded_game::settings::{AppConfig, PhysicsDebugSettings};
use vibecoded_game::tiles::TileId;

fn biome(name: &str, tile: u32) -> BiomeDefinition {
    BiomeDefinition {
        name: name.to_string(),
        noise_min_bits: (-1.0f64).to_bits(),
        noise_max_bits: 1.0f64.to_bits(),
        tint_bits: [0.5f32.to_bits(); 4],
        tile_id: TileId(tile),
    }
}

#[test]
fn attack_runs_its_full_cycle() {
    let mut state = AttackState::new();
    assert_eq!(state.advance(true), None);
    state.queue_attack(true);
    assert!(state.queued);
    assert_eq!(state.advance(false), Some(AttackPhase::Windup));
    assert!(!state.queued);
    assert_eq!(state.advance(false), None);
    assert_eq!(state.advance(true), Some(AttackPhase::Active));
    state.queue_attack(true);
    assert!(!state.queued);
    assert_eq!(state.advance(true), Some(AttackPhase::Recovery));
    state.queue_attack(true);
    assert!(state.queued);
    assert_eq!(state.advance(true), Some(AttackPhase::Idle));
    assert_eq!(state.advance(false), Some(AttackPhase::Windup));
}

#[test]
fn attack_cancel_returns_to_idle() {
    let mut state = AttackState::new();
    state.queue_attack(true);
    state.advance(false);
    state.cancel();
    assert_eq!(state.phase, AttackPhase::Idle);
    assert!(!state.queued);
}

#[test]
fn combo_counts_hits_and_tracks_best() {
    let mut combo = ComboTracker::new();
    assert!(!combo.is_active());
    assert!(combo.register_hits(true, true));
    assert!(combo.register_hits(true, false));
    assert!(combo.register_hits(true, false));
    assert_eq!((combo.current(), combo.best()), (3, 3));
    assert!(!combo.register_hits(false, false));
    assert_eq!(combo.current(), 3);
    combo.register_hits(false, true);
    assert_eq!((combo.current(), combo.best()), (0, 3));
    combo.register_hits(true, true);
    assert_eq!((combo.current(), combo.best()), (1, 3));
}

#[test]
fn defeats_end_the_combo_and_are_remembered() {
    let mut combo = ComboTracker::new();
    combo.register_hits(true, true);
    combo.register_hits(true, false);
    let now = 2.5f32.to_bits();
    let emptied = combo.register_defeats(&vec![(7, None), (9, Some("Dummy".to_string()))], now);
    assert!(emptied);
    assert_eq!(combo.current(), 0);
    assert_eq!(combo.best(), 2);
    assert_eq!(combo.last_defeated_entity(), Some(9));
    assert_eq!(combo.last_defeated_name(), Some("Dummy"));
    assert_eq!(combo.last_defeated_time_bits(), Some(now));
    assert!(!combo.register_defeats(&vec![(3, None)], now));
    assert_eq!(combo.last_defeated_name(), None);
    assert!(!combo.register_defeats(&Vec::new(), now));
    assert_eq!(combo.last_defeated_entity(), Some(3));
}

#[test]
fn expired_hit_forgets_last_defeat() {
    let mut combo = ComboTracker::new();
    combo.register_defeats(&vec![(4, Some("x".to_string()))], 0);
    combo.register_hits(true, false);
    assert_eq!(combo.last_defeated_entity(), Some(4));
    combo.register_hits(true, true);
    assert_eq!(combo.last_defeated_entity(), None);
    assert_eq!(combo.last_defeated_time_bits(), None);
}

#[test]
fn hitbox_hits_each_enemy_once() {
    let mut hitbox = AttackHitbox::new();
    assert!(!hitbox.try_hit(1, false));
    assert!(hitbox.try_hit(1, true));
    assert!(!hitbox.try_hit(1, true));
    assert!(hitbox.try_hit(2, true));
    assert_eq!(hitbox.hit_entities, vec![1, 2]);
}

#[test]
fn round_robin_cycles_sounds() {
    assert_eq!(round_robin(0, 4), (0, 1));
    assert_eq!(round_robin(3, 4), (3, 0));
    assert_eq!(round_robin(9, 4), (1, 2));
}

#[test]
fn enemy_dies_once() {
    let mut health = EnemyHealth::dummy();
    assert_eq!(health.take_hit(), HitOutcome::Hurt);
    assert_eq!(health.take_hit(), HitOutcome::Hurt);
    assert_eq!(health.take_hit(), HitOutcome::Killed);
    assert_eq!(health.current, 0);
    assert_eq!(health.take_hit(), HitOutcome::Ignored);
    assert_eq!(health.current, 0);
}

#[test]
fn contacts_block_until_the_last_one_ends() {
    let mut tracker = ContactTracker::new();
    assert!(!tracker.end_contact(5));
    tracker.begin_contact(5);
    tracker.begin_contact(5);
    assert_eq!(tracker.contact_count(5), 2);
    assert!(!tracker.end_contact(5));
    assert!(tracker.end_contact(5));
    assert_eq!(tracker.contact_count(5), 0);
    assert!(tracker.counts.is_empty());
}

#[test]
fn default_layer_matrix() {
    let layers = CollisionLayers::default();
    assert_eq!(layers.player_groups(), CollisionGroupBits { memberships: 1, filters: 6 });
    assert_eq!(layers.enemy_groups(), CollisionGroupBits { memberships: 2, filters: 5 });
    assert_eq!(layers.terrain_groups(), CollisionGroupBits { memberships: 4, filters: 3 });
}

#[test]
fn biomes_are_found_by_first_name() {
    let mut biomes = BiomeRegistry::new();
    assert!(biomes.is_empty());
    biomes.register(biome("Grassland", 0));
    biomes.register(biome("Mountain", 1));
    biomes.register(biome("Grassland", 2));
    assert_eq!(biomes.by_name("Grassland").unwrap().tile_id, TileId(0));
    assert_eq!(biomes.by_name("Mountain").unwrap().tile_id, TileId(1));
    assert!(biomes.by_name("Ocean").is_none());
}

#[test]
fn settings_defaults() {
    assert_eq!(AppConfig::default().window_title, "VibeCoded Game");
    assert!(!PhysicsDebugSettings::default().show_colliders);
}

#[test]
fn contact_begin_then_end_restores_counts() {
    let mut tracker = ContactTracker::new();
    tracker.begin_contact(1);
    tracker.begin_contact(2);
    let before: Vec<(u64, u32)> = {
        let mut v: Vec<(u64, u32)> = tracker.counts.iter().map(|(k, c)| (*k, *c)).collect();
        v.sort();
        v
    };
    tracker.begin_contact(2);
    assert!(!tracker.end_contact(2));
    let mut after: Vec<(u64, u32)> = tracker.counts.iter().map(|(k, c)| (*k, *c)).collect();
    after.sort();
    assert_eq!(before, after);
    tracker.begin_contact(3);
    assert!(tracker.end_contact(3));
    assert_eq!(tracker.contact_count(3), 0);
}

#[test]
fn layer_matrix_makes_distinct_kinds_collide() {
    let layers = CollisionLayers::default();
    let groups = [layers.player_groups(), layers.enemy_groups(), layers.terrain_groups()];
    for (i, a) in groups.iter().enumerate() {
        for (j, b) in groups.iter().enumerate() {
            let interacts = (a.memberships & b.filters) != 0 && (b.memberships & a.filters) != 0;
            assert_eq!(interacts, i != j);
        }
    }
}

#[test]
fn attack_press_during_windup_is_ignored() {
    let mut state = AttackState::new();
    state.queue_attack(true);
    state.advance(false);
    state.queue_attack(true);
    assert!(!state.queued);
    state.queue_attack(false);
    assert!(!state.queued);
}
