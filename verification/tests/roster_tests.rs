use blockserver::player::{GameMode, Player, Position, Roster, FULL_HEALTH_BITS};
use std::sync::{Arc, Mutex};

fn named(uuid: u128, name: &str) -> Player {
    Player::new(uuid, name.to_string())
}

#[test]
fn new_player_defaults() {
    let p = named(7, "sd");
    assert_eq!(p.uuid, 7);
    assert_eq!(p.username, "sd");
    assert_eq!(p.position.x_bits, 0.0f64.to_bits());
    assert_eq!(p.position.y_bits, 64.0f64.to_bits());
    assert_eq!(p.position.z_bits, 0.0f64.to_bits());
    assert_eq!(p.health_bits, 20.0f32.to_bits());
    assert_eq!(FULL_HEALTH_BITS, 20.0f32.to_bits());
    assert_eq!(p.game_mode, GameMode::Survival);
    assert!(!p.is_operator);
}

#[test]
fn insert_then_remove_restores_roster() {
    let mut roster = Roster::new();
    roster.insert(named(1, "alice"));
    roster.insert(named(2, "bob"));
    let before = roster.len();

    roster.insert(named(3, "sd"));
    assert_eq!(roster.len(), before + 1);
    roster.remove_by_username(&"sd".to_string());

    assert_eq!(roster.len(), before);
    assert!(roster.find_by_identity(3).is_none());
    assert!(roster.find_by_identity(1).is_some());
    assert!(roster.find_by_identity(2).is_some());
    assert_eq!(roster.get(0).username, "alice");
    assert_eq!(roster.get(1).username, "bob");
}

#[test]
fn remove_takes_every_entry_with_the_username() {
    let mut roster = Roster::new();
    roster.insert(named(1, "dup"));
    roster.insert(named(2, "other"));
    roster.insert(named(3, "dup"));
    roster.remove_by_username(&"dup".to_string());
    assert_eq!(roster.len(), 1);
    assert_eq!(roster.get(0).username, "other");
}

#[test]
fn contains_username_tracks_inserts() {
    let mut roster = Roster::new();
    assert!(!roster.contains_username(&"sd".to_string()));
    roster.insert(named(9, "sd"));
    assert!(roster.contains_username(&"sd".to_string()));
}

#[test]
fn update_position_changes_only_the_matching_player() {
    let mut roster = Roster::new();
    let n: u128 = 8;
    for i in 0..n {
        roster.insert(named(i, &format!("p{}", i)));
    }
    // distinct writes to distinct identities, then reads: each observes
    // exactly its own written value
    for i in 0..n {
        let pos = Position {
            x_bits: (i as f64 + 0.5).to_bits(),
            y_bits: (100.0 + i as f64).to_bits(),
            z_bits: (-(i as f64)).to_bits(),
        };
        roster.update_position(i, pos);
    }
    for i in 0..n {
        let p = roster.find_by_identity(i).expect("present");
        assert_eq!(f64::from_bits(p.position.x_bits), i as f64 + 0.5);
        assert_eq!(f64::from_bits(p.position.y_bits), 100.0 + i as f64);
        assert_eq!(f64::from_bits(p.position.z_bits), -(i as f64));
        assert_eq!(p.username, format!("p{}", i));
    }
}

#[test]
fn update_position_on_missing_identity_is_a_no_op() {
    let mut roster = Roster::new();
    roster.insert(named(1, "alice"));
    roster.update_position(
        42,
        Position { x_bits: 1, y_bits: 2, z_bits: 3 },
    );
    let p = roster.find_by_identity(1).unwrap();
    assert_eq!(p.position.y_bits, 64.0f64.to_bits());
    assert!(roster.find_by_identity(42).is_none());
}

#[test]
fn find_by_identity_returns_first_match() {
    let mut roster = Roster::new();
    let mut a = named(5, "first");
    a.is_operator = true;
    roster.insert(a);
    roster.insert(named(5, "second"));
    let p = roster.find_by_identity(5).unwrap();
    assert_eq!(p.username, "first");
    assert!(p.is_operator);
}

#[test]
fn concurrent_updates_observe_their_own_writes() {
    // N connections hammering one shared roster: each takes the lock, writes
    // its own player, releases — steps interleaved round-robin, the same
    // schedule the mutex serializes real threads into.
    let n: u128 = 8;
    let shared = Arc::new(Mutex::new(Roster::new()));
    for i in 0..n {
        shared.lock().unwrap().insert(named(i, &format!("c{}", i)));
    }
    for step in 0..100u32 {
        for i in 0..n {
            let roster = Arc::clone(&shared);
            let pos = Position {
                x_bits: (i as f64 * 1000.0 + step as f64).to_bits(),
                y_bits: (64.0 + i as f64).to_bits(),
                z_bits: (-(i as f64)).to_bits(),
            };
            roster.lock().unwrap().update_position(i, pos);
        }
    }
    let roster = shared.lock().unwrap();
    for i in 0..n {
        let p = roster.find_by_identity(i).expect("present");
        assert_eq!(f64::from_bits(p.position.x_bits), i as f64 * 1000.0 + 99.0);
        assert_eq!(f64::from_bits(p.position.y_bits), 64.0 + i as f64);
        assert_eq!(f64::from_bits(p.position.z_bits), -(i as f64));
        assert_eq!(p.username, format!("c{}", i));
    }
}
