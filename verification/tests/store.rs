//! Behavior of the activity-coalesced configuration store.

use jeanne::config::{Channels, Discord, DiscordConfig};
use jeanne::stats::{Counter, Stats};

fn read_snapshot(store: &Discord) -> (u64, u64, Vec<u64>, Vec<u64>) {
    store.with_read(|c| {
        let mut naze: Vec<u64> = c.channels.naze.iter().copied().collect();
        let mut biso: Vec<u64> = c.channels.bisokuzenshin.iter().copied().collect();
        naze.sort_unstable();
        biso.sort_unstable();
        (c.owner, c.channels.welcome, naze, biso)
    })
}

/// With no pre-existing storage, the store initializes to the default state.
#[test]
fn cold_start_defaults() {
    let store = Discord::new(None, 0, 10);
    let (owner, welcome, naze, biso) = read_snapshot(&store);
    assert_eq!(owner, 0);
    assert_eq!(welcome, 0);
    assert!(naze.is_empty());
    assert!(biso.is_empty());
}

/// A loaded configuration is served back unchanged.
#[test]
fn loaded_state_round_trip() {
    let mut config = DiscordConfig::default();
    config.owner = 77;
    config.channels.welcome = 5;
    config.channels.naze.insert(11);
    config.channels.naze.insert(12);
    let store = Discord::new(Some(config), 0, 10);
    let (owner, welcome, naze, biso) = read_snapshot(&store);
    assert_eq!(owner, 77);
    assert_eq!(welcome, 5);
    assert_eq!(naze, vec![11, 12]);
    assert!(biso.is_empty());
}

/// With interval one unit, a write at the moment of arming does not persist;
/// a write before the deadline does not persist; a write past the deadline
/// persists exactly once and rearms a full interval ahead.
#[test]
fn debounced_persistence() {
    // scale: one time unit = 10 ticks, interval = 1 unit, armed at t=0
    let mut store = Discord::new(None, 0, 10);
    let (_, due) = store.with_write(0, |c| (c, ()));
    assert!(!due, "write at t=0 must not persist");
    let (_, due) = store.with_write(5, |c| (c, ()));
    assert!(!due, "write at t=0.5 must not persist");
    let (_, due) = store.with_write(12, |c| (c, ()));
    assert!(due, "write at t=1.2 must persist");
    // rearmed to t=2.2: no earlier write persists again
    let (_, due) = store.with_write(15, |c| (c, ()));
    assert!(!due);
    let (_, due) = store.with_write(21, |c| (c, ()));
    assert!(!due);
    let (_, due) = store.with_write(22, |c| (c, ()));
    assert!(due, "write at t=2.2 fires again");
}

/// Reads never invoke the persist action and never advance the timer.
#[test]
fn read_never_persists() {
    let mut store = Discord::new(None, 0, 10);
    for _ in 0..100 {
        let welcome = store.with_read(|c| c.channels.welcome);
        assert_eq!(welcome, 0);
    }
    // had any read advanced the timer, this write would already be due
    let (_, due) = store.with_write(9, |c| (c, ()));
    assert!(!due);
    let (_, due) = store.with_write(10, |c| (c, ()));
    assert!(due);
}

/// A write's own result is returned unchanged by the autosave tick.
#[test]
fn write_returns_closure_result() {
    let mut store = Discord::new(None, 0, 1);
    let (msg, due) = store.with_write(500, |mut c| {
        c.owner = 42;
        (c, "changed owner")
    });
    assert!(due);
    assert_eq!(msg, "changed owner");
    assert_eq!(store.with_read(|c| c.owner), 42);
}

/// A failed persist is reported to telemetry and retried on the next
/// elapsed-timer write.
#[test]
fn persist_failure_reported_and_retried() {
    let mut store = Discord::new(None, 0, 10);
    let mut stats = Stats::new();
    let (_, due) = store.with_write(12, |c| (c, ()));
    assert!(due);
    // the storage collaborator fails to save: report and carry on
    stats.increment(Counter::DiscordBrokenConfigUpdate);
    assert_eq!(stats.discord.broken_config_update, 1);
    // next elapsed-timer write offers the retry
    let (_, due) = store.with_write(22, |c| (c, ()));
    assert!(due);
}

/// Toggling a subscription twice returns to the original state.
#[test]
fn subscription_toggles() {
    let mut store = Discord::new(None, 0, 10);
    let (added, _) = store.with_write(0, |mut c| {
        let added = c.channels.toggle_naze(7);
        (c, added)
    });
    assert!(added);
    let (owner, welcome, naze, _) = read_snapshot(&store);
    assert_eq!(naze, vec![7]);
    assert_eq!(owner, 0);
    assert_eq!(welcome, 0);
    let (added, _) = store.with_write(1, |mut c| {
        let added = c.channels.toggle_naze(7);
        (c, added)
    });
    assert!(!added);
    let (_, _, naze, _) = read_snapshot(&store);
    assert!(naze.is_empty());
}

#[test]
fn welcome_toggle() {
    let mut channels = Channels::default();
    assert!(channels.toggle_welcome(5));
    assert_eq!(channels.welcome, 5);
    assert!(channels.toggle_bisokuzenshin(9));
    assert!(!channels.toggle_welcome(5));
    assert_eq!(channels.welcome, 0);
    assert!(channels.toggle_welcome(6));
    assert_eq!(channels.welcome, 6);
    assert!(channels.bisokuzenshin.contains(&9));
}

/// `load(save(x)) == x` for the storage encoding of the configuration: the
/// plain shape the program serializes is decoded back unchanged.
#[test]
fn storage_encoding_round_trip() {
    let saved: (u64, Vec<u64>, Vec<u64>, u64) = (3, vec![10, 20], vec![], 900);
    let bytes = bincode::serialize(&saved).unwrap();
    let loaded: (u64, Vec<u64>, Vec<u64>, u64) = bincode::deserialize(&bytes).unwrap();
    assert_eq!(saved, loaded);

    // a fresh store built from the decoded value observes the saved state
    let mut config = DiscordConfig::default();
    config.channels.welcome = loaded.0;
    for ch in &loaded.1 {
        config.channels.naze.insert(*ch);
    }
    for ch in &loaded.2 {
        config.channels.bisokuzenshin.insert(*ch);
    }
    config.owner = loaded.3;
    let store = Discord::new(Some(config), 0, 10);
    let (owner, welcome, naze, biso) = read_snapshot(&store);
    assert_eq!(owner, 900);
    assert_eq!(welcome, 3);
    assert_eq!(naze, vec![10, 20]);
    assert!(biso.is_empty());
}

/// Corrupt stored bytes fail to decode; the caller then falls back to the
/// default state rather than failing startup.
#[test]
fn corrupt_storage_falls_back_to_default() {
    let bytes: Vec<u8> = vec![0xFF, 0x01];
    let loaded: Result<(u64, Vec<u64>, Vec<u64>, u64), _> = bincode::deserialize(&bytes);
    let store = match loaded {
        Ok(_) => panic!("two bytes cannot decode to the configuration shape"),
        Err(_) => Discord::new(None, 0, 10),
    };
    let (owner, welcome, naze, biso) = read_snapshot(&store);
    assert_eq!(owner, 0);
    assert_eq!(welcome, 0);
    assert!(naze.is_empty());
    assert!(biso.is_empty());
}
