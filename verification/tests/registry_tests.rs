use harmony_glitch::network::registry::RemotePlayerRegistry;
use harmony_glitch::network::types::PresenceEvent;

/// Seconds of the monotonic clock as the registry counts them.
fn ms(secs: f64) -> u64 {
    (secs * 1000.0) as u64
}

fn make_hash(id: u8) -> [u8; 16] {
    [id; 16]
}

#[derive(Clone, Copy, Debug, PartialEq)]
struct NetState {
    x: f32,
    y: f32,
}

fn make_state(x: f32, y: f32) -> NetState {
    NetState { x, y }
}

fn joined(id: u8, name: &str) -> PresenceEvent {
    PresenceEvent::Joined { address_hash: make_hash(id), display_name: name.to_string() }
}

#[test]
fn join_and_leave() {
    let mut reg: RemotePlayerRegistry<NetState> = RemotePlayerRegistry::new();
    assert_eq!(reg.count(), 0);
    reg.handle_presence(&joined(1, "Alice"), ms(1.0));
    assert_eq!(reg.count(), 1);
    reg.handle_presence(&PresenceEvent::Left { address_hash: make_hash(1) }, ms(2.0));
    assert_eq!(reg.count(), 0);
}

#[test]
fn update_position() {
    let mut reg = RemotePlayerRegistry::new();
    reg.handle_presence(&joined(1, "Alice"), ms(1.0));
    reg.update_state(&make_hash(1), make_state(100.0, -50.0), ms(2.0));
    let frames = reg.frames();
    assert_eq!(frames.len(), 1);
    let st = frames[0].state.unwrap();
    assert!((st.x as f64 - 100.0).abs() < f64::EPSILON);
    assert!((st.y as f64 - -50.0).abs() < f64::EPSILON);
}

#[test]
fn ignores_update_for_unknown_player() {
    let mut reg = RemotePlayerRegistry::new();
    reg.update_state(&make_hash(99), make_state(1.0, 2.0), ms(1.0));
    assert_eq!(reg.count(), 0);
}

#[test]
fn purges_stale_players() {
    let mut reg = RemotePlayerRegistry::new();
    reg.handle_presence(&joined(1, "Alice"), ms(1.0));
    reg.update_state(&make_hash(1), make_state(0.0, 0.0), ms(1.0));
    reg.purge_stale(ms(12.0));
    assert_eq!(reg.count(), 0);
}

#[test]
fn purges_newly_joined_without_updates() {
    let mut reg: RemotePlayerRegistry<NetState> = RemotePlayerRegistry::new();
    reg.handle_presence(&joined(1, "Alice"), ms(1.0));
    reg.purge_stale(ms(5.0));
    assert_eq!(reg.count(), 1);
    reg.purge_stale(ms(12.0));
    assert_eq!(reg.count(), 0);
}

#[test]
fn clear_removes_all() {
    let mut reg: RemotePlayerRegistry<NetState> = RemotePlayerRegistry::new();
    reg.handle_presence(&joined(1, "Alice"), ms(1.0));
    reg.handle_presence(&joined(2, "Bob"), ms(1.0));
    assert_eq!(reg.count(), 2);
    reg.clear();
    assert_eq!(reg.count(), 0);
}

#[test]
fn rejoin_resets_player_state() {
    let mut reg = RemotePlayerRegistry::new();
    reg.handle_presence(&joined(1, "Alice"), ms(1.0));
    reg.update_state(&make_hash(1), make_state(500.0, -200.0), ms(2.0));
    reg.handle_presence(&PresenceEvent::Left { address_hash: make_hash(1) }, ms(3.0));
    reg.handle_presence(&joined(1, "Alice v2"), ms(4.0));
    assert_eq!(reg.count(), 1);
    let frames = reg.frames();
    assert_eq!(frames[0].display_name, "Alice v2");
    assert!(frames[0].state.is_none());
}

#[test]
fn refresh_liveness_prevents_stale_purge() {
    let mut reg: RemotePlayerRegistry<NetState> = RemotePlayerRegistry::new();
    reg.handle_presence(&joined(1, "Alice"), ms(1.0));
    reg.refresh_liveness(&make_hash(1), ms(8.0));
    reg.purge_stale(ms(12.0));
    assert_eq!(reg.count(), 1, "Should survive purge after liveness refresh");
    reg.purge_stale(ms(19.0));
    assert_eq!(reg.count(), 0);
}

#[test]
fn update_display_name_propagates_to_frames() {
    let mut reg: RemotePlayerRegistry<NetState> = RemotePlayerRegistry::new();
    reg.handle_presence(&joined(1, "OldName"), ms(1.0));
    assert_eq!(reg.frames()[0].display_name, "OldName");
    reg.update_display_name(&make_hash(1), "NewName".into());
    assert_eq!(reg.frames()[0].display_name, "NewName");
}

#[test]
fn frames_sorted_deterministically() {
    let mut reg: RemotePlayerRegistry<NetState> = RemotePlayerRegistry::new();
    reg.handle_presence(&joined(0xFF, "Zara"), ms(1.0));
    reg.handle_presence(&joined(0x01, "Alice"), ms(1.0));
    reg.handle_presence(&joined(0x80, "Mid"), ms(1.0));
    let frames = reg.frames();
    assert_eq!(frames.len(), 3);
    assert_eq!(frames[0].address_hash, hex::encode([0x01u8; 16]));
    assert_eq!(frames[1].address_hash, hex::encode([0x80u8; 16]));
    assert_eq!(frames[2].address_hash, hex::encode([0xFFu8; 16]));
}

#[test]
fn stale_boundary_is_exclusive() {
    let mut reg: RemotePlayerRegistry<NetState> = RemotePlayerRegistry::new();
    reg.handle_presence(&joined(1, "Alice"), 1_000);
    reg.purge_stale(10_999);
    assert_eq!(reg.count(), 1);
    reg.purge_stale(11_000);
    assert_eq!(reg.count(), 0);
}

#[test]
fn time_stamp_after_now_is_fresh() {
    let mut reg: RemotePlayerRegistry<NetState> = RemotePlayerRegistry::new();
    reg.handle_presence(&joined(1, "Alice"), 50_000);
    reg.purge_stale(1_000);
    assert_eq!(reg.count(), 1);
}

#[test]
fn rejoin_keeps_one_record() {
    let mut reg: RemotePlayerRegistry<NetState> = RemotePlayerRegistry::new();
    reg.handle_presence(&joined(1, "Alice"), 1_000);
    reg.handle_presence(&joined(2, "Bob"), 1_000);
    reg.handle_presence(&joined(1, "Alice again"), 2_000);
    assert_eq!(reg.count(), 2);
    let frames = reg.frames();
    assert_eq!(frames[0].display_name, "Alice again");
    assert_eq!(frames[1].display_name, "Bob");
}
