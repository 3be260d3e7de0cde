use starworld_bridge::conn::{
    start_wait_decision, ConnState, MAX_CONNECT_ATTEMPTS, STATUS_CONNECT_FAILED, STATUS_NOT_LIVE,
    STATUS_NOT_STARTED, STATUS_OK, START_WAIT_WINDOW_MS,
};
use starworld_bridge::node::{Color, Dimensions, EntityKind};
use starworld_bridge::session::Session;

fn identity_bits() -> [u32; 16] {
    let one = 1.0f32.to_bits();
    let mut m = [0u32; 16];
    m[0] = one;
    m[5] = one;
    m[10] = one;
    m[15] = one;
    m
}

fn dims(x: f32, y: f32, z: f32) -> Dimensions {
    Dimensions { x: x.to_bits(), y: y.to_bits(), z: z.to_bits() }
}

fn started_session() -> Session {
    let mut s = Session::new();
    assert!(s.start_begin());
    s.note_connect_attempt(true);
    s
}

fn drain_all(s: &mut Session) {
    while s.drain_one() {}
}

#[test]
fn create_ids_strictly_increase() {
    let mut s = started_session();
    let a = s.create_node(String::from("a"), identity_bits());
    let b = s.create_node(String::from("b"), identity_bits());
    let c = s.create_node(String::from("c"), identity_bits());
    assert_eq!(a, 1);
    assert_eq!(b, 2);
    assert_eq!(c, 3);
    assert!(a < b && b < c);
}

#[test]
fn create_ids_never_reused_after_remove() {
    let mut s = started_session();
    let a = s.create_node(String::from("a"), identity_bits());
    let b = s.create_node(String::from("b"), identity_bits());
    drain_all(&mut s);
    assert_eq!(s.remove_node(a), STATUS_OK);
    drain_all(&mut s);
    let c = s.create_node(String::from("c"), identity_bits());
    assert!(c > b);
    assert_eq!(c, 3);
}

#[test]
fn start_is_idempotent() {
    let mut s = Session::new();
    assert!(s.start_begin());
    let first = s.create_node(String::from("a"), identity_bits());
    assert_eq!(first, 1);
    // a second start while active succeeds without resetting the counter
    assert!(!s.start_begin());
    let second = s.create_node(String::from("b"), identity_bits());
    assert_eq!(second, 2);
}

#[test]
fn calls_before_start_are_rejected() {
    let mut s = Session::new();
    assert_eq!(s.create_node(String::from("a"), identity_bits()), 0);
    assert_eq!(s.update_node(1, identity_bits()), STATUS_NOT_STARTED);
    assert_eq!(s.set_node_model(1, String::from("u")), STATUS_NOT_STARTED);
    assert_eq!(s.set_node_texture(1, String::from("u")), STATUS_NOT_STARTED);
    assert_eq!(
        s.set_node_color(1, Color { r: 0, g: 0, b: 0, a: 0 }),
        STATUS_NOT_STARTED
    );
    assert_eq!(s.set_node_dimensions(1, dims(1.0, 1.0, 1.0)), STATUS_NOT_STARTED);
    assert_eq!(s.set_node_entity_type(1, EntityKind::Cube), STATUS_NOT_STARTED);
    assert_eq!(s.remove_node(1), STATUS_NOT_STARTED);
    assert_eq!(s.node_count(), 0);
}

#[test]
fn count_reflects_only_drained_commands() {
    let mut s = started_session();
    s.create_node(String::from("a"), identity_bits());
    s.create_node(String::from("b"), identity_bits());
    assert_eq!(s.node_count(), 0);
    assert!(s.drain_one());
    assert_eq!(s.node_count(), 1);
    assert!(s.drain_one());
    assert_eq!(s.node_count(), 2);
    assert!(!s.drain_one());
}

#[test]
fn create_then_update_in_enqueue_order() {
    let mut s = started_session();
    let id = s.create_node(String::from("a"), identity_bits());
    let mut t = identity_bits();
    t[3] = 2.5f32.to_bits();
    assert_eq!(s.update_node(id, t), STATUS_OK);
    drain_all(&mut s);
    let snap = s.snapshot();
    let items = starworld_bridge::project(&snap);
    assert_eq!(items.len(), 1);
    assert_eq!(items[0].id, id);
    // the update, enqueued after the create, is what the table reflects
    assert_eq!(items[0].transform, t);
}

#[test]
fn remove_then_update_is_accepted_noop() {
    let mut s = started_session();
    let a = s.create_node(String::from("a"), identity_bits());
    let b = s.create_node(String::from("b"), identity_bits());
    drain_all(&mut s);
    assert_eq!(s.node_count(), 2);
    assert_eq!(s.remove_node(a), STATUS_OK);
    drain_all(&mut s);
    // the count decreased by exactly one
    assert_eq!(s.node_count(), 1);
    // a subsequent update of the removed node is accepted but changes nothing
    assert_eq!(s.update_node(a, identity_bits()), STATUS_OK);
    drain_all(&mut s);
    assert_eq!(s.node_count(), 1);
    let snap = s.snapshot();
    let items = starworld_bridge::project(&snap);
    assert_eq!(items.len(), 1);
    assert_eq!(items[0].id, b);
}

#[test]
fn set_commands_apply_to_table() {
    let mut s = started_session();
    let id = s.create_node(String::from("a"), identity_bits());
    assert_eq!(s.set_node_entity_type(id, EntityKind::Sphere), STATUS_OK);
    assert_eq!(s.set_node_model(id, String::from("http://x/m.glb")), STATUS_OK);
    assert_eq!(s.set_node_texture(id, String::from("http://x/t.png")), STATUS_OK);
    let red = Color { r: 1.0f32.to_bits(), g: 0, b: 0, a: 1.0f32.to_bits() };
    assert_eq!(s.set_node_color(id, red), STATUS_OK);
    drain_all(&mut s);
    let snap = s.snapshot();
    let items = starworld_bridge::project(&snap);
    assert_eq!(items.len(), 1);
    assert_eq!(items[0].kind, EntityKind::Sphere);
    assert_eq!(items[0].model_source.as_deref(), Some("http://x/m.glb"));
    assert_eq!(items[0].texture_source.as_deref(), Some("http://x/t.png"));
    assert_eq!(items[0].color, red);
}

#[test]
fn empty_source_clears_reference() {
    let mut s = started_session();
    let id = s.create_node(String::from("a"), identity_bits());
    assert_eq!(s.set_node_model(id, String::from("http://x/m.glb")), STATUS_OK);
    assert_eq!(s.set_node_model(id, String::new()), STATUS_OK);
    drain_all(&mut s);
    let snap = s.snapshot();
    let items = starworld_bridge::project(&snap);
    assert_eq!(items[0].model_source, None);
}

#[test]
fn commands_for_unknown_ids_are_noops() {
    let mut s = started_session();
    assert_eq!(s.update_node(77, identity_bits()), STATUS_OK);
    assert_eq!(s.set_node_color(77, Color { r: 0, g: 0, b: 0, a: 0 }), STATUS_OK);
    assert_eq!(s.remove_node(77), STATUS_OK);
    drain_all(&mut s);
    assert_eq!(s.node_count(), 0);
}

#[test]
fn shutdown_drains_and_stops() {
    let mut s = started_session();
    s.create_node(String::from("a"), identity_bits());
    assert_eq!(s.request_shutdown(), STATUS_OK);
    drain_all(&mut s);
    assert!(s.stop_requested);
    assert_eq!(s.node_count(), 1);
    s.shutdown_finish();
    assert!(!s.active);
    // a fresh start resets the counter
    assert!(s.start_begin());
    assert_eq!(s.create_node(String::from("b"), identity_bits()), 1);
}

#[test]
fn connection_retries_until_failed() {
    let mut s = Session::new();
    assert!(s.start_begin());
    let mut attempts = 0u64;
    loop {
        match s.conn {
            ConnState::Connecting { .. } => {
                s.note_connect_attempt(false);
                attempts += 1;
            }
            _ => break,
        }
    }
    assert_eq!(attempts, MAX_CONNECT_ATTEMPTS);
    assert_eq!(s.conn, ConnState::Failed);
    assert_eq!(start_wait_decision(&s.conn, 0), Some(STATUS_CONNECT_FAILED));
}

#[test]
fn connection_success_reports_ok() {
    let mut s = Session::new();
    assert!(s.start_begin());
    s.note_connect_attempt(false);
    s.note_connect_attempt(true);
    assert_eq!(s.conn, ConnState::Connected);
    assert_eq!(start_wait_decision(&s.conn, 0), Some(STATUS_OK));
    assert_eq!(s.poll(true), STATUS_OK);
    assert_eq!(s.poll(false), STATUS_NOT_LIVE);
}

#[test]
fn start_wait_window_fallback() {
    let conn = ConnState::Connecting { attempts: 3 };
    assert_eq!(start_wait_decision(&conn, 0), None);
    assert_eq!(start_wait_decision(&conn, START_WAIT_WINDOW_MS - 1), None);
    // the deliberate backward-compatibility fallback: success after the window
    assert_eq!(start_wait_decision(&conn, START_WAIT_WINDOW_MS), Some(STATUS_OK));
}

#[test]
fn stop_request_aborts_retry_quietly() {
    let mut s = Session::new();
    assert!(s.start_begin());
    s.request_stop();
    s.note_connect_attempt(false);
    assert_eq!(s.conn, ConnState::Idle);
}
