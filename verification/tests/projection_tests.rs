use starworld_bridge::conn::{start_wait_decision, ConnState, STATUS_OK};
use starworld_bridge::node::Dimensions;
use starworld_bridge::project;
use starworld_bridge::session::Session;
use starworld_bridge::is_near_zero;

fn identity_bits() -> [u32; 16] {
    let one = 1.0f32.to_bits();
    let mut m = [0u32; 16];
    m[0] = one;
    m[5] = one;
    m[10] = one;
    m[15] = one;
    m
}

fn dims(x: f32, y: f32, z: f32) -> Dimensions {
    Dimensions { x: x.to_bits(), y: y.to_bits(), z: z.to_bits() }
}

#[test]
fn near_zero_on_bit_patterns() {
    assert!(is_near_zero(0.0f32.to_bits()));
    assert!(is_near_zero((-0.0f32).to_bits()));
    assert!(is_near_zero(1e-6f32.to_bits()));
    assert!(!is_near_zero(0.001f32.to_bits()));
    assert!(!is_near_zero(0.1f32.to_bits()));
    assert!(!is_near_zero(1.0f32.to_bits()));
    assert!(!is_near_zero((-1.0f32).to_bits()));
}

#[test]
fn end_to_end_projection_scenario() {
    // bring-up against a reachable compositor: first attempt connects,
    // and the caller-facing wait reports success within the window
    let mut s = Session::new();
    assert!(s.start_begin());
    s.note_connect_attempt(true);
    assert_eq!(s.conn, ConnState::Connected);
    assert_eq!(start_wait_decision(&s.conn, 100), Some(STATUS_OK));

    // first created node gets identifier 1
    let id = s.create_node(String::from("box"), identity_bits());
    assert_eq!(id, 1);
    while s.drain_one() {}
    let items = project(&s.snapshot());
    assert_eq!(items.len(), 1);

    // zero dimensions mark the node non-visual: the projection is empty
    assert_eq!(s.set_node_dimensions(id, dims(0.0, 0.0, 0.0)), STATUS_OK);
    while s.drain_one() {}
    let items = project(&s.snapshot());
    assert_eq!(items.len(), 0);
    // the node itself is still in the table
    assert_eq!(s.node_count(), 1);

    // restoring meaningful dimensions makes it reappear under the same key
    assert_eq!(s.set_node_dimensions(id, dims(0.1, 0.1, 0.1)), STATUS_OK);
    while s.drain_one() {}
    let items = project(&s.snapshot());
    assert_eq!(items.len(), 1);
    assert_eq!(items[0].id, id);
    assert_eq!(items[0].dims, dims(0.1, 0.1, 0.1));
}

#[test]
fn projection_keeps_order_and_keys() {
    let mut s = Session::new();
    assert!(s.start_begin());
    s.note_connect_attempt(true);
    let a = s.create_node(String::from("a"), identity_bits());
    let b = s.create_node(String::from("b"), identity_bits());
    let c = s.create_node(String::from("c"), identity_bits());
    while s.drain_one() {}
    // hide the middle node
    assert_eq!(s.set_node_dimensions(b, dims(0.0, 0.0, 0.0)), STATUS_OK);
    while s.drain_one() {}
    let items = project(&s.snapshot());
    let ids: Vec<u64> = items.iter().map(|it| it.id).collect();
    assert_eq!(ids, vec![a, c]);
}

#[test]
fn fresh_nodes_carry_defaults() {
    let mut s = Session::new();
    assert!(s.start_begin());
    s.note_connect_attempt(true);
    let id = s.create_node(String::from("a"), identity_bits());
    while s.drain_one() {}
    let items = project(&s.snapshot());
    assert_eq!(items.len(), 1);
    let it = &items[0];
    assert_eq!(it.id, id);
    // opaque white color and the small default cube
    let one = 1.0f32.to_bits();
    assert_eq!((it.color.r, it.color.g, it.color.b, it.color.a), (one, one, one, one));
    assert_eq!(it.dims, dims(0.1, 0.1, 0.1));
    assert_eq!(it.model_source, None);
    assert_eq!(it.texture_source, None);
    assert_eq!(it.transform, identity_bits());
}
