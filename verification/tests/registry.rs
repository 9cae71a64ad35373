//! Tests of the process registry: identity, id issuance, signal routing.

use handle_bridge::env::Environment;
use handle_bridge::process::{ProcessHandle, Signal};

#[test]
fn environment_identity() {
    let env = Environment::new(42);
    assert_eq!(env.id(), 42);
    let local = Environment::local();
    assert_eq!(local.id(), 1);
}

#[test]
fn process_ids_are_distinct_and_monotonic() {
    let mut env = Environment::new(1);
    let a = env.get_next_process_id();
    let b = env.get_next_process_id();
    let c = env.get_next_process_id();
    assert!(a < b && b < c);
    assert_eq!((a, b, c), (1, 2, 3));
}

#[test]
fn send_to_absent_id_is_silent() {
    let env = Environment::new(1);
    // No handle is registered: the signal is dropped without error.
    assert!(env.send(17, Signal { payload: 5 }).is_none());
    assert!(env.get_process(17).is_none());
}

#[test]
fn register_send_retire_lifecycle() {
    let mut env = Environment::new(1);
    let id = env.get_next_process_id();
    let handle = ProcessHandle::Local { process_id: id };
    env.add_process(id, handle);
    assert_eq!(env.get_process(id), Some(handle));
    let delivery = env.send(id, Signal { payload: 99 }).unwrap();
    assert_eq!(delivery.handle, handle);
    assert_eq!(delivery.signal.payload, 99);
    // Retiring the id makes it behave as absent forever.
    assert_eq!(env.remove_process(id), Some(handle));
    assert!(env.get_process(id).is_none());
    assert!(env.send(id, Signal { payload: 1 }).is_none());
    assert!(env.remove_process(id).is_none());
    // A later process gets a fresh id, never the retired one.
    let next = env.get_next_process_id();
    assert_ne!(next, id);
}

#[test]
fn remote_handles_route_like_local_ones() {
    let mut env = Environment::new(3);
    let id = env.get_next_process_id();
    let handle = ProcessHandle::Remote { node_id: 9, process_id: id };
    env.add_process(id, handle);
    assert_eq!(handle.process_id(), id);
    let delivery = env.send(id, Signal { payload: 7 }).unwrap();
    assert_eq!(delivery.handle, handle);
}
