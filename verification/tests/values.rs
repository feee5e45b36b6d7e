use nexus_store::snapshot::{PendingSnapshot, PersistedSnapshot};
use nexus_store::state::{PendingState, PersistedState, State};
use nexus_store::version::{SchemaVersion, Version};

fn v(n: u64) -> Version {
    Version::new(n).expect("nonzero")
}

fn sv(n: u32) -> SchemaVersion {
    SchemaVersion::from_u32(n).expect("nonzero")
}

#[test]
fn snapshots_keep_version_schema_and_payload() {
    let p = PendingSnapshot::new(v(7), sv(2), b"state".to_vec());
    assert_eq!(p.version(), v(7));
    assert_eq!(p.schema_version().get(), 2);
    assert_eq!(p.payload(), b"state");
    let q = PersistedSnapshot::new(v(9), sv(1), Vec::new());
    assert_eq!(q.version(), v(9));
    assert_eq!(q.schema_version().get(), 1);
    assert!(q.payload().is_empty());
}

#[test]
fn typed_states_come_apart_into_their_parts() {
    let p = PendingState::new(v(3), sv(4), "balance: 10".to_string());
    assert_eq!(p.version(), v(3));
    assert_eq!(p.schema_version().get(), 4);
    assert_eq!(p.state(), "balance: 10");
    let (ver, schema, state) = p.into_parts();
    assert_eq!((ver, schema.get(), state.as_str()), (v(3), 4, "balance: 10"));
    let q = PersistedState::new(v(5), sv(1), vec![1u8, 2]);
    assert_eq!(q.state(), &vec![1u8, 2]);
    assert_eq!(q.into_parts().2, vec![1u8, 2]);
    let s = State::new(v(1), sv(1), 42u64);
    assert_eq!(*s.state(), 42);
    assert_eq!(s.into_parts(), (v(1), sv(1), 42));
}
