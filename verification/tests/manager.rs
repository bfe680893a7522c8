use sdboot::error::Error;
use sdboot::manager::Manager;
use sdboot::memstore::MemStore;
use sdboot::store::{entry_flags, VarId, VarStore, SYSTEMD_BOOT_VENDOR};
use sdboot::units::U16ArrayExt;
use sdboot::write::write_utf16_string;

fn oneshot_id() -> VarId {
    VarId::new("LoaderEntryOneShot", SYSTEMD_BOOT_VENDOR)
}

fn entries_id() -> VarId {
    VarId::new("LoaderEntries", SYSTEMD_BOOT_VENDOR)
}

fn units_to_bytes(units: &[u16]) -> Vec<u8> {
    units.to_vec().as_u8()
}

#[test]
fn oneshot_end_to_end() {
    let mut store = MemStore::new();
    let id = oneshot_id();

    // Before anything is stored the oneshot entry is explicitly absent.
    let manager = Manager::new(store);
    assert!(manager.get_oneshot().unwrap().is_none());

    // Setting the entry stores the UTF-16LE bytes of "windows" plus two
    // trailing zero bytes, under the fixed attribute combination.
    store = MemStore::new();
    write_utf16_string(&mut store, &id, entry_flags(), "windows").unwrap();
    let mut buf = vec![0u8; 64];
    let (len, attrs) = store.read(&id, &mut buf).unwrap();
    assert_eq!(attrs, 0x1 | 0x2 | 0x4);
    assert_eq!(
        &buf[..len],
        &[0x77, 0, 0x69, 0, 0x6e, 0, 0x64, 0, 0x6f, 0, 0x77, 0, 0x73, 0, 0, 0]
    );

    // Reading it back through the manager yields the text again.
    let mut manager = Manager::new(store);
    assert_eq!(manager.get_oneshot().unwrap(), Some("windows".to_string()));

    // Removing it restores the absent state; removing again still succeeds.
    manager.remove_oneshot().unwrap();
    assert!(manager.get_oneshot().unwrap().is_none());
    manager.remove_oneshot().unwrap();
}

#[test]
fn oneshot_attribute_mismatch() {
    let mut store = MemStore::new();
    let payload = units_to_bytes(&[0x77, 0]);
    store.write(&oneshot_id(), 0x1 | 0x2, &payload).unwrap();
    let manager = Manager::new(store);
    match manager.get_oneshot() {
        Err(Error::AttributeMismatch { actual, expected }) => {
            assert_eq!(actual, 0x1 | 0x2);
            assert_eq!(expected, 0x1 | 0x2 | 0x4);
        }
        other => panic!("expected an attribute mismatch, got {:?}", other),
    }
}

#[test]
fn set_and_get_default_and_selected() {
    let store = MemStore::new();
    let mut manager = Manager::new(store);
    assert!(manager.get_default_entry().unwrap().is_none());
    assert!(manager.get_selected_entry().unwrap().is_none());
    manager.set_default("linux").unwrap();
    assert_eq!(manager.get_default_entry().unwrap(), Some("linux".to_string()));
    assert!(manager.get_selected_entry().unwrap().is_none());
}

#[test]
fn set_oneshot_then_get() {
    let store = MemStore::new();
    let mut manager = Manager::new(store);
    manager.set_oneshot("windows").unwrap();
    assert_eq!(manager.get_oneshot().unwrap(), Some("windows".to_string()));
}

fn push_str_units(units: &mut Vec<u16>, text: &str) {
    for u in text.encode_utf16() {
        units.push(u);
    }
}

#[test]
fn entries_in_order() {
    let mut units: Vec<u16> = Vec::new();
    push_str_units(&mut units, "alpha");
    units.push(0);
    push_str_units(&mut units, "beta");
    units.push(0);
    push_str_units(&mut units, "gamma");
    units.push(0);
    units.push(0);
    let payload = units_to_bytes(&units);

    let mut store = MemStore::new();
    store.write(&entries_id(), entry_flags(), &payload).unwrap();
    let manager = Manager::new(store);
    assert_eq!(
        manager.entries().unwrap(),
        vec!["alpha".to_string(), "beta".to_string(), "gamma".to_string()]
    );
}

#[test]
fn entries_skip_invalid_segment() {
    let mut units: Vec<u16> = Vec::new();
    push_str_units(&mut units, "alpha");
    units.push(0);
    units.push(0xD800); // an unpaired surrogate: not valid UTF-16
    units.push(0);
    push_str_units(&mut units, "gamma");
    units.push(0);
    units.push(0);
    let payload = units_to_bytes(&units);

    let mut store = MemStore::new();
    store.write(&entries_id(), entry_flags(), &payload).unwrap();
    let manager = Manager::new(store);
    assert_eq!(
        manager.entries().unwrap(),
        vec!["alpha".to_string(), "gamma".to_string()]
    );
}

#[test]
fn entries_stop_at_empty_segment() {
    let mut units: Vec<u16> = Vec::new();
    push_str_units(&mut units, "alpha");
    units.push(0);
    units.push(0); // the empty segment ends the scan
    push_str_units(&mut units, "beta");
    units.push(0);
    let payload = units_to_bytes(&units);

    let mut store = MemStore::new();
    store.write(&entries_id(), entry_flags(), &payload).unwrap();
    let manager = Manager::new(store);
    assert_eq!(manager.entries().unwrap(), vec!["alpha".to_string()]);
}

#[test]
fn entries_missing_is_an_error() {
    let manager = Manager::new(MemStore::new());
    match manager.entries() {
        Err(Error::NotSet { name }) => assert_eq!(name, "LoaderEntries"),
        other => panic!("expected a not-set error, got {:?}", other),
    }
}

#[test]
fn reader_grows_past_initial_buffer() {
    // 3000 bytes do not fit the initial 1024-byte buffer, so the reader
    // must double its buffer and still return the full payload.
    let payload: Vec<u8> = (0..3000u32).map(|i| (i % 251) as u8).collect();
    let mut store = MemStore::new();
    let id = oneshot_id();
    store.write(&id, entry_flags(), &payload).unwrap();
    let (units, attrs) = sdboot::read::read_u16_bytes(&store, &id).unwrap().unwrap();
    assert_eq!(attrs, entry_flags());
    assert_eq!(units.len(), 1500);
    assert_eq!(units.to_vec().as_u8(), payload);
}

#[test]
fn reader_pads_odd_payload() {
    let payload = vec![0x61u8, 0, 0x62];
    let mut store = MemStore::new();
    let id = oneshot_id();
    store.write(&id, entry_flags(), &payload).unwrap();
    let (units, _attrs) = sdboot::read::read_u16_bytes(&store, &id).unwrap().unwrap();
    assert_eq!(units, vec![0x61, 0x62]);
}

#[test]
fn reader_rejects_payload_beyond_ceiling() {
    let payload = vec![0x41u8; 8 * 1024 * 1024 + 2];
    let mut store = MemStore::new();
    let id = oneshot_id();
    store.write(&id, entry_flags(), &payload).unwrap();
    match sdboot::read::read_u16_bytes(&store, &id) {
        Err(Error::SizeExceeded { name, attempted_bytes }) => {
            assert_eq!(name, "LoaderEntryOneShot");
            assert_eq!(attempted_bytes, 8 * 1024 * 1024);
        }
        other => panic!("expected a size error, got {:?}", other),
    }
}

#[test]
fn reader_reports_absent_variable() {
    let store = MemStore::new();
    let r = sdboot::read::read_u16_bytes(&store, &oneshot_id()).unwrap();
    assert!(r.is_none());
}

#[test]
fn invalid_payload_is_a_decode_error() {
    // The units 0x61, 0xD800 leave a high surrogate without its mate.
    let payload = units_to_bytes(&[0x61, 0xD800]);
    let mut store = MemStore::new();
    store
        .write(&VarId::new("LoaderEntryDefault", SYSTEMD_BOOT_VENDOR), entry_flags(), &payload)
        .unwrap();
    let manager = Manager::new(store);
    match manager.get_default_entry() {
        Err(Error::Decode { name, lossy }) => {
            assert_eq!(name, "LoaderEntryDefault");
            assert_eq!(lossy, "a\u{FFFD}");
        }
        other => panic!("expected a decode error, got {:?}", other),
    }
}

#[test]
fn set_oneshot_overwrites_previous_value() {
    let mut manager = Manager::new(MemStore::new());
    manager.set_oneshot("windows").unwrap();
    manager.set_oneshot("linux").unwrap();
    assert_eq!(manager.get_oneshot().unwrap(), Some("linux".to_string()));
}
