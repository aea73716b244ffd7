use tape_api::program::tapedrive::track_pda;
use tape_crypto::prelude::Address;
use tape_git_remote::index::Index;
use tape_git_remote::store::{
    decode_index, gateway_url, index_not_written, is_account_propagation_category, payer_source,
    rpc_url, KeyFile, KeySource, Store,
};
use tape_git_remote::track::TrackNumber;

const ZERO: &str = "11111111111111111111111111111111";

fn store() -> Store {
    Store::open(ZERO).expect("a tape address")
}

fn pushable() -> Store {
    let mut store = store();
    store.found_payer(&payer_source(None), &KeyFile::Loaded(())).expect("a payer");
    let source = store.cassette_source(None);
    store.found_cassette(&source, &KeyFile::Loaded([0; 32])).expect("a cassette");
    store
}

#[test]
fn propagation_retry() {
    assert!(is_account_propagation_category("not_found"));
    assert!(!is_account_propagation_category("rpc_error"));
    assert!(!is_account_propagation_category("timeout"));
    assert!(!is_account_propagation_category("tx_error"));
}

// an address is parsed, and anything else is turned down
#[test]
fn opens_addresses() {
    assert_eq!(store().bucket(), &[0; 32]);

    let address = Address::new([7; 32]).to_string();
    let store = Store::open(&address).expect("a tape address");
    assert_eq!(store.bucket(), &[7; 32]);
    assert_eq!(store.installed_key(12), format!("{address}:12"));

    assert_eq!(
        Store::open("nonsense").expect_err("not an address"),
        "`nonsense` is not a tape address"
    );
    assert!(Store::open("").is_err());
}

// packs of different tapes or tracks never share an identity
#[test]
fn pack_identities() {
    assert_eq!(store().installed_key(0), format!("{ZERO}:0"));
    assert_eq!(store().installed_key(u64::MAX), format!("{ZERO}:18446744073709551615"));
    let other = Store::open(&Address::new([7; 32]).to_string()).expect("a tape address");
    assert_ne!(store().installed_key(5), other.installed_key(5));
    assert_ne!(store().installed_key(5), store().installed_key(51));
}

// a track's address is derived from the tape and the number
#[test]
fn track_addresses() {
    let expected = track_pda(Address::new([0; 32]), tape_core::types::TrackNumber(7)).0;
    assert_eq!(store().track_address(TrackNumber(7)), expected.to_bytes());
    assert_ne!(store().track_address(TrackNumber(8)), expected.to_bytes());
}

// the endpoints to use
#[test]
fn configured_urls() {
    assert_eq!(rpc_url(None), "https://api.devnet.solana.com");
    assert_eq!(rpc_url(Some("http://localhost".to_string())), "http://localhost");
    assert_eq!(gateway_url(None), None);
    assert_eq!(gateway_url(Some("  \t".to_string())), None);
    assert_eq!(gateway_url(Some(" http://g \n".to_string())).as_deref(), Some("http://g"));
}

// where keys are looked for
#[test]
fn key_sources() {
    let KeySource::Home(path) = payer_source(None) else { panic!("expected a home path") };
    assert_eq!(path, ".config/solana/id.json");
    let KeySource::Configured(path) = payer_source(Some("/k".to_string())) else {
        panic!("expected a configured path")
    };
    assert_eq!(path, "/k");
    let KeySource::Home(path) = store().cassette_source(None) else {
        panic!("expected a home path")
    };
    assert_eq!(path, format!(".tape/cassettes/{ZERO}.json"));
    let KeySource::Configured(path) = store().cassette_source(Some("/c".to_string())) else {
        panic!("expected a configured path")
    };
    assert_eq!(path, "/c");
}

// without a payer or the tape's key the remote is read-only, and says why
#[test]
fn read_only_diagnoses() {
    let mut store = store();
    let payer = "pushing needs a fee payer: set TAPE_KEYPAIR or create \
                 ~/.config/solana/id.json (cloning this remote needs neither)";
    assert_eq!(store.writable(), Err(payer.to_string()));

    store.found_payer(&payer_source(None), &KeyFile::Loaded(())).expect("a payer");
    let cassette = format!(
        "no tape keypair for {ZERO}: set TAPE_CASSETTE or place it at \
         ~/.tape/cassettes/{ZERO}.json to push"
    );
    assert_eq!(store.writable(), Err(cassette));

    let source = store.cassette_source(None);
    store.found_cassette(&source, &KeyFile::Loaded([0; 32])).expect("a cassette");
    assert_eq!(store.writable(), Ok(()));
}

// a payer that may be missing may be unreadable too, a configured one may be neither
#[test]
fn payer_files() {
    let broken = KeyFile::Unreadable("/k".to_string(), "not a keypair".to_string());
    let configured = payer_source(Some("/k".to_string()));
    let mut store = store();
    assert_eq!(store.found_payer(&payer_source(None), &broken), Ok(()));
    assert_eq!(store.found_payer(&payer_source(None), &KeyFile::Absent), Ok(()));
    assert!(store.writable().is_err());
    assert_eq!(
        store.found_payer(&configured, &broken),
        Err("payer keypair /k: not a keypair".to_string())
    );
    assert_eq!(
        store.found_payer(&configured, &KeyFile::Absent),
        Err("payer keypair /k: no such file".to_string())
    );
    assert_eq!(store.found_payer(&configured, &KeyFile::Loaded(())), Ok(()));
    assert!(store.writable().expect_err("no cassette").starts_with("no tape keypair"));
}

// a cassette has to be readable and be that of this tape, and a configured one be there
#[test]
fn cassette_files() {
    let broken = KeyFile::Unreadable("/h/c".to_string(), "not a keypair".to_string());
    let mut store = store();
    let home = store.cassette_source(None);
    let configured = store.cassette_source(Some("/c".to_string()));
    assert_eq!(store.found_cassette(&home, &KeyFile::Absent), Ok(()));
    assert_eq!(
        store.found_cassette(&home, &broken),
        Err("tape keypair /h/c: not a keypair".to_string())
    );
    assert_eq!(
        store.found_cassette(&configured, &broken),
        Err("tape keypair /c: not a keypair".to_string())
    );
    assert_eq!(
        store.found_cassette(&configured, &KeyFile::Absent),
        Err("tape keypair /c: no such file".to_string())
    );
    let other = Address::new([7; 32]).to_string();
    assert_eq!(
        store.found_cassette(&home, &KeyFile::Loaded([7; 32])),
        Err(format!("tape keypair controls {other} but the remote is {ZERO}"))
    );
}

// a stored pack is recorded so that it can be checked
#[test]
fn records_packs() {
    let entry = pushable().write_pack(b"abc", Ok(TrackNumber(9))).expect("an entry");
    assert_eq!(entry.track, 9);
    assert_eq!(entry.size, 3);
    assert_eq!(entry.digest, "ba7816bf8f01cfea414140de5dae2223");
    assert!(!entry.stream);
    assert!(entry.matches(b"abc"));

    assert_eq!(
        pushable().write_pack(b"abc", Err("no space".to_string())).expect_err("no entry"),
        "write pack (3 bytes): no space"
    );
    assert!(store().write_pack(b"abc", Ok(TrackNumber(9))).is_err());
}

// what is written as the index is read back as it
#[test]
fn writes_indexes() {
    let mut index = Index::default();
    index.refs.insert("refs/heads/x".to_string(), "a".to_string());
    index.parent = Some(4);

    let write = pushable().write_index(&index).expect("a write");
    assert_eq!(write.name, "git/refs.json");
    assert_eq!(write.content_type, "application/json");
    let read = decode_index(&write.bytes).expect("an index");
    assert_eq!(read.refs.get("refs/heads/x").map(String::as_str), Some("a"));
    assert_eq!(read.parent, Some(4));

    assert!(store().write_index(&index).is_err());
    assert_eq!(index_not_written("timeout"), "write ref index: timeout");
}

// what is said of bytes that hold no index
#[test]
fn undecodable_indexes() {
    assert_eq!(
        decode_index(b"{").expect_err("no index"),
        "decode ref index: EOF while parsing an object at line 1 column 1"
    );
    assert_eq!(decode_index(b"{}").expect_err("no index"), "decode ref index: not a ref index");
}
