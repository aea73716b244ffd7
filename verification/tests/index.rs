use tape_crypto::hash::hash;
use tape_git_remote::encoding::DecodeError;
use tape_git_remote::index::{digest, Index, PackEntry, INDEX_CONTENT_TYPE, INDEX_NAME};

const INLINE_LIMIT: usize = 825;

fn entry(track: u64, bytes: &[u8]) -> PackEntry {
    PackEntry { track, size: bytes.len() as u64, digest: digest(bytes), stream: false }
}

fn tracks(index: &Index) -> Vec<u64> {
    index.packs.iter().map(|pack| pack.track).collect()
}

// a digest matches the bytes it was made from and nothing else
#[test]
fn digest_matching() {
    let pack = entry(1, b"pack contents");

    assert!(pack.matches(b"pack contents"));
    assert!(!pack.matches(b"pack contentt"));
}

// a full-length digest from an older writer still verifies
#[test]
fn legacy_digest() {
    let mut pack = entry(1, b"pack contents");
    pack.digest = hex::encode(hash(b"pack contents").to_bytes());

    assert!(pack.matches(b"pack contents"));
    assert!(!pack.matches(b"something else"));
}

// the older field name still deserializes
#[test]
fn sha256_alias() {
    let json = br#"{"version":1,"packs":[{"track":3,"size":9,"sha256":"abcdef"}]}"#;

    let index = Index::decode(json).expect("index should decode");

    assert_eq!(index.packs[0].digest, "abcdef");
}

// a round trip preserves refs, head and packs
#[test]
fn round_trip() {
    let mut index = Index {
        head: Some("refs/heads/main".to_string()),
        ..Default::default()
    };
    index.refs.insert("refs/heads/main".to_string(), "a".repeat(40));
    index.packs.push(entry(7, b"pack"));

    let decoded = Index::decode(&index.encode().expect("encode")).expect("decode");

    assert_eq!(decoded.head.as_deref(), Some("refs/heads/main"));
    assert_eq!(decoded.refs.len(), 1);
    assert_eq!(decoded.packs[0].track, 7);
}

// absorbing another version keeps both pack sets, ordered, without duplicates
#[test]
fn absorb_packs() {
    let mut ours = Index::default();
    ours.packs.push(entry(4, b"ours"));
    let mut theirs = Index::default();
    theirs.packs.push(entry(2, b"theirs"));
    theirs.packs.push(entry(4, b"ours"));

    ours.absorb_packs(&theirs);

    let mut tracks = Vec::new();
    for pack in &ours.packs {
        tracks.push(pack.track);
    }
    assert_eq!(tracks, vec![2, 4]);
}

// a handful of refs and packs still fits inside one inline write
#[test]
fn stays_inline() {
    let mut index = Index {
        head: Some("refs/heads/main".to_string()),
        ..Default::default()
    };
    for name in ["main", "develop", "release", "feature-one", "feature-two"] {
        index.refs.insert(format!("refs/heads/{name}"), "a".repeat(40));
    }
    for track in 0..5 {
        index.packs.push(entry(track, b"pack"));
    }

    let encoded = index.encode().expect("encode");

    assert!(
        encoded.len() < INLINE_LIMIT,
        "index grew to {} bytes",
        encoded.len()
    );
}

// the digest is the first half of the sha256
#[test]
fn digest_values() {
    assert_eq!(digest(b""), "e3b0c44298fc1c149afbf4c8996fb924");
    assert_eq!(digest(b"abc"), "ba7816bf8f01cfea414140de5dae2223");
}

// a digest is compared as far as it goes, whatever it holds
#[test]
fn digest_widths() {
    let mut pack = entry(1, b"abc");
    pack.digest = "ba78".to_string();
    assert!(pack.matches(b"abc"));
    assert!(!pack.matches(b""));

    pack.digest = String::new();
    assert!(pack.matches(b"anything"));

    pack.digest = "\u{e9}".to_string();
    assert!(!pack.matches(b"abc"));

    pack.digest = format!("{}\u{e9}", hex::encode(hash(b"abc").to_bytes()));
    assert!(pack.matches(b"abc"));
}

// the name and type of the object the index is stored as
#[test]
fn stored_as() {
    assert_eq!(INDEX_NAME, "git/refs.json");
    assert_eq!(INDEX_CONTENT_TYPE, "application/json");
}

// the encoding, to the byte
#[test]
fn encoded_bytes() {
    let empty = Index::default();
    assert_eq!(
        empty.encode().expect("encode"),
        br#"{"version":1,"refs":{},"packs":[]}"#.to_vec()
    );

    let mut index = Index::default();
    index.head = Some("refs/heads/main".to_string());
    index.refs.insert("refs/tags/v1".to_string(), "b2".to_string());
    index.refs.insert("refs/heads/main".to_string(), "a1".to_string());
    index.packs.push(PackEntry {
        track: 7,
        size: 12,
        digest: "beef".to_string(),
        stream: false,
    });
    index.packs.push(PackEntry {
        track: 9,
        size: u64::MAX,
        digest: "\"\n".to_string(),
        stream: true,
    });
    index.parent = Some(3);
    let expected = concat_lines(&[
        r#"{"version":1,"head":"refs/heads/main","#,
        r#""refs":{"refs/heads/main":"a1","refs/tags/v1":"b2"},"#,
        r#""packs":[{"track":7,"size":12,"digest":"beef"},"#,
        r#"{"track":9,"size":18446744073709551615,"digest":"\"\n","stream":true}],"#,
        r#""parent":3}"#,
    ]);
    assert_eq!(String::from_utf8(index.encode().expect("encode")).expect("text"), expected);

    let decoded = Index::decode(expected.as_bytes()).expect("decode");
    assert_eq!(decoded.version, 1);
    assert_eq!(decoded.head.as_deref(), Some("refs/heads/main"));
    assert_eq!(decoded.refs.get("refs/tags/v1").map(String::as_str), Some("b2"));
    assert_eq!(decoded.packs[1].digest, "\"\n");
    assert!(decoded.packs[1].stream);
    assert_eq!(decoded.parent, Some(3));
}

fn concat_lines(lines: &[&str]) -> String {
    lines.concat()
}

// what may be left out, and what is passed over
#[test]
fn lenient_decoding() {
    let index = Index::decode(br#" {"version":2,"head":null,"later":[1,{}],"refs":{}} "#)
        .expect("index should decode");
    assert_eq!(index.version, 2);
    assert!(index.head.is_none());
    assert!(index.packs.is_empty());
    assert!(index.parent.is_none());

    let positional = Index::decode(br#"[1,"refs/heads/x",{"refs/heads/x":"a"},[[4,5,"d"]],6]"#)
        .expect("fields may come by position");
    assert_eq!(positional.head.as_deref(), Some("refs/heads/x"));
    assert_eq!(positional.refs.get("refs/heads/x").map(String::as_str), Some("a"));
    assert_eq!(positional.packs[0].track, 4);
    assert_eq!(positional.packs[0].digest, "d");
    assert_eq!(positional.parent, Some(6));
}

// of two members of one name the last one counts
#[test]
fn repeated_members() {
    let index = Index::decode(br#"{"version":1,"version":2}"#).expect("index should decode");
    assert_eq!(index.version, 2);
}

// what is not JSON, and what is JSON but not an index
#[test]
fn undecodable() {
    assert!(matches!(Index::decode(b""), Err(DecodeError::NotJson(_))));
    assert!(matches!(Index::decode(b"{\"version\":1"), Err(DecodeError::NotJson(_))));
    assert!(matches!(Index::decode(b"{}"), Err(DecodeError::NotAnIndex)));
    assert!(matches!(Index::decode(b"7"), Err(DecodeError::NotAnIndex)));
    assert!(matches!(Index::decode(br#"{"version":-1}"#), Err(DecodeError::NotAnIndex)));
    assert!(matches!(
        Index::decode(br#"{"version":1,"refs":{"a":1}}"#),
        Err(DecodeError::NotAnIndex)
    ));
    assert!(matches!(
        Index::decode(br#"{"version":1,"packs":[{"track":1,"size":2}]}"#),
        Err(DecodeError::NotAnIndex)
    ));
}

// tips are the object ids, in refname order
#[test]
fn tips_in_order() {
    let mut index = Index::default();
    index.refs.insert("refs/heads/b".to_string(), "2".to_string());
    index.refs.insert("refs/heads/a".to_string(), "1".to_string());
    index.refs.insert("refs/heads/b".to_string(), "3".to_string());

    assert_eq!(index.tips(), vec!["1".to_string(), "3".to_string()]);
}

// packs are found by track, and a copy is independent
#[test]
fn finds_packs() {
    let mut index = Index::default();
    index.packs.push(entry(4, b"pack"));
    let copy = index.clone();
    index.packs.clear();

    assert!(copy.has_pack(4));
    assert!(!copy.has_pack(5));
    assert!(!index.has_pack(4));
}

// absorbing twice changes nothing more, and entries of one track keep their order
#[test]
fn absorbing_again() {
    let mut ours = Index::default();
    ours.packs.push(entry(9, b"nine"));
    ours.packs.push(entry(3, b"three"));
    ours.packs.push(entry(3, b"three again"));
    let mut theirs = Index::default();
    theirs.packs.push(entry(5, b"five"));
    theirs.packs.push(entry(3, b"other three"));

    ours.absorb_packs(&theirs);
    assert_eq!(tracks(&ours), vec![3, 3, 5, 9]);
    assert!(ours.packs[0].matches(b"three"));
    assert!(ours.packs[1].matches(b"three again"));

    ours.absorb_packs(&theirs);
    assert_eq!(tracks(&ours), vec![3, 3, 5, 9]);
}

// refs behave as a map that is walked in name order
#[test]
fn refs_in_order() {
    let mut index = Index::default();
    for name in ["c", "a", "b", "a"] {
        index.refs.insert(name.to_string(), format!("id of {name}"));
    }
    index.refs.remove("b");
    index.refs.remove("nothing");

    assert_eq!(index.refs.len(), 2);
    assert_eq!(index.refs.name_at(0), "a");
    assert_eq!(index.refs.id_at(1), "id of c");
    assert!(index.refs.contains_key("a"));
    assert!(!index.refs.contains_key("b"));
}
