use tape_git_remote::index::{digest, Index};
use tape_git_remote::publication::Publication;
use tape_git_remote::refs::Refs;
use tape_git_remote::remote_helper::{
    bucket_from_args, capabilities, collect_batch, drain_batch, fetched, list, parse_command,
    unsupported, Command,
};
use tape_git_remote::track::TrackNumber;

fn arguments(words: &[&str]) -> Vec<String> {
    words.iter().map(|word| word.to_string()).collect()
}

// the address is what the url holds after its scheme
#[test]
fn finds_bucket() {
    assert_eq!(bucket_from_args(&arguments(&["git-remote-tape", "origin", "tape://abc//"])),
        Ok("abc".to_string()));
    assert_eq!(bucket_from_args(&arguments(&["git-remote-tape", "tape://abc/d/"])),
        Ok("abc/d".to_string()));
    assert_eq!(
        bucket_from_args(&arguments(&["git-remote-tape"])),
        Err("usage: git-remote-tape <remote> tape://<bucket>".to_string())
    );
    assert_eq!(
        bucket_from_args(&arguments(&["git-remote-tape", "tape://a", "http://b"])),
        Err("`http://b` is not a tape:// url".to_string())
    );
    assert_eq!(
        bucket_from_args(&arguments(&["git-remote-tape", "origin", "tape:///"])),
        Err("tape URL is missing its address".to_string())
    );
}

// every command
#[test]
fn parses_commands() {
    assert!(matches!(parse_command(" \t\r\n"), Command::End));
    assert!(matches!(parse_command("capabilities\n"), Command::Capabilities));
    assert!(matches!(parse_command("list"), Command::List));
    assert!(matches!(parse_command("list for-push \n"), Command::List));
    assert!(matches!(parse_command("option verbosity 1"), Command::Option));
    assert!(matches!(parse_command("fetch abc refs/heads/main"), Command::Fetch));
    let Command::Push(first) = parse_command("push +a:b\n") else { panic!("expected a push") };
    assert_eq!(first, "+a:b");
    for odd in ["option", " list", "list for-pull"] {
        let Command::Unsupported(message) = parse_command(odd) else {
            panic!("expected to be told so")
        };
        assert_eq!(message, format!("unsupported command from git: `{odd}`"));
    }
}

// what the helper can do
#[test]
fn tells_capabilities() {
    assert_eq!(capabilities(), "fetch\npush\noption\n\n");
    assert_eq!(unsupported(), "unsupported\n");
    assert_eq!(fetched(), "\n");
}

// a batch goes on until a blank line
#[test]
fn collects_batches() {
    let mut batch = vec!["a:b".to_string()];
    assert!(collect_batch(&mut batch, "push c:d\n", "push "));
    assert!(collect_batch(&mut batch, "e:f \n", "push "));
    assert!(!collect_batch(&mut batch, " \n", "push "));
    assert_eq!(batch, vec!["a:b", "c:d", "e:f"]);
    assert!(drain_batch("fetch abc main"));
    assert!(!drain_batch("\r\n"));
}

// refs in name order, then HEAD if it points at one of them
#[test]
fn lists_refs() {
    assert_eq!(list(None), "\n");
    let mut index = Index::default();
    assert_eq!(list(Some(&index)), "\n");
    index.refs.insert("refs/tags/v1".to_string(), "222".to_string());
    index.refs.insert("refs/heads/main".to_string(), "111".to_string());
    index.head = Some("refs/heads/gone".to_string());
    assert_eq!(list(Some(&index)), "111 refs/heads/main\n222 refs/tags/v1\n\n");
    index.head = Some("refs/heads/main".to_string());
    assert_eq!(
        list(Some(&index)),
        "111 refs/heads/main\n222 refs/tags/v1\n@refs/heads/main HEAD\n\n"
    );
}

fn branches() -> Refs {
    let mut refs = Refs::new();
    refs.insert("refs/heads/main".to_string(), "111".to_string());
    refs
}

// a repository that fits is published with its packs as streams
#[test]
fn publishes_repositories() {
    let head = "refs/heads/main".to_string();
    let publication =
        Publication::prepare(head, branches(), vec![3, 4], 8).expect("a publication");
    assert_eq!(publication.commit(), "111");
    assert_eq!(publication.bytes(), 7);
    assert_eq!(publication.encoded(), None);

    // the index comes after every pack, and there are no more packs than were announced
    let publication = publication.stored(b"abc", TrackNumber(2));
    assert_eq!(publication.encoded(), None);
    let publication = publication.stored(b"abcd", TrackNumber(5)).stored(b"e", TrackNumber(6));
    assert_eq!(publication.head(), "refs/heads/main");
    let encoded = publication.encoded().expect("every pack is stored");
    let index = Index::decode(&encoded).expect("an index");
    assert_eq!(index.head.as_deref(), Some("refs/heads/main"));
    assert_eq!(index.packs.len(), 2);
    assert_eq!(index.packs[1].track, 5);
    assert_eq!(index.packs[1].size, 4);
    assert_eq!(index.packs[0].digest, digest(b"abc"));
    assert!(index.packs[0].stream && index.packs[0].matches(b"abc"));
}

// why a repository is not published
#[test]
fn unpublishable_repositories() {
    let prepare = |head: &str, sizes: &[u64], capacity| {
        Publication::prepare(head.to_string(), branches(), sizes.to_vec(), capacity).map(|_| ())
    };
    assert_eq!(
        prepare("refs/heads/x", &[u64::MAX, 1], 0),
        Err("HEAD does not name a local branch".to_string())
    );
    assert_eq!(
        prepare("refs/heads/main", &[u64::MAX, 1, 2], 9),
        Err("repository size overflow".to_string())
    );
    assert_eq!(
        prepare("refs/heads/main", &[4, 5], 9),
        Err("Git packs require 9 bytes but the tape has 9 bytes".to_string())
    );
    assert_eq!(prepare("refs/heads/main", &[], 1), Ok(()));
}
