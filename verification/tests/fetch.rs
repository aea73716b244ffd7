use tape_git_remote::fetch::{
    install_process, installed_path, load_installed, save_installed, Fetch, FetchAction,
    Installed,
};
use tape_git_remote::git::{
    git_dir_arguments, head_arguments, rev_parse_arguments, GitOutput, Repository,
};
use tape_git_remote::index::{digest, Index, PackEntry};
use tape_git_remote::packing::{
    plan_pack, stored_notice, worth_storing, Errand, PackPlan, Preparation,
};
use tape_git_remote::push::Decision;
use tape_git_remote::publish::Action;
use tape_git_remote::store::{payer_source, KeyFile, Store};
use tape_git_remote::track::TrackNumber;

fn store() -> Store {
    Store::open("11111111111111111111111111111111").expect("a tape address")
}

fn entry(track: u64) -> PackEntry {
    PackEntry { track, size: 30 + track, digest: digest(b"pack"), stream: false }
}

fn index(tracks: &[u64]) -> Index {
    let mut index = Index::default();
    for track in tracks {
        index.packs.push(entry(*track));
    }
    index
}

fn keys(installed: &Installed) -> Vec<String> {
    (0..installed.len()).map(|place| installed.key_at(place).clone()).collect()
}

fn answer(success: bool, stdout: &str) -> Result<GitOutput, String> {
    Ok(GitOutput { success, stdout: stdout.as_bytes().to_vec(), stderr: Vec::new() })
}

// one key to a line, blank lines and line ends aside
#[test]
fn loads_keys() {
    assert_eq!(load_installed(None).len(), 0);
    assert_eq!(load_installed(Some("")).len(), 0);
    let installed = load_installed(Some("b:2\r\n\na:1\nb:2\nc\rd\n\r\nlast\r"));
    assert_eq!(keys(&installed), vec!["a:1", "b:2", "c\rd", "last\r"]);
    assert!(installed.contains("b:2"));
    assert!(!installed.contains("b:2\r"));
}

// what is saved is what is loaded
#[test]
fn saves_keys() {
    let mut installed = Installed::new();
    for track in [12, 3, 12] {
        installed = installed.insert(store().installed_key(track));
    }
    let body = save_installed(&installed);
    let name = "11111111111111111111111111111111";
    assert_eq!(body, format!("{name}:12\n{name}:3\n"));
    assert_eq!(keys(&load_installed(Some(&body))), keys(&installed));
    assert_eq!(save_installed(&Installed::new()), "");
}

// the record lies in the git directory
#[test]
fn record_path() {
    let mut repository = Repository::at(".");
    assert!(installed_path(&repository).is_err());
    repository.record(git_dir_arguments(), answer(true, "/work/.git\n"));
    assert_eq!(installed_path(&repository), Ok("/work/.git/tape/installed-packs".to_string()));
    repository.record(git_dir_arguments(), answer(true, "/\n"));
    assert_eq!(installed_path(&repository), Ok("/tape/installed-packs".to_string()));
}

// only what is missing is fetched, in order, and then it is recorded
#[test]
fn fetches_missing() {
    let known = Installed::new().insert(store().installed_key(4));
    let fetch = Fetch::new(&index(&[4, 7, 7, 9]), known);

    let (fetch, action) = fetch.next(&store());
    let FetchAction::Read(notice, pack) = action else { panic!("expected a read") };
    assert_eq!(notice, "tape: fetching pack 7 (37 bytes)");
    assert_eq!(pack.track, 7);
    let (fetch, action) = fetch.install(&store()).next(&store());
    let FetchAction::Read(_, pack) = action else { panic!("expected a read") };
    assert_eq!(pack.track, 9);
    let (fetch, action) = fetch.install(&store()).next(&store());
    let FetchAction::Save(body) = action else { panic!("expected to save") };
    let name = "11111111111111111111111111111111";
    assert_eq!(body, format!("{name}:4\n{name}:7\n{name}:9\n"));

    // there is nothing left to install
    let (_, action) = fetch.install(&store()).next(&store());
    assert!(matches!(action, FetchAction::Save(_)));
}

// fetching again does nothing
#[test]
fn fetches_once() {
    let known = Installed::new()
        .insert(store().installed_key(4))
        .insert(store().installed_key(7));
    let (_, action) = Fetch::new(&index(&[4, 7]), known).next(&store());
    assert!(matches!(action, FetchAction::Finish));

    let (_, action) = Fetch::new(&Index::default(), Installed::new()).next(&store());
    assert!(matches!(action, FetchAction::Finish));
}

// an empty pack is not handed to git
#[test]
fn installs_packs() {
    let repository = Repository::at(".");
    let full = b"PACK\0\0\0\x02\0\0\0\x01".to_vec();
    let process = install_process(&repository, &full).expect("a git to run");
    assert_eq!(process.input, full);
    assert!(install_process(&repository, b"PACK\0\0\0\x02\0\0\0\0").is_none());
}

// a pack of our own is not fetched back
#[test]
fn records_own_packs() {
    let installed = Installed::new().insert(store().installed_key(5));
    let (_, action) = Fetch::new(&index(&[5]), installed).next(&store());
    assert!(matches!(action, FetchAction::Finish));
    assert_eq!(stored_notice(&entry(5)), "tape: pack stored at track 5");
}

// a pack is built from the new tips, leaving out the tips we hold
#[test]
fn plans_packs() {
    let mut repository = Repository::at(".");
    let mut base = Index::default();
    base.refs.insert("refs/heads/a".to_string(), "111".to_string());
    base.refs.insert("refs/heads/b".to_string(), "222".to_string());
    let mut decision = Decision::default();
    assert!(matches!(plan_pack(&repository, &base, &decision), PackPlan::Nothing));

    decision.included.push("333".to_string());
    let mut asked = Vec::new();
    let process = loop {
        match plan_pack(&repository, &base, &decision) {
            PackPlan::Nothing => panic!("expected a pack"),
            PackPlan::Run(arguments) => {
                asked.push(arguments[2].clone());
                let held = arguments[2] == "222^{object}";
                repository.record(arguments, answer(held, ""));
            }
            PackPlan::Build(process) => break process,
        }
    };
    assert_eq!(asked, vec!["111^{object}", "222^{object}"]);
    assert_eq!(process.input, b"333\n^222\n".to_vec());
    assert!(!repository.has_run(&head_arguments()));
}

// a pack without objects is not worth storing
#[test]
fn weighs_packs() {
    assert_eq!(worth_storing(b"PACK\0\0\0\x02\0\0\0\0"), None);
    assert_eq!(worth_storing(b"junk"), None);
    assert_eq!(
        worth_storing(b"PACK\0\0\0\x02\0\0\0\x01").as_deref(),
        Some("tape: writing pack of 1 object (12 bytes)")
    );
    assert_eq!(
        worth_storing(b"PACK\0\0\0\x02\0\0\x01\x16...").as_deref(),
        Some("tape: writing pack of 278 objects (15 bytes)")
    );
}

fn pushable() -> Store {
    let mut store = store();
    store.found_payer(&payer_source(None), &KeyFile::Loaded(())).expect("a payer");
    let source = store.cassette_source(None);
    store.found_cassette(&source, &KeyFile::Loaded([0; 32])).expect("a cassette");
    store
}

// a push packs and stores what is new before it publishes anything
#[test]
fn prepares_pushes() {
    let store = pushable();
    let mut repository = Repository::at(".");
    let specs = vec!["new:refs/heads/x".to_string()];
    let preparation = Preparation::start(&store, &specs).expect("a pushable remote");

    let (preparation, errand) = preparation.next(&repository, &store);
    assert!(matches!(errand, Errand::ReadIndex));
    let (preparation, errand) = preparation.index_read(None).next(&repository, &store);
    let Errand::Run(arguments) = errand else { panic!("expected a run") };
    assert_eq!(arguments, rev_parse_arguments("new"));
    repository.record(arguments, answer(true, "222"));

    let (preparation, errand) = preparation.next(&repository, &store);
    let Errand::Build(process) = errand else { panic!("expected to build") };
    assert_eq!(process.input, b"222\n".to_vec());
    let pack = b"PACK\0\0\0\x02\0\0\0\x02".to_vec();
    let (preparation, errand) = preparation.built(pack.clone()).next(&repository, &store);
    let Errand::Store(notice) = errand else { panic!("expected to store") };
    assert_eq!(notice, "tape: writing pack of 2 objects (12 bytes)");
    assert_eq!(preparation.pack(), Some(&pack));

    let preparation = preparation.stored(&store, Ok(TrackNumber(5))).expect("stored");
    let (preparation, errand) = preparation.next(&repository, &store);
    let Errand::Note(notice, key) = errand else { panic!("expected to note it") };
    assert_eq!(notice, "tape: pack stored at track 5");
    assert_eq!(key, store.installed_key(5));
    let (preparation, errand) = preparation.noted().next(&repository, &store);
    assert!(matches!(errand, Errand::Publish));

    let publish = preparation.publish().expect("ready");
    repository.record(head_arguments(), answer(false, ""));
    let (_, action) = publish.listed(&[]).next(&repository);
    let Action::Write(index) = action else { panic!("expected a write") };
    assert!(index.has_pack(5));
    assert!(index.packs[0].matches(&pack));
}

// a pack that could not be stored ends the push
#[test]
fn reports_unstored_packs() {
    let store = pushable();
    let built = Preparation::start(&store, &[]).expect("a pushable remote");
    let built = built.index_read(None).built(b"PACK\0\0\0\x02\0\0\0\x02".to_vec());
    assert_eq!(
        built.stored(&store, Err("no space".to_string())).expect_err("not stored"),
        "write pack (12 bytes): no space"
    );
}

// a push with nothing to store goes straight on, one that is not ready does not
#[test]
fn prepares_empty_pushes() {
    let store = pushable();
    let repository = Repository::at(".");
    let deletion = vec![":refs/heads/x".to_string()];
    let reading = Preparation::start(&store, &deletion).expect("a pushable remote");
    let (packing, errand) = reading.index_read(None).next(&repository, &store);
    assert!(matches!(errand, Errand::Publish));
    assert!(packing.publish().is_some());

    let reading = Preparation::start(&store, &deletion).expect("a pushable remote");
    assert!(reading.publish().is_none());

    let reading = Preparation::start(&store, &deletion).expect("a pushable remote");
    let empty = reading.index_read(None).built(b"PACK\0\0\0\x02\0\0\0\0".to_vec());
    let (_, errand) = empty.next(&repository, &store);
    assert!(matches!(errand, Errand::Publish));
}

// a remote that cannot be pushed to is turned down first
#[test]
fn prepares_no_read_only_push() {
    let refused = Preparation::start(&store(), &[]).expect_err("read-only");
    assert!(refused.starts_with("pushing needs a fee payer"));
}
