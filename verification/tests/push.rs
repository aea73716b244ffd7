use tape_git_remote::git::{
    has_object_arguments, head_arguments, is_ancestor_arguments, rev_parse_arguments, GitOutput,
    Repository,
};
use tape_git_remote::index::{digest, Index, PackEntry};
use tape_git_remote::publish::{Action, Publish, GAVE_UP, PUSH_ATTEMPTS};
use tape_git_remote::push::{
    apply, choose_base, decide, is_satisfied, landing, parse_specs, pending, report, Decision,
    Landing, Spec,
};
use tape_git_remote::store::not_listed;
use tape_git_remote::track::TrackNumber;

fn index_with(name: &str, object_id: &str) -> Index {
    let mut index = Index::default();
    index.refs.insert(name.to_string(), object_id.to_string());
    index
}

fn repository() -> Repository {
    Repository::at(".")
}

#[derive(Default)]
struct Run {
    bases: Vec<Option<TrackNumber>>,
    writes: usize,
}

fn serve(script: &[&[u64]], served: &mut usize) -> Vec<TrackNumber> {
    let listing = script[(*served).min(script.len() - 1)];
    *served += 1;

    let mut versions = Vec::new();
    for track in listing {
        versions.push(TrackNumber(*track));
    }

    versions
}

// The publish loop over scripted listings, one served per call, with no store
fn drive(
    script: &[&[u64]],
    writes: &[u64],
    satisfying: &[u64],
    run: &mut Run,
) -> Result<(), String> {
    let mut ours: Vec<TrackNumber> = Vec::new();
    let mut served = 0;

    for attempt in 1..=PUSH_ATTEMPTS {
        let versions = serve(script, &mut served);
        if let Some(track) = ours.last() {
            if !versions.contains(track) {
                return Err(not_listed(*track));
            }
        }

        let base = choose_base(&versions, &ours);
        run.bases.push(base);

        let head = versions.last().copied();
        if head.is_some_and(|track| satisfying.contains(&track.0)) {
            return Ok(());
        }

        let written = TrackNumber(writes[run.writes]);
        run.writes += 1;
        ours.push(written);

        let after = serve(script, &mut served);
        match landing(base, written, &after) {
            Landing::Clean => return Ok(()),
            Landing::NotVisible => return Err(not_listed(written)),
            Landing::Conflict => {}
        }

        if attempt == PUSH_ATTEMPTS {
            return Err("concurrent push detected".to_string());
        }
    }

    Ok(())
}

fn yes() -> Result<GitOutput, String> {
    Ok(GitOutput { success: true, stdout: Vec::new(), stderr: Vec::new() })
}

fn no() -> Result<GitOutput, String> {
    Ok(GitOutput { success: false, stdout: Vec::new(), stderr: Vec::new() })
}

fn says(text: &str) -> Result<GitOutput, String> {
    Ok(GitOutput { success: true, stdout: text.as_bytes().to_vec(), stderr: Vec::new() })
}

fn specs(refspecs: &[&str]) -> Vec<Spec> {
    let refspecs: Vec<String> = refspecs.iter().map(|spec| spec.to_string()).collect();
    parse_specs(&refspecs)
}

fn tracks(numbers: &[u64]) -> Vec<TrackNumber> {
    numbers.iter().map(|number| TrackNumber(*number)).collect()
}

// a plain refspec splits into source and destination
#[test]
fn plain_refspec() {
    let parsed = parse_specs(&["refs/heads/main:refs/heads/main".to_string()]);

    assert!(!parsed[0].is_forced);
    assert_eq!(parsed[0].source, "refs/heads/main");
    assert_eq!(parsed[0].destination, "refs/heads/main");
}

// a leading plus marks a force push
#[test]
fn forced_refspec() {
    let parsed = parse_specs(&["+refs/heads/main:refs/heads/main".to_string()]);

    assert!(parsed[0].is_forced);
    assert_eq!(parsed[0].source, "refs/heads/main");
}

// an empty source is a deletion
#[test]
fn delete_refspec() {
    let parsed = parse_specs(&[":refs/heads/gone".to_string()]);
    let decision = decide(
        &repository(),
        &parsed,
        &index_with("refs/heads/gone", &"a".repeat(40)),
    );

    assert_eq!(decision.deletions, vec!["refs/heads/gone".to_string()]);
    assert_eq!(decision.results, vec!["ok refs/heads/gone".to_string()]);
}

// a refspec with no colon is reported, not acted on
#[test]
fn malformed_refspec() {
    let parsed = parse_specs(&["nonsense".to_string()]);
    let decision = decide(&repository(), &parsed, &Index::default());

    assert!(decision.updates.is_empty());
    assert!(decision.results[0].starts_with("error nonsense"));
}

// a ref that does not exist locally is rejected
#[test]
fn missing_source() {
    let parsed = parse_specs(&["refs/heads/nope-not-here:refs/heads/x".to_string()]);
    let mut repository = repository();
    repository.record(rev_parse_arguments("refs/heads/nope-not-here"), no());
    let decision = decide(&repository, &parsed, &Index::default());

    assert!(decision.updates.is_empty());
    assert!(decision.results[0].contains("no such ref locally"));
}

// a decision is satisfied only once the index carries its updates
#[test]
fn satisfied_updates() {
    let object_id = "b".repeat(40);
    let mut decision = Decision::default();
    decision
        .updates
        .push(("refs/heads/main".to_string(), object_id.clone()));

    assert!(!is_satisfied(&Index::default(), &decision, None));
    assert!(is_satisfied(
        &index_with("refs/heads/main", &object_id),
        &decision,
        None
    ));
}

// a decision is unsatisfied while a deleted ref is still present
#[test]
fn satisfied_deletions() {
    let mut decision = Decision::default();
    decision.deletions.push("refs/heads/gone".to_string());

    assert!(!is_satisfied(
        &index_with("refs/heads/gone", &"c".repeat(40)),
        &decision,
        None
    ));
    assert!(is_satisfied(&Index::default(), &decision, None));
}

// a listing that reaches our own version over our base settles the push
#[test]
fn clean_write() {
    let mut run = Run::default();

    drive(&[&[4], &[4, 7]], &[7], &[], &mut run).expect("push should settle");

    assert_eq!(run.writes, 1);
    assert_eq!(run.bases, vec![Some(TrackNumber(4))]);
}

// a version between our base and our write re-bases the next attempt on it
#[test]
fn merge_between() {
    let mut run = Run::default();
    let script: [&[u64]; 4] = [&[4], &[4, 5, 7], &[4, 5, 7], &[4, 5, 7, 9]];

    drive(&script, &[7, 9], &[9], &mut run).expect("push should settle");

    assert_eq!(run.writes, 2);
    assert_eq!(run.bases[1], Some(TrackNumber(5)));
}

// a version written after ours ends the push once it satisfies the update
#[test]
fn accepts_newer() {
    let mut run = Run::default();

    drive(&[&[4], &[4, 7, 9]], &[7], &[9], &mut run).expect("push should settle");

    assert_eq!(run.writes, 1);
    assert_eq!(run.bases[1], Some(TrackNumber(9)));
}

// a listing that never reaches our version is reported as such, without writing again
#[test]
fn never_listed() {
    let mut run = Run::default();

    let error = drive(&[&[4], &[4]], &[7], &[], &mut run).expect_err("push should stop");

    assert_eq!(run.writes, 1);
    assert!(error.to_string().contains("no storage node lists it yet"));
    assert!(!error.to_string().contains("concurrent"));
}

// an established head is never moved by a later push
#[test]
fn head_is_sticky() {
    let mut index = index_with("refs/heads/release", &"d".repeat(40));
    index.refs.insert("refs/heads/main".to_string(), "e".repeat(40));
    index.head = Some("refs/heads/release".to_string());

    apply(&repository(), &mut index, &Decision::default(), None);

    assert_eq!(index.head.as_deref(), Some("refs/heads/release"));
}

// a dangling head falls back to a branch that exists
#[test]
fn head_recovers() {
    let mut index = index_with("refs/heads/main", &"f".repeat(40));
    index.head = Some("refs/heads/deleted".to_string());

    apply(&repository(), &mut index, &Decision::default(), None);

    assert_eq!(index.head.as_deref(), Some("refs/heads/main"));
}

// only the first plus and the first colon count
#[test]
fn odd_refspecs() {
    let parsed = specs(&["++a:b:c", "+x", "", ":", "+:gone"]);

    assert!(parsed[0].is_forced);
    assert_eq!(parsed[0].source, "+a");
    assert_eq!(parsed[0].destination, "b:c");
    assert!(!parsed[1].is_forced);
    assert_eq!(parsed[1].malformed.as_deref(), Some("+x"));
    assert_eq!(parsed[2].malformed.as_deref(), Some(""));
    assert_eq!(parsed[3].malformed, None);
    assert_eq!(parsed[3].destination, "");
    assert_eq!(parsed[4].source, "");
    assert_eq!(parsed[4].destination, "gone");
}

// every verdict, with the line git is told
#[test]
fn verdict_lines() {
    let mut repository = repository();
    repository.record(rev_parse_arguments("new"), says("222\n"));
    repository.record(has_object_arguments("111"), yes());
    repository.record(has_object_arguments("333"), yes());
    repository.record(has_object_arguments("444"), no());
    repository.record(is_ancestor_arguments("222", "111"), no());
    repository.record(is_ancestor_arguments("111", "222"), yes());
    repository.record(is_ancestor_arguments("222", "333"), no());
    repository.record(is_ancestor_arguments("333", "222"), no());
    repository.record(has_object_arguments("555"), yes());
    repository.record(is_ancestor_arguments("222", "555"), yes());

    let mut index = Index::default();
    index.refs.insert("there".to_string(), "222".to_string());
    index.refs.insert("behind".to_string(), "111".to_string());
    index.refs.insert("aside".to_string(), "333".to_string());
    index.refs.insert("unknown".to_string(), "444".to_string());
    index.refs.insert("ahead".to_string(), "555".to_string());

    let decision = decide(
        &repository,
        &specs(&[
            "new:there",
            "new:behind",
            "new:aside",
            "+new:aside",
            "new:unknown",
            "+new:unknown",
            "new:ahead",
            "+new:ahead",
            "new:fresh",
            "old:fresh",
            ":there",
            "bad",
        ]),
        &index,
    );

    assert_eq!(
        decision.results,
        vec![
            "ok there".to_string(),
            "ok behind".to_string(),
            "error aside non-fast-forward".to_string(),
            "ok aside".to_string(),
            "error unknown remote is at 444, which is not in this repository; fetch first"
                .to_string(),
            "ok unknown".to_string(),
            "ok ahead".to_string(),
            "ok ahead".to_string(),
            "ok fresh".to_string(),
            "error fresh no such ref locally: old".to_string(),
            "ok there".to_string(),
            "error bad malformed refspec".to_string(),
        ]
    );
    let written: Vec<&str> = decision.updates.iter().map(|update| update.0.as_str()).collect();
    assert_eq!(written, vec!["behind", "aside", "unknown", "fresh"]);
    assert!(decision.updates.iter().all(|update| update.1 == "222"));
    assert_eq!(decision.included, vec!["222".to_string(); 4]);
    assert_eq!(decision.deletions, vec!["there".to_string()]);
    assert_eq!(report(&vec!["ok a".to_string(), "ok b".to_string()]), "ok a\nok b\n\n");
    assert_eq!(report(&vec![]), "\n");
}

// git is asked one thing at a time, in order, and only what matters
#[test]
fn asks_in_order() {
    let mut repository = repository();
    let parsed = specs(&["bad", ":gone", "a:b"]);
    let index = index_with("b", "111");

    assert_eq!(pending(&repository, &parsed, &index), Some(rev_parse_arguments("a")));
    repository.record(rev_parse_arguments("a"), says("222"));
    assert_eq!(pending(&repository, &parsed, &index), Some(has_object_arguments("111")));
    repository.record(has_object_arguments("111"), yes());
    assert_eq!(
        pending(&repository, &parsed, &index),
        Some(is_ancestor_arguments("222", "111"))
    );
    repository.record(is_ancestor_arguments("222", "111"), no());
    assert_eq!(
        pending(&repository, &parsed, &index),
        Some(is_ancestor_arguments("111", "222"))
    );
    repository.record(is_ancestor_arguments("111", "222"), yes());
    assert_eq!(pending(&repository, &parsed, &index), None);

    // further answers change nothing
    let before = decide(&repository, &parsed, &index);
    repository.record(rev_parse_arguments("unrelated"), says("999"));
    let after = decide(&repository, &parsed, &index);
    assert_eq!(before.results, after.results);
    assert_eq!(before.updates, after.updates);
}

// a decision that is merged in is satisfied, and deciding it again writes nothing
#[test]
fn pushing_again() {
    let mut repository = repository();
    repository.record(rev_parse_arguments("new"), says("222"));
    repository.record(has_object_arguments("111"), yes());
    repository.record(is_ancestor_arguments("222", "111"), no());
    repository.record(is_ancestor_arguments("111", "222"), yes());
    let parsed = specs(&["new:refs/heads/x", ":refs/heads/y", "nope:refs/heads/z"]);
    let mut index = index_with("refs/heads/x", "111");
    index.refs.insert("refs/heads/y".to_string(), "333".to_string());
    index.refs.insert("refs/heads/other".to_string(), "444".to_string());
    let pack = PackEntry { track: 6, size: 1, digest: digest(b"p"), stream: false };

    let first = decide(&repository, &parsed, &index);
    assert!(!is_satisfied(&index, &first, Some(&pack)));
    apply(&repository, &mut index, &first, Some(&pack));
    assert!(is_satisfied(&index, &first, Some(&pack)));
    assert_eq!(index.refs.get("refs/heads/other").map(String::as_str), Some("444"));
    assert_eq!(index.refs.get("refs/heads/x").map(String::as_str), Some("222"));
    assert!(!index.refs.contains_key("refs/heads/y"));
    assert!(index.has_pack(6));

    let again = decide(&repository, &parsed, &index);
    assert_eq!(again.results, first.results);
    assert!(again.updates.is_empty());
    assert_eq!(again.deletions, first.deletions);
    assert!(is_satisfied(&index, &again, Some(&pack)));

    // a pack is listed once
    apply(&repository, &mut index, &again, Some(&pack));
    assert_eq!(index.packs.len(), 1);
}

// the order in which a head is looked for
#[test]
fn head_choice() {
    let mut seeded = index_with("refs/heads/topic", "1");
    seeded.refs.insert("refs/heads/main".to_string(), "2".to_string());
    let mut repository = repository();
    repository.record(head_arguments(), says("refs/heads/topic\n"));
    apply(&repository, &mut seeded, &Decision::default(), None);
    assert_eq!(seeded.head.as_deref(), Some("refs/heads/topic"));

    let mut master = index_with("refs/heads/master", "1");
    master.refs.insert("refs/heads/a".to_string(), "2".to_string());
    apply(&self::repository(), &mut master, &Decision::default(), None);
    assert_eq!(master.head.as_deref(), Some("refs/heads/master"));

    let mut first = index_with("refs/heads/b", "1");
    first.refs.insert("refs/heads/a".to_string(), "2".to_string());
    first.refs.insert("a/tag".to_string(), "2".to_string());
    apply(&self::repository(), &mut first, &Decision::default(), None);
    assert_eq!(first.head.as_deref(), Some("refs/heads/a"));

    let mut none = index_with("refs/tags/v1", "1");
    none.head = Some("refs/heads/gone".to_string());
    apply(&self::repository(), &mut none, &Decision::default(), None);
    assert_eq!(none.head, None);
}

// every landing
#[test]
fn landings() {
    assert_eq!(landing(None, TrackNumber(7), &tracks(&[7])), Landing::Clean);
    assert_eq!(landing(Some(TrackNumber(4)), TrackNumber(7), &tracks(&[4, 7])), Landing::Clean);
    assert_eq!(landing(None, TrackNumber(7), &tracks(&[4, 7])), Landing::Conflict);
    assert_eq!(
        landing(Some(TrackNumber(4)), TrackNumber(7), &tracks(&[4, 5, 7])),
        Landing::Conflict
    );
    assert_eq!(
        landing(Some(TrackNumber(4)), TrackNumber(7), &tracks(&[4, 7, 8])),
        Landing::Conflict
    );
    assert_eq!(landing(None, TrackNumber(7), &tracks(&[])), Landing::NotVisible);
    assert_eq!(choose_base(&tracks(&[1, 2, 3]), &tracks(&[3, 2])), Some(TrackNumber(1)));
    assert_eq!(choose_base(&tracks(&[1]), &tracks(&[1])), None);
}

fn run_of(action: Action) -> Vec<String> {
    match action {
        Action::Run(arguments) => arguments,
        other => panic!("expected a run, not {other:?}"),
    }
}

// a first push: nothing to merge with, one write, a clean landing
#[test]
fn publishes_first_index() {
    let mut repository = repository();
    let pack = PackEntry { track: 2, size: 1, digest: digest(b"p"), stream: false };
    let publish = Publish::new(specs(&["new:refs/heads/x"]), Some(pack));

    let (publish, action) = publish.next(&repository);
    assert!(matches!(action, Action::List(None)));
    let (publish, action) = publish.listed(&[]).next(&repository);
    assert_eq!(run_of(action), rev_parse_arguments("new"));
    repository.record(rev_parse_arguments("new"), says("222"));
    let (publish, action) = publish.next(&repository);
    assert_eq!(run_of(action), head_arguments());
    repository.record(head_arguments(), says("refs/heads/x"));
    let (publish, action) = publish.next(&repository);
    let Action::Write(index) = action else { panic!("expected a write") };
    assert_eq!(index.head.as_deref(), Some("refs/heads/x"));
    assert_eq!(index.refs.get("refs/heads/x").map(String::as_str), Some("222"));
    assert!(index.has_pack(2));
    assert_eq!(index.parent, None);

    let (publish, action) = publish.wrote(TrackNumber(3)).next(&repository);
    assert!(matches!(action, Action::Confirm(TrackNumber(3))));
    let (_, action) = publish.confirmed(tracks(&[3])).next(&repository);
    let Action::Finish(results) = action else { panic!("expected to finish") };
    assert_eq!(results, vec!["ok refs/heads/x".to_string()]);
}

// a race: the second attempt merges with what the other pusher wrote, and loses nothing
#[test]
fn publishes_after_a_race() {
    let mut repository = repository();
    repository.record(rev_parse_arguments("new"), says("222"));
    let publish = Publish::new(specs(&["new:refs/heads/x"]), None);

    let mut base = index_with("refs/heads/main", "1");
    base.head = Some("refs/heads/main".to_string());
    base.packs.push(PackEntry { track: 1, size: 1, digest: digest(b"1"), stream: false });
    let (publish, action) = publish.listed(&tracks(&[4])).next(&repository);
    assert!(matches!(action, Action::ReadBase(TrackNumber(4))));
    let (publish, action) = publish.base_read(base.clone()).next(&repository);
    let Action::Write(ours) = action else { panic!("expected a write") };
    assert_eq!(ours.parent, Some(4));

    let (publish, action) =
        publish.wrote(TrackNumber(7)).confirmed(tracks(&[4, 5, 7])).next(&repository);
    assert!(matches!(action, Action::Retry));
    let (publish, action) = publish.next(&repository);
    assert!(matches!(action, Action::List(Some(TrackNumber(7)))));

    let mut theirs = base.clone();
    theirs.refs.insert("refs/heads/y".to_string(), "9".to_string());
    theirs.packs.push(PackEntry { track: 3, size: 1, digest: digest(b"3"), stream: false });
    let (publish, action) = publish.listed(&tracks(&[4, 5, 7])).next(&repository);
    assert!(matches!(action, Action::ReadBase(TrackNumber(5))));
    let (publish, action) = publish.base_read(theirs).next(&repository);
    assert!(matches!(action, Action::ReadHead(TrackNumber(7))));
    let mut ours_again = ours.clone();
    ours_again.packs.push(PackEntry { track: 2, size: 1, digest: digest(b"2"), stream: false });
    let (publish, action) = publish.head_read(ours).next(&repository);
    assert!(matches!(action, Action::Finish(_)));

    // were it not for our own write being visible, the merge would carry everything
    let (_, action) = publish.head_read(base).next(&repository);
    let Action::Write(merged) = action else { panic!("expected a write") };
    assert_eq!(merged.refs.get("refs/heads/x").map(String::as_str), Some("222"));
    assert_eq!(merged.refs.get("refs/heads/y").map(String::as_str), Some("9"));
    assert!(merged.has_pack(1) && merged.has_pack(3));
    assert_eq!(merged.parent, Some(5));
    assert_eq!(ours_again.packs.len(), 2);
}

// five attempts, then no more
#[test]
fn publishing_gives_up() {
    let mut repository = repository();
    repository.record(rev_parse_arguments("new"), says("222"));
    repository.record(head_arguments(), no());
    let mut publish = Publish::new(specs(&["new:refs/heads/x"]), None);
    let mut writes = 0;
    let mut versions = tracks(&[1]);

    for attempt in 1..=PUSH_ATTEMPTS {
        publish = publish.listed(&versions).base_read(Index::default());
        let (next, action) = publish.next(&repository);
        assert!(matches!(action, Action::Write(_)));
        writes += 1;
        let track = TrackNumber(attempt * 10);
        versions.extend(tracks(&[attempt * 10, attempt * 10 + 1]));
        let next = next.wrote(track).wrote(TrackNumber(1)).confirmed(versions.clone());
        let (next, action) = next.next(&repository);
        publish = next;
        if attempt < PUSH_ATTEMPTS {
            assert!(matches!(action, Action::Retry));
        } else {
            let Action::Fail(message) = action else { panic!("expected to fail") };
            assert_eq!(message, GAVE_UP);
            assert!(message.contains("concurrent push after 5 attempts"));
        }
    }
    assert_eq!(writes, 5);
}

// a write that no listing shows is not written again
#[test]
fn publishing_stops_unlisted() {
    let mut repository = repository();
    repository.record(rev_parse_arguments("new"), says("222"));
    repository.record(head_arguments(), no());
    let publish = Publish::new(specs(&["new:refs/heads/x"]), None).listed(&tracks(&[]));

    let (_, action) = publish.wrote(TrackNumber(7)).confirmed(tracks(&[4])).next(&repository);
    let Action::Fail(message) = action else { panic!("expected to fail") };
    assert_eq!(message, not_listed(TrackNumber(7)));
    assert!(message.starts_with("this tape reaches track 7, but no storage node lists it yet"));
}

// a retry stops at a listing that lacks our newest write, even one that reaches past it
#[test]
fn retry_needs_our_write() {
    let mut repository = repository();
    repository.record(rev_parse_arguments("new"), says("222"));
    repository.record(head_arguments(), no());
    let publish = Publish::new(specs(&["new:refs/heads/x"]), None)
        .listed(&[])
        .wrote(TrackNumber(7))
        .confirmed(tracks(&[7, 8]));
    let (publish, action) = publish.next(&repository);
    assert!(matches!(action, Action::Retry));

    let (_, action) = publish.listed(&tracks(&[4, 8])).next(&repository);
    let Action::Fail(message) = action else { panic!("expected to fail") };
    assert_eq!(message, not_listed(TrackNumber(7)));
}

// an unparsable refspec is reported verbatim
#[test]
fn malformed_verbatim() {
    let decision = decide(&repository(), &specs(&["+nonsense"]), &Index::default());
    assert_eq!(decision.results, vec!["error +nonsense malformed refspec".to_string()]);
}

// a push whose wishes are already visible writes nothing
#[test]
fn publishing_nothing_new() {
    let mut repository = repository();
    repository.record(rev_parse_arguments("new"), says("222"));
    let publish = Publish::new(specs(&["new:refs/heads/x"]), None).listed(&tracks(&[4]));

    let (_, action) = publish.base_read(index_with("refs/heads/x", "222")).next(&repository);
    assert!(matches!(action, Action::Finish(_)));
}

// refspecs that are turned down, or there already, change no ref
#[test]
fn refused_push() {
    let mut repository = repository();
    repository.record(rev_parse_arguments("same"), says("111"));
    let mut index = index_with("refs/heads/main", "111");
    let decision = decide(
        &repository,
        &specs(&["bad", "nope:refs/heads/main", "same:refs/heads/main"]),
        &index,
    );
    apply(&repository, &mut index, &decision, None);

    assert_eq!(index.refs.len(), 1);
    assert_eq!(index.refs.get("refs/heads/main").map(String::as_str), Some("111"));
    assert!(decision.included.is_empty());
}

// where HEAD is live, folding in a decision does not depend on the local HEAD
#[test]
fn live_head_needs_no_git() {
    let mut index = index_with("refs/heads/main", "111");
    index.refs.insert("refs/heads/x".to_string(), "222".to_string());
    index.head = Some("refs/heads/main".to_string());
    let mut elsewhere = repository();
    elsewhere.record(head_arguments(), says("refs/heads/x"));
    let mut same = index.clone();

    apply(&elsewhere, &mut same, &Decision::default(), None);
    apply(&repository(), &mut index, &Decision::default(), None);
    assert_eq!(same.head, index.head);
}

// a push that lands clean sits on the newest version anybody else wrote
#[test]
fn clean_push_keeps_refs() {
    let mut repository = repository();
    repository.record(rev_parse_arguments("new"), says("222"));
    let mut base = index_with("refs/heads/other", "9");
    base.head = Some("refs/heads/other".to_string());
    let publish = Publish::new(specs(&["new:refs/heads/x"]), None)
        .listed(&tracks(&[2, 4]))
        .base_read(base);

    let (publish, action) = publish.next(&repository);
    let Action::Write(written) = action else { panic!("expected a write") };
    assert_eq!(written.parent, Some(4));
    assert_eq!(written.refs.get("refs/heads/other").map(String::as_str), Some("9"));
    let (_, action) =
        publish.wrote(TrackNumber(6)).confirmed(tracks(&[2, 4, 6])).next(&repository);
    assert!(matches!(action, Action::Finish(_)));
}
