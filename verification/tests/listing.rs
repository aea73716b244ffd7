use tape_crypto::hash::hash;
use tape_git_remote::listing::{
    CompleteNext, ListError, ListedTrack, Listing, SeenListing, SeenNext, Versions,
    ACCOUNT_PROPAGATION_BACKOFF_MS, INDEX_LISTING_BACKOFF_MS,
};
use tape_git_remote::store::{not_listed, Store};
use tape_git_remote::track::TrackNumber;

fn store() -> Store {
    Store::open("11111111111111111111111111111111").expect("a tape address")
}

fn version(number: u64) -> ListedTrack {
    ListedTrack { number: TrackNumber(number), key: hash(b"git/refs.json").to_bytes() }
}

fn other(number: u64) -> ListedTrack {
    ListedTrack { number: TrackNumber(number), key: hash(b"pack").to_bytes() }
}

fn not_visible() -> ListError {
    ListError { category: Some("not_found".to_string()), message: "no account".to_string() }
}

fn seen(versions: &[u64], highest: u64) -> Versions {
    Versions {
        versions: versions.iter().map(|number| TrackNumber(*number)).collect(),
        highest: TrackNumber(highest),
    }
}

// the versions of the index are those stored under its name, ascending over all pages
#[test]
fn collects_versions() {
    let listing = Listing::new()
        .add_page(&[other(12), version(9), other(1)])
        .add_page(&[])
        .add_page(&[version(4), version(11), other(3)])
        .finish();

    assert_eq!(listing.versions, seen(&[4, 9, 11], 0).versions);
    assert_eq!(listing.highest, TrackNumber(12));
    assert_eq!(store().read_index(&listing.versions), Some(TrackNumber(11)));

    let empty = Listing::new().finish();
    assert!(empty.versions.is_empty());
    assert_eq!(empty.highest, TrackNumber(0));
    assert_eq!(store().read_index(&empty.versions), None);
}

// an account that is not visible yet is waited for, eight times
#[test]
fn waits_for_accounts() {
    let mut stage: SeenListing = store().index_versions();
    for attempt in 0..7 {
        let (notice, next) = stage.replied(Err(not_visible()));
        let wait = ACCOUNT_PROPAGATION_BACKOFF_MS[attempt];
        assert_eq!(
            notice,
            Some(format!("tape: tape account is not visible yet; retrying in {wait}ms"))
        );
        let SeenNext::Again(again, slept) = next else { panic!("expected another try") };
        assert_eq!(slept, wait);
        stage = again;
    }
    let (notice, next) = stage.replied(Err(not_visible()));
    assert_eq!(notice, None);
    let SeenNext::Fail(message) = next else { panic!("expected to fail") };
    assert_eq!(message, "list index versions: no account");
}

// any other error is reported at once, and a listing is passed on
#[test]
fn other_listing_outcomes() {
    for category in [None, Some("timeout".to_string())] {
        let error = ListError { category, message: "slow".to_string() };
        let (_, next) = store().index_versions().replied(Err(error));
        let SeenNext::Fail(message) = next else { panic!("expected to fail") };
        assert_eq!(message, "list index versions: slow");
    }
    let (_, next) = store().index_versions().replied(Ok(seen(&[4], 6)));
    let SeenNext::Done(done) = next else { panic!("expected a listing") };
    assert_eq!(done.versions, vec![TrackNumber(4)]);
    assert_eq!(done.highest, TrackNumber(6));
}

// a merge goes by a listing that reaches the chain and our own write
#[test]
fn listing_targets() {
    let target = |at_least, next: Result<u64, &str>| {
        let next = next.map(TrackNumber).map_err(str::to_string);
        let (notice, stage) = store().index_versions_complete(TrackNumber(at_least), &next);
        (notice, stage.target.0)
    };
    assert_eq!(target(5, Ok(9)), (None, 8));
    assert_eq!(target(5, Ok(6)), (None, 5));
    assert_eq!(target(5, Ok(3)), (None, 5));
    assert_eq!(target(0, Ok(0)), (None, 0));
    assert_eq!(
        target(5, Err("timeout")),
        (Some("tape: could not read the tape account (timeout)".to_string()), 5)
    );
}

// a listing that lags is asked for again, eight times
#[test]
fn lagging_listings() {
    let (_, mut stage) = store().index_versions_complete(TrackNumber(7), &Ok(TrackNumber(9)));
    for attempt in 0..7 {
        let (notice, next) = stage.replied(seen(&[4], 6));
        let wait = INDEX_LISTING_BACKOFF_MS[attempt];
        assert_eq!(
            notice,
            Some(format!("tape: listing has reached track 6 of 8; retrying in {wait}ms"))
        );
        let CompleteNext::Again(again, slept) = next else { panic!("expected another try") };
        assert_eq!(slept, wait);
        stage = again;
    }
    let (_, next) = stage.replied(seen(&[4], 7));
    let CompleteNext::Fail(message) = next else { panic!("expected to fail") };
    assert_eq!(message, not_listed(TrackNumber(8)));

    let (_, stage) = store().index_versions_complete(TrackNumber(7), &Ok(TrackNumber(9)));
    let (notice, next) = stage.replied(seen(&[4, 7], 8));
    assert_eq!(notice, None);
    let CompleteNext::Done(versions) = next else { panic!("expected a listing") };
    assert_eq!(versions.len(), 2);
}
