use tape_crypto::prelude::Address;
use tape_git_remote::index::{digest, PackEntry};
use tape_git_remote::reading::{
    backoff, gateway_wait, DirectRead, GatewayRead, GatewayReply, Next, READ_BACKOFF_MS,
};
use tape_git_remote::store::Store;
use tape_git_remote::track::TrackNumber;

fn store() -> Store {
    Store::open("11111111111111111111111111111111").expect("a tape address")
}

fn pack(stream: bool) -> PackEntry {
    PackEntry { track: 7, size: 3, digest: digest(b"abc"), stream }
}

fn at_gateway(next: Next) -> GatewayRead {
    match next {
        Next::Gateway(stage, _) => stage,
        other => panic!("expected the gateway, not {other:?}"),
    }
}

fn at_nodes(next: Next) -> DirectRead {
    match next {
        Next::Direct(stage, _) => stage,
        other => panic!("expected the storage nodes, not {other:?}"),
    }
}

fn fail(text: &str) -> Result<Vec<u8>, String> {
    Err(text.to_string())
}

// nine tries over about forty-two seconds
#[test]
fn read_backoff() {
    let mut total = 0;
    let mut tries = 1;
    while let Some(wait) = backoff(&READ_BACKOFF_MS, tries - 1) {
        total += wait;
        tries += 1;
    }
    assert_eq!(tries, 9);
    assert_eq!(total, 42_000);
    assert_eq!(backoff(&READ_BACKOFF_MS, 8), None);
    assert_eq!(backoff(&READ_BACKOFF_MS, usize::MAX), None);
    assert_eq!(backoff(&[], 0), None);
}

// a second when the gateway does not say, and ten at most when it does
#[test]
fn gateway_waits() {
    assert_eq!(gateway_wait(None), 1_000_000_000);
    assert_eq!(gateway_wait(Some(0)), 0);
    assert_eq!(gateway_wait(Some(2_500_000_000)), 2_500_000_000);
    assert_eq!(gateway_wait(Some(300_000_000_000)), 10_000_000_000);
    assert_eq!(gateway_wait(Some(u128::MAX)), 10_000_000_000);
}

// a gateway's pack is taken when it matches, and refetched when it does not
#[test]
fn gateway_packs() {
    let good = at_gateway(store().read_pack(&pack(false), true));
    assert_eq!(good.request.address, store().track_address(TrackNumber(7)));
    let (notice, next) = good.replied(GatewayReply::Served(b"abc".to_vec()));
    assert_eq!(notice, None);
    assert!(matches!(next, Next::Done(bytes) if bytes == b"abc"));

    let bad = at_gateway(store().read_pack(&pack(false), true));
    let (notice, next) = bad.replied(GatewayReply::Served(b"abd".to_vec()));
    assert_eq!(
        notice.as_deref(),
        Some("tape: gateway pack at track 7 failed its digest; refetching from storage nodes")
    );
    let (_, next) = at_nodes(next).replied(Ok(b"abc".to_vec()));
    assert!(matches!(next, Next::Done(_)));
}

// a pack that does not match is never handed on
#[test]
fn wrong_packs() {
    let (_, next) = at_nodes(store().read_pack(&pack(false), false)).replied(Ok(b"abd".to_vec()));
    let Next::Fail(message) = next else { panic!("expected to fail") };
    assert_eq!(message, "pack at track 7 does not match the digest the index recorded");
}

// a rate-limited gateway is asked four times
#[test]
fn rate_limits() {
    let mut stage = at_gateway(store().read_index_at(TrackNumber(7), true));
    for _ in 0..3 {
        let (notice, next) = stage.replied(GatewayReply::RateLimited(Some(5)));
        assert_eq!(notice, None);
        assert!(matches!(next, Next::Gateway(_, 5)));
        stage = at_gateway(next);
    }
    let (notice, next) = stage.replied(GatewayReply::RateLimited(None));
    assert_eq!(
        notice.as_deref(),
        Some("tape: gateway still rate limiting; reading from storage nodes instead")
    );
    assert!(matches!(next, Next::Direct(_, 0)));
}

// a gateway that errors is passed over
#[test]
fn gateway_failures() {
    let stage = at_gateway(store().read_index_at(TrackNumber(7), true));
    let (notice, next) = stage.replied(GatewayReply::Failed("gone".to_string()));
    assert_eq!(notice.as_deref(), Some("tape: gateway could not serve track 7 (gone)"));
    assert!(matches!(next, Next::Direct(_, 0)));
}

// a gateway's index is only believed once the chain says so
#[test]
fn proven_indexes() {
    let verdicts = [
        (Ok(true), None),
        (
            Ok(false),
            Some(
                "tape: gateway bytes for track 7 do not match the on-chain commitment; \
                 refetching from storage nodes",
            ),
        ),
        (
            Err("timeout".to_string()),
            Some(
                "tape: could not verify gateway bytes for track 7 (timeout); refetching \
                 from storage nodes",
            ),
        ),
    ];
    for (verdict, expected) in verdicts {
        let believed = verdict == Ok(true);
        let stage = at_gateway(store().read_index_at(TrackNumber(7), true));
        let (_, next) = stage.replied(GatewayReply::Served(b"bytes".to_vec()));
        let Next::Verify(stage) = next else { panic!("expected a check") };
        let (notice, next) = stage.replied(verdict);
        assert_eq!(notice.as_deref(), expected);
        assert_eq!(matches!(next, Next::Done(_)), believed);
        assert_eq!(matches!(next, Next::Direct(_, 0)), !believed);
    }
}

// the storage nodes are asked nine times, then the last error is reported
#[test]
fn direct_retries() {
    let mut stage = at_nodes(store().read_index_at(TrackNumber(7), false));
    for attempt in 0..8 {
        let (notice, next) = stage.replied(fail("insufficient slices"));
        let wait = READ_BACKOFF_MS[attempt];
        assert_eq!(
            notice,
            Some(format!(
                "tape: track 7 not readable yet (insufficient slices); retrying in {wait}ms"
            ))
        );
        assert!(matches!(next, Next::Direct(_, slept) if slept == wait));
        stage = at_nodes(next);
    }
    let address = Address::new(store().track_address(TrackNumber(7)));
    let (notice, next) = stage.replied(fail("still not"));
    assert_eq!(notice, None);
    let Next::Fail(message) = next else { panic!("expected to fail") };
    assert_eq!(message, format!("read track 7 ({address}): still not"));
}

// a stream is read from the storage nodes alone, and checked all the same
#[test]
fn streams() {
    let stream = |reply| {
        let Next::Stream(stage) = store().read_pack(&pack(true), true) else {
            panic!("expected a stream")
        };
        stage.replied(reply).1
    };
    assert!(matches!(stream(Ok(b"abc".to_vec())), Next::Done(_)));
    let Next::Fail(message) = stream(Ok(b"abd".to_vec())) else { panic!("expected to fail") };
    assert_eq!(message, "pack stream at track 7 does not match the digest the index recorded");
    let Next::Fail(message) = stream(fail("gone")) else { panic!("expected to fail") };
    assert_eq!(message, "read pack stream at track 7: gone");
}
