//! Reading tracks: where to ask, how often, and which bytes to believe
//!
//! A read goes through stages. Each stage is a value that says what to ask for, and
//! turns the reply into the next stage, so the caller only carries questions out and
//! replies back in. A gateway, where there is one, is asked first: it is reachable over
//! plain 443 where storage nodes may not be, and much faster, but its bytes arrive
//! unproven, so none of them are handed on unchecked.

use vstd::prelude::*;

use crate::crypto;
use crate::index::{PackEntry, PackEntryView};
use crate::store::Store;
use crate::text;
use crate::text_laws;
use crate::track::TrackNumber;

verus! {

/// Backoff between read attempts
///
/// The last entry is never slept on, so this is nine tries over about forty-two
/// seconds.
pub const READ_BACKOFF_MS: [u64; 9] = [400, 800, 1_600, 3_200, 6_000, 8_000, 10_000, 12_000, 0];

/// How many times to re-try a gateway fetch that came back rate limited
pub const GATEWAY_RATE_LIMIT_RETRIES: u64 = 3;

/// Wait used when a rate-limited gateway gives us no `Retry-After`, in nanoseconds
pub const DEFAULT_RETRY_AFTER_NS: u64 = 1_000_000_000;

/// Ceiling on an honoured `Retry-After`, in nanoseconds
///
/// A public gateway asking us to wait several minutes is a signal to go direct,
/// not to stall the user's clone.
pub const MAX_RETRY_AFTER_NS: u64 = 10_000_000_000;

/// How long to wait after an attempt, from a table whose last entry is never slept on
pub open spec fn backoff_after(table: Seq<u64>, attempt: int) -> Option<u64> {
    if 0 <= attempt && attempt + 1 < table.len() {
        Some(table[attempt])
    } else {
        None
    }
}

/// How long to wait after an attempt, from a table whose last entry is never slept on
pub fn backoff(table: &[u64], attempt: usize) -> (wait: Option<u64>)
    ensures
        wait == backoff_after(table@, attempt as int),
{
    if attempt < table.len() && attempt + 1 < table.len() {
        Some(table[attempt])
    } else {
        None
    }
}

/// How long to wait for a rate-limited gateway, given what it asked for
pub open spec fn retry_wait(retry_after: Option<u128>) -> u128 {
    let asked = match retry_after {
        Some(asked) => asked,
        None => 1_000_000_000,
    };
    if asked < 10_000_000_000 {
        asked
    } else {
        10_000_000_000
    }
}

/// How long to wait for a rate-limited gateway, in nanoseconds
pub fn gateway_wait(retry_after: Option<u128>) -> (wait: u64)
    ensures
        wait == retry_wait(retry_after),
{
    match retry_after {
        Some(asked) => {
            if asked < MAX_RETRY_AFTER_NS as u128 {
                asked as u64
            } else {
                MAX_RETRY_AFTER_NS
            }
        },
        None => DEFAULT_RETRY_AFTER_NS,
    }
}

/// What is to be read
#[derive(Debug)]
pub struct Request {
    /// The pack to check the bytes against, or nothing when they have to be checked
    /// against the chain
    pub pack: Option<PackEntry>,
    pub track: TrackNumber,
    /// The address the track is kept under
    pub address: [u8; 32],
}

/// What is to be read
pub struct RequestView {
    pub pack: Option<PackEntryView>,
    pub track: TrackNumber,
    pub address: [u8; 32],
}

impl View for Request {
    type V = RequestView;

    open spec fn view(&self) -> RequestView {
        RequestView {
            pack: match self.pack {
                Some(entry) => Some(entry@),
                None => None,
            },
            track: self.track,
            address: self.address,
        }
    }
}

/// Asking the gateway
#[derive(Debug)]
pub struct GatewayRead {
    pub request: Request,
    pub attempt: u64,
}

/// Having the gateway's bytes checked against the chain
#[derive(Debug)]
pub struct VerifyRead {
    pub request: Request,
    pub bytes: Vec<u8>,
}

/// Asking the storage nodes, which check the bytes against the chain themselves
#[derive(Debug)]
pub struct DirectRead {
    pub request: Request,
    pub attempt: usize,
}

/// Asking the storage nodes for a stream of tracks
#[derive(Debug)]
pub struct StreamRead {
    pub request: Request,
}

/// What to do next about a read
#[derive(Debug)]
pub enum Next {
    /// Ask the gateway, after waiting this many nanoseconds
    Gateway(GatewayRead, u64),
    /// Have the bytes checked
    Verify(VerifyRead),
    /// Ask the storage nodes, after waiting this many milliseconds
    Direct(DirectRead, u64),
    /// Ask the storage nodes for a stream
    Stream(StreamRead),
    /// These are the bytes
    Done(Vec<u8>),
    /// There is no reading it
    Fail(String),
}

/// What to do next about a read
pub enum NextView {
    Gateway(RequestView, u64, u64),
    Verify(RequestView, Seq<u8>),
    Direct(RequestView, int, u64),
    Stream(RequestView),
    Done(Seq<u8>),
    Fail(Seq<char>),
}

impl View for Next {
    type V = NextView;

    open spec fn view(&self) -> NextView {
        match self {
            Next::Gateway(stage, wait) => NextView::Gateway(stage.request@, stage.attempt, *wait),
            Next::Verify(stage) => NextView::Verify(stage.request@, stage.bytes@),
            Next::Direct(stage, wait) => NextView::Direct(
                stage.request@,
                stage.attempt as int,
                *wait,
            ),
            Next::Stream(stage) => NextView::Stream(stage.request@),
            Next::Done(bytes) => NextView::Done(bytes@),
            Next::Fail(message) => NextView::Fail(message@),
        }
    }
}

/// What the user is told on the way, and what to do next
pub type Step = (Option<Seq<char>>, NextView);

/// What a gateway says
#[derive(Debug)]
pub enum GatewayReply {
    Served(Vec<u8>),
    /// It is rate limiting, and may have said for how many nanoseconds
    RateLimited(Option<u128>),
    Failed(String),
}

/// A read that starts, or starts over, at the storage nodes
pub open spec fn direct(request: RequestView) -> NextView {
    NextView::Direct(request, 0, 0)
}

/// What follows from a gateway's reply
pub open spec fn after_gateway(request: RequestView, attempt: u64, reply: GatewayReply) -> Step {
    let track = text::decimal_text(request.track.0 as nat);
    match reply {
        GatewayReply::Served(bytes) => match request.pack {
            None => (None, NextView::Verify(request, bytes@)),
            Some(entry) => if entry.describes(bytes@) {
                (None, NextView::Done(bytes@))
            } else {
                (
                    Some(
                        "tape: gateway pack at track "@ + track
                            + " failed its digest; refetching from storage nodes"@,
                    ),
                    direct(request),
                )
            },
        },
        GatewayReply::RateLimited(retry_after) => if attempt >= 3 {
            (
                Some("tape: gateway still rate limiting; reading from storage nodes instead"@),
                direct(request),
            )
        } else {
            (
                None,
                NextView::Gateway(request, (attempt + 1) as u64, retry_wait(retry_after) as u64),
            )
        },
        GatewayReply::Failed(reason) => (
            Some("tape: gateway could not serve track "@ + track + " ("@ + reason@ + ")"@),
            direct(request),
        ),
    }
}

/// What follows from the check of a gateway's bytes
pub open spec fn after_verify(
    request: RequestView,
    bytes: Seq<u8>,
    verified: Result<bool, String>,
) -> Step {
    let track = text::decimal_text(request.track.0 as nat);
    match verified {
        Ok(true) => (None, NextView::Done(bytes)),
        Ok(false) => (
            Some(
                "tape: gateway bytes for track "@ + track
                    + " do not match the on-chain commitment; refetching from storage nodes"@,
            ),
            direct(request),
        ),
        Err(reason) => (
            Some(
                "tape: could not verify gateway bytes for track "@ + track + " ("@ + reason@
                    + "); refetching from storage nodes"@,
            ),
            direct(request),
        ),
    }
}

/// What follows from the storage nodes' reply
pub open spec fn after_direct(
    request: RequestView,
    attempt: int,
    reply: Result<Vec<u8>, String>,
) -> Step {
    let track = text::decimal_text(request.track.0 as nat);
    match reply {
        Ok(bytes) => if request.pack is None || request.pack->0.describes(bytes@) {
            (None, NextView::Done(bytes@))
        } else {
            (
                None,
                NextView::Fail(
                    "pack at track "@ + track + " does not match the digest the index recorded"@,
                ),
            )
        },
        Err(reason) => match backoff_after(READ_BACKOFF_MS@, attempt) {
            Some(wait) => (
                Some(
                    "tape: track "@ + track + " not readable yet ("@ + reason@ + "); retrying in "@
                        + text::decimal_text(wait as nat) + "ms"@,
                ),
                NextView::Direct(request, attempt + 1, wait),
            ),
            None => (
                None,
                NextView::Fail(
                    "read track "@ + track + " ("@ + crypto::address_text(request.address) + "): "@
                        + reason@,
                ),
            ),
        },
    }
}

/// What follows from the storage nodes' reply about a stream
pub open spec fn after_stream(request: RequestView, reply: Result<Vec<u8>, String>) -> Step {
    let track = text::decimal_text(request.track.0 as nat);
    match reply {
        Ok(bytes) => if request.pack is None || request.pack->0.describes(bytes@) {
            (None, NextView::Done(bytes@))
        } else {
            (
                None,
                NextView::Fail(
                    "pack stream at track "@ + track
                        + " does not match the digest the index recorded"@,
                ),
            )
        },
        Err(reason) => (
            None,
            NextView::Fail("read pack stream at track "@ + track + ": "@ + reason@),
        ),
    }
}

/// Content of a step
pub open spec fn step_view(step: (Option<String>, Next)) -> Step {
    (text::opt_view(step.0), step.1@)
}

/// A message about a track
fn about(before: &str, track: TrackNumber, after: &str) -> (message: String)
    ensures
        message@ == before@ + text::decimal_text(track.0 as nat) + after@,
{
    let mut message = text::concat(before, text::decimal(track.0).as_str());
    message.append(after);
    message
}

impl Request {
    /// Whether bytes are what the request is for, as far as that shows without the chain
    fn accepts(&self, bytes: &Vec<u8>) -> (accepted: bool)
        ensures
            accepted == (self@.pack is None || self@.pack->0.describes(bytes@)),
    {
        match &self.pack {
            Some(entry) => entry.matches(bytes.as_slice()),
            None => true,
        }
    }

    fn go_direct(self) -> (next: Next)
        ensures
            next@ == direct(self@),
    {
        Next::Direct(DirectRead { request: self, attempt: 0 }, 0)
    }
}

impl GatewayRead {
    /// Take in the gateway's reply
    ///
    /// Rate limiting is expected rather than exceptional. Public gateways are
    /// throttled, and the right response is to honour `Retry-After` briefly and then
    /// stop leaning on someone else's capacity.
    pub fn replied(self, reply: GatewayReply) -> (step: (Option<String>, Next))
        ensures
            step_view(step) == after_gateway(self.request@, self.attempt, reply),
    {
        let GatewayRead { request, attempt } = self;
        match reply {
            GatewayReply::Served(bytes) => {
                if request.pack.is_none() {
                    return (None, Next::Verify(VerifyRead { request, bytes }));
                }
                if request.accepts(&bytes) {
                    return (None, Next::Done(bytes));
                }
                let notice = about(
                    "tape: gateway pack at track ",
                    request.track,
                    " failed its digest; refetching from storage nodes",
                );
                (Some(notice), request.go_direct())
            },
            GatewayReply::RateLimited(retry_after) => {
                if attempt >= GATEWAY_RATE_LIMIT_RETRIES {
                    let notice =
                        "tape: gateway still rate limiting; reading from storage nodes instead".to_owned();
                    return (Some(notice), request.go_direct());
                }
                (
                    None,
                    Next::Gateway(
                        GatewayRead { request, attempt: attempt + 1 },
                        gateway_wait(retry_after),
                    ),
                )
            },
            GatewayReply::Failed(reason) => {
                let mut notice = about("tape: gateway could not serve track ", request.track, " (");
                notice.append(reason.as_str());
                notice.append(")");
                (Some(notice), request.go_direct())
            },
        }
    }
}

impl VerifyRead {
    /// Take in whether the bytes match the commitment recorded on-chain
    ///
    /// Bytes that fail are discarded and refetched from storage nodes, so a gateway
    /// buys speed and reachability without being trusted: one that is broken, stale,
    /// or actively lying simply loses.
    pub fn replied(self, verified: Result<bool, String>) -> (step: (Option<String>, Next))
        ensures
            step_view(step) == after_verify(self.request@, self.bytes@, verified),
    {
        let VerifyRead { request, bytes } = self;
        match verified {
            Ok(true) => (None, Next::Done(bytes)),
            Ok(false) => {
                let notice = about(
                    "tape: gateway bytes for track ",
                    request.track,
                    " do not match the on-chain commitment; refetching from storage nodes",
                );
                (Some(notice), request.go_direct())
            },
            Err(reason) => {
                let mut notice = about(
                    "tape: could not verify gateway bytes for track ",
                    request.track,
                    " (",
                );
                notice.append(reason.as_str());
                notice.append("); refetching from storage nodes");
                (Some(notice), request.go_direct())
            },
        }
    }
}

impl DirectRead {
    /// Take in the storage nodes' reply
    ///
    /// Retries, because a track can be certified on-chain before enough peers will
    /// serve its slices. Reading back something written seconds ago, which is
    /// exactly what a push does to confirm its own index, otherwise fails with
    /// "insufficient slices" on a track that is perfectly fine.
    pub fn replied(self, reply: Result<Vec<u8>, String>) -> (step: (Option<String>, Next))
        ensures
            step_view(step) == after_direct(self.request@, self.attempt as int, reply),
    {
        let DirectRead { request, attempt } = self;
        match reply {
            Ok(bytes) => {
                if request.accepts(&bytes) {
                    return (None, Next::Done(bytes));
                }
                let message = about(
                    "pack at track ",
                    request.track,
                    " does not match the digest the index recorded",
                );
                (None, Next::Fail(message))
            },
            Err(reason) => {
                match backoff(&READ_BACKOFF_MS, attempt) {
                    Some(wait) => {
                        let mut notice = about("tape: track ", request.track, " not readable yet (");
                        notice.append(reason.as_str());
                        notice.append("); retrying in ");
                        notice.append(text::decimal(wait).as_str());
                        notice.append("ms");
                        (
                            Some(notice),
                            Next::Direct(DirectRead { request, attempt: attempt + 1 }, wait),
                        )
                    },
                    None => {
                        let mut message = about("read track ", request.track, " (");
                        message.append(crypto::show_address(&request.address).as_str());
                        message.append("): ");
                        message.append(reason.as_str());
                        (None, Next::Fail(message))
                    },
                }
            },
        }
    }
}

impl StreamRead {
    /// Take in the storage nodes' reply
    pub fn replied(self, reply: Result<Vec<u8>, String>) -> (step: (Option<String>, Next))
        ensures
            step_view(step) == after_stream(self.request@, reply),
    {
        let StreamRead { request } = self;
        match reply {
            Ok(bytes) => {
                if request.accepts(&bytes) {
                    return (None, Next::Done(bytes));
                }
                let message = about(
                    "pack stream at track ",
                    request.track,
                    " does not match the digest the index recorded",
                );
                (None, Next::Fail(message))
            },
            Err(reason) => {
                let mut message = about("read pack stream at track ", request.track, ": ");
                message.append(reason.as_str());
                (None, Next::Fail(message))
            },
        }
    }
}

/// Where a read starts
pub open spec fn first_stage(request: RequestView, has_gateway: bool) -> NextView {
    if request.pack is Some && request.pack->0.stream {
        NextView::Stream(request)
    } else if has_gateway {
        NextView::Gateway(request, 0, 0)
    } else {
        direct(request)
    }
}

impl Store {
    /// Start to fetch a pack recorded in the index, checking it against that record
    ///
    /// The index this entry came from was proven against its on-chain commitment,
    /// so its digest is a trustworthy statement about the pack. That is what makes
    /// it safe to take the bulk bytes from an untrusted gateway: a mismatch means
    /// we throw them away and go direct.
    pub fn read_pack(&self, entry: &PackEntry, has_gateway: bool) -> (next: Next)
        ensures
            next@ == first_stage(
                RequestView {
                    pack: Some(entry@),
                    track: TrackNumber(entry.track),
                    address: crypto::track_address_bytes(self@.bucket, entry.track),
                },
                has_gateway,
            ),
    {
        let track = TrackNumber(entry.track);
        let request = Request {
            pack: Some(entry.clone()),
            track,
            address: self.track_address(track),
        };
        if entry.stream {
            Next::Stream(StreamRead { request })
        } else if has_gateway {
            Next::Gateway(GatewayRead { request, attempt: 0 }, 0)
        } else {
            request.go_direct()
        }
    }

    /// Start to read a specific version of the ref index, proving it against its
    /// on-chain commitment
    pub fn read_index_at(&self, track: TrackNumber, has_gateway: bool) -> (next: Next)
        ensures
            next@ == first_stage(
                RequestView {
                    pack: None,
                    track,
                    address: crypto::track_address_bytes(self@.bucket, track.0),
                },
                has_gateway,
            ),
    {
        let request = Request { pack: None, track, address: self.track_address(track) };
        if has_gateway {
            Next::Gateway(GatewayRead { request, attempt: 0 }, 0)
        } else {
            request.go_direct()
        }
    }
}

/// Whether a read that stands here is still about the same request, and has only come to
/// bytes that are the pack asked for
pub open spec fn is_sound(request: RequestView, next: NextView) -> bool {
    match next {
        NextView::Gateway(r, _, _) => r == request,
        NextView::Verify(r, _) => r == request && request.pack is None,
        NextView::Direct(r, _, _) => r == request,
        NextView::Stream(r) => r == request,
        NextView::Done(bytes) => request.pack is Some ==> request.pack->0.describes(bytes),
        NextView::Fail(_) => true,
    }
}

/// Whatever anyone replies, a pack is only ever handed on when it matches the digest that the
/// index recorded for it
pub proof fn packs_are_checked(
    request: RequestView,
    gateway_attempt: u64,
    gateway_reply: GatewayReply,
    direct_attempt: int,
    direct_reply: Result<Vec<u8>, String>,
    has_gateway: bool,
)
    ensures
        is_sound(request, first_stage(request, has_gateway)),
        is_sound(request, after_gateway(request, gateway_attempt, gateway_reply).1),
        is_sound(request, after_direct(request, direct_attempt, direct_reply).1),
        is_sound(request, after_stream(request, direct_reply).1),
{
}

/// Bytes that a gateway serves for an index are only handed on once they are proven against
/// the chain
pub proof fn gateway_bytes_are_proven(
    request: RequestView,
    attempt: u64,
    reply: GatewayReply,
    bytes: Seq<u8>,
    verified: Result<bool, String>,
)
    requires
        request.pack is None,
    ensures
        !(after_gateway(request, attempt, reply).1 is Done),
        is_sound(request, after_verify(request, bytes, verified).1),
        after_verify(request, bytes, verified).1 is Done <==> verified == Ok::<bool, String>(true),
        after_verify(request, bytes, verified).1 is Done ==> after_verify(
            request,
            bytes,
            verified,
        ).1 == NextView::Done(bytes),
{
}

/// How many more replies a read can take at most
pub open spec fn replies_left(next: NextView) -> nat {
    match next {
        NextView::Gateway(_, attempt, _) => if attempt < 3 {
            (14 - attempt) as nat
        } else {
            11
        },
        NextView::Verify(_, _) => 10,
        NextView::Direct(_, attempt, _) => if 0 <= attempt < 9 {
            (9 - attempt) as nat
        } else {
            1
        },
        NextView::Stream(_) => 1,
        NextView::Done(_) => 0,
        NextView::Fail(_) => 0,
    }
}

/// Every read comes to an end: the gateway is asked four times at most and the storage nodes
/// nine times at most
pub proof fn reads_end(
    request: RequestView,
    gateway_attempt: u64,
    gateway_reply: GatewayReply,
    wait: u64,
    bytes: Seq<u8>,
    verified: Result<bool, String>,
    direct_attempt: int,
    direct_reply: Result<Vec<u8>, String>,
)
    ensures
        replies_left(after_gateway(request, gateway_attempt, gateway_reply).1) < replies_left(
            NextView::Gateway(request, gateway_attempt, wait),
        ),
        replies_left(after_verify(request, bytes, verified).1) < replies_left(
            NextView::Verify(request, bytes),
        ),
        replies_left(after_direct(request, direct_attempt, direct_reply).1) < replies_left(
            NextView::Direct(request, direct_attempt, wait),
        ),
        replies_left(after_stream(request, direct_reply).1) < replies_left(
            NextView::Stream(request),
        ),
{
}

/// A gateway is never waited for longer than ten seconds at a time
pub proof fn gateway_waits_are_short(request: RequestView, attempt: u64, reply: GatewayReply)
    ensures
        after_gateway(request, attempt, reply).1 matches NextView::Gateway(_, _, wait) ==> wait
            <= 10_000_000_000,
{
}

/// What the storage nodes reply is taken: any bytes for an index, which the nodes have checked
/// themselves, and for a pack the bytes that its entry describes; other bytes end the read
pub proof fn replied_bytes_are_taken(request: RequestView, attempt: int, bytes: Vec<u8>)
    ensures
        request.pack is None ==> {
            &&& after_direct(request, attempt, Ok(bytes)) == (
                None::<Seq<char>>,
                NextView::Done(bytes@),
            )
            &&& after_stream(request, Ok(bytes)) == (None::<Seq<char>>, NextView::Done(bytes@))
        },
        request.pack matches Some(entry) ==> {
            &&& entry.describes(bytes@) ==> after_direct(request, attempt, Ok(bytes)) == (
                None::<Seq<char>>,
                NextView::Done(bytes@),
            )
            &&& entry.describes(bytes@) ==> after_stream(request, Ok(bytes)) == (
                None::<Seq<char>>,
                NextView::Done(bytes@),
            )
            &&& !entry.describes(bytes@) ==> after_direct(request, attempt, Ok(bytes)).1 is Fail
            &&& !entry.describes(bytes@) ==> after_stream(request, Ok(bytes)).1 is Fail
        },
{
}

/// What a gateway serves is used: a pack that its entry describes at once, and an index as soon
/// as the chain vouches for its bytes
pub proof fn served_bytes_are_used(request: RequestView, attempt: u64, bytes: Vec<u8>)
    ensures
        request.pack is None ==> {
            &&& after_gateway(request, attempt, GatewayReply::Served(bytes)) == (
                None::<Seq<char>>,
                NextView::Verify(request, bytes@),
            )
            &&& after_verify(request, bytes@, Ok(true)) == (
                None::<Seq<char>>,
                NextView::Done(bytes@),
            )
        },
        request.pack matches Some(entry) ==> (entry.describes(bytes@) ==> after_gateway(
            request,
            attempt,
            GatewayReply::Served(bytes),
        ) == (None::<Seq<char>>, NextView::Done(bytes@))),
{
}

/// A gateway that cannot be used costs a notice and nothing else: the read goes on at the
/// storage nodes, from the start and at once
pub proof fn unusable_gateways_are_passed_over(
    request: RequestView,
    attempt: u64,
    reply: GatewayReply,
    bytes: Seq<u8>,
    verified: Result<bool, String>,
)
    ensures
        ({
            let unusable = match reply {
                GatewayReply::Served(served) => request.pack is Some
                    && !request.pack->0.describes(served@),
                GatewayReply::RateLimited(_) => attempt >= 3,
                GatewayReply::Failed(_) => true,
            };
            unusable ==> after_gateway(request, attempt, reply).0 is Some && after_gateway(
                request,
                attempt,
                reply,
            ).1 == NextView::Direct(request, 0, 0)
        }),
        verified != Ok::<bool, String>(true) ==> after_verify(request, bytes, verified).0 is Some
            && after_verify(request, bytes, verified).1 == NextView::Direct(request, 0, 0),
{
}

/// A rate-limited gateway is asked again as long as it was asked fewer than four times, after the
/// wait that it asks for, a second when it asks for none and ten when it asks for more
pub proof fn rate_limits_are_honoured(
    request: RequestView,
    attempt: u64,
    retry_after: Option<u128>,
)
    requires
        attempt < 3,
    ensures
        ({
            let next = after_gateway(request, attempt, GatewayReply::RateLimited(retry_after)).1;
            &&& next is Gateway
            &&& next->Gateway_0 == request
            &&& next->Gateway_1 == attempt + 1
            &&& match retry_after {
                None => next->Gateway_2 == 1_000_000_000,
                Some(asked) => if asked <= 10_000_000_000 {
                    next->Gateway_2 == asked
                } else {
                    next->Gateway_2 == 10_000_000_000
                },
            }
        }),
{
}

/// Storage nodes that fail are asked again, eight times over, with waits that never get shorter;
/// only then does the read fail, saying why
pub proof fn failing_nodes_are_asked_again(request: RequestView, attempt: int, reason: String)
    requires
        0 <= attempt,
    ensures
        ({
            let (notice, next) = after_direct(request, attempt, Err(reason));
            let (_, later) = after_direct(request, attempt + 1, Err(reason));
            &&& attempt < 8 ==> next is Direct && next->Direct_0 == request && next->Direct_1
                == attempt + 1 && 400 <= next->Direct_2 <= 12_000 && notice is Some
            &&& attempt < 7 ==> later is Direct && next->Direct_2 <= later->Direct_2
            &&& attempt >= 8 ==> next is Fail && text_laws::mentions(next->Fail_0, reason@)
                && text_laws::mentions(
                next->Fail_0,
                text::decimal_text(request.track.0 as nat),
            ) && text_laws::mentions(next->Fail_0, crypto::address_text(request.address))
        }),
        after_stream(request, Err(reason)).1 is Fail,
        text_laws::mentions(after_stream(request, Err(reason)).1->Fail_0, reason@),
        text_laws::mentions(
            after_stream(request, Err(reason)).1->Fail_0,
            text::decimal_text(request.track.0 as nat),
        ),
{
    let track = text::decimal_text(request.track.0 as nat);
    let address = crypto::address_text(request.address);
    if attempt >= 8 {
        let message = after_direct(request, attempt, Err(reason)).1->Fail_0;
        text_laws::mentioned(message, "read track "@, track, " ("@ + address + "): "@ + reason@);
        text_laws::mentioned(
            message,
            "read track "@ + track + " ("@,
            address,
            "): "@ + reason@,
        );
        text_laws::mentioned(
            message,
            "read track "@ + track + " ("@ + address + "): "@,
            reason@,
            seq![],
        );
    }
    let message = after_stream(request, Err(reason)).1->Fail_0;
    text_laws::mentioned(message, "read pack stream at track "@, track, ": "@ + reason@);
    text_laws::mentioned(
        message,
        "read pack stream at track "@ + track + ": "@,
        reason@,
        seq![],
    );
}

/// How long the first few failures of the storage nodes are waited for altogether
pub open spec fn waited(request: RequestView, reason: String, failures: int) -> int
    decreases failures,
{
    if failures <= 0 {
        0
    } else {
        waited(request, reason, failures - 1) + after_direct(
            request,
            failures - 1,
            Err(reason),
        ).1->Direct_2
    }
}

/// Nine tries at the storage nodes are spread over forty-two seconds
pub proof fn nodes_get_forty_two_seconds(request: RequestView, reason: String)
    ensures
        waited(request, reason, 8) == 42_000,
        after_direct(request, 8, Err(reason)).1 is Fail,
{
    reveal_with_fuel(waited, 9);
}

/// A stream is asked of the storage nodes alone; anything else of the gateway first where there
/// is one, and of the storage nodes where there is none
pub proof fn reads_start_where_they_should(request: RequestView, has_gateway: bool)
    ensures
        request.pack matches Some(entry) ==> (entry.stream ==> first_stage(request, has_gateway)
            == NextView::Stream(request)),
        (request.pack is None || !request.pack->0.stream) ==> {
            &&& has_gateway ==> first_stage(request, has_gateway) == NextView::Gateway(
                request,
                0,
                0,
            )
            &&& !has_gateway ==> first_stage(request, has_gateway) == NextView::Direct(
                request,
                0,
                0,
            )
        },
{
}

/// What the user is told about a read names the track that it is about, and why
pub proof fn notices_name_the_track(
    request: RequestView,
    attempt: u64,
    bytes: Vec<u8>,
    reason: String,
    tries: int,
)
    requires
        0 <= tries < 8,
    ensures
        ({
            let track = text::decimal_text(request.track.0 as nat);
            let failed = after_gateway(request, attempt, GatewayReply::Failed(reason)).0;
            let served = after_gateway(request, attempt, GatewayReply::Served(bytes)).0;
            let denied = after_verify(request, bytes@, Ok(false)).0;
            let unverified = after_verify(request, bytes@, Err(reason)).0;
            let retried = after_direct(request, tries, Err(reason));
            let wrong = after_direct(request, tries, Ok(bytes)).1;
            let wrong_stream = after_stream(request, Ok(bytes)).1;
            &&& failed is Some && text_laws::mentions(failed->0, track) && text_laws::mentions(
                failed->0,
                reason@,
            )
            &&& served is Some ==> text_laws::mentions(served->0, track)
            &&& denied is Some && text_laws::mentions(denied->0, track)
            &&& unverified is Some && text_laws::mentions(unverified->0, track)
                && text_laws::mentions(unverified->0, reason@)
            &&& retried.0 is Some && text_laws::mentions(retried.0->0, track)
                && text_laws::mentions(retried.0->0, reason@) && text_laws::mentions(
                retried.0->0,
                text::decimal_text(retried.1->Direct_2 as nat),
            )
            &&& wrong is Fail ==> text_laws::mentions(wrong->Fail_0, track)
            &&& wrong_stream is Fail ==> text_laws::mentions(wrong_stream->Fail_0, track)
        }),
{
    let track = text::decimal_text(request.track.0 as nat);
    let failed = after_gateway(request, attempt, GatewayReply::Failed(reason)).0->0;
    text_laws::mentioned(
        failed,
        "tape: gateway could not serve track "@,
        track,
        " ("@ + reason@ + ")"@,
    );
    text_laws::mentioned(
        failed,
        "tape: gateway could not serve track "@ + track + " ("@,
        reason@,
        ")"@,
    );
    if let Some(served) = after_gateway(request, attempt, GatewayReply::Served(bytes)).0 {
        text_laws::mentioned(
            served,
            "tape: gateway pack at track "@,
            track,
            " failed its digest; refetching from storage nodes"@,
        );
    }
    text_laws::mentioned(
        after_verify(request, bytes@, Ok(false)).0->0,
        "tape: gateway bytes for track "@,
        track,
        " do not match the on-chain commitment; refetching from storage nodes"@,
    );
    let unverified = after_verify(request, bytes@, Err(reason)).0->0;
    text_laws::mentioned(
        unverified,
        "tape: could not verify gateway bytes for track "@,
        track,
        " ("@ + reason@ + "); refetching from storage nodes"@,
    );
    text_laws::mentioned(
        unverified,
        "tape: could not verify gateway bytes for track "@ + track + " ("@,
        reason@,
        "); refetching from storage nodes"@,
    );
    let retried = after_direct(request, tries, Err(reason));
    let wait = text::decimal_text(retried.1->Direct_2 as nat);
    text_laws::mentioned(
        retried.0->0,
        "tape: track "@,
        track,
        " not readable yet ("@ + reason@ + "); retrying in "@ + wait + "ms"@,
    );
    text_laws::mentioned(
        retried.0->0,
        "tape: track "@ + track + " not readable yet ("@,
        reason@,
        "); retrying in "@ + wait + "ms"@,
    );
    text_laws::mentioned(
        retried.0->0,
        "tape: track "@ + track + " not readable yet ("@ + reason@ + "); retrying in "@,
        wait,
        "ms"@,
    );
    if let NextView::Fail(message) = after_direct(request, tries, Ok(bytes)).1 {
        text_laws::mentioned(
            message,
            "pack at track "@,
            track,
            " does not match the digest the index recorded"@,
        );
    }
    if let NextView::Fail(message) = after_stream(request, Ok(bytes)).1 {
        text_laws::mentioned(
            message,
            "pack stream at track "@,
            track,
            " does not match the digest the index recorded"@,
        );
    }
}

} // verus!
