//! Enumerating the versions of the ref index
//!
//! The store is append-only, so superseded versions are still there. That is what lets
//! a pusher notice it raced with someone: there is no compare-and-swap to lean on, but
//! nothing is ever actually lost either.

use vstd::prelude::*;

use crate::crypto;
use crate::index::INDEX_NAME;
use crate::reading;
use crate::store;
use crate::store::Store;
use crate::text;
use crate::text_laws;
use crate::track;
use crate::track::TrackNumber;

verus! {

/// Backoff while a freshly created tape propagates to the RPC reader used by
/// this process.
pub const ACCOUNT_PROPAGATION_BACKOFF_MS: [u64; 8] = [
    500,
    1_000,
    2_000,
    4_000,
    5_000,
    5_000,
    5_000,
    0,
];

/// Backoff between listings while one catches up with the chain, last entry never slept on
pub const INDEX_LISTING_BACKOFF_MS: [u64; 8] = [100, 250, 500, 1_000, 2_000, 4_000, 8_000, 0];

/// A track as a tape lists it
#[derive(Clone, Copy, Debug)]
pub struct ListedTrack {
    pub number: TrackNumber,
    pub key: [u8; 32],
}

/// The key that every version of the ref index is stored under
pub open spec fn index_key() -> [u8; 32] {
    crypto::sha256(vstd::utf8::encode_utf8("git/refs.json"@))
}

/// The track numbers of the index versions among some tracks
pub open spec fn versions_among(tracks: Seq<ListedTrack>) -> Seq<TrackNumber>
    decreases tracks.len(),
{
    if tracks.len() == 0 {
        seq![]
    } else if tracks.last().key == index_key() {
        versions_among(tracks.drop_last()).push(tracks.last().number)
    } else {
        versions_among(tracks.drop_last())
    }
}

/// The highest track number among some tracks, no lower than a floor
pub open spec fn highest_among(floor: TrackNumber, tracks: Seq<ListedTrack>) -> TrackNumber
    decreases tracks.len(),
{
    if tracks.len() == 0 {
        floor
    } else {
        let before = highest_among(floor, tracks.drop_last());
        if tracks.last().number.0 > before.0 {
            tracks.last().number
        } else {
            before
        }
    }
}

/// `sorted` holds the same track numbers as `tracks`, in order
pub open spec fn is_sorted_copy(sorted: Seq<TrackNumber>, tracks: Seq<TrackNumber>) -> bool {
    track::in_order(sorted) && sorted.to_multiset() == tracks.to_multiset()
}

/// Sort track numbers
fn sort(tracks: &Vec<TrackNumber>) -> (sorted: Vec<TrackNumber>)
    ensures
        is_sorted_copy(sorted@, tracks@),
{
    let mut sorted: Vec<TrackNumber> = Vec::new();
    let mut i: usize = 0;
    assert(sorted@ =~= tracks@.take(0));
    while i < tracks.len()
        invariant
            i <= tracks@.len(),
            is_sorted_copy(sorted@, tracks@.take(i as int)),
        decreases tracks.len() - i,
    {
        let track = tracks[i];
        let mut at: usize = sorted.len();
        while at > 0 && sorted[at - 1].0 > track.0
            invariant
                at <= sorted@.len(),
                forall|k: int| at <= k < sorted@.len() ==> (#[trigger] sorted@[k]).0 > track.0,
            decreases at,
        {
            at = at - 1;
        }
        let ghost before = sorted@;
        sorted.insert(at, track);
        proof {
            let after = sorted@;
            assert(after =~= before.insert(at as int, track));
            vstd::seq_lib::to_multiset_insert(before, at as int, track);
            vstd::seq_lib::to_multiset_build(tracks@.take(i as int), track);
            assert(tracks@.take(i + 1) =~= tracks@.take(i as int).push(track));
            assert forall|p: int, q: int| 0 <= p < q < after.len() implies (#[trigger] after[p]).0
                <= (#[trigger] after[q]).0 by {
                let x = if p < at { p } else { p - 1 };
                let y = if q < at { q } else { q - 1 };
                if p != at {
                    assert(after[p] == before[x]);
                    if p < at && at > 0 {
                        assert(before[x].0 <= before[at - 1].0 || x == at - 1);
                    }
                }
                if q != at {
                    assert(after[q] == before[y]);
                }
                if p != at && q != at {
                    assert(before[x].0 <= before[y].0);
                }
            }
        }
        i = i + 1;
    }
    assert(tracks@.take(tracks@.len() as int) =~= tracks@);
    sorted
}

/// Versions of the ref index, and the highest track number the listing reached
#[derive(Debug)]
pub struct Versions {
    pub versions: Vec<TrackNumber>,
    pub highest: TrackNumber,
}

/// A listing in the making
pub struct Listing {
    versions: Vec<TrackNumber>,
    highest: TrackNumber,
    key: [u8; 32],
    seen: Ghost<Seq<ListedTrack>>,
}

impl View for Listing {
    type V = Seq<ListedTrack>;

    /// The tracks listed so far
    closed spec fn view(&self) -> Seq<ListedTrack> {
        self.seen@
    }
}

impl Listing {
    #[verifier::type_invariant]
    closed spec fn is_consistent(&self) -> bool {
        &&& self.key == index_key()
        &&& self.versions@ == versions_among(self.seen@)
        &&& self.highest == highest_among(TrackNumber(0), self.seen@)
    }

    /// A listing of nothing
    pub fn new() -> (listing: Listing)
        ensures
            listing@ == Seq::<ListedTrack>::empty(),
    {
        let versions: Vec<TrackNumber> = Vec::new();
        let key = crypto::hash(INDEX_NAME.as_bytes());
        assert(versions@ =~= versions_among(Seq::<ListedTrack>::empty()));
        Listing { versions, highest: TrackNumber(0), key, seen: Ghost(Seq::empty()) }
    }

    /// Take in one page
    pub fn add_page(self, tracks: &[ListedTrack]) -> (listing: Listing)
        ensures
            listing@ == self@ + tracks@,
    {
        proof {
            use_type_invariant(&self);
        }
        let Listing { versions, highest, key, seen } = self;
        let mut versions = versions;
        let mut highest = highest;
        let ghost before = seen@;
        let mut i: usize = 0;
        assert(before + tracks@.take(0) =~= before);
        while i < tracks.len()
            invariant
                i <= tracks@.len(),
                key == index_key(),
                versions@ == versions_among(before + tracks@.take(i as int)),
                highest == highest_among(TrackNumber(0), before + tracks@.take(i as int)),
            decreases tracks.len() - i,
        {
            proof {
                let all = before + tracks@.take(i + 1);
                assert(all.drop_last() =~= before + tracks@.take(i as int));
                assert(all.last() == tracks@[i as int]);
            }
            let listed = tracks[i];
            if listed.number.0 > highest.0 {
                highest = listed.number;
            }
            if store::same_address(&listed.key, &key) {
                versions.push(listed.number);
            }
            i = i + 1;
        }
        assert(tracks@.take(tracks@.len() as int) =~= tracks@);
        Listing { versions, highest, key, seen: Ghost(before + tracks@) }
    }

    /// Every version of the ref index in the listing, ascending, with the highest track
    /// number it reached
    pub fn finish(self) -> (all: Versions)
        ensures
            is_sorted_copy(all.versions@, versions_among(self@)),
            all.highest == highest_among(TrackNumber(0), self@),
    {
        proof {
            use_type_invariant(&self);
        }
        Versions { versions: sort(&self.versions), highest: self.highest }
    }
}

/// Why a tape could not be listed
#[derive(Debug)]
pub struct ListError {
    /// The category of an RPC error, nothing for an error of another kind
    pub category: Option<String>,
    pub message: String,
}

impl ListError {
    /// Whether the tape's account is merely not visible yet
    pub open spec fn is_propagation(self) -> bool {
        self.category is Some && self.category->0@ == "not_found"@
    }

    fn is_account_propagation_error(&self) -> (propagating: bool)
        ensures
            propagating == self.is_propagation(),
    {
        match &self.category {
            Some(category) => store::is_account_propagation_category(category.as_str()),
            None => false,
        }
    }
}

/// Listing a tape whose account may not be visible yet
#[derive(Debug)]
pub struct SeenListing {
    pub attempt: usize,
}

/// What to do next about a listing
#[derive(Debug)]
pub enum SeenNext {
    Done(Versions),
    /// List again, after waiting this many milliseconds
    Again(SeenListing, u64),
    Fail(String),
}

/// What to do next about a listing
pub enum SeenNextView {
    Done(Seq<TrackNumber>, TrackNumber),
    Again(int, u64),
    Fail(Seq<char>),
}

impl View for SeenNext {
    type V = SeenNextView;

    open spec fn view(&self) -> SeenNextView {
        match self {
            SeenNext::Done(seen) => SeenNextView::Done(seen.versions@, seen.highest),
            SeenNext::Again(stage, wait) => SeenNextView::Again(stage.attempt as int, *wait),
            SeenNext::Fail(message) => SeenNextView::Fail(message@),
        }
    }
}

/// What follows from a listing
pub open spec fn after_listing(attempt: int, reply: Result<Versions, ListError>) -> (
    Option<Seq<char>>,
    SeenNextView,
) {
    match reply {
        Ok(seen) => (None, SeenNextView::Done(seen.versions@, seen.highest)),
        Err(error) => match reading::backoff_after(ACCOUNT_PROPAGATION_BACKOFF_MS@, attempt) {
            Some(wait) if error.is_propagation() => (
                Some(
                    "tape: tape account is not visible yet; retrying in "@ + text::decimal_text(
                        wait as nat,
                    ) + "ms"@,
                ),
                SeenNextView::Again(attempt + 1, wait),
            ),
            _ => (None, SeenNextView::Fail("list index versions: "@ + error.message@)),
        },
    }
}

impl SeenListing {
    /// Take in a listing
    pub fn replied(self, reply: Result<Versions, ListError>) -> (step: (Option<String>, SeenNext))
        ensures
            (text::opt_view(step.0), step.1@) == after_listing(self.attempt as int, reply),
    {
        match reply {
            Ok(seen) => (None, SeenNext::Done(seen)),
            Err(error) => {
                if error.is_account_propagation_error() {
                    if let Some(wait) = reading::backoff(
                        &ACCOUNT_PROPAGATION_BACKOFF_MS,
                        self.attempt,
                    ) {
                        let mut notice = text::concat(
                            "tape: tape account is not visible yet; retrying in ",
                            text::decimal(wait).as_str(),
                        );
                        notice.append("ms");
                        let again = SeenListing { attempt: self.attempt + 1 };
                        return (Some(notice), SeenNext::Again(again, wait));
                    }
                }
                let message = text::concat("list index versions: ", error.message.as_str());
                (None, SeenNext::Fail(message))
            },
        }
    }
}

/// The track number a listing has to reach before a merge can trust it
pub open spec fn target_for(
    at_least: TrackNumber,
    next_number: Result<TrackNumber, String>,
) -> TrackNumber {
    match next_number {
        Ok(next) => if next.0 > 0 && next.0 - 1 > at_least.0 {
            TrackNumber((next.0 - 1) as u64)
        } else {
            at_least
        },
        Err(_) => at_least,
    }
}

/// The track number a listing has to reach before a merge can trust it, given the number
/// the tape's next track will have
///
/// Where the tape account cannot be read, the floor is worse than the chain, but still
/// better than the first answer we get.
pub fn listing_target(at_least: TrackNumber, next_number: &Result<TrackNumber, String>) -> (step: (
    Option<String>,
    TrackNumber,
))
    ensures
        step.1 == target_for(at_least, *next_number),
        text::opt_view(step.0) == match next_number {
            Ok(_) => None,
            Err(reason) => Some("tape: could not read the tape account ("@ + reason@ + ")"@),
        },
{
    match next_number {
        Ok(next) => {
            let newest = if next.0 > 0 {
                next.0 - 1
            } else {
                0
            };
            if newest > at_least.0 {
                (None, TrackNumber(newest))
            } else {
                (None, at_least)
            }
        },
        Err(reason) => {
            let mut notice = text::concat(
                "tape: could not read the tape account (",
                reason.as_str(),
            );
            notice.append(")");
            (Some(notice), at_least)
        },
    }
}

/// Listing a tape until the listing reaches a track
#[derive(Debug)]
pub struct CompleteListing {
    pub target: TrackNumber,
    pub attempt: usize,
}

/// What to do next about a listing that has to reach a track
#[derive(Debug)]
pub enum CompleteNext {
    Done(Vec<TrackNumber>),
    /// List again, after waiting this many milliseconds
    Again(CompleteListing, u64),
    Fail(String),
}

/// What to do next about a listing that has to reach a track
pub enum CompleteNextView {
    Done(Seq<TrackNumber>),
    Again(TrackNumber, int, u64),
    Fail(Seq<char>),
}

impl View for CompleteNext {
    type V = CompleteNextView;

    open spec fn view(&self) -> CompleteNextView {
        match self {
            CompleteNext::Done(versions) => CompleteNextView::Done(versions@),
            CompleteNext::Again(stage, wait) => CompleteNextView::Again(
                stage.target,
                stage.attempt as int,
                *wait,
            ),
            CompleteNext::Fail(message) => CompleteNextView::Fail(message@),
        }
    }
}

/// What follows from a listing that has to reach a track
pub open spec fn after_complete(
    target: TrackNumber,
    attempt: int,
    versions: Seq<TrackNumber>,
    highest: TrackNumber,
) -> (Option<Seq<char>>, CompleteNextView) {
    if highest.0 >= target.0 {
        (None, CompleteNextView::Done(versions))
    } else {
        match reading::backoff_after(INDEX_LISTING_BACKOFF_MS@, attempt) {
            Some(wait) => (
                Some(
                    "tape: listing has reached track "@ + text::decimal_text(highest.0 as nat)
                        + " of "@ + text::decimal_text(target.0 as nat) + "; retrying in "@
                        + text::decimal_text(wait as nat) + "ms"@,
                ),
                CompleteNextView::Again(target, attempt + 1, wait),
            ),
            None => (None, CompleteNextView::Fail(store::not_listed_text(target))),
        }
    }
}

impl CompleteListing {
    /// Take in a listing
    pub fn replied(self, seen: Versions) -> (step: (Option<String>, CompleteNext))
        ensures
            (text::opt_view(step.0), step.1@) == after_complete(
                self.target,
                self.attempt as int,
                seen.versions@,
                seen.highest,
            ),
    {
        if seen.highest.0 >= self.target.0 {
            return (None, CompleteNext::Done(seen.versions));
        }
        match reading::backoff(&INDEX_LISTING_BACKOFF_MS, self.attempt) {
            Some(wait) => {
                let mut notice = text::concat(
                    "tape: listing has reached track ",
                    text::decimal(seen.highest.0).as_str(),
                );
                notice.append(" of ");
                notice.append(text::decimal(self.target.0).as_str());
                notice.append("; retrying in ");
                notice.append(text::decimal(wait).as_str());
                notice.append("ms");
                let again = CompleteListing { target: self.target, attempt: self.attempt + 1 };
                (Some(notice), CompleteNext::Again(again, wait))
            },
            None => (None, CompleteNext::Fail(store::not_listed(self.target))),
        }
    }
}

impl Store {
    /// Start to list every version of the ref index ever written
    pub fn index_versions(&self) -> (listing: SeenListing)
        ensures
            listing.attempt == 0,
    {
        SeenListing { attempt: 0 }
    }

    /// Start to list every version of the ref index, from a listing that reaches the
    /// chain and `at_least`
    pub fn index_versions_complete(
        &self,
        at_least: TrackNumber,
        next_number: &Result<TrackNumber, String>,
    ) -> (step: (Option<String>, CompleteListing))
        ensures
            step.1.attempt == 0,
            step.1.target == target_for(at_least, *next_number),
            text::opt_view(step.0) == match next_number {
                Ok(_) => None,
                Err(reason) => Some("tape: could not read the tape account ("@ + reason@ + ")"@),
            },
    {
        let (notice, target) = listing_target(at_least, next_number);
        (notice, CompleteListing { target, attempt: 0 })
    }

    /// Where the current ref index is, or `None` when nothing has been pushed yet
    pub fn read_index(&self, versions: &[TrackNumber]) -> (track: Option<TrackNumber>)
        ensures
            track == if versions@.len() > 0 {
                Some(versions@.last())
            } else {
                None
            },
    {
        if versions.len() > 0 {
            Some(versions[versions.len() - 1])
        } else {
            None
        }
    }
}

/// A listing holds exactly the tracks that are stored under the index's key
pub proof fn versions_are_those_of_the_index(tracks: Seq<ListedTrack>, number: TrackNumber)
    ensures
        versions_among(tracks).contains(number) <==> exists|i: int|
            0 <= i < tracks.len() && (#[trigger] tracks[i]).number == number && tracks[i].key
                == index_key(),
    decreases tracks.len(),
{
    let versions = versions_among(tracks);
    if tracks.len() > 0 {
        let init = tracks.drop_last();
        let before = versions_among(init);
        versions_are_those_of_the_index(init, number);
        assert(tracks[tracks.len() - 1] == tracks.last());
        if versions.contains(number) {
            let i = choose|i: int| 0 <= i < versions.len() && versions[i] == number;
            if i < before.len() {
                assert(before[i] == number);
                let k = choose|k: int|
                    0 <= k < init.len() && (#[trigger] init[k]).number == number && init[k].key
                        == index_key();
                assert(tracks[k] == init[k]);
            }
        }
        if exists|i: int|
            0 <= i < tracks.len() && (#[trigger] tracks[i]).number == number && tracks[i].key
                == index_key() {
            let i = choose|i: int|
                0 <= i < tracks.len() && (#[trigger] tracks[i]).number == number && tracks[i].key
                    == index_key();
            if i < init.len() {
                assert(init[i] == tracks[i]);
                let k = choose|k: int| 0 <= k < before.len() && before[k] == number;
                assert(versions[k] == number);
            } else {
                assert(versions[versions.len() - 1] == number);
            }
        }
    }
}

/// Sorting keeps every version and adds none; as long as no track is listed twice, the
/// versions come out strictly ascending
pub proof fn sorted_versions_ascend(sorted: Seq<TrackNumber>, versions: Seq<TrackNumber>)
    requires
        is_sorted_copy(sorted, versions),
    ensures
        forall|number: TrackNumber| #[trigger]
            sorted.contains(number) <==> versions.contains(number),
        versions.no_duplicates() ==> track::ascending(sorted),
{
    broadcast use vstd::seq_lib::group_to_multiset_ensures;

    assert forall|number: TrackNumber| #[trigger]
        sorted.contains(number) <==> versions.contains(number) by {
        assert(sorted.to_multiset().count(number) == versions.to_multiset().count(number));
    }
    if versions.no_duplicates() {
        versions.lemma_multiset_has_no_duplicates();
        sorted.lemma_multiset_has_no_duplicates_conv();
        assert forall|i: int, j: int| 0 <= i < j < sorted.len() implies (#[trigger] sorted[i]).0
            < (#[trigger] sorted[j]).0 by {
            assert(sorted[i].0 <= sorted[j].0);
            assert(sorted[i] != sorted[j]);
        }
    }
}

/// The listing that a merge goes by reaches both the chain, where that could be read, and
/// the track it was asked for
pub proof fn complete_listings_reach_their_target(
    at_least: TrackNumber,
    next_number: Result<TrackNumber, String>,
    attempt: int,
    versions: Seq<TrackNumber>,
    highest: TrackNumber,
)
    requires
        after_complete(
            target_for(at_least, next_number),
            attempt,
            versions,
            highest,
        ).1 is Done,
    ensures
        highest.0 >= at_least.0,
        next_number is Ok ==> highest.0 + 1 >= (next_number->Ok_0).0,
{
}

/// The highest track number of a listing is one of them, or the floor, and none is above it
pub proof fn highest_is_the_maximum(floor: TrackNumber, tracks: Seq<ListedTrack>)
    ensures
        highest_among(floor, tracks).0 >= floor.0,
        forall|i: int|
            0 <= i < tracks.len() ==> (#[trigger] tracks[i]).number.0 <= highest_among(
                floor,
                tracks,
            ).0,
        highest_among(floor, tracks) == floor || exists|i: int|
            0 <= i < tracks.len() && (#[trigger] tracks[i]).number == highest_among(floor, tracks),
    decreases tracks.len(),
{
    if tracks.len() > 0 {
        let init = tracks.drop_last();
        highest_is_the_maximum(floor, init);
        let top = highest_among(floor, tracks);
        assert(tracks[tracks.len() - 1] == tracks.last());
        assert forall|i: int| 0 <= i < tracks.len() implies (#[trigger] tracks[i]).number.0
            <= top.0 by {
            if i < init.len() {
                assert(init[i] == tracks[i]);
            }
        }
        if top != floor && top != tracks.last().number {
            let i = choose|i: int|
                0 <= i < init.len() && (#[trigger] init[i]).number == highest_among(floor, init);
            assert(tracks[i].number == top);
        }
    }
}

/// The versions in two lots of tracks are those of the one and then those of the other; a track
/// of its own is a version exactly when it is stored under the hash of the index's name
pub proof fn versions_add_up(
    tracks: Seq<ListedTrack>,
    others: Seq<ListedTrack>,
    track: ListedTrack,
)
    ensures
        versions_among(tracks + others) == versions_among(tracks) + versions_among(others),
        track.key == crypto::sha256(vstd::utf8::encode_utf8("git/refs.json"@)) ==> versions_among(
            seq![track],
        ) == seq![track.number],
        track.key != crypto::sha256(vstd::utf8::encode_utf8("git/refs.json"@)) ==> versions_among(
            seq![track],
        ) == Seq::<TrackNumber>::empty(),
    decreases others.len(),
{
    let none = Seq::<ListedTrack>::empty();
    assert(seq![track].drop_last() =~= none);
    assert(versions_among(none) =~= seq![]);
    if track.key == index_key() {
        assert(versions_among(seq![track]) =~= seq![track.number]);
    }
    if others.len() == 0 {
        assert(tracks + others =~= tracks);
        assert(versions_among(tracks) + versions_among(others) =~= versions_among(tracks));
    } else {
        versions_add_up(tracks, others.drop_last(), track);
        assert((tracks + others).drop_last() =~= tracks + others.drop_last());
        assert(versions_among(tracks + others) =~= versions_among(tracks) + versions_among(
            others,
        ));
    }
}

/// A listing that comes is taken, however many did not
pub proof fn listings_are_taken(attempt: int, seen: Versions)
    ensures
        after_listing(attempt, Ok(seen)) == (
            None::<Seq<char>>,
            SeenNextView::Done(seen.versions@, seen.highest),
        ),
{
}

/// An account that is not visible yet is waited for, seven times over, with waits that never get
/// shorter and that the user is told of; any other trouble ends the listing at once, and either
/// way the user is told why
pub proof fn missing_accounts_are_waited_for(attempt: int, error: ListError)
    requires
        0 <= attempt,
    ensures
        ({
            let (notice, next) = after_listing(attempt, Err(error));
            let (_, later) = after_listing(attempt + 1, Err(error));
            let not_found = error.category is Some && error.category->0@ == "not_found"@;
            &&& not_found && attempt < 7 ==> {
                &&& next is Again
                &&& next->Again_0 == attempt + 1
                &&& next->Again_1 > 0
                &&& notice is Some
                &&& text_laws::mentions(notice->0, text::decimal_text(next->Again_1 as nat))
            }
            &&& not_found && attempt < 6 ==> next->Again_1 <= later->Again_1
            &&& !not_found || attempt >= 7 ==> {
                &&& notice is None
                &&& next is Fail
                &&& text_laws::mentions(next->Fail_0, error.message@)
            }
        }),
{
    let (notice, next) = after_listing(attempt, Err(error));
    if let SeenNextView::Again(_, wait) = next {
        text_laws::mentioned(
            notice->0,
            "tape: tape account is not visible yet; retrying in "@,
            text::decimal_text(wait as nat),
            "ms"@,
        );
    }
    if let SeenNextView::Fail(message) = next {
        text_laws::mentioned(message, "list index versions: "@, error.message@, seq![]);
    }
}

/// A listing that reaches its target is taken, however many did not; one that does not is asked
/// for again, seven times over, with the same target and waits that never get shorter, and then
/// the listing fails, naming the track that it never reached
pub proof fn short_listings_are_asked_for_again(
    target: TrackNumber,
    attempt: int,
    versions: Seq<TrackNumber>,
    highest: TrackNumber,
)
    requires
        0 <= attempt,
    ensures
        ({
            let (notice, next) = after_complete(target, attempt, versions, highest);
            let (_, later) = after_complete(target, attempt + 1, versions, highest);
            &&& highest.0 >= target.0 ==> notice is None && next == CompleteNextView::Done(versions)
            &&& highest.0 < target.0 && attempt < 7 ==> {
                &&& next is Again
                &&& next->Again_0 == target
                &&& next->Again_1 == attempt + 1
                &&& next->Again_2 >= 100
                &&& notice is Some
                &&& text_laws::mentions(notice->0, text::decimal_text(highest.0 as nat))
                &&& text_laws::mentions(notice->0, text::decimal_text(target.0 as nat))
                &&& text_laws::mentions(notice->0, text::decimal_text(next->Again_2 as nat))
            }
            &&& highest.0 < target.0 && attempt < 6 ==> next->Again_2 <= later->Again_2
            &&& highest.0 < target.0 && attempt >= 7 ==> {
                &&& next is Fail
                &&& text_laws::mentions(next->Fail_0, text::decimal_text(target.0 as nat))
            }
        }),
{
    let (notice, next) = after_complete(target, attempt, versions, highest);
    store::unlisted_tracks_are_named(target, target);
    if let CompleteNextView::Again(_, _, wait) = next {
        let reached = text::decimal_text(highest.0 as nat);
        let wanted = text::decimal_text(target.0 as nat);
        let pause = text::decimal_text(wait as nat);
        let start = "tape: listing has reached track "@;
        text_laws::mentioned(
            notice->0,
            start,
            reached,
            " of "@ + wanted + "; retrying in "@ + pause + "ms"@,
        );
        text_laws::mentioned(
            notice->0,
            start + reached + " of "@,
            wanted,
            "; retrying in "@ + pause + "ms"@,
        );
        text_laws::mentioned(
            notice->0,
            start + reached + " of "@ + wanted + "; retrying in "@,
            pause,
            "ms"@,
        );
    }
}

/// A listing has to reach the newest track of the tape and the track that it is asked for,
/// whichever is higher, and the latter alone where the tape cannot be asked
pub proof fn targets_are_the_higher_track(
    at_least: TrackNumber,
    next_number: Result<TrackNumber, String>,
)
    ensures
        ({
            let target = target_for(at_least, next_number);
            &&& target.0 >= at_least.0
            &&& next_number is Err ==> target == at_least
            &&& next_number matches Ok(next) ==> {
                &&& target.0 >= next.0 - 1
                &&& target.0 == at_least.0 || target.0 == next.0 - 1
            }
        }),
{
}

/// How long a listing that never reaches its target has waited after some tries
pub open spec fn waited_for_tracks(target: TrackNumber, highest: TrackNumber, tries: int) -> int
    decreases tries,
{
    if tries <= 0 {
        0
    } else {
        waited_for_tracks(target, highest, tries - 1) + after_complete(
            target,
            tries - 1,
            seq![],
            highest,
        ).1->Again_2
    }
}

/// How long a listing of an account that never shows has waited after some tries
pub open spec fn waited_for_account(error: ListError, tries: int) -> int
    decreases tries,
{
    if tries <= 0 {
        0
    } else {
        waited_for_account(error, tries - 1) + after_listing(
            tries - 1,
            Err(error),
        ).1->Again_1
    }
}

/// The eight tries at a listing are spread over close to sixteen seconds, and those at an account
/// that does not show over twenty-two and a half
pub proof fn listings_get_their_time(
    target: TrackNumber,
    highest: TrackNumber,
    error: ListError,
)
    requires
        highest.0 < target.0,
        error.category is Some,
        error.category->0@ == "not_found"@,
    ensures
        waited_for_tracks(target, highest, 7) == 15_850,
        waited_for_account(error, 7) == 22_500,
{
    reveal_with_fuel(waited_for_tracks, 8);
    reveal_with_fuel(waited_for_account, 8);
}

} // verus!
