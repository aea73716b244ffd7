//! The ref index: the one mutable thing in an otherwise append-only store
//!
//! Packs are content-addressed and immutable, so refs need somewhere to live
//! that can change. That is a *named* object, and a named write appends a new
//! version whose `hash(name)` key resolves to the newest one, which is exactly
//! mutable-pointer semantics for free.
//!
//! The encoding is kept deliberately small. Under 825 bytes a write is a single
//! inline transaction that is readable almost immediately. Past that it becomes
//! an erasure-coded track that has to be uploaded and certified before anyone can
//! read it back. Staying inline for as long as possible is the difference between
//! a push that takes half a second and one that takes several.

use vstd::prelude::*;

use crate::crypto;
use crate::refs;
use crate::refs::Refs;
use crate::text;

verus! {

/// Object name the index is stored under
///
/// Namespaced so it cannot collide with a bucket that also serves a website out
/// of its named objects.
pub const INDEX_NAME: &'static str = "git/refs.json";

/// Content type the index is stored with
pub const INDEX_CONTENT_TYPE: &'static str = "application/json";

/// Current index encoding version
pub const INDEX_VERSION: u64 = 1;

/// Hex characters kept from a pack's sha256
///
/// This digest is what lets an *untrusted* gateway serve pack bytes. The index is
/// proven against the chain, so its digests are trustworthy statements about the
/// packs. That makes the width security-relevant rather than merely
/// anti-corruption, hence 128 bits. The 32 characters saved per pack still help
/// keep the index inline.
const DIGEST_CHARS: usize = 32;

/// The full hexadecimal digest of some bytes
pub open spec fn full_digest(bytes: Seq<u8>) -> Seq<char> {
    crypto::hex_text(crypto::sha256(bytes)@)
}

/// The digest recorded for a pack
pub open spec fn pack_digest(bytes: Seq<u8>) -> Seq<char> {
    full_digest(bytes).take(32)
}

/// Whether two texts agree as far as both of them go
pub open spec fn agree(a: Seq<char>, b: Seq<char>) -> bool {
    let width = if a.len() < b.len() {
        a.len() as int
    } else {
        b.len() as int
    };
    a.take(width) == b.take(width)
}

/// Truncated sha256 of a pack, as recorded in the index
pub fn digest(bytes: &[u8]) -> (digest: String)
    ensures
        digest@ == pack_digest(bytes@),
        digest@.len() == 32,
{
    let full = crypto::hex(&crypto::hash(bytes));
    full.as_str().substring_char(0, DIGEST_CHARS).to_owned()
}

/// One pack, as the index records it
pub struct PackEntryView {
    pub track: u64,
    pub size: u64,
    pub digest: Seq<char>,
    pub stream: bool,
}

impl PackEntryView {
    /// Whether `bytes` is the pack this entry points at
    pub open spec fn describes(self, bytes: Seq<u8>) -> bool {
        agree(self.digest, full_digest(bytes))
    }
}

/// One pack, as the index records it
#[derive(Debug)]
pub struct PackEntry {
    /// Track number on the bucket's tape
    ///
    /// Recorded so reads go straight to the track's own address. Resolving by
    /// content hash would make the node scan every track on the tape per lookup.
    pub track: u64,
    pub size: u64,
    /// Truncated sha256 of the pack bytes
    pub digest: String,
    /// Whether the pack was stored as a stream of tracks rather than as one
    pub stream: bool,
}

impl View for PackEntry {
    type V = PackEntryView;

    open spec fn view(&self) -> PackEntryView {
        PackEntryView {
            track: self.track,
            size: self.size,
            digest: self.digest@,
            stream: self.stream,
        }
    }
}

impl Clone for PackEntry {
    fn clone(&self) -> (copy: PackEntry)
        ensures
            copy@ == self@,
    {
        PackEntry {
            track: self.track,
            size: self.size,
            digest: self.digest.clone(),
            stream: self.stream,
        }
    }
}

impl PackEntry {
    /// Whether `bytes` is the pack this entry points at
    ///
    /// Compares only as many characters as the entry stored, so a full-length
    /// digest written by an older version still matches.
    pub fn matches(&self, bytes: &[u8]) -> (matching: bool)
        ensures
            matching == self@.describes(bytes@),
    {
        let full = crypto::hex(&crypto::hash(bytes));
        let stored = self.digest.as_str();
        let stored_width = stored.unicode_len();
        let full_width = full.as_str().unicode_len();
        let width = if stored_width < full_width {
            stored_width
        } else {
            full_width
        };
        assert(self.digest@.take(width as int) =~= self.digest@.subrange(0, width as int));
        assert(full@.take(width as int) =~= full@.subrange(0, width as int));
        text::same(
            stored.substring_char(0, width),
            full.as_str().substring_char(0, width),
        )
    }
}

/// An entry recorded from a pack matches that pack
pub proof fn recorded_digest_matches(entry: PackEntryView, bytes: Seq<u8>)
    requires
        entry.digest == pack_digest(bytes),
    ensures
        entry.describes(bytes),
{
    let full = full_digest(bytes);
    assert(entry.digest.take(32) =~= full.take(32));
}

/// A full-length digest, as older indexes record it, matches its pack, and only packs of the
/// same digest
pub proof fn full_length_digest_matches(entry: PackEntryView, written: Seq<u8>, read: Seq<u8>)
    requires
        entry.digest == full_digest(written),
    ensures
        entry.describes(written),
        entry.describes(read) <==> full_digest(read) == full_digest(written),
{
    let a = full_digest(written);
    let b = full_digest(read);
    assert(a.take(a.len() as int) =~= a);
    assert(b.take(b.len() as int) =~= b);
}

/// Content of each of several entries
pub open spec fn entries(packs: Seq<PackEntry>) -> Seq<PackEntryView> {
    packs.map_values(|p: PackEntry| p@)
}

/// Whether a track is among the packs
pub open spec fn lists(packs: Seq<PackEntryView>, track: u64) -> bool {
    exists|i: int| 0 <= i < packs.len() && #[trigger] packs[i].track == track
}

/// Packs ordered by track number
pub open spec fn in_track_order(packs: Seq<PackEntryView>) -> bool {
    forall|i: int, j: int|
        0 <= i < j < packs.len() ==> #[trigger] packs[i].track <= #[trigger] packs[j].track
}

/// The entries of one track, in order
pub open spec fn of_track(packs: Seq<PackEntryView>, track: u64) -> Seq<PackEntryView>
    decreases packs.len(),
{
    if packs.len() == 0 {
        seq![]
    } else if packs.last().track == track {
        of_track(packs.drop_last(), track).push(packs.last())
    } else {
        of_track(packs.drop_last(), track)
    }
}

/// `sorted` holds the entries of `packs` by track number, entries of one track in their old
/// order
pub open spec fn is_stable_order(sorted: Seq<PackEntryView>, packs: Seq<PackEntryView>) -> bool {
    &&& in_track_order(sorted)
    &&& forall|track: u64| of_track(sorted, track) == #[trigger] of_track(packs, track)
}

/// `packs` followed by those of `others` whose track is not listed yet
pub open spec fn union(packs: Seq<PackEntryView>, others: Seq<PackEntryView>) -> Seq<PackEntryView>
    decreases others.len(),
{
    if others.len() == 0 {
        packs
    } else {
        let before = union(packs, others.drop_last());
        if lists(before, others.last().track) {
            before
        } else {
            before.push(others.last())
        }
    }
}

/// `packs` with those of `others` taken on, by track number
pub open spec fn absorbed(packs: Seq<PackEntryView>, others: Seq<PackEntryView>) -> Seq<
    PackEntryView,
> {
    choose|sorted: Seq<PackEntryView>| is_stable_order(sorted, union(packs, others))
}

/// The ref index of a repository
pub struct IndexView {
    pub version: u64,
    pub head: Option<Seq<char>>,
    pub refs: Map<Seq<char>, Seq<char>>,
    pub packs: Seq<PackEntryView>,
    pub parent: Option<u64>,
}

/// The index of a repository nothing has been pushed to
pub open spec fn empty_index() -> IndexView {
    IndexView {
        version: INDEX_VERSION,
        head: None,
        refs: Map::empty(),
        packs: seq![],
        parent: None,
    }
}

/// The ref index of a repository
#[derive(Debug)]
pub struct Index {
    pub version: u64,
    /// Ref HEAD points at, so `git clone` knows which branch to check out
    pub head: Option<String>,
    /// Full refname to object id
    pub refs: Refs,
    /// Packs in push order, replayed in this order on fetch
    pub packs: Vec<PackEntry>,
    /// Track number of the index version this one was derived from
    ///
    /// Recorded so a reader can tell whether two versions were written from the
    /// same base, which is the only signal available that a push raced.
    pub parent: Option<u64>,
}

impl View for Index {
    type V = IndexView;

    open spec fn view(&self) -> IndexView {
        IndexView {
            version: self.version,
            head: text::opt_view(self.head),
            refs: self.refs@,
            packs: entries(self.packs@),
            parent: self.parent,
        }
    }
}

impl Default for Index {
    fn default() -> (index: Index)
        ensures
            index@ == empty_index(),
    {
        let index = Index {
            version: INDEX_VERSION,
            head: None,
            refs: Refs::new(),
            packs: Vec::new(),
            parent: None,
        };
        assert(index@.packs =~= seq![]);
        index
    }
}

/// Copy a list of packs
pub(crate) fn copy_packs(packs: &Vec<PackEntry>) -> (copy: Vec<PackEntry>)
    ensures
        entries(copy@) == entries(packs@),
{
    let mut copy: Vec<PackEntry> = Vec::new();
    let mut i: usize = 0;
    while i < packs.len()
        invariant
            i <= packs@.len(),
            copy@.len() == i,
            forall|k: int| 0 <= k < i ==> copy@[k]@ == packs@[k]@,
        decreases packs.len() - i,
    {
        copy.push(packs[i].clone());
        i = i + 1;
    }
    assert(entries(copy@) =~= entries(packs@));
    copy
}

impl Clone for Index {
    fn clone(&self) -> (copy: Index)
        ensures
            copy@ == self@,
    {
        let head = match &self.head {
            Some(head) => Some(head.clone()),
            None => None,
        };
        Index {
            version: self.version,
            head,
            refs: self.refs.clone(),
            packs: copy_packs(&self.packs),
            parent: self.parent,
        }
    }
}

impl Index {
    /// Every object id the remote already has
    ///
    /// Used as the `--not` basis so a push only carries objects the remote is
    /// missing.
    pub fn tips(&self) -> (tips: Vec<String>)
        ensures
            text::views(tips@) == tips_of(self@.refs),
    {
        let mut tips: Vec<String> = Vec::new();
        let n = self.refs.len();
        let mut i: usize = 0;
        while i < n
            invariant
                i <= n == refs::listing(self@.refs).len(),
                tips@.len() == i,
                forall|k: int| 0 <= k < i ==> tips@[k]@ == refs::listing(self@.refs)[k].1,
            decreases n - i,
        {
            tips.push(self.refs.id_at(i).clone());
            i = i + 1;
        }
        assert(text::views(tips@) =~= tips_of(self@.refs));
        tips
    }

    /// Whether this index already lists the given pack
    pub fn has_pack(&self, track: u64) -> (found: bool)
        ensures
            found == lists(self@.packs, track),
    {
        let mut i: usize = 0;
        while i < self.packs.len()
            invariant
                i <= self.packs@.len(),
                forall|k: int| 0 <= k < i ==> (#[trigger] self@.packs[k]).track != track,
            decreases self.packs.len() - i,
        {
            if self.packs[i].track == track {
                assert(self@.packs[i as int].track == track);
                return true;
            }
            i = i + 1;
        }
        false
    }

    /// Take on every pack from another version, keeping push order
    ///
    /// Packs are immutable and purely additive, so their union is always safe, and
    /// dropping one would orphan objects somebody else's refs depend on.
    pub fn absorb_packs(&mut self, other: &Index)
        ensures
            final(self)@ == (IndexView {
                packs: absorbed(old(self)@.packs, other@.packs),
                ..old(self)@
            }),
            is_stable_order(final(self)@.packs, union(old(self)@.packs, other@.packs)),
    {
        let mut i: usize = 0;
        assert(other@.packs.take(0) =~= seq![]);
        while i < other.packs.len()
            invariant
                i <= other.packs@.len(),
                self@ == (IndexView {
                    packs: union(old(self)@.packs, other@.packs.take(i as int)),
                    ..old(self)@
                }),
            decreases other.packs.len() - i,
        {
            let ghost before = self@.packs;
            if !self.has_pack(other.packs[i].track) {
                self.packs.push(other.packs[i].clone());
                assert(self@.packs =~= before.push(other@.packs[i as int]));
            }
            proof {
                let seen = other@.packs.take(i + 1);
                assert(seen.drop_last() =~= other@.packs.take(i as int));
                assert(seen.last() == other@.packs[i as int]);
            }
            i = i + 1;
        }
        assert(other@.packs.take(other@.packs.len() as int) =~= other@.packs);
        self.packs = sort_by_track(&self.packs);
        proof {
            stable_order_is_unique(
                self@.packs,
                absorbed(old(self)@.packs, other@.packs),
                union(old(self)@.packs, other@.packs),
            );
        }
    }
}

/// Object ids in refname order
pub open spec fn tips_of(refs: Map<Seq<char>, Seq<char>>) -> Seq<Seq<char>> {
    refs::listing(refs).map_values(|p: refs::Pair| p.1)
}

/// The entries of one track in a concatenation
proof fn of_track_concat(a: Seq<PackEntryView>, b: Seq<PackEntryView>, track: u64)
    ensures
        of_track(a + b, track) == of_track(a, track) + of_track(b, track),
    decreases b.len(),
{
    if b.len() == 0 {
        assert(a + b =~= a);
        assert(of_track(a, track) + of_track(b, track) =~= of_track(a, track));
    } else {
        of_track_concat(a, b.drop_last(), track);
        assert((a + b).drop_last() =~= a + b.drop_last());
        assert(of_track(a + b, track) =~= of_track(a, track) + of_track(b, track));
    }
}

/// A list without a track has no entries of it
proof fn of_track_absent(packs: Seq<PackEntryView>, track: u64)
    requires
        forall|i: int| 0 <= i < packs.len() ==> (#[trigger] packs[i]).track != track,
    ensures
        of_track(packs, track) == Seq::<PackEntryView>::empty(),
    decreases packs.len(),
{
    if packs.len() > 0 {
        assert(packs.last() == packs[packs.len() - 1]);
        of_track_absent(packs.drop_last(), track);
    }
}

/// A track is listed exactly when it has entries
pub proof fn listed_has_entries(packs: Seq<PackEntryView>, track: u64)
    ensures
        lists(packs, track) <==> of_track(packs, track).len() > 0,
    decreases packs.len(),
{
    if packs.len() > 0 {
        let init = packs.drop_last();
        listed_has_entries(init, track);
        if lists(packs, track) {
            let i = choose|i: int| 0 <= i < packs.len() && #[trigger] packs[i].track == track;
            if i < packs.len() - 1 {
                assert(init[i].track == track);
            }
        }
        if lists(init, track) {
            let i = choose|i: int| 0 <= i < init.len() && #[trigger] init[i].track == track;
            assert(packs[i].track == track);
        }
        if packs.last().track == track {
            assert(packs[packs.len() - 1].track == track);
        }
    }
}

/// Inserting an entry behind every entry of its track or a lower one keeps a stable order
proof fn insert_keeps_stable(
    sorted: Seq<PackEntryView>,
    packs: Seq<PackEntryView>,
    at: int,
    entry: PackEntryView,
)
    requires
        is_stable_order(sorted, packs),
        0 <= at <= sorted.len(),
        forall|i: int| 0 <= i < at ==> (#[trigger] sorted[i]).track <= entry.track,
        forall|i: int| at <= i < sorted.len() ==> (#[trigger] sorted[i]).track > entry.track,
    ensures
        is_stable_order(sorted.insert(at, entry), packs.push(entry)),
{
    let after = sorted.insert(at, entry);
    let low = sorted.take(at);
    let high = sorted.skip(at);
    assert(after =~= low.push(entry) + high);
    assert(sorted =~= low + high);
    assert forall|track: u64| of_track(after, track) == #[trigger] of_track(
        packs.push(entry),
        track,
    ) by {
        assert(packs.push(entry).drop_last() =~= packs);
        assert(low.push(entry).drop_last() =~= low);
        of_track_concat(low.push(entry), high, track);
        of_track_concat(low, high, track);
        assert(of_track(sorted, track) == of_track(packs, track));
        if track == entry.track {
            of_track_absent(high, track);
            assert(of_track(after, track) =~= of_track(packs, track).push(entry));
        }
    }
    assert forall|i: int, j: int| 0 <= i < j < after.len() implies #[trigger] after[i].track
        <= #[trigger] after[j].track by {
        let p = if i < at { i } else { i - 1 };
        let q = if j < at { j } else { j - 1 };
        if i != at {
            assert(after[i] == sorted[p]);
        }
        if j != at {
            assert(after[j] == sorted[q]);
        }
    }
}

/// Order entries by track, entries of one track staying as they were
fn sort_by_track(packs: &Vec<PackEntry>) -> (sorted: Vec<PackEntry>)
    ensures
        is_stable_order(entries(sorted@), entries(packs@)),
{
    let mut sorted: Vec<PackEntry> = Vec::new();
    let mut i: usize = 0;
    assert(entries(sorted@) =~= entries(packs@).take(0));
    while i < packs.len()
        invariant
            i <= packs@.len(),
            sorted@.len() == i,
            is_stable_order(entries(sorted@), entries(packs@).take(i as int)),
        decreases packs.len() - i,
    {
        let entry = packs[i].clone();
        let mut at: usize = sorted.len();
        while at > 0 && sorted[at - 1].track > entry.track
            invariant
                at <= sorted@.len(),
                forall|k: int|
                    at <= k < sorted@.len() ==> (#[trigger] entries(sorted@)[k]).track
                        > entry.track,
            decreases at,
        {
            at = at - 1;
            assert(entries(sorted@)[at as int].track > entry.track);
        }
        let ghost before = entries(sorted@);
        proof {
            assert forall|k: int| 0 <= k < at implies (#[trigger] before[k]).track
                <= entry.track by {
                assert(before[at - 1].track <= entry.track);
                if k < at - 1 {
                    assert(before[k].track <= before[at - 1].track);
                }
            }
            insert_keeps_stable(before, entries(packs@).take(i as int), at as int, entry@);
            assert(entries(packs@).take(i + 1) =~= entries(packs@).take(i as int).push(entry@));
        }
        sorted.insert(at, entry);
        assert(entries(sorted@) =~= before.insert(at as int, packs@[i as int]@));
        i = i + 1;
    }
    assert(entries(packs@).take(packs@.len() as int) =~= entries(packs@));
    sorted
}

/// A union lists what either side lists
proof fn union_lists(packs: Seq<PackEntryView>, others: Seq<PackEntryView>, track: u64)
    ensures
        lists(union(packs, others), track) <==> lists(packs, track) || lists(others, track),
    decreases others.len(),
{
    if others.len() > 0 {
        let init = others.drop_last();
        let before = union(packs, init);
        union_lists(packs, init, track);
        listed_has_entries(others, track);
        listed_has_entries(init, track);
        listed_has_entries(before, track);
        listed_has_entries(before.push(others.last()), track);
        assert(before.push(others.last()).drop_last() =~= before);
    }
}

/// Taking on another version's packs drops none of either version, and adds no others
pub proof fn absorbed_packs_are_the_union(before: Seq<PackEntryView>, others: Seq<PackEntryView>)
    ensures
        forall|track: u64| #[trigger]
            lists(absorbed(before, others), track) <==> lists(before, track) || lists(
                others,
                track,
            ),
{
    let after = absorbed(before, others);
    absorbed_is_stable(before, others);
    assert forall|track: u64| #[trigger]
        lists(after, track) <==> lists(before, track) || lists(others, track) by {
        union_lists(before, others, track);
        listed_has_entries(after, track);
        listed_has_entries(union(before, others), track);
        assert(of_track(after, track) == of_track(union(before, others), track));
    }
}

/// No track occurs twice
pub open spec fn tracks_differ(packs: Seq<PackEntryView>) -> bool {
    forall|i: int, j: int|
        0 <= i < j < packs.len() ==> #[trigger] packs[i].track != #[trigger] packs[j].track
}

/// A track occurs twice exactly when it has more than one entry
proof fn differ_by_entries(packs: Seq<PackEntryView>)
    ensures
        tracks_differ(packs) <==> forall|track: u64| (#[trigger] of_track(packs, track)).len() <= 1,
    decreases packs.len(),
{
    if packs.len() > 0 {
        let init = packs.drop_last();
        let last = packs.last();
        differ_by_entries(init);
        listed_has_entries(init, last.track);
        if tracks_differ(packs) {
            assert(tracks_differ(init)) by {
                assert forall|i: int, j: int| 0 <= i < j < init.len() implies #[trigger] init[i].track
                    != #[trigger] init[j].track by {
                    assert(packs[i].track != packs[j].track);
                }
            }
            if lists(init, last.track) {
                let i = choose|i: int| 0 <= i < init.len() && #[trigger] init[i].track
                    == last.track;
                assert(packs[i].track != packs[packs.len() - 1].track);
            }
            assert forall|track: u64| (#[trigger] of_track(packs, track)).len() <= 1 by {
                assert(of_track(init, track).len() <= 1);
            }
        }
        if forall|track: u64| (#[trigger] of_track(packs, track)).len() <= 1 {
            assert forall|track: u64| (#[trigger] of_track(init, track)).len() <= 1 by {
                assert(of_track(packs, track).len() <= 1);
            }
            assert(of_track(packs, last.track).len() <= 1);
            assert(!lists(init, last.track));
            assert forall|i: int, j: int| 0 <= i < j < packs.len() implies #[trigger] packs[i].track
                != #[trigger] packs[j].track by {
                if j < packs.len() - 1 {
                    assert(init[i].track != init[j].track);
                } else {
                    assert(init[i].track != last.track);
                }
            }
        }
    }
}

/// A union of packs of distinct tracks has distinct tracks
proof fn union_differs(packs: Seq<PackEntryView>, others: Seq<PackEntryView>)
    requires
        tracks_differ(packs),
    ensures
        tracks_differ(union(packs, others)),
    decreases others.len(),
{
    if others.len() > 0 {
        union_differs(packs, others.drop_last());
        let before = union(packs, others.drop_last());
        let last = others.last();
        if !lists(before, last.track) {
            let after = before.push(last);
            assert forall|i: int, j: int| 0 <= i < j < after.len() implies #[trigger] after[i].track
                != #[trigger] after[j].track by {
                if j == before.len() {
                    assert(before[i].track != last.track);
                } else {
                    assert(before[i].track != before[j].track);
                }
            }
        }
    }
}

/// Taking on another version's packs introduces no duplicate
pub proof fn absorbing_adds_no_duplicates(before: Seq<PackEntryView>, others: Seq<PackEntryView>)
    requires
        tracks_differ(before),
    ensures
        tracks_differ(absorbed(before, others)),
{
    let after = absorbed(before, others);
    absorbed_is_stable(before, others);
    union_differs(before, others);
    differ_by_entries(union(before, others));
    differ_by_entries(after);
    assert forall|track: u64| (#[trigger] of_track(after, track)).len() <= 1 by {
        assert(of_track(after, track) == of_track(union(before, others), track));
    }
}

/// Packs that are all listed already add nothing
proof fn union_of_known(packs: Seq<PackEntryView>, others: Seq<PackEntryView>)
    requires
        forall|i: int| 0 <= i < others.len() ==> lists(packs, (#[trigger] others[i]).track),
    ensures
        union(packs, others) == packs,
    decreases others.len(),
{
    if others.len() > 0 {
        let init = others.drop_last();
        assert forall|i: int| 0 <= i < init.len() implies lists(
            packs,
            (#[trigger] init[i]).track,
        ) by {
            assert(init[i] == others[i]);
        }
        union_of_known(packs, init);
        assert(others.last() == others[others.len() - 1]);
    }
}

/// Two stable orders of the same packs are the same
pub proof fn stable_order_is_unique(
    a: Seq<PackEntryView>,
    b: Seq<PackEntryView>,
    packs: Seq<PackEntryView>,
)
    requires
        is_stable_order(a, packs),
        is_stable_order(b, packs),
    ensures
        a == b,
{
    assert forall|track: u64| #[trigger] of_track(a, track) == of_track(b, track) by {
        assert(of_track(a, track) == of_track(packs, track));
    }
    same_entries_in_order(a, b);
}

proof fn same_entries_in_order(a: Seq<PackEntryView>, b: Seq<PackEntryView>)
    requires
        in_track_order(a),
        in_track_order(b),
        forall|track: u64| #[trigger] of_track(a, track) == of_track(b, track),
    ensures
        a == b,
    decreases a.len(),
{
    if a.len() == 0 {
        if b.len() > 0 {
            let t = b.last().track;
            assert(of_track(a, t) == of_track(b, t));
        }
        assert(a =~= b);
    } else {
        let t = a.last().track;
        assert(of_track(a, t) == of_track(b, t));
        listed_has_entries(b, t);
        assert(b.len() > 0);
        let u = b.last().track;
        assert(of_track(a, u) == of_track(b, u));
        listed_has_entries(a, u);
        let i = choose|i: int| 0 <= i < a.len() && #[trigger] a[i].track == u;
        let j = choose|j: int| 0 <= j < b.len() && #[trigger] b[j].track == t;
        assert(u <= t) by {
            if i < a.len() - 1 {
                assert(a[i].track <= a[a.len() - 1].track);
            }
        }
        assert(t <= u) by {
            if j < b.len() - 1 {
                assert(b[j].track <= b[b.len() - 1].track);
            }
        }
        let a1 = a.drop_last();
        let b1 = b.drop_last();
        assert(of_track(a, t).last() == a.last() && of_track(b, t).last() == b.last());
        assert forall|track: u64| #[trigger] of_track(a1, track) == of_track(b1, track) by {
            assert(of_track(a, track) == of_track(b, track));
            if track == t {
                assert(of_track(a, t).drop_last() =~= of_track(a1, t));
                assert(of_track(b, t).drop_last() =~= of_track(b1, t));
            }
        }
        assert forall|p: int, q: int| 0 <= p < q < a1.len() implies #[trigger] a1[p].track
            <= #[trigger] a1[q].track by {
            assert(a[p].track <= a[q].track);
        }
        assert forall|p: int, q: int| 0 <= p < q < b1.len() implies #[trigger] b1[p].track
            <= #[trigger] b1[q].track by {
            assert(b[p].track <= b[q].track);
        }
        same_entries_in_order(a1, b1);
        assert(a =~= a1.push(a.last()));
        assert(b =~= b1.push(b.last()));
    }
}

/// Taking on the same packs a second time changes nothing
pub proof fn absorbing_twice_is_absorbing_once(
    before: Seq<PackEntryView>,
    others: Seq<PackEntryView>,
)
    ensures
        absorbed(absorbed(before, others), others) == absorbed(before, others),
{
    let once = absorbed(before, others);
    absorbed_is_stable(before, others);
    absorbed_is_stable(once, others);
    absorbed_packs_are_the_union(before, others);
    assert forall|i: int| 0 <= i < others.len() implies lists(
        once,
        (#[trigger] others[i]).track,
    ) by {
        assert(lists(others, others[i].track));
    }
    union_of_known(once, others);
    assert(is_stable_order(once, once));
    stable_order_is_unique(absorbed(once, others), once, once);
}

/// How many entries of an ordered list come no later than a track
spec fn place_after(sorted: Seq<PackEntryView>, track: u64) -> int
    decreases sorted.len(),
{
    if sorted.len() == 0 {
        0
    } else if sorted.last().track <= track {
        sorted.len() as int
    } else {
        place_after(sorted.drop_last(), track)
    }
}

proof fn place_after_parts(sorted: Seq<PackEntryView>, track: u64)
    requires
        in_track_order(sorted),
    ensures
        0 <= place_after(sorted, track) <= sorted.len(),
        forall|i: int|
            0 <= i < place_after(sorted, track) ==> (#[trigger] sorted[i]).track <= track,
        forall|i: int|
            place_after(sorted, track) <= i < sorted.len() ==> (#[trigger] sorted[i]).track
                > track,
    decreases sorted.len(),
{
    if sorted.len() > 0 {
        let last = sorted.len() - 1;
        if sorted.last().track <= track {
            assert forall|i: int| 0 <= i < sorted.len() implies (#[trigger] sorted[i]).track
                <= track by {
                if i < last {
                    assert(sorted[i].track <= sorted[last].track);
                }
            }
        } else {
            let init = sorted.drop_last();
            assert forall|i: int, j: int| 0 <= i < j < init.len() implies #[trigger] init[i].track
                <= #[trigger] init[j].track by {
                assert(sorted[i].track <= sorted[j].track);
            }
            place_after_parts(init, track);
            assert forall|i: int| 0 <= i < place_after(sorted, track) implies (
            #[trigger] sorted[i]).track <= track by {
                assert(sorted[i] == init[i]);
            }
            assert forall|i: int| place_after(sorted, track) <= i < sorted.len() implies (
            #[trigger] sorted[i]).track > track by {
                if i < last {
                    assert(sorted[i] == init[i]);
                }
            }
        }
    }
}

/// Any packs can be put in stable order
proof fn stable_order_exists(packs: Seq<PackEntryView>) -> (sorted: Seq<PackEntryView>)
    ensures
        is_stable_order(sorted, packs),
    decreases packs.len(),
{
    if packs.len() == 0 {
        packs
    } else {
        let before = stable_order_exists(packs.drop_last());
        let entry = packs.last();
        place_after_parts(before, entry.track);
        let at = place_after(before, entry.track);
        insert_keeps_stable(before, packs.drop_last(), at, entry);
        assert(packs.drop_last().push(entry) =~= packs);
        before.insert(at, entry)
    }
}

/// Absorbed packs are in stable order
pub proof fn absorbed_is_stable(packs: Seq<PackEntryView>, others: Seq<PackEntryView>)
    ensures
        is_stable_order(absorbed(packs, others), union(packs, others)),
{
    let sorted = stable_order_exists(union(packs, others));
}

/// Which entries of one track there are
proof fn of_track_contains(packs: Seq<PackEntryView>, entry: PackEntryView)
    ensures
        of_track(packs, entry.track).contains(entry) <==> packs.contains(entry),
    decreases packs.len(),
{
    let found = of_track(packs, entry.track);
    if packs.len() > 0 {
        let init = packs.drop_last();
        let before = of_track(init, entry.track);
        of_track_contains(init, entry);
        if packs.contains(entry) {
            let i = choose|i: int| 0 <= i < packs.len() && packs[i] == entry;
            if i < init.len() {
                assert(init[i] == entry);
                let k = choose|k: int| 0 <= k < before.len() && before[k] == entry;
                assert(found[k] == entry);
            } else {
                assert(found[found.len() - 1] == entry);
            }
        }
        if found.contains(entry) {
            let k = choose|k: int| 0 <= k < found.len() && found[k] == entry;
            if k < before.len() {
                assert(before[k] == entry);
                let i = choose|i: int| 0 <= i < init.len() && init[i] == entry;
                assert(packs[i] == entry);
            } else {
                assert(packs[packs.len() - 1] == entry);
            }
        }
    }
}

/// Which entries a union has
proof fn union_contains(
    packs: Seq<PackEntryView>,
    others: Seq<PackEntryView>,
    entry: PackEntryView,
)
    ensures
        packs.contains(entry) ==> union(packs, others).contains(entry),
        union(packs, others).contains(entry) ==> packs.contains(entry) || others.contains(entry),
        (exists|k: int|
            {
                &&& 0 <= k < others.len()
                &&& #[trigger] others[k] == entry
                &&& forall|j: int| 0 <= j < k ==> (#[trigger] others[j]).track != entry.track
            }) && !lists(packs, entry.track) ==> union(packs, others).contains(entry),
    decreases others.len(),
{
    let all = union(packs, others);
    if others.len() > 0 {
        let init = others.drop_last();
        let before = union(packs, init);
        let last = others.last();
        union_contains(packs, init, entry);
        if before.contains(entry) {
            let i = choose|i: int| 0 <= i < before.len() && before[i] == entry;
            assert(all[i] == entry);
        }
        if all.contains(entry) && !before.contains(entry) {
            let i = choose|i: int| 0 <= i < all.len() && all[i] == entry;
            if i < before.len() {
                assert(before[i] == entry);
            }
            assert(others[others.len() - 1] == entry);
        }
        if before.contains(entry) && !packs.contains(entry) {
            let i = choose|i: int| 0 <= i < init.len() && init[i] == entry;
            assert(others[i] == entry);
        }
        if !lists(packs, entry.track) && exists|k: int|
            {
                &&& 0 <= k < others.len()
                &&& #[trigger] others[k] == entry
                &&& forall|j: int| 0 <= j < k ==> (#[trigger] others[j]).track != entry.track
            } {
            let k = choose|k: int|
                {
                    &&& 0 <= k < others.len()
                    &&& #[trigger] others[k] == entry
                    &&& forall|j: int| 0 <= j < k ==> (#[trigger] others[j]).track != entry.track
                };
            if k < init.len() {
                assert(init[k] == entry);
                assert forall|j: int| 0 <= j < k implies (#[trigger] init[j]).track
                    != entry.track by {
                    assert(others[j].track != entry.track);
                }
            } else {
                union_lists(packs, init, entry.track);
                if lists(init, entry.track) {
                    let j = choose|j: int|
                        0 <= j < init.len() && #[trigger] init[j].track == entry.track;
                    assert(others[j].track == entry.track);
                }
                assert(all[all.len() - 1] == entry);
            }
        }
    }
}

/// Taking on another version's packs keeps every entry as it was, takes the first entry of every
/// track that is new, makes none up, and leaves them by track number
pub proof fn absorbing_keeps_entries(
    packs: Seq<PackEntryView>,
    others: Seq<PackEntryView>,
    entry: PackEntryView,
)
    ensures
        ({
            let after = absorbed(packs, others);
            &&& packs.contains(entry) ==> after.contains(entry)
            &&& after.contains(entry) ==> packs.contains(entry) || others.contains(entry)
            &&& (exists|k: int|
                {
                    &&& 0 <= k < others.len()
                    &&& #[trigger] others[k] == entry
                    &&& forall|j: int| 0 <= j < k ==> (#[trigger] others[j]).track != entry.track
                }) && (forall|i: int|
                0 <= i < packs.len() ==> (#[trigger] packs[i]).track != entry.track)
                ==> after.contains(entry)
            &&& forall|i: int, j: int|
                0 <= i < j < after.len() ==> (#[trigger] after[i]).track <= (
                #[trigger] after[j]).track
        }),
{
    let after = absorbed(packs, others);
    absorbed_is_stable(packs, others);
    union_contains(packs, others, entry);
    of_track_contains(union(packs, others), entry);
    of_track_contains(after, entry);
    assert(of_track(after, entry.track) == of_track(union(packs, others), entry.track));
}

/// A pack is the one that an entry describes exactly when its digest has the characters that the
/// entry recorded, as far as both go
pub proof fn digests_are_held_against_each_other(entry: PackEntryView, bytes: Seq<u8>)
    ensures
        entry.describes(bytes) <==> forall|i: int|
            0 <= i < entry.digest.len() && i < full_digest(bytes).len() ==> #[trigger] entry.digest[i]
                == full_digest(bytes)[i],
{
    let full = full_digest(bytes);
    let width = if entry.digest.len() < full.len() {
        entry.digest.len() as int
    } else {
        full.len() as int
    };
    if entry.describes(bytes) {
        assert forall|i: int| 0 <= i < entry.digest.len() && i < full.len() implies
            #[trigger] entry.digest[i] == full[i] by {
            assert(entry.digest.take(width)[i] == full.take(width)[i]);
        }
    } else if forall|i: int|
        0 <= i < entry.digest.len() && i < full.len() ==> #[trigger] entry.digest[i] == full[i] {
        assert(entry.digest.take(width) =~= full.take(width));
    }
}

/// What is recorded of a pack is the first half of its SHA-256 in hexadecimal, two characters to
/// a byte
pub proof fn digests_are_half_a_hash(bytes: Seq<u8>, i: int)
    requires
        0 <= i < 16,
    ensures
        full_digest(bytes).len() == 64,
        pack_digest(bytes).len() == 32,
        pack_digest(bytes).is_prefix_of(full_digest(bytes)),
        crypto::hex_value(pack_digest(bytes)[2 * i]) * 16 + crypto::hex_value(
            pack_digest(bytes)[2 * i + 1],
        ) == crypto::sha256(bytes)[i],
{
    let full = full_digest(bytes);
    assert(pack_digest(bytes)[2 * i] == full[2 * i]);
    assert(pack_digest(bytes)[2 * i + 1] == full[2 * i + 1]);
    crypto::hexadecimal_reads_back(crypto::sha256(bytes)@, i);
}

/// The tips of an index are the objects that its refs point at, one for each ref
pub proof fn tips_are_what_refs_point_at(refs: Map<Seq<char>, Seq<char>>, name: Seq<char>)
    requires
        refs.dom().finite(),
    ensures
        refs.contains_key(name) ==> tips_of(refs).contains(refs[name]),
        forall|i: int|
            0 <= i < tips_of(refs).len() ==> exists|name: Seq<char>| #[trigger]
                refs.contains_key(name) && refs[name] == #[trigger] tips_of(refs)[i],
        tips_of(refs).len() == refs.dom().len(),
{
    refs::listing_exists(refs);
    let pairs = refs::listing(refs);
    let tips = tips_of(refs);
    if refs.contains_key(name) {
        let i = choose|i: int| 0 <= i < pairs.len() && (#[trigger] pairs[i]).0 == name;
        assert(tips[i] == refs[name]);
    }
    assert forall|i: int| 0 <= i < tips.len() implies exists|name: Seq<char>| #[trigger]
        refs.contains_key(name) && refs[name] == #[trigger] tips[i] by {
        assert(refs.contains_key(pairs[i].0) && refs[pairs[i].0] == tips[i]);
    }
    refs::listing_builds_its_map(pairs, refs);
    refs::ascending_lists_its_map(pairs);
}

/// A repository that nothing has been pushed to has neither refs nor packs, no HEAD and nothing
/// that it was derived from, whatever is asked of it
pub proof fn empty_indexes_have_nothing(name: Seq<char>, track: u64)
    ensures
        empty_index().version == 1,
        empty_index().head is None,
        !empty_index().refs.contains_key(name),
        !lists(empty_index().packs, track),
        empty_index().parent is None,
{
}

} // verus!
