//! Direct publication of a complete local repository to a fresh tape.

use vstd::prelude::*;

use crate::encoding;
use crate::encoding::DecodeErrorView;
use crate::index;
use crate::index::{Index, IndexView, PackEntry, PackEntryView};
use crate::json;
use crate::refs::Refs;
use crate::text;
use crate::text_laws;
use crate::track::TrackNumber;

verus! {

/// The sum of some sizes
pub open spec fn total(sizes: Seq<u64>) -> int
    decreases sizes.len(),
{
    if sizes.len() == 0 {
        0
    } else {
        total(sizes.drop_last()) + sizes.last()
    }
}

proof fn total_grows(sizes: Seq<u64>, n: int)
    requires
        0 <= n <= sizes.len(),
    ensures
        0 <= total(sizes.take(n)) <= total(sizes),
    decreases sizes.len(),
{
    if n == sizes.len() {
        assert(sizes.take(n) =~= sizes);
        if n > 0 {
            total_grows(sizes.drop_last(), n - 1);
            assert(sizes.drop_last().take(n - 1) =~= sizes.drop_last());
        }
    } else {
        total_grows(sizes.drop_last(), n);
        assert(sizes.drop_last().take(n) =~= sizes.take(n));
    }
}

/// The sum of some sizes, unless there is no number for it
fn total_bytes(sizes: &[u64]) -> (bytes: Option<u64>)
    ensures
        match bytes {
            Some(bytes) => bytes == total(sizes@),
            None => total(sizes@) > u64::MAX,
        },
{
    let mut bytes: u64 = 0;
    let mut i: usize = 0;
    while i < sizes.len()
        invariant
            i <= sizes@.len(),
            bytes == total(sizes@.take(i as int)),
        decreases sizes.len() - i,
    {
        proof {
            let seen = sizes@.take(i + 1);
            assert(seen.drop_last() =~= sizes@.take(i as int));
            assert(seen.last() == sizes@[i as int]);
            total_grows(sizes@, i + 1);
        }
        match bytes.checked_add(sizes[i]) {
            Some(sum) => {
                bytes = sum;
            },
            None => {
                return None;
            },
        }
        i = i + 1;
    }
    assert(sizes@.take(sizes@.len() as int) =~= sizes@);
    Some(bytes)
}

/// Why a repository cannot be published
pub open spec fn obstacle(
    head: Seq<char>,
    refs: Map<Seq<char>, Seq<char>>,
    sizes: Seq<u64>,
    capacity: u64,
) -> Option<Seq<char>> {
    if !refs.contains_key(head) {
        Some("HEAD does not name a local branch"@)
    } else if total(sizes) > u64::MAX {
        Some("repository size overflow"@)
    } else if total(sizes) >= capacity {
        Some(
            "Git packs require "@ + text::decimal_text(total(sizes) as nat)
                + " bytes but the tape has "@ + text::decimal_text(capacity as nat) + " bytes"@,
        )
    } else {
        None
    }
}

/// A repository that is being published
pub struct PublicationView {
    pub head: Seq<char>,
    /// What HEAD points at
    pub commit: Seq<char>,
    /// What the packs take
    pub bytes: u64,
    /// The size of each pack there is to store
    pub sizes: Seq<u64>,
    /// The index, as far as its packs are stored
    pub index: IndexView,
}

impl PublicationView {
    /// Whether every pack is stored
    pub open spec fn is_complete(self) -> bool {
        self.index.packs.len() == self.sizes.len()
    }

    /// Whether no more packs are stored than there are
    pub open spec fn is_valid(self) -> bool {
        self.index.packs.len() <= self.sizes.len()
    }

    /// With one more pack stored, if there is one more
    pub open spec fn with_stored(self, contents: Seq<u8>, track: TrackNumber) -> PublicationView {
        if self.is_complete() {
            self
        } else {
            PublicationView {
                index: IndexView {
                    packs: self.index.packs.push(stream_entry(contents, track)),
                    ..self.index
                },
                ..self
            }
        }
    }
}

/// A repository none of whose packs is stored yet
pub open spec fn prepared(
    head: Seq<char>,
    refs: Map<Seq<char>, Seq<char>>,
    sizes: Seq<u64>,
) -> PublicationView {
    PublicationView {
        head,
        commit: refs[head],
        bytes: total(sizes) as u64,
        sizes,
        index: IndexView { head: Some(head), refs, ..index::empty_index() },
    }
}

/// A repository that is being published
#[derive(Debug)]
pub struct Publication {
    head: String,
    commit: String,
    bytes: u64,
    sizes: Vec<u64>,
    index: Index,
}

impl View for Publication {
    type V = PublicationView;

    closed spec fn view(&self) -> PublicationView {
        PublicationView {
            head: self.head@,
            commit: self.commit@,
            bytes: self.bytes,
            sizes: self.sizes@,
            index: self.index@,
        }
    }
}

impl Publication {
    #[verifier::type_invariant]
    closed spec fn is_consistent(&self) -> bool {
        self@.is_valid()
    }

    /// Start to publish a repository, given the sizes of its packs
    pub fn prepare(head: String, refs: Refs, sizes: Vec<u64>, capacity_bytes: u64) -> (result:
        Result<Publication, String>)
        ensures
            match result {
                Ok(publication) => {
                    &&& obstacle(head@, refs@, sizes@, capacity_bytes) is None
                    &&& publication@ == prepared(head@, refs@, sizes@)
                    &&& publication@.bytes == total(sizes@)
                    &&& refs@.contains_key(head@)
                    &&& total(sizes@) < capacity_bytes
                    &&& publication@.head == head@
                    &&& publication@.commit == refs@[head@]
                    &&& publication@.sizes == sizes@
                    &&& publication@.index.version == 1
                    &&& publication@.index.head == Some(head@)
                    &&& publication@.index.refs == refs@
                    &&& publication@.index.packs == Seq::<PackEntryView>::empty()
                    &&& publication@.index.parent is None
                    &&& publication@.is_valid()
                },
                Err(message) => obstacle(head@, refs@, sizes@, capacity_bytes) == Some(message@),
            },
    {
        let commit = match refs.get(head.as_str()) {
            Some(commit) => commit.clone(),
            None => {
                return Err("HEAD does not name a local branch".to_owned());
            },
        };
        let bytes = match total_bytes(sizes.as_slice()) {
            Some(bytes) => bytes,
            None => {
                return Err("repository size overflow".to_owned());
            },
        };
        if bytes >= capacity_bytes {
            let mut message = text::concat("Git packs require ", text::decimal(bytes).as_str());
            message.append(" bytes but the tape has ");
            message.append(text::decimal(capacity_bytes).as_str());
            message.append(" bytes");
            return Err(message);
        }
        let mut index = Index::default();
        index.head = Some(head.clone());
        index.refs = refs;
        Ok(Publication { head, commit, bytes, sizes, index })
    }

    /// The ref HEAD points at
    pub fn head(&self) -> (head: &String)
        ensures
            head@ == self@.head,
    {
        &self.head
    }

    /// What HEAD points at
    pub fn commit(&self) -> (commit: &String)
        ensures
            commit@ == self@.commit,
    {
        &self.commit
    }

    /// What the packs take
    pub fn bytes(&self) -> (bytes: u64)
        ensures
            bytes == self@.bytes,
    {
        self.bytes
    }

    /// Take in where the next pack was stored as a stream of tracks
    pub fn stored(self, contents: &[u8], track: TrackNumber) -> (publication: Publication)
        ensures
            publication@ == self@.with_stored(contents@, track),
            publication@.is_valid(),
    {
        proof {
            use_type_invariant(&self);
        }
        if self.index.packs.len() >= self.sizes.len() {
            return self;
        }
        let Publication { head, commit, bytes, sizes, index } = self;
        let ghost before = index@;
        let mut index = index;
        index.packs.push(
            PackEntry {
                track: track.0,
                size: contents.len() as u64,
                digest: index::digest(contents),
                stream: true,
            },
        );
        assert(index@.packs =~= before.packs.push(stream_entry(contents@, track)));
        Publication { head, commit, bytes, sizes, index }
    }

    /// The index to store, once every pack is
    ///
    /// Readers find this object before they know which tracks are streams, so it is kept
    /// small. Its entries identify the streamed pack tracks that need assembly.
    pub fn encoded(&self) -> (bytes: Option<Vec<u8>>)
        ensures
            match bytes {
                Some(bytes) => {
                    &&& self@.is_complete()
                    &&& bytes@ == json::document_text(encoding::index_tree(self@.index))
                    &&& encoding::decoded(bytes@) == Ok::<IndexView, DecodeErrorView>(self@.index)
                },
                None => !self@.is_complete(),
            },
    {
        if self.index.packs.len() != self.sizes.len() {
            return None;
        }
        match self.index.encode() {
            Ok(bytes) => Some(bytes),
            Err(_) => None,
        }
    }
}

/// The entry for a pack that was stored as a stream of tracks
pub open spec fn stream_entry(contents: Seq<u8>, track: TrackNumber) -> PackEntryView {
    PackEntryView {
        track: track.0,
        size: contents.len() as u64,
        digest: index::pack_digest(contents),
        stream: true,
    }
}

/// What a published index records of a pack is what a reader will find
pub proof fn published_packs_match(contents: Seq<u8>, track: TrackNumber)
    ensures
        stream_entry(contents, track).describes(contents),
{
    index::recorded_digest_matches(stream_entry(contents, track), contents);
}

/// A publication with several packs stored, one after the other
pub open spec fn with_all_stored(
    publication: PublicationView,
    packs: Seq<(Seq<u8>, TrackNumber)>,
) -> PublicationView
    decreases packs.len(),
{
    if packs.len() == 0 {
        publication
    } else {
        with_all_stored(publication, packs.drop_last()).with_stored(
            packs.last().0,
            packs.last().1,
        )
    }
}

/// The index comes after every pack: it is complete once as many packs are stored as there
/// are and not before, and then records each of them, in the order they were stored, and
/// nothing else
pub proof fn index_comes_after_every_pack(
    head: Seq<char>,
    refs: Map<Seq<char>, Seq<char>>,
    sizes: Seq<u64>,
    packs: Seq<(Seq<u8>, TrackNumber)>,
)
    requires
        packs.len() <= sizes.len(),
    ensures
        ({
            let start = prepared(head, refs, sizes);
            let after = with_all_stored(start, packs);
            &&& after.is_valid()
            &&& after.is_complete() <==> packs.len() == sizes.len()
            &&& after.index.packs == packs.map_values(
                |pack: (Seq<u8>, TrackNumber)| stream_entry(pack.0, pack.1),
            )
            &&& after == PublicationView {
                index: IndexView { packs: after.index.packs, ..start.index },
                ..start
            }
        }),
    decreases packs.len(),
{
    let entries = packs.map_values(|pack: (Seq<u8>, TrackNumber)| stream_entry(pack.0, pack.1));
    let after = with_all_stored(prepared(head, refs, sizes), packs);
    if packs.len() == 0 {
        assert(after.index.packs =~= entries);
    } else {
        index_comes_after_every_pack(head, refs, sizes, packs.drop_last());
        assert(after.index.packs =~= entries);
    }
}

/// A publication starts from the refs that it is given, every name with its id and no others,
/// with HEAD as given and nothing stored yet
pub proof fn publications_start_with_every_ref(
    head: Seq<char>,
    refs: Map<Seq<char>, Seq<char>>,
    sizes: Seq<u64>,
    name: Seq<char>,
)
    ensures
        ({
            let start = prepared(head, refs, sizes);
            &&& start.index.refs.contains_key(name) <==> refs.contains_key(name)
            &&& refs.contains_key(name) ==> start.index.refs[name] == refs[name]
            &&& start.index.head == Some(head)
            &&& start.index.packs.len() == 0
            &&& start.index.parent is None
            &&& start.index.version == 1
            &&& start.head == head
            &&& start.commit == refs[head]
            &&& start.sizes == sizes
            &&& start.is_complete() <==> sizes.len() == 0
        }),
{
}

/// Sizes add up
pub proof fn totals_add_up(sizes: Seq<u64>, others: Seq<u64>, size: u64)
    ensures
        total(seq![]) == 0,
        total(seq![size]) == size,
        total(sizes + others) == total(sizes) + total(others),
    decreases others.len(),
{
    assert(seq![size].drop_last() =~= seq![]);
    assert(total(seq![size]) == total(seq![size].drop_last()) + size);
    if others.len() == 0 {
        assert(sizes + others =~= sizes);
    } else {
        totals_add_up(sizes, others.drop_last(), size);
        assert((sizes + others).drop_last() =~= sizes + others.drop_last());
    }
}

/// A repository can be published exactly when HEAD names one of its branches and its packs leave
/// room on the tape; what is in the way otherwise is said, with both sizes where it is the room
pub proof fn publishing_needs_a_branch_and_room(
    head: Seq<char>,
    refs: Map<Seq<char>, Seq<char>>,
    sizes: Seq<u64>,
    capacity: u64,
)
    ensures
        obstacle(head, refs, sizes, capacity) is None <==> refs.contains_key(head) && total(sizes)
            < capacity,
        !refs.contains_key(head) ==> obstacle(head, refs, sizes, capacity) == Some(
            "HEAD does not name a local branch"@,
        ),
        refs.contains_key(head) && total(sizes) > u64::MAX ==> obstacle(
            head,
            refs,
            sizes,
            capacity,
        ) == Some("repository size overflow"@),
        refs.contains_key(head) && capacity <= total(sizes) <= u64::MAX ==> {
            let trouble = obstacle(head, refs, sizes, capacity)->0;
            &&& text_laws::mentions(trouble, text::decimal_text(total(sizes) as nat))
            &&& text_laws::mentions(trouble, text::decimal_text(capacity as nat))
        },
{
    if refs.contains_key(head) && capacity <= total(sizes) <= u64::MAX {
        let trouble = obstacle(head, refs, sizes, capacity)->0;
        let needed = text::decimal_text(total(sizes) as nat);
        let room = text::decimal_text(capacity as nat);
        let middle = " bytes but the tape has "@;
        text_laws::mentioned(trouble, "Git packs require "@, needed, middle + room + " bytes"@);
        text_laws::mentioned(
            trouble,
            "Git packs require "@ + needed + middle,
            room,
            " bytes"@,
        );
    }
}

/// Storing a pack adds its entry behind the others, as a stream with its track, its length and a
/// digest that describes it, and touches neither the refs nor HEAD
pub proof fn stored_packs_are_streams(
    publication: PublicationView,
    contents: Seq<u8>,
    track: TrackNumber,
)
    requires
        publication.is_valid(),
        contents.len() <= u64::MAX,
    ensures
        ({
            let after = publication.with_stored(contents, track);
            let entry = after.index.packs.last();
            &&& publication.index.packs.len() < publication.sizes.len() ==> {
                &&& after.index.packs.drop_last() == publication.index.packs
                &&& after.index.packs.len() == publication.index.packs.len() + 1
                &&& entry.track == track.0
                &&& entry.size == contents.len()
                &&& entry.stream
                &&& entry.digest.len() == 32
                &&& entry.describes(contents)
            }
            &&& publication.index.packs.len() == publication.sizes.len() ==> after == publication
            &&& after.index.refs == publication.index.refs
            &&& after.index.head == publication.index.head
            &&& after.index.parent == publication.index.parent
            &&& after.index.version == publication.index.version
            &&& after.sizes == publication.sizes
            &&& after.head == publication.head
            &&& after.commit == publication.commit
            &&& after.bytes == publication.bytes
        }),
{
    published_packs_match(contents, track);
    let after = publication.with_stored(contents, track);
    if publication.index.packs.len() < publication.sizes.len() {
        assert(after.index.packs.drop_last() =~= publication.index.packs);
    }
}

} // verus!
