//! Publishing the index, re-merging until the visible head reflects our changes
//!
//! A [`Publish`] holds what is known so far and says what to do next. The caller does
//! it, hands back what came of it, and asks again.

use vstd::prelude::*;

use crate::git;
use crate::git::{Repository, RepositoryView, Words};
use crate::index;
use crate::index::{Index, IndexView, PackEntry, PackEntryView};
use crate::push;
use crate::push::{Decision, DecisionView, Landing, Spec, SpecView};
use crate::push_laws;
use crate::store;
use crate::text;
use crate::track;
use crate::track::TrackNumber;

verus! {

/// How many times to re-read, re-merge and re-write the index before giving up
pub const PUSH_ATTEMPTS: u64 = 5;

/// Told when somebody else wrote in the meantime
pub const RETRY_NOTICE: &'static str = "tape: concurrent push detected, merging and retrying";

/// Told when somebody else wrote in the meantime, every time
pub const GAVE_UP: &'static str =
    "ref index kept being overwritten by a concurrent push after 5 attempts. Nothing was lost, every object and every index version is still stored, but the push needs retrying";

/// What a version listing says to merge with
#[derive(Clone, Copy, Debug, PartialEq, Eq, Structural)]
pub struct Bounds {
    /// The newest version
    pub head: Option<TrackNumber>,
    /// The newest version this process did not write
    pub base: Option<TrackNumber>,
    /// Whether the listing holds the newest version this process wrote, if it wrote any
    pub reaches_ours: bool,
}

/// What a version listing says to merge with, given the versions this process wrote
pub open spec fn bounds_of(versions: Seq<TrackNumber>, ours: Seq<TrackNumber>) -> Bounds {
    Bounds {
        head: if versions.len() > 0 {
            Some(versions.last())
        } else {
            None
        },
        base: push::base_of(versions, ours),
        reaches_ours: ours.len() == 0 || versions.contains(ours.last()),
    }
}

/// The base index with the packs of the visible one taken on
///
/// Never drop packs belonging to a version we are about to supersede. They are
/// immutable and someone's objects depend on them.
pub open spec fn joined(base: IndexView, visible: IndexView) -> IndexView {
    IndexView { packs: index::absorbed(base.packs, visible.packs), ..base }
}

/// The index a push writes
pub open spec fn merged(
    repository: RepositoryView,
    base: IndexView,
    visible: IndexView,
    decision: DecisionView,
    pack: Option<PackEntryView>,
    base_version: Option<TrackNumber>,
) -> IndexView {
    IndexView {
        parent: match base_version {
            Some(track) => Some(track.0),
            None => None,
        },
        ..push::applied(repository, joined(base, visible), decision, pack)
    }
}

/// Merge a decision into the index that it was taken against
///
/// Deciding against their version is the merge: their refs and packs are already in
/// `base`, so our fast-forward checks run against reality and our updates are layered
/// on top rather than replacing them.
pub fn merge(
    repository: &Repository,
    base: Index,
    visible: &Index,
    decision: &Decision,
    pack: Option<&PackEntry>,
    base_version: Option<TrackNumber>,
) -> (index: Index)
    ensures
        index@ == merged(
            repository@,
            base@,
            visible@,
            decision@,
            push::opt_pack(pack),
            base_version,
        ),
{
    let mut index = base;
    index.absorb_packs(visible);
    push::apply(repository, &mut index, decision, pack);
    index.parent = match base_version {
        Some(track) => Some(track.0),
        None => None,
    };
    index
}

/// What to do next about a push
#[derive(Debug)]
pub enum Action {
    /// List the versions of the ref index, from a listing that reaches the track if
    /// one is given
    List(Option<TrackNumber>),
    /// Read the index version to merge with
    ReadBase(TrackNumber),
    /// Read the newest index version
    ReadHead(TrackNumber),
    /// Run git with these arguments
    Run(Vec<String>),
    /// Write a new version of the index
    Write(Index),
    /// List the versions again, from a listing that reaches what was written
    Confirm(TrackNumber),
    /// Nothing, the next attempt is about to start
    Retry,
    /// Tell git these results
    Finish(Vec<String>),
    /// Report this and stop
    Fail(String),
}

/// What to do next about a push
pub enum ActionView {
    List(Option<TrackNumber>),
    ReadBase(TrackNumber),
    ReadHead(TrackNumber),
    Run(Words),
    Write(IndexView),
    Confirm(TrackNumber),
    Retry,
    Finish(Seq<Seq<char>>),
    Fail(Seq<char>),
}

impl View for Action {
    type V = ActionView;

    open spec fn view(&self) -> ActionView {
        match self {
            Action::List(track) => ActionView::List(*track),
            Action::ReadBase(track) => ActionView::ReadBase(*track),
            Action::ReadHead(track) => ActionView::ReadHead(*track),
            Action::Run(arguments) => ActionView::Run(text::views(arguments@)),
            Action::Write(index) => ActionView::Write(index@),
            Action::Confirm(track) => ActionView::Confirm(*track),
            Action::Retry => ActionView::Retry,
            Action::Finish(results) => ActionView::Finish(text::views(results@)),
            Action::Fail(message) => ActionView::Fail(message@),
        }
    }
}

/// What is known so far about a push
#[verifier::ext_equal]
pub struct PublishView {
    pub specs: Seq<SpecView>,
    pub pack: Option<PackEntryView>,
    /// Which attempt this is, counted from one
    pub attempt: u64,
    /// Index versions this process wrote
    pub ours: Seq<TrackNumber>,
    pub bounds: Option<Bounds>,
    pub base_index: Option<IndexView>,
    pub head_index: Option<IndexView>,
    pub results: Seq<Seq<char>>,
    /// The version that this attempt wrote
    pub written: Option<TrackNumber>,
    /// The versions listed after that
    pub after: Option<Seq<TrackNumber>>,
}

impl PublishView {
    /// There is a bound on the attempts, and each of them writes once at most
    pub open spec fn is_valid(self) -> bool {
        &&& 1 <= self.attempt <= 5
        &&& self.written is None ==> self.ours.len() == self.attempt - 1
        &&& self.written is Some ==> self.ours.len() == self.attempt && self.ours.last()
            == self.written->0
    }

    /// The index to merge with
    pub open spec fn base(self) -> IndexView {
        if self.bounds->0.base is Some {
            self.base_index->0
        } else {
            index::empty_index()
        }
    }

    /// The index that is visible
    pub open spec fn visible(self) -> IndexView {
        if self.bounds->0.head is None {
            index::empty_index()
        } else if self.bounds->0.head == self.bounds->0.base {
            self.base_index->0
        } else {
            self.head_index->0
        }
    }

    /// What the push should do
    pub open spec fn decision(self, repository: RepositoryView) -> DecisionView {
        push::decision_on(repository, self.specs, self.base().refs)
    }

    /// The index to write
    pub open spec fn merged(self, repository: RepositoryView) -> IndexView {
        merged(
            repository,
            self.base(),
            self.visible(),
            self.decision(repository),
            self.pack,
            self.bounds->0.base,
        )
    }

    /// The next attempt
    pub open spec fn next_attempt(self) -> PublishView {
        PublishView {
            attempt: (self.attempt + 1) as u64,
            bounds: None,
            base_index: None,
            head_index: None,
            written: None,
            after: None,
            ..self
        }
    }
}

/// What follows once everything is read
pub open spec fn settle(publish: PublishView, repository: RepositoryView) -> (
    PublishView,
    ActionView,
) {
    let decision = publish.decision(repository);
    let decided = PublishView { results: decision.results, ..publish };
    if push::satisfied(publish.visible(), decision, publish.pack) {
        (decided, ActionView::Finish(decision.results))
    } else {
        match push::first_missing(
            repository,
            push::runs_for_head(joined(publish.base(), publish.visible()), decision),
        ) {
            Some(run) => (decided, ActionView::Run(run)),
            None => (decided, ActionView::Write(publish.merged(repository))),
        }
    }
}

/// What follows from the listing that came after our write
pub open spec fn confirm(publish: PublishView) -> (PublishView, ActionView) {
    match push::landing_of(publish.bounds->0.base, publish.written->0, publish.after->0) {
        Landing::Clean => (publish, ActionView::Finish(publish.results)),
        Landing::NotVisible => (
            publish,
            ActionView::Fail(store::not_listed_text(publish.written->0)),
        ),
        Landing::Conflict => if publish.attempt >= 5 {
            (publish, ActionView::Fail(GAVE_UP@))
        } else {
            (publish.next_attempt(), ActionView::Retry)
        },
    }
}

/// What to do next, and what is known then
pub open spec fn step(publish: PublishView, repository: RepositoryView) -> (
    PublishView,
    ActionView,
) {
    match publish.bounds {
        None => (
            publish,
            ActionView::List(
                if publish.ours.len() > 0 {
                    Some(publish.ours.last())
                } else {
                    None
                },
            ),
        ),
        Some(bounds) => if publish.written is Some {
            if publish.after is None {
                (publish, ActionView::Confirm(publish.written->0))
            } else {
                confirm(publish)
            }
        } else if !bounds.reaches_ours && publish.ours.len() > 0 {
            (publish, ActionView::Fail(store::not_listed_text(publish.ours.last())))
        } else if bounds.base is Some && publish.base_index is None {
            (publish, ActionView::ReadBase(bounds.base->0))
        } else {
            match push::first_missing(
                repository,
                push::runs_for(repository, publish.specs, publish.base().refs),
            ) {
                Some(run) => (publish, ActionView::Run(run)),
                None => if bounds.head is Some && bounds.head != bounds.base
                    && publish.head_index is None {
                    (publish, ActionView::ReadHead(bounds.head->0))
                } else {
                    settle(publish, repository)
                },
            }
        },
    }
}

/// A push under way
#[derive(Debug)]
pub struct Publish {
    specs: Vec<Spec>,
    pack: Option<PackEntry>,
    attempt: u64,
    ours: Vec<TrackNumber>,
    bounds: Option<Bounds>,
    base_index: Option<Index>,
    head_index: Option<Index>,
    results: Vec<String>,
    written: Option<TrackNumber>,
    after: Option<Vec<TrackNumber>>,
}

/// Content of an index that may be missing
pub open spec fn opt_index(index: Option<Index>) -> Option<IndexView> {
    match index {
        Some(index) => Some(index@),
        None => None,
    }
}

/// Content of a listing that may be missing
pub open spec fn opt_tracks(tracks: Option<Vec<TrackNumber>>) -> Option<Seq<TrackNumber>> {
    match tracks {
        Some(tracks) => Some(tracks@),
        None => None,
    }
}

/// Content of a pack entry that may be missing
pub open spec fn opt_entry(entry: Option<PackEntry>) -> Option<PackEntryView> {
    match entry {
        Some(entry) => Some(entry@),
        None => None,
    }
}

impl View for Publish {
    type V = PublishView;

    closed spec fn view(&self) -> PublishView {
        PublishView {
            specs: push::spec_views(self.specs@),
            pack: opt_entry(self.pack),
            attempt: self.attempt,
            ours: self.ours@,
            bounds: self.bounds,
            base_index: opt_index(self.base_index),
            head_index: opt_index(self.head_index),
            results: text::views(self.results@),
            written: self.written,
            after: opt_tracks(self.after),
        }
    }
}

impl Publish {
    #[verifier::type_invariant]
    closed spec fn is_consistent(&self) -> bool {
        self@.is_valid()
    }

    /// A push of some refspecs, whose new objects are in a pack if there are any
    pub fn new(specs: Vec<Spec>, pack: Option<PackEntry>) -> (publish: Publish)
        ensures
            publish@ == (PublishView {
                specs: push::spec_views(specs@),
                pack: opt_entry(pack),
                attempt: 1,
                ours: seq![],
                bounds: None,
                base_index: None,
                head_index: None,
                results: seq![],
                written: None,
                after: None,
            }),
            publish@.is_valid(),
    {
        let publish = Publish {
            specs,
            pack,
            attempt: 1,
            ours: Vec::new(),
            bounds: None,
            base_index: None,
            head_index: None,
            results: Vec::new(),
            written: None,
            after: None,
        };
        assert(publish@.ours =~= seq![]);
        assert(publish@.results =~= seq![]);
        publish
    }

    /// Take in the versions that were listed
    ///
    /// Deciding against our own version would re-derive our own state and miss a pusher
    /// we shadowed, so a retry always bases on the newest version somebody *else* wrote.
    pub fn listed(self, versions: &[TrackNumber]) -> (publish: Publish)
        ensures
            publish@ == (PublishView {
                bounds: Some(bounds_of(versions@, self@.ours)),
                ..self@
            }),
            publish@.is_valid(),
    {
        proof {
            use_type_invariant(&self);
        }
        let head = if versions.len() > 0 {
            Some(versions[versions.len() - 1])
        } else {
            None
        };
        let base = push::choose_base(versions, self.ours.as_slice());
        let reaches_ours = self.ours.len() == 0 || track::is_among(
            self.ours[self.ours.len() - 1],
            versions,
        );
        Publish { bounds: Some(Bounds { head, base, reaches_ours }), ..self }
    }

    /// Take in the index version to merge with
    pub fn base_read(self, index: Index) -> (publish: Publish)
        ensures
            publish@ == (PublishView { base_index: Some(index@), ..self@ }),
            publish@.is_valid(),
    {
        proof {
            use_type_invariant(&self);
        }
        Publish { base_index: Some(index), ..self }
    }

    /// Take in the newest index version
    pub fn head_read(self, index: Index) -> (publish: Publish)
        ensures
            publish@ == (PublishView { head_index: Some(index@), ..self@ }),
            publish@.is_valid(),
    {
        proof {
            use_type_invariant(&self);
        }
        Publish { head_index: Some(index), ..self }
    }

    /// Take in where the index was written, once an attempt
    pub fn wrote(self, track: TrackNumber) -> (publish: Publish)
        ensures
            publish@ == if self@.written is None {
                PublishView { ours: self@.ours.push(track), written: Some(track), ..self@ }
            } else {
                self@
            },
            publish@.is_valid(),
    {
        proof {
            use_type_invariant(&self);
        }
        if self.written.is_some() {
            return self;
        }
        let Publish {
            specs,
            pack,
            attempt,
            ours,
            bounds,
            base_index,
            head_index,
            results,
            written: _,
            after,
        } = self;
        let mut ours = ours;
        ours.push(track);
        Publish {
            specs,
            pack,
            attempt,
            ours,
            bounds,
            base_index,
            head_index,
            results,
            written: Some(track),
            after,
        }
    }

    /// Take in the versions that were listed after our write
    pub fn confirmed(self, versions: Vec<TrackNumber>) -> (publish: Publish)
        ensures
            publish@ == (PublishView { after: Some(versions@), ..self@ }),
            publish@.is_valid(),
    {
        proof {
            use_type_invariant(&self);
        }
        Publish { after: Some(versions), ..self }
    }
}

impl Publish {
    fn base(&self) -> (base: Index)
        requires
            self@.bounds is Some,
            self@.bounds->0.base is Some ==> self@.base_index is Some,
        ensures
            base@ == self@.base(),
    {
        match (&self.bounds, &self.base_index) {
            (Some(bounds), Some(index)) => {
                if bounds.base.is_some() {
                    return index.clone();
                }
            },
            _ => {},
        }
        Index::default()
    }

    fn visible(&self) -> (visible: Index)
        requires
            self@.bounds is Some,
            self@.bounds->0.base is Some ==> self@.base_index is Some,
            self@.bounds->0.head is Some && self@.bounds->0.head != self@.bounds->0.base
                ==> self@.head_index is Some,
        ensures
            visible@ == self@.visible(),
    {
        if let Some(bounds) = &self.bounds {
            if bounds.head.is_some() {
                if track::same(bounds.head, bounds.base) {
                    if let Some(index) = &self.base_index {
                        return index.clone();
                    }
                } else if let Some(index) = &self.head_index {
                    return index.clone();
                }
            }
        }
        Index::default()
    }

    /// What follows once everything is read
    fn settle(self, repository: &Repository) -> (step: (Publish, Action))
        requires
            self@.bounds is Some,
            self@.written is None,
            self@.bounds->0.base is Some ==> self@.base_index is Some,
            self@.bounds->0.head is Some && self@.bounds->0.head != self@.bounds->0.base
                ==> self@.head_index is Some,
        ensures
            (step.0@, step.1@) == settle(self@, repository@),
            step.0@.is_valid(),
    {
        proof {
            use_type_invariant(&self);
        }
        let base = self.base();
        let visible = self.visible();
        let decision = push::decide(repository, self.specs.as_slice(), &base);
        let results = text::copy_strings(&decision.results);
        let done = push::is_satisfied(&visible, &decision, self.pack.as_ref());
        if done {
            let answer = text::copy_strings(&results);
            return (Publish { results, ..self }, Action::Finish(answer));
        }
        let base_version = match &self.bounds {
            Some(bounds) => bounds.base,
            None => None,
        };
        if let Some(run) = pending_head(repository, &base, &visible, &decision) {
            return (Publish { results, ..self }, Action::Run(run));
        }
        let index = merge(
            repository,
            base,
            &visible,
            &decision,
            self.pack.as_ref(),
            base_version,
        );
        (Publish { results, ..self }, Action::Write(index))
    }

    /// What follows from the listing that came after our write
    ///
    /// Confirm using track metadata only. Reading our own index back would mean
    /// fetching slices of a track written seconds ago. The version list tells us what
    /// we need without touching content. We won without a race when nothing landed after
    /// us and the version directly below ours is exactly the base we merged against.
    fn confirm(self, written: TrackNumber) -> (step: (Publish, Action))
        requires
            self@.bounds is Some,
            self@.written == Some(written),
            self@.after is Some,
        ensures
            (step.0@, step.1@) == confirm(self@),
            step.0@.is_valid(),
    {
        proof {
            use_type_invariant(&self);
        }
        let base_version = match &self.bounds {
            Some(bounds) => bounds.base,
            None => None,
        };
        let verdict = match &self.after {
            Some(after) => push::landing(base_version, written, after.as_slice()),
            None => Landing::NotVisible,
        };
        match verdict {
            Landing::Clean => {
                let answer = text::copy_strings(&self.results);
                (self, Action::Finish(answer))
            },
            Landing::NotVisible => (self, Action::Fail(store::not_listed(written))),
            Landing::Conflict => {
                if self.attempt >= PUSH_ATTEMPTS {
                    return (self, Action::Fail(GAVE_UP.to_owned()));
                }
                let again = Publish {
                    attempt: self.attempt + 1,
                    bounds: None,
                    base_index: None,
                    head_index: None,
                    written: None,
                    after: None,
                    ..self
                };
                (again, Action::Retry)
            },
        }
    }

    /// What to do next, given what git has been run with so far
    ///
    /// A node that has not ingested our newest write yet answers with a listing that
    /// stops below it, and re-basing on that would write the same merge again. So a
    /// later attempt asks for a listing that reaches it, and stops at one that does not
    /// hold it.
    pub fn next(self, repository: &Repository) -> (result: (Publish, Action))
        ensures
            (result.0@, result.1@) == step(self@, repository@),
            result.0@.is_valid(),
    {
        proof {
            use_type_invariant(&self);
        }
        let bounds = match self.bounds {
            Some(bounds) => bounds,
            None => {
                let newest = if self.ours.len() > 0 {
                    Some(self.ours[self.ours.len() - 1])
                } else {
                    None
                };
                return (self, Action::List(newest));
            },
        };
        if let Some(written) = self.written {
            if self.after.is_none() {
                return (self, Action::Confirm(written));
            }
            return self.confirm(written);
        }
        if !bounds.reaches_ours && self.ours.len() > 0 {
            let newest = self.ours[self.ours.len() - 1];
            return (self, Action::Fail(store::not_listed(newest)));
        }
        if let Some(base) = bounds.base {
            if self.base_index.is_none() {
                return (self, Action::ReadBase(base));
            }
        }
        let base = self.base();
        if let Some(run) = push::pending(repository, self.specs.as_slice(), &base) {
            return (self, Action::Run(run));
        }
        if let Some(head) = bounds.head {
            if !track::same(bounds.head, bounds.base) && self.head_index.is_none() {
                return (self, Action::ReadHead(head));
            }
        }
        self.settle(repository)
    }
}

/// Which run folding in a decision still waits for
fn pending_head(
    repository: &Repository,
    base: &Index,
    visible: &Index,
    decision: &Decision,
) -> (run: Option<Vec<String>>)
    ensures
        push::opt_words(run) == push::first_missing(
            repository@,
            push::runs_for_head(joined(base@, visible@), decision@),
        ),
{
    proof {
        reveal_with_fuel(push::first_missing, 2);
    }
    let mut trial = base.clone();
    push::apply_refs(&mut trial, decision);
    let is_live = match &base.head {
        Some(head) => trial.refs.contains_key(head.as_str()),
        None => false,
    };
    if is_live {
        return None;
    }
    let arguments = git::head_arguments();
    if repository.has_run(&arguments) {
        None
    } else {
        Some(arguments)
    }
}

/// A push takes five attempts at most, writes the index at most once in each, and stays so
/// whatever comes back
pub proof fn pushes_are_bounded(publish: PublishView, repository: RepositoryView)
    requires
        publish.is_valid(),
    ensures
        publish.ours.len() <= publish.attempt <= 5,
        step(publish, repository).0.is_valid(),
        step(publish, repository).1 is Write ==> publish.ours.len() < 5,
        step(publish, repository).1 is Retry ==> step(publish, repository).0.attempt
            == publish.attempt + 1,
{
}

/// A push only reports success when the visible index reflects everything it wanted, or when
/// what it wrote landed clean
pub proof fn finishing_means_settled(publish: PublishView, repository: RepositoryView)
    requires
        step(publish, repository).1 is Finish,
    ensures
        ({
            let results = step(publish, repository).1->Finish_0;
            let bounds = publish.bounds->0;
            &&& publish.bounds is Some
            &&& publish.written is None ==> results == publish.decision(repository).results
                && push::satisfied(
                publish.visible(),
                publish.decision(repository),
                publish.pack,
            )
            &&& publish.written is Some ==> results == publish.results && publish.after is Some
                && push::landing_of(bounds.base, publish.written->0, publish.after->0) is Clean
        }),
{
}

/// A write that no listing shows stops the push rather than being written again
pub proof fn unlisted_writes_stop_the_push(publish: PublishView, repository: RepositoryView)
    requires
        publish.bounds is Some,
        publish.written is Some,
        publish.after is Some,
        !publish.after->0.contains(publish.written->0),
    ensures
        step(publish, repository).1 == ActionView::Fail(
            store::not_listed_text(publish.written->0),
        ),
{
}

/// A retry never bases on a listing that lacks the newest version this process wrote: it stops
/// instead, and neither reads nor writes anything
pub proof fn retries_base_on_our_newest_write(
    publish: PublishView,
    repository: RepositoryView,
    versions: Seq<TrackNumber>,
)
    requires
        publish.bounds == Some(bounds_of(versions, publish.ours)),
        publish.written is None,
        publish.ours.len() > 0,
    ensures
        !versions.contains(publish.ours.last()) <==> step(publish, repository).1
            == ActionView::Fail(store::not_listed_text(publish.ours.last())),
        !(step(publish, repository).1 is Fail) ==> versions.contains(publish.ours.last()),
{
}

/// A push never merges with a version that it wrote itself
pub proof fn base_is_never_ours(versions: Seq<TrackNumber>, ours: Seq<TrackNumber>)
    ensures
        push::base_of(versions, ours) is Some ==> !ours.contains(
            push::base_of(versions, ours)->0,
        ) && versions.contains(push::base_of(versions, ours)->0),
    decreases versions.len(),
{
    if versions.len() > 0 {
        assert(versions.contains(versions.last()));
        base_is_never_ours(versions.drop_last(), ours);
        if let Some(base) = push::base_of(versions.drop_last(), ours) {
            let i = choose|i: int|
                0 <= i < versions.drop_last().len() && versions.drop_last()[i] == base;
            assert(versions[i] == base);
        }
    }
}

/// Git is never asked the same thing twice
pub proof fn runs_are_not_repeated(publish: PublishView, repository: RepositoryView)
    ensures
        step(publish, repository).1 matches ActionView::Run(arguments) ==> !repository.has_run(
            arguments,
        ),
{
    if publish.bounds is Some {
        push::first_missing_is_missing(
            repository,
            push::runs_for(repository, publish.specs, publish.base().refs),
        );
        push::first_missing_is_missing(
            repository,
            push::runs_for_head(
                joined(publish.base(), publish.visible()),
                publish.decision(repository),
            ),
        );
    }
}

/// The index that a push writes lists every pack of the version it merges with, every pack of
/// the version it supersedes, and its own, and no others
pub proof fn merging_keeps_every_pack(
    repository: RepositoryView,
    base: IndexView,
    visible: IndexView,
    decision: DecisionView,
    pack: Option<PackEntryView>,
    base_version: Option<TrackNumber>,
    track: u64,
)
    ensures
        index::lists(
            merged(repository, base, visible, decision, pack, base_version).packs,
            track,
        ) <==> {
            ||| index::lists(base.packs, track)
            ||| index::lists(visible.packs, track)
            ||| pack is Some && pack->0.track == track
        },
{
    let packs = joined(base, visible).packs;
    let after = merged(repository, base, visible, decision, pack, base_version).packs;
    index::absorbed_packs_are_the_union(base.packs, visible.packs);
    assert(index::lists(packs, track) <==> index::lists(base.packs, track) || index::lists(
        visible.packs,
        track,
    ));
    if pack is Some && !index::lists(packs, pack->0.track) {
        if index::lists(packs, track) {
            let i = choose|i: int| 0 <= i < packs.len() && #[trigger] packs[i].track == track;
            assert(after[i].track == track);
        }
        assert(after[packs.len() as int].track == pack->0.track);
        if index::lists(after, track) {
            let i = choose|i: int| 0 <= i < after.len() && #[trigger] after[i].track == track;
            if i < packs.len() {
                assert(packs[i].track == track);
            }
        }
    }
}

/// The index that a push writes records what it was derived from, keeps every ref that the
/// push does not name, and never has a ref of its own that the push did not ask for
pub proof fn merging_keeps_other_refs(
    repository: RepositoryView,
    base: IndexView,
    visible: IndexView,
    decision: DecisionView,
    pack: Option<PackEntryView>,
    base_version: Option<TrackNumber>,
    name: Seq<char>,
)
    requires
        !decision.deletions.contains(name),
        forall|i: int|
            0 <= i < decision.updates.len() ==> (#[trigger] decision.updates[i]).0 != name,
    ensures
        ({
            let after = merged(repository, base, visible, decision, pack, base_version);
            &&& after.refs.contains_key(name) == base.refs.contains_key(name)
            &&& base.refs.contains_key(name) ==> after.refs[name] == base.refs[name]
            &&& base_version is Some ==> after.parent == Some((base_version->0).0)
            &&& base_version is None ==> after.parent is None
        }),
{
    push_laws::other_refs_stay(base.refs, decision, name);
}

/// Whoever reads the index that a push wrote finds everything the push wanted, as long as its
/// refspecs have different destinations
pub proof fn written_index_is_satisfying(publish: PublishView, repository: RepositoryView)
    requires
        push_laws::destinations_differ(publish.specs),
    ensures
        push::satisfied(
            publish.merged(repository),
            publish.decision(repository),
            publish.pack,
        ),
{
    let decision = publish.decision(repository);
    push_laws::distinct_refspecs_are_consistent(repository, publish.specs, publish.base().refs);
    push_laws::applying_satisfies(
        repository,
        joined(publish.base(), publish.visible()),
        decision,
        publish.pack,
    );
}

/// A push that lands clean supersedes nothing unseen: the version it merged with is the newest
/// that anybody else wrote, what it wrote records that version, and every ref that the push
/// does not name is as it was there; where it merged with none, nobody else wrote any, and there
/// are no such refs
pub proof fn clean_pushes_lose_no_ref(
    publish: PublishView,
    repository: RepositoryView,
    name: Seq<char>,
)
    requires
        publish.bounds is Some,
        publish.written is Some,
        publish.after is Some,
        track::in_order(publish.after->0),
        push::landing_of(
            publish.bounds->0.base,
            publish.written->0,
            publish.after->0,
        ) is Clean,
        !publish.decision(repository).deletions.contains(name),
        forall|i: int|
            0 <= i < publish.decision(repository).updates.len() ==> (
            #[trigger] publish.decision(repository).updates[i]).0 != name,
    ensures
        ({
            let after = publish.after->0;
            let index = publish.merged(repository);
            match publish.bounds->0.base {
                Some(base) => {
                    &&& after.contains(base)
                    &&& forall|version: TrackNumber| #[trigger]
                        after.contains(version) && version != publish.written->0 ==> version.0
                            <= base.0
                    &&& index.parent == Some(base.0)
                    &&& index.refs.contains_key(name) == publish.base().refs.contains_key(name)
                    &&& index.refs.contains_key(name) ==> index.refs[name]
                        == publish.base().refs[name]
                },
                None => {
                    &&& forall|version: TrackNumber| #[trigger]
                        after.contains(version) ==> version == publish.written->0
                    &&& index.parent is None
                    &&& !index.refs.contains_key(name)
                },
            }
        }),
{
    push::clean_landing_has_no_rival(
        publish.bounds->0.base,
        publish.written->0,
        publish.after->0,
    );
    merging_keeps_other_refs(
        repository,
        publish.base(),
        publish.visible(),
        publish.decision(repository),
        publish.pack,
        publish.bounds->0.base,
        name,
    );
}

} // verus!
