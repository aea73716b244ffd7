//! Storing the objects a push needs, if there are any
//!
//! Done once, before the index is published: pack contents are content-addressed and a
//! retry only changes ref bookkeeping, never which objects have to exist.

use vstd::prelude::*;

use crate::git;
use crate::git::{Process, Repository, RepositoryView, Words};
use crate::index;
use crate::index::{Index, IndexView, PackEntry, PackEntryView};
use crate::publish;
use crate::publish::{Publish, PublishView};
use crate::push;
use crate::push::{Decision, Spec, SpecView};
use crate::push_laws;
use crate::store;
use crate::store::{Store, StoreView};
use crate::text;
use crate::text_laws;
use crate::track::TrackNumber;

verus! {

/// Those of some objects that this repository holds
pub open spec fn held(repository: RepositoryView, ids: Words) -> Words
    decreases ids.len(),
{
    if ids.len() == 0 {
        seq![]
    } else if repository.has_object(ids.last()) {
        held(repository, ids.drop_last()).push(ids.last())
    } else {
        held(repository, ids.drop_last())
    }
}

/// The runs that tell which of some objects this repository holds
pub open spec fn runs_for_held(ids: Words) -> Seq<Words> {
    ids.map_values(|id: Seq<char>| git::has_object_words(id))
}

/// How to pack what a push needs
#[derive(Debug)]
pub enum PackPlan {
    /// There is nothing new
    Nothing,
    /// Run git with these arguments first
    Run(Vec<String>),
    /// Have this git build the pack
    Build(Process),
}

/// Which run deciding on exclusions still waits for
fn pending_exclusion(repository: &Repository, tips: &Vec<String>) -> (run: Option<Vec<String>>)
    ensures
        push::opt_words(run) == push::first_missing(
            repository@,
            runs_for_held(text::views(tips@)),
        ),
{
    let ghost runs = runs_for_held(text::views(tips@));
    let mut i: usize = 0;
    assert(runs.skip(0) =~= runs);
    while i < tips.len()
        invariant
            i <= tips@.len(),
            runs == runs_for_held(text::views(tips@)),
            push::first_missing(repository@, runs) == push::first_missing(
                repository@,
                runs.skip(i as int),
            ),
        decreases tips.len() - i,
    {
        let arguments = git::has_object_arguments(tips[i].as_str());
        proof {
            assert(runs.skip(i as int)[0] == git::has_object_words(tips@[i as int]@));
            assert(runs.skip(i as int).drop_first() =~= runs.skip(i + 1));
        }
        if !repository.has_run(&arguments) {
            return Some(arguments);
        }
        i = i + 1;
    }
    None
}

/// The tips a pack may leave out
///
/// Only object ids we actually hold can be excluded. A tip pushed by someone else that
/// we never fetched would otherwise abort `pack-objects` with "bad object". Dropping it
/// just re-sends objects the remote already has.
fn exclusions(repository: &Repository, tips: &Vec<String>) -> (excluded: Vec<String>)
    ensures
        text::views(excluded@) == held(repository@, text::views(tips@)),
{
    let ghost all = text::views(tips@);
    let mut excluded: Vec<String> = Vec::new();
    let mut i: usize = 0;
    assert(text::views(excluded@) =~= seq![]);
    while i < tips.len()
        invariant
            i <= tips@.len(),
            all == text::views(tips@),
            text::views(excluded@) == held(repository@, all.take(i as int)),
        decreases tips.len() - i,
    {
        let ghost before = text::views(excluded@);
        proof {
            let seen = all.take(i + 1);
            assert(seen.drop_last() =~= all.take(i as int));
            assert(seen.last() == tips@[i as int]@);
        }
        if repository.has_object(tips[i].as_str()) {
            excluded.push(tips[i].clone());
            assert(text::views(excluded@) =~= before.push(tips@[i as int]@));
        }
        i = i + 1;
    }
    assert(all.take(all.len() as int) =~= all);
    excluded
}

/// Plan the pack of what a decision needs and a base index does not have
pub fn plan_pack(repository: &Repository, base: &Index, decision: &Decision) -> (plan: PackPlan)
    ensures
        match plan {
            PackPlan::Nothing => decision@.included.len() == 0,
            PackPlan::Run(arguments) => decision@.included.len() > 0 && push::first_missing(
                repository@,
                runs_for_held(index::tips_of(base@.refs)),
            ) == Some(text::views(arguments@)),
            PackPlan::Build(process) => {
                &&& decision@.included.len() > 0
                &&& push::first_missing(
                    repository@,
                    runs_for_held(index::tips_of(base@.refs)),
                ) is None
                &&& text::views(process.arguments@) == seq![
                    "pack-objects"@,
                    "--stdout"@,
                    "--revs"@,
                    "--delta-base-offset"@,
                    "--quiet"@,
                ]
                &&& process.input@ == vstd::utf8::encode_utf8(
                    git::revision_lines(
                        decision@.included,
                        held(repository@, index::tips_of(base@.refs)),
                    ),
                )
                &&& process.what@ == "git pack-objects"@
            },
        },
{
    if decision.included.len() == 0 {
        return PackPlan::Nothing;
    }
    let tips = base.tips();
    if let Some(arguments) = pending_exclusion(repository, &tips) {
        return PackPlan::Run(arguments);
    }
    let excluded = exclusions(repository, &tips);
    PackPlan::Build(
        repository.pack_objects(decision.included.as_slice(), excluded.as_slice()),
    )
}

/// What the user is told about a pack that is written
pub open spec fn write_notice(objects: int, bytes: int) -> Seq<char> {
    "tape: writing pack of "@ + text::decimal_text(objects as nat) + if objects == 1 {
        " object ("@
    } else {
        " objects ("@
    } + text::decimal_text(bytes as nat) + " bytes)"@
}

/// Whether a pack is worth storing, and what to tell the user if it is
pub fn worth_storing(pack: &[u8]) -> (notice: Option<String>)
    ensures
        text::opt_view(notice) == if git::object_count(pack@) == 0 {
            None
        } else {
            Some(write_notice(git::object_count(pack@), pack@.len() as int))
        },
{
    let objects = git::pack_object_count(pack);
    if objects == 0 {
        return None;
    }
    let mut notice = text::concat("tape: writing pack of ", text::decimal(objects).as_str());
    if objects == 1 {
        notice.append(" object (");
    } else {
        notice.append(" objects (");
    }
    notice.append(text::decimal(pack.len() as u64).as_str());
    notice.append(" bytes)");
    Some(notice)
}

/// What the user is told about a pack that is stored
pub fn stored_notice(entry: &PackEntry) -> (notice: String)
    ensures
        notice@ == "tape: pack stored at track "@ + text::decimal_text(entry.track as nat),
{
    text::concat("tape: pack stored at track ", text::decimal(entry.track).as_str())
}

/// Only objects that this repository holds are ever left out of a pack
pub proof fn excluded_objects_are_held(repository: RepositoryView, ids: Words, id: Seq<char>)
    ensures
        held(repository, ids).contains(id) <==> ids.contains(id) && repository.has_object(id),
    decreases ids.len(),
{
    let kept = held(repository, ids);
    if ids.len() > 0 {
        let init = ids.drop_last();
        let before = held(repository, init);
        excluded_objects_are_held(repository, init, id);
        assert(ids[ids.len() - 1] == ids.last());
        if ids.contains(id) {
            let i = choose|i: int| 0 <= i < ids.len() && ids[i] == id;
            if i < init.len() {
                assert(init[i] == id);
            }
        }
        if init.contains(id) {
            let i = choose|i: int| 0 <= i < init.len() && init[i] == id;
            assert(ids[i] == id);
        }
        if before.contains(id) {
            let i = choose|i: int| 0 <= i < before.len() && before[i] == id;
            assert(kept[i] == id);
        }
        if kept.contains(id) {
            let i = choose|i: int| 0 <= i < kept.len() && kept[i] == id;
            if i < before.len() {
                assert(before[i] == id);
            }
        }
        if repository.has_object(ids.last()) {
            assert(kept[kept.len() - 1] == ids.last());
        }
    }
}

/// What a push does before it publishes the index
#[derive(Debug)]
pub enum Preparation {
    /// The current index is still to be read
    Reading(Vec<Spec>),
    /// What that index does not have is to be packed
    Packing(Vec<Spec>, Index),
    /// The pack is built, and is to be stored
    Built(Vec<Spec>, Vec<u8>),
    /// The pack is stored, and is to be noted as installed
    Stored(Vec<Spec>, PackEntry),
    /// There is nothing to store, or it is stored
    Ready(Vec<Spec>, Option<PackEntry>),
}

/// What a push does before it publishes the index
pub enum PreparationView {
    Reading(Seq<SpecView>),
    Packing(Seq<SpecView>, IndexView),
    Built(Seq<SpecView>, Seq<u8>),
    Stored(Seq<SpecView>, PackEntryView),
    Ready(Seq<SpecView>, Option<PackEntryView>),
}

impl View for Preparation {
    type V = PreparationView;

    open spec fn view(&self) -> PreparationView {
        match self {
            Preparation::Reading(specs) => PreparationView::Reading(push::spec_views(specs@)),
            Preparation::Packing(specs, base) => PreparationView::Packing(
                push::spec_views(specs@),
                base@,
            ),
            Preparation::Built(specs, pack) => PreparationView::Built(
                push::spec_views(specs@),
                pack@,
            ),
            Preparation::Stored(specs, entry) => PreparationView::Stored(
                push::spec_views(specs@),
                entry@,
            ),
            Preparation::Ready(specs, entry) => PreparationView::Ready(
                push::spec_views(specs@),
                publish::opt_entry(*entry),
            ),
        }
    }
}

/// What to do next before the index is published
#[derive(Debug)]
pub enum Errand {
    /// Read the current index
    ReadIndex,
    /// Run git with these arguments
    Run(Vec<String>),
    /// Have this git build the pack
    Build(Process),
    /// Tell the user this, and store the pack
    Store(String),
    /// Tell the user this, and note the pack with this identity as installed
    ///
    /// We built this pack from local objects, so we already have every object in it.
    /// Recording it as installed stops the next `git pull` in this repo from downloading
    /// our own push back again.
    Note(String, String),
    /// Publish the index
    Publish,
}

/// What to do next before the index is published
pub enum ErrandView {
    ReadIndex,
    Run(Words),
    /// A git that packs what reaches the first ids but not the second
    Build(Words, Words),
    Store(Seq<char>),
    Note(Seq<char>, Seq<char>),
    Publish,
}

/// What an errand is about, for a process the revisions that it is fed
pub open spec fn is_errand(errand: Errand, view: ErrandView) -> bool {
    match (errand, view) {
        (Errand::ReadIndex, ErrandView::ReadIndex) => true,
        (Errand::Run(arguments), ErrandView::Run(words)) => text::views(arguments@) == words,
        (Errand::Build(process), ErrandView::Build(included, excluded)) => {
            &&& text::views(process.arguments@) == seq![
                "pack-objects"@,
                "--stdout"@,
                "--revs"@,
                "--delta-base-offset"@,
                "--quiet"@,
            ]
            &&& process.input@ == vstd::utf8::encode_utf8(
                git::revision_lines(included, excluded),
            )
            &&& process.what@ == "git pack-objects"@
        },
        (Errand::Store(notice), ErrandView::Store(text)) => notice@ == text,
        (Errand::Note(notice, key), ErrandView::Note(text, identity)) => notice@ == text && key@
            == identity,
        (Errand::Publish, ErrandView::Publish) => true,
        _ => false,
    }
}

/// What to do next, and where the preparation stands then
pub open spec fn prepare(
    preparation: PreparationView,
    repository: RepositoryView,
    store: StoreView,
) -> (PreparationView, ErrandView) {
    match preparation {
        PreparationView::Reading(_) => (preparation, ErrandView::ReadIndex),
        PreparationView::Packing(specs, base) => match push::first_missing(
            repository,
            push::runs_for(repository, specs, base.refs),
        ) {
            Some(run) => (preparation, ErrandView::Run(run)),
            None => {
                let included = push::decision_on(repository, specs, base.refs).included;
                let tips = index::tips_of(base.refs);
                if included.len() == 0 {
                    (PreparationView::Ready(specs, None), ErrandView::Publish)
                } else {
                    match push::first_missing(repository, runs_for_held(tips)) {
                        Some(run) => (preparation, ErrandView::Run(run)),
                        None => (
                            preparation,
                            ErrandView::Build(included, held(repository, tips)),
                        ),
                    }
                }
            },
        },
        PreparationView::Built(specs, pack) => if git::object_count(pack) == 0 {
            (PreparationView::Ready(specs, None), ErrandView::Publish)
        } else {
            (
                preparation,
                ErrandView::Store(write_notice(git::object_count(pack), pack.len() as int)),
            )
        },
        PreparationView::Stored(specs, entry) => (
            preparation,
            ErrandView::Note(
                "tape: pack stored at track "@ + text::decimal_text(entry.track as nat),
                store.installed_key(entry.track),
            ),
        ),
        PreparationView::Ready(_, _) => (preparation, ErrandView::Publish),
    }
}

impl Preparation {
    /// Start on a batch of refspecs, if this remote can be pushed to at all
    ///
    /// Fail before doing any work. Packing a repository and then discovering we have no key
    /// to write with wastes the user's time and reads like a crash.
    pub fn start(store: &Store, specs: &[String]) -> (result: Result<Preparation, String>)
        ensures
            match result {
                Ok(preparation) => store@.obstacle() is None && preparation@
                    == PreparationView::Reading(
                    text::views(specs@).map_values(|refspec: Seq<char>| push::parsed(refspec)),
                ),
                Err(message) => store@.obstacle() == Some(message@),
            },
    {
        match store.writable() {
            Ok(_) => Ok(Preparation::Reading(push::parse_specs(specs))),
            Err(obstacle) => Err(obstacle),
        }
    }

    /// What to do next, given what git has been run with so far
    pub fn next(self, repository: &Repository, store: &Store) -> (result: (Preparation, Errand))
        ensures
            result.0@ == prepare(self@, repository@, store@).0,
            is_errand(result.1, prepare(self@, repository@, store@).1),
    {
        match self {
            Preparation::Reading(specs) => (Preparation::Reading(specs), Errand::ReadIndex),
            Preparation::Packing(specs, base) => {
                if let Some(run) = push::pending(repository, specs.as_slice(), &base) {
                    return (Preparation::Packing(specs, base), Errand::Run(run));
                }
                let decision = push::decide(repository, specs.as_slice(), &base);
                match plan_pack(repository, &base, &decision) {
                    PackPlan::Nothing => (Preparation::Ready(specs, None), Errand::Publish),
                    PackPlan::Run(run) => (Preparation::Packing(specs, base), Errand::Run(run)),
                    PackPlan::Build(process) => (
                        Preparation::Packing(specs, base),
                        Errand::Build(process),
                    ),
                }
            },
            Preparation::Built(specs, pack) => {
                match worth_storing(pack.as_slice()) {
                    None => (Preparation::Ready(specs, None), Errand::Publish),
                    Some(notice) => (Preparation::Built(specs, pack), Errand::Store(notice)),
                }
            },
            Preparation::Stored(specs, entry) => {
                let notice = stored_notice(&entry);
                let key = store.installed_key(entry.track);
                (Preparation::Stored(specs, entry), Errand::Note(notice, key))
            },
            Preparation::Ready(specs, entry) => (
                Preparation::Ready(specs, entry),
                Errand::Publish,
            ),
        }
    }

    /// Take in the current index, nothing having been pushed yet when there is none
    pub fn index_read(self, index: Option<Index>) -> (after: Preparation)
        ensures
            after@ == match self@ {
                PreparationView::Reading(specs) => PreparationView::Packing(
                    specs,
                    match index {
                        Some(index) => index@,
                        None => index::empty_index(),
                    },
                ),
                _ => self@,
            },
    {
        match self {
            Preparation::Reading(specs) => match index {
                Some(index) => Preparation::Packing(specs, index),
                None => Preparation::Packing(specs, Index::default()),
            },
            other => other,
        }
    }

    /// Take in the pack that was built
    pub fn built(self, pack: Vec<u8>) -> (after: Preparation)
        ensures
            after@ == match self@ {
                PreparationView::Packing(specs, _) => PreparationView::Built(specs, pack@),
                _ => self@,
            },
    {
        match self {
            Preparation::Packing(specs, _) => Preparation::Built(specs, pack),
            other => other,
        }
    }

    /// The pack that is built and not yet stored
    pub fn pack(&self) -> (pack: Option<&Vec<u8>>)
        ensures
            match self@ {
                PreparationView::Built(_, bytes) => pack is Some && pack->0@ == bytes,
                _ => pack is None,
            },
    {
        match self {
            Preparation::Built(_, pack) => Some(pack),
            _ => None,
        }
    }

    /// Take in where the pack was stored, or why it was not
    pub fn stored(self, store: &Store, written: Result<TrackNumber, String>) -> (result: Result<
        Preparation,
        String,
    >)
        ensures
            match (self@, result) {
                (PreparationView::Built(specs, pack), Ok(after)) => {
                    &&& store@.obstacle() is None
                    &&& written is Ok
                    &&& after@ == PreparationView::Stored(
                        specs,
                        store::pack_entry(pack, written->Ok_0),
                    )
                },
                (PreparationView::Built(_, pack), Err(message)) => match store@.obstacle() {
                    Some(obstacle) => message@ == obstacle,
                    None => written is Err && message@ == store::pack_trouble(
                        pack,
                        written->Err_0@,
                    ),
                },
                (_, Ok(after)) => after@ == self@,
                (_, Err(_)) => false,
            },
    {
        match self {
            Preparation::Built(specs, pack) => match store.write_pack(pack.as_slice(), written) {
                Ok(entry) => Ok(Preparation::Stored(specs, entry)),
                Err(message) => Err(message),
            },
            other => Ok(other),
        }
    }

    /// Take in that the pack was noted as installed
    pub fn noted(self) -> (after: Preparation)
        ensures
            after@ == match self@ {
                PreparationView::Stored(specs, entry) => PreparationView::Ready(
                    specs,
                    Some(entry),
                ),
                _ => self@,
            },
    {
        match self {
            Preparation::Stored(specs, entry) => Preparation::Ready(specs, Some(entry)),
            other => other,
        }
    }
}

impl Preparation {
    /// The publication of the index, once everything is ready for it
    pub fn publish(self) -> (publish: Option<Publish>)
        ensures
            match self@ {
                PreparationView::Ready(specs, entry) => publish is Some && publish->0@ == (
                PublishView {
                    specs,
                    pack: entry,
                    attempt: 1,
                    ours: seq![],
                    bounds: None,
                    base_index: None,
                    head_index: None,
                    results: seq![],
                    written: None,
                    after: None,
                }),
                _ => publish is None,
            },
    {
        match self {
            Preparation::Ready(specs, entry) => Some(Publish::new(specs, entry)),
            _ => None,
        }
    }
}

/// Whatever git and the network answer, a push that has new tips does not come to publish its
/// index before a pack with objects in it is stored, unless git found nothing to pack
pub proof fn packs_are_stored_before_publishing(
    preparation: PreparationView,
    repository: RepositoryView,
    store: StoreView,
)
    requires
        prepare(preparation, repository, store).1 is Publish,
    ensures
        match preparation {
            PreparationView::Packing(specs, base) => push::decision_on(
                repository,
                specs,
                base.refs,
            ).included.len() == 0 && prepare(preparation, repository, store).0
                == PreparationView::Ready(specs, None),
            PreparationView::Built(specs, pack) => git::object_count(pack) == 0 && prepare(
                preparation,
                repository,
                store,
            ).0 == PreparationView::Ready(specs, None),
            PreparationView::Ready(_, _) => prepare(preparation, repository, store).0
                == preparation,
            _ => false,
        },
{
}

/// The entry that a push publishes for a pack matches the pack that was built
pub proof fn published_entry_matches_the_pack(pack: Seq<u8>, track: TrackNumber)
    ensures
        store::pack_entry(pack, track).describes(pack),
        store::pack_entry(pack, track).track == track.0,
{
    index::recorded_digest_matches(store::pack_entry(pack, track), pack);
}

/// What of two lots of objects is held is what of each is held, in their order
pub proof fn held_objects_add_up(repository: RepositoryView, ids: Words, others: Words)
    ensures
        held(repository, ids + others) == held(repository, ids) + held(repository, others),
    decreases others.len(),
{
    if others.len() == 0 {
        assert(ids + others =~= ids);
        assert(held(repository, ids) + held(repository, others) =~= held(repository, ids));
    } else {
        held_objects_add_up(repository, ids, others.drop_last());
        assert((ids + others).drop_last() =~= ids + others.drop_last());
        assert(held(repository, ids + others) =~= held(repository, ids) + held(
            repository,
            others,
        ));
    }
}

/// The current index is read first, and what git still has to say about the refspecs is asked
/// for before anything is packed
pub proof fn preparations_start_with_the_index(
    specs: Seq<SpecView>,
    base: IndexView,
    repository: RepositoryView,
    store: StoreView,
)
    ensures
        prepare(PreparationView::Reading(specs), repository, store) == (
            PreparationView::Reading(specs),
            ErrandView::ReadIndex,
        ),
        push::first_missing(repository, push::runs_for(repository, specs, base.refs)) matches Some(
            run,
        ) ==> prepare(PreparationView::Packing(specs, base), repository, store) == (
            PreparationView::Packing(specs, base),
            ErrandView::Run(run),
        ),
{
}

/// Once git has said what it has to, a pack is built exactly when a ref is to be written. It has
/// to reach what the refs are to point at, and may leave out what a ref of the index points at
/// and this repository holds, and nothing else
pub proof fn packs_reach_what_is_new(
    specs: Seq<SpecView>,
    base: IndexView,
    repository: RepositoryView,
    store: StoreView,
    id: Seq<char>,
)
    requires
        base.refs.dom().finite(),
        push::first_missing(repository, push::runs_for(repository, specs, base.refs)) is None,
        forall|name: Seq<char>| #[trigger]
            base.refs.contains_key(name) ==> repository.runs.contains_key(
                git::has_object_words(base.refs[name]),
            ),
    ensures
        ({
            let (next, errand) = prepare(PreparationView::Packing(specs, base), repository, store);
            let updates = push::decision_on(repository, specs, base.refs).updates;
            &&& updates.len() == 0 ==> next == PreparationView::Ready(specs, None) && errand
                == ErrandView::Publish
            &&& updates.len() > 0 ==> {
                &&& next == PreparationView::Packing(specs, base)
                &&& errand is Build
                &&& errand->Build_0.len() == updates.len()
                &&& forall|i: int|
                    0 <= i < updates.len() ==> #[trigger] errand->Build_0[i] == updates[i].1
                &&& errand->Build_1.contains(id) <==> repository.has_object(id) && exists|
                    name: Seq<char>,
                | #[trigger]
                    base.refs.contains_key(name) && base.refs[name] == id
            }
        }),
{
    let tips = index::tips_of(base.refs);
    let decision = push::decision_on(repository, specs, base.refs);
    push_laws::packed_tips_are_the_updates(repository, specs, base.refs);
    index::tips_are_what_refs_point_at(base.refs, seq![]);
    let runs = runs_for_held(tips);
    push_laws::first_missing_comes_first(repository, runs);
    assert forall|i: int| 0 <= i < runs.len() implies repository.runs.contains_key(
        #[trigger] runs[i],
    ) by {
        assert(tips[i] == tips[i]);
        let name = choose|name: Seq<char>| #[trigger]
            base.refs.contains_key(name) && base.refs[name] == tips[i];
        assert(base.refs.contains_key(name));
        assert(runs[i] == git::has_object_words(tips[i]));
    }
    excluded_objects_are_held(repository, tips, id);
    if tips.contains(id) {
        let i = choose|i: int| 0 <= i < tips.len() && tips[i] == id;
        assert(exists|name: Seq<char>| #[trigger]
            base.refs.contains_key(name) && base.refs[name] == tips[i]);
    }
    if exists|name: Seq<char>| #[trigger] base.refs.contains_key(name) && base.refs[name] == id {
        let name = choose|name: Seq<char>| #[trigger]
            base.refs.contains_key(name) && base.refs[name] == id;
        index::tips_are_what_refs_point_at(base.refs, name);
    }
}

/// A pack that was built is stored exactly when it carries an object, and the user is told how
/// many and how long it is
pub proof fn packs_with_objects_are_stored(
    specs: Seq<SpecView>,
    pack: Seq<u8>,
    repository: RepositoryView,
    store: StoreView,
)
    ensures
        ({
            let (next, errand) = prepare(PreparationView::Built(specs, pack), repository, store);
            let objects = git::object_count(pack);
            &&& objects == 0 ==> next == PreparationView::Ready(specs, None) && errand
                == ErrandView::Publish
            &&& objects != 0 ==> {
                &&& next == PreparationView::Built(specs, pack)
                &&& errand is Store
                &&& text_laws::mentions(errand->Store_0, text::decimal_text(objects as nat))
                &&& text_laws::mentions(errand->Store_0, text::decimal_text(pack.len()))
            }
        }),
{
    let objects = git::object_count(pack);
    if objects != 0 {
        let notice = write_notice(objects, pack.len() as int);
        let count = text::decimal_text(objects as nat);
        let size = text::decimal_text(pack.len());
        let middle = if objects == 1 {
            " object ("@
        } else {
            " objects ("@
        };
        text_laws::mentioned(notice, "tape: writing pack of "@, count, middle + size + " bytes)"@);
        text_laws::mentioned(
            notice,
            "tape: writing pack of "@ + count + middle,
            size,
            " bytes)"@,
        );
    }
}

/// A pack that was stored is noted under its own identity on this tape, and the user is told
/// where it is; then, as when there was nothing to store, the index is published
pub proof fn stored_packs_are_noted(
    specs: Seq<SpecView>,
    entry: PackEntryView,
    ready: Option<PackEntryView>,
    repository: RepositoryView,
    store: StoreView,
)
    ensures
        ({
            let (next, errand) = prepare(PreparationView::Stored(specs, entry), repository, store);
            &&& next == PreparationView::Stored(specs, entry)
            &&& errand is Note
            &&& errand->Note_1 == store.installed_key(entry.track)
            &&& text_laws::mentions(errand->Note_0, text::decimal_text(entry.track as nat))
        }),
        prepare(PreparationView::Ready(specs, ready), repository, store) == (
            PreparationView::Ready(specs, ready),
            ErrandView::Publish,
        ),
{
    let notice = prepare(PreparationView::Stored(specs, entry), repository, store).1->Note_0;
    text_laws::mentioned(
        notice,
        "tape: pack stored at track "@,
        text::decimal_text(entry.track as nat),
        seq![],
    );
}

/// A pack is only built once git has said of every object that a ref of the index points at
/// whether this repository holds it, and once it has said all that the decision rests on
pub proof fn packs_are_built_knowing_what_is_held(
    specs: Seq<SpecView>,
    base: IndexView,
    repository: RepositoryView,
    store: StoreView,
    name: Seq<char>,
)
    requires
        base.refs.dom().finite(),
        base.refs.contains_key(name),
        prepare(PreparationView::Packing(specs, base), repository, store).1 is Build,
    ensures
        repository.runs.contains_key(seq!["cat-file"@, "-e"@, base.refs[name] + "^{object}"@]),
        push::first_missing(repository, push::runs_for(repository, specs, base.refs)) is None,
{
    let tips = index::tips_of(base.refs);
    let runs = runs_for_held(tips);
    index::tips_are_what_refs_point_at(base.refs, name);
    push_laws::first_missing_comes_first(repository, runs);
    let i = choose|i: int| 0 <= i < tips.len() && tips[i] == base.refs[name];
    assert(repository.runs.contains_key(runs[i]));
    assert(runs[i] =~= seq!["cat-file"@, "-e"@, base.refs[name] + "^{object}"@]);
}

/// An errand is about what it holds: the arguments to run git with, the revisions to feed it, the
/// text to tell the user and the identity to note
pub proof fn errands_are_about_what_they_hold(errand: Errand, view: ErrandView)
    requires
        is_errand(errand, view),
    ensures
        match errand {
            Errand::ReadIndex => view == ErrandView::ReadIndex,
            Errand::Run(arguments) => view == ErrandView::Run(text::views(arguments@)),
            Errand::Build(process) => {
                &&& view is Build
                &&& process.arguments@.len() == 5
                &&& process.arguments@[0]@ == "pack-objects"@
                &&& process.arguments@[1]@ == "--stdout"@
                &&& process.arguments@[2]@ == "--revs"@
                &&& process.arguments@[3]@ == "--delta-base-offset"@
                &&& process.arguments@[4]@ == "--quiet"@
                &&& process.input@ == vstd::utf8::encode_utf8(
                    git::revision_lines(view->Build_0, view->Build_1),
                )
            },
            Errand::Store(notice) => view == ErrandView::Store(notice@),
            Errand::Note(notice, key) => view == ErrandView::Note(notice@, key@),
            Errand::Publish => view == ErrandView::Publish,
        },
{
    if let Errand::Build(process) = errand {
        let words = text::views(process.arguments@);
        assert(words.len() == 5);
        assert(words[0] == "pack-objects"@ && words[1] == "--stdout"@ && words[2] == "--revs"@);
        assert(words[3] == "--delta-base-offset"@ && words[4] == "--quiet"@);
    }
}

} // verus!
