//! What holds of every step of publishing an index

use vstd::prelude::*;

use crate::git;
use crate::git::RepositoryView;
use crate::index;
use crate::index::{IndexView, PackEntryView};
use crate::publish;
use crate::publish::{ActionView, PublishView};
use crate::push;
use crate::push::{DecisionView, SpecView, Verdict};
use crate::push_laws;
use crate::store;
use crate::text;
use crate::text_laws;
use crate::track;
use crate::track::TrackNumber;

verus! {

/// The index that a push writes keeps the HEAD of the version it merges with, as long as the ref
/// that HEAD names is still there: it was there and the push does not delete it, or the push
/// writes it
pub proof fn merging_keeps_head(
    repository: RepositoryView,
    base: IndexView,
    visible: IndexView,
    decision: DecisionView,
    pack: Option<PackEntryView>,
    base_version: Option<TrackNumber>,
    head: Seq<char>,
)
    requires
        base.head == Some(head),
    ensures
        ({
            let after = publish::merged(repository, base, visible, decision, pack, base_version);
            &&& after.refs.contains_key(head) ==> after.head == base.head
            &&& base.refs.contains_key(head) && !decision.deletions.contains(head) ==> after.head
                == Some(head)
            &&& (exists|i: int|
                0 <= i < decision.updates.len() && (#[trigger] decision.updates[i]).0 == head)
                ==> after.head == Some(head)
        }),
{
    push_laws::updated_at(
        push::without(base.refs, decision.deletions),
        decision.updates,
        head,
    );
}

/// The HEAD of the index that a push writes never dangles, and is unset only without a branch
pub proof fn merged_head_never_dangles(
    repository: RepositoryView,
    base: IndexView,
    visible: IndexView,
    decision: DecisionView,
    pack: Option<PackEntryView>,
    base_version: Option<TrackNumber>,
)
    requires
        base.refs.dom().finite(),
    ensures
        ({
            let after = publish::merged(repository, base, visible, decision, pack, base_version);
            match after.head {
                Some(head) => after.refs.contains_key(head),
                None => forall|name: Seq<char>| #[trigger]
                    after.refs.contains_key(name) ==> !"refs/heads/"@.is_prefix_of(name),
            }
        }),
{
    push_laws::head_recovers(repository, publish::joined(base, visible), decision, pack);
}

/// Merging looks at the packs of the visible version and at nothing else of it
pub proof fn merging_takes_only_packs_from_the_visible_index(
    repository: RepositoryView,
    base: IndexView,
    visible: IndexView,
    other: IndexView,
    decision: DecisionView,
    pack: Option<PackEntryView>,
    base_version: Option<TrackNumber>,
)
    ensures
        ({
            let after = publish::merged(repository, base, visible, decision, pack, base_version);
            let without = publish::merged(repository, base, other, decision, pack, base_version);
            &&& after.version == base.version
            &&& after.head == without.head
            &&& after.refs == without.refs
            &&& after.parent == without.parent
        }),
{
}

/// Every entry of the version that a push merges with is in the index that it writes, as it was,
/// and so is the entry of its own pack unless its track is taken
pub proof fn merging_keeps_entries(
    repository: RepositoryView,
    base: IndexView,
    visible: IndexView,
    decision: DecisionView,
    pack: Option<PackEntryView>,
    base_version: Option<TrackNumber>,
    entry: PackEntryView,
)
    ensures
        ({
            let after = publish::merged(repository, base, visible, decision, pack, base_version);
            &&& base.packs.contains(entry) ==> after.packs.contains(entry)
            &&& pack == Some(entry) && !index::lists(base.packs, entry.track) && !index::lists(
                visible.packs,
                entry.track,
            ) ==> after.packs.contains(entry) && after.packs.last() == entry
        }),
{
    let joined = publish::joined(base, visible).packs;
    let after = publish::merged(repository, base, visible, decision, pack, base_version).packs;
    index::absorbing_keeps_entries(base.packs, visible.packs, entry);
    if base.packs.contains(entry) {
        let i = choose|i: int| 0 <= i < joined.len() && joined[i] == entry;
        assert(after[i] == entry);
    }
    if pack == Some(entry) && !index::lists(base.packs, entry.track) && !index::lists(
        visible.packs,
        entry.track,
    ) {
        index::absorbed_packs_are_the_union(base.packs, visible.packs);
        assert(!index::lists(joined, entry.track));
        assert(after[joined.len() as int] == entry);
    }
}

/// A decision writes and deletes no ref that no refspec names
proof fn unnamed_refs_are_not_decided(
    repository: RepositoryView,
    specs: Seq<SpecView>,
    refs: Map<Seq<char>, Seq<char>>,
    name: Seq<char>,
)
    requires
        forall|k: int|
            0 <= k < specs.len() && (#[trigger] specs[k]).malformed is None
                ==> specs[k].destination != name,
    ensures
        ({
            let decision = push::decision_on(repository, specs, refs);
            &&& !decision.deletions.contains(name)
            &&& forall|i: int|
                0 <= i < decision.updates.len() ==> (#[trigger] decision.updates[i]).0 != name
        }),
{
    let decision = push::decision_on(repository, specs, refs);
    push_laws::deletions_are_the_delete_verdicts(repository, specs, refs, name);
    assert forall|i: int| 0 <= i < decision.updates.len() implies (
    #[trigger] decision.updates[i]).0 != name by {
        let update = decision.updates[i];
        assert(decision.updates.contains((update.0, update.1)));
        push_laws::updates_are_the_update_verdicts(
            repository,
            specs,
            refs,
            update.0,
            update.1,
        );
    }
}

/// The refs of the version that a push merges with, none when there is no such version
pub open spec fn refs_before(publish: PublishView) -> Map<Seq<char>, Seq<char>> {
    match publish.bounds {
        Some(bounds) => match (bounds.base, publish.base_index) {
            (Some(_), Some(index)) => index.refs,
            _ => Map::empty(),
        },
        None => Map::empty(),
    }
}

/// Whether some packs have a track
pub open spec fn has_track(packs: Seq<PackEntryView>, track: u64) -> bool {
    exists|i: int| 0 <= i < packs.len() && (#[trigger] packs[i]).track == track
}

/// An index is only written once both the version to merge with and the newest one are read, and
/// then it records the former as its parent, keeps its HEAD where that is still there and every
/// ref that no refspec names, and lists the packs of both and the push's own, and no others
pub proof fn written_indexes_carry_everything(
    publish: PublishView,
    repository: RepositoryView,
    track: u64,
    name: Seq<char>,
)
    requires
        publish::step(publish, repository).1 is Write,
    ensures
        ({
            let index = publish::step(publish, repository).1->Write_0;
            let bounds = publish.bounds->0;
            &&& publish.bounds is Some
            &&& publish.written is None
            &&& publish.ours.len() > 0 ==> bounds.reaches_ours
            &&& match bounds.base {
                Some(base) => {
                    &&& publish.base_index is Some
                    &&& index.parent == Some(base.0)
                    &&& index.version == publish.base_index->0.version
                    &&& publish.base_index->0.head matches Some(head) ==> (
                    index.refs.contains_key(head) ==> index.head == Some(head))
                },
                None => index.parent is None && index.version == 1,
            }
            &&& bounds.head is Some && bounds.head != bounds.base ==> publish.head_index is Some
            &&& has_track(index.packs, track) <==> {
                ||| bounds.base is Some && has_track(publish.base_index->0.packs, track)
                ||| bounds.head is Some && bounds.head != bounds.base && has_track(
                    publish.head_index->0.packs,
                    track,
                )
                ||| publish.pack is Some && publish.pack->0.track == track
            }
            &&& (forall|k: int|
                0 <= k < publish.specs.len() && (#[trigger] publish.specs[k]).malformed is None
                    ==> publish.specs[k].destination != name) ==> {
                &&& index.refs.contains_key(name) <==> refs_before(publish).contains_key(name)
                &&& index.refs.contains_key(name) ==> index.refs[name]
                    == refs_before(publish)[name]
            }
        }),
{
    let bounds = publish.bounds->0;
    let decision = publish.decision(repository);
    publish::merging_keeps_every_pack(
        repository,
        publish.base(),
        publish.visible(),
        decision,
        publish.pack,
        bounds.base,
        track,
    );
    if forall|k: int|
        0 <= k < publish.specs.len() && (#[trigger] publish.specs[k]).malformed is None
            ==> publish.specs[k].destination != name {
        unnamed_refs_are_not_decided(repository, publish.specs, publish.base().refs, name);
        push_laws::other_refs_stay(publish.base().refs, decision, name);
    }
}

/// What a push asked for is in the index that it writes: a ref to write points at its object,
/// and a ref to delete is gone, as long as the refspecs have different destinations
pub proof fn written_indexes_do_as_asked(
    publish: PublishView,
    repository: RepositoryView,
    k: int,
)
    requires
        publish::step(publish, repository).1 is Write,
        push_laws::destinations_differ(publish.specs),
        0 <= k < publish.specs.len(),
    ensures
        ({
            let index = publish::step(publish, repository).1->Write_0;
            let spec = publish.specs[k];
            match push::verdict(repository, spec, refs_before(publish)) {
                Verdict::Update(object_id) => index.refs.contains_key(spec.destination)
                    && index.refs[spec.destination] == object_id,
                Verdict::Delete => !index.refs.contains_key(spec.destination),
                _ => true,
            }
        }),
{
    let refs = publish.base().refs;
    assert(refs =~= refs_before(publish));
    let decision = publish.decision(repository);
    let spec = publish.specs[k];
    push_laws::distinct_refspecs_are_consistent(repository, publish.specs, refs);
    push_laws::applying_satisfies(
        repository,
        publish::joined(publish.base(), publish.visible()),
        decision,
        publish.pack,
    );
    match push::verdict(repository, spec, refs) {
        Verdict::Update(object_id) => {
            push_laws::updates_are_the_update_verdicts(
                repository,
                publish.specs,
                refs,
                spec.destination,
                object_id,
            );
            let i = choose|i: int|
                0 <= i < decision.updates.len() && decision.updates[i] == (
                    spec.destination,
                    object_id,
                );
            assert(decision.updates[i].0 == spec.destination);
        },
        Verdict::Delete => {
            push_laws::deletions_are_the_delete_verdicts(
                repository,
                publish.specs,
                refs,
                spec.destination,
            );
            let i = choose|i: int|
                0 <= i < decision.deletions.len() && decision.deletions[i] == spec.destination;
            assert(!publish.merged(repository).refs.contains_key(decision.deletions[i]));
        },
        _ => {},
    }
}

/// A push starts by listing the versions, from a listing that reaches the newest version this
/// process wrote if it wrote any, and confirms what it wrote against one that reaches that
pub proof fn listings_reach_what_was_written(publish: PublishView, repository: RepositoryView)
    ensures
        ({
            let action = publish::step(publish, repository).1;
            &&& publish.bounds is None && publish.ours.len() == 0 ==> action
                == ActionView::List(None)
            &&& publish.bounds is None && publish.ours.len() > 0 ==> action == ActionView::List(
                Some(publish.ours[publish.ours.len() - 1]),
            )
            &&& publish.bounds is Some && publish.after is None ==> (publish.written matches Some(
                written,
            ) ==> action == ActionView::Confirm(written))
            &&& action is List ==> publish.bounds is None
            &&& action matches ActionView::Confirm(track) ==> publish.written == Some(track)
                && publish.after is None
        }),
{
}

/// What a listing shows is read before anything is decided: the version to merge with first,
/// then, once git has said all that the decision rests on, the newest one where it is another
pub proof fn versions_are_read_when_needed(publish: PublishView, repository: RepositoryView)
    requires
        publish.bounds is Some,
        publish.written is None,
        publish.ours.len() > 0 ==> publish.bounds->0.reaches_ours,
    ensures
        ({
            let action = publish::step(publish, repository).1;
            let bounds = publish.bounds->0;
            let runs = push::runs_for(repository, publish.specs, refs_before(publish));
            let base_is_read = bounds.base is Some ==> publish.base_index is Some;
            let head_is_read = bounds.head is Some && bounds.head != bounds.base
                ==> publish.head_index is Some;
            &&& !base_is_read <==> action is ReadBase
            &&& action is ReadBase ==> bounds.base == Some(action->ReadBase_0)
            &&& base_is_read ==> (push::first_missing(repository, runs) matches Some(run)
                ==> action == ActionView::Run(run))
            &&& base_is_read && push::first_missing(repository, runs) is None && !head_is_read
                <==> action is ReadHead
            &&& action is ReadHead ==> bounds.head == Some(action->ReadHead_0)
        }),
{
    if publish.bounds->0.base is Some ==> publish.base_index is Some {
        assert(publish.base().refs =~= refs_before(publish));
    }
}

/// Once everything is read, a push is done exactly when the newest version has its pack, every
/// ref that it writes and none that it deletes; otherwise it asks git for its HEAD where it has
/// to pick one, and writes
pub proof fn pushes_write_until_they_show(publish: PublishView, repository: RepositoryView)
    requires
        publish.bounds is Some,
        publish.written is None,
        publish.ours.len() > 0 ==> publish.bounds->0.reaches_ours,
        publish.bounds->0.base is Some ==> publish.base_index is Some,
        publish.bounds->0.head is Some && publish.bounds->0.head != publish.bounds->0.base
            ==> publish.head_index is Some,
        push::first_missing(
            repository,
            push::runs_for(repository, publish.specs, refs_before(publish)),
        ) is None,
    ensures
        ({
            let (next, action) = publish::step(publish, repository);
            let bounds = publish.bounds->0;
            let decision = push::decision_on(repository, publish.specs, refs_before(publish));
            let newest = if bounds.head is None {
                (Seq::<PackEntryView>::empty(), Map::<Seq<char>, Seq<char>>::empty())
            } else if bounds.head == bounds.base {
                (publish.base_index->0.packs, publish.base_index->0.refs)
            } else {
                (publish.head_index->0.packs, publish.head_index->0.refs)
            };
            let shows = {
                &&& publish.pack is Some ==> has_track(newest.0, publish.pack->0.track)
                &&& forall|i: int|
                    0 <= i < decision.updates.len() ==> newest.1.contains_key(
                        (#[trigger] decision.updates[i]).0,
                    ) && newest.1[decision.updates[i].0] == decision.updates[i].1
                &&& forall|i: int|
                    0 <= i < decision.deletions.len() ==> !newest.1.contains_key(
                        #[trigger] decision.deletions[i],
                    )
            };
            &&& shows <==> action is Finish
            &&& shows ==> action == ActionView::Finish(decision.results)
            &&& !shows ==> action is Write || action == ActionView::Run(
                seq!["symbolic-ref"@, "HEAD"@],
            )
            &&& !shows && repository.runs.contains_key(seq!["symbolic-ref"@, "HEAD"@])
                ==> action is Write
            &&& next.results == decision.results
        }),
{
    assert(publish.base().refs =~= refs_before(publish));
    reveal_with_fuel(push::first_missing, 2);
    assert(git::head_words() =~= seq!["symbolic-ref"@, "HEAD"@]);
}

/// A step changes nothing that is known but the lines for git, unless it starts the next
/// attempt, which remembers what was asked for, the pack and what was written, and reads
/// everything anew
pub proof fn steps_forget_nothing(publish: PublishView, repository: RepositoryView)
    requires
        publish.is_valid(),
    ensures
        ({
            let (next, action) = publish::step(publish, repository);
            &&& next.specs == publish.specs
            &&& next.pack == publish.pack
            &&& next.ours == publish.ours
            &&& action is Retry ==> {
                &&& next.attempt == publish.attempt + 1
                &&& next.results == publish.results
                &&& next.bounds is None
                &&& next.base_index is None
                &&& next.head_index is None
                &&& next.written is None
                &&& next.after is None
            }
            &&& !(action is Retry) ==> {
                &&& next.attempt == publish.attempt
                &&& next.bounds == publish.bounds
                &&& next.base_index == publish.base_index
                &&& next.head_index == publish.head_index
                &&& next.written == publish.written
                &&& next.after == publish.after
            }
        }),
{
}

/// A write is confirmed by the listing alone: it is done when the listing holds it and, besides
/// it, nothing newer than the version it merged with; anything else is merged again, four times
/// at most, and a write that the listing lacks stops the push
pub proof fn writes_are_confirmed(publish: PublishView, repository: RepositoryView)
    requires
        publish.bounds is Some,
        publish.written is Some,
        publish.after is Some,
        track::in_order(publish.after->0),
    ensures
        ({
            let action = publish::step(publish, repository).1;
            let base = publish.bounds->0.base;
            let ours = publish.written->0;
            let after = publish.after->0;
            let alone = {
                &&& base is Some ==> after.contains(base->0) && (base->0).0 < ours.0
                &&& forall|v: TrackNumber| #[trigger]
                    after.contains(v) ==> v == ours || (base is Some && v.0 <= (base->0).0)
            };
            &&& after.contains(ours) && alone ==> action == ActionView::Finish(publish.results)
            &&& after.contains(ours) && !alone && publish.attempt < 5 ==> action is Retry
            &&& after.contains(ours) && !alone && publish.attempt >= 5 ==> action is Fail
            &&& !after.contains(ours) ==> action is Fail && text_laws::mentions(
                action->Fail_0,
                text::decimal_text(ours.0 as nat),
            )
        }),
{
    push::clean_landing_has_no_rival(
        publish.bounds->0.base,
        publish.written->0,
        publish.after->0,
    );
    store::unlisted_tracks_are_named(publish.written->0, publish.written->0);
}

/// A listing is read for its newest version, for the newest that this process did not write, and
/// for whether it holds what this process wrote last
pub proof fn bounds_are_the_newest(versions: Seq<TrackNumber>, ours: Seq<TrackNumber>)
    requires
        track::in_order(versions),
    ensures
        ({
            let bounds = publish::bounds_of(versions, ours);
            &&& match bounds.head {
                Some(head) => versions.contains(head) && forall|v: TrackNumber| #[trigger]
                    versions.contains(v) ==> v.0 <= head.0,
                None => versions.len() == 0,
            }
            &&& match bounds.base {
                Some(base) => versions.contains(base) && !ours.contains(base) && forall|
                    v: TrackNumber,
                |
                    #![trigger versions.contains(v)]
                    versions.contains(v) && !ours.contains(v) ==> v.0 <= base.0,
                None => forall|v: TrackNumber| #[trigger]
                    versions.contains(v) ==> ours.contains(v),
            }
            &&& ours.len() > 0 ==> (bounds.reaches_ours <==> versions.contains(
                ours[ours.len() - 1],
            ))
        }),
{
    push::base_is_newest_of_others(versions, ours);
    if versions.len() > 0 {
        let end = versions.len() - 1;
        assert(versions.contains(versions[end]));
        assert forall|v: TrackNumber| #[trigger] versions.contains(v) implies v.0
            <= versions[end].0 by {
            let i = choose|i: int| 0 <= i < versions.len() && versions[i] == v;
            if i < end {
                assert(versions[i].0 <= versions[end].0);
            }
        }
    }
}

/// Merging is folding the decision into the version that it was taken against: whatever is
/// visible, refs, HEAD and version come out as they would from that version alone
pub proof fn merging_folds_in_the_decision(
    repository: RepositoryView,
    base: IndexView,
    visible: IndexView,
    decision: DecisionView,
    pack: Option<PackEntryView>,
    base_version: Option<TrackNumber>,
)
    ensures
        ({
            let after = publish::merged(repository, base, visible, decision, pack, base_version);
            let alone = push::applied(repository, base, decision, pack);
            &&& after.refs == alone.refs
            &&& after.head == alone.head
            &&& after.version == alone.version
        }),
{
}

/// The index that a push writes has the refs and the HEAD of the version it merges with, or of
/// an empty index where there is none, with the decision on that version folded in
pub proof fn written_indexes_fold_in_the_decision(
    publish: PublishView,
    repository: RepositoryView,
)
    requires
        publish::step(publish, repository).1 is Write,
    ensures
        ({
            let index = publish::step(publish, repository).1->Write_0;
            let base = if publish.bounds->0.base is Some {
                publish.base_index->0
            } else {
                index::empty_index()
            };
            let decision = push::decision_on(repository, publish.specs, base.refs);
            let alone = push::applied(repository, base, decision, publish.pack);
            &&& index.refs == alone.refs
            &&& index.head == alone.head
            &&& index.version == alone.version
            &&& publish::step(publish, repository).0.results == decision.results
        }),
{
}

/// Git is not asked for its HEAD where the remote has one that stays: a push with something left
/// to show then writes at once
pub proof fn established_heads_need_no_run(
    publish: PublishView,
    repository: RepositoryView,
    head: Seq<char>,
)
    requires
        publish.bounds is Some,
        publish.bounds->0.base is Some,
        publish.base_index is Some,
        publish.base_index->0.head == Some(head),
        publish.base_index->0.refs.contains_key(head),
        forall|k: int|
            0 <= k < publish.specs.len() && (#[trigger] publish.specs[k]).malformed is None
                ==> publish.specs[k].destination != head || publish.specs[k].source.len() > 0,
        push::first_missing(
            repository,
            push::runs_for(repository, publish.specs, publish.base_index->0.refs),
        ) is None,
    ensures
        !(publish::step(publish, repository).1 is Run),
{
    let refs = publish.base().refs;
    let decision = publish.decision(repository);
    push_laws::deletions_are_the_delete_verdicts(repository, publish.specs, refs, head);
    if decision.deletions.contains(head) {
        let k = choose|k: int|
            0 <= k < publish.specs.len() && (#[trigger] publish.specs[k]).destination == head
                && push::verdict(repository, publish.specs[k], refs) is Delete;
        assert(publish.specs[k].malformed is None);
    }
    push_laws::updated_at(push::without(refs, decision.deletions), decision.updates, head);
    assert(push::applied_refs(refs, decision).contains_key(head));
}

} // verus!
