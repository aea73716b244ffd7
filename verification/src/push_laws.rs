//! What holds of every push, whoever else is pushing

use vstd::prelude::*;

use crate::git;
use crate::git::RepositoryView;
use crate::index;
use crate::index::{IndexView, PackEntryView};
use crate::push;
use crate::push::{DecisionView, SpecView, Verdict};
use crate::refs;
use crate::text;
use crate::text_laws;
use crate::track::TrackNumber;

verus! {

/// Git is told about every refspec, one line each, in order
pub proof fn one_result_per_refspec(
    repository: RepositoryView,
    specs: Seq<SpecView>,
    refs: Map<Seq<char>, Seq<char>>,
)
    ensures
        push::decision_on(repository, specs, refs).results == specs.map_values(
            |spec: SpecView| push::result_line(spec, push::verdict(repository, spec, refs)),
        ),
    decreases specs.len(),
{
    let lines = specs.map_values(
        |spec: SpecView| push::result_line(spec, push::verdict(repository, spec, refs)),
    );
    if specs.len() > 0 {
        one_result_per_refspec(repository, specs.drop_last(), refs);
        let before = specs.drop_last().map_values(
            |spec: SpecView| push::result_line(spec, push::verdict(repository, spec, refs)),
        );
        assert(lines =~= before.push(lines.last()));
    }
    assert(push::decision_on(repository, specs, refs).results =~= lines);
}

/// The new tips to pack are those of the refs to write
pub proof fn packed_tips_are_the_updates(
    repository: RepositoryView,
    specs: Seq<SpecView>,
    refs: Map<Seq<char>, Seq<char>>,
)
    ensures
        push::decision_on(repository, specs, refs).included == push::decision_on(
            repository,
            specs,
            refs,
        ).updates.map_values(|update: refs::Pair| update.1),
    decreases specs.len(),
{
    let decision = push::decision_on(repository, specs, refs);
    if specs.len() > 0 {
        packed_tips_are_the_updates(repository, specs.drop_last(), refs);
    }
    assert(decision.included =~= decision.updates.map_values(|update: refs::Pair| update.1));
}

/// A ref is written exactly when the verdict on some refspec says so
pub proof fn updates_are_the_update_verdicts(
    repository: RepositoryView,
    specs: Seq<SpecView>,
    refs: Map<Seq<char>, Seq<char>>,
    name: Seq<char>,
    object_id: Seq<char>,
)
    ensures
        push::decision_on(repository, specs, refs).updates.contains((name, object_id)) <==> exists|
            k: int,
        |
            0 <= k < specs.len() && (#[trigger] specs[k]).destination == name && push::verdict(
                repository,
                specs[k],
                refs,
            ) == Verdict::Update(object_id),
    decreases specs.len(),
{
    let updates = push::decision_on(repository, specs, refs).updates;
    if specs.len() > 0 {
        let init = specs.drop_last();
        let before = push::decision_on(repository, init, refs).updates;
        let last = push::verdict(repository, specs.last(), refs);
        updates_are_the_update_verdicts(repository, init, refs, name, object_id);
        assert(specs[specs.len() - 1] == specs.last());
        if updates.contains((name, object_id)) {
            let i = choose|i: int| 0 <= i < updates.len() && updates[i] == (name, object_id);
            if i < before.len() {
                assert(before[i] == (name, object_id));
                let k = choose|k: int|
                    0 <= k < init.len() && (#[trigger] init[k]).destination == name
                        && push::verdict(repository, init[k], refs) == Verdict::Update(object_id);
                assert(specs[k] == init[k]);
            }
        }
        if exists|k: int|
            0 <= k < specs.len() && (#[trigger] specs[k]).destination == name && push::verdict(
                repository,
                specs[k],
                refs,
            ) == Verdict::Update(object_id) {
            let k = choose|k: int|
                0 <= k < specs.len() && (#[trigger] specs[k]).destination == name && push::verdict(
                    repository,
                    specs[k],
                    refs,
                ) == Verdict::Update(object_id);
            if k < init.len() {
                assert(init[k] == specs[k]);
                let i = choose|i: int| 0 <= i < before.len() && before[i] == (name, object_id);
                assert(updates[i] == (name, object_id));
            } else {
                assert(updates.last() == (name, object_id));
                assert(updates[updates.len() - 1] == (name, object_id));
            }
        }
    }
}

/// A ref is dropped exactly when the verdict on some refspec says so
pub proof fn deletions_are_the_delete_verdicts(
    repository: RepositoryView,
    specs: Seq<SpecView>,
    refs: Map<Seq<char>, Seq<char>>,
    name: Seq<char>,
)
    ensures
        push::decision_on(repository, specs, refs).deletions.contains(name) <==> exists|k: int|
            0 <= k < specs.len() && (#[trigger] specs[k]).destination == name && push::verdict(
                repository,
                specs[k],
                refs,
            ) is Delete,
    decreases specs.len(),
{
    let deletions = push::decision_on(repository, specs, refs).deletions;
    if specs.len() > 0 {
        let init = specs.drop_last();
        let before = push::decision_on(repository, init, refs).deletions;
        let last = push::verdict(repository, specs.last(), refs);
        deletions_are_the_delete_verdicts(repository, init, refs, name);
        assert(specs[specs.len() - 1] == specs.last());
        if deletions.contains(name) {
            let i = choose|i: int| 0 <= i < deletions.len() && deletions[i] == name;
            if i < before.len() {
                assert(before[i] == name);
                let k = choose|k: int|
                    0 <= k < init.len() && (#[trigger] init[k]).destination == name
                        && push::verdict(repository, init[k], refs) is Delete;
                assert(specs[k] == init[k]);
            }
        }
        if exists|k: int|
            0 <= k < specs.len() && (#[trigger] specs[k]).destination == name && push::verdict(
                repository,
                specs[k],
                refs,
            ) is Delete {
            let k = choose|k: int|
                0 <= k < specs.len() && (#[trigger] specs[k]).destination == name && push::verdict(
                    repository,
                    specs[k],
                    refs,
                ) is Delete;
            if k < init.len() {
                assert(init[k] == specs[k]);
                let i = choose|i: int| 0 <= i < before.len() && before[i] == name;
                assert(deletions[i] == name);
            } else {
                assert(deletions[deletions.len() - 1] == name);
            }
        }
    }
}

/// Unless forced, a ref that exists is only ever moved forward; forced or not, it is never
/// moved to a commit it already contains
pub proof fn updates_move_forward(
    repository: RepositoryView,
    spec: SpecView,
    refs: Map<Seq<char>, Seq<char>>,
)
    requires
        push::verdict(repository, spec, refs) is Update,
        refs.contains_key(spec.destination),
    ensures
        ({
            let old_id = refs[spec.destination];
            let new_id = push::verdict(repository, spec, refs)->Update_0;
            &&& new_id != old_id
            &&& !(repository.has_object(old_id) && repository.is_ancestor(new_id, old_id))
            &&& !spec.is_forced ==> repository.has_object(old_id) && repository.is_ancestor(
                old_id,
                new_id,
            )
        }),
{
}

/// What the updates of a name leave it at: where it was without any, and else where one of them
/// says
pub proof fn updated_at(
    refs: Map<Seq<char>, Seq<char>>,
    updates: Seq<refs::Pair>,
    name: Seq<char>,
)
    ensures
        (forall|i: int| 0 <= i < updates.len() ==> (#[trigger] updates[i]).0 != name) ==> {
            &&& push::updated(refs, updates).contains_key(name) == refs.contains_key(name)
            &&& refs.contains_key(name) ==> push::updated(refs, updates)[name] == refs[name]
        },
        (exists|i: int| 0 <= i < updates.len() && (#[trigger] updates[i]).0 == name) ==> {
            &&& push::updated(refs, updates).contains_key(name)
            &&& updates.contains((name, push::updated(refs, updates)[name]))
        },
    decreases updates.len(),
{
    if updates.len() > 0 {
        let init = updates.drop_last();
        let last = updates.last();
        updated_at(refs, init, name);
        assert(updates[updates.len() - 1] == last);
        if last.0 == name {
            assert(updates[updates.len() - 1] == (name, push::updated(refs, updates)[name]));
        } else {
            if exists|i: int| 0 <= i < updates.len() && (#[trigger] updates[i]).0 == name {
                let i = choose|i: int| 0 <= i < updates.len() && (#[trigger] updates[i]).0 == name;
                assert(init[i].0 == name);
                let pair = (name, push::updated(refs, init)[name]);
                let k = choose|k: int| 0 <= k < init.len() && init[k] == pair;
                assert(updates[k] == pair);
            } else {
                assert forall|i: int| 0 <= i < init.len() implies (#[trigger] init[i]).0
                    != name by {
                    assert(updates[i].0 != name);
                }
            }
        }
    }
}

/// Refs that a push does not name stay where they are, so a merge never loses the refs of
/// whoever pushed before
pub proof fn other_refs_stay(
    refs: Map<Seq<char>, Seq<char>>,
    decision: DecisionView,
    name: Seq<char>,
)
    requires
        !decision.deletions.contains(name),
        forall|i: int|
            0 <= i < decision.updates.len() ==> (#[trigger] decision.updates[i]).0 != name,
    ensures
        push::applied_refs(refs, decision).contains_key(name) == refs.contains_key(name),
        refs.contains_key(name) ==> push::applied_refs(refs, decision)[name] == refs[name],
{
    updated_at(push::without(refs, decision.deletions), decision.updates, name);
}

/// Whether a decision names no ref twice to different ends
pub open spec fn is_consistent(decision: DecisionView) -> bool {
    &&& forall|i: int, j: int|
        0 <= i < decision.updates.len() && 0 <= j < decision.updates.len() && (
        #[trigger] decision.updates[i]).0 == (#[trigger] decision.updates[j]).0
            ==> decision.updates[i].1 == decision.updates[j].1
    &&& forall|i: int|
        0 <= i < decision.updates.len() ==> !decision.deletions.contains(
            (#[trigger] decision.updates[i]).0,
        )
}

/// Once a decision is folded in, the index reflects everything it wanted
pub proof fn applying_satisfies(
    repository: RepositoryView,
    index: IndexView,
    decision: DecisionView,
    pack: Option<PackEntryView>,
)
    requires
        is_consistent(decision),
    ensures
        push::satisfied(push::applied(repository, index, decision, pack), decision, pack),
{
    let after = push::applied(repository, index, decision, pack);
    let kept = push::without(index.refs, decision.deletions);
    if pack is Some {
        if !index::lists(index.packs, pack->0.track) {
            assert(after.packs[index.packs.len() as int].track == pack->0.track);
        }
    }
    assert forall|i: int| 0 <= i < decision.updates.len() implies after.refs.contains_key(
        (#[trigger] decision.updates[i]).0,
    ) && after.refs[decision.updates[i].0] == decision.updates[i].1 by {
        let name = decision.updates[i].0;
        updated_at(kept, decision.updates, name);
        let pair = (name, after.refs[name]);
        assert(decision.updates.contains(pair));
        let k = choose|k: int| 0 <= k < decision.updates.len() && decision.updates[k] == pair;
        assert(decision.updates[k].0 == decision.updates[i].0);
    }
    assert forall|i: int| 0 <= i < decision.deletions.len() implies !after.refs.contains_key(
        #[trigger] decision.deletions[i],
    ) by {
        let name = decision.deletions[i];
        assert(decision.deletions.contains(name));
        assert forall|k: int| 0 <= k < decision.updates.len() implies (
        #[trigger] decision.updates[k]).0 != name by {}
        updated_at(kept, decision.updates, name);
    }
}

/// An established HEAD is never moved by a push that leaves its branch in place
pub proof fn head_is_sticky(
    repository: RepositoryView,
    index: IndexView,
    decision: DecisionView,
    pack: Option<PackEntryView>,
)
    requires
        push::is_live(index.head, push::applied_refs(index.refs, decision)),
    ensures
        push::applied(repository, index, decision, pack).head == index.head,
{
}

/// A first branch is a ref of the listing that is a branch
proof fn first_branch_is_a_branch(pairs: Seq<refs::Pair>)
    ensures
        match push::first_branch(pairs) {
            Some(name) => "refs/heads/"@.is_prefix_of(name) && exists|i: int|
                0 <= i < pairs.len() && (#[trigger] pairs[i]).0 == name,
            None => forall|i: int|
                0 <= i < pairs.len() ==> !"refs/heads/"@.is_prefix_of((#[trigger] pairs[i]).0),
        },
    decreases pairs.len(),
{
    if pairs.len() > 0 && !"refs/heads/"@.is_prefix_of(pairs[0].0) {
        let rest = pairs.drop_first();
        first_branch_is_a_branch(rest);
        match push::first_branch(rest) {
            Some(name) => {
                let i = choose|i: int| 0 <= i < rest.len() && (#[trigger] rest[i]).0 == name;
                assert(pairs[i + 1].0 == name);
            },
            None => {
                assert forall|i: int| 0 <= i < pairs.len() implies !"refs/heads/"@.is_prefix_of(
                    (#[trigger] pairs[i]).0,
                ) by {
                    if i > 0 {
                        assert(pairs[i] == rest[i - 1]);
                    }
                }
            },
        }
    } else if pairs.len() > 0 {
        assert(pairs[0].0 == pairs[0].0);
    }
}

proof fn updated_refs_are_finite(refs: Map<Seq<char>, Seq<char>>, updates: Seq<refs::Pair>)
    requires
        refs.dom().finite(),
    ensures
        push::updated(refs, updates).dom().finite(),
    decreases updates.len(),
{
    if updates.len() > 0 {
        updated_refs_are_finite(refs, updates.drop_last());
    }
}

/// Folding in a decision leaves finitely many refs
proof fn applied_refs_are_finite(refs: Map<Seq<char>, Seq<char>>, decision: DecisionView)
    requires
        refs.dom().finite(),
    ensures
        push::applied_refs(refs, decision).dom().finite(),
{
    let kept = push::without(refs, decision.deletions);
    assert(kept.dom() =~= refs.dom().filter(|name: Seq<char>| !decision.deletions.contains(name)));
    updated_refs_are_finite(kept, decision.updates);
}

/// After a push HEAD never dangles: it points at a ref that exists, and is unset only when
/// there is no branch to point it at
pub proof fn head_recovers(
    repository: RepositoryView,
    index: IndexView,
    decision: DecisionView,
    pack: Option<PackEntryView>,
)
    requires
        index.refs.dom().finite(),
    ensures
        ({
            let after = push::applied(repository, index, decision, pack);
            match after.head {
                Some(head) => after.refs.contains_key(head),
                None => forall|name: Seq<char>| #[trigger]
                    after.refs.contains_key(name) ==> !"refs/heads/"@.is_prefix_of(name),
            }
        }),
{
    let after = push::applied(repository, index, decision, pack);
    let pairs = refs::listing(after.refs);
    applied_refs_are_finite(index.refs, decision);
    refs::listing_exists(after.refs);
    first_branch_is_a_branch(pairs);
    if after.head is None {
        assert forall|name: Seq<char>| #[trigger]
            after.refs.contains_key(name) implies !"refs/heads/"@.is_prefix_of(name) by {
            let i = choose|i: int| 0 <= i < pairs.len() && (#[trigger] pairs[i]).0 == name;
            assert(!"refs/heads/"@.is_prefix_of(pairs[i].0));
        }
    }
}

/// Folding in a decision drops no pack
pub proof fn applying_keeps_packs(
    repository: RepositoryView,
    index: IndexView,
    decision: DecisionView,
    pack: Option<PackEntryView>,
    track: u64,
)
    requires
        index::lists(index.packs, track),
    ensures
        index::lists(push::applied(repository, index, decision, pack).packs, track),
        index.packs.is_prefix_of(push::applied(repository, index, decision, pack).packs),
{
    let after = push::applied(repository, index, decision, pack).packs;
    let i = choose|i: int| 0 <= i < index.packs.len() && #[trigger] index.packs[i].track == track;
    assert(after[i].track == track);
}

/// Whether no two refspecs have the same destination
pub open spec fn destinations_differ(specs: Seq<SpecView>) -> bool {
    forall|i: int, j: int|
        0 <= i < j < specs.len() && (#[trigger] specs[i]).malformed is None && (
        #[trigger] specs[j]).malformed is None ==> specs[i].destination != specs[j].destination
}

/// Refspecs with different destinations never pull a ref two ways
pub proof fn distinct_refspecs_are_consistent(
    repository: RepositoryView,
    specs: Seq<SpecView>,
    refs: Map<Seq<char>, Seq<char>>,
)
    requires
        destinations_differ(specs),
    ensures
        is_consistent(push::decision_on(repository, specs, refs)),
{
    let decision = push::decision_on(repository, specs, refs);
    let updates = decision.updates;
    assert forall|i: int, j: int|
        0 <= i < updates.len() && 0 <= j < updates.len() && (#[trigger] updates[i]).0 == (
        #[trigger] updates[j]).0 implies updates[i].1 == updates[j].1 by {
        assert(updates.contains(updates[i]) && updates.contains(updates[j]));
        assert(updates[i] == (updates[i].0, updates[i].1));
        assert(updates[j] == (updates[j].0, updates[j].1));
        updates_are_the_update_verdicts(repository, specs, refs, updates[i].0, updates[i].1);
        updates_are_the_update_verdicts(repository, specs, refs, updates[j].0, updates[j].1);
        let p = choose|k: int|
            0 <= k < specs.len() && (#[trigger] specs[k]).destination == updates[i].0
                && push::verdict(repository, specs[k], refs) == Verdict::Update(updates[i].1);
        let q = choose|k: int|
            0 <= k < specs.len() && (#[trigger] specs[k]).destination == updates[j].0
                && push::verdict(repository, specs[k], refs) == Verdict::Update(updates[j].1);
        if p < q {
            assert(specs[p].destination != specs[q].destination);
        } else if q < p {
            assert(specs[q].destination != specs[p].destination);
        }
    }
    assert forall|i: int| 0 <= i < updates.len() implies !decision.deletions.contains(
        (#[trigger] updates[i]).0,
    ) by {
        let name = updates[i].0;
        assert(updates.contains(updates[i]));
        assert(updates[i] == (name, updates[i].1));
        updates_are_the_update_verdicts(repository, specs, refs, name, updates[i].1);
        deletions_are_the_delete_verdicts(repository, specs, refs, name);
        let p = choose|k: int|
            0 <= k < specs.len() && (#[trigger] specs[k]).destination == name && push::verdict(
                repository,
                specs[k],
                refs,
            ) == Verdict::Update(updates[i].1);
        if decision.deletions.contains(name) {
            let q = choose|k: int|
                0 <= k < specs.len() && (#[trigger] specs[k]).destination == name && push::verdict(
                    repository,
                    specs[k],
                    refs,
                ) is Delete;
            if p < q {
                assert(specs[p].destination != specs[q].destination);
            } else if q < p {
                assert(specs[q].destination != specs[p].destination);
            }
        }
    }
}

/// What becomes of a refspec the second time round
proof fn verdict_again(
    repository: RepositoryView,
    specs: Seq<SpecView>,
    refs: Map<Seq<char>, Seq<char>>,
    k: int,
)
    requires
        destinations_differ(specs),
        0 <= k < specs.len(),
    ensures
        ({
            let first = push::verdict(repository, specs[k], refs);
            let again = push::verdict(
                repository,
                specs[k],
                push::applied_refs(refs, push::decision_on(repository, specs, refs)),
            );
            again == if first is Update {
                Verdict::Present
            } else {
                first
            }
        }),
{
    let spec = specs[k];
    let decision = push::decision_on(repository, specs, refs);
    let after = push::applied_refs(refs, decision);
    let first = push::verdict(repository, spec, refs);
    let name = spec.destination;
    if spec.malformed is None {
        distinct_refspecs_are_consistent(repository, specs, refs);
        if let Verdict::Update(object_id) = first {
            updates_are_the_update_verdicts(repository, specs, refs, name, object_id);
            let i = choose|i: int|
                0 <= i < decision.updates.len() && decision.updates[i] == (name, object_id);
            let index = IndexView { refs, ..index::empty_index() };
            applying_satisfies(repository, index, decision, None);
            assert(after.contains_key(decision.updates[i].0));
            assert(after[name] == object_id);
        } else if !(first is Delete) {
            assert forall|i: int| 0 <= i < decision.updates.len() implies (
            #[trigger] decision.updates[i]).0 != name by {
                let update = decision.updates[i];
                assert(decision.updates.contains(update));
                assert(update == (update.0, update.1));
                updates_are_the_update_verdicts(repository, specs, refs, update.0, update.1);
                let p = choose|p: int|
                    0 <= p < specs.len() && (#[trigger] specs[p]).destination == update.0
                        && push::verdict(repository, specs[p], refs) == Verdict::Update(update.1);
                if p < k {
                    assert(specs[p].destination != specs[k].destination);
                } else if k < p {
                    assert(specs[k].destination != specs[p].destination);
                }
            }
            if decision.deletions.contains(name) {
                deletions_are_the_delete_verdicts(repository, specs, refs, name);
                let p = choose|p: int|
                    0 <= p < specs.len() && (#[trigger] specs[p]).destination == name
                        && push::verdict(repository, specs[p], refs) is Delete;
                if p < k {
                    assert(specs[p].destination != specs[k].destination);
                } else if k < p {
                    assert(specs[k].destination != specs[p].destination);
                }
            }
            other_refs_stay(refs, decision, name);
        }
    }
}

/// Deciding the first few refspecs a second time
proof fn decision_again(
    repository: RepositoryView,
    specs: Seq<SpecView>,
    refs: Map<Seq<char>, Seq<char>>,
    n: int,
)
    requires
        destinations_differ(specs),
        0 <= n <= specs.len(),
    ensures
        ({
            let first = push::decision_on(repository, specs.take(n), refs);
            let again = push::decision_on(
                repository,
                specs.take(n),
                push::applied_refs(refs, push::decision_on(repository, specs, refs)),
            );
            &&& again.results == first.results
            &&& again.deletions == first.deletions
            &&& again.updates.len() == 0
            &&& again.included.len() == 0
        }),
    decreases n,
{
    if n > 0 {
        decision_again(repository, specs, refs, n - 1);
        verdict_again(repository, specs, refs, n - 1);
        assert(specs.take(n).drop_last() =~= specs.take(n - 1));
        assert(specs.take(n).last() == specs[n - 1]);
    }
}

/// A push that is merged in has nothing left to do: deciding it again writes nothing more,
/// tells git the same, and is satisfied by the index as it stands
pub proof fn pushing_again_changes_nothing(
    repository: RepositoryView,
    specs: Seq<SpecView>,
    index: IndexView,
    pack: Option<PackEntryView>,
)
    requires
        destinations_differ(specs),
    ensures
        ({
            let first = push::decision_on(repository, specs, index.refs);
            let after = push::applied(repository, index, first, pack);
            let again = push::decision_on(repository, specs, after.refs);
            &&& again.results == first.results
            &&& again.deletions == first.deletions
            &&& again.updates.len() == 0
            &&& again.included.len() == 0
            &&& push::satisfied(after, again, pack)
        }),
{
    let first = push::decision_on(repository, specs, index.refs);
    let after = push::applied(repository, index, first, pack);
    let again = push::decision_on(repository, specs, after.refs);
    decision_again(repository, specs, index.refs, specs.len() as int);
    assert(specs.take(specs.len() as int) =~= specs);
    distinct_refspecs_are_consistent(repository, specs, index.refs);
    applying_satisfies(repository, index, first, pack);
}

/// Refspecs that are all turned down, or there already, change no ref
pub proof fn refused_push_changes_no_ref(
    repository: RepositoryView,
    specs: Seq<SpecView>,
    refs: Map<Seq<char>, Seq<char>>,
)
    requires
        forall|k: int|
            0 <= k < specs.len() ==> push::verdict(repository, #[trigger] specs[k], refs).is_error()
                || push::verdict(repository, specs[k], refs) is Present,
    ensures
        push::applied_refs(refs, push::decision_on(repository, specs, refs)) == refs,
    decreases specs.len(),
{
    let decision = push::decision_on(repository, specs, refs);
    if specs.len() > 0 {
        let init = specs.drop_last();
        assert forall|k: int| 0 <= k < init.len() implies push::verdict(
            repository,
            #[trigger] init[k],
            refs,
        ).is_error() || push::verdict(repository, init[k], refs) is Present by {
            assert(init[k] == specs[k]);
        }
        refused_push_changes_no_ref(repository, init, refs);
        assert(specs[specs.len() - 1] == specs.last());
        let before = push::decision_on(repository, init, refs);
        assert(decision.updates == before.updates && decision.deletions == before.deletions);
    } else {
        assert(push::applied_refs(refs, decision) =~= refs);
    }
}

/// Folding in a decision rests on its run alone: once that is on record, further runs of git
/// change nothing
pub proof fn applying_rests_on_its_run(
    repository: RepositoryView,
    later: RepositoryView,
    index: IndexView,
    decision: DecisionView,
    pack: Option<PackEntryView>,
)
    requires
        push::first_missing(repository, push::runs_for_head(index, decision)) is None,
        repository.within(later),
    ensures
        push::applied(later, index, decision, pack) == push::applied(
            repository,
            index,
            decision,
            pack,
        ),
{
    let runs = push::runs_for_head(index, decision);
    push::none_missing(repository, runs);
    if runs.len() > 0 {
        assert(repository.has_run(runs[0]));
        assert(runs[0] == git::head_words());
    }
}

/// Parsing a refspec loses nothing: the two sides are what stands around the first colon, past
/// the mark that forces it, and a refspec without a colon is malformed and kept verbatim
pub proof fn parsing_loses_nothing(refspec: Seq<char>)
    ensures
        ({
            let spec = push::parsed(refspec);
            let body = push::spec_body(refspec);
            &&& spec.malformed is Some <==> !body.contains(':')
            &&& spec.malformed is Some ==> spec.malformed == Some(refspec)
            &&& spec.malformed is None ==> body == spec.source + ":"@ + spec.destination
                && !spec.source.contains(':')
            &&& refspec == body || refspec == "+"@ + body
            &&& spec.is_forced ==> refspec == "+"@ + body
        }),
{
    let body = push::spec_body(refspec);
    reveal_strlit("+");
    reveal_strlit(":");
    if "+"@.is_prefix_of(refspec) {
        assert(refspec =~= "+"@ + body);
    }
    text::position_is_first(body, ':');
    if body.contains(':') {
        let at = text::position(body, ':');
        assert(body =~= body.take(at) + ":"@ + body.skip(at + 1));
        assert forall|i: int| 0 <= i < at implies body.take(at)[i] != ':' by {}
    }
}

/// Folding in a decision points a ref where its last update says, whatever it was before
pub proof fn last_update_counts(
    refs: Map<Seq<char>, Seq<char>>,
    decision: DecisionView,
    i: int,
)
    requires
        0 <= i < decision.updates.len(),
        forall|j: int|
            i < j < decision.updates.len() ==> (#[trigger] decision.updates[j]).0
                != decision.updates[i].0,
    ensures
        ({
            let after = push::applied_refs(refs, decision);
            let update = decision.updates[i];
            after.contains_key(update.0) && after[update.0] == update.1
        }),
    decreases decision.updates.len(),
{
    let updates = decision.updates;
    if i < updates.len() - 1 {
        let shorter = DecisionView { updates: updates.drop_last(), ..decision };
        assert(shorter.updates[i] == updates[i]);
        assert(updates[updates.len() - 1].0 != updates[i].0);
        assert forall|j: int| i < j < shorter.updates.len() implies (
        #[trigger] shorter.updates[j]).0 != shorter.updates[i].0 by {
            assert(updates[j].0 != updates[i].0);
        }
        last_update_counts(refs, shorter, i);
    }
}

/// Folding in a decision drops the refs that it deletes, and does not write itself
pub proof fn deleted_refs_are_gone(
    refs: Map<Seq<char>, Seq<char>>,
    decision: DecisionView,
    name: Seq<char>,
)
    requires
        decision.deletions.contains(name),
        forall|i: int|
            0 <= i < decision.updates.len() ==> (#[trigger] decision.updates[i]).0 != name,
    ensures
        !push::applied_refs(refs, decision).contains_key(name),
{
    updated_at(push::without(refs, decision.deletions), decision.updates, name);
}

/// An index reflects what a decision wanted exactly when folding it in would change neither a
/// ref nor a pack
pub proof fn satisfied_means_nothing_to_do(
    repository: RepositoryView,
    index: IndexView,
    decision: DecisionView,
    pack: Option<PackEntryView>,
)
    requires
        is_consistent(decision),
    ensures
        push::satisfied(index, decision, pack) <==> {
            let after = push::applied(repository, index, decision, pack);
            after.refs == index.refs && after.packs == index.packs
        },
{
    let after = push::applied(repository, index, decision, pack);
    applying_satisfies(repository, index, decision, pack);
    if push::satisfied(index, decision, pack) {
        assert forall|name: Seq<char>|
            #![trigger after.refs.contains_key(name)]
            #![trigger index.refs.contains_key(name)]
            #![trigger after.refs[name]]
            after.refs.contains_key(name) == index.refs.contains_key(name) && (
            index.refs.contains_key(name) ==> after.refs[name] == index.refs[name]) by {
            if exists|i: int|
                0 <= i < decision.updates.len() && (#[trigger] decision.updates[i]).0 == name {
                let i = choose|i: int|
                    0 <= i < decision.updates.len() && (#[trigger] decision.updates[i]).0 == name;
                assert(after.refs[name] == decision.updates[i].1);
            } else if decision.deletions.contains(name) {
                deleted_refs_are_gone(index.refs, decision, name);
                let i = choose|i: int|
                    0 <= i < decision.deletions.len() && decision.deletions[i] == name;
                assert(!index.refs.contains_key(decision.deletions[i]));
            } else {
                other_refs_stay(index.refs, decision, name);
            }
        }
        assert(after.refs.dom() =~= index.refs.dom());
        assert(after.refs =~= index.refs);
    }
    if pack is Some && !index::lists(index.packs, pack->0.track) {
        assert(after.packs.len() == index.packs.len() + 1);
    }
}

/// Folding in a decision touches nothing but refs, packs and HEAD: HEAD stays where it is as
/// long as the ref that it names is there, and the packs gain the pushed one alone, unless they
/// have its track already
pub proof fn folding_in_touches_little(
    repository: RepositoryView,
    index: IndexView,
    decision: DecisionView,
    pack: Option<PackEntryView>,
)
    ensures
        ({
            let after = push::applied(repository, index, decision, pack);
            &&& after.version == index.version
            &&& after.parent == index.parent
            &&& index.head matches Some(head) ==> (after.refs.contains_key(head) ==> after.head
                == Some(head))
            &&& pack is None ==> after.packs == index.packs
            &&& pack matches Some(entry) ==> {
                &&& (exists|i: int| 0 <= i < index.packs.len() && (#[trigger] index.packs[i]).track
                    == entry.track) ==> after.packs == index.packs
                &&& (forall|i: int| 0 <= i < index.packs.len() ==> (
                #[trigger] index.packs[i]).track != entry.track) ==> after.packs
                    == index.packs.push(entry)
            }
        }),
{
}

/// A branch whose name comes first comes before every other one
proof fn first_branch_comes_first(pairs: Seq<refs::Pair>, k: int)
    requires
        refs::ascending(pairs),
        0 <= k < pairs.len(),
        "refs/heads/"@.is_prefix_of(pairs[k].0),
    ensures
        push::first_branch(pairs) is Some,
        push::first_branch(pairs)->0 == pairs[k].0 || text::precedes(
            push::first_branch(pairs)->0,
            pairs[k].0,
        ),
    decreases pairs.len(),
{
    if "refs/heads/"@.is_prefix_of(pairs[0].0) {
        if k > 0 {
            assert(text::precedes(pairs[0].0, pairs[k].0));
        }
    } else {
        let rest = pairs.drop_first();
        assert(rest[k - 1] == pairs[k]);
        assert forall|i: int, j: int| 0 <= i < j < rest.len() implies text::precedes(
            (#[trigger] rest[i]).0,
            (#[trigger] rest[j]).0,
        ) by {
            assert(text::precedes(pairs[i + 1].0, pairs[j + 1].0));
        }
        first_branch_comes_first(rest, k - 1);
    }
}

/// A remote HEAD that has to be picked follows the local HEAD where that is pushed, then `main`,
/// then `master`, then the branch whose name comes first; there is none only without a branch
pub proof fn head_is_picked_in_order(
    repository: RepositoryView,
    index: IndexView,
    decision: DecisionView,
    pack: Option<PackEntryView>,
    branch: Seq<char>,
)
    requires
        index.refs.dom().finite(),
        index.head matches Some(head) ==> !push::applied_refs(
            index.refs,
            decision,
        ).contains_key(head),
    ensures
        ({
            let after = push::applied(repository, index, decision, pack);
            let local = repository.git(seq!["symbolic-ref"@, "HEAD"@]);
            let follows = local is Ok && after.refs.contains_key(local->Ok_0);
            let main = after.refs.contains_key("refs/heads/main"@);
            let master = after.refs.contains_key("refs/heads/master"@);
            &&& follows ==> after.head == Some(local->Ok_0)
            &&& !follows && main ==> after.head == Some("refs/heads/main"@)
            &&& !follows && !main && master ==> after.head == Some("refs/heads/master"@)
            &&& !follows && !main && !master && after.head is Some ==> after.refs.contains_key(
                after.head->0,
            ) && "refs/heads/"@.is_prefix_of(after.head->0)
            &&& !follows && !main && !master && after.refs.contains_key(branch)
                && "refs/heads/"@.is_prefix_of(branch) ==> after.head is Some && (after.head->0
                == branch || text::precedes(after.head->0, branch))
        }),
{
    let after = push::applied(repository, index, decision, pack);
    let pairs = refs::listing(after.refs);
    applied_refs_are_finite(index.refs, decision);
    refs::listing_exists(after.refs);
    first_branch_is_a_branch(pairs);
    if after.refs.contains_key(branch) && "refs/heads/"@.is_prefix_of(branch) {
        let k = choose|k: int| 0 <= k < pairs.len() && (#[trigger] pairs[k]).0 == branch;
        first_branch_comes_first(pairs, k);
    }
}

/// A refspec that git could not have meant is reported and never acted on; one without a source
/// deletes, and one whose source names nothing is turned down
pub proof fn refspecs_need_a_source(
    repository: RepositoryView,
    spec: SpecView,
    refs: Map<Seq<char>, Seq<char>>,
)
    ensures
        ({
            let verdict = push::verdict(repository, spec, refs);
            &&& spec.malformed matches Some(bad) ==> verdict == Verdict::Malformed(bad)
            &&& spec.malformed is None && spec.source.len() == 0 ==> verdict is Delete
            &&& spec.malformed is None && spec.source.len() > 0 && repository.rev_parse(
                spec.source,
            ) is None ==> verdict is Missing
            &&& verdict matches Verdict::Update(new_id) ==> repository.rev_parse(spec.source)
                == Some(new_id)
        }),
{
}

/// A ref that the remote lacks is written, and so is one that the source is ahead of, forced or
/// not
pub proof fn new_refs_and_fast_forwards_go_through(
    repository: RepositoryView,
    spec: SpecView,
    refs: Map<Seq<char>, Seq<char>>,
    new_id: Seq<char>,
)
    requires
        spec.malformed is None,
        spec.source.len() > 0,
        repository.rev_parse(spec.source) == Some(new_id),
    ensures
        ({
            let verdict = push::verdict(repository, spec, refs);
            let old_id = refs[spec.destination];
            &&& !refs.contains_key(spec.destination) ==> verdict == Verdict::Update(new_id)
            &&& refs.contains_key(spec.destination) && old_id != new_id && repository.has_object(
                old_id,
            ) && repository.is_ancestor(old_id, new_id) && !repository.is_ancestor(new_id, old_id)
                ==> verdict == Verdict::Update(new_id)
        }),
{
}

/// A ref that is at the source already, or past it, is left alone and the push counts as done,
/// forced or not
pub proof fn refs_never_move_backwards(
    repository: RepositoryView,
    spec: SpecView,
    refs: Map<Seq<char>, Seq<char>>,
    new_id: Seq<char>,
)
    requires
        spec.malformed is None,
        spec.source.len() > 0,
        repository.rev_parse(spec.source) == Some(new_id),
        refs.contains_key(spec.destination),
    ensures
        push::verdict(repository, spec, refs) is Present <==> refs[spec.destination] == new_id || (
        repository.has_object(refs[spec.destination]) && repository.is_ancestor(
            new_id,
            refs[spec.destination],
        )),
{
}

/// Forcing a refspec overrides the two refusals that protect the history of the remote, and
/// changes no other verdict
pub proof fn forcing_overrides_refusals(
    repository: RepositoryView,
    spec: SpecView,
    refs: Map<Seq<char>, Seq<char>>,
)
    ensures
        ({
            let plain = push::verdict(
                repository,
                SpecView { is_forced: false, ..spec },
                refs,
            );
            let forced = push::verdict(repository, SpecView { is_forced: true, ..spec }, refs);
            &&& plain is FetchFirst || plain is NonFastForward ==> repository.rev_parse(
                spec.source,
            ) is Some && forced == Verdict::Update(repository.rev_parse(spec.source)->0)
            &&& !(plain is FetchFirst || plain is NonFastForward) ==> forced == plain
        }),
{
}

/// The remote's history is only protected where it has to be: a refspec is told to fetch first
/// when what the remote has is not here, and turned down as no fast-forward when it is here and
/// not behind the source
pub proof fn refusals_have_reasons(
    repository: RepositoryView,
    spec: SpecView,
    refs: Map<Seq<char>, Seq<char>>,
    new_id: Seq<char>,
)
    requires
        spec.malformed is None,
        spec.source.len() > 0,
        !spec.is_forced,
        repository.rev_parse(spec.source) == Some(new_id),
        refs.contains_key(spec.destination),
        refs[spec.destination] != new_id,
    ensures
        ({
            let verdict = push::verdict(repository, spec, refs);
            let old_id = refs[spec.destination];
            &&& !repository.has_object(old_id) <==> verdict == Verdict::FetchFirst(old_id)
            &&& verdict is FetchFirst ==> !repository.has_object(old_id)
            &&& verdict is NonFastForward <==> repository.has_object(old_id)
                && !repository.is_ancestor(old_id, new_id) && !repository.is_ancestor(
                new_id,
                old_id,
            )
        }),
{
}

/// Git is told `ok` and the destination for a refspec that is carried out or needs nothing, and
/// `error`, the destination and the trouble for one that is turned down
pub proof fn result_lines_say_what_happened(
    repository: RepositoryView,
    specs: Seq<SpecView>,
    refs: Map<Seq<char>, Seq<char>>,
    k: int,
)
    requires
        0 <= k < specs.len(),
    ensures
        ({
            let results = push::decision_on(repository, specs, refs).results;
            let verdict = push::verdict(repository, specs[k], refs);
            let start = "error "@ + specs[k].destination + " "@;
            &&& results.len() == specs.len()
            &&& match verdict {
                Verdict::Update(_) | Verdict::Delete | Verdict::Present => results[k] == "ok "@
                    + specs[k].destination,
                Verdict::Malformed(bad) => ("error "@ + bad + " "@).is_prefix_of(results[k]),
                Verdict::Missing => start.is_prefix_of(results[k]) && text_laws::mentions(
                    results[k],
                    specs[k].source,
                ),
                Verdict::FetchFirst(old_id) => start.is_prefix_of(results[k])
                    && text_laws::mentions(results[k], old_id),
                Verdict::NonFastForward => start.is_prefix_of(results[k]),
            }
        }),
{
    one_result_per_refspec(repository, specs, refs);
    let lines = specs.map_values(
        |spec: SpecView| push::result_line(spec, push::verdict(repository, spec, refs)),
    );
    let spec = specs[k];
    let verdict = push::verdict(repository, spec, refs);
    let line = push::result_line(spec, verdict);
    assert(lines[k] == line);
    reveal_strlit(" ");
    reveal_strlit(" malformed refspec");
    reveal_strlit(" no such ref locally: ");
    reveal_strlit(" remote is at ");
    reveal_strlit(" non-fast-forward");
    let start = "error "@ + spec.destination + " "@;
    match verdict {
        Verdict::Malformed(bad) => {
            assert(line =~= ("error "@ + bad + " "@) + " malformed refspec"@.skip(1));
        },
        Verdict::Missing => {
            assert(line =~= start + (" no such ref locally: "@.skip(1) + spec.source));
            text_laws::mentioned(
                line,
                "error "@ + spec.destination + " no such ref locally: "@,
                spec.source,
                seq![],
            );
        },
        Verdict::FetchFirst(old_id) => {
            let rest = ", which is not in this repository; fetch first"@;
            assert(line =~= start + (" remote is at "@.skip(1) + old_id + rest));
            text_laws::mentioned(
                line,
                "error "@ + spec.destination + " remote is at "@,
                old_id,
                rest,
            );
        },
        Verdict::NonFastForward => {
            assert(line =~= start + " non-fast-forward"@.skip(1));
        },
        _ => {},
    }
}

/// Deciding two lots of refspecs together is deciding each of them, one after the other
pub proof fn decisions_add_up(
    repository: RepositoryView,
    first: Seq<SpecView>,
    second: Seq<SpecView>,
    refs: Map<Seq<char>, Seq<char>>,
)
    ensures
        ({
            let a = push::decision_on(repository, first, refs);
            let b = push::decision_on(repository, second, refs);
            let both = push::decision_on(repository, first + second, refs);
            &&& both.results == a.results + b.results
            &&& both.updates == a.updates + b.updates
            &&& both.deletions == a.deletions + b.deletions
            &&& both.included == a.included + b.included
        }),
    decreases second.len(),
{
    let a = push::decision_on(repository, first, refs);
    let b = push::decision_on(repository, second, refs);
    let both = push::decision_on(repository, first + second, refs);
    if second.len() == 0 {
        assert(first + second =~= first);
        assert(both.results =~= a.results + b.results);
        assert(both.updates =~= a.updates + b.updates);
        assert(both.deletions =~= a.deletions + b.deletions);
        assert(both.included =~= a.included + b.included);
    } else {
        decisions_add_up(repository, first, second.drop_last(), refs);
        assert((first + second).drop_last() =~= first + second.drop_last());
        assert((first + second).last() == second.last());
        assert(both.results =~= a.results + b.results);
        assert(both.updates =~= a.updates + b.updates);
        assert(both.deletions =~= a.deletions + b.deletions);
        assert(both.included =~= a.included + b.included);
    }
}

/// A refspec that is written out reads back: a source without a colon, a colon and any
/// destination, behind a plus sign when it is forced; anything without a colon is malformed
pub proof fn refspecs_read_back(source: Seq<char>, destination: Seq<char>, other: Seq<char>)
    requires
        !source.contains(':'),
        !other.contains(':'),
    ensures
        push::parsed(seq!['+'] + source.push(':') + destination) == (SpecView {
            is_forced: true,
            source,
            destination,
            malformed: None,
        }),
        (source.len() == 0 || source[0] != '+') ==> push::parsed(source.push(':') + destination)
            == (SpecView { is_forced: false, source, destination, malformed: None }),
        push::parsed(other) == (SpecView {
            is_forced: false,
            source: seq![],
            destination: seq![],
            malformed: Some(other),
        }),
{
    reveal_strlit("+");
    assert("+"@ =~= seq!['+']);
    let body = source.push(':') + destination;
    let forced = seq!['+'] + source.push(':') + destination;
    text_laws::splits_come_together(source, ':', destination, body);
    assert(forced =~= "+"@ + body);
    text_laws::prefixes_come_off("+"@, body, forced);
    assert("+"@.is_prefix_of(forced));
    if source.len() == 0 || source[0] != '+' {
        assert(body[0] != '+');
        assert(!"+"@.is_prefix_of(body)) by {
            if "+"@.is_prefix_of(body) {
                assert("+"@ == body.subrange(0, 1));
                assert("+"@[0] == body[0]);
            }
        }
    }
    let rest = push::spec_body(other);
    if "+"@.is_prefix_of(other) {
        assert(rest =~= other.skip(1));
    }
    assert(!rest.contains(':')) by {
        if rest.contains(':') {
            let i = choose|i: int| 0 <= i < rest.len() && rest[i] == ':';
            if "+"@.is_prefix_of(other) {
                assert(other[i + 1] == ':');
            }
        }
    }
    text::position_is_first(rest, ':');
}

/// Git is only asked about a refspec what its verdict can depend on, and nothing at all about
/// one that is malformed or deletes
pub proof fn runs_are_about_the_refspec(
    repository: RepositoryView,
    spec: SpecView,
    refs: Map<Seq<char>, Seq<char>>,
    run: Seq<Seq<char>>,
)
    requires
        push::runs_for_spec(repository, spec, refs).contains(run),
    ensures
        spec.malformed is None,
        spec.source.len() > 0,
        run == git::rev_parse_words(spec.source) || {
            let old_id = refs[spec.destination];
            let new_id = repository.rev_parse(spec.source);
            &&& new_id is Some
            &&& refs.contains_key(spec.destination)
            &&& old_id != new_id->0
            &&& {
                ||| run == git::has_object_words(old_id)
                ||| run == git::is_ancestor_words(new_id->0, old_id)
                ||| run == git::is_ancestor_words(old_id, new_id->0) && !spec.is_forced
            }
        },
{
}

/// What git is asked first is what is not on record yet and everything before it is
pub proof fn first_missing_comes_first(repository: RepositoryView, runs: Seq<Seq<Seq<char>>>)
    ensures
        match push::first_missing(repository, runs) {
            Some(run) => exists|i: int|
                {
                    &&& 0 <= i < runs.len()
                    &&& #[trigger] runs[i] == run
                    &&& !repository.runs.contains_key(run)
                    &&& forall|j: int|
                        0 <= j < i ==> repository.runs.contains_key(#[trigger] runs[j])
                },
            None => forall|j: int|
                0 <= j < runs.len() ==> repository.runs.contains_key(#[trigger] runs[j]),
        },
    decreases runs.len(),
{
    if runs.len() > 0 && repository.has_run(runs[0]) {
        let rest = runs.drop_first();
        first_missing_comes_first(repository, rest);
        match push::first_missing(repository, rest) {
            Some(run) => {
                let i = choose|i: int|
                    {
                        &&& 0 <= i < rest.len()
                        &&& #[trigger] rest[i] == run
                        &&& !repository.runs.contains_key(run)
                        &&& forall|j: int|
                            0 <= j < i ==> repository.runs.contains_key(#[trigger] rest[j])
                    };
                assert(runs[i + 1] == run);
                assert forall|j: int| 0 <= j < i + 1 implies repository.runs.contains_key(
                    #[trigger] runs[j],
                ) by {
                    if j > 0 {
                        assert(runs[j] == rest[j - 1]);
                    }
                }
            },
            None => {
                assert forall|j: int| 0 <= j < runs.len() implies repository.runs.contains_key(
                    #[trigger] runs[j],
                ) by {
                    if j > 0 {
                        assert(runs[j] == rest[j - 1]);
                    }
                }
            },
        }
    } else if runs.len() > 0 {
        assert(runs[0] == runs[0]);
    }
}

/// A write is out of sight exactly when the listing lacks it; one that the listing holds landed
/// clean or met somebody else's
pub proof fn landings_go_by_the_listing(
    base: Option<TrackNumber>,
    ours: TrackNumber,
    versions: Seq<TrackNumber>,
)
    ensures
        push::landing_of(base, ours, versions) is NotVisible <==> !versions.contains(ours),
        versions.contains(ours) && versions.last() != ours ==> push::landing_of(
            base,
            ours,
            versions,
        ) is Conflict,
{
}

} // verus!
