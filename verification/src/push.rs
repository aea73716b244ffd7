//! Applying a batch of refspecs: one pack for what is new, one rewritten index
//!
//! Tapedrive resolves a name to its newest version but cannot reject a write
//! based on the previous one, so a plain read-modify-write silently loses a
//! concurrent pusher's refs. Instead we write, then check whether the visible
//! index actually reflects our changes, and re-merge against the newer head if it
//! does not. Every superseded version stays readable, so nothing is destroyed
//! while this converges.

use vstd::prelude::*;

use crate::git;
use crate::git::{Repository, RepositoryView, Words};
use crate::index;
use crate::index::{Index, IndexView, PackEntry, PackEntryView};
use crate::refs;
use crate::text;
use crate::track;
use crate::track::TrackNumber;

verus! {

/// One refspec as git sends it: `[+]<src>:<dst>`, or `:<dst>` to delete
#[derive(Debug)]
pub struct Spec {
    pub is_forced: bool,
    pub source: String,
    pub destination: String,
    /// Set for a refspec we could not parse, reported verbatim and never acted on
    pub malformed: Option<String>,
}

/// One refspec
pub struct SpecView {
    pub is_forced: bool,
    pub source: Seq<char>,
    pub destination: Seq<char>,
    pub malformed: Option<Seq<char>>,
}

impl View for Spec {
    type V = SpecView;

    open spec fn view(&self) -> SpecView {
        SpecView {
            is_forced: self.is_forced,
            source: self.source@,
            destination: self.destination@,
            malformed: text::opt_view(self.malformed),
        }
    }
}

/// Content of each of several refspecs
pub open spec fn spec_views(specs: Seq<Spec>) -> Seq<SpecView> {
    specs.map_values(|s: Spec| s@)
}

/// A refspec without the mark that forces it
pub open spec fn spec_body(refspec: Seq<char>) -> Seq<char> {
    match text::after_prefix(refspec, "+"@) {
        Some(body) => body,
        None => refspec,
    }
}

/// What a refspec says
pub open spec fn parsed(refspec: Seq<char>) -> SpecView {
    match text::split_at_first(spec_body(refspec), ':') {
        Some((source, destination)) => SpecView {
            is_forced: "+"@.is_prefix_of(refspec),
            source,
            destination,
            malformed: None,
        },
        None => SpecView {
            is_forced: false,
            source: seq![],
            destination: seq![],
            malformed: Some(refspec),
        },
    }
}

fn parse_spec(refspec: &str) -> (spec: Spec)
    ensures
        spec@ == parsed(refspec@),
{
    let is_forced = text::starts_with(refspec, "+");
    let body = match text::strip_prefix(refspec, "+") {
        Some(body) => body,
        None => refspec,
    };
    match text::split_once(body, ':') {
        Some((source, destination)) => Spec { is_forced, source, destination, malformed: None },
        None => {
            let spec = Spec {
                is_forced: false,
                source: String::new(),
                destination: String::new(),
                malformed: Some(refspec.to_owned()),
            };
            assert(spec.source@ =~= seq![]);
            assert(spec.destination@ =~= seq![]);
            spec
        },
    }
}

/// Split the refspecs git sent us
pub fn parse_specs(specs: &[String]) -> (result: Vec<Spec>)
    ensures
        result@.len() == specs@.len(),
        spec_views(result@) == text::views(specs@).map_values(|refspec: Seq<char>| parsed(refspec)),
{
    let mut result: Vec<Spec> = Vec::new();
    let mut i: usize = 0;
    while i < specs.len()
        invariant
            i <= specs@.len(),
            result@.len() == i,
            forall|k: int| 0 <= k < i ==> (#[trigger] result@[k])@ == parsed(specs@[k]@),
        decreases specs.len() - i,
    {
        result.push(parse_spec(specs[i].as_str()));
        i = i + 1;
    }
    assert(spec_views(result@) =~= text::views(specs@).map_values(
        |refspec: Seq<char>| parsed(refspec),
    ));
    result
}

/// What a push should do, evaluated against one particular base index
#[derive(Debug)]
pub struct Decision {
    /// One line per refspec, in order, for git
    pub results: Vec<String>,
    /// Refs to write
    pub updates: Vec<(String, String)>,
    /// Refs to drop
    pub deletions: Vec<String>,
    /// New tips whose objects have to be packed
    pub included: Vec<String>,
}

/// What a push should do
#[verifier::ext_equal]
pub struct DecisionView {
    pub results: Seq<Seq<char>>,
    pub updates: Seq<refs::Pair>,
    pub deletions: Seq<Seq<char>>,
    pub included: Seq<Seq<char>>,
}

/// Content of each of several updates
pub open spec fn pair_views(pairs: Seq<(String, String)>) -> Seq<refs::Pair> {
    pairs.map_values(|p: (String, String)| (p.0@, p.1@))
}

impl View for Decision {
    type V = DecisionView;

    open spec fn view(&self) -> DecisionView {
        DecisionView {
            results: text::views(self.results@),
            updates: pair_views(self.updates@),
            deletions: text::views(self.deletions@),
            included: text::views(self.included@),
        }
    }
}

/// A push that does nothing
pub open spec fn no_decision() -> DecisionView {
    DecisionView { results: seq![], updates: seq![], deletions: seq![], included: seq![] }
}

impl Default for Decision {
    fn default() -> (decision: Decision)
        ensures
            decision@ == no_decision(),
    {
        let decision = Decision {
            results: Vec::new(),
            updates: Vec::new(),
            deletions: Vec::new(),
            included: Vec::new(),
        };
        assert(decision@ =~= no_decision());
        decision
    }
}

/// What becomes of one refspec
pub enum Verdict {
    /// It could not be parsed
    Malformed(Seq<char>),
    /// The destination is to be dropped
    Delete,
    /// The source does not exist locally
    Missing,
    /// The destination is there already, or past it
    Present,
    /// The destination points at this object, which is not in this repository
    FetchFirst(Seq<char>),
    /// The destination would not move forward
    NonFastForward,
    /// The destination is to point at this object
    Update(Seq<char>),
}

impl Verdict {
    /// Whether the refspec is turned down
    pub open spec fn is_error(self) -> bool {
        self is Malformed || self is Missing || self is FetchFirst || self is NonFastForward
    }
}

/// What becomes of one refspec, given the refs of the base index
pub open spec fn verdict(
    repository: RepositoryView,
    spec: SpecView,
    refs: Map<Seq<char>, Seq<char>>,
) -> Verdict {
    if spec.malformed is Some {
        Verdict::Malformed(spec.malformed->0)
    } else if spec.source.len() == 0 {
        Verdict::Delete
    } else {
        match repository.rev_parse(spec.source) {
            None => Verdict::Missing,
            Some(new_id) => if !refs.contains_key(spec.destination) {
                Verdict::Update(new_id)
            } else {
                let old_id = refs[spec.destination];
                if old_id == new_id {
                    Verdict::Present
                } else if repository.has_object(old_id) && repository.is_ancestor(new_id, old_id) {
                    Verdict::Present
                } else if spec.is_forced {
                    Verdict::Update(new_id)
                } else if !repository.has_object(old_id) {
                    Verdict::FetchFirst(old_id)
                } else if !repository.is_ancestor(old_id, new_id) {
                    Verdict::NonFastForward
                } else {
                    Verdict::Update(new_id)
                }
            },
        }
    }
}

/// The line git is told about a refspec
pub open spec fn result_line(spec: SpecView, verdict: Verdict) -> Seq<char> {
    match verdict {
        Verdict::Malformed(bad) => "error "@ + bad + " malformed refspec"@,
        Verdict::Missing => "error "@ + spec.destination + " no such ref locally: "@ + spec.source,
        Verdict::FetchFirst(old_id) => "error "@ + spec.destination + " remote is at "@ + old_id
            + ", which is not in this repository; fetch first"@,
        Verdict::NonFastForward => "error "@ + spec.destination + " non-fast-forward"@,
        _ => "ok "@ + spec.destination,
    }
}

/// A decision with one more refspec taken in
pub open spec fn extended(
    decision: DecisionView,
    spec: SpecView,
    verdict: Verdict,
) -> DecisionView {
    let results = decision.results.push(result_line(spec, verdict));
    match verdict {
        Verdict::Delete => DecisionView {
            results,
            deletions: decision.deletions.push(spec.destination),
            ..decision
        },
        Verdict::Update(new_id) => DecisionView {
            results,
            updates: decision.updates.push((spec.destination, new_id)),
            included: decision.included.push(new_id),
            ..decision
        },
        _ => DecisionView { results, ..decision },
    }
}

/// The decision on every refspec, in order
pub open spec fn decision_on(
    repository: RepositoryView,
    specs: Seq<SpecView>,
    refs: Map<Seq<char>, Seq<char>>,
) -> DecisionView
    decreases specs.len(),
{
    if specs.len() == 0 {
        no_decision()
    } else {
        extended(
            decision_on(repository, specs.drop_last(), refs),
            specs.last(),
            verdict(repository, specs.last(), refs),
        )
    }
}

fn error_line(destination: &str, trouble: &str, detail: &str, rest: &str) -> (line: String)
    ensures
        line@ == "error "@ + destination@ + trouble@ + detail@ + rest@,
{
    let mut line = text::concat("error ", destination);
    line.append(trouble);
    line.append(detail);
    line.append(rest);
    line
}

impl Decision {
    fn report(&mut self, line: String)
        ensures
            final(self)@ == (DecisionView {
                results: old(self)@.results.push(line@),
                ..old(self)@
            }),
    {
        let ghost before = self@;
        self.results.push(line);
        assert(self@.results =~= before.results.push(line@));
    }

    fn report_ok(&mut self, destination: &str)
        ensures
            final(self)@ == (DecisionView {
                results: old(self)@.results.push("ok "@ + destination@),
                ..old(self)@
            }),
    {
        self.report(text::concat("ok ", destination));
    }
}

/// Decide one refspec against `index`
fn decide_spec(repository: &Repository, spec: &Spec, index: &Index, decision: &mut Decision)
    ensures
        final(decision)@ == extended(
            old(decision)@,
            spec@,
            verdict(repository@, spec@, index@.refs),
        ),
{
    proof {
        reveal_strlit("");
    }
    let ghost before = decision@;
    if let Some(bad) = &spec.malformed {
        let line = error_line(bad.as_str(), " malformed refspec", "", "");
        assert(line@ =~= "error "@ + bad@ + " malformed refspec"@);
        decision.report(line);
        return;
    }
    let destination = spec.destination.as_str();

    if spec.source.as_str().is_empty() {
        decision.deletions.push(spec.destination.clone());
        assert(decision@.deletions =~= before.deletions.push(destination@));
        decision.report_ok(destination);
        return;
    }
    let new_id = match repository.rev_parse(spec.source.as_str()) {
        Some(new_id) => new_id,
        None => {
            let line = error_line(
                destination,
                " no such ref locally: ",
                spec.source.as_str(),
                "",
            );
            assert(line@ =~= "error "@ + destination@ + " no such ref locally: "@ + spec@.source);
            decision.report(line);
            return;
        },
    };

    if let Some(old_id) = index.refs.get(destination) {
        if *old_id == new_id {
            decision.report_ok(destination);
            return;
        }
        // Someone advanced this ref past us while we were working. Our objects are
        // already stored and the remote tip contains our commit, so the push
        // succeeded, and moving the ref backwards would be wrong.
        if repository.has_object(old_id.as_str()) && repository.is_ancestor(
            new_id.as_str(),
            old_id.as_str(),
        ) {
            decision.report_ok(destination);
            return;
        }
        if !spec.is_forced {
            if !repository.has_object(old_id.as_str()) {
                decision.report(
                    error_line(
                        destination,
                        " remote is at ",
                        old_id.as_str(),
                        ", which is not in this repository; fetch first",
                    ),
                );
                return;
            }
            if !repository.is_ancestor(old_id.as_str(), new_id.as_str()) {
                let line = error_line(destination, " non-fast-forward", "", "");
                assert(line@ =~= "error "@ + destination@ + " non-fast-forward"@);
                decision.report(line);
                return;
            }
        }
    }
    decision.updates.push((spec.destination.clone(), new_id.clone()));
    assert(decision@.updates =~= before.updates.push((destination@, new_id@)));
    decision.included.push(new_id);
    assert(decision@.included =~= before.included.push(new_id@));
    decision.report_ok(destination);
}

/// Decide every refspec against `index`
///
/// Deliberately a pure function of (refspecs, base index): re-running it against a
/// newer base *is* the conflict merge, because every check gets re-evaluated
/// against whatever the other pusher left behind: fast-forward, already-there,
/// superseded.
pub fn decide(repository: &Repository, specs: &[Spec], index: &Index) -> (decision: Decision)
    ensures
        decision@ == decision_on(repository@, spec_views(specs@), index@.refs),
{
    let mut decision = Decision::default();
    let ghost all = spec_views(specs@);
    let mut i: usize = 0;
    assert(all.take(0).len() == 0);
    while i < specs.len()
        invariant
            i <= specs@.len(),
            all == spec_views(specs@),
            decision@ == decision_on(repository@, all.take(i as int), index@.refs),
        decreases specs.len() - i,
    {
        decide_spec(repository, &specs[i], index, &mut decision);
        proof {
            let done = all.take(i + 1);
            assert(done.drop_last() =~= all.take(i as int));
            assert(done.last() == specs@[i as int]@);
        }
        i = i + 1;
    }
    assert(all.take(all.len() as int) =~= all);
    decision
}

/// The runs that the verdict on one refspec rests on
pub open spec fn runs_for_spec(
    repository: RepositoryView,
    spec: SpecView,
    refs: Map<Seq<char>, Seq<char>>,
) -> Seq<Words> {
    if spec.malformed is Some || spec.source.len() == 0 {
        seq![]
    } else {
        let resolve = seq![git::rev_parse_words(spec.source)];
        match repository.rev_parse(spec.source) {
            None => resolve,
            Some(new_id) => if !refs.contains_key(spec.destination) || refs[spec.destination]
                == new_id {
                resolve
            } else {
                let old_id = refs[spec.destination];
                let held = resolve.push(git::has_object_words(old_id));
                if !repository.has_object(old_id) {
                    held
                } else {
                    let behind = held.push(git::is_ancestor_words(new_id, old_id));
                    if repository.is_ancestor(new_id, old_id) || spec.is_forced {
                        behind
                    } else {
                        behind.push(git::is_ancestor_words(old_id, new_id))
                    }
                }
            },
        }
    }
}

/// The runs that a decision rests on
pub open spec fn runs_for(
    repository: RepositoryView,
    specs: Seq<SpecView>,
    refs: Map<Seq<char>, Seq<char>>,
) -> Seq<Words>
    decreases specs.len(),
{
    if specs.len() == 0 {
        seq![]
    } else {
        runs_for(repository, specs.drop_last(), refs) + runs_for_spec(
            repository,
            specs.last(),
            refs,
        )
    }
}

/// The first of several runs that is not on record yet
pub open spec fn first_missing(repository: RepositoryView, runs: Seq<Words>) -> Option<Words>
    decreases runs.len(),
{
    if runs.len() == 0 {
        None
    } else if !repository.has_run(runs[0]) {
        Some(runs[0])
    } else {
        first_missing(repository, runs.drop_first())
    }
}

/// The first missing run of a concatenation
pub proof fn first_missing_concat(repository: RepositoryView, a: Seq<Words>, b: Seq<Words>)
    ensures
        first_missing(repository, a + b) == match first_missing(repository, a) {
            Some(run) => Some(run),
            None => first_missing(repository, b),
        },
    decreases a.len(),
{
    if a.len() == 0 {
        assert(a + b =~= b);
    } else {
        assert((a + b).drop_first() =~= a.drop_first() + b);
        first_missing_concat(repository, a.drop_first(), b);
    }
}

/// When no run is missing, all of them are on record
pub proof fn none_missing(repository: RepositoryView, runs: Seq<Words>)
    requires
        first_missing(repository, runs) is None,
    ensures
        forall|i: int| 0 <= i < runs.len() ==> repository.has_run(#[trigger] runs[i]),
    decreases runs.len(),
{
    if runs.len() > 0 {
        none_missing(repository, runs.drop_first());
        assert forall|i: int| 0 <= i < runs.len() implies repository.has_run(
            #[trigger] runs[i],
        ) by {
            if i > 0 {
                assert(runs[i] == runs.drop_first()[i - 1]);
            }
        }
    }
}

/// Content of a list of arguments that may be missing
pub open spec fn opt_words(arguments: Option<Vec<String>>) -> Option<Words> {
    match arguments {
        Some(arguments) => Some(text::views(arguments@)),
        None => None,
    }
}

/// Which run the verdict on one refspec still waits for
fn pending_spec(repository: &Repository, spec: &Spec, index: &Index) -> (run: Option<Vec<String>>)
    ensures
        opt_words(run) == first_missing(
            repository@,
            runs_for_spec(repository@, spec@, index@.refs),
        ),
{
    proof {
        reveal_with_fuel(first_missing, 5);
    }
    if spec.malformed.is_some() || spec.source.as_str().is_empty() {
        return None;
    }
    let resolve = git::rev_parse_arguments(spec.source.as_str());
    if !repository.has_run(&resolve) {
        return Some(resolve);
    }
    if let Some(new_id) = repository.rev_parse(spec.source.as_str()) {
        if let Some(old_id) = index.refs.get(spec.destination.as_str()) {
            if *old_id == new_id {
                return None;
            }
            let held = git::has_object_arguments(old_id.as_str());
            if !repository.has_run(&held) {
                return Some(held);
            }
            if repository.has_object(old_id.as_str()) {
                let behind = git::is_ancestor_arguments(new_id.as_str(), old_id.as_str());
                if !repository.has_run(&behind) {
                    return Some(behind);
                }
                if !repository.is_ancestor(new_id.as_str(), old_id.as_str()) && !spec.is_forced {
                    let ahead = git::is_ancestor_arguments(old_id.as_str(), new_id.as_str());
                    if !repository.has_run(&ahead) {
                        return Some(ahead);
                    }
                }
            }
        }
    }
    None
}

/// Which run a decision still waits for
pub fn pending(repository: &Repository, specs: &[Spec], index: &Index) -> (run: Option<Vec<String>>)
    ensures
        opt_words(run) == first_missing(
            repository@,
            runs_for(repository@, spec_views(specs@), index@.refs),
        ),
{
    let ghost all = spec_views(specs@);
    let mut i: usize = 0;
    while i < specs.len()
        invariant
            i <= specs@.len(),
            all == spec_views(specs@),
            first_missing(repository@, runs_for(repository@, all.take(i as int), index@.refs)) is None,
        decreases specs.len() - i,
    {
        let run = pending_spec(repository, &specs[i], index);
        proof {
            let done = all.take(i + 1);
            assert(done.drop_last() =~= all.take(i as int));
            assert(done.last() == specs@[i as int]@);
            first_missing_concat(
                repository@,
                runs_for(repository@, all.take(i as int), index@.refs),
                runs_for_spec(repository@, specs@[i as int]@, index@.refs),
            );
        }
        if run.is_some() {
            proof {
                runs_of_prefix_come_first(repository@, all, index@.refs, i + 1);
            }
            return run;
        }
        i = i + 1;
    }
    assert(all.take(all.len() as int) =~= all);
    None
}

/// A run missing for the first few refspecs is the first missing of all
proof fn runs_of_prefix_come_first(
    repository: RepositoryView,
    specs: Seq<SpecView>,
    refs: Map<Seq<char>, Seq<char>>,
    n: int,
)
    requires
        0 <= n <= specs.len(),
        first_missing(repository, runs_for(repository, specs.take(n), refs)) is Some,
    ensures
        first_missing(repository, runs_for(repository, specs, refs)) == first_missing(
            repository,
            runs_for(repository, specs.take(n), refs),
        ),
    decreases specs.len(),
{
    if n == specs.len() {
        assert(specs.take(n) =~= specs);
    } else {
        assert(specs.drop_last().take(n) =~= specs.take(n));
        runs_of_prefix_come_first(repository, specs.drop_last(), refs, n);
        first_missing_concat(
            repository,
            runs_for(repository, specs.drop_last(), refs),
            runs_for_spec(repository, specs.last(), refs),
        );
    }
}

/// A verdict rests on its runs alone: whatever else git might be run with changes nothing
pub proof fn verdict_rests_on_its_runs(
    repository: RepositoryView,
    later: RepositoryView,
    spec: SpecView,
    refs: Map<Seq<char>, Seq<char>>,
)
    requires
        first_missing(repository, runs_for_spec(repository, spec, refs)) is None,
        repository.within(later),
    ensures
        verdict(later, spec, refs) == verdict(repository, spec, refs),
{
    let runs = runs_for_spec(repository, spec, refs);
    none_missing(repository, runs);
    if spec.malformed is None && spec.source.len() > 0 {
        assert(runs[0] == git::rev_parse_words(spec.source));
        assert(later.rev_parse(spec.source) == repository.rev_parse(spec.source));
        if let Some(new_id) = repository.rev_parse(spec.source) {
            if refs.contains_key(spec.destination) && refs[spec.destination] != new_id {
                let old_id = refs[spec.destination];
                assert(runs[1] == git::has_object_words(old_id));
                if repository.has_object(old_id) {
                    assert(runs[2] == git::is_ancestor_words(new_id, old_id));
                    if !repository.is_ancestor(new_id, old_id) && !spec.is_forced {
                        assert(runs[3] == git::is_ancestor_words(old_id, new_id));
                    }
                }
            }
        }
    }
}

/// A decision rests on its runs alone: once none of them is missing, further runs of git
/// change nothing
pub proof fn decision_rests_on_its_runs(
    repository: RepositoryView,
    later: RepositoryView,
    specs: Seq<SpecView>,
    refs: Map<Seq<char>, Seq<char>>,
)
    requires
        first_missing(repository, runs_for(repository, specs, refs)) is None,
        repository.within(later),
    ensures
        decision_on(later, specs, refs) == decision_on(repository, specs, refs),
    decreases specs.len(),
{
    if specs.len() > 0 {
        first_missing_concat(
            repository,
            runs_for(repository, specs.drop_last(), refs),
            runs_for_spec(repository, specs.last(), refs),
        );
        decision_rests_on_its_runs(repository, later, specs.drop_last(), refs);
        verdict_rests_on_its_runs(repository, later, specs.last(), refs);
    }
}

/// Content of a pack entry that may be missing
pub open spec fn opt_pack(pack: Option<&PackEntry>) -> Option<PackEntryView> {
    match pack {
        Some(entry) => Some(entry@),
        None => None,
    }
}

/// Whether an index reflects everything a decision wanted
pub open spec fn satisfied(
    index: IndexView,
    decision: DecisionView,
    pack: Option<PackEntryView>,
) -> bool {
    &&& pack is Some ==> index::lists(index.packs, pack->0.track)
    &&& forall|i: int|
        0 <= i < decision.updates.len() ==> index.refs.contains_key(
            (#[trigger] decision.updates[i]).0,
        ) && index.refs[decision.updates[i].0] == decision.updates[i].1
    &&& forall|i: int|
        0 <= i < decision.deletions.len() ==> !index.refs.contains_key(
            #[trigger] decision.deletions[i],
        )
}

/// Whether the visible index already reflects everything this decision wanted
///
/// Checking the observable outcome rather than "was my write the newest" keeps the
/// loop correct no matter who else wrote in the meantime: if a later pusher merged
/// our changes in, we are done and do not need to write again.
pub fn is_satisfied(index: &Index, decision: &Decision, pack: Option<&PackEntry>) -> (done: bool)
    ensures
        done == satisfied(index@, decision@, opt_pack(pack)),
{
    if let Some(entry) = pack {
        if !index.has_pack(entry.track) {
            return false;
        }
    }
    let mut i: usize = 0;
    while i < decision.updates.len()
        invariant
            i <= decision.updates@.len(),
            forall|k: int|
                0 <= k < i ==> index@.refs.contains_key((#[trigger] decision@.updates[k]).0)
                    && index@.refs[decision@.updates[k].0] == decision@.updates[k].1,
        decreases decision.updates.len() - i,
    {
        let update = &decision.updates[i];
        assert(decision@.updates[i as int] == (update.0@, update.1@));
        match index.refs.get(update.0.as_str()) {
            Some(object_id) => {
                if *object_id != update.1 {
                    return false;
                }
            },
            None => {
                return false;
            },
        }
        i = i + 1;
    }
    let mut j: usize = 0;
    while j < decision.deletions.len()
        invariant
            j <= decision.deletions@.len(),
            forall|k: int|
                0 <= k < j ==> !index@.refs.contains_key(#[trigger] decision@.deletions[k]),
        decreases decision.deletions.len() - j,
    {
        let name = &decision.deletions[j];
        assert(decision@.deletions[j as int] == name@);
        if index.refs.contains_key(name.as_str()) {
            return false;
        }
        j = j + 1;
    }
    true
}

/// What a version listing says about the index version this process just wrote
#[derive(Clone, Copy, Debug, PartialEq, Eq, Structural)]
pub enum Landing {
    /// Ours is the newest version and it sits directly on the base it merged
    Clean,
    /// Somebody else wrote between our base and now
    Conflict,
    /// The listing does not reach our version at all
    NotVisible,
}

/// The last version that is not ours
pub open spec fn base_of(versions: Seq<TrackNumber>, ours: Seq<TrackNumber>) -> Option<TrackNumber>
    decreases versions.len(),
{
    if versions.len() == 0 {
        None
    } else if ours.contains(versions.last()) {
        base_of(versions.drop_last(), ours)
    } else {
        Some(versions.last())
    }
}

/// The newest index version this process did not write
pub fn choose_base(versions: &[TrackNumber], ours: &[TrackNumber]) -> (base: Option<TrackNumber>)
    ensures
        base == base_of(versions@, ours@),
{
    let mut end: usize = versions.len();
    assert(versions@.take(end as int) =~= versions@);
    while end > 0
        invariant
            end <= versions@.len(),
            base_of(versions@, ours@) == base_of(versions@.take(end as int), ours@),
        decreases end,
    {
        assert(versions@.take(end as int).drop_last() =~= versions@.take(end - 1));
        let version = versions[end - 1];
        if !track::is_among(version, ours) {
            return Some(version);
        }
        end = end - 1;
    }
    None
}

/// The last version numbered below a track
pub open spec fn last_below(versions: Seq<TrackNumber>, track: TrackNumber) -> Option<TrackNumber>
    decreases versions.len(),
{
    if versions.len() == 0 {
        None
    } else if versions.last().0 < track.0 {
        Some(versions.last())
    } else {
        last_below(versions.drop_last(), track)
    }
}

/// What a version listing says about the index version we wrote
pub open spec fn landing_of(
    base: Option<TrackNumber>,
    ours: TrackNumber,
    versions: Seq<TrackNumber>,
) -> Landing {
    if !versions.contains(ours) {
        Landing::NotVisible
    } else if versions.last() == ours && last_below(versions, ours) == base {
        Landing::Clean
    } else {
        Landing::Conflict
    }
}

fn newest_below(versions: &[TrackNumber], track: TrackNumber) -> (below: Option<TrackNumber>)
    ensures
        below == last_below(versions@, track),
{
    let mut end: usize = versions.len();
    assert(versions@.take(end as int) =~= versions@);
    while end > 0
        invariant
            end <= versions@.len(),
            last_below(versions@, track) == last_below(versions@.take(end as int), track),
        decreases end,
    {
        assert(versions@.take(end as int).drop_last() =~= versions@.take(end - 1));
        if versions[end - 1].0 < track.0 {
            return Some(versions[end - 1]);
        }
        end = end - 1;
    }
    None
}

/// Read a version listing as a verdict on the index version we wrote
///
/// A listing that stops below our own write proves nothing about who else wrote,
/// so it is its own answer rather than a race: treating it as one is what made a
/// lagging storage node look like a competing pusher.
pub fn landing(base: Option<TrackNumber>, ours: TrackNumber, versions: &[TrackNumber]) -> (result:
    Landing)
    ensures
        result == landing_of(base, ours, versions@),
{
    if !track::is_among(ours, versions) {
        return Landing::NotVisible;
    }
    let below = newest_below(versions, ours);
    if versions[versions.len() - 1] == ours && track::same(below, base) {
        return Landing::Clean;
    }
    Landing::Conflict
}

/// The base of a push is the newest version in the listing that this process did not write
pub proof fn base_is_newest_of_others(versions: Seq<TrackNumber>, ours: Seq<TrackNumber>)
    requires
        track::in_order(versions),
    ensures
        match base_of(versions, ours) {
            Some(base) => versions.contains(base) && !ours.contains(base) && forall|v: TrackNumber|
                #![trigger versions.contains(v)]
                versions.contains(v) && !ours.contains(v) ==> v.0 <= base.0,
            None => forall|v: TrackNumber| #[trigger]
                versions.contains(v) ==> ours.contains(v),
        },
    decreases versions.len(),
{
    if versions.len() > 0 {
        let init = versions.drop_last();
        let last = versions.last();
        assert(versions =~= init.push(last));
        assert(versions[versions.len() - 1] == last);
        assert forall|v: TrackNumber| #[trigger] versions.contains(v) implies v == last
            || init.contains(v) by {
            let i = choose|i: int| 0 <= i < versions.len() && versions[i] == v;
            if i < init.len() {
                assert(init[i] == v);
            }
        }
        assert forall|v: TrackNumber| #[trigger] init.contains(v) implies versions.contains(v)
            && v.0 <= last.0 by {
            let i = choose|i: int| 0 <= i < init.len() && init[i] == v;
            assert(versions[i] == v);
            assert(versions[i].0 <= versions[versions.len() - 1].0);
        }
        if ours.contains(last) {
            assert forall|i: int, j: int| 0 <= i < j < init.len() implies (#[trigger] init[i]).0
                <= (#[trigger] init[j]).0 by {
                assert(versions[i].0 <= versions[j].0);
            }
            base_is_newest_of_others(init, ours);
        }
    }
}

/// The last version below a track is the greatest of them
pub proof fn last_below_is_greatest(versions: Seq<TrackNumber>, track: TrackNumber)
    requires
        track::in_order(versions),
    ensures
        match last_below(versions, track) {
            Some(below) => versions.contains(below) && below.0 < track.0 && forall|v: TrackNumber|
                #![trigger versions.contains(v)]
                versions.contains(v) && v.0 < track.0 ==> v.0 <= below.0,
            None => forall|v: TrackNumber| #[trigger] versions.contains(v) ==> v.0 >= track.0,
        },
    decreases versions.len(),
{
    if versions.len() > 0 {
        let init = versions.drop_last();
        let last = versions.last();
        assert(versions[versions.len() - 1] == last);
        assert forall|v: TrackNumber| #[trigger] versions.contains(v) implies v == last
            || init.contains(v) by {
            let i = choose|i: int| 0 <= i < versions.len() && versions[i] == v;
            if i < init.len() {
                assert(init[i] == v);
            }
        }
        assert forall|v: TrackNumber| #[trigger] init.contains(v) implies versions.contains(v)
            && v.0 <= last.0 by {
            let i = choose|i: int| 0 <= i < init.len() && init[i] == v;
            assert(versions[i] == v);
            assert(versions[i].0 <= versions[versions.len() - 1].0);
        }
        if last.0 >= track.0 {
            assert forall|i: int, j: int| 0 <= i < j < init.len() implies (#[trigger] init[i]).0
                <= (#[trigger] init[j]).0 by {
                assert(versions[i].0 <= versions[j].0);
            }
            last_below_is_greatest(init, track);
        }
    }
}

/// A write lands clean exactly when the listing holds nothing newer than it and nothing
/// between it and the base that it merged
pub proof fn clean_landing_has_no_rival(
    base: Option<TrackNumber>,
    ours: TrackNumber,
    versions: Seq<TrackNumber>,
)
    requires
        track::in_order(versions),
    ensures
        landing_of(base, ours, versions) is Clean <==> {
            &&& versions.contains(ours)
            &&& base is Some ==> versions.contains(base->0) && (base->0).0 < ours.0
            &&& forall|v: TrackNumber| #[trigger]
                versions.contains(v) ==> v == ours || (base is Some && v.0 <= (base->0).0)
        },
{
    last_below_is_greatest(versions, ours);
    if versions.contains(ours) {
        let i = choose|i: int| 0 <= i < versions.len() && versions[i] == ours;
        let end = versions.len() - 1;
        assert(versions.contains(versions[end]));
        if i < end {
            assert(versions[i].0 <= versions[end].0);
        }
        assert forall|v: TrackNumber| #[trigger] versions.contains(v) && versions.last()
            == ours implies v.0 <= ours.0 by {
            let k = choose|k: int| 0 <= k < versions.len() && versions[k] == v;
            if k < end {
                assert(versions[k].0 <= versions[end].0);
            }
        }
        let below = last_below(versions, ours);
        if below is Some {
            assert(versions.contains(below->0));
        }
    }
}

/// The first ref in a list that is a branch
pub open spec fn first_branch(pairs: Seq<refs::Pair>) -> Option<Seq<char>>
    decreases pairs.len(),
{
    if pairs.len() == 0 {
        None
    } else if "refs/heads/"@.is_prefix_of(pairs[0].0) {
        Some(pairs[0].0)
    } else {
        first_branch(pairs.drop_first())
    }
}

/// The remote HEAD for some refs: the local HEAD, or main, or master, or else the branch
/// whose name comes first
pub open spec fn head_for(
    repository: RepositoryView,
    refs: Map<Seq<char>, Seq<char>>,
) -> Option<Seq<char>> {
    let local = repository.git(git::head_words());
    if local is Ok && refs.contains_key(local->Ok_0) {
        Some(local->Ok_0)
    } else if refs.contains_key("refs/heads/main"@) {
        Some("refs/heads/main"@)
    } else if refs.contains_key("refs/heads/master"@) {
        Some("refs/heads/master"@)
    } else {
        first_branch(refs::listing(refs))
    }
}

/// Pick a remote HEAD when it is unset or dangling
///
/// A shared remote's default branch must not flip to whatever branch the most
/// recent pusher happened to be standing on, because that would change what
/// everyone else's next clone checks out. The first push seeds it from the local
/// HEAD. After that it is sticky, and moving it is a deliberate act.
fn choose_head(repository: &Repository, index: &Index) -> (head: Option<String>)
    ensures
        text::opt_view(head) == head_for(repository@, index@.refs),
{
    let arguments = ["symbolic-ref", "HEAD"];
    assert(git::words(arguments@) =~= git::head_words());
    if let Ok(local) = repository.git(&arguments) {
        if index.refs.contains_key(local.as_str()) {
            return Some(local);
        }
    }
    if index.refs.contains_key("refs/heads/main") {
        return Some("refs/heads/main".to_owned());
    }
    if index.refs.contains_key("refs/heads/master") {
        return Some("refs/heads/master".to_owned());
    }
    let n = index.refs.len();
    let ghost pairs = refs::listing(index@.refs);
    let mut i: usize = 0;
    assert(pairs.skip(0) =~= pairs);
    while i < n
        invariant
            i <= n,
            n == pairs.len(),
            pairs == refs::listing(index@.refs),
            head_for(repository@, index@.refs) == first_branch(pairs.skip(i as int)),
        decreases n - i,
    {
        let name = index.refs.name_at(i);
        assert(pairs.skip(i as int)[0] == pairs[i as int]);
        assert(pairs.skip(i as int).drop_first() =~= pairs.skip(i + 1));
        if text::starts_with(name.as_str(), "refs/heads/") {
            return Some(name.clone());
        }
        i = i + 1;
    }
    None
}

/// Refs with some names dropped
pub open spec fn without(refs: Map<Seq<char>, Seq<char>>, names: Seq<Seq<char>>) -> Map<
    Seq<char>,
    Seq<char>,
> {
    Map::new(|name: Seq<char>| refs.contains_key(name) && !names.contains(name), |name: Seq<char>|
        refs[name])
}

/// Refs with some of them pointed elsewhere, the last update of a name counting
pub open spec fn updated(refs: Map<Seq<char>, Seq<char>>, updates: Seq<refs::Pair>) -> Map<
    Seq<char>,
    Seq<char>,
>
    decreases updates.len(),
{
    if updates.len() == 0 {
        refs
    } else {
        updated(refs, updates.drop_last()).insert(updates.last().0, updates.last().1)
    }
}

/// The refs of an index once a decision is folded in
pub open spec fn applied_refs(
    refs: Map<Seq<char>, Seq<char>>,
    decision: DecisionView,
) -> Map<Seq<char>, Seq<char>> {
    updated(without(refs, decision.deletions), decision.updates)
}

/// Packs with one more, unless its track is listed already
pub open spec fn with_pack(
    packs: Seq<PackEntryView>,
    pack: Option<PackEntryView>,
) -> Seq<PackEntryView> {
    if pack is Some && !index::lists(packs, pack->0.track) {
        packs.push(pack->0)
    } else {
        packs
    }
}

/// Whether HEAD points at one of the refs
pub open spec fn is_live(head: Option<Seq<char>>, refs: Map<Seq<char>, Seq<char>>) -> bool {
    head is Some && refs.contains_key(head->0)
}

/// An index with a decision folded in
pub open spec fn applied(
    repository: RepositoryView,
    index: IndexView,
    decision: DecisionView,
    pack: Option<PackEntryView>,
) -> IndexView {
    let refs = applied_refs(index.refs, decision);
    IndexView {
        head: if is_live(index.head, refs) {
            index.head
        } else {
            head_for(repository, refs)
        },
        refs,
        packs: with_pack(index.packs, pack),
        ..index
    }
}

/// Fold a decision's updates and deletions into the refs of an index
pub(crate) fn apply_refs(index: &mut Index, decision: &Decision)
    ensures
        final(index)@ == (IndexView {
            refs: applied_refs(old(index)@.refs, decision@),
            ..old(index)@
        }),
{
    let ghost before = index@;
    let mut i: usize = 0;
    assert(without(before.refs, decision@.deletions.take(0)) =~= before.refs);
    while i < decision.deletions.len()
        invariant
            i <= decision.deletions@.len(),
            index@ == (IndexView {
                refs: without(before.refs, decision@.deletions.take(i as int)),
                ..before
            }),
        decreases decision.deletions.len() - i,
    {
        index.refs.remove(decision.deletions[i].as_str());
        proof {
            let dropped = decision@.deletions.take(i as int);
            let next = decision@.deletions.take(i + 1);
            assert(next =~= dropped.push(decision@.deletions[i as int]));
            assert forall|name: Seq<char>| next.contains(name) <==> dropped.contains(name) || name
                == decision@.deletions[i as int] by {
                if dropped.contains(name) {
                    let k = choose|k: int| 0 <= k < dropped.len() && dropped[k] == name;
                    assert(next[k] == name);
                }
                if next.contains(name) {
                    let k = choose|k: int| 0 <= k < next.len() && next[k] == name;
                    if k < i {
                        assert(dropped[k] == name);
                    }
                }
                assert(next[i as int] == decision@.deletions[i as int]);
            }
            assert(index@.refs =~= without(before.refs, next));
        }
        i = i + 1;
    }
    let ghost kept = index@.refs;
    assert(decision@.deletions.take(decision@.deletions.len() as int) =~= decision@.deletions);
    let mut j: usize = 0;
    while j < decision.updates.len()
        invariant
            j <= decision.updates@.len(),
            index@ == (IndexView {
                refs: updated(kept, decision@.updates.take(j as int)),
                ..before
            }),
        decreases decision.updates.len() - j,
    {
        let update = &decision.updates[j];
        index.refs.insert(update.0.clone(), update.1.clone());
        proof {
            let next = decision@.updates.take(j + 1);
            assert(next.drop_last() =~= decision@.updates.take(j as int));
            assert(next.last() == (update.0@, update.1@));
        }
        j = j + 1;
    }
    assert(decision@.updates.take(decision@.updates.len() as int) =~= decision@.updates);
}

/// Fold a decision into an index
pub fn apply(
    repository: &Repository,
    index: &mut Index,
    decision: &Decision,
    pack: Option<&PackEntry>,
)
    ensures
        final(index)@ == applied(repository@, old(index)@, decision@, opt_pack(pack)),
{
    let ghost before = index@;
    apply_refs(index, decision);
    if let Some(entry) = pack {
        if !index.has_pack(entry.track) {
            index.packs.push(entry.clone());
            assert(index@.packs =~= before.packs.push(entry@));
        }
    }
    let is_head_live = match &index.head {
        Some(head) => index.refs.contains_key(head.as_str()),
        None => false,
    };
    if !is_head_live {
        index.head = choose_head(repository, index);
    }
}

/// The runs that folding in a decision rests on
pub open spec fn runs_for_head(index: IndexView, decision: DecisionView) -> Seq<Words> {
    if is_live(index.head, applied_refs(index.refs, decision)) {
        seq![]
    } else {
        seq![git::head_words()]
    }
}

/// The first missing run is one of the runs, and is not on record
pub proof fn first_missing_is_missing(repository: RepositoryView, runs: Seq<Words>)
    ensures
        first_missing(repository, runs) is Some ==> !repository.has_run(
            first_missing(repository, runs)->0,
        ) && runs.contains(first_missing(repository, runs)->0),
    decreases runs.len(),
{
    if runs.len() > 0 {
        assert(runs.contains(runs[0]));
        first_missing_is_missing(repository, runs.drop_first());
        if let Some(run) = first_missing(repository, runs.drop_first()) {
            let i = choose|i: int| 0 <= i < runs.drop_first().len() && runs.drop_first()[i] == run;
            assert(runs[i + 1] == run);
        }
    }
}

/// What git is told about a push: one line per refspec, then a blank one
pub fn report(results: &Vec<String>) -> (text: String)
    ensures
        text@ == text::as_lines(text::views(results@)) + "\n"@,
{
    let mut text = text::join_lines(results);
    text.append("\n");
    text
}

} // verus!
