//! What the local git is run with, and what its answers mean
//!
//! The helper never parses git's object format itself. It asks git to produce a
//! packfile and asks git to consume one. That is what keeps SHA-1s byte-identical
//! across a push/fetch round trip, and with them commit messages, authors,
//! signatures, and merge topology.
//!
//! Running git is left to the caller. A [`Repository`] collects what each run came
//! back with, so every decision taken here is a function of runs already on record,
//! and a run that is not on record counts as a git that could not be started.

use vstd::prelude::*;

use crate::text;
use crate::text_laws;

verus! {

/// A packfile opens with `PACK`, a 4-byte version, then a 4-byte big-endian
/// object count.
const PACK_SIGNATURE: [u8; 4] = [0x50, 0x41, 0x43, 0x4b];

const PACK_HEADER_BYTES: usize = 12;

/// What a finished git left behind
#[derive(Debug)]
pub struct GitOutput {
    pub success: bool,
    pub stdout: Vec<u8>,
    pub stderr: Vec<u8>,
}

/// What a finished git left behind
pub struct GitOutputView {
    pub success: bool,
    pub stdout: Seq<u8>,
    pub stderr: Seq<u8>,
}

impl View for GitOutput {
    type V = GitOutputView;

    open spec fn view(&self) -> GitOutputView {
        GitOutputView { success: self.success, stdout: self.stdout@, stderr: self.stderr@ }
    }
}

/// The words of a command line
pub type Words = Seq<Seq<char>>;

/// What became of a run: the output of a finished git, or why it could not be started
pub type Outcome = Result<GitOutputView, Seq<char>>;

/// The words of a list of arguments
pub open spec fn words(arguments: Seq<&str>) -> Words {
    arguments.map_values(|s: &str| s@)
}

/// Content of a run's outcome
pub open spec fn outcome_view(outcome: Result<GitOutput, String>) -> Outcome {
    match outcome {
        Ok(output) => Ok(output@),
        Err(reason) => Err(reason@),
    }
}

/// Bytes as text, with whatever is not UTF-8 replaced
pub uninterp spec fn lossy_text(bytes: Seq<u8>) -> Seq<char>;

/// Convert bytes with `String::from_utf8_lossy`
///
/// Claims that the text depends on the bytes alone, and that valid UTF-8 comes out as the
/// text that it encodes.
#[verifier::external_body]
fn lossy(bytes: &[u8]) -> (text: String)
    ensures
        text@ == lossy_text(bytes@),
        vstd::utf8::valid_utf8(bytes@) ==> text@ == vstd::utf8::decode_utf8(bytes@),
{
    String::from_utf8_lossy(bytes).into_owned()
}

/// What git printed, without surrounding whitespace
pub open spec fn printed(bytes: Seq<u8>) -> Seq<char> {
    text::trimmed(lossy_text(bytes))
}

fn trim_output(bytes: &Vec<u8>) -> (rest: String)
    ensures
        rest@ == printed(bytes@),
{
    let all = lossy(bytes.as_slice());
    text::trim(all.as_str()).to_owned()
}

fn owned(arguments: &[&str]) -> (copy: Vec<String>)
    ensures
        text::views(copy@) == words(arguments@),
{
    let mut copy: Vec<String> = Vec::new();
    let mut i: usize = 0;
    while i < arguments.len()
        invariant
            i <= arguments@.len(),
            copy@.len() == i,
            forall|k: int| 0 <= k < i ==> copy@[k]@ == arguments@[k]@,
        decreases arguments.len() - i,
    {
        copy.push(arguments[i].to_owned());
        i = i + 1;
    }
    assert(text::views(copy@) =~= words(arguments@));
    copy
}

/// Arguments that resolve a revision to a full object id
pub open spec fn rev_parse_words(revision: Seq<char>) -> Words {
    seq!["rev-parse"@, "--verify"@, "--quiet"@, revision]
}

/// Arguments that check for an object
pub open spec fn has_object_words(object_id: Seq<char>) -> Words {
    seq!["cat-file"@, "-e"@, object_id + "^{object}"@]
}

/// Arguments that check whether one commit is an ancestor of another
pub open spec fn is_ancestor_words(old_id: Seq<char>, new_id: Seq<char>) -> Words {
    seq!["merge-base"@, "--is-ancestor"@, old_id, new_id]
}

/// Arguments that print the ref HEAD points at
pub open spec fn head_words() -> Words {
    seq!["symbolic-ref"@, "HEAD"@]
}

/// Arguments that print the git directory
pub open spec fn git_dir_words() -> Words {
    seq!["rev-parse"@, "--absolute-git-dir"@]
}

/// Arguments that resolve a revision to a full object id
pub fn rev_parse_arguments(revision: &str) -> (arguments: Vec<String>)
    ensures
        text::views(arguments@) == rev_parse_words(revision@),
{
    let arguments = owned(&["rev-parse", "--verify", "--quiet", revision]);
    assert(text::views(arguments@) =~= rev_parse_words(revision@));
    arguments
}

/// Arguments that check for an object
pub fn has_object_arguments(object_id: &str) -> (arguments: Vec<String>)
    ensures
        text::views(arguments@) == has_object_words(object_id@),
{
    let object = text::concat(object_id, "^{object}");
    let arguments = owned(&["cat-file", "-e", object.as_str()]);
    assert(text::views(arguments@) =~= has_object_words(object_id@));
    arguments
}

/// Arguments that check whether one commit is an ancestor of another
pub fn is_ancestor_arguments(old_id: &str, new_id: &str) -> (arguments: Vec<String>)
    ensures
        text::views(arguments@) == is_ancestor_words(old_id@, new_id@),
{
    let arguments = owned(&["merge-base", "--is-ancestor", old_id, new_id]);
    assert(text::views(arguments@) =~= is_ancestor_words(old_id@, new_id@));
    arguments
}

/// Arguments that print the ref HEAD points at
pub fn head_arguments() -> (arguments: Vec<String>)
    ensures
        text::views(arguments@) == head_words(),
{
    let arguments = owned(&["symbolic-ref", "HEAD"]);
    assert(text::views(arguments@) =~= head_words());
    arguments
}

/// Arguments that print the git directory
pub fn git_dir_arguments() -> (arguments: Vec<String>)
    ensures
        text::views(arguments@) == git_dir_words(),
{
    let arguments = owned(&["rev-parse", "--absolute-git-dir"]);
    assert(text::views(arguments@) =~= git_dir_words());
    arguments
}

/// What is on record about the local repository
#[verifier::ext_equal]
pub struct RepositoryView {
    pub root: Seq<char>,
    pub runs: Map<Words, Outcome>,
}

impl RepositoryView {
    /// Whether a run is on record
    pub open spec fn has_run(self, arguments: Words) -> bool {
        self.runs.contains_key(arguments)
    }

    /// The output of a git that was run and finished
    pub open spec fn output(self, arguments: Words) -> Option<GitOutputView> {
        if self.has_run(arguments) {
            match self.runs[arguments] {
                Ok(output) => Some(output),
                Err(_) => None,
            }
        } else {
            None
        }
    }

    /// Whether git was run and succeeded
    pub open spec fn succeeded(self, arguments: Words) -> bool {
        self.output(arguments) is Some && self.output(arguments)->0.success
    }

    /// What a git that has to succeed printed, or what went wrong
    pub open spec fn git(self, arguments: Words) -> Result<Seq<char>, Seq<char>> {
        if !self.has_run(arguments) {
            Err("git "@ + text::spaced(arguments) + " has not been run"@)
        } else {
            match self.runs[arguments] {
                Err(reason) => Err("spawn git "@ + text::spaced(arguments) + ": "@ + reason),
                Ok(output) => if output.success {
                    Ok(printed(output.stdout))
                } else {
                    Err(
                        "git "@ + text::spaced(arguments) + " failed: "@ + printed(output.stderr),
                    )
                },
            }
        }
    }

    /// The object a revision names
    pub open spec fn rev_parse(self, revision: Seq<char>) -> Option<Seq<char>> {
        let arguments = rev_parse_words(revision);
        if self.succeeded(arguments) && printed(self.output(arguments)->0.stdout).len() > 0 {
            Some(printed(self.output(arguments)->0.stdout))
        } else {
            None
        }
    }

    /// Whether an object is present
    pub open spec fn has_object(self, object_id: Seq<char>) -> bool {
        self.succeeded(has_object_words(object_id))
    }

    /// Whether one commit is an ancestor of another
    pub open spec fn is_ancestor(self, old_id: Seq<char>, new_id: Seq<char>) -> bool {
        self.succeeded(is_ancestor_words(old_id, new_id))
    }

    /// Whether every run on record here is on record there too, with the same outcome
    pub open spec fn within(self, other: RepositoryView) -> bool {
        forall|arguments: Words| #[trigger]
            self.has_run(arguments) ==> other.has_run(arguments) && other.runs[arguments]
                == self.runs[arguments]
    }
}

/// The local repository git invoked the helper for, as far as git has been run in it
#[derive(Debug)]
pub struct Repository {
    root: String,
    runs: Vec<(Vec<String>, Result<GitOutput, String>)>,
}

/// The map a list of runs builds, a later run replacing an earlier one
spec fn runs_of(runs: Seq<(Vec<String>, Result<GitOutput, String>)>) -> Map<Words, Outcome>
    decreases runs.len(),
{
    if runs.len() == 0 {
        Map::empty()
    } else {
        runs_of(runs.drop_last()).insert(
            text::views(runs.last().0@),
            outcome_view(runs.last().1),
        )
    }
}

impl View for Repository {
    type V = RepositoryView;

    closed spec fn view(&self) -> RepositoryView {
        RepositoryView { root: self.root@, runs: runs_of(self.runs@) }
    }
}

impl Repository {
    /// A repository git has not been run in yet
    pub fn at(root: &str) -> (repository: Repository)
        ensures
            repository@ == (RepositoryView { root: root@, runs: Map::empty() }),
    {
        Repository { root: root.to_owned(), runs: Vec::new() }
    }

    /// The directory git is to run in
    pub fn root(&self) -> (root: &String)
        ensures
            root@ == self@.root,
    {
        &self.root
    }

    /// Put a run on record
    pub fn record(&mut self, arguments: Vec<String>, outcome: Result<GitOutput, String>)
        ensures
            final(self)@ == (RepositoryView {
                runs: old(self)@.runs.insert(text::views(arguments@), outcome_view(outcome)),
                ..old(self)@
            }),
    {
        let ghost before = self.runs@;
        self.runs.push((arguments, outcome));
        assert(self.runs@.drop_last() =~= before);
    }

    fn capture(&self, arguments: &Vec<String>) -> (outcome: Option<&Result<GitOutput, String>>)
        ensures
            match outcome {
                Some(outcome) => self@.has_run(text::views(arguments@))
                    && self@.runs[text::views(arguments@)] == outcome_view(*outcome),
                None => !self@.has_run(text::views(arguments@)),
            },
    {
        let ghost wanted = text::views(arguments@);
        let mut end: usize = self.runs.len();
        assert(self.runs@.take(end as int) =~= self.runs@);
        while end > 0
            invariant
                end <= self.runs@.len(),
                wanted == text::views(arguments@),
                self@.has_run(wanted) == runs_of(self.runs@.take(end as int)).contains_key(wanted),
                self@.has_run(wanted) ==> self@.runs[wanted] == runs_of(
                    self.runs@.take(end as int),
                )[wanted],
            decreases end,
        {
            assert(self.runs@.take(end as int).drop_last() =~= self.runs@.take(end - 1));
            let run = &self.runs[end - 1];
            if text::same_strings(&run.0, arguments) {
                return Some(&run.1);
            }
            end = end - 1;
        }
        None
    }

    /// Whether a run is on record
    pub fn has_run(&self, arguments: &Vec<String>) -> (known: bool)
        ensures
            known == self@.has_run(text::views(arguments@)),
    {
        self.capture(arguments).is_some()
    }

    /// The output of a git that was run and finished
    fn output(&self, arguments: &Vec<String>) -> (output: Option<&GitOutput>)
        ensures
            match output {
                Some(output) => self@.output(text::views(arguments@)) == Some(output@),
                None => self@.output(text::views(arguments@)) is None,
            },
    {
        match self.capture(arguments) {
            Some(Ok(output)) => Some(output),
            _ => None,
        }
    }

    fn succeeded(&self, arguments: &Vec<String>) -> (success: bool)
        ensures
            success == self@.succeeded(text::views(arguments@)),
    {
        match self.output(arguments) {
            Some(output) => output.success,
            None => false,
        }
    }

    /// Require success of a git that was run, returning trimmed stdout.
    pub fn git(&self, arguments: &[&str]) -> (result: Result<String, String>)
        ensures
            match result {
                Ok(stdout) => self@.git(words(arguments@)) == Ok::<Seq<char>, Seq<char>>(stdout@),
                Err(message) => self@.git(words(arguments@)) == Err::<Seq<char>, Seq<char>>(
                    message@,
                ),
            },
    {
        let all = owned(arguments);
        let line = text::join_spaced(&all);
        match self.capture(&all) {
            None => {
                let mut message = text::concat("git ", line.as_str());
                message.append(" has not been run");
                Err(message)
            },
            Some(Err(reason)) => {
                let mut message = text::concat("spawn git ", line.as_str());
                message.append(": ");
                message.append(reason.as_str());
                Err(message)
            },
            Some(Ok(output)) => {
                if output.success {
                    Ok(trim_output(&output.stdout))
                } else {
                    let mut message = text::concat("git ", line.as_str());
                    message.append(" failed: ");
                    message.append(trim_output(&output.stderr).as_str());
                    Err(message)
                }
            },
        }
    }

    /// The git directory, from the run of `git_dir_arguments`
    pub fn git_dir(&self) -> (result: Result<String, String>)
        ensures
            match result {
                Ok(path) => self@.git(git_dir_words()) == Ok::<Seq<char>, Seq<char>>(path@),
                Err(message) => self@.git(git_dir_words()) == Err::<Seq<char>, Seq<char>>(
                    message@,
                ),
            },
    {
        let arguments = ["rev-parse", "--absolute-git-dir"];
        assert(words(arguments@) =~= git_dir_words());
        self.git(&arguments)
    }

    /// Resolve a revision to a full object id, or `None` when it does not exist.
    pub fn rev_parse(&self, revision: &str) -> (object_id: Option<String>)
        ensures
            text::opt_view(object_id) == self@.rev_parse(revision@),
    {
        let arguments = rev_parse_arguments(revision);
        match self.output(&arguments) {
            Some(output) => {
                if !output.success {
                    return None;
                }
                let object_id = trim_output(&output.stdout);
                if object_id.as_str().is_empty() {
                    None
                } else {
                    Some(object_id)
                }
            },
            None => None,
        }
    }

    /// Whether the object is present locally.
    pub fn has_object(&self, object_id: &str) -> (present: bool)
        ensures
            present == self@.has_object(object_id@),
    {
        self.succeeded(&has_object_arguments(object_id))
    }

    /// Whether `old_id` is an ancestor of `new_id`.
    pub fn is_ancestor(&self, old_id: &str, new_id: &str) -> (ancestor: bool)
        ensures
            ancestor == self@.is_ancestor(old_id@, new_id@),
    {
        self.succeeded(&is_ancestor_arguments(old_id, new_id))
    }
}

/// Object ids one to a line, each after `mark`
pub open spec fn id_lines(mark: Seq<char>, ids: Words) -> Seq<char>
    decreases ids.len(),
{
    if ids.len() == 0 {
        seq![]
    } else {
        id_lines(mark, ids.drop_last()) + mark + ids.last() + "\n"@
    }
}

/// The revisions a pack is built from: what it has to reach, then what it may leave out
pub open spec fn revision_lines(included: Words, excluded: Words) -> Seq<char> {
    id_lines(""@, included) + id_lines("^"@, excluded)
}

fn append_id_lines(lines: &mut String, mark: &str, ids: &[String])
    ensures
        final(lines)@ == old(lines)@ + id_lines(mark@, text::views(ids@)),
{
    let ghost before = lines@;
    let ghost all = text::views(ids@);
    let mut i: usize = 0;
    assert(before + id_lines(mark@, all.take(0)) =~= before);
    while i < ids.len()
        invariant
            i <= ids@.len(),
            all == text::views(ids@),
            lines@ == before + id_lines(mark@, all.take(i as int)),
        decreases ids.len() - i,
    {
        lines.append(mark);
        lines.append(ids[i].as_str());
        lines.append("\n");
        proof {
            let done = all.take(i + 1);
            assert(done.drop_last() =~= all.take(i as int));
            assert(done.last() == ids@[i as int]@);
            assert(lines@ =~= before + id_lines(mark@, done));
        }
        i = i + 1;
    }
    assert(all.take(all.len() as int) =~= all);
}

/// A git that is fed input while its output is drained
#[derive(Debug)]
pub struct Process {
    pub arguments: Vec<String>,
    pub input: Vec<u8>,
    /// What to call it in messages
    pub what: String,
}

/// How feeding a git its input went
#[derive(Debug)]
pub enum Feed {
    Complete,
    /// It broke off, for the reason given
    Broken(String),
    /// Whoever was feeding it panicked
    Panicked,
}

/// What is wrong with how a git was fed
///
/// A git that failed may well have closed its input early, so only a git that succeeded
/// has to have been fed everything.
pub open spec fn feed_fault(what: Seq<char>, success: bool, feed: Feed) -> Option<Seq<char>> {
    if !success {
        None
    } else {
        match feed {
            Feed::Complete => None,
            Feed::Broken(reason) => Some("write "@ + what + " stdin: "@ + reason@),
            Feed::Panicked => Some(what + " stdin writer panicked"@),
        }
    }
}

/// What a fed git that has to succeed printed, or what went wrong
pub open spec fn fed_result(what: Seq<char>, output: GitOutputView, feed: Feed) -> Result<
    Seq<u8>,
    Seq<char>,
> {
    match feed_fault(what, output.success, feed) {
        Some(fault) => Err(fault),
        None => if output.success {
            Ok(output.stdout)
        } else {
            Err(what + " failed: "@ + printed(output.stderr))
        },
    }
}

/// Check how a finished git was fed
fn wait(what: &str, success: bool, feed: Feed) -> (result: Result<(), String>)
    ensures
        match result {
            Ok(_) => feed_fault(what@, success, feed) is None,
            Err(fault) => feed_fault(what@, success, feed) == Some(fault@),
        },
{
    if !success {
        return Ok(());
    }
    match feed {
        Feed::Complete => Ok(()),
        Feed::Broken(reason) => {
            let mut fault = text::concat("write ", what);
            fault.append(" stdin: ");
            fault.append(reason.as_str());
            Err(fault)
        },
        Feed::Panicked => Err(text::concat(what, " stdin writer panicked")),
    }
}

impl Process {
    /// Require success of a finished git, returning its stdout
    pub fn finish(&self, output: GitOutput, feed: Feed) -> (result: Result<Vec<u8>, String>)
        ensures
            match result {
                Ok(stdout) => fed_result(self.what@, output@, feed) == Ok::<Seq<u8>, Seq<char>>(
                    stdout@,
                ),
                Err(message) => fed_result(self.what@, output@, feed) == Err::<
                    Seq<u8>,
                    Seq<char>,
                >(message@),
            },
    {
        match wait(self.what.as_str(), output.success, feed) {
            Err(fault) => Err(fault),
            Ok(_) => {
                if output.success {
                    Ok(output.stdout)
                } else {
                    let mut message = text::concat(self.what.as_str(), " failed: ");
                    message.append(trim_output(&output.stderr).as_str());
                    Err(message)
                }
            },
        }
    }
}

impl Repository {
    /// The git that builds a self-contained pack for the requested revisions.
    pub fn pack_objects(&self, included: &[String], excluded: &[String]) -> (process: Process)
        ensures
            text::views(process.arguments@) == seq![
                "pack-objects"@,
                "--stdout"@,
                "--revs"@,
                "--delta-base-offset"@,
                "--quiet"@,
            ],
            process.input@ == vstd::utf8::encode_utf8(
                revision_lines(text::views(included@), text::views(excluded@)),
            ),
            process.what@ == "git pack-objects"@,
    {
        let arguments = owned(
            &["pack-objects", "--stdout", "--revs", "--delta-base-offset", "--quiet"],
        );
        assert(text::views(arguments@) =~= seq![
            "pack-objects"@,
            "--stdout"@,
            "--revs"@,
            "--delta-base-offset"@,
            "--quiet"@,
        ]);
        let mut revisions = String::new();
        append_id_lines(&mut revisions, "", included);
        append_id_lines(&mut revisions, "^", excluded);
        assert(revisions@ =~= revision_lines(text::views(included@), text::views(excluded@)));
        Process {
            arguments,
            input: revisions.as_str().as_bytes_vec(),
            what: "git pack-objects".to_owned(),
        }
    }

    /// The git that installs a packfile into this repository.
    pub fn index_pack(&self, pack: &[u8]) -> (process: Process)
        ensures
            text::views(process.arguments@) == seq!["index-pack"@, "--stdin"@, "--fix-thin"@],
            process.input@ == pack@,
            process.what@ == "git index-pack"@,
    {
        let arguments = owned(&["index-pack", "--stdin", "--fix-thin"]);
        assert(text::views(arguments@) =~= seq!["index-pack"@, "--stdin"@, "--fix-thin"@]);
        let input = vstd::slice::slice_to_vec(pack);
        Process { arguments, input, what: "git index-pack".to_owned() }
    }
}

/// Whether some bytes open like a packfile
pub open spec fn is_pack(bytes: Seq<u8>) -> bool {
    bytes.len() >= 12 && bytes[0] == 'P' as u8 && bytes[1] == 'A' as u8 && bytes[2] == 'C' as u8
        && bytes[3] == 'K' as u8
}

/// Number of objects a packfile carries, none for what is not a packfile
pub open spec fn object_count(bytes: Seq<u8>) -> int {
    if is_pack(bytes) {
        ((bytes[8] * 256 + bytes[9]) * 256 + bytes[10]) * 256 + bytes[11]
    } else {
        0
    }
}

/// Number of objects a packfile carries, read from its header
///
/// An "empty" pack is still 32 bytes of header and trailer, so size alone cannot
/// tell us whether a push has anything new to store.
pub fn pack_object_count(pack: &[u8]) -> (count: u64)
    ensures
        count == object_count(pack@),
{
    if pack.len() < PACK_HEADER_BYTES || pack[0] != PACK_SIGNATURE[0] || pack[1]
        != PACK_SIGNATURE[1] || pack[2] != PACK_SIGNATURE[2] || pack[3] != PACK_SIGNATURE[3] {
        return 0;
    }
    ((pack[8] as u64 * 256 + pack[9] as u64) * 256 + pack[10] as u64) * 256 + pack[11] as u64
}

/// What git printed is taken without the whitespace around it
pub proof fn printed_text_is_trimmed(bytes: Seq<u8>)
    ensures
        ({
            let all = lossy_text(bytes);
            exists|start: int, end: int|
                #![trigger all.subrange(start, end)]
                {
                    &&& 0 <= start <= end <= all.len()
                    &&& printed(bytes) == all.subrange(start, end)
                    &&& forall|i: int| 0 <= i < start ==> text::is_white_space(#[trigger] all[i])
                    &&& forall|i: int|
                        end <= i < all.len() ==> text::is_white_space(#[trigger] all[i])
                    &&& start < end ==> !text::is_white_space(all[start])
                        && !text::is_white_space(all[end - 1])
                }
        }),
{
    text_laws::both_ends_are_trimmed(lossy_text(bytes));
}

/// A revision names what `git rev-parse` printed about it, if that succeeded and printed
/// anything, and nothing otherwise
pub proof fn revisions_are_resolved(
    repository: RepositoryView,
    revision: Seq<char>,
    outcome: Outcome,
)
    ensures
        ({
            let question = seq!["rev-parse"@, "--verify"@, "--quiet"@, revision];
            let asked = RepositoryView {
                runs: repository.runs.insert(question, outcome),
                ..repository
            };
            &&& asked.rev_parse(revision) == match outcome {
                Ok(output) => if output.success && printed(output.stdout).len() > 0 {
                    Some(printed(output.stdout))
                } else {
                    None
                },
                Err(_) => None,
            }
            &&& !repository.runs.contains_key(question) ==> repository.rev_parse(revision) is None
        }),
{
    assert(rev_parse_words(revision) =~= seq![
        "rev-parse"@,
        "--verify"@,
        "--quiet"@,
        revision,
    ]);
}

/// An object is present exactly when `git cat-file` said so, and a commit an ancestor of another
/// exactly when `git merge-base` said so, in that order
pub proof fn objects_are_checked(
    repository: RepositoryView,
    a: Seq<char>,
    b: Seq<char>,
    outcome: Outcome,
)
    ensures
        ({
            let presence = seq!["cat-file"@, "-e"@, a + "^{object}"@];
            let ancestry = seq!["merge-base"@, "--is-ancestor"@, a, b];
            let looked = RepositoryView {
                runs: repository.runs.insert(presence, outcome),
                ..repository
            };
            let compared = RepositoryView {
                runs: repository.runs.insert(ancestry, outcome),
                ..repository
            };
            let succeeded = outcome is Ok && outcome->Ok_0.success;
            &&& looked.has_object(a) <==> succeeded
            &&& compared.is_ancestor(a, b) <==> succeeded
            &&& !repository.runs.contains_key(presence) ==> !repository.has_object(a)
            &&& !repository.runs.contains_key(ancestry) ==> !repository.is_ancestor(a, b)
        }),
{
    assert(has_object_words(a) =~= seq!["cat-file"@, "-e"@, a + "^{object}"@]);
    assert(is_ancestor_words(a, b) =~= seq!["merge-base"@, "--is-ancestor"@, a, b]);
}

/// A git that has to succeed gives what it printed exactly when it succeeded; otherwise what is
/// said of it quotes its arguments, and why it could not be started or what it complained of
pub proof fn successful_runs_give_their_output(
    repository: RepositoryView,
    arguments: Words,
    outcome: Outcome,
)
    ensures
        ({
            let ran = RepositoryView {
                runs: repository.runs.insert(arguments, outcome),
                ..repository
            };
            let result = ran.git(arguments);
            &&& match outcome {
                Ok(output) => {
                    &&& output.success ==> result == Ok::<Seq<char>, Seq<char>>(
                        printed(output.stdout),
                    )
                    &&& !output.success ==> result is Err && text_laws::mentions(
                        result->Err_0,
                        printed(output.stderr),
                    )
                },
                Err(reason) => result is Err && text_laws::mentions(result->Err_0, reason),
            }
            &&& result is Err ==> text_laws::mentions(result->Err_0, text::spaced(arguments))
            &&& !repository.runs.contains_key(arguments) ==> repository.git(arguments) is Err
        }),
{
    let ran = RepositoryView { runs: repository.runs.insert(arguments, outcome), ..repository };
    let line = text::spaced(arguments);
    match outcome {
        Ok(output) => {
            if !output.success {
                let message = ran.git(arguments)->Err_0;
                let complaint = printed(output.stderr);
                text_laws::mentioned(message, "git "@, line, " failed: "@ + complaint);
                text_laws::mentioned(
                    message,
                    "git "@ + line + " failed: "@,
                    complaint,
                    seq![],
                );
            }
        },
        Err(reason) => {
            let message = ran.git(arguments)->Err_0;
            text_laws::mentioned(message, "spawn git "@, line, ": "@ + reason);
            text_laws::mentioned(message, "spawn git "@ + line + ": "@, reason, seq![]);
        },
    }
}

/// No two questions to git are the same: what is on record about one answers no other
pub proof fn questions_differ(a: Seq<char>, b: Seq<char>, c: Seq<char>, d: Seq<char>)
    ensures
        rev_parse_words(a) == rev_parse_words(b) ==> a == b,
        has_object_words(a) == has_object_words(b) ==> a == b,
        is_ancestor_words(a, b) == is_ancestor_words(c, d) ==> a == c && b == d,
        rev_parse_words(a) != has_object_words(b),
        rev_parse_words(a) != is_ancestor_words(b, c),
        has_object_words(a) != is_ancestor_words(b, c),
        head_words() != rev_parse_words(a) && head_words() != has_object_words(a) && head_words()
            != is_ancestor_words(a, b) && head_words() != git_dir_words(),
        git_dir_words() != rev_parse_words(a) && git_dir_words() != has_object_words(a)
            && git_dir_words() != is_ancestor_words(a, b),
{
    reveal_strlit("rev-parse");
    reveal_strlit("merge-base");
    reveal_strlit("symbolic-ref");
    assert("rev-parse"@.len() == 9 && "merge-base"@.len() == 10 && "symbolic-ref"@.len() == 12);
    if rev_parse_words(a) == rev_parse_words(b) {
        assert(rev_parse_words(a)[3] == rev_parse_words(b)[3]);
    }
    if has_object_words(a) == has_object_words(b) {
        assert(has_object_words(a)[2] == has_object_words(b)[2]);
        let x = a + "^{object}"@;
        let y = b + "^{object}"@;
        assert(a.len() == b.len());
        assert(x.take(a.len() as int) =~= a);
        assert(y.take(a.len() as int) =~= b);
    }
    if is_ancestor_words(a, b) == is_ancestor_words(c, d) {
        assert(is_ancestor_words(a, b)[2] == is_ancestor_words(c, d)[2]);
        assert(is_ancestor_words(a, b)[3] == is_ancestor_words(c, d)[3]);
    }
    assert(rev_parse_words(a).len() == 4 && has_object_words(b).len() == 3);
    assert(has_object_words(a).len() == 3 && is_ancestor_words(b, c).len() == 4);
    assert(head_words().len() == 2 && git_dir_words().len() == 2);
    assert(is_ancestor_words(a, b).len() == 4);
    assert(rev_parse_words(a)[0] != is_ancestor_words(b, c)[0]);
    assert(head_words()[0] != git_dir_words()[0]);
}

proof fn id_lines_are_lines(mark: Seq<char>, ids: Words)
    ensures
        id_lines(mark, ids) == text::as_lines(ids.map_values(|id: Seq<char>| mark + id)),
    decreases ids.len(),
{
    reveal_strlit("\n");
    assert("\n"@ =~= seq!['\n']);
    let lines = ids.map_values(|id: Seq<char>| mark + id);
    if ids.len() == 0 {
        assert(lines =~= seq![]);
        assert(id_lines(mark, ids) =~= text::as_lines(lines));
    } else {
        let before = ids.drop_last().map_values(|id: Seq<char>| mark + id);
        id_lines_are_lines(mark, ids.drop_last());
        assert(lines =~= before.push(mark + ids.last()));
        text_laws::lines_are_appended(before, mark + ids.last());
        assert(id_lines(mark, ids) =~= text::as_lines(before) + (mark + ids.last()).push('\n'));
    }
}

proof fn as_lines_concat(a: Words, b: Words)
    ensures
        text::as_lines(a + b) == text::as_lines(a) + text::as_lines(b),
    decreases b.len(),
{
    if b.len() == 0 {
        assert(a + b =~= a);
        assert(b =~= seq![]);
        text_laws::lines_are_appended(b, seq![]);
        assert(text::as_lines(a) + text::as_lines(b) =~= text::as_lines(a));
    } else {
        let init = b.drop_last();
        as_lines_concat(a, init);
        assert(a + b =~= (a + init).push(b.last()));
        assert(b =~= init.push(b.last()));
        text_laws::lines_are_appended(a + init, b.last());
        text_laws::lines_are_appended(init, b.last());
        assert(text::as_lines(a + b) =~= text::as_lines(a) + text::as_lines(b));
    }
}

/// Git is told what a pack has to reach, one id to a line, and then what it may leave out, each
/// after a caret
pub proof fn revisions_are_told_one_to_a_line(included: Words, excluded: Words)
    requires
        forall|i: int|
            0 <= i < included.len() ==> (#[trigger] included[i]).len() > 0 && !included[i].contains(
                '\n',
            ) && included[i].last() != '\r',
        forall|i: int|
            0 <= i < excluded.len() ==> (#[trigger] excluded[i]).len() > 0 && !excluded[i].contains(
                '\n',
            ) && excluded[i].last() != '\r',
    ensures
        text::lines_of(revision_lines(included, excluded)) == included + excluded.map_values(
            |id: Seq<char>| seq!['^'] + id,
        ),
{
    reveal_strlit("");
    reveal_strlit("^");
    assert("^"@ =~= seq!['^']);
    let plain = included.map_values(|id: Seq<char>| ""@ + id);
    let marked = excluded.map_values(|id: Seq<char>| "^"@ + id);
    id_lines_are_lines(""@, included);
    id_lines_are_lines("^"@, excluded);
    as_lines_concat(plain, marked);
    assert forall|i: int| 0 <= i < included.len() implies #[trigger] plain[i] == included[i] by {
        assert(""@ + included[i] =~= included[i]);
    }
    assert(plain =~= included);
    assert(marked =~= excluded.map_values(|id: Seq<char>| seq!['^'] + id));
    let all = plain + marked;
    assert forall|i: int| 0 <= i < all.len() implies !(#[trigger] all[i]).contains('\n') && (
    all[i].len() == 0 || all[i].last() != '\r') by {
        if i < plain.len() {
            assert(all[i] == included[i]);
        } else {
            let id = excluded[i - plain.len()];
            assert(all[i] == "^"@ + id);
            assert(all[i].last() == id.last());
            if all[i].contains('\n') {
                let k = choose|k: int| 0 <= k < all[i].len() && all[i][k] == '\n';
                assert(k > 0);
                assert(id[k - 1] == '\n');
            }
        }
    }
    text_laws::written_lines_are_read(all);
}

/// A git that is fed gives what it printed exactly when it succeeded and was fed everything;
/// otherwise what is said of it names it, and why
pub proof fn fed_gits_have_to_succeed(what: Seq<char>, output: GitOutputView, feed: Feed)
    ensures
        ({
            let result = fed_result(what, output, feed);
            &&& output.success && feed is Complete <==> result is Ok
            &&& result is Ok ==> result->Ok_0 == output.stdout
            &&& result is Err ==> text_laws::mentions(result->Err_0, what)
            &&& !output.success ==> text_laws::mentions(result->Err_0, printed(output.stderr))
            &&& output.success ==> (feed matches Feed::Broken(reason) ==> text_laws::mentions(
                result->Err_0,
                reason@,
            ))
        }),
{
    if !output.success {
        let message = fed_result(what, output, feed)->Err_0;
        let complaint = printed(output.stderr);
        text_laws::mentioned(message, seq![], what, " failed: "@ + complaint);
        text_laws::mentioned(message, what + " failed: "@, complaint, seq![]);
    } else {
        match feed {
            Feed::Complete => {},
            Feed::Broken(reason) => {
                let message = fed_result(what, output, feed)->Err_0;
                text_laws::mentioned(message, "write "@, what, " stdin: "@ + reason@);
                text_laws::mentioned(message, "write "@ + what + " stdin: "@, reason@, seq![]);
            },
            Feed::Panicked => {
                let message = fed_result(what, output, feed)->Err_0;
                text_laws::mentioned(message, seq![], what, " stdin writer panicked"@);
            },
        }
    }
}

/// A packfile says how many objects it carries in the third word of its header, highest byte
/// first; what is too short for a header, or does not open as a packfile, carries none
pub proof fn packs_count_their_objects(
    version: Seq<u8>,
    a: u8,
    b: u8,
    c: u8,
    d: u8,
    rest: Seq<u8>,
    other: Seq<u8>,
)
    requires
        version.len() == 4,
    ensures
        object_count(seq![80u8, 65u8, 67u8, 75u8] + version + seq![a, b, c, d] + rest) == a
            * 16777216 + b * 65536 + c * 256 + d,
        other.len() < 12 ==> object_count(other) == 0,
        other.len() >= 4 && other.take(4) != seq![80u8, 65u8, 67u8, 75u8] ==> object_count(other)
            == 0,
{
    let bytes = seq![80u8, 65u8, 67u8, 75u8] + version + seq![a, b, c, d] + rest;
    assert(bytes[0] == 80 && bytes[1] == 65 && bytes[2] == 67 && bytes[3] == 75);
    assert(bytes[8] == a && bytes[9] == b && bytes[10] == c && bytes[11] == d);
    if is_pack(other) {
        assert(other.take(4) =~= seq![80u8, 65u8, 67u8, 75u8]);
    }
}

/// Git is asked where its HEAD points and where it keeps its files with fixed arguments
pub proof fn places_are_asked_for(repository: RepositoryView, output: GitOutputView)
    requires
        output.success,
    ensures
        ({
            let head = seq!["symbolic-ref"@, "HEAD"@];
            let directory = seq!["rev-parse"@, "--absolute-git-dir"@];
            let with_head = RepositoryView {
                runs: repository.runs.insert(head, Ok(output)),
                ..repository
            };
            let with_directory = RepositoryView {
                runs: repository.runs.insert(directory, Ok(output)),
                ..repository
            };
            &&& with_head.git(head_words()) == Ok::<Seq<char>, Seq<char>>(printed(output.stdout))
            &&& with_directory.git(git_dir_words()) == Ok::<Seq<char>, Seq<char>>(
                printed(output.stdout),
            )
        }),
{
    assert(head_words() =~= seq!["symbolic-ref"@, "HEAD"@]);
    assert(git_dir_words() =~= seq!["rev-parse"@, "--absolute-git-dir"@]);
}

} // verus!
