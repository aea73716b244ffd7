//! Making the remote's objects available locally
//!
//! Git asks for specific object ids, but packs are the unit of storage here, so we
//! install whichever packs this repository is missing and let git pick refs out of
//! them. Which packs are already installed is remembered on disk, so `git pull`
//! stays incremental instead of replaying the whole history every time.

use vstd::prelude::*;

use crate::git;
use crate::git::{Process, Repository};
use crate::index;
use crate::index::{Index, PackEntry, PackEntryView};
use crate::refs;
use crate::refs::Refs;
use crate::store;
use crate::store::{Store, StoreView};
use crate::text;
use crate::text_laws;

verus! {

/// File under the git directory recording which packs are already installed
pub const INSTALLED_PACKS: &'static str = "tape/installed-packs";

/// Each of some keys, with nothing to it
pub open spec fn marks(keys: Set<Seq<char>>) -> Map<Seq<char>, Seq<char>> {
    Map::new(|key: Seq<char>| keys.contains(key), |key: Seq<char>| Seq::empty())
}

/// Keys in order
pub open spec fn in_order(keys: Set<Seq<char>>) -> Seq<Seq<char>> {
    refs::listing(marks(keys)).map_values(|p: refs::Pair| p.0)
}

/// Keys of installed packs, in order
#[derive(Debug)]
pub struct Installed {
    keys: Refs,
}

impl View for Installed {
    type V = Set<Seq<char>>;

    closed spec fn view(&self) -> Set<Seq<char>> {
        self.keys@.dom()
    }
}

impl Installed {
    #[verifier::type_invariant]
    closed spec fn is_consistent(&self) -> bool {
        self.keys@ == marks(self.keys@.dom())
    }

    /// No packs
    pub fn new() -> (installed: Installed)
        ensures
            installed@ == Set::<Seq<char>>::empty(),
    {
        let keys = Refs::new();
        assert(keys@ =~= marks(keys@.dom()));
        let installed = Installed { keys };
        assert(installed@ =~= Set::<Seq<char>>::empty());
        installed
    }

    /// Whether a pack is installed
    pub fn contains(&self, key: &str) -> (found: bool)
        ensures
            found == self@.contains(key@),
    {
        self.keys.contains_key(key)
    }

    /// Note that a pack is installed
    pub fn insert(self, key: String) -> (installed: Installed)
        ensures
            installed@ == self@.insert(key@),
    {
        proof {
            use_type_invariant(&self);
        }
        let Installed { keys } = self;
        let ghost before = keys@;
        let mut keys = keys;
        let mark = String::new();
        assert(mark@ =~= Seq::<char>::empty());
        keys.insert(key, mark);
        proof {
            assert(keys@ =~= marks(keys@.dom()));
            assert(keys@.dom() =~= before.dom().insert(key@));
        }
        Installed { keys }
    }

    /// How many packs are installed
    pub fn len(&self) -> (n: usize)
        ensures
            n == in_order(self@).len(),
            n == self@.len(),
            self@.finite(),
    {
        proof {
            use_type_invariant(self);
        }
        self.keys.len()
    }

    /// Key at a place in order
    pub fn key_at(&self, i: usize) -> (key: &String)
        requires
            i < in_order(self@).len(),
        ensures
            key@ == in_order(self@)[i as int],
    {
        proof {
            use_type_invariant(self);
        }
        self.keys.name_at(i)
    }
}

/// The keys in a list of lines, blank lines aside
pub open spec fn keys_in(lines: Seq<Seq<char>>) -> Set<Seq<char>>
    decreases lines.len(),
{
    if lines.len() == 0 {
        Set::empty()
    } else if lines.last().len() == 0 {
        keys_in(lines.drop_last())
    } else {
        keys_in(lines.drop_last()).insert(lines.last())
    }
}

/// Packs this repository has already indexed
///
/// A missing or unreadable file simply means "none known", which costs one
/// redundant fetch rather than failing an otherwise fine clone.
pub fn load_installed(body: Option<&str>) -> (installed: Installed)
    ensures
        installed@ == match body {
            Some(body) => keys_in(text::lines_of(body@)),
            None => Set::empty(),
        },
{
    let body = match body {
        Some(body) => body,
        None => {
            return Installed::new();
        },
    };
    let lines = text::lines(body);
    let ghost all = text::views(lines@);
    let mut installed = Installed::new();
    let mut i: usize = 0;
    while i < lines.len()
        invariant
            i <= lines@.len(),
            all == text::views(lines@),
            installed@ == keys_in(all.take(i as int)),
        decreases lines.len() - i,
    {
        proof {
            let done = all.take(i + 1);
            assert(done.drop_last() =~= all.take(i as int));
            assert(done.last() == lines@[i as int]@);
        }
        if !lines[i].as_str().is_empty() {
            installed = installed.insert(lines[i].clone());
        }
        i = i + 1;
    }
    assert(all.take(all.len() as int) =~= all);
    installed
}

/// The file that records which packs are installed
pub fn save_installed(installed: &Installed) -> (body: String)
    ensures
        body@ == text::as_lines(in_order(installed@)),
{
    let n = installed.len();
    let ghost keys = in_order(installed@);
    let mut body = String::new();
    let mut i: usize = 0;
    assert(body@ =~= text::as_lines(keys.take(0)));
    while i < n
        invariant
            i <= n,
            n == keys.len(),
            keys == in_order(installed@),
            body@ == text::as_lines(keys.take(i as int)),
        decreases n - i,
    {
        body.append(installed.key_at(i).as_str());
        body.append("\n");
        proof {
            text::as_lines_push(keys.take(i as int), keys[i as int]);
            assert(keys.take(i + 1) =~= keys.take(i as int).push(keys[i as int]));
        }
        i = i + 1;
    }
    assert(keys.take(keys.len() as int) =~= keys);
    body
}

/// Whether a key survives being written to a line of its own
pub open spec fn fits_a_line(key: Seq<char>) -> bool {
    key.len() > 0 && !key.contains('\n') && key.last() != '\r'
}

proof fn lines_read_back(keys: Seq<Seq<char>>)
    requires
        forall|i: int| 0 <= i < keys.len() ==> fits_a_line(#[trigger] keys[i]),
    ensures
        text::lines_of(text::as_lines(keys)) == keys,
    decreases keys.len(),
{
    if keys.len() == 0 {
        assert(text::lines_of(text::as_lines(keys)) =~= keys);
    } else {
        let rest = keys.drop_first();
        assert forall|i: int| 0 <= i < rest.len() implies fits_a_line(#[trigger] rest[i]) by {
            assert(rest[i] == keys[i + 1]);
        }
        assert(fits_a_line(keys[0]));
        lines_read_back(rest);
        text::lines_of_first(keys[0], text::as_lines(rest));
        assert(seq![keys[0]] + rest =~= keys);
    }
}

proof fn keys_in_contains(lines: Seq<Seq<char>>, key: Seq<char>)
    ensures
        keys_in(lines).contains(key) <==> key.len() > 0 && lines.contains(key),
    decreases lines.len(),
{
    if lines.len() > 0 {
        let init = lines.drop_last();
        keys_in_contains(init, key);
        assert(lines[lines.len() - 1] == lines.last());
        if lines.contains(key) {
            let i = choose|i: int| 0 <= i < lines.len() && lines[i] == key;
            if i < init.len() {
                assert(init[i] == key);
            }
        }
        if init.contains(key) {
            let i = choose|i: int| 0 <= i < init.len() && init[i] == key;
            assert(lines[i] == key);
        }
    }
}

/// What is saved of the installed packs is what is loaded, as long as every key fits a line
pub proof fn saved_packs_load_again(keys: Set<Seq<char>>)
    requires
        keys.finite(),
        forall|key: Seq<char>| #[trigger] keys.contains(key) ==> fits_a_line(key),
    ensures
        keys_in(text::lines_of(text::as_lines(in_order(keys)))) == keys,
{
    let map = marks(keys);
    assert(map.dom() =~= keys);
    refs::listing_exists(map);
    let pairs = refs::listing(map);
    let ordered = in_order(keys);
    assert forall|i: int| 0 <= i < ordered.len() implies fits_a_line(#[trigger] ordered[i]) by {
        assert(map.contains_key(pairs[i].0));
    }
    lines_read_back(ordered);
    assert forall|key: Seq<char>| keys_in(ordered).contains(key) <==> keys.contains(key) by {
        keys_in_contains(ordered, key);
        if keys.contains(key) {
            assert(map.contains_key(key));
            let i = choose|i: int| 0 <= i < pairs.len() && #[trigger] pairs[i].0 == key;
            assert(ordered[i] == key);
            assert(fits_a_line(key));
        }
        if ordered.contains(key) {
            let i = choose|i: int| 0 <= i < ordered.len() && ordered[i] == key;
            assert(map.contains_key(pairs[i].0));
        }
    }
    assert(keys_in(ordered) =~= keys);
}

/// A fetch under way
pub struct FetchView {
    /// The packs the index lists, in the order to install them
    pub packs: Seq<PackEntryView>,
    /// How many of them are dealt with
    pub at: int,
    pub installed: Set<Seq<char>>,
    /// How many of them were fetched
    pub fetched: int,
}

impl FetchView {
    /// Whether the packs dealt with are installed
    pub open spec fn is_valid(self, store: StoreView) -> bool {
        &&& 0 <= self.fetched <= self.at <= self.packs.len()
        &&& forall|i: int|
            0 <= i < self.at ==> self.installed.contains(
                store.installed_key((#[trigger] self.packs[i]).track),
            )
    }
}

/// The first pack at or behind a place that is not installed
pub open spec fn next_missing(
    packs: Seq<PackEntryView>,
    at: int,
    installed: Set<Seq<char>>,
    store: StoreView,
) -> int
    decreases packs.len() - at,
{
    if at < 0 || at >= packs.len() {
        packs.len() as int
    } else if installed.contains(store.installed_key(packs[at].track)) {
        next_missing(packs, at + 1, installed, store)
    } else {
        at
    }
}

/// What to do next about a fetch
#[derive(Debug)]
pub enum FetchAction {
    /// Tell the user this, then read a pack and install it
    Read(String, PackEntry),
    /// Write this to the file that records the installed packs, and finish
    Save(String),
    /// Nothing
    Finish,
}

/// What to do next about a fetch
pub enum FetchActionView {
    Read(Seq<char>, PackEntryView),
    Save(Seq<char>),
    Finish,
}

impl View for FetchAction {
    type V = FetchActionView;

    open spec fn view(&self) -> FetchActionView {
        match self {
            FetchAction::Read(notice, entry) => FetchActionView::Read(notice@, entry@),
            FetchAction::Save(body) => FetchActionView::Save(body@),
            FetchAction::Finish => FetchActionView::Finish,
        }
    }
}

/// What the user is told about a pack that is fetched
pub open spec fn fetch_notice(entry: PackEntryView) -> Seq<char> {
    "tape: fetching pack "@ + text::decimal_text(entry.track as nat) + " ("@ + text::decimal_text(
        entry.size as nat,
    ) + " bytes)"@
}

/// What to do next, and where the fetch stands then
pub open spec fn step(fetch: FetchView, store: StoreView) -> (FetchView, FetchActionView) {
    let at = next_missing(fetch.packs, fetch.at, fetch.installed, store);
    let reached = FetchView { at, ..fetch };
    if at < fetch.packs.len() {
        (reached, FetchActionView::Read(fetch_notice(fetch.packs[at]), fetch.packs[at]))
    } else if fetch.fetched > 0 {
        (reached, FetchActionView::Save(text::as_lines(in_order(fetch.installed))))
    } else {
        (reached, FetchActionView::Finish)
    }
}

/// Where a fetch stands once the pack that it was waiting for is installed
pub open spec fn after_install(fetch: FetchView, store: StoreView) -> FetchView {
    if 0 <= fetch.at < fetch.packs.len() {
        FetchView {
            at: fetch.at + 1,
            installed: fetch.installed.insert(store.installed_key(fetch.packs[fetch.at].track)),
            fetched: fetch.fetched + 1,
            ..fetch
        }
    } else {
        fetch
    }
}

/// A fetch under way
#[derive(Debug)]
pub struct Fetch {
    packs: Vec<PackEntry>,
    at: usize,
    installed: Installed,
    fetched: usize,
}

impl View for Fetch {
    type V = FetchView;

    closed spec fn view(&self) -> FetchView {
        FetchView {
            packs: index::entries(self.packs@),
            at: self.at as int,
            installed: self.installed@,
            fetched: self.fetched as int,
        }
    }
}

impl Fetch {
    #[verifier::type_invariant]
    closed spec fn is_consistent(&self) -> bool {
        self.fetched <= self.at <= self.packs@.len()
    }

    /// A fetch of everything an index lists
    pub fn new(index: &Index, installed: Installed) -> (fetch: Fetch)
        ensures
            fetch@ == (FetchView {
                packs: index@.packs,
                at: 0,
                installed: installed@,
                fetched: 0,
            }),
    {
        Fetch { packs: index::copy_packs(&index.packs), at: 0, installed, fetched: 0 }
    }

    /// What to do next
    pub fn next(self, store: &Store) -> (result: (Fetch, FetchAction))
        ensures
            (result.0@, result.1@) == step(self@, store@),
    {
        proof {
            use_type_invariant(&self);
        }
        let Fetch { packs, at, installed, fetched } = self;
        let ghost entries = index::entries(packs@);
        let ghost start = at as int;
        let mut at = at;
        while at < packs.len()
            invariant_except_break
                start <= at <= packs@.len(),
                entries == index::entries(packs@),
                next_missing(entries, start, installed@, store@) == next_missing(
                    entries,
                    at as int,
                    installed@,
                    store@,
                ),
            ensures
                start <= at <= packs@.len(),
                at == next_missing(entries, start, installed@, store@),
            decreases packs.len() - at,
        {
            assert(entries[at as int] == packs@[at as int]@);
            let key = store.installed_key(packs[at].track);
            if !installed.contains(key.as_str()) {
                break;
            }
            at = at + 1;
        }
        if at < packs.len() {
            let entry = packs[at].clone();
            let mut notice = text::concat(
                "tape: fetching pack ",
                text::decimal(entry.track).as_str(),
            );
            notice.append(" (");
            notice.append(text::decimal(entry.size).as_str());
            notice.append(" bytes)");
            (Fetch { packs, at, installed, fetched }, FetchAction::Read(notice, entry))
        } else if fetched > 0 {
            let body = save_installed(&installed);
            (Fetch { packs, at, installed, fetched }, FetchAction::Save(body))
        } else {
            (Fetch { packs, at, installed, fetched }, FetchAction::Finish)
        }
    }

    /// Take in that the pack it was waiting for is installed
    pub fn install(self, store: &Store) -> (fetch: Fetch)
        ensures
            fetch@ == after_install(self@, store@),
    {
        proof {
            use_type_invariant(&self);
        }
        let Fetch { packs, at, installed, fetched } = self;
        if at >= packs.len() {
            return Fetch { packs, at, installed, fetched };
        }
        assert(index::entries(packs@)[at as int] == packs@[at as int]@);
        let key = store.installed_key(packs[at].track);
        Fetch { packs, at: at + 1, installed: installed.insert(key), fetched: fetched + 1 }
    }
}

/// The git that installs a fetched pack, none when the pack carries nothing
pub fn install_process(repository: &Repository, pack: &[u8]) -> (process: Option<Process>)
    ensures
        process is Some <==> git::object_count(pack@) > 0,
        process is Some ==> process->0.input@ == pack@ && process->0.what@ == "git index-pack"@
            && text::views(process->0.arguments@) == seq![
            "index-pack"@,
            "--stdin"@,
            "--fix-thin"@,
        ],
{
    if git::pack_object_count(pack) > 0 {
        Some(repository.index_pack(pack))
    } else {
        None
    }
}

proof fn next_missing_parts(
    packs: Seq<PackEntryView>,
    at: int,
    installed: Set<Seq<char>>,
    store: StoreView,
)
    requires
        0 <= at <= packs.len(),
    ensures
        ({
            let next = next_missing(packs, at, installed, store);
            &&& at <= next <= packs.len()
            &&& forall|i: int|
                at <= i < next ==> installed.contains(
                    store.installed_key((#[trigger] packs[i]).track),
                )
            &&& next < packs.len() ==> !installed.contains(
                store.installed_key(packs[next].track),
            )
        }),
    decreases packs.len() - at,
{
    if at < packs.len() && installed.contains(store.installed_key(packs[at].track)) {
        next_missing_parts(packs, at + 1, installed, store);
    }
}

/// A fetch only reads packs that are not installed, in the order of the index, and does not
/// finish before every pack of the index is installed
pub proof fn fetches_are_incremental(fetch: FetchView, store: StoreView)
    requires
        fetch.is_valid(store),
    ensures
        step(fetch, store).0.is_valid(store),
        after_install(step(fetch, store).0, store).is_valid(store),
        fetch.at <= step(fetch, store).0.at <= after_install(step(fetch, store).0, store).at,
        match step(fetch, store).1 {
            FetchActionView::Read(_, entry) => entry == fetch.packs[step(fetch, store).0.at]
                && !fetch.installed.contains(store.installed_key(entry.track)),
            _ => forall|i: int|
                0 <= i < fetch.packs.len() ==> fetch.installed.contains(
                    store.installed_key((#[trigger] fetch.packs[i]).track),
                ),
        },
{
    next_missing_parts(fetch.packs, fetch.at, fetch.installed, store);
}

/// Fetching again what is installed already does nothing
pub proof fn fetching_again_does_nothing(
    packs: Seq<PackEntryView>,
    installed: Set<Seq<char>>,
    store: StoreView,
)
    requires
        forall|i: int|
            0 <= i < packs.len() ==> installed.contains(
                store.installed_key((#[trigger] packs[i]).track),
            ),
    ensures
        step(FetchView { packs, at: 0, installed, fetched: 0 }, store).1 is Finish,
{
    next_missing_parts(packs, 0, installed, store);
}

/// What a fetch installs stays installed
pub proof fn installing_forgets_nothing(fetch: FetchView, store: StoreView, key: Seq<char>)
    requires
        fetch.installed.contains(key),
    ensures
        after_install(fetch, store).installed.contains(key),
        step(fetch, store).0.installed.contains(key),
{
}

/// A path under a directory
pub open spec fn path_under(directory: Seq<char>, path: Seq<char>) -> Seq<char> {
    if directory.len() == 0 || directory.last() == '/' {
        directory + path
    } else {
        directory + "/"@ + path
    }
}

/// A pack that is noted as installed is still known to be after a save and a load, along with
/// all that were noted before
pub proof fn installed_packs_are_remembered(
    keys: Set<Seq<char>>,
    store: StoreView,
    track: u64,
)
    requires
        store.is_named(),
        keys.finite(),
        forall|key: Seq<char>| #[trigger] keys.contains(key) ==> fits_a_line(key),
    ensures
        ({
            let after = keys.insert(store.installed_key(track));
            keys_in(text::lines_of(text::as_lines(in_order(after)))) == after
        }),
{
    store::installed_keys_fit_a_line(store, track);
    saved_packs_load_again(keys.insert(store.installed_key(track)));
}

/// Where the installed packs are recorded
pub fn installed_path(repository: &Repository) -> (path: Result<String, String>)
    ensures
        match (path, repository@.git(git::git_dir_words())) {
            (Ok(path), Ok(directory)) => path@ == path_under(directory, "tape/installed-packs"@),
            (Err(message), Err(trouble)) => message@ == trouble,
            _ => false,
        },
{
    match repository.git_dir() {
        Ok(directory) => {
            let chars = text::chars_of(directory.as_str());
            if chars.len() == 0 || chars[chars.len() - 1] == '/' {
                return Ok(text::concat(directory.as_str(), INSTALLED_PACKS));
            }
            let mut path = text::concat(directory.as_str(), "/");
            path.append(INSTALLED_PACKS);
            Ok(path)
        },
        Err(trouble) => Err(trouble),
    }
}

/// The keys that are loaded are the lines that are not blank
pub proof fn loaded_keys_are_the_lines(lines: Seq<Seq<char>>, key: Seq<char>)
    ensures
        keys_in(lines).contains(key) <==> key.len() > 0 && lines.contains(key),
{
    keys_in_contains(lines, key);
}

/// Keys in order are the keys, each of them once, by name
pub proof fn ordered_keys_are_the_keys(keys: Set<Seq<char>>, key: Seq<char>)
    requires
        keys.finite(),
    ensures
        in_order(keys).contains(key) <==> keys.contains(key),
        forall|i: int, j: int|
            0 <= i < j < in_order(keys).len() ==> text::precedes(
                #[trigger] in_order(keys)[i],
                #[trigger] in_order(keys)[j],
            ),
{
    let map = marks(keys);
    assert(map.dom() =~= keys);
    refs::listing_exists(map);
    let pairs = refs::listing(map);
    let ordered = in_order(keys);
    if keys.contains(key) {
        assert(map.contains_key(key));
        let i = choose|i: int| 0 <= i < pairs.len() && #[trigger] pairs[i].0 == key;
        assert(ordered[i] == key);
    }
    if ordered.contains(key) {
        let i = choose|i: int| 0 <= i < ordered.len() && ordered[i] == key;
        assert(map.contains_key(pairs[i].0));
    }
    assert forall|i: int, j: int| 0 <= i < j < ordered.len() implies text::precedes(
        #[trigger] ordered[i],
        #[trigger] ordered[j],
    ) by {
        assert(text::precedes(pairs[i].0, pairs[j].0));
    }
}

/// A fetch that has installed a pack and has none left to read saves what is installed, in a text
/// that loads as just that; one that has installed none leaves the record alone, and no fetch
/// ends otherwise
pub proof fn fetched_packs_are_saved(fetch: FetchView, store: StoreView)
    requires
        fetch.is_valid(store),
        fetch.installed.finite(),
        forall|key: Seq<char>| #[trigger]
            fetch.installed.contains(key) ==> key.len() > 0 && !key.contains('\n') && key.last()
                != '\r',
    ensures
        ({
            let action = step(fetch, store).1;
            let nothing_left = forall|i: int|
                fetch.at <= i < fetch.packs.len() ==> fetch.installed.contains(
                    store.installed_key((#[trigger] fetch.packs[i]).track),
                );
            &&& nothing_left && fetch.fetched >= 1 <==> action is Save
            &&& nothing_left && fetch.fetched == 0 <==> action is Finish
            &&& action matches FetchActionView::Save(body) ==> {
                &&& keys_in(text::lines_of(body)) == fetch.installed
                &&& forall|key: Seq<char>| #[trigger]
                    text::lines_of(body).contains(key) <==> fetch.installed.contains(key)
            }
        }),
{
    next_missing_parts(fetch.packs, fetch.at, fetch.installed, store);
    let keys = fetch.installed;
    saved_packs_load_again(keys);
    let ordered = in_order(keys);
    assert forall|i: int| 0 <= i < ordered.len() implies fits_a_line(#[trigger] ordered[i]) by {
        assert(ordered.contains(ordered[i]));
        ordered_keys_are_the_keys(keys, ordered[i]);
    }
    lines_read_back(ordered);
    assert forall|key: Seq<char>| #[trigger]
        text::lines_of(text::as_lines(ordered)).contains(key) <==> keys.contains(key) by {
        ordered_keys_are_the_keys(keys, key);
    }
}

/// A fetch reads the first pack of the index, from where it stands, that is not installed, says
/// which one and how long it is, and touches nothing else
pub proof fn missing_packs_are_read(fetch: FetchView, store: StoreView, i: int)
    requires
        fetch.is_valid(store),
        fetch.at <= i < fetch.packs.len(),
        !fetch.installed.contains(store.installed_key(fetch.packs[i].track)),
        forall|j: int|
            fetch.at <= j < i ==> fetch.installed.contains(
                store.installed_key((#[trigger] fetch.packs[j]).track),
            ),
    ensures
        ({
            let (next, action) = step(fetch, store);
            &&& action is Read
            &&& action->Read_1 == fetch.packs[i]
            &&& text_laws::mentions(
                action->Read_0,
                text::decimal_text(fetch.packs[i].track as nat),
            )
            &&& text_laws::mentions(action->Read_0, text::decimal_text(fetch.packs[i].size as nat))
            &&& next.at == i
        }),
{
    next_missing_parts(fetch.packs, fetch.at, fetch.installed, store);
    let next = next_missing(fetch.packs, fetch.at, fetch.installed, store);
    if next < i {
        assert(fetch.installed.contains(store.installed_key(fetch.packs[next].track)));
    }
    if i < next {
        assert(fetch.installed.contains(store.installed_key(fetch.packs[i].track)));
    }
    let track = text::decimal_text(fetch.packs[i].track as nat);
    let size = text::decimal_text(fetch.packs[i].size as nat);
    let notice = fetch_notice(fetch.packs[i]);
    text_laws::mentioned(notice, "tape: fetching pack "@, track, " ("@ + size + " bytes)"@);
    text_laws::mentioned(
        notice,
        "tape: fetching pack "@ + track + " ("@,
        size,
        " bytes)"@,
    );
}

/// Asking a fetch what to do changes neither its packs nor what is installed, and noting that
/// the pack it waits for is installed adds that pack, and no other, and counts it
pub proof fn installing_adds_one_pack(fetch: FetchView, store: StoreView, key: Seq<char>)
    requires
        0 <= fetch.at < fetch.packs.len(),
    ensures
        ({
            let asked = step(fetch, store).0;
            let after = after_install(fetch, store);
            &&& asked.packs == fetch.packs
            &&& asked.installed == fetch.installed
            &&& asked.fetched == fetch.fetched
            &&& after.packs == fetch.packs
            &&& after.at == fetch.at + 1
            &&& after.fetched == fetch.fetched + 1
            &&& after.installed.contains(key) <==> fetch.installed.contains(key) || key
                == store.installed_key(fetch.packs[fetch.at].track)
        }),
{
}

/// A fetch that waits for no pack takes in none
pub proof fn finished_fetches_install_nothing(fetch: FetchView, store: StoreView)
    requires
        fetch.at >= fetch.packs.len(),
    ensures
        after_install(fetch, store) == fetch,
{
}

/// A path under a directory is the two with a slash between them, one that the directory ends in
/// already counting; under no directory it is the path alone
pub proof fn paths_have_one_slash(directory: Seq<char>, path: Seq<char>)
    ensures
        path_under(seq![], path) == path,
        path_under(directory.push('/'), path) == directory.push('/') + path,
        directory.len() > 0 && directory.last() != '/' ==> path_under(directory, path)
            == directory.push('/') + path,
{
    reveal_strlit("/");
    assert("/"@ =~= seq!['/']);
    assert(path_under(seq![], path) =~= path);
    assert(directory + "/"@ + path =~= directory.push('/') + path);
}

} // verus!
