//! Tapedrive side of the helper: which tape it is, what may be done with it, and what is
//! said when something goes wrong
//!
//! Talking to the network is left to the caller, as is looking for key files. What they
//! came back with is handed in here.

use vstd::prelude::*;

use crate::crypto;
use crate::index;
use crate::index::{Index, IndexView, PackEntry, INDEX_CONTENT_TYPE, INDEX_NAME};
use crate::encoding;
use crate::encoding::{DecodeError, DecodeErrorView, EncodeError};
use crate::json;
use crate::text;
use crate::text_laws;
use crate::track::TrackNumber;

verus! {

pub const DEFAULT_RPC: &'static str = "https://api.devnet.solana.com";

/// Where the `tape` CLI files a tape keypair, relative to the home directory
pub const CASSETTE_DIR: &'static str = ".tape/cassettes";

/// Where the solana CLI keeps its default keypair, relative to the home directory
pub const SOLANA_KEYPAIR: &'static str = ".config/solana/id.json";

/// Track-listing page size when enumerating index versions
pub const TRACK_PAGE_SIZE: u32 = 1_000;

/// What is said of a track that a listing has not caught up with
pub const NOT_LISTED: &'static str =
    ", but no storage node lists it yet, so the ref index cannot be merged safely. Nothing was lost, every object and every index version is still stored, and the push will go through if you retry it in a moment";

/// Where to look for a key file
#[derive(Debug)]
pub enum KeySource {
    /// At a configured path, where it has to be
    Configured(String),
    /// At a path under the home directory, where it may be
    Home(String),
}

/// Where to look for a key file
pub enum KeySourceView {
    Configured(Seq<char>),
    Home(Seq<char>),
}

impl View for KeySource {
    type V = KeySourceView;

    open spec fn view(&self) -> KeySourceView {
        match self {
            KeySource::Configured(path) => KeySourceView::Configured(path@),
            KeySource::Home(path) => KeySourceView::Home(path@),
        }
    }
}

/// What looking for a key file came to
#[derive(Debug)]
pub enum KeyFile<K> {
    /// There is no such file, nor a home directory to look in
    Absent,
    /// The file at this path could not be loaded, for this reason
    Unreadable(String, String),
    /// It holds this key
    Loaded(K),
}

impl<K> KeyFile<K> {
    /// Why there is no key
    pub open spec fn trouble(self) -> Seq<char> {
        match self {
            KeyFile::Unreadable(_, reason) => reason@,
            _ => "no such file"@,
        }
    }

    fn reason(&self) -> (reason: String)
        ensures
            reason@ == self.trouble(),
    {
        match self {
            KeyFile::Unreadable(_, reason) => reason.clone(),
            _ => "no such file".to_owned(),
        }
    }
}

/// The RPC endpoint to use
pub fn rpc_url(configured: Option<String>) -> (url: String)
    ensures
        url@ == match configured {
            Some(url) => url@,
            None => "https://api.devnet.solana.com"@,
        },
{
    match configured {
        Some(url) => url,
        None => DEFAULT_RPC.to_owned(),
    }
}

/// The gateway to use, if one is configured
pub fn gateway_url(configured: Option<String>) -> (url: Option<String>)
    ensures
        text::opt_view(url) == match configured {
            Some(url) => if text::trimmed(url@).len() > 0 {
                Some(text::trimmed(url@))
            } else {
                None
            },
            None => None,
        },
{
    match configured {
        Some(url) => {
            let url = text::trim(url.as_str());
            if url.is_empty() {
                None
            } else {
                Some(url.to_owned())
            }
        },
        None => None,
    }
}

/// Where to look for a fee payer
pub fn payer_source(configured: Option<String>) -> (source: KeySource)
    ensures
        source@ == match configured {
            Some(path) => KeySourceView::Configured(path@),
            None => KeySourceView::Home(".config/solana/id.json"@),
        },
{
    match configured {
        Some(path) => KeySource::Configured(path),
        None => KeySource::Home(SOLANA_KEYPAIR.to_owned()),
    }
}

/// A tape to read from, and perhaps to write to
#[derive(Debug)]
pub struct Store {
    /// The tape address parsed out of the `tape://` url
    bucket: [u8; 32],
    /// How that address is written
    name: String,
    /// Whether we hold the tape's key, which is what makes a remote pushable. Reads
    /// never need it.
    has_cassette: bool,
    /// Whether a fee payer was found. Reads do not need one, writes do.
    has_payer: bool,
}

/// A tape to read from, and perhaps to write to
pub struct StoreView {
    pub bucket: [u8; 32],
    pub has_cassette: bool,
    pub has_payer: bool,
}

impl StoreView {
    /// How the tape's address is written
    pub open spec fn name(self) -> Seq<char> {
        crypto::address_text(self.bucket)
    }

    /// Whether the tape's address reads back from how it is written, which is one line
    pub open spec fn is_named(self) -> bool {
        crypto::address_bytes(self.name()) == Some(self.bucket) && !self.name().contains('\n')
    }

    /// What stands in the way of a push
    pub open spec fn obstacle(self) -> Option<Seq<char>> {
        if !self.has_payer {
            Some(
                "pushing needs a fee payer: set TAPE_KEYPAIR or create ~/"@
                    + ".config/solana/id.json"@ + " (cloning this remote needs neither)"@,
            )
        } else if !self.has_cassette {
            Some(
                "no tape keypair for "@ + self.name() + ": set TAPE_CASSETTE or place it at ~/"@
                    + cassette_path(self.bucket) + " to push"@,
            )
        } else {
            None
        }
    }

    /// Identity of a pack among the installed ones
    pub open spec fn installed_key(self, track: u64) -> Seq<char> {
        self.name() + ":"@ + text::decimal_text(track as nat)
    }
}

/// Where the `tape` CLI files the key of a tape, relative to the home directory
pub open spec fn cassette_path(bucket: [u8; 32]) -> Seq<char> {
    ".tape/cassettes"@ + "/"@ + crypto::address_text(bucket) + ".json"@
}

impl View for Store {
    type V = StoreView;

    closed spec fn view(&self) -> StoreView {
        StoreView {
            bucket: self.bucket,
            has_cassette: self.has_cassette,
            has_payer: self.has_payer,
        }
    }
}

impl Store {
    #[verifier::type_invariant]
    closed spec fn is_consistent(&self) -> bool {
        &&& self.name@ == crypto::address_text(self.bucket)
        &&& self@.is_named()
    }

    /// The tape of `tape://<bucket>`, read-only as long as no key is found
    pub fn open(bucket: &str) -> (store: Result<Store, String>)
        ensures
            match store {
                Ok(store) => crypto::address_bytes(bucket@) == Some(store@.bucket)
                    && !store@.has_cassette && !store@.has_payer && store@.is_named(),
                Err(message) => crypto::address_bytes(bucket@) is None && message@ == "`"@ + bucket@
                    + "` is not a tape address"@,
            },
    {
        match crypto::parse_address(bucket) {
            Some(address) => {
                let name = crypto::show_address(&address);
                Ok(Store { bucket: address, name, has_cassette: false, has_payer: false })
            },
            None => {
                let mut message = text::concat("`", bucket);
                message.append("` is not a tape address");
                Err(message)
            },
        }
    }

    /// The tape's address
    pub fn bucket(&self) -> (bucket: &[u8; 32])
        ensures
            *bucket == self@.bucket,
            self@.is_named(),
    {
        proof {
            use_type_invariant(self);
        }
        &self.bucket
    }

    fn cassette_file(&self) -> (path: String)
        ensures
            path@ == cassette_path(self@.bucket),
    {
        proof {
            use_type_invariant(self);
        }
        let mut path = text::concat(CASSETTE_DIR, "/");
        path.append(self.name.as_str());
        path.append(".json");
        path
    }

    /// Where to look for the tape's own key
    pub fn cassette_source(&self, configured: Option<String>) -> (source: KeySource)
        ensures
            source@ == match configured {
                Some(path) => KeySourceView::Configured(path@),
                None => KeySourceView::Home(cassette_path(self@.bucket)),
            },
    {
        match configured {
            Some(path) => KeySource::Configured(path),
            None => KeySource::Home(self.cassette_file()),
        }
    }

    /// Take in what looking for a fee payer came to
    ///
    /// Cloning needs no keypair at all, since reads are public with no stake and no
    /// account, so absence downgrades the remote to read-only rather than failing.
    /// Requiring one here would mean nobody could clone without first installing a
    /// Solana wallet they never spend from. An explicitly configured path is
    /// different, because a bad value there is a mistake worth reporting rather than
    /// something to silently ignore.
    pub fn found_payer(&mut self, source: &KeySource, file: &KeyFile<()>) -> (result: Result<
        (),
        String,
    >)
        ensures
            match result {
                Ok(_) => !(source is Configured && !(file is Loaded)) && final(self)@ == (
                StoreView { has_payer: file is Loaded, ..old(self)@ }),
                Err(message) => source is Configured && !(file is Loaded) && message@
                    == "payer keypair "@ + source->Configured_0@ + ": "@ + file.trouble()
                    && final(self)@ == old(self)@,
            },
    {
        proof {
            use_type_invariant(&*self);
        }
        if let KeyFile::Loaded(_) = file {
            self.has_payer = true;
            return Ok(());
        }
        if let KeySource::Configured(path) = source {
            return Err(key_trouble("payer keypair ", path.as_str(), file.reason().as_str()));
        }
        self.has_payer = false;
        Ok(())
    }

    /// Take in what looking for the tape's own key came to
    ///
    /// Only a key that nothing was configured for may be missing. A cassette for a
    /// different tape would write to the wrong bucket and silently produce a remote that
    /// never shows the pushed refs.
    pub fn found_cassette(&mut self, source: &KeySource, file: &KeyFile<[u8; 32]>) -> (result:
        Result<(), String>)
        ensures
            match result {
                Ok(_) => {
                    &&& match file {
                        KeyFile::Absent => source is Home,
                        KeyFile::Unreadable(_, _) => false,
                        KeyFile::Loaded(address) => *address == old(self)@.bucket,
                    }
                    &&& final(self)@ == (StoreView { has_cassette: file is Loaded, ..old(self)@ })
                },
                Err(message) => final(self)@ == old(self)@ && match (source, file) {
                    (_, KeyFile::Loaded(address)) => *address != old(self)@.bucket && message@
                        == "tape keypair controls "@ + crypto::address_text(*address)
                        + " but the remote is "@ + old(self)@.name(),
                    (KeySource::Configured(path), _) => message@ == "tape keypair "@ + path@
                        + ": "@ + file.trouble(),
                    (KeySource::Home(_), KeyFile::Unreadable(path, reason)) => message@
                        == "tape keypair "@ + path@ + ": "@ + reason@,
                    (KeySource::Home(_), KeyFile::Absent) => false,
                },
            },
    {
        proof {
            use_type_invariant(&*self);
        }
        if let KeyFile::Loaded(address) = file {
            if !same_address(address, &self.bucket) {
                let mut message = text::concat(
                    "tape keypair controls ",
                    crypto::show_address(address).as_str(),
                );
                message.append(" but the remote is ");
                message.append(self.name.as_str());
                return Err(message);
            }
            self.has_cassette = true;
            return Ok(());
        }
        if let KeySource::Configured(path) = source {
            return Err(key_trouble("tape keypair ", path.as_str(), file.reason().as_str()));
        }
        if let KeyFile::Unreadable(path, reason) = file {
            return Err(key_trouble("tape keypair ", path.as_str(), reason.as_str()));
        }
        self.has_cassette = false;
        Ok(())
    }

    /// Identity for a pack in `.git/tape/installed-packs`
    ///
    /// Scoped by bucket so a repo with two `tape://` remotes cannot confuse one
    /// remote's track numbers for the other's.
    pub fn installed_key(&self, track: u64) -> (key: String)
        ensures
            key@ == self@.installed_key(track),
            self@.is_named(),
    {
        proof {
            use_type_invariant(self);
        }
        let mut key = text::concat(self.name.as_str(), ":");
        key.append(text::decimal(track).as_str());
        key
    }

    /// Whether we can push, with a diagnosis when we cannot
    pub fn writable(&self) -> (result: Result<(), String>)
        ensures
            match result {
                Ok(_) => self@.obstacle() is None,
                Err(message) => self@.obstacle() == Some(message@),
            },
            result is Ok <==> self@.has_payer && self@.has_cassette,
    {
        proof {
            use_type_invariant(self);
        }
        if !self.has_payer {
            let mut message = text::concat(
                "pushing needs a fee payer: set TAPE_KEYPAIR or create ~/",
                SOLANA_KEYPAIR,
            );
            message.append(" (cloning this remote needs neither)");
            return Err(message);
        }
        if !self.has_cassette {
            let mut message = text::concat("no tape keypair for ", self.name.as_str());
            message.append(": set TAPE_CASSETTE or place it at ~/");
            message.append(self.cassette_file().as_str());
            message.append(" to push");
            return Err(message);
        }
        Ok(())
    }

    /// The address a track of this tape is kept under
    pub fn track_address(&self, track: TrackNumber) -> (address: [u8; 32])
        ensures
            address == crypto::track_address_bytes(self@.bucket, track.0),
    {
        crypto::derive_track(&self.bucket, track.0)
    }
}

fn key_trouble(what: &str, path: &str, reason: &str) -> (message: String)
    ensures
        message@ == what@ + path@ + ": "@ + reason@,
{
    let mut message = text::concat(what, path);
    message.append(": ");
    message.append(reason);
    message
}

pub(crate) fn same_address(a: &[u8; 32], b: &[u8; 32]) -> (equal: bool)
    ensures
        equal == (*a == *b),
{
    let mut i: usize = 0;
    while i < 32
        invariant
            i <= 32,
            forall|k: int| 0 <= k < i ==> a@[k] == b@[k],
        decreases 32 - i,
    {
        if a[i] != b[i] {
            return false;
        }
        i = i + 1;
    }
    assert(a@ =~= b@);
    assert(*a =~= *b);
    true
}

/// What is said of a listing that has not caught up with the chain
pub open spec fn not_listed_text(track: TrackNumber) -> Seq<char> {
    "this tape reaches track "@ + text::decimal_text(track.0 as nat) + NOT_LISTED@
}

/// Error for a listing that has not caught up with the chain
pub fn not_listed(track: TrackNumber) -> (message: String)
    ensures
        message@ == not_listed_text(track),
{
    let mut message = text::concat("this tape reaches track ", text::decimal(track.0).as_str());
    message.append(NOT_LISTED);
    message
}

/// Whether an RPC error category says that an account is not visible yet
pub fn is_account_propagation_category(category: &str) -> (propagating: bool)
    ensures
        propagating == (category@ == "not_found"@),
{
    text::same(category, "not_found")
}

/// A number in decimal is digits only, and at least one
proof fn decimal_is_digits(n: nat)
    ensures
        text::decimal_text(n).len() > 0,
        forall|i: int|
            0 <= i < text::decimal_text(n).len() ==> '0' <= #[trigger] text::decimal_text(n)[i]
                <= '9',
    decreases n,
{
    if n >= 10 {
        decimal_is_digits(n / 10);
        let init = text::decimal_text(n / 10);
        assert(text::decimal_text(n) =~= init.push(text::digit(n % 10)));
    }
}

proof fn digit_is_injective(a: nat, b: nat)
    requires
        a < 10,
        b < 10,
        text::digit(a) == text::digit(b),
    ensures
        a == b,
{
}

/// Different numbers are written differently
proof fn decimal_is_injective(a: nat, b: nat)
    requires
        text::decimal_text(a) == text::decimal_text(b),
    ensures
        a == b,
    decreases a,
{
    decimal_is_digits(a / 10);
    decimal_is_digits(b / 10);
    let s = text::decimal_text(a);
    let t = text::decimal_text(b);
    if a < 10 && b < 10 {
        assert(s == seq![text::digit(a)]);
        assert(t == seq![text::digit(b)]);
        assert(s[0] == text::digit(a) && t[0] == text::digit(b));
        digit_is_injective(a, b);
    } else if a >= 10 && b >= 10 {
        assert(s == text::decimal_text(a / 10).push(text::digit(a % 10)));
        assert(t == text::decimal_text(b / 10).push(text::digit(b % 10)));
        assert(s.last() == text::digit(a % 10) && t.last() == text::digit(b % 10));
        digit_is_injective(a % 10, b % 10);
        assert(s.drop_last() =~= text::decimal_text(a / 10));
        assert(t.drop_last() =~= text::decimal_text(b / 10));
        decimal_is_injective(a / 10, b / 10);
    } else if a < 10 {
        assert(s == seq![text::digit(a)]);
        assert(t == text::decimal_text(b / 10).push(text::digit(b % 10)));
        assert(s.len() < t.len());
    } else {
        assert(s == text::decimal_text(a / 10).push(text::digit(a % 10)));
        assert(t == seq![text::digit(b)]);
        assert(t.len() < s.len());
    }
}

/// Two texts that end in a colon and digits alike are the same before the colon, and have the
/// same digits
proof fn last_colon_splits(a: Seq<char>, x: Seq<char>, b: Seq<char>, y: Seq<char>)
    requires
        a + ":"@ + x == b + ":"@ + y,
        forall|i: int| 0 <= i < x.len() ==> #[trigger] x[i] != ':',
        forall|i: int| 0 <= i < y.len() ==> #[trigger] y[i] != ':',
    ensures
        a == b,
        x == y,
{
    reveal_strlit(":");
    let s = a + ":"@ + x;
    let t = b + ":"@ + y;
    assert(":"@.len() == 1);
    assert(s.len() == a.len() + 1 + x.len());
    assert(t.len() == b.len() + 1 + y.len());
    assert(s[a.len() as int] == ':');
    assert(t[b.len() as int] == ':');
    if a.len() < b.len() {
        assert(s[b.len() as int] == x[b.len() - a.len() - 1]);
    } else if b.len() < a.len() {
        assert(t[a.len() as int] == y[a.len() - b.len() - 1]);
    }
    assert(a.len() == b.len());
    assert(s.take(a.len() as int) =~= a);
    assert(t.take(b.len() as int) =~= b);
    assert(s.skip(a.len() as int + 1) =~= x);
    assert(t.skip(b.len() as int + 1) =~= y);
}

/// No two packs share an identity, whichever tapes they are on, so a repository with two
/// `tape://` remotes cannot confuse one remote's track numbers for the other's
pub proof fn installed_keys_differ(a: StoreView, b: StoreView, x: u64, y: u64)
    requires
        a.is_named(),
        b.is_named(),
        a.installed_key(x) == b.installed_key(y),
    ensures
        a.bucket == b.bucket,
        x == y,
{
    decimal_is_digits(x as nat);
    decimal_is_digits(y as nat);
    last_colon_splits(
        a.name(),
        text::decimal_text(x as nat),
        b.name(),
        text::decimal_text(y as nat),
    );
    decimal_is_injective(x as nat, y as nat);
}

/// The identity of a pack is one line, and not a blank one
pub proof fn installed_keys_fit_a_line(store: StoreView, track: u64)
    requires
        store.is_named(),
    ensures
        store.installed_key(track).len() > 0,
        !store.installed_key(track).contains('\n'),
        store.installed_key(track).last() != '\r',
{
    reveal_strlit(":");
    let digits = text::decimal_text(track as nat);
    let name = store.name();
    let key = store.installed_key(track);
    decimal_is_digits(track as nat);
    assert(key.last() == digits[digits.len() - 1]);
    if key.contains('\n') {
        let i = choose|i: int| 0 <= i < key.len() && key[i] == '\n';
        if i < name.len() {
            assert(name[i] == '\n');
        } else if i > name.len() {
            assert(key[i] == digits[i - name.len() - 1]);
        } else {
            assert(key[i] == ':');
        }
    }
}

/// The entry for a pack that was stored as one track
pub open spec fn pack_entry(pack: Seq<u8>, track: TrackNumber) -> index::PackEntryView {
    index::PackEntryView {
        track: track.0,
        size: pack.len() as u64,
        digest: index::pack_digest(pack),
        stream: false,
    }
}

/// What is said of a pack that could not be stored
pub open spec fn pack_trouble(pack: Seq<u8>, reason: Seq<char>) -> Seq<char> {
    "write pack ("@ + text::decimal_text(pack.len()) + " bytes): "@ + reason
}

/// A write to a named object
#[derive(Debug)]
pub struct NamedWrite {
    pub name: String,
    pub content_type: String,
    pub bytes: Vec<u8>,
}

impl Store {
    /// The entry for a pack that was stored as an unnamed, content-addressed track
    ///
    /// Unnamed writes key on `hash(payload)`, or the erasure-coding commitment once
    /// past the inline size, so identical packs are the same track and never appear
    /// in the bucket's object listing.
    pub fn write_pack(&self, pack: &[u8], written: Result<TrackNumber, String>) -> (entry: Result<
        PackEntry,
        String,
    >)
        ensures
            match entry {
                Ok(entry) => {
                    &&& self@.obstacle() is None
                    &&& written is Ok
                    &&& entry@ == pack_entry(pack@, written->Ok_0)
                    &&& entry@.describes(pack@)
                },
                Err(message) => match self@.obstacle() {
                    Some(obstacle) => message@ == obstacle,
                    None => written is Err && message@ == pack_trouble(pack@, written->Err_0@),
                },
            },
    {
        if let Err(obstacle) = self.writable() {
            return Err(obstacle);
        }
        match written {
            Ok(track) => {
                let entry = PackEntry {
                    track: track.0,
                    size: pack.len() as u64,
                    digest: index::digest(pack),
                    stream: false,
                };
                proof {
                    index::recorded_digest_matches(entry@, pack@);
                }
                Ok(entry)
            },
            Err(reason) => {
                let mut message = text::concat(
                    "write pack (",
                    text::decimal(pack.len() as u64).as_str(),
                );
                message.append(" bytes): ");
                message.append(reason.as_str());
                Err(message)
            },
        }
    }

    /// What to write to publish a new version of the ref index
    ///
    /// Whoever reads it decodes the index it was written from.
    pub fn write_index(&self, index: &Index) -> (write: Result<NamedWrite, String>)
        ensures
            match write {
                Ok(write) => {
                    &&& self@.obstacle() is None
                    &&& write.name@ == "git/refs.json"@
                    &&& write.content_type@ == "application/json"@
                    &&& write.bytes@ == json::document_text(encoding::index_tree(index@))
                    &&& encoding::decoded(write.bytes@) == Ok::<IndexView, DecodeErrorView>(index@)
                },
                Err(message) => self@.obstacle() == Some(message@),
            },
    {
        if let Err(obstacle) = self.writable() {
            return Err(obstacle);
        }
        match index.encode() {
            Ok(bytes) => Ok(
                NamedWrite {
                    name: INDEX_NAME.to_owned(),
                    content_type: INDEX_CONTENT_TYPE.to_owned(),
                    bytes,
                },
            ),
            Err(EncodeError::NotWritten) => Err("the ref index could not be encoded".to_owned()),
        }
    }
}

/// What is said of a ref index that could not be written
pub fn index_not_written(reason: &str) -> (message: String)
    ensures
        message@ == "write ref index: "@ + reason@,
{
    text::concat("write ref index: ", reason)
}

/// The ref index in some proven bytes
pub fn decode_index(bytes: &[u8]) -> (index: Result<Index, String>)
    ensures
        match index {
            Ok(index) => encoding::decoded(bytes@) == Ok::<IndexView, DecodeErrorView>(index@),
            Err(message) => match encoding::decoded(bytes@) {
                Ok(_) => false,
                Err(DecodeErrorView::NotJson(trouble)) => message@ == "decode ref index: "@
                    + trouble,
                Err(DecodeErrorView::NotAnIndex) => message@
                    == "decode ref index: not a ref index"@,
            },
        },
{
    match Index::decode(bytes) {
        Ok(index) => Ok(index),
        Err(DecodeError::NotJson(trouble)) => Err(
            text::concat("decode ref index: ", trouble.as_str()),
        ),
        Err(DecodeError::NotAnIndex) => Err("decode ref index: not a ref index".to_owned()),
    }
}

/// What is said of a write that no listing shows names its track, so it tells two writes apart
pub proof fn unlisted_tracks_are_named(track: TrackNumber, other: TrackNumber)
    ensures
        text_laws::mentions(not_listed_text(track), text::decimal_text(track.0 as nat)),
        not_listed_text(track) == not_listed_text(other) ==> track == other,
{
    let start = "this tape reaches track "@;
    text_laws::mentioned(
        not_listed_text(track),
        start,
        text::decimal_text(track.0 as nat),
        NOT_LISTED@,
    );
    if not_listed_text(track) == not_listed_text(other) {
        let a = text::decimal_text(track.0 as nat);
        let b = text::decimal_text(other.0 as nat);
        let all = not_listed_text(track);
        assert(a.len() == b.len());
        let n = start.len() as int;
        assert(all.subrange(n, n + a.len()) =~= a);
        assert(all.subrange(n, n + b.len()) =~= b);
        decimal_is_injective(track.0 as nat, other.0 as nat);
    }
}

/// A push needs a fee payer and the tape's key, and nothing else; the one that is missing is
/// named, the fee payer first
pub proof fn pushes_need_payer_and_key(store: StoreView)
    ensures
        store.obstacle() is None <==> store.has_payer && store.has_cassette,
        !store.has_payer ==> text_laws::mentions(
            store.obstacle()->0,
            "pushing needs a fee payer: set TAPE_KEYPAIR"@,
        ),
        store.has_payer && !store.has_cassette ==> {
            &&& text_laws::mentions(store.obstacle()->0, crypto::address_text(store.bucket))
            &&& text_laws::mentions(store.obstacle()->0, cassette_path(store.bucket))
        },
{
    if !store.has_payer {
        reveal_strlit("pushing needs a fee payer: set TAPE_KEYPAIR");
        reveal_strlit("pushing needs a fee payer: set TAPE_KEYPAIR or create ~/");
        let start = "pushing needs a fee payer: set TAPE_KEYPAIR"@;
        let n = start.len() as int;
        assert("pushing needs a fee payer: set TAPE_KEYPAIR or create ~/"@.take(n) =~= start);
        text_laws::mentioned(
            store.obstacle()->0,
            seq![],
            start,
            store.obstacle()->0.skip(n),
        );
    } else if !store.has_cassette {
        let middle = ": set TAPE_CASSETTE or place it at ~/"@;
        text_laws::mentioned(
            store.obstacle()->0,
            "no tape keypair for "@,
            crypto::address_text(store.bucket),
            middle + cassette_path(store.bucket) + " to push"@,
        );
        text_laws::mentioned(
            store.obstacle()->0,
            "no tape keypair for "@ + crypto::address_text(store.bucket) + middle,
            cassette_path(store.bucket),
            " to push"@,
        );
    }
}

/// What is recorded of a pack that was stored as one track is where it is, how long it is and a
/// digest that describes it, and that it is no stream
pub proof fn stored_packs_are_recorded(pack: Seq<u8>, track: TrackNumber, reason: Seq<char>)
    requires
        pack.len() <= u64::MAX,
    ensures
        pack_entry(pack, track).track == track.0,
        pack_entry(pack, track).size == pack.len(),
        pack_entry(pack, track).digest.len() == 32,
        pack_entry(pack, track).describes(pack),
        !pack_entry(pack, track).stream,
        text_laws::mentions(pack_trouble(pack, reason), reason),
        text_laws::mentions(pack_trouble(pack, reason), text::decimal_text(pack.len())),
{
    index::recorded_digest_matches(pack_entry(pack, track), pack);
    text_laws::mentioned(
        pack_trouble(pack, reason),
        "write pack ("@,
        text::decimal_text(pack.len()),
        " bytes): "@ + reason,
    );
    text_laws::mentioned(
        pack_trouble(pack, reason),
        "write pack ("@ + text::decimal_text(pack.len()) + " bytes): "@,
        reason,
        seq![],
    );
}

/// The key of a tape is filed under the tape's own address, in the directory for such keys, and a
/// key that could not be loaded is reported with the reason
pub proof fn keys_are_filed_by_address(bucket: [u8; 32], path: String, reason: String)
    ensures
        cassette_path(bucket) == ".tape/cassettes/"@ + crypto::address_text(bucket) + ".json"@,
        KeyFile::<()>::Unreadable(path, reason).trouble() == reason@,
        KeyFile::<[u8; 32]>::Unreadable(path, reason).trouble() == reason@,
{
    reveal_strlit(".tape/cassettes");
    reveal_strlit("/");
    reveal_strlit(".tape/cassettes/");
    assert(".tape/cassettes"@ + "/"@ =~= ".tape/cassettes/"@);
}

} // verus!
