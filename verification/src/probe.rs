//! Whether what is published can be cloned
//!
//! A UI should only reveal a `tape://` clone URL for an index that is readable and
//! internally coherent.

use vstd::prelude::*;

use crate::index::{Index, IndexView};
use crate::refs;
use crate::refs::Refs;
use crate::text;

verus! {

/// What can be cloned
#[derive(Debug)]
pub struct Cloneability {
    pub head: String,
    pub refs: Refs,
    pub pack_count: usize,
}

/// What is wrong with a published index
#[derive(Debug)]
pub enum Incoherence {
    /// There are refs, but no HEAD
    MissingHead,
    DanglingHead(String),
    InvalidRefName,
    /// Of the ref with this name
    InvalidObjectId(String),
}

/// What is wrong with a published index
pub enum IncoherenceView {
    MissingHead,
    DanglingHead(Seq<char>),
    InvalidRefName,
    InvalidObjectId(Seq<char>),
}

impl View for Incoherence {
    type V = IncoherenceView;

    open spec fn view(&self) -> IncoherenceView {
        match self {
            Incoherence::MissingHead => IncoherenceView::MissingHead,
            Incoherence::DanglingHead(head) => IncoherenceView::DanglingHead(head@),
            Incoherence::InvalidRefName => IncoherenceView::InvalidRefName,
            Incoherence::InvalidObjectId(name) => IncoherenceView::InvalidObjectId(name@),
        }
    }
}

impl Incoherence {
    /// What to say about it
    pub fn message(&self) -> (message: String)
        ensures
            message@ == match self@ {
                IncoherenceView::MissingHead => "published Git index has refs but no HEAD"@,
                IncoherenceView::DanglingHead(head) =>
                    "published Git HEAD points at a missing ref: "@ + head,
                IncoherenceView::InvalidRefName =>
                    "published Git index contains an invalid ref name"@,
                IncoherenceView::InvalidObjectId(name) =>
                    "published Git index contains an invalid object id for "@ + name,
            },
    {
        match self {
            Incoherence::MissingHead => "published Git index has refs but no HEAD".to_owned(),
            Incoherence::DanglingHead(head) => text::concat(
                "published Git HEAD points at a missing ref: ",
                head.as_str(),
            ),
            Incoherence::InvalidRefName =>
                "published Git index contains an invalid ref name".to_owned(),
            Incoherence::InvalidObjectId(name) => text::concat(
                "published Git index contains an invalid object id for ",
                name.as_str(),
            ),
        }
    }
}

/// Whether a refname is one git could have
pub open spec fn is_ref_name(name: Seq<char>) -> bool {
    &&& "refs/"@.is_prefix_of(name)
    &&& !name.contains('\0')
    &&& !name.contains('\n')
    &&& !name.contains('\r')
}

/// Whether a character is a hexadecimal digit, of either case
pub open spec fn is_hex_digit(c: char) -> bool {
    ('0' <= c && c <= '9') || ('a' <= c && c <= 'f') || ('A' <= c && c <= 'F')
}

/// Whether a text is a full object id
pub open spec fn is_object_id(id: Seq<char>) -> bool {
    id.len() == 40 && forall|i: int| 0 <= i < id.len() ==> is_hex_digit(#[trigger] id[i])
}

/// What is wrong with the first ref that something is wrong with
pub open spec fn first_fault(pairs: Seq<refs::Pair>) -> Option<IncoherenceView>
    decreases pairs.len(),
{
    if pairs.len() == 0 {
        None
    } else if !is_ref_name(pairs[0].0) {
        Some(IncoherenceView::InvalidRefName)
    } else if !is_object_id(pairs[0].1) {
        Some(IncoherenceView::InvalidObjectId(pairs[0].0))
    } else {
        first_fault(pairs.drop_first())
    }
}

/// What is wrong with an index that has a HEAD
pub open spec fn fault_in(index: IndexView) -> Option<IncoherenceView> {
    if !index.refs.contains_key(index.head->0) {
        Some(IncoherenceView::DanglingHead(index.head->0))
    } else {
        first_fault(refs::listing(index.refs))
    }
}

fn check_ref_name(name: &str) -> (valid: bool)
    ensures
        valid == is_ref_name(name@),
{
    if !text::starts_with(name, "refs/") {
        return false;
    }
    let chars = text::chars_of(name);
    let mut i: usize = 0;
    while i < chars.len()
        invariant
            i <= chars@.len(),
            chars@ == name@,
            forall|k: int|
                0 <= k < i ==> chars@[k] != '\0' && chars@[k] != '\n' && chars@[k] != '\r',
        decreases chars.len() - i,
    {
        if chars[i] == '\0' || chars[i] == '\n' || chars[i] == '\r' {
            assert(name@.contains(chars@[i as int]));
            return false;
        }
        i = i + 1;
    }
    true
}

fn check_object_id(id: &str) -> (valid: bool)
    ensures
        valid == is_object_id(id@),
{
    let chars = text::chars_of(id);
    if chars.len() != 40 {
        return false;
    }
    let mut i: usize = 0;
    while i < chars.len()
        invariant
            i <= chars@.len(),
            chars@ == id@,
            chars@.len() == 40,
            forall|k: int| 0 <= k < i ==> is_hex_digit(#[trigger] id@[k]),
        decreases chars.len() - i,
    {
        let c = chars[i];
        if !(('0' <= c && c <= '9') || ('a' <= c && c <= 'f') || ('A' <= c && c <= 'F')) {
            assert(!is_hex_digit(id@[i as int]));
            return false;
        }
        i = i + 1;
    }
    true
}

/// Content of a fault, if there is one
pub open spec fn opt_fault(fault: Option<Incoherence>) -> Option<IncoherenceView> {
    match fault {
        Some(fault) => Some(fault@),
        None => None,
    }
}

/// Check every ref
fn check_refs(refs: &Refs) -> (fault: Option<Incoherence>)
    ensures
        opt_fault(fault) == first_fault(refs::listing(refs@)),
{
    let n = refs.len();
    let ghost pairs = refs::listing(refs@);
    let mut i: usize = 0;
    assert(pairs.skip(0) =~= pairs);
    while i < n
        invariant
            i <= n,
            n == pairs.len(),
            pairs == refs::listing(refs@),
            first_fault(pairs) == first_fault(pairs.skip(i as int)),
        decreases n - i,
    {
        let name = refs.name_at(i);
        assert(pairs.skip(i as int)[0] == pairs[i as int]);
        assert(pairs.skip(i as int).drop_first() =~= pairs.skip(i + 1));
        if !check_ref_name(name.as_str()) {
            return Some(Incoherence::InvalidRefName);
        }
        if !check_object_id(refs.id_at(i).as_str()) {
            return Some(Incoherence::InvalidObjectId(name.clone()));
        }
        i = i + 1;
    }
    None
}

/// Check an index
///
/// `None` means no repository has been published yet. `Some` means the same ref
/// advertisement used by `git ls-remote` is readable and internally coherent.
pub fn validate(index: Index) -> (result: Result<Option<Cloneability>, Incoherence>)
    ensures
        match result {
            Ok(None) => index@.head is None && index@.refs.dom() =~= Set::empty(),
            Ok(Some(cloneable)) => {
                &&& index@.head == Some(cloneable.head@)
                &&& fault_in(index@) is None
                &&& cloneable.refs@ == index@.refs
                &&& cloneable.pack_count == index@.packs.len()
            },
            Err(fault) => {
                ||| index@.head is None && index@.refs.dom() != Set::<Seq<char>>::empty()
                    && fault@ is MissingHead
                ||| index@.head is Some && fault_in(index@) == Some(fault@)
            },
        },
{
    let Index { version: _, head, refs, packs, parent: _ } = index;
    let head = match head {
        Some(head) => head,
        None => {
            let n = refs.len();
            if n > 0 {
                return Err(Incoherence::MissingHead);
            }
            proof {
                vstd::set_lib::lemma_set_empty_equivalency_len(refs@.dom());
            }
            return Ok(None);
        },
    };
    if !refs.contains_key(head.as_str()) {
        return Err(Incoherence::DanglingHead(head));
    }
    match check_refs(&refs) {
        Some(fault) => Err(fault),
        None => Ok(Some(Cloneability { head, refs, pack_count: packs.len() })),
    }
}

proof fn no_fault_means_sound_refs(pairs: Seq<refs::Pair>)
    requires
        first_fault(pairs) is None,
    ensures
        forall|i: int|
            0 <= i < pairs.len() ==> is_ref_name((#[trigger] pairs[i]).0) && is_object_id(
                pairs[i].1,
            ),
    decreases pairs.len(),
{
    if pairs.len() > 0 {
        let rest = pairs.drop_first();
        no_fault_means_sound_refs(rest);
        assert forall|i: int| 0 <= i < pairs.len() implies is_ref_name((#[trigger] pairs[i]).0)
            && is_object_id(pairs[i].1) by {
            if i > 0 {
                assert(pairs[i] == rest[i - 1]);
            }
        }
    }
}

/// An index that can be cloned has a HEAD that points at one of its refs, and every one of
/// them has a proper name and object id
pub proof fn cloneable_means_coherent(index: IndexView)
    requires
        index.refs.dom().finite(),
        index.head is Some,
        fault_in(index) is None,
    ensures
        index.refs.contains_key(index.head->0),
        forall|name: Seq<char>| #[trigger]
            index.refs.contains_key(name) ==> is_ref_name(name) && is_object_id(index.refs[name]),
{
    let pairs = refs::listing(index.refs);
    refs::listing_exists(index.refs);
    no_fault_means_sound_refs(pairs);
    assert forall|name: Seq<char>| #[trigger] index.refs.contains_key(name) implies is_ref_name(
        name,
    ) && is_object_id(index.refs[name]) by {
        let i = choose|i: int| 0 <= i < pairs.len() && #[trigger] pairs[i].0 == name;
        assert(is_ref_name(pairs[i].0));
    }
}

/// An index with a HEAD can be cloned exactly when HEAD names one of its refs, every name opens
/// with `refs/` and breaks no line, and every object id is forty hexadecimal digits
pub proof fn coherent_indexes_can_be_cloned(index: IndexView)
    requires
        index.refs.dom().finite(),
        index.head is Some,
    ensures
        fault_in(index) is None <==> {
            &&& index.refs.contains_key(index.head->0)
            &&& forall|name: Seq<char>| #[trigger]
                index.refs.contains_key(name) ==> {
                    &&& name.len() >= 5 && name.take(5) == seq!['r', 'e', 'f', 's', '/']
                    &&& forall|i: int|
                        0 <= i < name.len() ==> #[trigger] name[i] != '\0' && name[i] != '\n'
                            && name[i] != '\r'
                    &&& index.refs[name].len() == 40
                    &&& forall|i: int|
                        0 <= i < 40 ==> '0' <= #[trigger] index.refs[name][i] <= '9' || 'a'
                            <= index.refs[name][i] <= 'f' || 'A' <= index.refs[name][i] <= 'F'
                }
        },
{
    reveal_strlit("refs/");
    assert("refs/"@ =~= seq!['r', 'e', 'f', 's', '/']);
    refs::listing_exists(index.refs);
    let pairs = refs::listing(index.refs);
    if fault_in(index) is None {
        cloneable_means_coherent(index);
        assert forall|name: Seq<char>| #[trigger] index.refs.contains_key(name) implies {
            &&& name.len() >= 5 && name.take(5) == seq!['r', 'e', 'f', 's', '/']
            &&& forall|i: int|
                0 <= i < name.len() ==> #[trigger] name[i] != '\0' && name[i] != '\n' && name[i]
                    != '\r'
            &&& index.refs[name].len() == 40
            &&& forall|i: int|
                0 <= i < 40 ==> '0' <= #[trigger] index.refs[name][i] <= '9' || 'a'
                    <= index.refs[name][i] <= 'f' || 'A' <= index.refs[name][i] <= 'F'
        } by {
            assert(is_ref_name(name) && is_object_id(index.refs[name]));
            assert(name.take(5) =~= "refs/"@);
            assert forall|i: int| 0 <= i < name.len() implies #[trigger] name[i] != '\0'
                && name[i] != '\n' && name[i] != '\r' by {
                assert(name.contains(name[i]));
            }
            assert forall|i: int| 0 <= i < 40 implies '0' <= #[trigger] index.refs[name][i] <= '9'
                || 'a' <= index.refs[name][i] <= 'f' || 'A' <= index.refs[name][i] <= 'F' by {
                assert(is_hex_digit(index.refs[name][i]));
            }
        }
    } else if index.refs.contains_key(index.head->0) {
        first_fault_is_the_first(pairs);
        let k = choose|k: int|
            {
                &&& 0 <= k < pairs.len()
                &&& !(is_ref_name((#[trigger] pairs[k]).0) && is_object_id(pairs[k].1))
            };
        let name = pairs[k].0;
        assert(index.refs.contains_key(name) && index.refs[name] == pairs[k].1);
        if name.len() >= 5 && name.take(5) == seq!['r', 'e', 'f', 's', '/'] {
            assert("refs/"@.is_prefix_of(name));
        }
    }
}

/// The first ref that something is wrong with
proof fn first_fault_is_the_first(pairs: Seq<refs::Pair>)
    ensures
        match first_fault(pairs) {
            Some(fault) => exists|k: int|
                {
                    &&& 0 <= k < pairs.len()
                    &&& !(is_ref_name((#[trigger] pairs[k]).0) && is_object_id(pairs[k].1))
                    &&& fault == if is_ref_name(pairs[k].0) {
                        IncoherenceView::InvalidObjectId(pairs[k].0)
                    } else {
                        IncoherenceView::InvalidRefName
                    }
                    &&& forall|j: int|
                        0 <= j < k ==> is_ref_name((#[trigger] pairs[j]).0) && is_object_id(
                            pairs[j].1,
                        )
                },
            None => true,
        },
    decreases pairs.len(),
{
    if pairs.len() > 0 {
        if is_ref_name(pairs[0].0) && is_object_id(pairs[0].1) {
            let rest = pairs.drop_first();
            first_fault_is_the_first(rest);
            if let Some(fault) = first_fault(rest) {
                let k = choose|k: int|
                    {
                        &&& 0 <= k < rest.len()
                        &&& !(is_ref_name((#[trigger] rest[k]).0) && is_object_id(rest[k].1))
                        &&& fault == if is_ref_name(rest[k].0) {
                            IncoherenceView::InvalidObjectId(rest[k].0)
                        } else {
                            IncoherenceView::InvalidRefName
                        }
                        &&& forall|j: int|
                            0 <= j < k ==> is_ref_name((#[trigger] rest[j]).0) && is_object_id(
                                rest[j].1,
                            )
                    };
                assert(pairs[k + 1] == rest[k]);
                assert forall|j: int| 0 <= j < k + 1 implies is_ref_name((#[trigger] pairs[j]).0)
                    && is_object_id(pairs[j].1) by {
                    if j > 0 {
                        assert(pairs[j] == rest[j - 1]);
                    }
                }
            }
        } else {
            assert(!(is_ref_name(pairs[0].0) && is_object_id(pairs[0].1)));
        }
    }
}

/// The fault that is reported is there: a HEAD that names no ref is the one of the index, and an
/// object id that is told of belongs to a ref of a proper name that is not one, with nothing
/// wrong with any ref whose name comes before
pub proof fn reported_faults_are_real(index: IndexView, other: Seq<char>)
    requires
        index.refs.dom().finite(),
        index.head is Some,
    ensures
        match fault_in(index) {
            Some(IncoherenceView::DanglingHead(head)) => index.head == Some(head)
                && !index.refs.contains_key(head),
            Some(IncoherenceView::InvalidObjectId(name)) => {
                &&& index.refs.contains_key(name)
                &&& is_ref_name(name)
                &&& !is_object_id(index.refs[name])
                &&& index.refs.contains_key(other) && text::precedes(other, name) ==> is_ref_name(
                    other,
                ) && is_object_id(index.refs[other])
            },
            Some(IncoherenceView::InvalidRefName) => exists|name: Seq<char>| #[trigger]
                index.refs.contains_key(name) && !is_ref_name(name),
            Some(IncoherenceView::MissingHead) => false,
            None => true,
        },
        !index.refs.contains_key(index.head->0) ==> fault_in(index) == Some(
            IncoherenceView::DanglingHead(index.head->0),
        ),
{
    refs::listing_exists(index.refs);
    let pairs = refs::listing(index.refs);
    if index.refs.contains_key(index.head->0) {
        first_fault_is_the_first(pairs);
        if let Some(fault) = first_fault(pairs) {
            let k = choose|k: int|
                {
                    &&& 0 <= k < pairs.len()
                    &&& !(is_ref_name((#[trigger] pairs[k]).0) && is_object_id(pairs[k].1))
                    &&& fault == if is_ref_name(pairs[k].0) {
                        IncoherenceView::InvalidObjectId(pairs[k].0)
                    } else {
                        IncoherenceView::InvalidRefName
                    }
                    &&& forall|j: int|
                        0 <= j < k ==> is_ref_name((#[trigger] pairs[j]).0) && is_object_id(
                            pairs[j].1,
                        )
                };
            let name = pairs[k].0;
            assert(index.refs.contains_key(name) && index.refs[name] == pairs[k].1);
            if index.refs.contains_key(other) && text::precedes(other, name) {
                let j = choose|j: int| 0 <= j < pairs.len() && #[trigger] pairs[j].0 == other;
                if j == k {
                    text::precedes_irreflexive(name);
                } else if j > k {
                    assert(text::precedes(pairs[k].0, pairs[j].0));
                    text::precedes_transitive(other, name, other);
                    text::precedes_irreflexive(other);
                }
                assert(is_ref_name(pairs[j].0) && is_object_id(pairs[j].1));
            }
        }
    }
}

} // verus!
