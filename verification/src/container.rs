//! The container of a package: an ordered list of named entries, each with
//! what reading it gave.

use crate::names::{is_manifest_name, manifest_hash, manifest_hash_name, manifest_name};
use vstd::prelude::*;
use vstd::slice::slice_to_vec;
use vstd::string::*;

verus! {

/// One entry of a container.
#[derive(Debug)]
pub struct ArchiveEntry {
    /// The name of the entry.
    pub name: String,
    /// The bytes of the entry, or the message of the failure to read them.
    pub content: Result<Vec<u8>, String>,
}

/// What an entry holds.
pub struct EntryView {
    pub name: Seq<char>,
    pub content: Result<Seq<u8>, Seq<char>>,
}

impl View for ArchiveEntry {
    type V = EntryView;

    open spec fn view(&self) -> EntryView {
        EntryView {
            name: self.name@,
            content: match self.content {
                Ok(data) => Ok(data@),
                Err(message) => Err(message@),
            },
        }
    }
}

/// A container: its entries, in order.
#[derive(Debug)]
pub struct Container {
    /// The entries, in the order of the container.
    pub entries: Vec<ArchiveEntry>,
}

impl View for Container {
    type V = Seq<EntryView>;

    open spec fn view(&self) -> Seq<EntryView> {
        Seq::new(self.entries@.len(), |i: int| self.entries@[i]@)
    }
}

/// The bytes of the first entry of `entries` named `name`, where there is
/// such an entry and it could be read.
pub open spec fn readable(entries: Seq<EntryView>, name: Seq<char>) -> Option<Seq<u8>>
    decreases entries.len(),
{
    if entries.len() == 0 {
        None
    } else if entries[0].name == name {
        match entries[0].content {
            Ok(data) => Some(data),
            Err(_) => None,
        }
    } else {
        readable(entries.skip(1), name)
    }
}

/// The payload of one manifest candidate: one payload where the entry is
/// there and readable, none else.
pub open spec fn candidate(entries: Seq<EntryView>, name: Seq<char>) -> Seq<Seq<u8>> {
    match readable(entries, name) {
        Some(data) => seq![data],
        None => Seq::empty(),
    }
}

/// The payloads in which a manifest is looked for, in the order in which
/// they are tried: the entry under the literal name, the one under the
/// hashed name, the one under the hashed name with `.bin`.
pub open spec fn candidate_payloads(entries: Seq<EntryView>) -> Seq<Seq<u8>> {
    candidate(entries, manifest_name()) + candidate(entries, manifest_hash_name()) + candidate(
        entries,
        manifest_hash_name() + ".bin"@,
    )
}

impl Container {
    /// The container without entries.
    pub fn new() -> (container: Self)
        ensures
            container@ == Seq::<EntryView>::empty(),
    {
        let container = Container { entries: Vec::new() };
        assert(container@ =~= Seq::<EntryView>::empty());
        container
    }

    /// Adds an entry at the end.
    pub fn push(&mut self, name: String, content: Result<Vec<u8>, String>)
        ensures
            final(self)@ == old(self)@.push(
                (ArchiveEntry { name, content })@,
            ),
    {
        self.entries.push(ArchiveEntry { name, content });
        assert(self@ =~= old(self)@.push((ArchiveEntry { name, content })@));
    }

    /// The number of entries.
    pub fn len(&self) -> (n: usize)
        ensures
            n == self@.len(),
    {
        self.entries.len()
    }

    /// The names of the entries, in order.
    pub fn entry_names(&self) -> (names: Vec<String>)
        ensures
            names@.len() == self@.len(),
            forall|i: int| 0 <= i < names@.len() ==> names@[i]@ == self@[i].name,
    {
        let mut names: Vec<String> = Vec::new();
        let mut i: usize = 0;
        while i < self.entries.len()
            invariant
                i <= self.entries.len(),
                names@.len() == i,
                forall|j: int| 0 <= j < i ==> names@[j]@ == self@[j].name,
            decreases self.entries.len() - i,
        {
            names.push(self.entries[i].name.clone());
            i += 1;
        }
        names
    }

    /// The bytes of the first entry named `name`, where it could be read.
    pub fn read_entry(&self, name: &String) -> (data: Option<&Vec<u8>>)
        ensures
            match readable(self@, name@) {
                Some(bytes) => data is Some && data.unwrap()@ == bytes,
                None => data is None,
            },
    {
        let mut i: usize = 0;
        assert(self@.skip(0) =~= self@);
        while i < self.entries.len()
            invariant
                i <= self.entries.len(),
                readable(self@, name@) == readable(self@.skip(i as int), name@),
            decreases self.entries.len() - i,
        {
            let ghost rest = self@.skip(i as int);
            proof {
                assert(rest[0] == self@[i as int]);
                assert(rest.skip(1) =~= self@.skip(i + 1));
            }
            if self.entries[i].name == *name {
                return match &self.entries[i].content {
                    Ok(data) => Some(data),
                    Err(_) => None,
                };
            }
            i += 1;
        }
        None
    }
}

/// The payloads in which a manifest is looked for, in the order in which
/// they are to be tried.
pub fn manifest_candidates(container: &Container) -> (payloads: Vec<Vec<u8>>)
    ensures
        payloads@.len() == candidate_payloads(container@).len(),
        forall|i: int|
            0 <= i < payloads@.len() ==> payloads@[i]@ == candidate_payloads(container@)[i],
{
    let mut payloads: Vec<Vec<u8>> = Vec::new();
    let literal = "config.mlve".to_owned();
    let hashed = manifest_hash();
    let mut hashed_bin = hashed.clone();
    hashed_bin.append(".bin");
    let ghost first = candidate(container@, manifest_name());
    let ghost second = candidate(container@, manifest_hash_name());
    let ghost third = candidate(container@, manifest_hash_name() + ".bin"@);
    match container.read_entry(&literal) {
        Some(data) => {
            payloads.push(slice_to_vec(data.as_slice()));
        },
        None => {},
    }
    assert(payloads@.len() == first.len());
    match container.read_entry(&hashed) {
        Some(data) => {
            payloads.push(slice_to_vec(data.as_slice()));
        },
        None => {},
    }
    assert(payloads@.len() == (first + second).len());
    match container.read_entry(&hashed_bin) {
        Some(data) => {
            payloads.push(slice_to_vec(data.as_slice()));
        },
        None => {},
    }
    payloads
}

/// Tells whether an entry name is one of those under which a manifest is
/// looked for.
pub(crate) fn is_manifest_entry(name: &String, hashed: &String) -> (r: bool)
    requires
        hashed@ == manifest_hash_name(),
    ensures
        r == is_manifest_name(name@),
{
    let literal = "config.mlve".to_owned();
    let mut hashed_bin = hashed.clone();
    hashed_bin.append(".bin");
    *name == literal || *name == *hashed || *name == hashed_bin
}

} // verus!
