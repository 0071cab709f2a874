//! The blob store the repositories use, at its contract: create a blob
//! under a key (refusing an existing key), read it back, delete it. Only
//! the part of a caller-supplied path after the last `/` names the blob,
//! as the store keeps a flat folder.

use vstd::prelude::*;

use crate::errors::FsError;
use crate::text::{last_component, last_segment, str_eq};

verus! {

/// Where the blob store keeps its blobs.
#[derive(Debug)]
pub struct FileStorageConfig {
    pub folder: String,
}

/// The blob store: a flat folder of keyed blobs.
pub struct FileStorage {
    pub folder: String,
    pub entries: Vec<(String, Vec<u8>)>,
}

/// The blob stored under `key`: the first entry with that key, if any.
pub open spec fn blob_at(entries: Seq<(String, Vec<u8>)>, key: Seq<char>) -> Option<Seq<u8>>
    decreases entries.len(),
{
    if entries.len() == 0 {
        Option::None
    } else if entries[0].0@ == key {
        Option::Some(entries[0].1@)
    } else {
        blob_at(entries.drop_first(), key)
    }
}

/// The position of the first entry stored under `key`.
pub open spec fn blob_index(entries: Seq<(String, Vec<u8>)>, key: Seq<char>) -> int
    decreases entries.len(),
{
    if entries.len() == 0 {
        0
    } else if entries[0].0@ == key {
        0
    } else {
        1 + blob_index(entries.drop_first(), key)
    }
}

/// With no match among the first `i` entries, the lookup is decided by the
/// remaining entries.
proof fn lemma_blob_at_skip(entries: Seq<(String, Vec<u8>)>, key: Seq<char>, i: int)
    requires
        0 <= i <= entries.len(),
        forall|k: int| 0 <= k < i ==> (#[trigger] entries[k]).0@ != key,
    ensures
        blob_at(entries, key) == blob_at(entries.skip(i), key),
        blob_at(entries.skip(i), key) is Some ==> blob_index(entries, key) == i + blob_index(
            entries.skip(i),
            key,
        ),
    decreases i,
{
    if i == 0 {
        assert(entries.skip(0) =~= entries);
    } else {
        assert(entries[0].0@ != key);
        let rest = entries.drop_first();
        assert(forall|k: int| 0 <= k < i - 1 ==> (#[trigger] rest[k]).0@ != key);
        lemma_blob_at_skip(rest, key, i - 1);
        assert(rest.skip(i - 1) =~= entries.skip(i));
    }
}

/// An identical copy of a byte buffer.
fn copy_bytes(v: &Vec<u8>) -> (r: Vec<u8>)
    ensures
        r@ == v@,
{
    let mut out: Vec<u8> = Vec::new();
    let mut i: usize = 0;
    while i < v.len()
        invariant
            i <= v@.len(),
            out@ =~= v@.take(i as int),
        decreases v@.len() - i,
    {
        out.push(v[i]);
        proof {
            assert(v@.take(i + 1) =~= v@.take(i as int).push(v@[i as int]));
        }
        i = i + 1;
    }
    proof {
        assert(v@.take(v@.len() as int) =~= v@);
    }
    out
}

impl FileStorage {
    /// Opens the store over its folder; the model starts empty.
    pub fn setup(config: &FileStorageConfig) -> (r: Self)
        ensures
            r.folder@ == config.folder@,
            r.entries@ == Seq::<(String, Vec<u8>)>::empty(),
    {
        let folder = config.folder.clone();
        let r = FileStorage { folder, entries: Vec::new() };
        proof {
            assert(r.entries@ =~= Seq::<(String, Vec<u8>)>::empty());
        }
        r
    }

    /// Looks up the first entry under `key`; returns its position.
    fn find(&self, key: &str) -> (r: Option<usize>)
        ensures
            match r {
                Option::Some(i) => blob_at(self.entries@, key@) is Some && i == blob_index(
                    self.entries@,
                    key@,
                ) && i < self.entries@.len() && self.entries@[i as int].0@ == key@
                    && self.entries@[i as int].1@ == blob_at(self.entries@, key@)->Some_0,
                Option::None => blob_at(self.entries@, key@) is None,
            },
    {
        let mut i: usize = 0;
        while i < self.entries.len()
            invariant
                i <= self.entries@.len(),
                forall|k: int| 0 <= k < i ==> (#[trigger] self.entries@[k]).0@ != key@,
            decreases self.entries@.len() - i,
        {
            if str_eq(self.entries[i].0.as_str(), key) {
                proof {
                    lemma_blob_at_skip(self.entries@, key@, i as int);
                    let tail = self.entries@.skip(i as int);
                    assert(tail[0] == self.entries@[i as int]);
                    assert(blob_at(tail, key@) == Option::Some(tail[0].1@));
                    assert(blob_index(tail, key@) == 0);
                }
                return Option::Some(i);
            }
            i = i + 1;
        }
        proof {
            lemma_blob_at_skip(self.entries@, key@, i as int);
            assert(self.entries@.skip(i as int) =~= Seq::<(String, Vec<u8>)>::empty());
        }
        Option::None
    }

    /// Creates a blob under the trailing segment of `path`; an existing
    /// blob under that key refuses the write.
    pub fn create(&mut self, path: &str, data: Vec<u8>) -> (r: Result<(), FsError>)
        ensures
            r is Ok <==> last_segment(path@).len() > 0 && blob_at(
                old(self).entries@,
                last_segment(path@),
            ) is None,
            r is Ok ==> ({
                let added = final(self).entries@.last();
                &&& final(self).entries@ == old(self).entries@.push(added)
                &&& added.0@ == last_segment(path@)
                &&& added.1 == data
                &&& final(self).folder == old(self).folder
            }),
            r is Err ==> *final(self) == *old(self),
            r is Err ==> (r->Err_0 == FsError::NotFound <==> last_segment(path@).len() == 0),
            r is Err ==> (r->Err_0 == FsError::AlreadyExists <==> last_segment(path@).len() > 0),
    {
        let key = match last_component(path) {
            Option::Some(k) => k,
            Option::None => {
                return Result::Err(FsError::NotFound);
            },
        };
        match self.find(key.as_str()) {
            Option::Some(_) => Result::Err(FsError::AlreadyExists),
            Option::None => {
                self.entries.push((key, data));
                Result::Ok(())
            },
        }
    }

    /// Reads the blob under the trailing segment of `path`.
    pub fn get(&self, path: &str) -> (r: Result<Vec<u8>, FsError>)
        ensures
            r is Ok <==> last_segment(path@).len() > 0 && blob_at(
                self.entries@,
                last_segment(path@),
            ) is Some,
            r is Ok ==> Option::Some(r->Ok_0@) == blob_at(self.entries@, last_segment(path@)),
            r is Err ==> r->Err_0 == FsError::NotFound,
    {
        let key = match last_component(path) {
            Option::Some(k) => k,
            Option::None => {
                return Result::Err(FsError::NotFound);
            },
        };
        match self.find(key.as_str()) {
            Option::Some(i) => Result::Ok(copy_bytes(&self.entries[i].1)),
            Option::None => Result::Err(FsError::NotFound),
        }
    }

    /// Deletes the blob under the trailing segment of `path`.
    pub fn delete(&mut self, path: &str) -> (r: Result<(), FsError>)
        ensures
            r is Ok <==> last_segment(path@).len() > 0 && blob_at(
                old(self).entries@,
                last_segment(path@),
            ) is Some,
            r is Ok ==> final(self).entries@ == old(self).entries@.remove(
                blob_index(old(self).entries@, last_segment(path@)),
            ) && final(self).folder == old(self).folder,
            r is Err ==> *final(self) == *old(self),
            r is Err ==> r->Err_0 == FsError::NotFound,
    {
        let key = match last_component(path) {
            Option::Some(k) => k,
            Option::None => {
                return Result::Err(FsError::NotFound);
            },
        };
        match self.find(key.as_str()) {
            Option::Some(i) => {
                self.entries.remove(i);
                Result::Ok(())
            },
            Option::None => Result::Err(FsError::NotFound),
        }
    }
}

} // verus!
