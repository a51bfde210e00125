//! The files of a game in a browser, where a launcher has indexed the game's
//! directory. Paths are resource paths, and a file is read as a whole.

use vstd::prelude::*;
use crate::paths;
use crate::paths::normalize_siglus_path;
use crate::text_parts;

verus! {

/// Why a request is refused.
#[derive(Debug)]
pub enum VfsError {
    EmptyPath,
    /// The launcher knows no file with this path.
    NotFound(String),
    /// The listing of this directory has an entry that is no text.
    NotText(String),
}

/// The texts of a listing, where all entries are texts.
pub open spec fn all_texts(entries: Seq<Option<String>>) -> Option<Seq<Seq<char>>>
    decreases entries.len(),
{
    if entries.len() == 0 {
        Some(Seq::empty())
    } else {
        match (all_texts(entries.drop_last()), entries.last()) {
            (Some(front), Some(name)) => Some(front.push(name@)),
            _ => None,
        }
    }
}

proof fn lemma_no_text(entries: Seq<Option<String>>, k: int)
    requires
        0 <= k < entries.len(),
        entries[k] is None,
    ensures
        all_texts(entries) is None,
    decreases entries.len(),
{
    if k < entries.len() - 1 {
        lemma_no_text(entries.drop_last(), k);
    }
}

/// The files that a launcher has indexed.
#[derive(Debug, Clone, Copy)]
pub struct WasmDirectoryVfs {
    /// How many files the launcher knows.
    pub file_count: u32,
}

impl WasmDirectoryVfs {
    pub fn new(file_count: u32) -> (v: WasmDirectoryVfs)
        ensures
            v.file_count == file_count,
    {
        WasmDirectoryVfs { file_count }
    }

    pub fn known_file_count(&self) -> (n: u32)
        ensures
            n == self.file_count,
    {
        self.file_count
    }

    /// The path under which the launcher is asked for a file or a directory.
    pub fn request(&self, path: &str) -> (r: String)
        ensures
            r@ == paths::resource_path(path@),
    {
        normalize_siglus_path(path)
    }

    /// The contents of a file. `found` is what the launcher gave for its
    /// request, where it knows the file.
    pub fn read_all(&self, path: &str, found: Option<Vec<u8>>) -> (r: Result<Vec<u8>, VfsError>)
        ensures
            match r {
                Ok(bytes) => paths::resource_path(path@).len() > 0 && found == Some(bytes),
                Err(VfsError::EmptyPath) => paths::resource_path(path@).len() == 0,
                Err(VfsError::NotFound(name)) => {
                    &&& name@ == paths::resource_path(path@)
                    &&& name@.len() > 0
                    &&& found is None
                },
                Err(VfsError::NotText(_)) => false,
            },
    {
        let normalized = normalize_siglus_path(path);
        if normalized.as_str().unicode_len() == 0 {
            return Err(VfsError::EmptyPath);
        }
        match found {
            Some(bytes) => Ok(bytes),
            None => Err(VfsError::NotFound(normalized)),
        }
    }

    /// The names in a directory. `entries` is the launcher's listing, `None`
    /// for an entry that is no text.
    pub fn list_dir(&self, path: &str, entries: &Vec<Option<String>>) -> (r: Result<
        Vec<String>,
        VfsError,
    >)
        ensures
            match r {
                Ok(names) => all_texts(entries@) == Some(text_parts::texts(names@)),
                Err(VfsError::NotText(dir)) => {
                    all_texts(entries@) is None && dir@ == paths::resource_path(path@)
                },
                Err(_) => false,
            },
    {
        let mut names: Vec<String> = Vec::new();
        let mut i: usize = 0;
        proof {
            assert(entries@.take(0) =~= Seq::<Option<String>>::empty());
            assert(text_parts::texts(names@) =~= Seq::<Seq<char>>::empty());
        }
        while i < entries.len()
            invariant
                i <= entries@.len(),
                all_texts(entries@.take(i as int)) == Some(text_parts::texts(names@)),
            decreases entries@.len() - i,
        {
            let ghost front = text_parts::texts(names@);
            proof {
                let taken = entries@.take(i + 1);
                assert(taken.drop_last() =~= entries@.take(i as int));
                assert(taken.last() == entries@[i as int]);
            }
            match &entries[i] {
                Some(name) => {
                    names.push(name.clone());
                    proof {
                        assert(text_parts::texts(names@) =~= front.push(entries@[i as int]->0@));
                    }
                },
                None => {
                    proof {
                        lemma_no_text(entries@, i as int);
                    }
                    return Err(VfsError::NotText(normalize_siglus_path(path)));
                },
            }
            i = i + 1;
        }
        proof {
            assert(entries@.take(i as int) =~= entries@);
        }
        Ok(names)
    }
}

} // verus!
