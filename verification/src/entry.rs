//! A scanned file entry: the full file name, the stem (the name with
//! its extension removed) and the extension, if there is one. The stem
//! is the identity used when collapsing the same artifact rendered in
//! several formats.

use vstd::prelude::*;

use crate::strings::last_index_of;
use crate::strings::lemma_last_index_of;
use crate::strings::rfind_char;
use crate::strings::views_of;
use crate::strings::contains_str;

verus! {

/// Where a file name splits into stem and extension: the position of
/// the last dot, provided it is neither the first character nor absent.
/// A name whose only dot leads it (or that has none) has no extension.
pub open spec fn split_pos(name: Seq<char>) -> int {
    last_index_of(name, '.')
}

/// The stem of a file name: everything before the last dot, or the
/// whole name when there is no extension.
pub open spec fn stem_spec(name: Seq<char>) -> Seq<char> {
    if split_pos(name) >= 1 {
        name.take(split_pos(name))
    } else {
        name
    }
}

/// The extension of a file name: everything after the last dot, absent
/// when the name has no dot past its first character.
pub open spec fn ext_spec(name: Seq<char>) -> Option<Seq<char>> {
    if split_pos(name) >= 1 {
        Some(name.skip(split_pos(name) + 1))
    } else {
        None
    }
}

/// One direct child of a scanned directory.
#[derive(Debug)]
pub struct FileEntry {
    /// The full file name, extension included.
    pub name: String,
    /// The name with the extension removed.
    pub stem: String,
    /// The extension, absent when the name has none.
    pub extension: Option<String>,
}

impl FileEntry {
    /// The stem and extension fields agree with the name.
    pub open spec fn wf(self) -> bool {
        &&& self.stem@ == stem_spec(self.name@)
        &&& match self.extension {
            Some(e) => ext_spec(self.name@) == Some(e@),
            None => ext_spec(self.name@) is None,
        }
    }

    /// Split a file name into an entry with its stem and extension.
    pub fn new(name: &str) -> (e: FileEntry)
        ensures
            e.wf(),
            e.name@ == name@,
    {
        proof {
            lemma_last_index_of(name@, '.');
        }
        let r = rfind_char(name, '.');
        let len = name.unicode_len();
        match r {
            Some(pos) if pos >= 1 => {
                let stem = name.substring_char(0, pos).to_owned();
                let ext = name.substring_char(pos + 1, len).to_owned();
                assert(stem@ =~= name@.take(pos as int));
                assert(ext@ =~= name@.skip(pos as int + 1));
                FileEntry { name: name.to_owned(), stem, extension: Some(ext) }
            },
            _ => {
                FileEntry { name: name.to_owned(), stem: name.to_owned(), extension: None }
            },
        }
    }
}

impl Clone for FileEntry {
    /// Copy an entry, field for field.
    fn clone(&self) -> (r: FileEntry)
        ensures
            r == *self,
    {
        FileEntry {
            name: self.name.clone(),
            stem: self.stem.clone(),
            extension: match &self.extension {
                Some(e) => Some(e.clone()),
                None => None,
            },
        }
    }
}

/// Whether a file name passes an optional extension filter: with no
/// filter every name passes; with one, only names whose extension is a
/// member. Names without an extension never pass an active filter.
pub open spec fn passes_filter(name: Seq<char>, filter: Option<Seq<Seq<char>>>) -> bool {
    match filter {
        None => true,
        Some(exts) => match ext_spec(name) {
            Some(e) => exts.contains(e),
            None => false,
        },
    }
}

/// The view of an optional extension filter.
pub open spec fn filter_views(filter: Option<&Vec<String>>) -> Option<Seq<Seq<char>>> {
    match filter {
        Some(f) => Some(views_of(f@)),
        None => None,
    }
}

/// Decide `passes_filter` for an already split entry.
pub fn entry_passes_filter(e: &FileEntry, filter: Option<&Vec<String>>) -> (r: bool)
    requires
        e.wf(),
    ensures
        r == passes_filter(e.name@, filter_views(filter)),
{
    match filter {
        None => true,
        Some(exts) => match &e.extension {
            Some(x) => contains_str(exts, x.as_str()),
            None => false,
        },
    }
}

/// The names of a sequence of entries.
pub open spec fn names_of(entries: Seq<FileEntry>) -> Seq<Seq<char>> {
    entries.map_values(|e: FileEntry| e.name@)
}

/// The names that pass the extension filter, in listing order.
pub open spec fn filter_names(names: Seq<Seq<char>>, filter: Option<Seq<Seq<char>>>) -> Seq<
    Seq<char>,
>
    decreases names.len(),
{
    if names.len() == 0 {
        Seq::empty()
    } else if passes_filter(names.last(), filter) {
        filter_names(names.drop_last(), filter) + seq![names.last()]
    } else {
        filter_names(names.drop_last(), filter)
    }
}

/// Turn one directory's listing into entries: split each name into
/// stem and extension, and keep those that pass the filter, in
/// listing order.
pub fn scan_entries(file_names: &Vec<String>, filter: Option<&Vec<String>>) -> (r: Vec<FileEntry>)
    ensures
        forall|k: int| 0 <= k < r@.len() ==> (#[trigger] r@[k]).wf(),
        names_of(r@) == filter_names(views_of(file_names@), filter_views(filter)),
{
    let ghost all = views_of(file_names@);
    let ghost fv = filter_views(filter);
    let n = file_names.len();
    let mut entries: Vec<FileEntry> = Vec::new();
    let mut i: usize = 0;
    assert(all.take(0) =~= Seq::<Seq<char>>::empty());
    while i < n
        invariant
            i <= n,
            n == file_names@.len(),
            all == views_of(file_names@),
            fv == filter_views(filter),
            forall|k: int| 0 <= k < entries@.len() ==> (#[trigger] entries@[k]).wf(),
            names_of(entries@) == filter_names(all.take(i as int), fv),
        decreases n - i,
    {
        let ghost prefix = all.take(i as int + 1);
        assert(prefix.drop_last() =~= all.take(i as int));
        assert(prefix.last() == file_names@[i as int]@);
        let e = FileEntry::new(file_names[i].as_str());
        let keep = entry_passes_filter(&e, filter);
        if keep {
            let ghost entries_old = entries@;
            entries.push(e);
            assert(names_of(entries@) =~= names_of(entries_old) + seq![prefix.last()]);
        }
        i = i + 1;
    }
    assert(all.take(n as int) =~= all);
    entries
}

} // verus!
