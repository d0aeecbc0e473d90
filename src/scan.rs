//! The decisions of a directory scan. The scan keeps a work-list of the
//! directories still to read; for each directory read it takes the listing,
//! hands back the files of the wanted kind in listing order, and queues the
//! subdirectories so that each is scanned whole, in listing order, after the
//! files of its parent.
use vstd::prelude::*;
use crate::cue::opt_view;
use crate::text::{chars_of, word_is};

verus! {

/// One entry of a directory listing.
#[derive(Debug, Clone)]
pub struct DirEntry {
    pub path: String,
    pub is_dir: bool,
}

/// The files a scan looks for.
#[derive(Debug, Clone, Copy, PartialEq, Eq)]
pub enum Wanted {
    /// Cue sheets: the extension is `cue`.
    CueSheets,
    /// Audio files: lofty knows a file type for the extension.
    AudioFiles,
}

/// The extension of the file name of `p`, as `Path::extension` gives it.
pub uninterp spec fn extension_of(p: Seq<char>) -> Option<Seq<char>>;

/// Relies on `Path::extension`: the extension of the path's file name, if it
/// has one; the result depends on the path alone.
#[verifier::external_body]
fn path_extension(p: &str) -> (r: Option<String>)
    ensures
        opt_view(r) == extension_of(p@),
{
    std::path::Path::new(p).extension().and_then(|e| e.to_str()).map(|e| e.to_string())
}

/// Relies on `lofty::file::FileType::from_ext`: whether it gives a file type
/// for the extension. The answer also depends on lofty's process-wide
/// registry of custom resolvers, so nothing is promised of it.
#[verifier::external_body]
fn lofty_file_type_known(ext: &str) -> (r: bool) {
    lofty::file::FileType::from_ext(ext).is_some()
}

/// A cue sheet is a file whose extension is `cue`.
pub open spec fn is_cue_path(path: Seq<char>) -> bool {
    extension_of(path) == Some(seq!['c', 'u', 'e'])
}

/// Whether the file at `path` is of the wanted kind. For cue sheets the
/// answer is exact; for audio files it is lofty's, and is yes only for a
/// path with an extension.
pub fn is_wanted(kind: &Wanted, path: &str) -> (r: bool)
    ensures
        *kind is CueSheets ==> r == is_cue_path(path@),
        r ==> extension_of(path@) is Some,
{
    match path_extension(path) {
        Some(e) => match kind {
            Wanted::CueSheets => {
                proof {
                    reveal_strlit("cue");
                    assert("cue"@ =~= seq!['c', 'u', 'e']);
                }
                word_is(&chars_of(e.as_str()), "cue")
            },
            Wanted::AudioFiles => lofty_file_type_known(e.as_str()),
        },
        None => false,
    }
}

/// The paths of the files of a listing whose answer in `w` is yes, in
/// listing order. Directories are never taken.
pub open spec fn selected_files(es: Seq<DirEntry>, w: Seq<bool>) -> Seq<Seq<char>>
    decreases es.len(),
{
    if es.len() == 0 {
        seq![]
    } else {
        let r = selected_files(es.drop_last(), w.drop_last());
        let e = es.last();
        if !e.is_dir && w.last() {
            r.push(e.path@)
        } else {
            r
        }
    }
}

/// Answers, one per entry, that `is_wanted` may give for a listing.
pub open spec fn answers_fit(kind: Wanted, es: Seq<DirEntry>, w: Seq<bool>) -> bool {
    &&& w.len() == es.len()
    &&& forall|i: int|
        0 <= i < w.len() ==> (kind is CueSheets ==> w[i] == is_cue_path(es[i].path@)) && (w[i]
            ==> extension_of(es[i].path@) is Some)
}

/// The paths of the subdirectories of a listing, last first.
pub open spec fn subdirs_last_first(es: Seq<DirEntry>) -> Seq<Seq<char>>
    decreases es.len(),
{
    if es.len() == 0 {
        seq![]
    } else {
        subdirs_last_first(es.drop_first()) + if es[0].is_dir {
            seq![es[0].path@]
        } else {
            seq![]
        }
    }
}

pub open spec fn paths(v: Seq<String>) -> Seq<Seq<char>> {
    v.map_values(|s: String| s@)
}

/// A scan in progress.
#[derive(Debug, Clone)]
pub struct Scan {
    /// The directories still to read; the next one is the last.
    pub pending: Vec<String>,
    /// The files it looks for.
    pub kind: Wanted,
}

impl Scan {
    /// A scan of the tree under `root`.
    pub fn new(root: String, kind: Wanted) -> (r: Scan)
        ensures
            paths(r.pending@) == seq![root@],
            r.kind == kind,
    {
        let mut pending: Vec<String> = Vec::new();
        pending.push(root);
        let r = Scan { pending, kind };
        assert(paths(r.pending@) =~= seq![root@]);
        r
    }

    /// The next directory to read, or `None` when the scan is done.
    pub fn next_dir(&mut self) -> (r: Option<String>)
        ensures
            final(self).kind == old(self).kind,
            old(self).pending@.len() == 0 ==> r is None && final(self).pending@ == old(
                self,
            ).pending@,
            old(self).pending@.len() > 0 ==> r is Some && r->0@ == old(self).pending@.last()@
                && final(self).pending@ == old(self).pending@.drop_last(),
    {
        self.pending.pop()
    }

    /// Takes the listing of the directory just read: gives back the wanted
    /// files in listing order, and queues the subdirectories so that they are
    /// read next, first listed first.
    pub fn visit(&mut self, entries: &Vec<DirEntry>) -> (r: Vec<String>)
        ensures
            final(self).kind == old(self).kind,
            exists|w: Seq<bool>|
                answers_fit(old(self).kind, entries@, w) && paths(r@) == selected_files(
                    entries@,
                    w,
                ),
            paths(final(self).pending@) == paths(old(self).pending@) + subdirs_last_first(
                entries@,
            ),
    {
        let mut answers: Vec<bool> = Vec::new();
        let mut i: usize = 0;
        while i < entries.len()
            invariant
                i <= entries.len(),
                answers_fit(self.kind, entries@.subrange(0, i as int), answers@),
            decreases entries.len() - i,
        {
            let a = is_wanted(&self.kind, entries[i].path.as_str());
            answers.push(a);
            i = i + 1;
        }
        assert(entries@.subrange(0, entries@.len() as int) =~= entries@);
        let r = self.visit_with(entries, &answers);
        assert(answers_fit(old(self).kind, entries@, answers@));
        r
    }

    /// Takes the listing of the directory just read, with one answer per
    /// entry saying whether it is wanted: gives back the wanted files in
    /// listing order, and queues the subdirectories so that they are read
    /// next, first listed first.
    pub fn visit_with(&mut self, entries: &Vec<DirEntry>, wanted: &Vec<bool>) -> (r: Vec<String>)
        requires
            wanted@.len() == entries@.len(),
        ensures
            final(self).kind == old(self).kind,
            paths(r@) == selected_files(entries@, wanted@),
            paths(final(self).pending@) == paths(old(self).pending@) + subdirs_last_first(
                entries@,
            ),
    {
        let mut files: Vec<String> = Vec::new();
        let mut i: usize = 0;
        while i < entries.len()
            invariant
                i <= entries.len() == wanted@.len(),
                paths(files@) == selected_files(
                    entries@.subrange(0, i as int),
                    wanted@.subrange(0, i as int),
                ),
            decreases entries.len() - i,
        {
            let e = &entries[i];
            assert(entries@.subrange(0, i + 1).drop_last() =~= entries@.subrange(0, i as int));
            assert(wanted@.subrange(0, i + 1).drop_last() =~= wanted@.subrange(0, i as int));
            if !e.is_dir && wanted[i] {
                let ghost before = files@;
                files.push(e.path.clone());
                assert(paths(files@) =~= paths(before).push(e.path@));
            }
            i = i + 1;
        }
        assert(wanted@.subrange(0, wanted@.len() as int) =~= wanted@);
        assert(entries@.subrange(0, entries@.len() as int) =~= entries@);
        let ghost start = paths(self.pending@);
        let mut k: usize = entries.len();
        assert(entries@.subrange(k as int, entries@.len() as int) =~= seq![]);
        assert(start + seq![] =~= start);
        while k > 0
            invariant
                k <= entries.len(),
                self.kind == old(self).kind,
                paths(self.pending@) == start + subdirs_last_first(
                    entries@.subrange(k as int, entries@.len() as int),
                ),
            decreases k,
        {
            k = k - 1;
            let e = &entries[k];
            let ghost rest = entries@.subrange(k + 1, entries@.len() as int);
            let ghost here = entries@.subrange(k as int, entries@.len() as int);
            assert(here.drop_first() =~= rest);
            let ghost before = paths(self.pending@);
            if e.is_dir {
                self.pending.push(e.path.clone());
                assert(paths(self.pending@) =~= before.push(e.path@));
                assert(before.push(e.path@) =~= start + subdirs_last_first(here));
            } else {
                assert(subdirs_last_first(rest) + seq![] =~= subdirs_last_first(rest));
            }
        }
        files
    }
}

} // verus!
