//! Readers that say which frame playback shows next.
//!
//! A reader over files does not open them: it answers with the path of the
//! file to read, and the caller reads it. A reader over memory answers with
//! the frame itself.

use vstd::prelude::*;
use vstd::string::StrSliceExecFns;
use crate::formats::pointcloud::PointCloud;

verus! {

/// What a renderer asks of a source of frames. `T` is what the source hands
/// out for a frame.
pub trait RenderReader<T> {
    /// The first frame to show.
    fn start(&mut self) -> Option<T>;

    /// The frame at `index`.
    fn get_at(&mut self, index: usize) -> Option<T>;

    /// The frame at `index` at level of detail `lod`.
    fn get_at_with_lod(&mut self, index: usize, lod: usize) -> Option<T>;

    /// The number of frames.
    fn len(&self) -> usize;

    /// Whether there is no frame.
    fn is_empty(&self) -> bool;

    /// Tells the source how many frames there are.
    fn set_len(&mut self, len: usize);
}

/// Whether the file name at the end of `path` has the extension `ext`: the
/// path ends in a dot and `ext`, the dot is not the first character of the
/// file name, and `ext` itself holds neither a dot nor a separator.
pub open spec fn has_extension(path: Seq<char>, ext: Seq<char>) -> bool {
    let n = path.len() as int;
    let e = ext.len() as int;
    &&& n >= e + 2
    &&& path.subrange(n - e, n) == ext
    &&& path[n - e - 1] == '.'
    &&& path[n - e - 2] != '/'
    &&& forall|k: int| 0 <= k < e ==> ext[k] != '.' && ext[k] != '/'
}

/// The paths of `listing` with the extension `ext`, in the order of the
/// listing.
pub open spec fn with_extension(listing: Seq<String>, ext: Seq<char>) -> Seq<String>
    decreases listing.len(),
{
    if listing.len() == 0 {
        Seq::empty()
    } else {
        let before = with_extension(listing.drop_last(), ext);
        if has_extension(listing.last()@, ext) {
            before.push(listing.last())
        } else {
            before
        }
    }
}

/// Whether `a` comes before `b` or is `b`, character by character, a text
/// coming after each of its proper beginnings.
pub open spec fn lex_le(a: Seq<char>, b: Seq<char>) -> bool
    decreases a.len(),
{
    if a.len() == 0 {
        true
    } else if b.len() == 0 {
        false
    } else if a[0] != b[0] {
        (a[0] as u32) < (b[0] as u32)
    } else {
        lex_le(a.skip(1), b.skip(1))
    }
}

/// Whether the paths are in ascending order.
pub open spec fn ascending_paths(paths: Seq<String>) -> bool {
    forall|i: int, j: int| 0 <= i <= j < paths.len() ==> lex_le(paths[i]@, paths[j]@)
}

/// What a reader keeps of the listing of one directory: the paths with the
/// extension, in ascending order.
pub open spec fn kept_of(listing: Seq<String>, ext: Seq<char>, kept: Seq<String>) -> bool {
    kept.to_multiset() == with_extension(listing, ext).to_multiset() && ascending_paths(kept)
}

/// Sorts the paths.
///
/// Trusted: this calls the standard library's `sort` on the vector of
/// strings. The sort rearranges the strings, so the vector afterwards holds
/// each as often as before, and leaves them in ascending order; strings are
/// ordered by their bytes, which for UTF-8 is the order of their characters.
#[verifier::external_body]
fn sort_paths(paths: &mut Vec<String>)
    ensures
        final(paths)@.to_multiset() == old(paths)@.to_multiset(),
        ascending_paths(final(paths)@),
{
    paths.sort();
}

/// Whether the file name at the end of `path` has the extension `ext`.
pub fn has_extension_of(path: &str, ext: &str) -> (has: bool)
    ensures
        has == has_extension(path@, ext@),
{
    let n: usize = path.unicode_len();
    let e: usize = ext.unicode_len();
    if e >= usize::MAX - 1 || n < e + 2 {
        return false;
    }
    if path.get_char(n - e - 1) != '.' || path.get_char(n - e - 2) == '/' {
        return false;
    }
    let mut k: usize = 0;
    while k < e
        invariant
            k <= e,
            e == ext@.len(),
            n == path@.len(),
            n >= e + 2,
            forall|t: int| 0 <= t < k ==> ext@[t] != '.' && ext@[t] != '/' && path@[n - e + t] == ext@[t],
        decreases e - k,
    {
        let c = ext.get_char(k);
        if c == '.' || c == '/' || path.get_char(n - e + k) != c {
            proof {
                if path@.subrange(n - e, n as int) == ext@ {
                    assert(path@.subrange(n - e, n as int)[k as int] == path@[n - e + k]);
                }
            }
            return false;
        }
        k = k + 1;
    }
    assert(path@.subrange(n - e, n as int) =~= ext@);
    true
}

/// The paths of one listing that have the extension, sorted.
fn keep_sorted(listing: &Vec<String>, ext: &str) -> (kept: Vec<String>)
    ensures
        kept_of(listing@, ext@, kept@),
{
    let mut kept: Vec<String> = Vec::new();
    let mut i: usize = 0;
    while i < listing.len()
        invariant
            i <= listing.len(),
            kept@ == with_extension(listing@.take(i as int), ext@),
        decreases listing.len() - i,
    {
        proof {
            let next = listing@.take(i + 1);
            assert(next.drop_last() =~= listing@.take(i as int));
            assert(next.last() == listing@[i as int]);
        }
        if has_extension_of(listing[i].as_str(), ext) {
            kept.push(listing[i].clone());
        }
        i = i + 1;
    }
    assert(listing@.take(listing.len() as int) =~= listing@);
    sort_paths(&mut kept);
    kept
}

/// For each listing the paths that have the extension, sorted.
fn keep_all_sorted(listings: &Vec<Vec<String>>, ext: &str) -> (files: Vec<Vec<String>>)
    ensures
        files@.len() == listings@.len(),
        forall|d: int| 0 <= d < listings@.len() ==> kept_of(listings@[d]@, ext@, (#[trigger] files@[d])@),
{
    let mut files: Vec<Vec<String>> = Vec::new();
    let mut d: usize = 0;
    while d < listings.len()
        invariant
            d <= listings.len(),
            files@.len() == d,
            forall|t: int| 0 <= t < d ==> kept_of(listings@[t]@, ext@, (#[trigger] files@[t])@),
        decreases listings.len() - d,
    {
        files.push(keep_sorted(&listings[d], ext));
        d = d + 1;
    }
    files
}

/// The path at `index` of level `lod`, where there is one.
pub open spec fn path_at(files: Seq<Vec<String>>, index: int, lod: int) -> Option<String> {
    if 0 <= lod < files.len() && 0 <= index < files[lod]@.len() {
        Some(files[lod]@[index])
    } else {
        None
    }
}

/// Computes [`path_at`].
fn path_at_of(files: &Vec<Vec<String>>, index: usize, lod: usize) -> (path: Option<String>)
    ensures
        path == path_at(files@, index as int, lod as int),
{
    if lod < files.len() && index < files[lod].len() {
        Some(files[lod][index].clone())
    } else {
        None
    }
}

/// A reader over directories of `.pcd` files, one directory per level of
/// detail.
pub struct PcdFileReader {
    files: Vec<Vec<String>>,
}

impl PcdFileReader {
    /// The paths the reader keeps, level by level.
    pub closed spec fn files(&self) -> Seq<Vec<String>> {
        self.files@
    }

    /// A reader over one directory, given the paths of its entries: it keeps
    /// the paths with the extension `pcd`, in ascending order.
    pub fn from_directory(directory: Vec<String>) -> (reader: Self)
        ensures
            reader.files().len() == 1,
            kept_of(directory@, "pcd"@, reader.files()[0]@),
    {
        let mut directories: Vec<Vec<String>> = Vec::new();
        directories.push(directory);
        Self::from_directories(directories)
    }

    /// A reader over several directories, given for each the paths of its
    /// entries: of each it keeps the paths with the extension `pcd`, in
    /// ascending order.
    pub fn from_directories(directories: Vec<Vec<String>>) -> (reader: Self)
        ensures
            reader.files().len() == directories@.len(),
            forall|d: int|
                0 <= d < directories@.len() ==> kept_of(
                    directories@[d]@,
                    "pcd"@,
                    (#[trigger] reader.files()[d])@,
                ),
    {
        Self { files: keep_all_sorted(&directories, "pcd") }
    }

    /// The path of the file at `index` of the first directory.
    pub fn file_at(&self, index: usize) -> (path: Option<&String>)
        ensures
            path is Some == (self.files().len() > 0 && index < self.files()[0]@.len()),
            path is Some ==> *path->Some_0 == self.files()[0]@[index as int],
    {
        if self.files.len() > 0 && index < self.files[0].len() {
            Some(&self.files[0][index])
        } else {
            None
        }
    }
}

impl RenderReader<String> for PcdFileReader {
    /// The path of the first file of the last directory.
    fn start(&mut self) -> (path: Option<String>)
        ensures
            *final(self) == *old(self),
            path == path_at(old(self).files(), 0, old(self).files().len() - 1),
    {
        if self.files.len() == 0 {
            return None;
        }
        let lod: usize = self.files.len() - 1;
        self.get_at_with_lod(0, lod)
    }

    /// The path of the file at `index` of the first directory.
    fn get_at(&mut self, index: usize) -> (path: Option<String>)
        ensures
            *final(self) == *old(self),
            path == path_at(old(self).files(), index as int, 0),
    {
        self.get_at_with_lod(index, 0)
    }

    /// The path of the file at `index` of directory `lod`.
    fn get_at_with_lod(&mut self, index: usize, lod: usize) -> (path: Option<String>)
        ensures
            *final(self) == *old(self),
            path == path_at(old(self).files(), index as int, lod as int),
    {
        path_at_of(&self.files, index, lod)
    }

    /// The number of directories.
    fn len(&self) -> (n: usize)
        ensures
            n == self.files().len(),
    {
        self.files.len()
    }

    /// Whether there is no directory.
    fn is_empty(&self) -> (empty: bool)
        ensures
            empty == (self.files().len() == 0),
    {
        self.files.len() == 0
    }

    /// Does nothing: the directories say how many frames there are.
    fn set_len(&mut self, _len: usize)
        ensures
            *final(self) == *old(self),
    {
    }
}

/// A reader over directories of point-cloud files of one type, one
/// directory per level of detail.
pub struct PointCloudFileReader {
    files: Vec<Vec<String>>,
}

impl PointCloudFileReader {
    /// The paths the reader keeps, level by level.
    pub closed spec fn files(&self) -> Seq<Vec<String>> {
        self.files@
    }

    /// A reader over one directory, given the paths of its entries: it keeps
    /// the paths with the extension `file_type`, in ascending order.
    pub fn from_directory(directory: Vec<String>, file_type: &str) -> (reader: Self)
        ensures
            reader.files().len() == 1,
            kept_of(directory@, file_type@, reader.files()[0]@),
    {
        let mut directories: Vec<Vec<String>> = Vec::new();
        directories.push(directory);
        Self::from_directories(directories, file_type)
    }

    /// A reader over several directories, given for each the paths of its
    /// entries: of each it keeps the paths with the extension `file_type`,
    /// in ascending order.
    pub fn from_directories(directories: Vec<Vec<String>>, file_type: &str) -> (reader: Self)
        ensures
            reader.files().len() == directories@.len(),
            forall|d: int|
                0 <= d < directories@.len() ==> kept_of(
                    directories@[d]@,
                    file_type@,
                    (#[trigger] reader.files()[d])@,
                ),
    {
        Self { files: keep_all_sorted(&directories, file_type) }
    }
}

impl RenderReader<String> for PointCloudFileReader {
    /// The path of the first file of the last directory.
    fn start(&mut self) -> (path: Option<String>)
        ensures
            *final(self) == *old(self),
            path == path_at(old(self).files(), 0, old(self).files().len() - 1),
    {
        if self.files.len() == 0 {
            return None;
        }
        let lod: usize = self.files.len() - 1;
        self.get_at_with_lod(0, lod)
    }

    /// The path of the file at `index` of the first directory.
    fn get_at(&mut self, index: usize) -> (path: Option<String>)
        ensures
            *final(self) == *old(self),
            path == path_at(old(self).files(), index as int, 0),
    {
        self.get_at_with_lod(index, 0)
    }

    /// The path of the file at `index` of directory `lod`.
    fn get_at_with_lod(&mut self, index: usize, lod: usize) -> (path: Option<String>)
        ensures
            *final(self) == *old(self),
            path == path_at(old(self).files(), index as int, lod as int),
    {
        path_at_of(&self.files, index, lod)
    }

    /// The number of files of the first directory.
    fn len(&self) -> (n: usize)
        ensures
            n == (if self.files().len() > 0 {
                self.files()[0]@.len()
            } else {
                0
            }),
    {
        if self.files.len() > 0 {
            self.files[0].len()
        } else {
            0
        }
    }

    /// Whether the first directory has no file.
    fn is_empty(&self) -> (empty: bool)
        ensures
            empty == (self.files().len() == 0 || self.files()[0]@.len() == 0),
    {
        self.files.len() == 0 || self.files[0].len() == 0
    }

    /// Does nothing: the first directory says how many frames there are.
    fn set_len(&mut self, _len: usize)
        ensures
            *final(self) == *old(self),
    {
    }
}

/// A reader over frames held in memory.
pub struct PcdMemoryReader {
    points: Vec<PointCloud>,
}

impl PcdMemoryReader {
    /// The frames the reader holds.
    pub closed spec fn frames(&self) -> Seq<PointCloud> {
        self.points@
    }

    /// A reader over the given frames.
    pub fn from_vec(points: Vec<PointCloud>) -> (reader: Self)
        ensures
            reader.frames() == points@,
    {
        Self { points }
    }
}

impl RenderReader<PointCloud> for PcdMemoryReader {
    /// A copy of the frame at `index`.
    fn get_at(&mut self, index: usize) -> (frame: Option<PointCloud>)
        ensures
            *final(self) == *old(self),
            frame is Some == (index < old(self).frames().len()),
            frame is Some ==> frame->Some_0@ == old(self).frames()[index as int]@,
    {
        if index < self.points.len() {
            Some(self.points[index].clone())
        } else {
            None
        }
    }

    /// A copy of the frame at `index`; frames in memory have one level of
    /// detail.
    fn get_at_with_lod(&mut self, index: usize, _lod: usize) -> (frame: Option<PointCloud>)
        ensures
            *final(self) == *old(self),
            frame is Some == (index < old(self).frames().len()),
            frame is Some ==> frame->Some_0@ == old(self).frames()[index as int]@,
    {
        self.get_at(index)
    }

    /// A copy of the first frame.
    fn start(&mut self) -> (frame: Option<PointCloud>)
        ensures
            *final(self) == *old(self),
            frame is Some == (old(self).frames().len() > 0),
            frame is Some ==> frame->Some_0@ == old(self).frames()[0]@,
    {
        self.get_at(0)
    }

    /// The number of frames.
    fn len(&self) -> (n: usize)
        ensures
            n == self.frames().len(),
    {
        self.points.len()
    }

    /// Whether there is no frame.
    fn is_empty(&self) -> (empty: bool)
        ensures
            empty == (self.frames().len() == 0),
    {
        self.points.len() == 0
    }

    /// Does nothing: the frames held say how many there are.
    fn set_len(&mut self, _len: usize)
        ensures
            *final(self) == *old(self),
    {
    }
}

} // verus!
