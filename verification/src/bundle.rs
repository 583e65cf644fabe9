//! The workload bundle: a tar archive of files, keyed by normalized path.

use crate::text;
use std::io::Read;
use vstd::prelude::*;

verus! {

// ---------------------------------------------------------------------------
// Paths
// ---------------------------------------------------------------------------

/// A path without any leading `./`.
pub open spec fn without_dot_slash(path: Seq<char>) -> Seq<char>
    decreases path.len(),
{
    if path.len() >= 2 && path[0] == '.' && path[1] == '/' {
        without_dot_slash(path.skip(2))
    } else {
        path
    }
}

/// A path without any leading slash.
pub open spec fn without_slash(path: Seq<char>) -> Seq<char>
    decreases path.len(),
{
    if path.len() >= 1 && path[0] == '/' {
        without_slash(path.skip(1))
    } else {
        path
    }
}

/// The key under which the file at `path` is kept.
pub open spec fn normalized(path: Seq<char>) -> Seq<char> {
    without_slash(without_dot_slash(path))
}

/// Strips every leading `./`, then every leading slash.
pub fn normalize(path: &str) -> (key: String)
    ensures
        key@ == normalized(path@),
{
    let chars = text::chars_of(path);
    let mut i: usize = 0;
    assert(path@.skip(0) =~= path@);
    while chars.len() - i >= 2 && chars[i] == '.' && chars[i + 1] == '/'
        invariant
            i <= chars@.len(),
            chars@ == path@,
            without_dot_slash(path@) == without_dot_slash(path@.skip(i as int)),
        decreases chars@.len() - i,
    {
        assert(path@.skip(i as int).skip(2) =~= path@.skip(i + 2));
        i = i + 2;
    }
    assert(without_dot_slash(path@) == path@.skip(i as int));
    let ghost start = i;
    while i < chars.len() && chars[i] == '/'
        invariant
            i <= chars@.len(),
            start <= i,
            chars@ == path@,
            without_slash(path@.skip(start as int)) == without_slash(path@.skip(i as int)),
        decreases chars@.len() - i,
    {
        assert(path@.skip(i as int).skip(1) =~= path@.skip(i + 1));
        i = i + 1;
    }
    let key = path.substring_char(i, chars.len());
    assert(key@ =~= path@.skip(i as int));
    key.to_string()
}

/// A leading `./` makes no difference.
pub proof fn law_leading_dot_slash_is_tolerated(path: Seq<char>)
    ensures
        normalized(seq!['.', '/'] + path) == normalized(path),
{
    assert((seq!['.', '/'] + path).skip(2) =~= path);
}

// ---------------------------------------------------------------------------
// Files
// ---------------------------------------------------------------------------

/// A file of a bundle.
#[derive(Debug)]
struct BundleFile {
    path: String,
    data: Vec<u8>,
}

/// The files of a bundle, by normalized path.
#[derive(Debug)]
pub struct BundleFiles {
    files: Vec<BundleFile>,
}

/// The map that a list of files stands for, later files first.
spec fn map_of(files: Seq<BundleFile>) -> Map<Seq<char>, Seq<u8>>
    decreases files.len(),
{
    if files.len() == 0 {
        Map::empty()
    } else {
        map_of(files.drop_last()).insert(files.last().path@, files.last().data@)
    }
}

impl View for BundleFiles {
    type V = Map<Seq<char>, Seq<u8>>;

    closed spec fn view(&self) -> Map<Seq<char>, Seq<u8>> {
        map_of(self.files@)
    }
}

/// The last file at a path decides.
proof fn lemma_map_of(files: Seq<BundleFile>, i: int, path: Seq<char>)
    requires
        -1 <= i < files.len(),
        forall|j: int| i < j < files.len() ==> (#[trigger] files[j]).path@ != path,
        i >= 0 ==> files[i].path@ == path,
    ensures
        i >= 0 ==> map_of(files).dom().contains(path) && map_of(files)[path] == files[i].data@,
        i < 0 ==> !map_of(files).dom().contains(path),
    decreases files.len(),
{
    if files.len() > 0 && i < files.len() - 1 {
        let init = files.drop_last();
        assert forall|j: int| i < j < init.len() implies (#[trigger] init[j]).path@ != path by {
            assert(init[j] == files[j]);
        }
        assert(files[files.len() - 1].path@ != path);
        lemma_map_of(init, i, path);
    }
}

/// Replacing the last file at a path.
proof fn lemma_map_of_update(files: Seq<BundleFile>, i: int, file: BundleFile)
    requires
        0 <= i < files.len(),
        files[i].path@ == file.path@,
        forall|j: int| i < j < files.len() ==> (#[trigger] files[j]).path@ != file.path@,
    ensures
        map_of(files.update(i, file)) == map_of(files).insert(file.path@, file.data@),
    decreases files.len(),
{
    let init = files.drop_last();
    let updated = files.update(i, file);
    if i == files.len() - 1 {
        assert(updated.drop_last() =~= init);
        assert(map_of(updated) =~= map_of(files).insert(file.path@, file.data@));
    } else {
        assert(updated.drop_last() =~= init.update(i, file));
        assert(updated.last() == files.last());
        assert forall|j: int| i < j < init.len() implies (#[trigger] init[j]).path@
            != file.path@ by {
            assert(init[j] == files[j]);
        }
        lemma_map_of_update(init, i, file);
        assert(files[files.len() - 1].path@ != file.path@);
        assert(map_of(updated) =~= map_of(files).insert(file.path@, file.data@));
    }
}

impl BundleFiles {
    /// No files.
    pub fn new() -> (files: BundleFiles)
        ensures
            files@ == Map::<Seq<char>, Seq<u8>>::empty(),
    {
        BundleFiles { files: Vec::new() }
    }

    /// Where the last file at `path` stands, or the number of files.
    fn position(&self, path: &str) -> (i: usize)
        ensures
            i <= self.files@.len(),
            i < self.files@.len() ==> self.files@[i as int].path@ == path@ && forall|j: int|
                i < j < self.files@.len() ==> (#[trigger] self.files@[j]).path@ != path@,
            i == self.files@.len() ==> forall|j: int|
                0 <= j < self.files@.len() ==> (#[trigger] self.files@[j]).path@ != path@,
    {
        let mut i: usize = self.files.len();
        while i > 0
            invariant
                i <= self.files@.len(),
                forall|j: int|
                    i <= j < self.files@.len() ==> (#[trigger] self.files@[j]).path@ != path@,
            decreases i,
        {
            i = i - 1;
            if text::str_equal(self.files[i].path.as_str(), path) {
                return i;
            }
        }
        self.files.len()
    }

    /// Keeps `data` under `path`, in place of what was kept there.
    pub fn insert(&mut self, path: String, data: Vec<u8>)
        ensures
            final(self)@ == old(self)@.insert(path@, data@),
    {
        let i = self.position(path.as_str());
        let file = BundleFile { path, data };
        if i < self.files.len() {
            proof {
                lemma_map_of_update(self.files@, i as int, file);
            }
            self.files.set(i, file);
        } else {
            proof {
                assert(self.files@.push(file).drop_last() =~= self.files@);
            }
            self.files.push(file);
        }
    }

    /// The data kept under `path`.
    pub fn get(&self, path: &str) -> (data: Option<&[u8]>)
        ensures
            data is Some <==> self@.dom().contains(path@),
            data matches Some(d) ==> d@ == self@[path@],
    {
        let i = self.position(path);
        if i < self.files.len() {
            proof {
                lemma_map_of(self.files@, i as int, path@);
            }
            Some(self.files[i].data.as_slice())
        } else {
            proof {
                lemma_map_of(self.files@, -1, path@);
            }
            None
        }
    }
}

/// Looks up a component by its configured path, tolerating a leading `./`.
pub fn lookup<'a>(files: &'a BundleFiles, path: &str) -> (data: Option<&'a [u8]>)
    ensures
        data is Some <==> files@.dom().contains(normalized(path@)),
        data matches Some(d) ==> d@ == files@[normalized(path@)],
{
    let key = normalize(path);
    files.get(key.as_str())
}

// ---------------------------------------------------------------------------
// The archive
// ---------------------------------------------------------------------------

/// Declares `std::io::Error`.
#[verifier::external_type_specification]
#[verifier::external_body]
pub struct ExIoError(std::io::Error);

/// The entry of a tar archive at a position: `None` behind the last entry,
/// `Some(None)` where the archive cannot be read, and otherwise whether the
/// entry is a regular file.
pub uninterp spec fn archive_entry(bundle: Seq<u8>, index: nat) -> Option<Option<bool>>;

/// The path and the data of the file at a position of a tar archive, where they
/// can be read. Bytes of the path that are not UTF-8 are replaced.
pub uninterp spec fn archive_file(bundle: Seq<u8>, index: nat) -> Option<(Seq<char>, Seq<u8>)>;

/// Calls `tar::Archive::entries` and `tar::EntryType::is_file`. Claimed: whether
/// there is an entry at a position and what it is is a function of the archive's
/// bytes; and there are no more entries than bytes, since every entry takes up a
/// header.
#[verifier::external_body]
fn entry_kind(bundle: &[u8], index: usize) -> (kind: Option<Result<bool, std::io::Error>>)
    ensures
        kind is None <==> archive_entry(bundle@, index as nat) is None,
        kind matches Some(Err(_)) ==> archive_entry(bundle@, index as nat) == Some(None::<bool>),
        kind matches Some(Ok(file)) ==> archive_entry(bundle@, index as nat) == Some(Some(file)),
        index >= bundle@.len() ==> kind is None,
{
    let mut archive = tar::Archive::new(bundle);
    let mut entries = match archive.entries() {
        Ok(entries) => entries,
        Err(e) => return Some(Err(e)),
    };
    let entry = entries.nth(index)?;
    Some(entry.map(|entry| entry.header().entry_type().is_file()))
}

/// Calls `tar::Entry::path` and `std::io::Read::read_to_end`. Claimed: the path
/// and the data are a function of the archive's bytes and the position.
#[verifier::external_body]
fn entry_file(bundle: &[u8], index: usize) -> (file: Result<(String, Vec<u8>), std::io::Error>)
    requires
        archive_entry(bundle@, index as nat) == Some(Some(true)),
    ensures
        file is Ok <==> archive_file(bundle@, index as nat) is Some,
        file matches Ok((path, data)) ==> archive_file(bundle@, index as nat) == Some(
            (path@, data@),
        ),
{
    let mut archive = tar::Archive::new(bundle);
    let mut entry = archive.entries()?.nth(index).unwrap()?;
    let path = entry.path()?.to_string_lossy().into_owned();
    let mut data = Vec::new();
    entry.read_to_end(&mut data)?;
    Ok((path, data))
}

/// The bundle cannot be read.
#[derive(Debug, Clone, Copy, PartialEq, Eq)]
pub struct BundleError;

/// The files of an archive from a position on, added to `files`; `None` where
/// the archive cannot be read. Entries that are not regular files are passed
/// over, and a later file takes the place of an earlier one at the same path.
pub open spec fn unpacked_from(
    bundle: Seq<u8>,
    index: nat,
    files: Map<Seq<char>, Seq<u8>>,
) -> Option<Map<Seq<char>, Seq<u8>>>
    decreases bundle.len() - index,
{
    if index >= bundle.len() {
        Some(files)
    } else {
        match archive_entry(bundle, index) {
            None => Some(files),
            Some(None) => None,
            Some(Some(false)) => unpacked_from(bundle, index + 1, files),
            Some(Some(true)) => match archive_file(bundle, index) {
                None => None,
                Some((path, data)) => unpacked_from(
                    bundle,
                    index + 1,
                    files.insert(normalized(path), data),
                ),
            },
        }
    }
}

/// Reads every regular file in the bundle tar into memory, keyed by normalized
/// path.
pub fn unpack_bundle(bundle: &[u8]) -> (r: Result<BundleFiles, BundleError>)
    ensures
        r is Ok <==> unpacked_from(bundle@, 0, Map::empty()) is Some,
        r matches Ok(files) ==> unpacked_from(bundle@, 0, Map::empty()) == Some(files@),
{
    let mut files = BundleFiles::new();
    let mut index: usize = 0;
    while index < bundle.len()
        invariant
            index <= bundle@.len(),
            unpacked_from(bundle@, 0, Map::empty()) == unpacked_from(
                bundle@,
                index as nat,
                files@,
            ),
        decreases bundle@.len() - index,
    {
        match entry_kind(bundle, index) {
            None => return Ok(files),
            Some(Err(_)) => return Err(BundleError),
            Some(Ok(is_file)) => {
                if is_file {
                    match entry_file(bundle, index) {
                        Ok((path, data)) => {
                            let key = normalize(path.as_str());
                            files.insert(key, data);
                        },
                        Err(_) => return Err(BundleError),
                    }
                }
            },
        }
        index = index + 1;
    }
    Ok(files)
}

// ---------------------------------------------------------------------------
// Laws
// ---------------------------------------------------------------------------

/// Leading slashes make no difference either: what is left of a path is what follows
/// them. A path that starts with neither `/` nor `./` is kept as it is.
pub proof fn law_leading_slashes_are_tolerated(path: Seq<char>)
    ensures
        path.len() > 0 && path[0] == '/' ==> normalized(seq!['/'] + path) == normalized(path),
        path.len() == 0 || path[0] != '/' ==> normalized(seq!['/'] + path) == path,
        !(path.len() > 0 && path[0] == '/') && !(path.len() > 1 && path[0] == '.' && path[1] == '/')
            ==> normalized(path) == path,
{
    let slashed = seq!['/'] + path;
    assert(slashed.skip(1) =~= path);
    assert(slashed[0] == '/');
    assert(without_dot_slash(slashed) == slashed);
    assert(without_slash(slashed) == without_slash(path));
}

/// The entry at a position is a regular file that is kept under `key`.
pub open spec fn file_at(bundle: Seq<u8>, i: nat, key: Seq<char>) -> bool {
    archive_entry(bundle, i) == Some(Some(true)) && (archive_file(bundle, i) matches Some(file)
        && normalized(file.0) == key)
}

/// The entry at a position can be read, and so can the file that it is.
pub open spec fn readable_at(bundle: Seq<u8>, i: nat) -> bool {
    &&& archive_entry(bundle, i) matches Some(Some(is_file))
    &&& is_file ==> archive_file(bundle, i) is Some
}

/// The archive has `n` entries.
pub open spec fn has_entries(bundle: Seq<u8>, n: nat) -> bool {
    &&& n <= bundle.len()
    &&& forall|i: nat| i < n ==> (#[trigger] archive_entry(bundle, i)) is Some
    &&& n < bundle.len() ==> archive_entry(bundle, n) is None
}

#[verifier::rlimit(40)]
proof fn lemma_unpacked(bundle: Seq<u8>, n: nat, index: nat, files: Map<Seq<char>, Seq<u8>>)
    requires
        has_entries(bundle, n),
        index <= n,
    ensures
        unpacked_from(bundle, index, files) is Some <==> (forall|i: nat|
            index <= i < n ==> #[trigger] readable_at(bundle, i)),
        unpacked_from(bundle, index, files) matches Some(all) ==> {
            &&& forall|i: nat, key: Seq<char>|
                index <= i < n && #[trigger] file_at(bundle, i, key) && (forall|j: nat|
                    i < j < n ==> !#[trigger] file_at(bundle, j, key)) ==> all.dom().contains(key)
                    && all[key] == (archive_file(bundle, i)->0).1
            &&& forall|key: Seq<char>|
                (forall|j: nat| index <= j < n ==> !#[trigger] file_at(bundle, j, key)) ==> (
                (#[trigger] all.dom().contains(key)) <==> files.dom().contains(key)) && (
                files.dom().contains(key) ==> all[key] == files[key])
        },
    decreases n - index,
{
    if index < n {
        assert(archive_entry(bundle, index) is Some);
        assert(readable_at(bundle, index) || !readable_at(bundle, index));
        match archive_entry(bundle, index) {
            Some(Some(false)) => {
                lemma_unpacked(bundle, n, index + 1, files);
                let r = unpacked_from(bundle, index, files);
                if r is Some {
                    let all = r->0;
                    assert forall|key: Seq<char>|
                        (forall|j: nat|
                            index <= j < n ==> !#[trigger] file_at(
                                bundle,
                                j,
                                key,
                            )) implies ((#[trigger] all.dom().contains(key))
                        <==> files.dom().contains(key)) && (files.dom().contains(key) ==> all[key]
                        == files[key]) by {}
                    assert forall|i: nat, key: Seq<char>|
                        index <= i < n && #[trigger] file_at(bundle, i, key) && (forall|j: nat|
                            i < j < n ==> !#[trigger] file_at(
                                bundle,
                                j,
                                key,
                            )) implies all.dom().contains(key) && all[key] == (archive_file(
                        bundle,
                        i,
                    )->0).1 by {
                        assert(i != index);
                    }
                }
            },
            Some(Some(true)) => {
                if let Some((path, data)) = archive_file(bundle, index) {
                    let more = files.insert(normalized(path), data);
                    lemma_unpacked(bundle, n, index + 1, more);
                    let r = unpacked_from(bundle, index, files);
                    if r is Some {
                        let all = r->0;
                        assert(file_at(bundle, index, normalized(path)));
                        assert forall|key: Seq<char>|
                            (forall|j: nat|
                                index <= j < n ==> !#[trigger] file_at(
                                    bundle,
                                    j,
                                    key,
                                )) implies ((#[trigger] all.dom().contains(key))
                            <==> files.dom().contains(key)) && (files.dom().contains(key)
                            ==> all[key] == files[key]) by {
                            assert(key != normalized(path));
                        }
                        assert forall|i: nat, key: Seq<char>|
                            index <= i < n && #[trigger] file_at(bundle, i, key) && (forall|j: nat|
                                i < j < n ==> !#[trigger] file_at(
                                    bundle,
                                    j,
                                    key,
                                )) implies all.dom().contains(key) && all[key] == (archive_file(
                            bundle,
                            i,
                        )->0).1 by {
                            if i == index {
                                assert(key == normalized(path));
                                assert(more.dom().contains(key) && more[key] == data);
                            }
                        }
                    }
                }
            },
            _ => {},
        }
        let r = unpacked_from(bundle, index, files);
        if forall|i: nat| index <= i < n ==> #[trigger] readable_at(bundle, i) {
            assert(readable_at(bundle, index));
            assert forall|i: nat| index + 1 <= i < n implies #[trigger] readable_at(
                bundle,
                i,
            ) by {}
            assert(r is Some);
        }
        if r is Some {
            assert(readable_at(bundle, index));
            assert forall|i: nat| index <= i < n implies #[trigger] readable_at(bundle, i) by {
                if i > index {
                    assert(index + 1 <= i);
                }
            }
        }
    }
}

/// What is unpacked of an archive of `n` entries. It is unpacked exactly where every
/// entry can be read. A file is then kept under its normalized path, unless a later
/// one takes that place; and nothing is kept that is not a regular file of the archive.
pub proof fn law_unpacked_files_are_the_last_of_their_path(bundle: Seq<u8>, n: nat)
    requires
        has_entries(bundle, n),
    ensures
        unpacked_from(bundle, 0, Map::empty()) is Some <==> (forall|i: nat|
            i < n ==> #[trigger] readable_at(bundle, i)),
        unpacked_from(bundle, 0, Map::empty()) matches Some(files) ==> {
            &&& forall|i: nat, key: Seq<char>|
                i < n && #[trigger] file_at(bundle, i, key) && (forall|j: nat|
                    i < j < n ==> !#[trigger] file_at(bundle, j, key)) ==> files.dom().contains(key)
                    && files[key] == (archive_file(bundle, i)->0).1
            &&& forall|key: Seq<char>| #[trigger]
                files.dom().contains(key) ==> exists|j: nat| j < n && #[trigger] file_at(bundle, j, key)
        },
{
    lemma_unpacked(bundle, n, 0, Map::empty());
}

} // verus!
