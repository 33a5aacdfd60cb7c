//! Files that come over the network in one piece.

use vstd::prelude::*;
use vstd::slice::slice_subrange;
use vstd::string::*;
use vstd::utf8::valid_utf8;

use crate::bytes::{
    all_zero, read_u16, read_u32, read_u64, same_bytes, u16_at, u32_at, u64_at, zeros,
};
use crate::manifest::utf8_str;
use crate::Error;

verus! {

/// `MBOOTNET`.
pub const MAGIC: [u8; 8] = [0x4d, 0x42, 0x4f, 0x4f, 0x54, 0x4e, 0x45, 0x54];

pub const VERSION: u16 = 1;

pub const HEADER_SIZE: usize = 32;

pub const ENTRY_HEADER_SIZE: usize = 16;

pub const MAX_FILE_COUNT: usize = 32;

/// A file and its path.
#[verifier::ext_equal]
pub struct BundleFile {
    pub path: Seq<u8>,
    pub data: Seq<u8>,
}

/// The separators of firmware and of Unix are the same.
pub open spec fn normalized(byte: u8) -> u8 {
    if byte == 0x2f {
        0x5c
    } else {
        byte
    }
}

pub open spec fn same_path(a: Seq<u8>, b: Seq<u8>) -> bool {
    a.map_values(|byte: u8| normalized(byte)) == b.map_values(|byte: u8| normalized(byte))
}

/// The file whose entry is at an offset, and where the next entry is.
pub open spec fn entry_at(b: Seq<u8>, at: int) -> Option<(BundleFile, int)> {
    let path_length = u16_at(b, at) as int;
    let data_length = u64_at(b, at + 4) as int;
    let path_start = at + 16;
    let data_start = path_start + path_length;
    let end = data_start + data_length;
    if at + 16 > b.len() || path_length == 0 || u16_at(b, at + 2) != 0 || u32_at(b, at + 12) != 0
        || end > b.len() || !valid_utf8(b.subrange(path_start, data_start)) {
        None
    } else {
        Some(
            (
                BundleFile {
                    path: b.subrange(path_start, data_start),
                    data: b.subrange(data_start, end),
                },
                end,
            ),
        )
    }
}

/// The first `n` files, and where the next entry is.
pub open spec fn files_of(b: Seq<u8>, n: int) -> Option<(Seq<BundleFile>, int)>
    decreases n,
{
    if n <= 0 {
        Some((Seq::empty(), HEADER_SIZE as int))
    } else {
        match files_of(b, n - 1) {
            None => None,
            Some((files, at)) => match entry_at(b, at) {
                None => None,
                Some((file, next)) => Some((files.push(file), next)),
            },
        }
    }
}

/// The first `n` files that are there.
pub open spec fn listed(b: Seq<u8>, n: int) -> Seq<BundleFile> {
    match files_of(b, n) {
        Some((files, _)) => files,
        None => Seq::empty(),
    }
}

/// Where the entry behind the first `n` files is.
pub open spec fn offset_after(b: Seq<u8>, n: int) -> int {
    match files_of(b, n) {
        Some((_, at)) => at,
        None => 0,
    }
}

/// The header of a bundle is sound.
pub open spec fn has_header(b: Seq<u8>) -> bool {
    &&& b.len() >= 32
    &&& b.subrange(0, 8) == MAGIC@
    &&& u16_at(b, 8) == VERSION
    &&& u16_at(b, 10) == HEADER_SIZE
    &&& 1 <= u16_at(b, 12) <= MAX_FILE_COUNT
    &&& u16_at(b, 14) == 0
    &&& u32_at(b, 16) == b.len()
    &&& zeros(b, 20, 32)
}

/// Paths that can be looked up: none holds a zero byte, and no two are the same.
pub open spec fn has_sound_paths(files: Seq<BundleFile>) -> bool {
    &&& forall|i: int| 0 <= i < files.len() ==> !(#[trigger] files[i]).path.contains(0)
    &&& forall|i: int, j: int|
        0 <= i < j < files.len() ==> !same_path(
            (#[trigger] files[i]).path,
            (#[trigger] files[j]).path,
        )
}

/// The files of a bundle, if the bytes are one.
pub open spec fn bundle_of(b: Seq<u8>) -> Option<Seq<BundleFile>> {
    if !has_header(b) {
        None
    } else {
        match files_of(b, u16_at(b, 12) as int) {
            None => None,
            Some((files, end)) => if end == b.len() && has_sound_paths(files) {
                Some(files)
            } else {
                None
            },
        }
    }
}

/// The first file with a path, from `i` on.
pub open spec fn find_file(files: Seq<BundleFile>, path: Seq<u8>, i: int) -> Option<int>
    decreases files.len() - i,
{
    if i < 0 || i >= files.len() {
        None
    } else if same_path(files[i].path, path) {
        Some(i)
    } else {
        find_file(files, path, i + 1)
    }
}

#[derive(Clone, Copy, Debug, PartialEq, Eq)]
pub struct NetworkBundle<'a> {
    bytes: &'a [u8],
    file_count: usize,
}

impl<'a> View for NetworkBundle<'a> {
    type V = Seq<BundleFile>;

    closed spec fn view(&self) -> Seq<BundleFile> {
        listed(self.bytes@, self.file_count as int)
    }
}

fn paths_equal(left: &[u8], right: &[u8]) -> (r: bool)
    ensures
        r == same_path(left@, right@),
{
    let ghost a = left@.map_values(|byte: u8| normalized(byte));
    let ghost b = right@.map_values(|byte: u8| normalized(byte));
    if left.len() != right.len() {
        assert(a.len() != b.len());
        return false;
    }
    let mut i: usize = 0;
    while i < left.len()
        invariant
            i <= left@.len() == right@.len(),
            a == left@.map_values(|byte: u8| normalized(byte)),
            b == right@.map_values(|byte: u8| normalized(byte)),
            forall|j: int| 0 <= j < i ==> #[trigger] a[j] == b[j],
        decreases left@.len() - i,
    {
        if normalize_separator(left[i]) != normalize_separator(right[i]) {
            assert(a[i as int] != b[i as int]);
            return false;
        }
        i += 1;
    }
    assert(a =~= b);
    true
}

fn normalize_separator(byte: u8) -> (r: u8)
    ensures
        r == normalized(byte),
{
    if byte == 0x2f {
        0x5c
    } else {
        byte
    }
}

fn has_zero(bytes: &[u8]) -> (r: bool)
    ensures
        r == bytes@.contains(0),
{
    let mut i: usize = 0;
    while i < bytes.len()
        invariant
            i <= bytes@.len(),
            forall|j: int| 0 <= j < i ==> #[trigger] bytes@[j] != 0,
        decreases bytes@.len() - i,
    {
        if bytes[i] == 0 {
            assert(bytes@[i as int] == 0);
            return true;
        }
        i += 1;
    }
    false
}

/// The path and the contents of the file whose entry is at an offset, and where
/// the next entry is.
fn read_entry<'a>(bytes: &'a [u8], offset: usize) -> (r: Option<(&'a [u8], &'a [u8], usize)>)
    requires
        offset <= bytes@.len(),
    ensures
        match entry_at(bytes@, offset as int) {
            Some((file, next)) => r matches Some(entry) && entry.0@ == file.path && entry.1@
                == file.data && entry.2 == next && next <= bytes@.len(),
            None => r is None,
        },
{
    if bytes.len() - offset < ENTRY_HEADER_SIZE {
        return None;
    }
    let path_length: usize = read_u16(bytes, offset).unwrap() as usize;
    let data_length: u64 = read_u64(bytes, offset + 4).unwrap();
    if path_length == 0 || read_u16(bytes, offset + 2).unwrap() != 0 || read_u32(
        bytes,
        offset + 12,
    ).unwrap() != 0 {
        return None;
    }
    let path_start: usize = offset + ENTRY_HEADER_SIZE;
    if bytes.len() - path_start < path_length {
        return None;
    }
    let data_start: usize = path_start + path_length;
    if ((bytes.len() - data_start) as u64) < data_length {
        return None;
    }
    let end: usize = data_start + data_length as usize;
    let path = slice_subrange(bytes, path_start, data_start);
    if utf8_str(path).is_none() {
        return None;
    }
    Some((path, slice_subrange(bytes, data_start, end), end))
}

/// A bundle whose first entries cannot be read has no files.
proof fn lemma_unreadable(b: Seq<u8>, n: int, k: int)
    requires
        0 <= n <= k,
        files_of(b, n) is None,
    ensures
        files_of(b, k) is None,
    decreases k,
{
    if n < k {
        lemma_unreadable(b, n, k - 1);
    }
}

/// More entries leave the first ones as they are.
proof fn lemma_prefix(b: Seq<u8>, n: int, k: int)
    requires
        0 <= n <= k,
        files_of(b, k) is Some,
    ensures
        files_of(b, n) is Some,
        listed(b, n).len() == n,
        listed(b, k).len() == k,
        listed(b, n) == listed(b, k).take(n),
    decreases k,
{
    if n < k {
        lemma_prefix(b, n, k - 1);
        assert(listed(b, k).take(n) =~= listed(b, k - 1).take(n));
    } else if n > 0 {
        lemma_prefix(b, n - 1, n - 1);
        assert(listed(b, k).take(n) =~= listed(b, k));
    } else {
        assert(listed(b, k).take(n) =~= listed(b, k));
    }
}

impl<'a> NetworkBundle<'a> {
    /// The bytes hold this many files.
    pub closed spec fn wf(&self) -> bool {
        self.file_count <= MAX_FILE_COUNT && files_of(self.bytes@, self.file_count as int) is Some
    }

    /// Reads a bundle.
    pub fn parse(bytes: &'a [u8]) -> (r: Result<Self, Error>)
        ensures
            match bundle_of(bytes@) {
                Some(files) => r matches Ok(bundle) && bundle.wf() && bundle@ == files,
                None => r matches Err(e) && e == Error::InvalidBundle,
            },
    {
        let magic = MAGIC;
        if bytes.len() < HEADER_SIZE || !same_bytes(slice_subrange(bytes, 0, 8), &magic)
            || read_u16(bytes, 8).unwrap() != VERSION || read_u16(bytes, 10).unwrap() as usize
            != HEADER_SIZE || !all_zero(bytes, 20, HEADER_SIZE) {
            return Err(Error::InvalidBundle);
        }
        let file_count: usize = read_u16(bytes, 12).unwrap() as usize;
        if file_count == 0 || file_count > MAX_FILE_COUNT || read_u16(bytes, 14).unwrap() != 0
            || read_u32(bytes, 16).unwrap() as u64 != bytes.len() as u64 {
            return Err(Error::InvalidBundle);
        }
        let mut paths: Vec<&'a [u8]> = Vec::new();
        let mut offset: usize = HEADER_SIZE;
        while paths.len() < file_count
            invariant
                has_header(bytes@),
                file_count == u16_at(bytes@, 12),
                paths.len() <= file_count,
                offset <= bytes@.len(),
                files_of(bytes@, paths@.len() as int) is Some,
                offset_after(bytes@, paths@.len() as int) == offset,
                listed(bytes@, paths@.len() as int).len() == paths@.len(),
                has_sound_paths(listed(bytes@, paths@.len() as int)),
                forall|i: int|
                    0 <= i < paths@.len() ==> (#[trigger] paths@[i])@ == listed(
                        bytes@,
                        paths@.len() as int,
                    )[i].path,
            decreases file_count - paths.len(),
        {
            let ghost n = paths@.len() as int;
            let ghost before = listed(bytes@, n);
            match read_entry(bytes, offset) {
                None => {
                    proof {
                        lemma_unreadable(bytes@, n + 1, file_count as int);
                    }
                    return Err(Error::InvalidBundle);
                },
                Some((path, _, next)) => {
                    let ghost after = listed(bytes@, n + 1);
                    assert(after[n].path == path@);
                    assert(after.take(n) =~= before);
                    let mut bad = has_zero(path);
                    let mut i: usize = 0;
                    while i < paths.len() && !bad
                        invariant
                            n == paths@.len(),
                            i <= paths@.len(),
                            before.len() == n,
                            after == before.push(after[n]),
                            after[n].path == path@,
                            forall|j: int|
                                0 <= j < paths@.len() ==> (#[trigger] paths@[j])@
                                    == before[j].path,
                            bad ==> !has_sound_paths(after),
                            !bad ==> !path@.contains(0),
                            !bad ==> forall|j: int|
                                0 <= j < i ==> !same_path(
                                    (#[trigger] before[j]).path,
                                    path@,
                                ),
                        decreases paths@.len() - i,
                    {
                        if paths_equal(paths[i], path) {
                            assert(same_path(after[i as int].path, after[n].path));
                            bad = true;
                        } else {
                            assert(!same_path(before[i as int].path, path@));
                        }
                        i += 1;
                    }
                    if bad {
                        proof {
                            lemma_bad_paths(bytes@, n + 1, file_count as int);
                        }
                        return Err(Error::InvalidBundle);
                    }
                    assert(has_sound_paths(after)) by {
                        assert forall|j: int, k: int| 0 <= j < k < after.len() implies !same_path(
                            (#[trigger] after[j]).path,
                            (#[trigger] after[k]).path,
                        ) by {
                            assert(after[j] == before[j]);
                            if k < n {
                                assert(after[k] == before[k]);
                            }
                        }
                        assert forall|j: int| 0 <= j < after.len() implies !(
                        #[trigger] after[j]).path.contains(0) by {
                            if j < n {
                                assert(after[j] == before[j]);
                            }
                        }
                    }
                    paths.push(path);
                    offset = next;
                },
            }
        }
        if offset != bytes.len() {
            return Err(Error::InvalidBundle);
        }
        Ok(NetworkBundle { bytes, file_count })
    }

    /// The contents of a file, by its path.
    pub fn file(self, path: &str) -> (r: Result<&'a [u8], Error>)
        requires
            self.wf(),
        ensures
            match find_file(self@, path.spec_bytes(), 0) {
                Some(i) => r matches Ok(data) && data@ == self@[i].data,
                None => r matches Err(e) && e == Error::InvalidBundle,
            },
    {
        let wanted = path.as_bytes();
        let mut offset: usize = HEADER_SIZE;
        let mut i: usize = 0;
        proof {
            lemma_offsets(self.bytes@, self.file_count as int);
        }
        while i < self.file_count
            invariant
                self.wf(),
                wanted@ == path.spec_bytes(),
                i <= self.file_count,
                offset <= self.bytes@.len() || i == self.file_count,
                files_of(self.bytes@, i as int) is Some,
                offset_after(self.bytes@, i as int) == offset,
                self@.len() == self.file_count,
                find_file(self@, path.spec_bytes(), 0) == find_file(
                    self@,
                    path.spec_bytes(),
                    i as int,
                ),
            decreases self.file_count - i,
        {
            proof {
                lemma_prefix(self.bytes@, i + 1, self.file_count as int);
                assert(self@.take(i + 1)[i as int] == self@[i as int]);
            }
            match read_entry(self.bytes, offset) {
                None => {
                    return Err(Error::InvalidBundle);
                },
                Some((candidate, data, next)) => {
                    if paths_equal(candidate, wanted) {
                        return Ok(data);
                    }
                    offset = next;
                },
            }
            i += 1;
        }
        Err(Error::InvalidBundle)
    }
}

/// Paths that are not sound do not become so by more files.
proof fn lemma_bad_paths(b: Seq<u8>, n: int, k: int)
    requires
        0 <= n <= k,
        files_of(b, n) is Some,
        !has_sound_paths(listed(b, n)),
    ensures
        files_of(b, k) matches Some(found) ==> !has_sound_paths(found.0),
{
    if files_of(b, k) is Some {
        lemma_prefix(b, n, k);
        let few = listed(b, n);
        let all = listed(b, k);
        if has_sound_paths(all) {
            assert forall|i: int| 0 <= i < few.len() implies !(
            #[trigger] few[i]).path.contains(0) by {
                assert(few[i] == all[i]);
            }
            assert forall|i: int, j: int| 0 <= i < j < few.len() implies !same_path(
                (#[trigger] few[i]).path,
                (#[trigger] few[j]).path,
            ) by {
                assert(few[i] == all[i] && few[j] == all[j]);
            }
        }
    }
}

/// Where entries are read, there are bytes.
proof fn lemma_offsets(b: Seq<u8>, k: int)
    requires
        files_of(b, k) is Some,
        k >= 0,
    ensures
        k > 0 ==> b.len() >= HEADER_SIZE,
        listed(b, k).len() == k,
    decreases k,
{
    if k > 0 {
        lemma_offsets(b, k - 1);
    }
}

proof fn lemma_found(files: Seq<BundleFile>, path: Seq<u8>, i: int, k: int)
    requires
        0 <= k <= i < files.len(),
        forall|j: int| k <= j < i ==> !same_path((#[trigger] files[j]).path, path),
        same_path(files[i].path, path),
    ensures
        find_file(files, path, k) == Some(i),
    decreases i - k,
{
    if k < i {
        assert(!same_path(files[k].path, path));
        lemma_found(files, path, i, k + 1);
    }
}

/// Every file of a bundle is found by its path, however its separators are
/// written.
pub proof fn law_every_file_is_found(b: Seq<u8>, i: int, path: Seq<u8>)
    requires
        bundle_of(b) is Some,
        0 <= i < bundle_of(b)->0.len(),
        same_path(path, bundle_of(b)->0[i].path),
    ensures
        find_file(bundle_of(b)->0, path, 0) == Some(i),
{
    let files = bundle_of(b)->0;
    assert forall|j: int| 0 <= j < i implies !same_path((#[trigger] files[j]).path, path) by {
        assert(!same_path(files[j].path, files[i].path));
    }
    lemma_found(files, path, i, 0);
}

/// The path with the separators of Unix.
pub open spec fn with_unix_separators(path: Seq<u8>) -> Seq<u8> {
    path.map_values(
        |byte: u8|
            if byte == 0x5c {
                0x2f
            } else {
                byte
            },
    )
}

/// What is found under a path is the one file whose path is the same but for the
/// separators, and nothing is found exactly where there is no such file. So it does not
/// matter which separators are asked for.
pub proof fn law_lookup_is_exact(b: Seq<u8>, path: Seq<u8>)
    requires
        bundle_of(b) is Some,
    ensures
        ({
            let files = bundle_of(b)->0;
            &&& match find_file(files, path, 0) {
                Some(i) => {
                    &&& 0 <= i < files.len()
                    &&& same_path(files[i].path, path)
                    &&& forall|j: int|
                        0 <= j < files.len() && j != i ==> !same_path((#[trigger] files[j]).path, path)
                },
                None => forall|j: int|
                    0 <= j < files.len() ==> !same_path((#[trigger] files[j]).path, path),
            }
            &&& find_file(files, with_unix_separators(path), 0) == find_file(files, path, 0)
        }),
{
    let files = bundle_of(b)->0;
    let unix = with_unix_separators(path);
    lemma_search(files, path, 0);
    assert(same_path(path, unix)) by {
        assert(path.map_values(|byte: u8| normalized(byte)) =~= unix.map_values(
            |byte: u8| normalized(byte),
        ));
    }
    lemma_same_search(files, path, unix, 0);
    if let Some(i) = find_file(files, path, 0) {
        assert forall|j: int| 0 <= j < files.len() && j != i implies !same_path(
            (#[trigger] files[j]).path,
            path,
        ) by {
            if j < i {
                assert(!same_path(files[j].path, files[i].path));
            } else {
                assert(!same_path(files[i].path, files[j].path));
            }
        }
    }
}

proof fn lemma_search(files: Seq<BundleFile>, path: Seq<u8>, from: int)
    requires
        0 <= from <= files.len(),
    ensures
        match find_file(files, path, from) {
            Some(i) => from <= i < files.len() && same_path(files[i].path, path),
            None => forall|j: int|
                from <= j < files.len() ==> !same_path((#[trigger] files[j]).path, path),
        },
    decreases files.len() - from,
{
    if from < files.len() && !same_path(files[from].path, path) {
        lemma_search(files, path, from + 1);
    }
}

proof fn lemma_same_search(files: Seq<BundleFile>, a: Seq<u8>, b: Seq<u8>, from: int)
    requires
        0 <= from <= files.len(),
        same_path(a, b),
    ensures
        find_file(files, a, from) == find_file(files, b, from),
    decreases files.len() - from,
{
    if from < files.len() {
        assert(same_path(files[from].path, a) == same_path(files[from].path, b));
        lemma_same_search(files, a, b, from + 1);
    }
}

/// Two paths are the same exactly where they are equally long and differ, if at all, in
/// which of the two separators they have.
pub proof fn law_same_paths_differ_in_separators(a: Seq<u8>, b: Seq<u8>)
    ensures
        same_path(a, b) <==> a.len() == b.len() && forall|i: int|
            0 <= i < a.len() ==> {
                ||| #[trigger] a[i] == b[i]
                ||| a[i] == 0x2f && b[i] == 0x5c
                ||| a[i] == 0x5c && b[i] == 0x2f
            },
{
    let left = a.map_values(|byte: u8| normalized(byte));
    let right = b.map_values(|byte: u8| normalized(byte));
    if same_path(a, b) {
        assert(left.len() == right.len());
        assert forall|i: int| 0 <= i < a.len() implies {
            ||| #[trigger] a[i] == b[i]
            ||| a[i] == 0x2f && b[i] == 0x5c
            ||| a[i] == 0x5c && b[i] == 0x2f
        } by {
            assert(left[i] == right[i]);
        }
    } else if a.len() == b.len() && forall|i: int|
        0 <= i < a.len() ==> {
            ||| #[trigger] a[i] == b[i]
            ||| a[i] == 0x2f && b[i] == 0x5c
            ||| a[i] == 0x5c && b[i] == 0x2f
        } {
        assert forall|i: int| 0 <= i < left.len() implies left[i] == right[i] by {
            assert(normalized(a[i]) == normalized(b[i]));
        }
        assert(left =~= right);
    }
}

/// A bundle starts with its name, its version, the size of its header and its length,
/// holds up to thirty-two files, and what no field uses is zero.
pub proof fn law_bundle_header_is_laid_out(b: Seq<u8>)
    requires
        has_header(b),
    ensures
        b.len() >= 32,
        b[0] == 0x4d && b[1] == 0x42 && b[2] == 0x4f && b[3] == 0x4f,
        b[4] == 0x54 && b[5] == 0x4e && b[6] == 0x45 && b[7] == 0x54,
        b[8] == 1 && b[9] == 0,
        b[10] == 32 && b[11] == 0,
        1 <= b[12] <= 32 && b[13] == 0,
        b[14] == 0 && b[15] == 0,
        b.len() == b[16] + 0x100 * b[17] + 0x1_0000 * b[18] + 0x100_0000 * b[19],
        forall|i: int| 20 <= i < 32 ==> #[trigger] b[i] == 0,
{
    let magic = b.subrange(0, 8);
    assert(magic[0] == b[0] && magic[1] == b[1] && magic[2] == b[2] && magic[3] == b[3] && magic[4]
        == b[4] && magic[5] == b[5] && magic[6] == b[6] && magic[7] == b[7]);
}

/// The files of a bundle stand one behind the other: the first entry follows the header,
/// each entry holds the two lengths, the path and the contents of its file, and behind
/// the last one the bundle ends.
pub proof fn law_files_fill_the_bundle(b: Seq<u8>, starts: Seq<int>, i: int)
    requires
        bundle_of(b) is Some,
        starts.len() == bundle_of(b)->0.len() + 1,
        starts[0] == 32,
        forall|k: int|
            0 <= k < starts.len() - 1 ==> starts[k + 1] == (#[trigger] starts[k]) + 16
                + bundle_of(b)->0[k].path.len() + bundle_of(b)->0[k].data.len(),
        0 <= i < bundle_of(b)->0.len(),
    ensures
        ({
            let files = bundle_of(b)->0;
            let at = starts[i];
            &&& files.len() == b[12]
            &&& starts.last() == b.len()
            &&& 0 < files[i].path.len() == b[at] + 0x100 * b[at + 1]
            &&& b[at + 2] == 0 && b[at + 3] == 0
            &&& files[i].data.len() == b[at + 4] + 0x100 * b[at + 5] + 0x1_0000 * b[at + 6]
                + 0x100_0000 * b[at + 7] + 0x1_0000_0000 * (b[at + 8] + 0x100 * b[at + 9]
                + 0x1_0000 * b[at + 10] + 0x100_0000 * b[at + 11])
            &&& b[at + 12] == 0 && b[at + 13] == 0 && b[at + 14] == 0 && b[at + 15] == 0
            &&& forall|k: int|
                0 <= k < files[i].path.len() ==> #[trigger] files[i].path[k] == b[at + 16 + k]
            &&& forall|k: int|
                0 <= k < files[i].data.len() ==> #[trigger] files[i].data[k] == b[at + 16
                    + files[i].path.len() + k]
        }),
{
    let n = u16_at(b, 12) as int;
    let files = bundle_of(b)->0;
    lemma_prefix(b, n, n);
    assert(files == listed(b, n));
    assert(b[13] == 0);
    lemma_starts(b, starts, n, n);
    lemma_starts(b, starts, i, n);
    lemma_prefix(b, i + 1, n);
    assert(listed(b, n).take(i + 1)[i] == listed(b, n)[i]);
    assert(entry_at(b, starts[i]) matches Some((file, next)) && file == files[i]);
    lemma_entry_is_laid_out(b, starts[i]);
}

proof fn lemma_entry_is_laid_out(b: Seq<u8>, at: int)
    requires
        0 <= at,
        entry_at(b, at) is Some,
    ensures
        ({
            let (file, _) = entry_at(b, at)->0;
            &&& 0 < file.path.len() == b[at] + 0x100 * b[at + 1]
            &&& b[at + 2] == 0 && b[at + 3] == 0
            &&& file.data.len() == b[at + 4] + 0x100 * b[at + 5] + 0x1_0000 * b[at + 6]
                + 0x100_0000 * b[at + 7] + 0x1_0000_0000 * (b[at + 8] + 0x100 * b[at + 9]
                + 0x1_0000 * b[at + 10] + 0x100_0000 * b[at + 11])
            &&& b[at + 12] == 0 && b[at + 13] == 0 && b[at + 14] == 0 && b[at + 15] == 0
            &&& forall|k: int|
                0 <= k < file.path.len() ==> #[trigger] file.path[k] == b[at + 16 + k]
            &&& forall|k: int|
                0 <= k < file.data.len() ==> #[trigger] file.data[k] == b[at + 16
                    + file.path.len() + k]
        }),
{
}

proof fn lemma_starts(b: Seq<u8>, starts: Seq<int>, k: int, n: int)
    requires
        0 <= k <= n,
        files_of(b, n) is Some,
        starts.len() == n + 1,
        starts[0] == 32,
        forall|k: int|
            0 <= k < n ==> starts[k + 1] == (#[trigger] starts[k]) + 16 + listed(b, n)[k].path.len()
                + listed(b, n)[k].data.len(),
    ensures
        files_of(b, k) is Some,
        offset_after(b, k) == starts[k],
        32 <= starts[k],
    decreases k,
{
    lemma_prefix(b, k, n);
    if k > 0 {
        lemma_starts(b, starts, k - 1, n);
        assert(listed(b, n).take(k)[k - 1] == listed(b, n)[k - 1]);
        assert(starts[k - 1 + 1] == starts[k - 1] + 16 + listed(b, n)[k - 1].path.len() + listed(
            b,
            n,
        )[k - 1].data.len());
    }
}

/// No path of a bundle holds a zero byte, every path is UTF-8, and no two are the same.
pub proof fn law_bundle_paths_are_sound(b: Seq<u8>, i: int, j: int, k: int)
    requires
        bundle_of(b) is Some,
        0 <= i < j < bundle_of(b)->0.len(),
        0 <= k < bundle_of(b)->0[i].path.len(),
    ensures
        bundle_of(b)->0[i].path[k] != 0,
        valid_utf8(bundle_of(b)->0[i].path),
        !same_path(bundle_of(b)->0[i].path, bundle_of(b)->0[j].path),
{
    let n = u16_at(b, 12) as int;
    let files = bundle_of(b)->0;
    lemma_prefix(b, n, n);
    assert(files == listed(b, n));
    lemma_prefix(b, i + 1, n);
    lemma_prefix(b, i, n);
    assert(listed(b, n).take(i + 1)[i] == listed(b, n)[i]);
    assert(!files[i].path.contains(0));
}

} // verus!
