//! Starting over the network: where the bundle of boot files lies.

use vstd::prelude::*;

verus! {

/// "mboot.bundle"
pub const NETWORK_BUNDLE_NAME: [u8; 12] = [
    0x6d, 0x62, 0x6f, 0x6f, 0x74, 0x2e, 0x62, 0x75, 0x6e, 0x64, 0x6c, 0x65,
];

pub const MIN_NETWORK_BUNDLE_SIZE: u64 = 32;
pub const MAX_NETWORK_BUNDLE_SIZE: u64 = 0x1000_0000;

/// Why no bundle was loaded.
#[derive(Clone, Copy, Debug, PartialEq, Eq, Structural)]
pub enum NetworkError {
    NotFound,
    InvalidParameter,
    BadBufferSize,
    Unsupported,
}

/// What a boot server answered.
#[derive(Clone, Copy, Debug, PartialEq, Eq)]
pub struct BootReply {
    pub received: bool,
    pub server: [u8; 4],
    pub boot_file: [u8; 128],
}

pub open spec fn names_server(reply: BootReply) -> bool {
    reply.received && !(reply.server@[0] == 0 && reply.server@[1] == 0 && reply.server@[2] == 0
        && reply.server@[3] == 0)
}

/// The first reply from `from` on that names a server, or the length.
pub open spec fn reply_of(replies: Seq<BootReply>, from: int) -> int
    decreases replies.len() - from,
{
    if from >= replies.len() || names_server(replies[from]) {
        from
    } else {
        reply_of(replies, from + 1)
    }
}

/// The reply to go by: of the answers in the order of their precedence, the first
/// that came and names a server. IPv6 is not supported.
pub fn pxe_boot_source(using_ipv6: bool, replies: &[BootReply]) -> (r: Result<usize, NetworkError>)
    ensures
        r == (if using_ipv6 {
            Err(NetworkError::Unsupported)
        } else if reply_of(replies@, 0) >= replies@.len() {
            Err(NetworkError::NotFound)
        } else {
            Ok(reply_of(replies@, 0) as usize)
        }),
        r matches Ok(i) ==> i < replies@.len(),
{
    if using_ipv6 {
        return Err(NetworkError::Unsupported);
    }
    let mut i: usize = 0;
    while i < replies.len()
        invariant
            i <= replies.len(),
            reply_of(replies@, 0) == reply_of(replies@, i as int),
            !using_ipv6,
        decreases replies.len() - i,
    {
        let reply = replies[i];
        if reply.received && !(reply.server[0] == 0 && reply.server[1] == 0 && reply.server[2] == 0
            && reply.server[3] == 0) {
            return Ok(i);
        }
        i += 1;
    }
    Err(NetworkError::NotFound)
}

/// Where the text from `from` on ends: at the first zero, or where the bytes do.
pub open spec fn text_end(bytes: Seq<u8>, from: int) -> int
    decreases bytes.len() - from,
{
    if from >= bytes.len() || bytes[from] == 0 {
        from
    } else {
        text_end(bytes, from + 1)
    }
}

pub open spec fn is_separator(byte: u8) -> bool {
    byte == 0x2f || byte == 0x5c
}

/// Where the directory of the path in the first `n` bytes ends.
pub open spec fn directory_end(path: Seq<u8>, n: int) -> int
    decreases n,
{
    if n <= 0 || is_separator(path[n - 1]) {
        if n <= 0 {
            0
        } else {
            n
        }
    } else {
        directory_end(path, n - 1)
    }
}

/// The path of a file beside the boot file, with a zero at its end.
pub open spec fn sibling_of(boot_file: Seq<u8>, sibling: Seq<u8>) -> Seq<u8> {
    boot_file.take(directory_end(boot_file, text_end(boot_file, 0))) + sibling + seq![0u8]
}

pub open spec fn is_ascii_path(boot_file: Seq<u8>) -> bool {
    forall|i: int| 0 <= i < text_end(boot_file, 0) ==> #[trigger] boot_file[i] < 0x80
}

proof fn lemma_text_end(bytes: Seq<u8>, from: int)
    requires
        0 <= from <= bytes.len(),
    ensures
        from <= text_end(bytes, from) <= bytes.len(),
    decreases bytes.len() - from,
{
    if from < bytes.len() && bytes[from] != 0 {
        lemma_text_end(bytes, from + 1);
    }
}

proof fn lemma_directory_end(path: Seq<u8>, n: int)
    requires
        0 <= n,
    ensures
        0 <= directory_end(path, n) <= n,
    decreases n,
{
    if n > 0 && !is_separator(path[n - 1]) {
        lemma_directory_end(path, n - 1);
    }
}

/// The path of a file beside the boot file, with a zero at its end.
pub fn sibling_tftp_path(boot_file: &[u8], sibling: &[u8]) -> (r: Result<Vec<u8>, NetworkError>)
    ensures
        if is_ascii_path(boot_file@) {
            r matches Ok(path) && path@ == sibling_of(boot_file@, sibling@)
        } else {
            r matches Err(e) && e == NetworkError::InvalidParameter
        },
{
    let ghost file = boot_file@;
    let mut end: usize = 0;
    while end < boot_file.len() && boot_file[end] != 0
        invariant
            end <= boot_file.len(),
            file == boot_file@,
            text_end(file, 0) == text_end(file, end as int),
            forall|i: int| 0 <= i < end ==> #[trigger] file[i] < 0x80,
        decreases boot_file.len() - end,
    {
        if boot_file[end] >= 0x80 {
            proof {
                lemma_text_end(file, end + 1);
                assert(!(file[end as int] < 0x80));
            }
            return Err(NetworkError::InvalidParameter);
        }
        end += 1;
    }
    assert(end == text_end(file, 0));
    let mut directory: usize = end;
    while directory > 0 && boot_file[directory - 1] != 0x2f && boot_file[directory - 1] != 0x5c
        invariant
            directory <= end <= boot_file.len(),
            file == boot_file@,
            directory_end(file, end as int) == directory_end(file, directory as int),
        decreases directory,
    {
        directory -= 1;
    }
    assert(directory == directory_end(file, end as int));
    let mut path: Vec<u8> = Vec::new();
    let mut i: usize = 0;
    while i < directory
        invariant
            i <= directory <= boot_file.len(),
            file == boot_file@,
            path@ == file.take(i as int),
        decreases directory - i,
    {
        path.push(boot_file[i]);
        i += 1;
        assert(path@ =~= file.take(i as int));
    }
    let mut j: usize = 0;
    while j < sibling.len()
        invariant
            j <= sibling.len(),
            path@ == file.take(directory as int) + sibling@.take(j as int),
        decreases sibling.len() - j,
    {
        path.push(sibling[j]);
        j += 1;
        assert(path@ =~= file.take(directory as int) + sibling@.take(j as int));
    }
    path.push(0);
    assert(path@ =~= sibling_of(file, sibling@));
    Ok(path)
}

/// The size of a bundle, if it is one that is loaded.
pub fn check_bundle_size(size: u64) -> (r: Result<usize, NetworkError>)
    ensures
        r == (if MIN_NETWORK_BUNDLE_SIZE <= size <= MAX_NETWORK_BUNDLE_SIZE {
            Ok(size as usize)
        } else {
            Err(NetworkError::BadBufferSize)
        }),
{
    if size >= MIN_NETWORK_BUNDLE_SIZE && size <= MAX_NETWORK_BUNDLE_SIZE {
        Ok(size as usize)
    } else {
        Err(NetworkError::BadBufferSize)
    }
}

/// The number of bytes that came, if the buffer holds so many.
pub fn check_received(received: u64, room: usize) -> (r: Result<usize, NetworkError>)
    ensures
        r == (if received <= room {
            Ok(received as usize)
        } else {
            Err(NetworkError::BadBufferSize)
        }),
{
    if received <= room as u64 {
        Ok(received as usize)
    } else {
        Err(NetworkError::BadBufferSize)
    }
}

/// The bundle lies in the directory of the boot file: up to the name the two paths
/// are the same, and the rest of the boot file's path has no separator.
pub proof fn law_sibling_is_in_the_same_directory(boot_file: Seq<u8>, sibling: Seq<u8>, i: int)
    ensures
        ({
            let end = text_end(boot_file, 0);
            let directory = directory_end(boot_file, end);
            &&& 0 <= directory <= end
            &&& 0 <= i < directory ==> sibling_of(boot_file, sibling)[i] == boot_file[i]
            &&& directory <= i < end ==> !is_separator(boot_file[i])
            &&& directory == 0 || is_separator(boot_file[directory - 1])
        }),
{
    let end = text_end(boot_file, 0);
    lemma_text_end(boot_file, 0);
    lemma_directory_end(boot_file, end);
    lemma_no_separator(boot_file, end, i);
}

proof fn lemma_no_separator(path: Seq<u8>, n: int, i: int)
    requires
        0 <= n,
    ensures
        directory_end(path, n) <= i < n ==> !is_separator(path[i]),
        directory_end(path, n) == 0 || is_separator(path[directory_end(path, n) - 1]),
    decreases n,
{
    if n > 0 && !is_separator(path[n - 1]) {
        lemma_no_separator(path, n - 1, i);
    }
}

/// The reply to go by is the first that came and whose server has an address that is not
/// all zero; there is none exactly where no reply is such.
pub proof fn law_first_reply_with_a_server_is_taken(replies: Seq<BootReply>, i: int)
    ensures
        ({
            let taken = reply_of(replies, 0);
            let named = |reply: BootReply|
                reply.received && (reply.server@[0] > 0 || reply.server@[1] > 0 || reply.server@[2]
                    > 0 || reply.server@[3] > 0);
            &&& 0 <= taken <= replies.len()
            &&& taken < replies.len() ==> named(replies[taken])
            &&& 0 <= i < taken ==> !named(replies[i])
        }),
{
    lemma_reply(replies, 0, i);
}

proof fn lemma_reply(replies: Seq<BootReply>, from: int, i: int)
    requires
        0 <= from <= replies.len(),
    ensures
        from <= reply_of(replies, from) <= replies.len(),
        reply_of(replies, from) < replies.len() ==> names_server(
            replies[reply_of(replies, from)],
        ),
        from <= i < reply_of(replies, from) ==> !names_server(replies[i]),
    decreases replies.len() - from,
{
    if from < replies.len() && !names_server(replies[from]) {
        lemma_reply(replies, from + 1, i);
    }
}

/// The path that is asked for is the boot file's up to and with its last slash or
/// backslash, then the name, then one zero. The boot file's path ends at its first zero,
/// and it is refused exactly where a byte before that is not ASCII.
pub proof fn law_sibling_path_is_exact(boot_file: Seq<u8>, sibling: Seq<u8>, end: int, cut: int)
    requires
        0 <= cut <= end <= boot_file.len(),
        forall|i: int| 0 <= i < end ==> #[trigger] boot_file[i] != 0,
        end < boot_file.len() ==> boot_file[end] == 0,
        cut > 0 ==> boot_file[cut - 1] == 0x2f || boot_file[cut - 1] == 0x5c,
        forall|i: int| cut <= i < end ==> #[trigger] boot_file[i] != 0x2f && boot_file[i] != 0x5c,
    ensures
        sibling_of(boot_file, sibling) == boot_file.subrange(0, cut) + sibling + seq![0u8],
        is_ascii_path(boot_file) <==> forall|i: int|
            0 <= i < end ==> #[trigger] boot_file[i] < 128,
{
    lemma_end_is_first_zero(boot_file, end, 0);
    lemma_cut_is_last_separator(boot_file, cut, end);
    assert(sibling_of(boot_file, sibling) =~= boot_file.subrange(0, cut) + sibling + seq![0u8]);
}

proof fn lemma_end_is_first_zero(bytes: Seq<u8>, end: int, from: int)
    requires
        0 <= from <= end <= bytes.len(),
        forall|i: int| 0 <= i < end ==> #[trigger] bytes[i] != 0,
        end < bytes.len() ==> bytes[end] == 0,
    ensures
        text_end(bytes, from) == end,
    decreases end - from,
{
    if from < end {
        lemma_end_is_first_zero(bytes, end, from + 1);
    }
}

proof fn lemma_cut_is_last_separator(path: Seq<u8>, cut: int, n: int)
    requires
        0 <= cut <= n <= path.len(),
        cut > 0 ==> path[cut - 1] == 0x2f || path[cut - 1] == 0x5c,
        forall|i: int| cut <= i < n ==> #[trigger] path[i] != 0x2f && path[i] != 0x5c,
    ensures
        directory_end(path, n) == cut,
    decreases n,
{
    if cut < n {
        assert(path[n - 1] != 0x2f && path[n - 1] != 0x5c);
        lemma_cut_is_last_separator(path, cut, n - 1);
    }
}

} // verus!
