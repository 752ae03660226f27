//! Where a broker listens, and who may use what stands there.
use vstd::prelude::*;

use crate::bytes::{append, append_text, copy, lit};
use crate::digest::{hex, hex_text, sha256, sha256_digest};
use crate::text::{join3, join4, octal, octal_digits, reports};

verus! {

/// The longest path of a socket, and one byte more.
pub const SOCKET_PATH_LIMIT: usize = 104;

/// What the file system says of an entry.
#[derive(Clone, Copy, Debug)]
pub struct EntryFacts {
    pub is_symlink: bool,
    pub is_directory: bool,
    pub is_regular: bool,
    pub is_socket: bool,
    pub mode: u32,
    pub owner: u32,
}

impl EntryFacts {
    /// The group or others may use the entry.
    pub open spec fn is_shared(self) -> bool {
        self.mode & 0o077 != 0
    }

    /// Whether the group or others may use the entry.
    pub fn shared(&self) -> (shared: bool)
        ensures
            shared == self.is_shared(),
    {
        self.mode & 0o077 != 0
    }
}

/// What is wrong with the directory that runtime files stand in.
pub open spec fn runtime_base_fault(base: Seq<char>, facts: EntryFacts, owner: u32) -> Option<
    Seq<char>,
> {
    if facts.is_symlink || !facts.is_directory {
        Some("runtime path "@ + base + " is not a real directory"@)
    } else if facts.is_shared() {
        Some("runtime directory "@ + base + " must not be accessible by other users"@)
    } else if facts.owner != owner {
        Some("runtime directory "@ + base + " has the wrong owner"@)
    } else {
        None
    }
}

/// Check the directory that runtime files stand in.
///
/// # Errors
///
/// Returns an error when it is not a directory, when others may use it or when it belongs to
/// another user.
pub fn check_runtime_base(base: &str, facts: &EntryFacts, owner: u32) -> (result: Result<
    (),
    String,
>)
    ensures
        reports(result, runtime_base_fault(base@, *facts, owner)),
{
    if facts.is_symlink || !facts.is_directory {
        return Err(join3("runtime path ", base, " is not a real directory"));
    }
    if facts.shared() {
        return Err(
            join3("runtime directory ", base, " must not be accessible by other users"),
        );
    }
    if facts.owner != owner {
        return Err(join3("runtime directory ", base, " has the wrong owner"));
    }
    Ok(())
}

/// Check an entry that should be the directory of the broker, before it is made private.
///
/// # Errors
///
/// Returns an error when it is not a directory.
pub fn check_broker_directory(path: &str, facts: &EntryFacts) -> (result: Result<(), String>)
    ensures
        reports(
            result,
            if facts.is_symlink || !facts.is_directory {
                Some("archive broker runtime path "@ + path@ + " is not a real directory"@)
            } else {
                None
            },
        ),
{
    if facts.is_symlink || !facts.is_directory {
        return Err(join3("archive broker runtime path ", path, " is not a real directory"));
    }
    Ok(())
}

/// Check to whom the directory of the broker belongs.
///
/// # Errors
///
/// Returns an error when it belongs to another user.
pub fn check_broker_directory_owner(path: &str, facts: &EntryFacts, owner: u32) -> (result: Result<
    (),
    String,
>)
    ensures
        reports(
            result,
            if facts.owner != owner {
                Some("archive broker runtime directory "@ + path@ + " has the wrong owner"@)
            } else {
                None
            },
        ),
{
    if facts.owner != owner {
        return Err(join3("archive broker runtime directory ", path, " has the wrong owner"));
    }
    Ok(())
}

/// What is wrong with a file or socket of the broker.
pub open spec fn runtime_entry_fault(
    path: Seq<char>,
    facts: EntryFacts,
    owner: u32,
    socket: bool,
) -> Option<Seq<char>> {
    if facts.is_symlink || (socket && !facts.is_socket) || (!socket && !facts.is_regular) {
        Some("archive broker runtime entry "@ + path + " has the wrong type"@)
    } else if facts.owner != owner {
        Some("archive broker runtime entry "@ + path + " has the wrong owner"@)
    } else if facts.is_shared() {
        Some("archive broker runtime entry "@ + path + " is accessible by other users"@)
    } else {
        None
    }
}

/// Check a file or socket of the broker.
///
/// # Errors
///
/// Returns an error when it has another type, belongs to another user or others may use it.
pub fn require_private_file(path: &str, facts: &EntryFacts, owner: u32, socket: bool) -> (result:
    Result<(), String>)
    ensures
        reports(result, runtime_entry_fault(path@, *facts, owner, socket)),
{
    if facts.is_symlink || (socket && !facts.is_socket) || (!socket && !facts.is_regular) {
        return Err(join3("archive broker runtime entry ", path, " has the wrong type"));
    }
    if facts.owner != owner {
        return Err(join3("archive broker runtime entry ", path, " has the wrong owner"));
    }
    if facts.shared() {
        return Err(join3("archive broker runtime entry ", path, " is accessible by other users"));
    }
    Ok(())
}

/// Check that a lock is no symbolic link.
///
/// # Errors
///
/// Returns an error when it is one.
pub fn check_lock_link(label: &str, path: &str, is_symlink: bool) -> (result: Result<(), String>)
    ensures
        reports(
            result,
            if is_symlink {
                Some("archive broker "@ + label@ + " lock "@ + path@ + " is a symlink"@)
            } else {
                None
            },
        ),
{
    if is_symlink {
        let place = join3(" lock ", path, " is a symlink");
        let message = join3("archive broker ", label, place.as_str());
        assert(message@ =~= "archive broker "@ + label@ + " lock "@ + path@ + " is a symlink"@);
        return Err(message);
    }
    Ok(())
}

/// How an attempt to take a lock ended.
#[derive(Debug)]
pub enum LockOutcome {
    Taken,
    /// Another process holds it.
    Held,
    Failed(String),
}

/// What an attempt to take a lock says of the broker that would hold it: it is dead, alive, or
/// nothing is known.
///
/// # Errors
///
/// Returns an error when the attempt failed for another reason than that the lock is held.
pub fn no_live_broker(outcome: LockOutcome) -> (result: Result<bool, String>)
    ensures
        match outcome {
            LockOutcome::Taken => result == Ok::<bool, String>(true),
            LockOutcome::Held => result == Ok::<bool, String>(false),
            LockOutcome::Failed(error) => result == Err::<bool, String>(error),
        },
{
    match outcome {
        LockOutcome::Taken => Ok(true),
        LockOutcome::Held => Ok(false),
        LockOutcome::Failed(error) => Err(error),
    }
}

/// The name of an archive among others: half of the digest of its path, in hexadecimal digits.
pub open spec fn archive_identity(path: Seq<u8>) -> Seq<char> {
    hex_text(sha256(path).take(16))
}

/// Name an archive by its path.
pub fn archive_id(path: &[u8]) -> (id: String)
    ensures
        id@ == archive_identity(path@),
{
    let digest = sha256_digest(path);
    let half: &[u8] = &digest.as_slice()[0..16];
    assert(half@ =~= sha256(path@).take(16));
    hex(half)
}

/// The files through which the clients of an archive find its broker.
#[derive(Clone, Debug)]
pub struct RuntimePaths {
    pub socket: Vec<u8>,
    pub lock: Vec<u8>,
    pub lifetime: Vec<u8>,
    pub archive_id: String,
    pub owner_uid: u32,
}

/// A file of the broker of an archive.
pub open spec fn runtime_file(directory: Seq<u8>, archive_path: Seq<u8>, suffix: Seq<u8>) -> Seq<
    u8,
> {
    directory + lit("/archive-") + vstd::utf8::encode_utf8(archive_identity(archive_path)) + suffix
}

fn file_of(directory: &[u8], archive_id: &str, suffix: &str) -> (path: Vec<u8>)
    ensures
        path@ == directory@ + lit("/archive-") + vstd::utf8::encode_utf8(archive_id@) + lit(suffix),
{
    let mut path = copy(directory);
    append_text(&mut path, "/archive-");
    append(&mut path, archive_id.as_bytes());
    append_text(&mut path, suffix);
    path
}

impl RuntimePaths {
    /// Find the files of the broker of an archive in the directory of the broker.
    ///
    /// # Errors
    ///
    /// Returns an error when the path of the socket would be too long.
    pub fn resolve_in(
        directory: &[u8],
        shown_directory: &str,
        archive_path: &[u8],
        owner_uid: u32,
    ) -> (result: Result<RuntimePaths, String>)
        ensures
            ({
                let socket = runtime_file(directory@, archive_path@, lit(".sock"));
                if socket.len() >= SOCKET_PATH_LIMIT {
                    result matches Err(error) && error@
                        == "archive broker socket path is too long: "@ + shown_directory@
                        + "/archive-"@ + archive_identity(archive_path@) + ".sock"@
                } else {
                    &&& result matches Ok(paths)
                    &&& paths.socket@ == socket
                    &&& paths.lock@ == runtime_file(directory@, archive_path@, lit(".lock"))
                    &&& paths.lifetime@ == runtime_file(
                        directory@,
                        archive_path@,
                        lit(".lifetime"),
                    )
                    &&& paths.archive_id@ == archive_identity(archive_path@)
                    &&& paths.owner_uid == owner_uid
                }
            }),
    {
        let archive_id = archive_id(archive_path);
        let socket = file_of(directory, archive_id.as_str(), ".sock");
        if socket.len() >= SOCKET_PATH_LIMIT {
            let shown = join4(
                "archive broker socket path is too long: ",
                shown_directory,
                "/archive-",
                archive_id.as_str(),
            );
            return Err(crate::text::join2(shown.as_str(), ".sock"));
        }
        Ok(
            RuntimePaths {
                socket,
                lock: file_of(directory, archive_id.as_str(), ".lock"),
                lifetime: file_of(directory, archive_id.as_str(), ".lifetime"),
                archive_id,
                owner_uid,
            },
        )
    }
}

/// The permission bits of a mode.
pub open spec fn permissions(mode: u32) -> u32 {
    mode & 0o777
}

/// Check the directory of an archive that was there before.
///
/// # Errors
///
/// Returns an error when others may use it.
pub fn require_private_directory(path: &str, mode: u32) -> (result: Result<(), String>)
    ensures
        reports(
            result,
            if permissions(mode) & 0o077 != 0 {
                Some(
                    "archive directory "@ + path@ + " has mode "@ + octal_digits(
                        permissions(mode) as nat,
                    ) + ", expected 700; use a private directory"@,
                )
            } else {
                None
            },
        ),
{
    let bits: u32 = mode & 0o777;
    if bits & 0o077 != 0 {
        let shown = join4("archive directory ", path, " has mode ", octal(bits).as_str());
        return Err(
            crate::text::join2(shown.as_str(), ", expected 700; use a private directory"),
        );
    }
    Ok(())
}

/// What is wrong with the file of an archive.
pub open spec fn archive_file_fault(path: Seq<char>, facts: EntryFacts) -> Option<Seq<char>> {
    if facts.is_symlink || !facts.is_regular {
        Some("archive "@ + path + " must be a regular non-symlink file"@)
    } else if permissions(facts.mode) & 0o077 != 0 {
        Some(
            "archive "@ + path + " has mode "@ + octal_digits(permissions(facts.mode) as nat)
                + ", expected 600"@,
        )
    } else {
        None
    }
}

/// Check the file of an archive that is only read.
///
/// # Errors
///
/// Returns an error when it is no regular file or others may use it.
pub fn require_private_archive(path: &str, facts: &EntryFacts) -> (result: Result<(), String>)
    ensures
        reports(result, archive_file_fault(path@, *facts)),
{
    if facts.is_symlink || !facts.is_regular {
        return Err(join3("archive ", path, " must be a regular non-symlink file"));
    }
    let bits: u32 = facts.mode & 0o777;
    if bits & 0o077 != 0 {
        let shown = join4("archive ", path, " has mode ", octal(bits).as_str());
        return Err(crate::text::join2(shown.as_str(), ", expected 600"));
    }
    Ok(())
}

/// Archives with different digests have different brokers.
pub proof fn lemma_brokers_differ(directory: Seq<u8>, left: Seq<u8>, right: Seq<u8>, suffix: Seq<u8>)
    requires
        archive_identity(left) != archive_identity(right),
    ensures
        runtime_file(directory, left, suffix) != runtime_file(directory, right, suffix),
{
    if runtime_file(directory, left, suffix) == runtime_file(directory, right, suffix) {
        let before = directory + lit("/archive-");
        let a = vstd::utf8::encode_utf8(archive_identity(left));
        let b = vstd::utf8::encode_utf8(archive_identity(right));
        let whole = runtime_file(directory, left, suffix);
        assert(whole.len() == before.len() + a.len() + suffix.len());
        assert(whole.len() == before.len() + b.len() + suffix.len());
        assert(a =~= whole.subrange(before.len() as int, (before.len() + a.len()) as int));
        assert(b =~= whole.subrange(before.len() as int, (before.len() + b.len()) as int));
        crate::text::lemma_utf8_injective(archive_identity(left), archive_identity(right));
    }
}

} // verus!
