//! The model of one directory entry, and its classification: hidden or not,
//! file or directory, and how many storage blocks it occupies.

use vstd::prelude::*;
use vstd::string::StrSliceExecFns;

verus! {

/// The metadata of one filesystem entry, as far as the listing reads it.
pub struct Metadata {
    /// The raw POSIX `st_mode` value: file type and permission bits.
    pub mode: u32,
    /// Number of hard links.
    pub nlink: u64,
    /// Numeric owner id.
    pub uid: u32,
    /// Numeric group id.
    pub gid: u32,
    /// Size in bytes.
    pub size: u64,
    /// Number of storage blocks allocated to the entry.
    pub blocks: u64,
    /// Modification time as seconds since the Unix epoch, when available.
    pub modified: Option<i64>,
}

/// One child of a listed directory.
///
/// Filenames are raw byte sequences on the systems this models; `name` holds
/// the decoded text when decoding succeeds and `None` otherwise. `path` keeps
/// the raw bytes of the full path and is the sort key. `is_dir` follows
/// symbolic links, so a link to a directory counts as a directory. `metadata`
/// is `None` when the entry's metadata could not be fetched; the listing
/// pipeline excludes such an entry entirely, and the renderers and block
/// totals degrade gracefully should one still reach them. `link_target`
/// holds a symbolic link's target as the system reports it.
pub struct Entry {
    /// The filename decoded as text, or `None` when it cannot be decoded.
    pub name: Option<String>,
    /// The full path of the entry, as raw bytes.
    pub path: Vec<u8>,
    /// Whether the entry, after following symbolic links, is a directory.
    pub is_dir: bool,
    /// The entry's metadata, when it could be fetched.
    pub metadata: Option<Metadata>,
    /// The target of a symbolic link, when the entry is one.
    pub link_target: Option<String>,
}

/// An entry is hidden when its decodable filename starts with a dot;
/// an undecodable filename is treated as not hidden.
pub open spec fn is_hidden(e: Entry) -> bool {
    match e.name {
        Some(n) => n@.len() > 0 && n@[0] == '.',
        None => false,
    }
}

/// The entry's block count; an entry without readable metadata contributes
/// zero blocks.
pub open spec fn block_count(e: Entry) -> u64 {
    match e.metadata {
        Some(m) => m.blocks,
        None => 0,
    }
}

/// Decide whether an entry is a dotfile, which default listings hide.
pub fn is_dotfile(entry: &Entry) -> (r: bool)
    ensures
        r == is_hidden(*entry),
{
    match &entry.name {
        Some(n) => {
            if n.as_str().is_empty() {
                false
            } else {
                n.as_str().get_char(0) == '.'
            }
        },
        None => false,
    }
}

/// Read an entry's block count, zero when its metadata is missing.
pub fn get_block_size(entry: &Entry) -> (r: u64)
    ensures
        r == block_count(*entry),
{
    match &entry.metadata {
        Some(m) => m.blocks,
        None => 0,
    }
}

} // verus!
