//! Formatting of POSIX `st_mode` values as the canonical ten-character
//! type-and-permission string (for example `-rw-r--r--`).

use vstd::prelude::*;

verus! {

/// Mask selecting the file-type field of a POSIX `st_mode` value.
pub const S_IFMT: u32 = 0o170000;

/// File-type value for a socket.
pub const S_IFSOCK: u32 = 0o140000;

/// File-type value for a symbolic link.
pub const S_IFLNK: u32 = 0o120000;

/// File-type value for a regular file.
pub const S_IFREG: u32 = 0o100000;

/// File-type value for a block device.
pub const S_IFBLK: u32 = 0o060000;

/// File-type value for a directory.
pub const S_IFDIR: u32 = 0o040000;

/// File-type value for a character device.
pub const S_IFCHR: u32 = 0o020000;

/// File-type value for a FIFO.
pub const S_IFIFO: u32 = 0o010000;

/// The single character that announces the file type of a mode value.
pub open spec fn file_type_char(mode: u32) -> char {
    let t = mode & S_IFMT;
    if t == S_IFSOCK {
        's'
    } else if t == S_IFBLK {
        'b'
    } else if t == S_IFDIR {
        'd'
    } else if t == S_IFREG {
        '-'
    } else if t == S_IFLNK {
        'l'
    } else if t == S_IFCHR {
        'c'
    } else if t == S_IFIFO {
        'p'
    } else {
        '?'
    }
}

/// `c` when the permission bit selected by `mask` is set, `-` otherwise.
pub open spec fn perm_char(mode: u32, mask: u32, c: char) -> char {
    if mode & mask != 0 {
        c
    } else {
        '-'
    }
}

/// The ten characters of the rendered mode string: the file-type character
/// followed by the nine permission characters, owner group then other,
/// read write execute within each group.
pub open spec fn mode_chars(mode: u32) -> Seq<char> {
    seq![
        file_type_char(mode),
        perm_char(mode, 0o400, 'r'),
        perm_char(mode, 0o200, 'w'),
        perm_char(mode, 0o100, 'x'),
        perm_char(mode, 0o040, 'r'),
        perm_char(mode, 0o020, 'w'),
        perm_char(mode, 0o010, 'x'),
        perm_char(mode, 0o004, 'r'),
        perm_char(mode, 0o002, 'w'),
        perm_char(mode, 0o001, 'x'),
    ]
}

/// The mode string is always ten characters long and opens with one of the
/// eight recognised type characters.
pub proof fn lemma_mode_chars_shape(mode: u32)
    ensures
        mode_chars(mode).len() == 10,
        mode_chars(mode)[0] == 's' || mode_chars(mode)[0] == 'b' || mode_chars(mode)[0] == 'd'
            || mode_chars(mode)[0] == '-' || mode_chars(mode)[0] == 'l' || mode_chars(mode)[0]
            == 'c' || mode_chars(mode)[0] == 'p' || mode_chars(mode)[0] == '?',
{
}

/// Render a mode value as its ten-character type-and-permission string.
#[verifier::rlimit(50)]
pub fn stringify_mode(mode: u32) -> (r: String)
    ensures
        r@ == mode_chars(mode),
{
    proof {
        reveal_strlit("s");
        reveal_strlit("b");
        reveal_strlit("d");
        reveal_strlit("-");
        reveal_strlit("l");
        reveal_strlit("c");
        reveal_strlit("p");
        reveal_strlit("?");
        reveal_strlit("r");
        reveal_strlit("w");
        reveal_strlit("x");
    }
    let mut out = String::new();
    let t = mode & S_IFMT;
    if t == S_IFSOCK {
        out.append("s");
    } else if t == S_IFBLK {
        out.append("b");
    } else if t == S_IFDIR {
        out.append("d");
    } else if t == S_IFREG {
        out.append("-");
    } else if t == S_IFLNK {
        out.append("l");
    } else if t == S_IFCHR {
        out.append("c");
    } else if t == S_IFIFO {
        out.append("p");
    } else {
        out.append("?");
    }
    assert(out@ =~= seq![file_type_char(mode)]);
    if mode & 0o400 != 0 {
        out.append("r");
    } else {
        out.append("-");
    }
    if mode & 0o200 != 0 {
        out.append("w");
    } else {
        out.append("-");
    }
    if mode & 0o100 != 0 {
        out.append("x");
    } else {
        out.append("-");
    }
    assert(out@ =~= mode_chars(mode).subrange(0, 4));
    if mode & 0o040 != 0 {
        out.append("r");
    } else {
        out.append("-");
    }
    if mode & 0o020 != 0 {
        out.append("w");
    } else {
        out.append("-");
    }
    if mode & 0o010 != 0 {
        out.append("x");
    } else {
        out.append("-");
    }
    assert(out@ =~= mode_chars(mode).subrange(0, 7));
    if mode & 0o004 != 0 {
        out.append("r");
    } else {
        out.append("-");
    }
    if mode & 0o002 != 0 {
        out.append("w");
    } else {
        out.append("-");
    }
    if mode & 0o001 != 0 {
        out.append("x");
    } else {
        out.append("-");
    }
    assert(out@ =~= mode_chars(mode));
    out
}

} // verus!
