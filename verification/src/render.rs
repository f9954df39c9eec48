//! Rendering of listings: the compact tab-separated form, the detailed
//! per-entry form, and the per-path header, file-target and diagnostic lines.

use vstd::prelude::*;
use crate::entry::Entry;
use crate::identity::{assoc, display_id, lemma_assoc_push, IdentityCache};
use crate::listing::{prepare_entries, readable_of, sum_blocks, total_block_count, visible_of};
use crate::mode::{mode_chars, stringify_mode};
use crate::numeral::{dec_chars, u64_to_decimal};
use crate::order::entries_sorted;

verus! {

/// The characters chrono renders for a Unix timestamp under the
/// month-day-hour-minute layout this listing uses; a pure function of the
/// seconds value.
pub uninterp spec fn utc_stamp_chars(secs: i64) -> Seq<char>;

/// The smallest timestamp chrono can represent, in seconds.
pub const MIN_FORMATTABLE_SECS: i64 = -8_334_601_228_800;

/// The largest timestamp chrono can represent, in seconds.
pub const MAX_FORMATTABLE_SECS: i64 = 8_210_266_876_799;

/// Whether a seconds value lies in chrono's representable range.
pub open spec fn formattable(secs: i64) -> bool {
    MIN_FORMATTABLE_SECS <= secs <= MAX_FORMATTABLE_SECS
}

/// Relies on chrono's `DateTime::<Utc>::from_timestamp` and its `%b %d %H:%M`
/// formatting: `from_timestamp` returns `Some` exactly for seconds within
/// chrono's date range, and the formatted stamp — abbreviated month name,
/// zero-padded day, and zero-padded 24-hour clock time, twelve characters in
/// all — depends on the seconds value alone.
#[verifier::external_body]
pub fn convert_system_time_to_seconds(secs: i64) -> (r: Option<String>)
    ensures
        r is Some <==> formattable(secs),
        r matches Some(s) ==> s@ == utc_stamp_chars(secs) && s@.len() == 12,
{
    match chrono::DateTime::<chrono::Utc>::from_timestamp(secs, 0) {
        Some(dt) => Some(dt.format("%b %d %H:%M").to_string()),
        None => None,
    }
}

/// The characters of the fallback stamp for a missing modification time.
pub open spec fn unknown_chars() -> Seq<char> {
    seq!['U', 'n', 'k', 'n', 'o', 'w', 'n']
}

/// The stamp a modification time displays as: its formatted form when it is
/// available and representable, the fallback otherwise.
pub open spec fn date_chars(modified: Option<i64>) -> Seq<char> {
    match modified {
        Some(secs) => if formattable(secs) {
            utc_stamp_chars(secs)
        } else {
            unknown_chars()
        },
        None => unknown_chars(),
    }
}

/// Render a modification time, falling back to the fixed stamp when none is
/// available.
pub fn stringify_date(modified: Option<i64>) -> (r: String)
    ensures
        r@ == date_chars(modified),
{
    proof {
        reveal_strlit("Unknown");
    }
    match modified {
        Some(secs) => match convert_system_time_to_seconds(secs) {
            Some(stamp) => stamp,
            None => {
                let r = String::from_str("Unknown");
                assert(r@ =~= unknown_chars());
                r
            },
        },
        None => {
            let r = String::from_str("Unknown");
            assert(r@ =~= unknown_chars());
            r
        },
    }
}

/// The characters of one path's announcement header.
pub open spec fn header_chars(path: Seq<char>) -> Seq<char> {
    path + seq![':', '\n']
}

/// Render the header line that announces a path when several are listed.
pub fn render_header(path: &String) -> (r: String)
    ensures
        r@ == header_chars(path@),
{
    proof {
        reveal_strlit(":\n");
    }
    let mut out = path.clone();
    out.append(":\n");
    assert(out@ =~= header_chars(path@));
    out
}

/// The characters of the degenerate listing of a path that is itself a
/// regular file: the path alone on one line.
pub open spec fn file_target_chars(path: Seq<char>) -> Seq<char> {
    path + seq!['\n']
}

/// Render the listing of a target path that is a regular file.
pub fn render_file_target(path: &String) -> (r: String)
    ensures
        r@ == file_target_chars(path@),
{
    proof {
        reveal_strlit("\n");
    }
    let mut out = path.clone();
    out.append("\n");
    assert(out@ =~= file_target_chars(path@));
    out
}

/// Why a target path produced no listing.
pub enum ReadError {
    /// The path could not be read at all: it does not exist or is not
    /// accessible; carries the system's error text.
    NotAccessible(String),
}

/// The characters of the diagnostic line reported for a failed path.
pub open spec fn diagnostic_chars(path: Seq<char>, message: Seq<char>) -> Seq<char> {
    seq!['l', 's', ':', ' '] + path + seq![':', ' '] + message + seq!['\n']
}

/// Render the diagnostic line for a path that failed to read.
pub fn render_diagnostic(path: &String, err: &ReadError) -> (r: String)
    ensures
        (match *err {
            ReadError::NotAccessible(ref m) => r@ == diagnostic_chars(path@, m@),
        }),
{
    proof {
        reveal_strlit("ls: ");
        reveal_strlit(": ");
        reveal_strlit("\n");
    }
    let mut out = String::from_str("ls: ");
    out.append(path.as_str());
    out.append(": ");
    match err {
        ReadError::NotAccessible(m) => {
            out.append(m.as_str());
        },
    }
    out.append("\n");
    match err {
        ReadError::NotAccessible(m) => {
            assert(out@ =~= diagnostic_chars(path@, m@));
        },
    }
    out
}

/// The characters an entry contributes to the compact listing: its decodable
/// name followed by a tab, or nothing when the name cannot be decoded.
pub open spec fn compact_chars(s: Seq<Entry>) -> Seq<char>
    decreases s.len(),
{
    if s.len() == 0 {
        Seq::<char>::empty()
    } else {
        compact_chars(s.drop_last()) + (match s.last().name {
            Some(n) => n@ + seq!['\t'],
            None => Seq::<char>::empty(),
        })
    }
}

/// Render the compact form of a run of entries, in order.
pub fn render_compact_entries(entries: &Vec<Entry>) -> (r: String)
    ensures
        r@ == compact_chars(entries@),
{
    proof {
        reveal_strlit("\t");
    }
    let mut out = String::new();
    let mut i: usize = 0;
    proof {
        assert(entries@.take(0) =~= Seq::<Entry>::empty());
    }
    while i < entries.len()
        invariant
            i <= entries@.len(),
            out@ == compact_chars(entries@.take(i as int)),
        decreases entries@.len() - i,
    {
        proof {
            reveal_strlit("\t");
            assert(entries@.take(i as int + 1).drop_last() =~= entries@.take(i as int));
            assert(entries@.take(i as int + 1).last() == entries@[i as int]);
        }
        let ghost prev = out@;
        match &entries[i].name {
            Some(n) => {
                out.append(n.as_str());
                out.append("\t");
                assert(entries@[i as int].name matches Some(nm) && nm@ == n@);
                assert(out@ =~= prev + (n@ + seq!['\t']));
            },
            None => {
                assert(entries@[i as int].name is None);
            },
        }
        assert(out@ =~= compact_chars(entries@.take(i as int + 1)));
        i = i + 1;
    }
    proof {
        assert(entries@.take(i as int) =~= entries@);
    }
    out
}

/// The characters of an entry's filename, empty when it cannot be decoded.
pub open spec fn name_chars(e: Entry) -> Seq<char> {
    match e.name {
        Some(n) => n@,
        None => Seq::<char>::empty(),
    }
}

/// The arrow-and-target suffix a symbolic link's line carries.
pub open spec fn link_suffix_chars(e: Entry) -> Seq<char> {
    match e.link_target {
        Some(t) => seq![' ', '-', '>', ' '] + t@,
        None => Seq::<char>::empty(),
    }
}

/// The characters of one entry's detailed line: mode string, link count,
/// owner, group, size, modification stamp and name, tab-separated, with the
/// link suffix when the entry is a symbolic link. An entry whose metadata
/// could not be fetched contributes nothing.
pub open spec fn detail_line_chars(
    e: Entry,
    users: Seq<(u32, Seq<char>)>,
    groups: Seq<(u32, Seq<char>)>,
) -> Seq<char> {
    match e.metadata {
        None => Seq::<char>::empty(),
        Some(m) => mode_chars(m.mode) + seq!['\t'] + dec_chars(m.nlink as nat) + seq!['\t']
            + display_id(users, m.uid) + seq!['\t'] + display_id(groups, m.gid) + seq!['\t']
            + dec_chars(m.size as nat) + seq!['\t'] + date_chars(m.modified) + seq!['\t']
            + name_chars(e) + link_suffix_chars(e) + seq!['\n'],
    }
}

/// The detailed lines of a run of entries, in order.
pub open spec fn detail_lines_chars(
    s: Seq<Entry>,
    users: Seq<(u32, Seq<char>)>,
    groups: Seq<(u32, Seq<char>)>,
) -> Seq<char>
    decreases s.len(),
{
    if s.len() == 0 {
        Seq::<char>::empty()
    } else {
        detail_lines_chars(s.drop_last(), users, groups) + detail_line_chars(
            s.last(),
            users,
            groups,
        )
    }
}

/// One cache state extends another when every id displays as the same name
/// under both.
pub open spec fn extends_display(c0: Seq<(u32, Seq<char>)>, c1: Seq<(u32, Seq<char>)>) -> bool {
    forall|id: u32| #[trigger] display_id(c1, id) == display_id(c0, id)
}

/// Caching the decimal fallback for an unresolved id changes no display.
pub proof fn lemma_extends_push_fallback(c: Seq<(u32, Seq<char>)>, id: u32)
    requires
        assoc(c, id) is None,
    ensures
        extends_display(c, c.push((id, dec_chars(id as nat)))),
{
    let c1 = c.push((id, dec_chars(id as nat)));
    assert forall|q: u32| #[trigger] display_id(c1, q) == display_id(c, q) by {
        lemma_assoc_push(c, (id, dec_chars(id as nat)), q);
    }
}

/// Extension of displays is transitive.
pub proof fn lemma_extends_trans(
    c0: Seq<(u32, Seq<char>)>,
    c1: Seq<(u32, Seq<char>)>,
    c2: Seq<(u32, Seq<char>)>,
)
    requires
        extends_display(c0, c1),
        extends_display(c1, c2),
    ensures
        extends_display(c0, c2),
{
    assert forall|q: u32| #[trigger] display_id(c2, q) == display_id(c0, q) by {
        assert(display_id(c1, q) == display_id(c0, q));
    }
}

/// A detailed line reads the cache only through displays, so extending the
/// cache does not change it.
pub proof fn lemma_detail_line_congruent(
    e: Entry,
    u0: Seq<(u32, Seq<char>)>,
    g0: Seq<(u32, Seq<char>)>,
    u1: Seq<(u32, Seq<char>)>,
    g1: Seq<(u32, Seq<char>)>,
)
    requires
        extends_display(u0, u1),
        extends_display(g0, g1),
    ensures
        detail_line_chars(e, u1, g1) == detail_line_chars(e, u0, g0),
{
    match e.metadata {
        None => {},
        Some(m) => {
            assert(display_id(u1, m.uid) == display_id(u0, m.uid));
            assert(display_id(g1, m.gid) == display_id(g0, m.gid));
        },
    }
}

/// As `lemma_detail_line_congruent`, for a whole run of lines.
pub proof fn lemma_detail_lines_congruent(
    s: Seq<Entry>,
    u0: Seq<(u32, Seq<char>)>,
    g0: Seq<(u32, Seq<char>)>,
    u1: Seq<(u32, Seq<char>)>,
    g1: Seq<(u32, Seq<char>)>,
)
    requires
        extends_display(u0, u1),
        extends_display(g0, g1),
    ensures
        detail_lines_chars(s, u1, g1) == detail_lines_chars(s, u0, g0),
    decreases s.len(),
{
    if s.len() > 0 {
        lemma_detail_lines_congruent(s.drop_last(), u0, g0, u1, g1);
        lemma_detail_line_congruent(s.last(), u0, g0, u1, g1);
    }
}

/// Render one entry's detailed line, resolving its owner and group through
/// the cache; ids that the cache cannot name display as their decimal form
/// and are cached as such.
#[verifier::rlimit(50)]
pub fn render_long_list_item(e: &Entry, cache: &mut IdentityCache) -> (r: String)
    ensures
        r@ == detail_line_chars(*e, old(cache).users_view(), old(cache).groups_view()),
        extends_display(old(cache).users_view(), final(cache).users_view()),
        extends_display(old(cache).groups_view(), final(cache).groups_view()),
{
    proof {
        reveal_strlit("\t");
        reveal_strlit(" -> ");
        reveal_strlit("\n");
    }
    let ghost u0 = cache.users_view();
    let ghost g0 = cache.groups_view();
    match &e.metadata {
        None => {
            let r = String::new();
            assert(r@ =~= detail_line_chars(*e, u0, g0));
            r
        },
        Some(m) => {
            let mut out = stringify_mode(m.mode);
            out.append("\t");
            let nlink = u64_to_decimal(m.nlink);
            out.append(nlink.as_str());
            out.append("\t");
            let uname = cache.resolve_user(m.uid, None);
            proof {
                assert(uname@ == display_id(u0, m.uid));
                if assoc(u0, m.uid) is None {
                    lemma_extends_push_fallback(u0, m.uid);
                }
                assert(extends_display(u0, cache.users_view()));
                assert(extends_display(g0, cache.groups_view()));
            }
            out.append(uname.as_str());
            out.append("\t");
            let gname = cache.resolve_group(m.gid, None);
            proof {
                assert(gname@ == display_id(g0, m.gid));
                if assoc(g0, m.gid) is None {
                    lemma_extends_push_fallback(g0, m.gid);
                }
                assert(extends_display(u0, cache.users_view()));
                assert(extends_display(g0, cache.groups_view()));
            }
            out.append(gname.as_str());
            out.append("\t");
            assert(out@ =~= mode_chars(m.mode) + seq!['\t'] + dec_chars(m.nlink as nat)
                + seq!['\t'] + display_id(u0, m.uid) + seq!['\t'] + display_id(g0, m.gid)
                + seq!['\t']);
            let size = u64_to_decimal(m.size);
            out.append(size.as_str());
            out.append("\t");
            let stamp = stringify_date(m.modified);
            out.append(stamp.as_str());
            out.append("\t");
            let ghost head = mode_chars(m.mode) + seq!['\t'] + dec_chars(m.nlink as nat)
                + seq!['\t'] + display_id(u0, m.uid) + seq!['\t'] + display_id(g0, m.gid)
                + seq!['\t'] + dec_chars(m.size as nat) + seq!['\t'] + date_chars(m.modified)
                + seq!['\t'];
            assert(out@ =~= head);
            match &e.name {
                Some(n) => {
                    out.append(n.as_str());
                },
                None => {},
            }
            assert(out@ =~= head + name_chars(*e));
            match &e.link_target {
                Some(t) => {
                    out.append(" -> ");
                    out.append(t.as_str());
                },
                None => {},
            }
            assert(out@ =~= head + name_chars(*e) + link_suffix_chars(*e));
            out.append("\n");
            assert(out@ =~= detail_line_chars(*e, u0, g0));
            out
        },
    }
}

/// Render the detailed lines of a run of entries, in order.
pub fn render_long_entries(entries: &Vec<Entry>, cache: &mut IdentityCache) -> (r: String)
    ensures
        r@ == detail_lines_chars(entries@, old(cache).users_view(), old(cache).groups_view()),
        extends_display(old(cache).users_view(), final(cache).users_view()),
        extends_display(old(cache).groups_view(), final(cache).groups_view()),
{
    let ghost u0 = cache.users_view();
    let ghost g0 = cache.groups_view();
    let mut out = String::new();
    let mut i: usize = 0;
    proof {
        assert(entries@.take(0) =~= Seq::<Entry>::empty());
    }
    while i < entries.len()
        invariant
            i <= entries@.len(),
            out@ == detail_lines_chars(entries@.take(i as int), u0, g0),
            extends_display(u0, cache.users_view()),
            extends_display(g0, cache.groups_view()),
        decreases entries@.len() - i,
    {
        let ghost cu = cache.users_view();
        let ghost cg = cache.groups_view();
        let line = render_long_list_item(&entries[i], cache);
        proof {
            lemma_detail_line_congruent(entries@[i as int], u0, g0, cu, cg);
            lemma_extends_trans(u0, cu, cache.users_view());
            lemma_extends_trans(g0, cg, cache.groups_view());
            assert(entries@.take(i as int + 1).drop_last() =~= entries@.take(i as int));
            assert(entries@.take(i as int + 1).last() == entries@[i as int]);
        }
        out.append(line.as_str());
        assert(out@ =~= detail_lines_chars(entries@.take(i as int + 1), u0, g0));
        i = i + 1;
    }
    proof {
        assert(entries@.take(i as int) =~= entries@);
    }
    out
}

/// The clamped block total a detailed listing reports for its files.
pub open spec fn clamped_sum(s: Seq<Entry>) -> nat {
    if sum_blocks(s) <= u64::MAX as int {
        sum_blocks(s) as nat
    } else {
        u64::MAX as nat
    }
}

/// The characters of the `total` summary line over the files partition.
pub open spec fn total_chars(files: Seq<Entry>) -> Seq<char> {
    seq!['t', 'o', 't', 'a', 'l', ' '] + dec_chars(clamped_sum(files)) + seq!['\n']
}

/// The characters of a whole compact listing: files, then directories, then
/// the closing newline.
pub open spec fn compact_listing_chars(files: Seq<Entry>, dirs: Seq<Entry>) -> Seq<char> {
    compact_chars(files) + compact_chars(dirs) + seq!['\n']
}

/// The characters of a whole detailed listing: the `total` line over the
/// files alone, then the files' lines, then the directories' lines, then the
/// closing newline.
pub open spec fn detailed_listing_chars(
    files: Seq<Entry>,
    dirs: Seq<Entry>,
    users: Seq<(u32, Seq<char>)>,
    groups: Seq<(u32, Seq<char>)>,
) -> Seq<char> {
    total_chars(files) + detail_lines_chars(files, users, groups) + detail_lines_chars(
        dirs,
        users,
        groups,
    ) + seq!['\n']
}

/// Render a whole compact listing from its two prepared partitions.
pub fn render_compact_listing(files: &Vec<Entry>, dirs: &Vec<Entry>) -> (r: String)
    ensures
        r@ == compact_listing_chars(files@, dirs@),
{
    proof {
        reveal_strlit("\n");
    }
    let mut out = render_compact_entries(files);
    let tail = render_compact_entries(dirs);
    out.append(tail.as_str());
    out.append("\n");
    assert(out@ =~= compact_listing_chars(files@, dirs@));
    out
}

/// Render a whole detailed listing from its two prepared partitions; the
/// `total` line counts the blocks of the files partition only.
pub fn render_detailed_listing(files: &Vec<Entry>, dirs: &Vec<Entry>, cache: &mut IdentityCache) -> (r: String)
    ensures
        r@ == detailed_listing_chars(
            files@,
            dirs@,
            old(cache).users_view(),
            old(cache).groups_view(),
        ),
        extends_display(old(cache).users_view(), final(cache).users_view()),
        extends_display(old(cache).groups_view(), final(cache).groups_view()),
{
    proof {
        reveal_strlit("total ");
        reveal_strlit("\n");
    }
    let ghost u0 = cache.users_view();
    let ghost g0 = cache.groups_view();
    let mut out = String::from_str("total ");
    let total = total_block_count(files);
    proof {
        crate::listing::lemma_sum_blocks_nonneg(files@);
    }
    let total_text = u64_to_decimal(total);
    assert(total_text@ == dec_chars(clamped_sum(files@)));
    out.append(total_text.as_str());
    out.append("\n");
    assert(out@ =~= total_chars(files@));
    let file_lines = render_long_entries(files, cache);
    let ghost cu = cache.users_view();
    let ghost cg = cache.groups_view();
    out.append(file_lines.as_str());
    let dir_lines = render_long_entries(dirs, cache);
    proof {
        lemma_detail_lines_congruent(dirs@, u0, g0, cu, cg);
        lemma_extends_trans(u0, cu, cache.users_view());
        lemma_extends_trans(g0, cg, cache.groups_view());
    }
    out.append(dir_lines.as_str());
    out.append("\n");
    assert(out@ =~= detailed_listing_chars(files@, dirs@, u0, g0));
    out
}

/// Everything a finished listing guarantees about its text: the two
/// partitions are sorted by path, correctly classified, hold only entries
/// whose metadata was fetched, and together hold exactly the visible
/// readable entries of the input; and the text is their rendering in the
/// requested form.
pub open spec fn rendered_listing(
    input: Seq<Entry>,
    detailed: bool,
    users: Seq<(u32, Seq<char>)>,
    groups: Seq<(u32, Seq<char>)>,
    files: Seq<Entry>,
    dirs: Seq<Entry>,
    out: Seq<char>,
) -> bool {
    &&& entries_sorted(files)
    &&& entries_sorted(dirs)
    &&& (forall|i: int| 0 <= i < files.len() ==> !files[i].is_dir && files[i].metadata is Some)
    &&& (forall|i: int| 0 <= i < dirs.len() ==> dirs[i].is_dir && dirs[i].metadata is Some)
    &&& files.to_multiset().add(dirs.to_multiset()) == visible_of(
        readable_of(input),
    ).to_multiset()
    &&& files.len() + dirs.len() == visible_of(readable_of(input)).len()
    &&& out == (if detailed {
        detailed_listing_chars(files, dirs, users, groups)
    } else {
        compact_listing_chars(files, dirs)
    })
}

/// Produce one directory's listing text: exclude entries whose metadata
/// could not be fetched, hide dotfiles, sort by path bytes, partition into
/// files and directories, and render those in the requested form, files
/// first.
pub fn render_listing(entries: Vec<Entry>, list_output: bool, cache: &mut IdentityCache) -> (r:
    String)
    ensures
        exists|files: Seq<Entry>, dirs: Seq<Entry>|
            #[trigger] rendered_listing(
                entries@,
                list_output,
                old(cache).users_view(),
                old(cache).groups_view(),
                files,
                dirs,
                r@,
            ),
        extends_display(old(cache).users_view(), final(cache).users_view()),
        extends_display(old(cache).groups_view(), final(cache).groups_view()),
{
    let ghost input = entries@;
    let ghost u0 = cache.users_view();
    let ghost g0 = cache.groups_view();
    let (files, dirs) = prepare_entries(entries);
    let r = if list_output {
        render_detailed_listing(&files, &dirs, cache)
    } else {
        render_compact_listing(&files, &dirs)
    };
    proof {
        assert(rendered_listing(input, list_output, u0, g0, files@, dirs@, r@));
    }
    r
}

} // verus!
