//! Resolution of numeric user and group ids to display names, memoized per
//! listing session, with the decimal form of the id as fallback when no name
//! can be found.

use vstd::prelude::*;
use crate::numeral::{dec_chars, u32_to_decimal};

verus! {

/// First-match lookup in an association sequence of ids and names.
pub open spec fn assoc(s: Seq<(u32, Seq<char>)>, id: u32) -> Option<Seq<char>>
    decreases s.len(),
{
    if s.len() == 0 {
        None
    } else if s[0].0 == id {
        Some(s[0].1)
    } else {
        assoc(s.drop_first(), id)
    }
}

/// The name an id displays as under a cache: its cached name, or its decimal
/// form when the cache holds no name for it.
pub open spec fn display_id(cache: Seq<(u32, Seq<char>)>, id: u32) -> Seq<char> {
    match assoc(cache, id) {
        Some(n) => n,
        None => dec_chars(id as nat),
    }
}

/// Appending a pair changes lookups only for an id that had no match.
pub proof fn lemma_assoc_push(s: Seq<(u32, Seq<char>)>, p: (u32, Seq<char>), q: u32)
    ensures
        assoc(s.push(p), q) == (if assoc(s, q) is Some {
            assoc(s, q)
        } else if p.0 == q {
            Some(p.1)
        } else {
            None::<Seq<char>>
        }),
    decreases s.len(),
{
    if s.len() == 0 {
        assert(s.push(p)[0] == p);
        assert(s.push(p).len() == 1);
        assert(s.push(p).drop_first() =~= Seq::<(u32, Seq<char>)>::empty());
    } else {
        assert(s.push(p)[0] == s[0]);
        assert(s.push(p).drop_first() =~= s.drop_first().push(p));
        lemma_assoc_push(s.drop_first(), p, q);
    }
}

/// The id-and-name pairs of a cache table, over views of the stored strings.
pub open spec fn pairs_view(s: Seq<(u32, String)>) -> Seq<(u32, Seq<char>)> {
    s.map_values(|p: (u32, String)| (p.0, p.1@))
}

/// Find the cached name of `id` in a table, if the table holds one.
fn table_lookup(table: &Vec<(u32, String)>, id: u32) -> (r: Option<String>)
    ensures
        match r {
            Some(s) => assoc(pairs_view(table@), id) == Some(s@),
            None => assoc(pairs_view(table@), id) is None,
        },
{
    let ghost full = pairs_view(table@);
    let mut i: usize = 0;
    assert(full.skip(0) =~= full);
    loop
        invariant
            i <= table@.len(),
            full == pairs_view(table@),
            full.len() == table@.len(),
            assoc(full, id) == assoc(full.skip(i as int), id),
        decreases table@.len() - i,
    {
        if i >= table.len() {
            assert(full.skip(i as int).len() == 0);
            return None;
        }
        assert(full.skip(i as int)[0] == full[i as int]);
        if table[i].0 == id {
            let name = table[i].1.clone();
            return Some(name);
        }
        assert(full.skip(i as int).drop_first() =~= full.skip(i as int + 1));
        i = i + 1;
    }
}

/// Resolve an id against one table: return the cached name when there is one;
/// otherwise adopt the lookup outcome, or the decimal form of the id when the
/// lookup failed, and cache what was adopted.
fn table_resolve(table: &mut Vec<(u32, String)>, id: u32, looked_up: Option<String>) -> (r: String)
    ensures
        assoc(pairs_view(old(table)@), id) matches Some(n) ==> r@ == n && final(table)@ == old(table)@,
        assoc(pairs_view(old(table)@), id) is None ==> r@ == (match looked_up {
            Some(s) => s@,
            None => dec_chars(id as nat),
        }) && pairs_view(final(table)@) == pairs_view(old(table)@).push((id, r@)),
{
    match table_lookup(table, id) {
        Some(name) => name,
        None => {
            let name = match looked_up {
                Some(s) => s,
                None => u32_to_decimal(id),
            };
            table.push((id, name.clone()));
            proof {
                assert(pairs_view(final(table)@) =~= pairs_view(old(table)@).push((id, name@)));
            }
            name
        },
    }
}

/// The per-session cache of resolved user and group names.
///
/// Each table maps a numeric id to the name it displays as; a resolution is
/// attempted at most once per id and session, and cached entries are never
/// removed.
pub struct IdentityCache {
    /// Resolved user names, keyed by uid.
    pub users: Vec<(u32, String)>,
    /// Resolved group names, keyed by gid.
    pub groups: Vec<(u32, String)>,
}

impl IdentityCache {
    /// The cached uid-to-name pairs, over string views.
    pub open spec fn users_view(self) -> Seq<(u32, Seq<char>)> {
        pairs_view(self.users@)
    }

    /// The cached gid-to-name pairs, over string views.
    pub open spec fn groups_view(self) -> Seq<(u32, Seq<char>)> {
        pairs_view(self.groups@)
    }

    /// A fresh, empty cache for one listing session.
    pub fn new() -> (r: IdentityCache)
        ensures
            r.users_view() == Seq::<(u32, Seq<char>)>::empty(),
            r.groups_view() == Seq::<(u32, Seq<char>)>::empty(),
    {
        let r = IdentityCache { users: Vec::new(), groups: Vec::new() };
        proof {
            assert(r.users_view() =~= Seq::<(u32, Seq<char>)>::empty());
            assert(r.groups_view() =~= Seq::<(u32, Seq<char>)>::empty());
        }
        r
    }

    /// Resolve a uid: the cached name when one is cached; otherwise the
    /// outcome of the caller's system lookup, or the decimal form of the uid
    /// when that lookup failed or was not possible, cached either way.
    pub fn resolve_user(&mut self, uid: u32, looked_up: Option<String>) -> (r: String)
        ensures
            assoc(old(self).users_view(), uid) matches Some(n) ==> r@ == n && final(self).users_view() == old(self).users_view(),
            assoc(old(self).users_view(), uid) is None ==> r@ == (match looked_up {
                Some(s) => s@,
                None => dec_chars(uid as nat),
            }) && final(self).users_view() == old(self).users_view().push((uid, r@)),
            final(self).groups_view() == old(self).groups_view(),
    {
        table_resolve(&mut self.users, uid, looked_up)
    }

    /// Resolve a gid, as `resolve_user` does for uids.
    pub fn resolve_group(&mut self, gid: u32, looked_up: Option<String>) -> (r: String)
        ensures
            assoc(old(self).groups_view(), gid) matches Some(n) ==> r@ == n && final(self).groups_view() == old(self).groups_view(),
            assoc(old(self).groups_view(), gid) is None ==> r@ == (match looked_up {
                Some(s) => s@,
                None => dec_chars(gid as nat),
            }) && final(self).groups_view() == old(self).groups_view().push((gid, r@)),
            final(self).users_view() == old(self).users_view(),
    {
        table_resolve(&mut self.groups, gid, looked_up)
    }

    /// Whether a uid already has a cached name, so no new lookup is owed.
    pub fn has_user(&self, uid: u32) -> (r: bool)
        ensures
            r == (assoc(self.users_view(), uid) is Some),
    {
        table_lookup(&self.users, uid).is_some()
    }

    /// Whether a gid already has a cached name, so no new lookup is owed.
    pub fn has_group(&self, gid: u32) -> (r: bool)
        ensures
            r == (assoc(self.groups_view(), gid) is Some),
    {
        table_lookup(&self.groups, gid).is_some()
    }
}

} // verus!
