//! The capsule store: which files of the store directory count as
//! capsules, and in what order they are presented.
//!
//! The caller scans the store directory and hands over one [`Capsule`]
//! per file found there; [`list_capsules`] keeps those whose name carries
//! the archive extension and orders them by modification time, oldest
//! first, ties broken by name.  A missing or empty store directory is an
//! empty listing, never an error.

use vstd::prelude::*;
use vstd::string::*;
use crate::paths::{lex_le, lemma_lex_le_total, lemma_lex_le_trans, str_lex_le};

verus! {

/// One capsule file: its file name and its filesystem modification time,
/// in whole units (for example seconds) since some fixed epoch.
pub struct Capsule {
    pub name: String,
    pub mtime: u64,
}

/// The file name marks an archive: it ends in `.zip` and has a non-empty
/// stem before that suffix.
pub open spec fn has_archive_ext(s: Seq<char>) -> bool {
    &&& s.len() >= 5
    &&& s[s.len() - 4] == '.'
    &&& s[s.len() - 3] == 'z'
    &&& s[s.len() - 2] == 'i'
    &&& s[s.len() - 1] == 'p'
}

/// Decides `has_archive_ext` for a string.
pub fn name_has_archive_ext(s: &str) -> (r: bool)
    ensures
        r == has_archive_ext(s@),
{
    let n = s.unicode_len();
    if n < 5 {
        return false;
    }
    s.get_char(n - 4) == '.' && s.get_char(n - 3) == 'z' && s.get_char(n - 2) == 'i'
        && s.get_char(n - 1) == 'p'
}

/// The listing order: earlier modification time first, names deciding ties.
pub open spec fn caps_le(a: Capsule, b: Capsule) -> bool {
    ||| a.mtime < b.mtime
    ||| (a.mtime == b.mtime && lex_le(a.name@, b.name@))
}

/// Every pair of a listing stands in order.
pub open spec fn caps_sorted(s: Seq<Capsule>) -> bool {
    forall|i: int, j: int| 0 <= i < j < s.len() ==> caps_le(s[i], s[j])
}

/// Decides `caps_le` for two capsules.
fn caps_le_exec(a: &Capsule, b: &Capsule) -> (r: bool)
    ensures
        r == caps_le(*a, *b),
{
    if a.mtime < b.mtime {
        true
    } else if a.mtime == b.mtime {
        str_lex_le(a.name.as_str(), b.name.as_str())
    } else {
        false
    }
}

/// Inserting anywhere adds exactly one occurrence to the multiset of a
/// sequence.
proof fn lemma_insert_to_multiset(s: Seq<Capsule>, i: int, v: Capsule)
    requires
        0 <= i <= s.len(),
    ensures
        s.insert(i, v).to_multiset() =~= s.to_multiset().insert(v),
{
    broadcast use vstd::seq_lib::group_to_multiset_ensures;

    let t = s.insert(i, v);
    assert(t.remove(i) =~= s);
    assert(t.remove(i).to_multiset() =~= t.to_multiset().remove(t[i]));
    assert(t.to_multiset().contains(v)) by {
        assert(t[i] == v);
        assert(t.contains(v));
    }
    assert forall|x: Capsule| s.to_multiset().insert(v).count(x) == t.to_multiset().count(x) by {
        if x == v {
            assert(t.to_multiset().remove(v).count(v) + 1 == t.to_multiset().count(v));
        } else {
            assert(t.to_multiset().remove(v).count(x) == t.to_multiset().count(x));
        }
    }
}

/// Puts `x` at the first position of a sorted listing that keeps it sorted.
fn insert_sorted(out: &mut Vec<Capsule>, x: Capsule)
    requires
        caps_sorted(old(out)@),
    ensures
        caps_sorted(final(out)@),
        final(out)@.to_multiset() =~= old(out)@.to_multiset().insert(x),
{
    let ghost x0 = x;
    let mut idx: usize = 0;
    loop
        invariant
            idx <= out.len(),
            caps_sorted(out@),
            out@ == old(out)@,
            x == x0,
            forall|k: int| 0 <= k < idx ==> caps_le(out@[k], x),
        ensures
            idx <= out@.len(),
            out@ == old(out)@,
            x == x0,
            forall|k: int| 0 <= k < idx ==> caps_le(out@[k], x),
            idx < out@.len() ==> !caps_le(out@[idx as int], x),
        decreases out.len() - idx,
    {
        if idx >= out.len() {
            break;
        }
        if !caps_le_exec(&out[idx], &x) {
            break;
        }
        idx = idx + 1;
    }
    proof {
        if idx < out@.len() {
            lemma_lex_le_total(out@[idx as int].name@, x.name@);
            assert(caps_le(x, out@[idx as int]));
            assert forall|k: int| idx <= k < out@.len() implies caps_le(x, out@[k]) by {
                if k > idx {
                    assert(caps_le(out@[idx as int], out@[k]));
                    if x.mtime == out@[k].mtime && out@[idx as int].mtime == x.mtime {
                        lemma_lex_le_trans(x.name@, out@[idx as int].name@, out@[k].name@);
                    }
                }
            }
        }
        lemma_insert_to_multiset(out@, idx as int, x);
    }
    out.insert(idx, x);
    proof {
        assert(caps_sorted(out@)) by {
            assert(forall|k: int| 0 <= k < idx ==> caps_le(out@[k], out@[idx as int]));
        }
    }
}

/// The entries of `s` whose names carry the archive extension.
pub open spec fn archive_entries(s: Seq<Capsule>) -> Seq<Capsule> {
    s.filter(|c: Capsule| has_archive_ext(c.name@))
}

/// Orders the capsule files of the store directory: keeps exactly the
/// entries whose name carries the archive extension, sorted ascending by
/// modification time with names deciding ties.  An empty scan gives an
/// empty listing.
pub fn list_capsules(found: Vec<Capsule>) -> (r: Vec<Capsule>)
    ensures
        caps_sorted(r@),
        r@.to_multiset() =~= archive_entries(found@).to_multiset(),
        found@.len() == 0 ==> r@.len() == 0,
{
    broadcast use vstd::seq_lib::group_to_multiset_ensures;

    let mut rest = found;
    let mut out: Vec<Capsule> = Vec::new();
    proof {
        assert(archive_entries(rest@) =~= Seq::<Capsule>::empty().filter(
            |c: Capsule| has_archive_ext(c.name@),
        ).add(archive_entries(rest@)));
    }
    while rest.len() > 0
        invariant
            caps_sorted(out@),
            out@.to_multiset().add(archive_entries(rest@).to_multiset()) =~= archive_entries(
                found@,
            ).to_multiset(),
        decreases rest.len(),
    {
        let ghost rest0 = rest@;
        let x = rest.remove(0);
        proof {
            assert(rest0.drop_first() =~= rest@);
            reveal_with_fuel(Seq::filter, 2);
            assert(archive_entries(rest0) =~= if has_archive_ext(x.name@) {
                seq![x] + archive_entries(rest@)
            } else {
                archive_entries(rest@)
            }) by {
                lemma_filter_first(rest0, x);
            }
        }
        if name_has_archive_ext(x.name.as_str()) {
            proof {
                assert((seq![x] + archive_entries(rest@)).to_multiset() =~= archive_entries(
                    rest@,
                ).to_multiset().insert(x)) by {
                    lemma_insert_to_multiset(archive_entries(rest@), 0, x);
                    assert(archive_entries(rest@).insert(0, x) =~= seq![x] + archive_entries(
                        rest@,
                    ));
                }
            }
            insert_sorted(&mut out, x);
        }
    }
    proof {
        reveal(Seq::filter);
        assert(archive_entries(rest@) =~= Seq::<Capsule>::empty());
        assert(out@.to_multiset() =~= archive_entries(found@).to_multiset());
        if found@.len() == 0 {
            assert(archive_entries(found@) =~= Seq::<Capsule>::empty());
            assert(out@.len() == out@.to_multiset().len());
        }
    }
    out
}

/// Filtering a non-empty sequence splits on its first element.
proof fn lemma_filter_first(s: Seq<Capsule>, x: Capsule)
    requires
        s.len() > 0,
        s[0] == x,
    ensures
        s.filter(|c: Capsule| has_archive_ext(c.name@)) =~= if has_archive_ext(x.name@) {
            seq![x] + s.drop_first().filter(|c: Capsule| has_archive_ext(c.name@))
        } else {
            s.drop_first().filter(|c: Capsule| has_archive_ext(c.name@))
        },
{
    let pred = |c: Capsule| has_archive_ext(c.name@);
    assert(s =~= seq![x] + s.drop_first());
    Seq::<Capsule>::filter_distributes_over_add(seq![x], s.drop_first(), pred);
    reveal_with_fuel(Seq::filter, 2);
    assert(seq![x].drop_last() =~= Seq::<Capsule>::empty());
    if pred(x) {
        assert(seq![x].filter(pred) =~= seq![x]);
    } else {
        assert(seq![x].filter(pred) =~= Seq::<Capsule>::empty());
    }
}

/// Picks the capsule at `index` of a listing; the caller has already
/// validated the index against the same listing.
pub fn resolve<'a>(listing: &'a Vec<Capsule>, index: usize) -> (r: &'a Capsule)
    requires
        index < listing@.len(),
    ensures
        *r == listing@[index as int],
{
    &listing[index]
}

/// A capsule modified strictly later never precedes one modified earlier
/// in a sorted listing: whoever is created after stands after.
pub proof fn lemma_later_capsule_listed_after(s: Seq<Capsule>, i: int, j: int)
    requires
        caps_sorted(s),
        0 <= i < s.len(),
        0 <= j < s.len(),
        s[i].mtime > s[j].mtime,
    ensures
        i > j,
{
    if i <= j {
        if i < j {
            assert(caps_le(s[i], s[j]));
        }
    }
}

} // verus!
