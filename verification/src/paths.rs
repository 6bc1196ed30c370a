//! Archive entry paths: what may be joined under a root, and how names
//! are ordered.
//!
//! An entry path is safe when it is relative (no leading separator, no
//! drive marker) and no segment of it is `..`, so that joining it to the
//! restore root can only name a location at or below that root.

use vstd::prelude::*;
use vstd::string::*;

verus! {

/// A `..` segment starts at position `i` of `s`: the two dots fill a whole
/// `/`-delimited segment.
pub open spec fn dotdot_at(s: Seq<char>, i: int) -> bool {
    &&& 0 <= i
    &&& i + 2 <= s.len()
    &&& s[i] == '.'
    &&& s[i + 1] == '.'
    &&& (i == 0 || s[i - 1] == '/')
    &&& (i + 2 == s.len() || s[i + 2] == '/')
}

/// Some segment of `s` is exactly `..`.
pub open spec fn has_dotdot_segment(s: Seq<char>) -> bool {
    exists|i: int| dotdot_at(s, i)
}

/// `s` may be joined under a root: it is non-empty, relative, uses only
/// forward slashes, carries no drive marker, and has no `..` segment.
pub open spec fn is_safe_entry_path(s: Seq<char>) -> bool {
    &&& s.len() > 0
    &&& s[0] != '/'
    &&& (forall|i: int| 0 <= i < s.len() ==> s[i] != '\\' && s[i] != ':')
    &&& !has_dotdot_segment(s)
}

/// Decides `is_safe_entry_path` for a string.
pub fn entry_path_is_safe(s: &str) -> (r: bool)
    ensures
        r == is_safe_entry_path(s@),
{
    let n = s.unicode_len();
    if n == 0 {
        return false;
    }
    if s.get_char(0) == '/' {
        return false;
    }
    let mut i: usize = 0;
    while i < n
        invariant
            n == s@.len(),
            i <= n,
            n > 0,
            s@[0] != '/',
            forall|j: int| 0 <= j < i ==> s@[j] != '\\' && s@[j] != ':',
            forall|j: int| j < i ==> !dotdot_at(s@, j),
        decreases n - i,
    {
        let c = s.get_char(i);
        if c == '\\' || c == ':' {
            return false;
        }
        if c == '.' && i + 1 < n && s.get_char(i + 1) == '.' {
            let open_left = i == 0 || s.get_char(i - 1) == '/';
            let open_right = i + 2 == n || s.get_char(i + 2) == '/';
            if open_left && open_right {
                assert(dotdot_at(s@, i as int));
                return false;
            }
        }
        i = i + 1;
    }
    assert forall|j: int| !dotdot_at(s@, j) by {
        if 0 <= j && j + 2 <= s@.len() {
            assert(!dotdot_at(s@, j));
        }
    }
    true
}

/// `full` names something strictly below the directory `root`: it extends
/// `root` by a separator and a non-empty remainder.
pub open spec fn is_strictly_under(root: Seq<char>, full: Seq<char>) -> bool {
    &&& full.len() > root.len() + 1
    &&& full.subrange(0, root.len() as int) == root
    &&& full[root.len() as int] == '/'
}

/// Strips the directory prefix `root` and its separator from `full`,
/// returning the remainder; `None` when `full` does not lie strictly
/// below `root`.
pub fn relative_to<'a>(root: &str, full: &'a str) -> (r: Option<&'a str>)
    ensures
        r is Some <==> is_strictly_under(root@, full@),
        r is Some ==> r.unwrap()@ == full@.subrange((root@.len() + 1) as int, full@.len() as int),
        r is Some ==> full@ =~= root@ + seq!['/'] + r.unwrap()@,
{
    let rn = root.unicode_len();
    let fn_ = full.unicode_len();
    if fn_ == 0 || fn_ - 1 <= rn {
        return None;
    }
    let mut i: usize = 0;
    while i < rn
        invariant
            rn == root@.len(),
            fn_ == full@.len(),
            fn_ > rn + 1,
            i <= rn,
            forall|j: int| 0 <= j < i ==> full@[j] == root@[j],
        decreases rn - i,
    {
        if full.get_char(i) != root.get_char(i) {
            proof {
                assert(full@.subrange(0, root@.len() as int)[i as int] != root@[i as int]);
            }
            return None;
        }
        i = i + 1;
    }
    if full.get_char(rn) != '/' {
        return None;
    }
    let rest = full.substring_char(rn + 1, fn_);
    proof {
        assert(full@.subrange(0, root@.len() as int) =~= root@);
    }
    Some(rest)
}

/// Lexicographic order on character sequences, by code point.
pub open spec fn lex_le(a: Seq<char>, b: Seq<char>) -> bool
    decreases a.len(),
{
    if a.len() == 0 {
        true
    } else if b.len() == 0 {
        false
    } else if a[0] == b[0] {
        lex_le(a.drop_first(), b.drop_first())
    } else {
        (a[0] as u32) < (b[0] as u32)
    }
}

/// Any two character sequences are comparable under `lex_le`.
pub proof fn lemma_lex_le_total(a: Seq<char>, b: Seq<char>)
    ensures
        lex_le(a, b) || lex_le(b, a),
    decreases a.len(),
{
    if a.len() > 0 && b.len() > 0 {
        if a[0] == b[0] {
            lemma_lex_le_total(a.drop_first(), b.drop_first());
        } else if (a[0] as u32) == (b[0] as u32) {
            vstd::utf8::char_u32_cast(a[0], a[0] as u32);
            vstd::utf8::char_u32_cast(b[0], b[0] as u32);
        }
    }
}

/// `lex_le` is transitive.
pub proof fn lemma_lex_le_trans(a: Seq<char>, b: Seq<char>, c: Seq<char>)
    requires
        lex_le(a, b),
        lex_le(b, c),
    ensures
        lex_le(a, c),
    decreases a.len(),
{
    if a.len() > 0 && b.len() > 0 && c.len() > 0 && a[0] == b[0] && b[0] == c[0] {
        lemma_lex_le_trans(a.drop_first(), b.drop_first(), c.drop_first());
    }
}

/// When the first `i` characters agree, the order is decided by the rest.
proof fn lemma_lex_le_skip(a: Seq<char>, b: Seq<char>, i: int)
    requires
        0 <= i <= a.len(),
        0 <= i <= b.len(),
        forall|j: int| 0 <= j < i ==> a[j] == b[j],
    ensures
        lex_le(a, b) == lex_le(a.skip(i), b.skip(i)),
    decreases i,
{
    if i > 0 {
        assert(a[0] == b[0]);
        lemma_lex_le_skip(a.drop_first(), b.drop_first(), i - 1);
        assert(a.drop_first().skip(i - 1) =~= a.skip(i));
        assert(b.drop_first().skip(i - 1) =~= b.skip(i));
    } else {
        assert(a.skip(0) =~= a);
        assert(b.skip(0) =~= b);
    }
}

/// Decides `lex_le` for two strings.
pub fn str_lex_le(a: &str, b: &str) -> (r: bool)
    ensures
        r == lex_le(a@, b@),
{
    let an = a.unicode_len();
    let bn = b.unicode_len();
    let mut i: usize = 0;
    loop
        invariant
            an == a@.len(),
            bn == b@.len(),
            i <= an,
            i <= bn,
            forall|j: int| 0 <= j < i ==> a@[j] == b@[j],
        decreases an - i,
    {
        proof {
            lemma_lex_le_skip(a@, b@, i as int);
        }
        if i >= an {
            assert(a@.skip(i as int).len() == 0);
            return true;
        }
        if i >= bn {
            assert(b@.skip(i as int).len() == 0);
            return false;
        }
        let ca = a.get_char(i);
        let cb = b.get_char(i);
        if ca != cb {
            assert(a@.skip(i as int)[0] == a@[i as int]);
            assert(b@.skip(i as int)[0] == b@[i as int]);
            return (ca as u32) < (cb as u32);
        }
        i = i + 1;
    }
}

} // verus!
