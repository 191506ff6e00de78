//! Text primitives the hierarchy is built on: the parent named by a dotted
//! identifier, and the order in which titles are compared.

use vstd::prelude::*;
use vstd::std_specs::iter::IteratorSpec;

verus! {

/// Position of the last `.` of `s`, or `None` when `s` has no `.`.
pub open spec fn last_dot(s: Seq<char>) -> Option<int>
    decreases s.len(),
{
    if s.len() == 0 {
        None
    } else if s.last() == '.' {
        Some(s.len() - 1)
    } else {
        last_dot(s.drop_last())
    }
}

/// The identifier that a dotted identifier names as its parent: everything
/// before its last `.`. An identifier without a `.` names no parent.
pub open spec fn dotted_parent(id: Seq<char>) -> Option<Seq<char>> {
    match last_dot(id) {
        Some(k) => Some(id.subrange(0, k)),
        None => None,
    }
}

/// `last_dot` finds a `.`, and no `.` stands after it; it finds none only
/// where there is none.
pub proof fn lemma_last_dot(s: Seq<char>)
    ensures
        match last_dot(s) {
            Some(k) => 0 <= k < s.len() && s[k] == '.' && forall|j: int|
                k < j < s.len() ==> s[j] != '.',
            None => forall|j: int| 0 <= j < s.len() ==> s[j] != '.',
        },
    decreases s.len(),
{
    if s.len() > 0 && s.last() != '.' {
        let t = s.drop_last();
        lemma_last_dot(t);
        assert(forall|j: int| 0 <= j < t.len() ==> t[j] == s[j]);
    }
}

/// A dotted parent is strictly shorter than the identifier that names it.
pub proof fn lemma_dotted_parent_shorter(id: Seq<char>)
    ensures
        dotted_parent(id) matches Some(p) ==> p.len() < id.len(),
{
    lemma_last_dot(id);
}

/// Strict lexicographic order on text, character by character, a proper
/// prefix coming first.
pub open spec fn text_lt(a: Seq<char>, b: Seq<char>) -> bool
    decreases a.len(),
{
    if b.len() == 0 {
        false
    } else if a.len() == 0 {
        true
    } else if a[0] != b[0] {
        a[0] < b[0]
    } else {
        text_lt(a.drop_first(), b.drop_first())
    }
}

/// No text comes before itself.
pub proof fn lemma_text_lt_irreflexive(a: Seq<char>)
    ensures
        !text_lt(a, a),
    decreases a.len(),
{
    if a.len() > 0 {
        lemma_text_lt_irreflexive(a.drop_first());
    }
}

/// The order is transitive.
pub proof fn lemma_text_lt_transitive(a: Seq<char>, b: Seq<char>, c: Seq<char>)
    requires
        text_lt(a, b),
        text_lt(b, c),
    ensures
        text_lt(a, c),
    decreases a.len(),
{
    if a.len() > 0 && a[0] == b[0] && b[0] == c[0] {
        lemma_text_lt_transitive(a.drop_first(), b.drop_first(), c.drop_first());
    }
}

/// Two texts are equal, or one comes before the other.
pub proof fn lemma_text_lt_total(a: Seq<char>, b: Seq<char>)
    ensures
        text_lt(a, b) || text_lt(b, a) || a == b,
    decreases a.len(),
{
    if a.len() > 0 && b.len() > 0 && a[0] == b[0] {
        lemma_text_lt_total(a.drop_first(), b.drop_first());
        if a.drop_first() == b.drop_first() {
            assert(a =~= seq![a[0]] + a.drop_first());
            assert(b =~= seq![b[0]] + b.drop_first());
        }
    } else if a.len() == 0 && b.len() == 0 {
        assert(a =~= b);
    }
}

/// Whether two texts hold the same characters.
pub fn same_text(a: &str, b: &str) -> (r: bool)
    ensures
        r == (a@ == b@),
{
    let n = a.unicode_len();
    let mut i: usize = 0;
    let mut ia = a.chars();
    let mut ib = b.chars();
    loop
        invariant
            ia.obeys_prophetic_iter_laws(),
            ib.obeys_prophetic_iter_laws(),
            n == a@.len(),
            i + ia.remaining().len() == n,
            ia.remaining() == a@.subrange(i as int, n as int),
            i + ib.remaining().len() == b@.len(),
            ib.remaining() == b@.subrange(i as int, b@.len() as int),
            a@.subrange(0, i as int) == b@.subrange(0, i as int),
        decreases n - i,
    {
        let x = ia.next();
        let y = ib.next();
        match (x, y) {
            (None, None) => {
                assert(a@ == a@.subrange(0, i as int));
                assert(b@ == b@.subrange(0, i as int));
                return true;
            },
            (Some(p), Some(q)) => {
                assert(p == a@[i as int] && q == b@[i as int]);
                if p != q {
                    return false;
                }
                assert(a@.subrange(0, i + 1) =~= a@.subrange(0, i as int).push(p));
                assert(b@.subrange(0, i + 1) =~= b@.subrange(0, i as int).push(q));
                i += 1;
            },
            _ => {
                return false;
            },
        }
    }
}

/// Whether `a` comes strictly before `b` in `text_lt`.
pub fn text_before(a: &str, b: &str) -> (r: bool)
    ensures
        r == text_lt(a@, b@),
{
    let n = a.unicode_len();
    let mut i: usize = 0;
    let mut ia = a.chars();
    let mut ib = b.chars();
    loop
        invariant
            ia.obeys_prophetic_iter_laws(),
            ib.obeys_prophetic_iter_laws(),
            text_lt(a@, b@) == text_lt(ia.remaining(), ib.remaining()),
            i + ia.remaining().len() == n,
        decreases n - i,
    {
        let y = ib.next();
        let x = ia.next();
        match (x, y) {
            (_, None) => {
                return false;
            },
            (None, Some(_)) => {
                return true;
            },
            (Some(p), Some(q)) => {
                if p != q {
                    return p < q;
                }
                i += 1;
            },
        }
    }
}

/// The parent that a dotted identifier names, as `dotted_parent` defines it.
pub fn parent_of(id: &str) -> (r: Option<String>)
    ensures
        match r {
            Some(p) => dotted_parent(id@) == Some(p@),
            None => dotted_parent(id@) is None,
        },
{
    let n = id.unicode_len();
    let mut found: Option<usize> = None;
    let mut i: usize = 0;
    let mut it = id.chars();
    loop
        invariant
            it.obeys_prophetic_iter_laws(),
            n == id@.len(),
            i + it.remaining().len() == n,
            it.remaining() == id@.subrange(i as int, n as int),
            match found {
                Some(k) => last_dot(id@.subrange(0, i as int)) == Some(k as int),
                None => last_dot(id@.subrange(0, i as int)) is None,
            },
        decreases n - i,
    {
        match it.next() {
            None => {
                assert(id@.subrange(0, i as int) == id@);
                return match found {
                    Some(k) => {
                        proof {
                            lemma_last_dot(id@);
                        }
                        Some(id.substring_char(0, k).to_owned())
                    },
                    None => None,
                };
            },
            Some(c) => {
                assert(id@.subrange(0, i + 1).drop_last() == id@.subrange(0, i as int));
                if c == '.' {
                    found = Some(i);
                }
                i += 1;
            },
        }
    }
}

} // verus!
