//! Byte-string utilities: equality, prefix/suffix tests, substring search,
//! path basenames, path joining, and name normalization.

use vstd::prelude::*;

verus! {

/// A forward slash, the path separator inside repository trees.
pub const SLASH: u8 = 47;

/// A hyphen, normalized to a space in explicit language-name overrides.
pub const HYPHEN: u8 = 45;

/// A space, the normal form of a separator in a language name.
pub const SPACE: u8 = 32;

pub open spec fn starts_with(s: Seq<u8>, prefix: Seq<u8>) -> bool {
    prefix.len() <= s.len() && s.subrange(0, prefix.len() as int) == prefix
}

pub open spec fn ends_with(s: Seq<u8>, suffix: Seq<u8>) -> bool {
    suffix.len() <= s.len() && s.subrange(s.len() - suffix.len(), s.len() as int) == suffix
}

/// `needle` occurs in `s` starting at position `i`.
pub open spec fn matches_at(s: Seq<u8>, needle: Seq<u8>, i: int) -> bool {
    0 <= i && i + needle.len() <= s.len() && s.subrange(i, i + needle.len()) == needle
}

/// `needle` occurs somewhere in `s`.
pub open spec fn contains_seq(s: Seq<u8>, needle: Seq<u8>) -> bool {
    exists|i: int| matches_at(s, needle, i)
}

/// The part of a path after its last slash (the whole path if it has none).
pub open spec fn basename(p: Seq<u8>) -> Seq<u8>
    decreases p.len(),
{
    if p.len() == 0 {
        p
    } else if p.last() == SLASH {
        Seq::empty()
    } else {
        basename(p.drop_last()).push(p.last())
    }
}

/// Joins a root prefix and a relative path with a slash; an empty prefix
/// leaves the relative path unchanged.
pub open spec fn join(parent: Seq<u8>, rel: Seq<u8>) -> Seq<u8> {
    if parent.len() == 0 {
        rel
    } else {
        parent.push(SLASH) + rel
    }
}

/// A language name with every hyphen replaced by a space.
pub open spec fn normalized(s: Seq<u8>) -> Seq<u8> {
    s.map_values(|b: u8| if b == HYPHEN { SPACE } else { b })
}

/// The first `limit` bytes of `s`, or all of `s` if it is shorter.
pub open spec fn prefix_upto(s: Seq<u8>, limit: nat) -> Seq<u8> {
    if s.len() <= limit {
        s
    } else {
        s.take(limit as int)
    }
}

/// Appends all of `src` to `dst`.
pub fn push_all(dst: &mut Vec<u8>, src: &Vec<u8>)
    ensures
        final(dst)@ == old(dst)@ + src@,
{
    proof {
        assert(dst@ =~= old(dst)@ + src@.subrange(0, 0));
    }
    let mut i: usize = 0;
    while i < src.len()
        invariant
            i <= src.len(),
            dst@ == old(dst)@ + src@.subrange(0, i as int),
        decreases src.len() - i,
    {
        proof {
            assert(old(dst)@ + src@.subrange(0, i + 1) =~= (old(dst)@ + src@.subrange(
                0,
                i as int,
            )).push(src@[i as int]));
        }
        dst.push(src[i]);
        i += 1;
    }
    proof {
        assert(src@.subrange(0, src@.len() as int) =~= src@);
    }
}

/// A fresh copy of a byte string.
pub fn copy_bytes(src: &Vec<u8>) -> (r: Vec<u8>)
    ensures
        r@ == src@,
{
    let mut r: Vec<u8> = Vec::new();
    push_all(&mut r, src);
    proof {
        assert(r@ =~= src@);
    }
    r
}

/// Byte-for-byte equality of two byte strings.
pub fn bytes_eq(a: &Vec<u8>, b: &Vec<u8>) -> (r: bool)
    ensures
        r == (a@ == b@),
{
    if a.len() != b.len() {
        return false;
    }
    let mut i: usize = 0;
    while i < a.len()
        invariant
            i <= a.len(),
            a.len() == b.len(),
            forall|j: int| 0 <= j < i ==> a@[j] == b@[j],
        decreases a.len() - i,
    {
        if a[i] != b[i] {
            return false;
        }
        i += 1;
    }
    proof {
        assert(a@ =~= b@);
    }
    true
}

pub fn starts_with_bytes(s: &Vec<u8>, prefix: &Vec<u8>) -> (r: bool)
    ensures
        r == starts_with(s@, prefix@),
{
    if prefix.len() > s.len() {
        return false;
    }
    let mut i: usize = 0;
    while i < prefix.len()
        invariant
            i <= prefix.len(),
            prefix.len() <= s.len(),
            forall|j: int| 0 <= j < i ==> s@[j] == prefix@[j],
        decreases prefix.len() - i,
    {
        if s[i] != prefix[i] {
            proof {
                assert(s@.subrange(0, prefix@.len() as int)[i as int] == s@[i as int]);
            }
            return false;
        }
        i += 1;
    }
    proof {
        assert(s@.subrange(0, prefix@.len() as int) =~= prefix@);
    }
    true
}

pub fn ends_with_bytes(s: &Vec<u8>, suffix: &Vec<u8>) -> (r: bool)
    ensures
        r == ends_with(s@, suffix@),
{
    if suffix.len() > s.len() {
        return false;
    }
    let off = s.len() - suffix.len();
    let mut i: usize = 0;
    while i < suffix.len()
        invariant
            i <= suffix.len(),
            off == s@.len() - suffix@.len(),
            s@.len() <= usize::MAX,
            forall|j: int| 0 <= j < i ==> s@[off + j] == suffix@[j],
        decreases suffix.len() - i,
    {
        if s[off + i] != suffix[i] {
            proof {
                assert(s@.subrange(s@.len() - suffix@.len(), s@.len() as int)[i as int] == s@[off
                    + i]);
            }
            return false;
        }
        i += 1;
    }
    proof {
        assert(s@.subrange(s@.len() - suffix@.len(), s@.len() as int) =~= suffix@);
    }
    true
}

fn match_at_bytes(s: &Vec<u8>, needle: &Vec<u8>, at: usize) -> (r: bool)
    requires
        at + needle@.len() <= s@.len(),
    ensures
        r == matches_at(s@, needle@, at as int),
{
    let _slen = s.len();
    let mut i: usize = 0;
    while i < needle.len()
        invariant
            i <= needle.len(),
            at + needle@.len() <= s@.len(),
            s@.len() <= usize::MAX,
            forall|j: int| 0 <= j < i ==> s@[at + j] == needle@[j],
        decreases needle.len() - i,
    {
        if s[at + i] != needle[i] {
            proof {
                assert(s@.subrange(at as int, at + needle@.len())[i as int] == s@[at + i]);
            }
            return false;
        }
        i += 1;
    }
    proof {
        assert(s@.subrange(at as int, at + needle@.len()) =~= needle@);
    }
    true
}

pub fn contains_bytes(s: &Vec<u8>, needle: &Vec<u8>) -> (r: bool)
    ensures
        r == contains_seq(s@, needle@),
{
    if needle.len() == 0 {
        proof {
            assert(s@.subrange(0, 0) =~= needle@);
            assert(matches_at(s@, needle@, 0));
        }
        return true;
    }
    if needle.len() > s.len() {
        proof {
            assert(forall|i: int| !matches_at(s@, needle@, i));
        }
        return false;
    }
    let last = s.len() - needle.len();
    let mut i: usize = 0;
    while i <= last
        invariant
            i <= last + 1,
            last == s@.len() - needle@.len(),
            s@.len() <= usize::MAX,
            1 <= needle@.len() <= s@.len(),
            forall|k: int| 0 <= k < i ==> !matches_at(s@, needle@, k),
        decreases last + 1 - i,
    {
        if match_at_bytes(s, needle, i) {
            return true;
        }
        i += 1;
    }
    proof {
        assert(forall|k: int| !matches_at(s@, needle@, k));
    }
    false
}

proof fn lemma_basename_is_suffix(p: Seq<u8>, cut: int)
    requires
        0 <= cut <= p.len(),
        forall|j: int| cut <= j < p.len() ==> p[j] != SLASH,
        cut > 0 ==> p[cut - 1] == SLASH,
    ensures
        basename(p) == p.subrange(cut, p.len() as int),
    decreases p.len(),
{
    if p.len() == 0 {
        assert(basename(p) =~= p.subrange(0, 0));
    } else if cut == p.len() {
        assert(p.last() == SLASH);
        assert(basename(p) =~= p.subrange(cut, p.len() as int));
    } else {
        let q = p.drop_last();
        assert(forall|j: int| cut <= j < q.len() ==> q[j] != SLASH);
        lemma_basename_is_suffix(q, cut);
        assert(q.subrange(cut, q.len() as int).push(p.last()) =~= p.subrange(cut, p.len() as int));
    }
}

/// The part of a path after its last slash, as a fresh byte string.
pub fn basename_of(p: &Vec<u8>) -> (r: Vec<u8>)
    ensures
        r@ == basename(p@),
{
    let mut cut: usize = 0;
    let mut i: usize = 0;
    while i < p.len()
        invariant
            i <= p.len(),
            cut <= i,
            cut > 0 ==> p@[cut - 1] == SLASH,
            forall|j: int| cut <= j < i ==> p@[j] != SLASH,
        decreases p.len() - i,
    {
        if p[i] == SLASH {
            cut = i + 1;
        }
        i += 1;
    }
    proof {
        lemma_basename_is_suffix(p@, cut as int);
    }
    let mut r: Vec<u8> = Vec::new();
    let mut k: usize = cut;
    while k < p.len()
        invariant
            cut <= k <= p.len(),
            r@ =~= p@.subrange(cut as int, k as int),
        decreases p.len() - k,
    {
        r.push(p[k]);
        k += 1;
    }
    proof {
        assert(r@ =~= p@.subrange(cut as int, p@.len() as int));
    }
    r
}

/// Joins a root prefix and a relative path with a slash between them; an
/// empty prefix leaves the relative path unchanged.
pub fn join_path(parent: &Vec<u8>, rel: &Vec<u8>) -> (r: Vec<u8>)
    ensures
        r@ == join(parent@, rel@),
{
    let mut r: Vec<u8> = Vec::new();
    push_all(&mut r, parent);
    if parent.len() > 0 {
        r.push(SLASH);
    }
    push_all(&mut r, rel);
    proof {
        assert(r@ =~= join(parent@, rel@));
    }
    r
}

/// Replaces every hyphen with a space, the normal form of a language name.
pub fn normalize_name(s: &Vec<u8>) -> (r: Vec<u8>)
    ensures
        r@ == normalized(s@),
{
    let mut r: Vec<u8> = Vec::new();
    let mut i: usize = 0;
    while i < s.len()
        invariant
            i <= s.len(),
            r@.len() == i,
            forall|j: int| 0 <= j < i ==> r@[j] == (if s@[j] == HYPHEN {
                SPACE
            } else {
                s@[j]
            }),
        decreases s.len() - i,
    {
        if s[i] == HYPHEN {
            r.push(SPACE);
        } else {
            r.push(s[i]);
        }
        i += 1;
    }
    proof {
        assert(r@ =~= normalized(s@));
    }
    r
}

/// The first `limit` bytes of `s` (all of `s` if it is shorter), as a fresh
/// byte string: the bounded window that content inspection may read.
pub fn take_prefix(s: &Vec<u8>, limit: usize) -> (r: Vec<u8>)
    ensures
        r@ == prefix_upto(s@, limit as nat),
{
    let n = if limit < s.len() {
        limit
    } else {
        s.len()
    };
    let mut r: Vec<u8> = Vec::new();
    let mut i: usize = 0;
    while i < n
        invariant
            i <= n <= s@.len(),
            r@ =~= s@.subrange(0, i as int),
        decreases n - i,
    {
        r.push(s[i]);
        i += 1;
    }
    proof {
        assert(r@ =~= prefix_upto(s@, limit as nat));
    }
    r
}

} // verus!
