//! Character-sequence utilities shared by the renderer and the change
//! detector: substring search, carriage-return stripping, and pattern
//! removal.

use vstd::prelude::*;

verus! {

/// True when `needle` occurs as a contiguous run inside `hay`.
pub open spec fn is_substring(needle: Seq<char>, hay: Seq<char>) -> bool {
    exists|i: int|
        0 <= i && i + needle.len() <= hay.len() && #[trigger] hay.subrange(i, i + needle.len())
            == needle
}

/// `s` with every carriage-return character removed.
pub open spec fn strip_cr_spec(s: Seq<char>) -> Seq<char>
    decreases s.len(),
{
    if s.len() == 0 {
        Seq::empty()
    } else if s[0] == '\r' {
        strip_cr_spec(s.skip(1))
    } else {
        seq![s[0]] + strip_cr_spec(s.skip(1))
    }
}

/// Stripping carriage returns distributes over concatenation.
pub proof fn lemma_strip_cr_append(a: Seq<char>, b: Seq<char>)
    ensures
        strip_cr_spec(a + b) == strip_cr_spec(a) + strip_cr_spec(b),
    decreases a.len(),
{
    if a.len() == 0 {
        assert(a + b =~= b);
        assert(strip_cr_spec(a) + strip_cr_spec(b) =~= strip_cr_spec(b));
    } else {
        assert((a + b).skip(1) =~= a.skip(1) + b);
        lemma_strip_cr_append(a.skip(1), b);
        if a[0] == '\r' {
            assert((a + b)[0] == '\r');
        } else {
            assert(seq![a[0]] + (strip_cr_spec(a.skip(1)) + strip_cr_spec(b)) =~= (seq![a[0]]
                + strip_cr_spec(a.skip(1))) + strip_cr_spec(b));
        }
    }
}

/// Whether `s` matches `pat` starting at position `at`.
pub open spec fn matches_at(s: Seq<char>, pat: Seq<char>, at: int) -> bool {
    0 <= at && at + pat.len() <= s.len() && s.subrange(at, at + pat.len()) == pat
}

/// Compares the run of `s` starting at `at` against `pat`.
pub fn match_at(s: &str, pat: &str, at: usize, s_len: usize, pat_len: usize) -> (r: bool)
    requires
        s_len == s@.len(),
        pat_len == pat@.len(),
        at + pat_len <= s_len,
    ensures
        r == matches_at(s@, pat@, at as int),
{
    let mut j: usize = 0;
    while j < pat_len
        invariant
            s_len == s@.len(),
            pat_len == pat@.len(),
            at + pat_len <= s_len,
            j <= pat_len,
            forall|k: int| 0 <= k < j ==> s@[at + k] == pat@[k],
        decreases pat_len - j,
    {
        if s.get_char(at + j) != pat.get_char(j) {
            assert(s@.subrange(at as int, at + pat@.len())[j as int] != pat@[j as int]);
            return false;
        }
        j = j + 1;
    }
    assert(s@.subrange(at as int, at + pat@.len()) =~= pat@);
    true
}

/// Substring search; returns whether `needle` occurs anywhere in `hay`.
pub fn contains_str(hay: &str, needle: &str) -> (r: bool)
    ensures
        r == is_substring(needle@, hay@),
{
    let hay_len = hay.unicode_len();
    let needle_len = needle.unicode_len();
    if needle_len > hay_len {
        return false;
    }
    if needle_len == 0 {
        proof {
            assert(hay@.subrange(0, 0 + needle@.len() as int) =~= needle@);
        }
        return true;
    }
    let last = hay_len - needle_len;
    let mut i: usize = 0;
    while i <= last
        invariant
            hay_len == hay@.len(),
            needle_len == needle@.len(),
            0 < needle_len <= hay_len,
            last == hay_len - needle_len,
            i <= last + 1,
            forall|ii: int| 0 <= ii < i ==> !matches_at(hay@, needle@, ii),
        decreases last + 1 - i,
    {
        if match_at(hay, needle, i, hay_len, needle_len) {
            proof {
                assert(hay@.subrange(i as int, i + needle@.len()) == needle@);
            }
            return true;
        }
        i = i + 1;
    }
    proof {
        assert forall|ii: int|
            0 <= ii && ii + needle@.len() <= hay@.len() implies #[trigger] hay@.subrange(
            ii,
            ii + needle@.len() as int,
        ) != needle@ by {
            assert(!matches_at(hay@, needle@, ii));
        }
    }
    false
}

/// `s` with every occurrence of `pat` removed, scanning left to right
/// over non-overlapping occurrences; an empty pattern removes nothing.
pub open spec fn remove_all_spec(s: Seq<char>, pat: Seq<char>) -> Seq<char>
    decreases s.len(),
{
    if s.len() < pat.len() || pat.len() == 0 {
        s
    } else if s.subrange(0, pat.len() as int) == pat {
        remove_all_spec(s.skip(pat.len() as int), pat)
    } else {
        seq![s[0]] + remove_all_spec(s.skip(1), pat)
    }
}

/// Builds `s` with every occurrence of `pat` removed.
pub fn remove_all(s: &str, pat: &str) -> (r: String)
    ensures
        r@ == remove_all_spec(s@, pat@),
{
    let n = s.unicode_len();
    let pat_len = pat.unicode_len();
    if pat_len == 0 {
        return String::from_str(s);
    }
    let mut out = String::new();
    let mut i: usize = 0;
    proof {
        assert(s@.skip(0) =~= s@);
        assert(Seq::<char>::empty() + remove_all_spec(s@, pat@) =~= remove_all_spec(s@, pat@));
    }
    if pat_len > n {
        let whole = s.substring_char(0, n);
        out.append(whole);
        proof {
            assert(s@.subrange(0, n as int) =~= s@);
            assert(Seq::<char>::empty() + s@ =~= s@);
        }
        return out;
    }
    let last = n - pat_len;
    while i <= last
        invariant
            n == s@.len(),
            pat_len == pat@.len(),
            0 < pat_len <= n,
            last == n - pat_len,
            i <= n,
            remove_all_spec(s@, pat@) == out@ + remove_all_spec(s@.skip(i as int), pat@),
        decreases n - i,
    {
        proof {
            assert(s@.skip(i as int).subrange(0, pat@.len() as int) =~= s@.subrange(
                i as int,
                i + pat@.len(),
            ));
            assert(s@.skip(i as int)[0] == s@[i as int]);
            assert(s@.skip(i as int).skip(1) =~= s@.skip(i + 1));
            assert(s@.skip(i as int).skip(pat@.len() as int) =~= s@.skip(i + pat@.len()));
        }
        if match_at(s, pat, i, n, pat_len) {
            i = i + pat_len;
        } else {
            let piece = s.substring_char(i, i + 1);
            let ghost before = out@;
            out.append(piece);
            proof {
                assert(out@ =~= before + seq![s@[i as int]]);
                assert((before + seq![s@[i as int]]) + remove_all_spec(s@.skip(i + 1), pat@)
                    =~= before + (seq![s@[i as int]] + remove_all_spec(s@.skip(i + 1), pat@)));
            }
            i = i + 1;
        }
    }
    let tail = s.substring_char(i, n);
    out.append(tail);
    proof {
        assert(s@.skip(i as int) =~= s@.subrange(i as int, n as int));
        assert(remove_all_spec(s@.skip(i as int), pat@) == s@.skip(i as int));
    }
    out
}

/// Builds `s` with every carriage return removed.
pub fn strip_cr(s: &str) -> (r: String)
    ensures
        r@ == strip_cr_spec(s@),
{
    let n = s.unicode_len();
    let mut out = String::new();
    let mut i: usize = 0;
    while i < n
        invariant
            n == s@.len(),
            i <= n,
            out@ == strip_cr_spec(s@.take(i as int)),
        decreases n - i,
    {
        let c = s.get_char(i);
        proof {
            assert(s@.take(i + 1) =~= s@.take(i as int) + seq![s@[i as int]]);
            lemma_strip_cr_append(s@.take(i as int), seq![s@[i as int]]);
            assert(seq![s@[i as int]].skip(1) =~= Seq::<char>::empty());
            assert(strip_cr_spec(Seq::<char>::empty()) == Seq::<char>::empty());
            if s@[i as int] == '\r' {
                assert(strip_cr_spec(seq![s@[i as int]]) =~= Seq::<char>::empty());
                assert(strip_cr_spec(s@.take(i as int)) + Seq::<char>::empty() =~= strip_cr_spec(
                    s@.take(i as int),
                ));
            } else {
                assert(strip_cr_spec(seq![s@[i as int]]) =~= seq![s@[i as int]]);
            }
        }
        if c != '\r' {
            let piece = s.substring_char(i, i + 1);
            out.append(piece);
            proof {
                assert(out@ =~= strip_cr_spec(s@.take(i as int)) + seq![s@[i as int]]);
            }
        }
        i = i + 1;
    }
    proof {
        assert(s@.take(n as int) =~= s@);
    }
    out
}

} // verus!
