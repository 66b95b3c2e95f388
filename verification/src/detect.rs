//! Change detection: comparing the freshly rendered document against the
//! previously persisted one after normalizing line endings, and producing
//! an advisory line-oriented difference listing.

use vstd::prelude::*;
use crate::resolve::r_view;
use crate::text::{lemma_strip_cr_append, strip_cr, strip_cr_spec};

verus! {

/// The view of an optional previous document.
pub open spec fn opt_view(p: Option<&String>) -> Option<Seq<char>> {
    match p {
        Some(s) => Some(s@),
        None => None,
    }
}

/// Whether the new document differs from the previous one, once both are
/// normalized by removing carriage returns. A run with no previous
/// document reports no change: it only establishes the baseline.
pub open spec fn changed_spec(previous: Option<Seq<char>>, current: Seq<char>) -> bool {
    match previous {
        None => false,
        Some(p) => strip_cr_spec(p) != strip_cr_spec(current),
    }
}

/// Compares the freshly rendered document against the previous one.
pub fn detect_change(previous: Option<&String>, current: &String) -> (changed: bool)
    ensures
        changed == changed_spec(opt_view(previous), current@),
{
    match previous {
        None => false,
        Some(p) => {
            let a = strip_cr(p.as_str());
            let b = strip_cr(current.as_str());
            if a == b {
                false
            } else {
                true
            }
        },
    }
}

/// Change detection is reflexive: a document never differs from itself.
pub proof fn lemma_detect_reflexive(doc: Seq<char>)
    ensures
        !changed_spec(Some(doc), doc),
{
}

/// A first run, with no previous document, reports no change.
pub proof fn lemma_first_run_unchanged(doc: Seq<char>)
    ensures
        !changed_spec(None, doc),
{
}

/// `s` with every line feed written as carriage return plus line feed.
pub open spec fn crlf_of(s: Seq<char>) -> Seq<char>
    decreases s.len(),
{
    if s.len() == 0 {
        Seq::empty()
    } else if s[0] == '\n' {
        seq!['\r', '\n'] + crlf_of(s.skip(1))
    } else {
        seq![s[0]] + crlf_of(s.skip(1))
    }
}

/// Stripping carriage returns erases the difference between the two
/// line-ending styles.
pub proof fn lemma_strip_crlf(s: Seq<char>)
    ensures
        strip_cr_spec(crlf_of(s)) == strip_cr_spec(s),
    decreases s.len(),
{
    if s.len() == 0 {
    } else {
        lemma_strip_crlf(s.skip(1));
        assert(seq![s[0]].skip(1) =~= Seq::<char>::empty());
        assert(strip_cr_spec(Seq::<char>::empty()) == Seq::<char>::empty());
        assert(s =~= seq![s[0]] + s.skip(1));
        lemma_strip_cr_append(seq![s[0]], s.skip(1));
        if s[0] == '\n' {
            assert(seq!['\r', '\n'] =~= seq!['\r'] + seq!['\n']);
            assert(seq!['\r'].skip(1) =~= Seq::<char>::empty());
            assert(seq!['\n'].skip(1) =~= Seq::<char>::empty());
            assert((seq!['\r'] + seq!['\n']) + crlf_of(s.skip(1)) =~= seq!['\r'] + (seq!['\n']
                + crlf_of(s.skip(1))));
            lemma_strip_cr_append(seq!['\r'], seq!['\n'] + crlf_of(s.skip(1)));
            lemma_strip_cr_append(seq!['\n'], crlf_of(s.skip(1)));
            assert(strip_cr_spec(seq!['\r']) =~= Seq::<char>::empty());
            assert(strip_cr_spec(seq!['\n']) =~= seq!['\n']);
            assert(strip_cr_spec(crlf_of(s)) =~= seq!['\n'] + strip_cr_spec(crlf_of(s.skip(1))));
            assert(strip_cr_spec(s) =~= seq!['\n'] + strip_cr_spec(s.skip(1)));
        } else {
            lemma_strip_cr_append(seq![s[0]], crlf_of(s.skip(1)));
        }
    }
}

/// Change detection is insensitive to carriage-return style: the same
/// logical text with carriage-return line endings and with bare line
/// feeds compares as unchanged.
pub proof fn lemma_detect_crlf_insensitive(s: Seq<char>)
    ensures
        !changed_spec(Some(crlf_of(s)), s),
{
    lemma_strip_crlf(s);
}

/// The lines of `s`, split at line feeds; a trailing line feed opens no
/// further empty line.
pub open spec fn split_lines_spec(s: Seq<char>) -> Seq<Seq<char>>
    decreases s.len(),
{
    if s.len() == 0 {
        Seq::empty()
    } else if s[0] == '\n' {
        seq![Seq::<char>::empty()] + split_lines_spec(s.skip(1))
    } else {
        let rest = split_lines_spec(s.skip(1));
        if rest.len() == 0 {
            seq![seq![s[0]]]
        } else {
            seq![seq![s[0]] + rest[0]] + rest.skip(1)
        }
    }
}

/// Splitting at the first line feed of `s`, at position `k`, takes the
/// first `k` characters as one line.
proof fn lemma_split_first_nl(s: Seq<char>, k: int)
    requires
        0 <= k < s.len(),
        s[k] == '\n',
        forall|t: int| 0 <= t < k ==> s[t] != '\n',
    ensures
        split_lines_spec(s) == seq![s.take(k)] + split_lines_spec(s.skip(k + 1)),
    decreases k,
{
    if k == 0 {
        assert(s.take(0) =~= Seq::<char>::empty());
        assert(s[0] == '\n');
    } else {
        assert(s[0] != '\n');
        assert(s.skip(1)[k - 1] == s[k]);
        assert forall|t: int| 0 <= t < k - 1 implies s.skip(1)[t] != '\n' by {
            assert(s.skip(1)[t] == s[t + 1]);
        }
        lemma_split_first_nl(s.skip(1), k - 1);
        let rest = split_lines_spec(s.skip(1));
        assert(rest == seq![s.skip(1).take(k - 1)] + split_lines_spec(s.skip(1).skip(k)));
        assert(rest.len() > 0);
        assert(rest[0] == s.skip(1).take(k - 1));
        assert(seq![s[0]] + s.skip(1).take(k - 1) =~= s.take(k));
        assert(rest.skip(1) =~= split_lines_spec(s.skip(1).skip(k)));
        assert(s.skip(1).skip(k) =~= s.skip(k + 1));
        assert(split_lines_spec(s) =~= seq![s.take(k)] + split_lines_spec(s.skip(k + 1)));
    }
}

/// A non-empty text without line feeds is a single line.
proof fn lemma_split_no_nl(s: Seq<char>)
    requires
        s.len() > 0,
        forall|t: int| 0 <= t < s.len() ==> s[t] != '\n',
    ensures
        split_lines_spec(s) == seq![s],
    decreases s.len(),
{
    if s.len() == 1 {
        assert(s.skip(1) =~= Seq::<char>::empty());
        assert(split_lines_spec(Seq::<char>::empty()) == Seq::<Seq<char>>::empty());
        assert(seq![s[0]] =~= s);
        assert(split_lines_spec(s) == seq![seq![s[0]]]);
    } else {
        assert forall|t: int| 0 <= t < s.skip(1).len() implies s.skip(1)[t] != '\n' by {
            assert(s.skip(1)[t] == s[t + 1]);
        }
        lemma_split_no_nl(s.skip(1));
        assert(seq![s[0]] + s.skip(1) =~= s);
        assert(seq![s.skip(1)].skip(1) =~= Seq::<Seq<char>>::empty());
        assert(split_lines_spec(s) =~= seq![s]);
    }
}

/// Splits a text into its lines.
pub fn split_lines(s: &str) -> (r: Vec<String>)
    ensures
        r_view(r@) == split_lines_spec(s@),
{
    let n = s.unicode_len();
    let mut out: Vec<String> = Vec::new();
    let mut st: usize = 0;
    let mut i: usize = 0;
    proof {
        assert(s@.skip(0) =~= s@);
        assert(r_view(out@) + split_lines_spec(s@) =~= split_lines_spec(s@));
    }
    while i < n
        invariant
            n == s@.len(),
            st <= i <= n,
            forall|t: int| st <= t < i ==> s@[t] != '\n',
            split_lines_spec(s@) == r_view(out@) + split_lines_spec(s@.skip(st as int)),
        decreases n - i,
    {
        let c = s.get_char(i);
        if c == '\n' {
            let line = s.substring_char(st, i);
            let ghost before = out@;
            out.push(String::from_str(line));
            proof {
                let rem = s@.skip(st as int);
                assert(rem[i - st] == s@[i as int]);
                assert forall|t: int| 0 <= t < i - st implies rem[t] != '\n' by {
                    assert(rem[t] == s@[st + t]);
                }
                lemma_split_first_nl(rem, i - st);
                assert(rem.take(i - st) =~= s@.subrange(st as int, i as int));
                assert(rem.skip(i - st + 1) =~= s@.skip(i + 1));
                assert(r_view(out@) =~= r_view(before) + seq![s@.subrange(st as int, i as int)]);
                assert(r_view(before) + (seq![s@.subrange(st as int, i as int)] + split_lines_spec(
                    s@.skip(i + 1),
                )) =~= (r_view(before) + seq![s@.subrange(st as int, i as int)])
                    + split_lines_spec(s@.skip(i + 1)));
            }
            st = i + 1;
        }
        i = i + 1;
    }
    if st < n {
        let line = s.substring_char(st, n);
        let ghost before = out@;
        out.push(String::from_str(line));
        proof {
            let rem = s@.skip(st as int);
            assert forall|t: int| 0 <= t < rem.len() implies rem[t] != '\n' by {
                assert(rem[t] == s@[st + t]);
            }
            lemma_split_no_nl(rem);
            assert(rem =~= s@.subrange(st as int, n as int));
            assert(r_view(out@) =~= r_view(before) + seq![s@.subrange(st as int, n as int)]);
        }
    } else {
        proof {
            assert(s@.skip(st as int) =~= Seq::<char>::empty());
            assert(split_lines_spec(Seq::<char>::empty()) == Seq::<Seq<char>>::empty());
            assert(r_view(out@) + Seq::<Seq<char>>::empty() =~= r_view(out@));
        }
    }
    out
}

/// The number of leading lines the two line lists share.
pub open spec fn common_prefix_len(a: Seq<Seq<char>>, b: Seq<Seq<char>>) -> int
    decreases a.len(),
{
    if a.len() == 0 || b.len() == 0 || a[0] != b[0] {
        0
    } else {
        1 + common_prefix_len(a.skip(1), b.skip(1))
    }
}

/// The number of trailing lines the two line lists share.
pub open spec fn common_suffix_len(a: Seq<Seq<char>>, b: Seq<Seq<char>>) -> int
    decreases a.len(),
{
    if a.len() == 0 || b.len() == 0 || a.last() != b.last() {
        0
    } else {
        1 + common_suffix_len(a.drop_last(), b.drop_last())
    }
}

/// `common_prefix_len` is the unique `k` below which the lists agree
/// and at which they differ or end.
proof fn lemma_cpl(a: Seq<Seq<char>>, b: Seq<Seq<char>>, k: int)
    requires
        0 <= k <= a.len(),
        k <= b.len(),
        a.take(k) == b.take(k),
        k < a.len() && k < b.len() ==> a[k] != b[k],
    ensures
        common_prefix_len(a, b) == k,
    decreases k,
{
    if k == 0 {
    } else {
        assert(a[0] == a.take(k)[0]);
        assert(b[0] == b.take(k)[0]);
        assert(a.skip(1).take(k - 1) =~= a.take(k).skip(1));
        assert(b.skip(1).take(k - 1) =~= b.take(k).skip(1));
        if k < a.len() && k < b.len() {
            assert(a.skip(1)[k - 1] == a[k]);
            assert(b.skip(1)[k - 1] == b[k]);
        }
        lemma_cpl(a.skip(1), b.skip(1), k - 1);
    }
}

/// `common_suffix_len` is the unique `k` below which the lists agree
/// from the end and at which they differ or end.
proof fn lemma_csl(a: Seq<Seq<char>>, b: Seq<Seq<char>>, k: int)
    requires
        0 <= k <= a.len(),
        k <= b.len(),
        a.skip(a.len() - k) == b.skip(b.len() - k),
        k < a.len() && k < b.len() ==> a[a.len() - 1 - k] != b[b.len() - 1 - k],
    ensures
        common_suffix_len(a, b) == k,
    decreases k,
{
    if k == 0 {
    } else {
        assert(a.last() == a.skip(a.len() - k)[k - 1]);
        assert(b.last() == b.skip(b.len() - k)[k - 1]);
        assert(a.drop_last().skip(a.drop_last().len() - (k - 1)) =~= a.skip(a.len() - k).take(k
            - 1));
        assert(b.drop_last().skip(b.drop_last().len() - (k - 1)) =~= b.skip(b.len() - k).take(k
            - 1));
        assert(a.skip(a.len() - k).take(k - 1) =~= b.skip(b.len() - k).take(k - 1));
        if k < a.len() && k < b.len() {
            assert(a.drop_last()[a.drop_last().len() - 1 - (k - 1)] == a[a.len() - 1 - k]);
            assert(b.drop_last()[b.drop_last().len() - 1 - (k - 1)] == b[b.len() - 1 - k]);
        }
        lemma_csl(a.drop_last(), b.drop_last(), k - 1);
    }
}

/// The advisory line difference of two line lists: the shared leading
/// lines as context (marked with a leading space), then the differing
/// middle — old lines marked with a leading minus, new lines with a
/// leading plus — then the shared trailing lines as context.
pub open spec fn diff_spec(ol: Seq<Seq<char>>, nl: Seq<Seq<char>>) -> Seq<Seq<char>> {
    let p = common_prefix_len(ol, nl);
    let s = common_suffix_len(ol.skip(p), nl.skip(p));
    ol.subrange(0, p).map_values(|l: Seq<char>| " "@ + l) + ol.subrange(p, ol.len() - s).map_values(
        |l: Seq<char>| "-"@ + l,
    ) + nl.subrange(p, nl.len() - s).map_values(|l: Seq<char>| "+"@ + l) + ol.subrange(
        ol.len() - s,
        ol.len() as int,
    ).map_values(|l: Seq<char>| " "@ + l)
}

/// Produces the advisory line difference of two texts.
pub fn diff_lines(old_text: &str, new_text: &str) -> (r: Vec<String>)
    ensures
        r_view(r@) == diff_spec(split_lines_spec(old_text@), split_lines_spec(new_text@)),
{
    let a = split_lines(old_text);
    let b = split_lines(new_text);
    let ghost av = r_view(a@);
    let ghost bv = r_view(b@);
    let na = a.len();
    let nb = b.len();
    let mut p: usize = 0;
    proof {
        assert(av.take(0) =~= bv.take(0));
    }
    while p < na && p < nb && a[p] == b[p]
        invariant
            na == a@.len(),
            nb == b@.len(),
            av == r_view(a@),
            bv == r_view(b@),
            p <= na,
            p <= nb,
            av.take(p as int) == bv.take(p as int),
        decreases na - p,
    {
        proof {
            assert(av[p as int] == a@[p as int]@);
            assert(bv[p as int] == b@[p as int]@);
            assert(av.take(p + 1) =~= av.take(p as int).push(av[p as int]));
            assert(bv.take(p + 1) =~= bv.take(p as int).push(bv[p as int]));
        }
        p = p + 1;
    }
    proof {
        if p < na && p < nb {
            assert(av[p as int] == a@[p as int]@);
            assert(bv[p as int] == b@[p as int]@);
        }
        assert(av.len() == na && bv.len() == nb);
        lemma_cpl(av, bv, p as int);
    }
    let ra = na - p;
    let rb = nb - p;
    let mut su: usize = 0;
    proof {
        assert(av.subrange(na as int, na as int) =~= bv.subrange(nb as int, nb as int));
    }
    while su < ra && su < rb && a[na - 1 - su] == b[nb - 1 - su]
        invariant
            na == a@.len(),
            nb == b@.len(),
            av == r_view(a@),
            bv == r_view(b@),
            p <= na,
            p <= nb,
            ra == na - p,
            rb == nb - p,
            su <= ra,
            su <= rb,
            av.subrange(na - su, na as int) == bv.subrange(nb - su, nb as int),
        decreases ra - su,
    {
        proof {
            assert(av[na - 1 - su as int] == a@[na - 1 - su as int]@);
            assert(bv[nb - 1 - su as int] == b@[nb - 1 - su as int]@);
            assert(av.subrange(na - (su + 1), na as int) =~= seq![av[na - 1 - su as int]]
                + av.subrange(na - su, na as int));
            assert(bv.subrange(nb - (su + 1), nb as int) =~= seq![bv[nb - 1 - su as int]]
                + bv.subrange(nb - su, nb as int));
        }
        su = su + 1;
    }
    proof {
        if su < ra && su < rb {
            assert(av[na - 1 - su as int] == a@[na - 1 - su as int]@);
            assert(bv[nb - 1 - su as int] == b@[nb - 1 - su as int]@);
        }
        let ska = av.skip(p as int);
        let skb = bv.skip(p as int);
        assert(ska.skip(ska.len() - su) =~= av.subrange(na - su, na as int));
        assert(skb.skip(skb.len() - su) =~= bv.subrange(nb - su, nb as int));
        if su < ra && su < rb {
            assert(ska[ska.len() - 1 - su] == av[na - 1 - su as int]);
            assert(skb[skb.len() - 1 - su] == bv[nb - 1 - su as int]);
        }
        lemma_csl(ska, skb, su as int);
    }
    let mut out: Vec<String> = Vec::new();
    let mut cdx: usize = 0;
    while cdx < p
        invariant
            na == a@.len(),
            av == r_view(a@),
            p <= na,
            cdx <= p,
            r_view(out@) == av.subrange(0, cdx as int).map_values(|l: Seq<char>| " "@ + l),
        decreases p - cdx,
    {
        let mut line = String::from_str(" ");
        line.append(a[cdx].as_str());
        let ghost before = out@;
        out.push(line);
        proof {
            assert(av.subrange(0, cdx + 1) =~= av.subrange(0, cdx as int).push(av[cdx as int]));
            assert(av[cdx as int] == a@[cdx as int]@);
            assert(av.subrange(0, cdx as int).push(av[cdx as int]).map_values(
                |l: Seq<char>| " "@ + l,
            ) =~= av.subrange(0, cdx as int).map_values(|l: Seq<char>| " "@ + l).push(
                " "@ + av[cdx as int],
            ));
            assert(r_view(out@) =~= r_view(before).push(" "@ + av[cdx as int]));
        }
        cdx = cdx + 1;
    }
    let ghost ctx_pre = av.subrange(0, p as int).map_values(|l: Seq<char>| " "@ + l);
    let mut idx: usize = p;
    while idx < na - su
        invariant
            na == a@.len(),
            av == r_view(a@),
            p <= na,
            su <= na - p,
            p <= idx <= na - su,
            ctx_pre == av.subrange(0, p as int).map_values(|l: Seq<char>| " "@ + l),
            r_view(out@) == ctx_pre + av.subrange(p as int, idx as int).map_values(
                |l: Seq<char>| "-"@ + l,
            ),
        decreases na - su - idx,
    {
        let mut line = String::from_str("-");
        line.append(a[idx].as_str());
        let ghost before = out@;
        out.push(line);
        proof {
            assert(av.subrange(p as int, idx + 1) =~= av.subrange(p as int, idx as int).push(
                av[idx as int],
            ));
            assert(av[idx as int] == a@[idx as int]@);
            assert(av.subrange(p as int, idx as int).push(av[idx as int]).map_values(
                |l: Seq<char>| "-"@ + l,
            ) =~= av.subrange(p as int, idx as int).map_values(|l: Seq<char>| "-"@ + l).push(
                "-"@ + av[idx as int],
            ));
            assert(r_view(out@) =~= r_view(before).push("-"@ + av[idx as int]));
            assert(ctx_pre + av.subrange(p as int, idx as int).map_values(
                |l: Seq<char>| "-"@ + l,
            ).push("-"@ + av[idx as int]) =~= (ctx_pre + av.subrange(p as int, idx as int).map_values(
                |l: Seq<char>| "-"@ + l,
            )).push("-"@ + av[idx as int]));
        }
        idx = idx + 1;
    }
    let ghost removed = ctx_pre + av.subrange(p as int, na - su).map_values(
        |l: Seq<char>| "-"@ + l,
    );
    let mut jdx: usize = p;
    while jdx < nb - su
        invariant
            nb == b@.len(),
            bv == r_view(b@),
            p <= nb,
            su <= nb - p,
            p <= jdx <= nb - su,
            removed == ctx_pre + av.subrange(p as int, na - su).map_values(
                |l: Seq<char>| "-"@ + l,
            ),
            r_view(out@) == removed + bv.subrange(p as int, jdx as int).map_values(
                |l: Seq<char>| "+"@ + l,
            ),
        decreases nb - su - jdx,
    {
        let mut line = String::from_str("+");
        line.append(b[jdx].as_str());
        let ghost before = out@;
        out.push(line);
        proof {
            assert(bv.subrange(p as int, jdx + 1) =~= bv.subrange(p as int, jdx as int).push(
                bv[jdx as int],
            ));
            assert(bv[jdx as int] == b@[jdx as int]@);
            assert(bv.subrange(p as int, jdx as int).push(bv[jdx as int]).map_values(
                |l: Seq<char>| "+"@ + l,
            ) =~= bv.subrange(p as int, jdx as int).map_values(|l: Seq<char>| "+"@ + l).push(
                "+"@ + bv[jdx as int],
            ));
            assert(r_view(out@) =~= r_view(before).push("+"@ + bv[jdx as int]));
            assert(removed + bv.subrange(p as int, jdx as int).map_values(
                |l: Seq<char>| "+"@ + l,
            ).push("+"@ + bv[jdx as int]) =~= (removed + bv.subrange(p as int, jdx as int).map_values(
                |l: Seq<char>| "+"@ + l,
            )).push("+"@ + bv[jdx as int]));
        }
        jdx = jdx + 1;
    }
    let ghost middle = removed + bv.subrange(p as int, nb - su).map_values(
        |l: Seq<char>| "+"@ + l,
    );
    let mut edx: usize = na - su;
    while edx < na
        invariant
            na == a@.len(),
            av == r_view(a@),
            su <= na,
            na - su <= edx <= na,
            middle == removed + bv.subrange(p as int, nb - su).map_values(
                |l: Seq<char>| "+"@ + l,
            ),
            r_view(out@) == middle + av.subrange(na - su, edx as int).map_values(
                |l: Seq<char>| " "@ + l,
            ),
        decreases na - edx,
    {
        let mut line = String::from_str(" ");
        line.append(a[edx].as_str());
        let ghost before = out@;
        out.push(line);
        proof {
            assert(av.subrange(na - su, edx + 1) =~= av.subrange(na - su, edx as int).push(
                av[edx as int],
            ));
            assert(av[edx as int] == a@[edx as int]@);
            assert(av.subrange(na - su, edx as int).push(av[edx as int]).map_values(
                |l: Seq<char>| " "@ + l,
            ) =~= av.subrange(na - su, edx as int).map_values(|l: Seq<char>| " "@ + l).push(
                " "@ + av[edx as int],
            ));
            assert(r_view(out@) =~= r_view(before).push(" "@ + av[edx as int]));
            assert(middle + av.subrange(na - su, edx as int).map_values(
                |l: Seq<char>| " "@ + l,
            ).push(" "@ + av[edx as int]) =~= (middle + av.subrange(na - su, edx as int).map_values(
                |l: Seq<char>| " "@ + l,
            )).push(" "@ + av[edx as int]));
        }
        edx = edx + 1;
    }
    proof {
        assert(r_view(out@) =~= diff_spec(av, bv));
    }
    out
}

/// Compares the freshly rendered document against the previous one;
/// when the normalized texts differ it also produces the advisory line
/// difference, and otherwise (in particular with no previous document)
/// it has nothing to list.
pub fn change_report(previous: Option<&String>, current: &String) -> (r: (bool, Vec<String>))
    ensures
        r.0 == changed_spec(opt_view(previous), current@),
        !r.0 ==> r.1@.len() == 0,
        r.0 ==> match opt_view(previous) {
            None => false,
            Some(prev) => r_view(r.1@) == diff_spec(
                split_lines_spec(strip_cr_spec(prev)),
                split_lines_spec(strip_cr_spec(current@)),
            ),
        },
{
    match previous {
        None => (false, Vec::new()),
        Some(pdoc) => {
            let a = strip_cr(pdoc.as_str());
            let b = strip_cr(current.as_str());
            if a == b {
                (false, Vec::new())
            } else {
                let d = diff_lines(a.as_str(), b.as_str());
                (true, d)
            }
        },
    }
}

} // verus!
