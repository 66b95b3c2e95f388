//! Deterministic rendering of the notice document: a header, one block
//! per resolved dependency (in adapter-output order), one block per
//! manual addition, then one block per bundled license text whose name
//! matches a license identifier in use.

use vstd::prelude::*;
use crate::license_file::Package;
use crate::resolve::{
    DependencyRecord, ManualDependency, NoticeError, ResolvedDependency, ResolvedLicense,
    in_use_spec, licenses_in_use, r_view, resolve_all, resolve_all_spec,
};
use crate::text::is_substring;

verus! {

/// One bundled full-text license document, named by its identifier.
pub struct BundledLicense {
    pub name: String,
    pub content: String,
}

/// The horizontal rule that separates blocks, with its line break.
pub open spec fn rule_spec() -> Seq<char> {
    "---------------------------------------------------------\n"@
}

/// The fixed document header: title, preamble, and two blank lines.
pub open spec fn header_spec() -> Seq<char> {
    "THIRD-PARTY SOFTWARE NOTICES AND INFORMATION\n\nThis software includes the following third-party components.\nThe license terms for each of these components are provided later in this notice.\n\n\n"@
}

/// The name-and-version line of one dependency; an identifier resolution
/// carries the identifier in parentheses.
pub open spec fn dep_line_spec(d: ResolvedDependency) -> Seq<char> {
    match d.resolution {
        ResolvedLicense::Identifier(id) => d.name@ + " "@ + d.version@ + " ("@ + id@ + ")\n"@,
        ResolvedLicense::FullText(_) => d.name@ + " "@ + d.version@ + "\n"@,
    }
}

/// The repository line, when a repository is known.
pub open spec fn repo_line_spec(r: Option<String>) -> Seq<char> {
    match r {
        Some(u) => u@ + "\n"@,
        None => Seq::empty(),
    }
}

/// The inlined full license text of a full-text resolution, after a
/// short separator; identifier resolutions add nothing here.
pub open spec fn full_text_spec(res: ResolvedLicense) -> Seq<char> {
    match res {
        ResolvedLicense::Identifier(_) => Seq::empty(),
        ResolvedLicense::FullText(t) => "\n---\n\n"@ + t@ + "\n"@,
    }
}

/// One dependency block: rule, blank line, name line, optional
/// repository line, optional inlined license text.
pub open spec fn dep_block_spec(d: ResolvedDependency) -> Seq<char> {
    rule_spec() + "\n"@ + dep_line_spec(d) + repo_line_spec(d.repository) + full_text_spec(
        d.resolution,
    )
}

/// The dependency blocks, concatenated in order.
pub open spec fn dep_blocks_spec(ds: Seq<ResolvedDependency>) -> Seq<char>
    decreases ds.len(),
{
    if ds.len() == 0 {
        Seq::empty()
    } else {
        dep_block_spec(ds[0]) + dep_blocks_spec(ds.skip(1))
    }
}

/// One manual-addition block: rule, blank line, the freeform notice text.
pub open spec fn manual_block_spec(m: ManualDependency) -> Seq<char> {
    rule_spec() + "\n"@ + m.notice@ + "\n"@
}

/// The manual-addition blocks, concatenated in order.
pub open spec fn manual_blocks_spec(ms: Seq<ManualDependency>) -> Seq<char>
    decreases ms.len(),
{
    if ms.len() == 0 {
        Seq::empty()
    } else {
        manual_block_spec(ms[0]) + manual_blocks_spec(ms.skip(1))
    }
}

/// Whether a bundled license name is a substring of some identifier in
/// use; composite identifiers such as "MIT OR Apache-2.0" thereby match
/// both of their parts.
pub open spec fn name_in_use(name: Seq<char>, in_use: Seq<Seq<char>>) -> bool {
    exists|k: int| 0 <= k < in_use.len() && is_substring(name, #[trigger] in_use[k])
}

/// One bundled-license block: rule, blank line, the license name, a
/// separator, then the bundled text verbatim.
pub open spec fn bundled_block_spec(b: BundledLicense) -> Seq<char> {
    rule_spec() + "\n"@ + b.name@ + "\n\n---\n\n"@ + b.content@
}

/// The blocks of the bundled licenses whose names match an identifier in
/// use, concatenated in the library's enumeration order.
pub open spec fn bundled_section_spec(bs: Seq<BundledLicense>, in_use: Seq<Seq<char>>) -> Seq<char>
    decreases bs.len(),
{
    if bs.len() == 0 {
        Seq::empty()
    } else {
        (if name_in_use(bs[0].name@, in_use) {
            bundled_block_spec(bs[0])
        } else {
            Seq::empty()
        }) + bundled_section_spec(bs.skip(1), in_use)
    }
}

/// The whole document: header, dependency blocks, manual blocks, a blank
/// line, the matching bundled licenses, and a trailing rule.
pub open spec fn notice_spec(
    resolved: Seq<ResolvedDependency>,
    manual: Seq<ManualDependency>,
    bundled: Seq<BundledLicense>,
) -> Seq<char> {
    header_spec() + dep_blocks_spec(resolved) + manual_blocks_spec(manual) + "\n"@
        + bundled_section_spec(bundled, in_use_spec(resolved, manual)) + rule_spec()
}

/// Decides whether `name` occurs inside any identifier of `in_use`.
pub fn name_matches(name: &String, in_use: &Vec<String>) -> (r: bool)
    ensures
        r == name_in_use(name@, r_view(in_use@)),
{
    let n = in_use.len();
    let mut k: usize = 0;
    while k < n
        invariant
            n == in_use@.len(),
            k <= n,
            forall|kk: int| 0 <= kk < k ==> !is_substring(name@, #[trigger] r_view(in_use@)[kk]),
        decreases n - k,
    {
        proof {
            assert(r_view(in_use@)[k as int] == in_use@[k as int]@);
        }
        if crate::text::contains_str(in_use[k].as_str(), name.as_str()) {
            return true;
        }
        k = k + 1;
    }
    false
}

/// Appends one dependency block to the document being built.
fn append_dep_block(out: &mut String, d: &ResolvedDependency)
    ensures
        final (out)@ == old(out)@ + dep_block_spec(*d),
{
    out.append("---------------------------------------------------------\n");
    out.append("\n");
    out.append(d.name.as_str());
    out.append(" ");
    out.append(d.version.as_str());
    match &d.resolution {
        ResolvedLicense::Identifier(id) => {
            out.append(" (");
            out.append(id.as_str());
            out.append(")\n");
        },
        ResolvedLicense::FullText(_) => {
            out.append("\n");
        },
    }
    match &d.repository {
        Some(u) => {
            out.append(u.as_str());
            out.append("\n");
        },
        None => {},
    }
    match &d.resolution {
        ResolvedLicense::Identifier(_) => {},
        ResolvedLicense::FullText(t) => {
            out.append("\n---\n\n");
            out.append(t.as_str());
            out.append("\n");
        },
    }
    proof {
        assert(out@ =~= old(out)@ + dep_block_spec(*d));
    }
}

/// Appends one manual-addition block to the document being built.
fn append_manual_block(out: &mut String, m: &ManualDependency)
    ensures
        final (out)@ == old(out)@ + manual_block_spec(*m),
{
    out.append("---------------------------------------------------------\n");
    out.append("\n");
    out.append(m.notice.as_str());
    out.append("\n");
    proof {
        assert(out@ =~= old(out)@ + manual_block_spec(*m));
    }
}

/// Appends one bundled-license block to the document being built.
fn append_bundled_block(out: &mut String, b: &BundledLicense)
    ensures
        final (out)@ == old(out)@ + bundled_block_spec(*b),
{
    out.append("---------------------------------------------------------\n");
    out.append("\n");
    out.append(b.name.as_str());
    out.append("\n\n---\n\n");
    out.append(b.content.as_str());
    proof {
        assert(out@ =~= old(out)@ + bundled_block_spec(*b));
    }
}

/// Renders the whole notice document from already-resolved data. The
/// result is a pure fold over its arguments, so identical inputs give a
/// byte-identical document.
pub fn render_notice(
    resolved: &Vec<ResolvedDependency>,
    manual: &Vec<ManualDependency>,
    bundled: &Vec<BundledLicense>,
) -> (r: String)
    ensures
        r@ == notice_spec(resolved@, manual@, bundled@),
{
    let in_use = licenses_in_use(resolved, manual);
    let mut out = String::from_str(
        "THIRD-PARTY SOFTWARE NOTICES AND INFORMATION\n\nThis software includes the following third-party components.\nThe license terms for each of these components are provided later in this notice.\n\n\n",
    );
    let n = resolved.len();
    let mut i: usize = 0;
    proof {
        assert(resolved@.skip(0) =~= resolved@);
    }
    while i < n
        invariant
            n == resolved@.len(),
            i <= n,
            out@ + dep_blocks_spec(resolved@.skip(i as int)) == header_spec() + dep_blocks_spec(
                resolved@,
            ),
        decreases n - i,
    {
        proof {
            assert(resolved@.skip(i as int)[0] == resolved@[i as int]);
            assert(resolved@.skip(i as int).skip(1) =~= resolved@.skip(i + 1));
        }
        let ghost before = out@;
        append_dep_block(&mut out, &resolved[i]);
        proof {
            assert(out@ + dep_blocks_spec(resolved@.skip(i + 1)) =~= before + (dep_block_spec(
                resolved@[i as int],
            ) + dep_blocks_spec(resolved@.skip(i + 1))));
        }
        i = i + 1;
    }
    proof {
        assert(dep_blocks_spec(resolved@.skip(n as int)) == Seq::<char>::empty()) by {
            assert(resolved@.skip(n as int) =~= Seq::<ResolvedDependency>::empty());
        }
        assert(out@ + Seq::<char>::empty() =~= out@);
    }
    let m = manual.len();
    let mut j: usize = 0;
    proof {
        assert(manual@.skip(0) =~= manual@);
    }
    while j < m
        invariant
            m == manual@.len(),
            j <= m,
            out@ + manual_blocks_spec(manual@.skip(j as int)) == header_spec() + dep_blocks_spec(
                resolved@,
            ) + manual_blocks_spec(manual@),
        decreases m - j,
    {
        proof {
            assert(manual@.skip(j as int)[0] == manual@[j as int]);
            assert(manual@.skip(j as int).skip(1) =~= manual@.skip(j + 1));
        }
        let ghost before = out@;
        append_manual_block(&mut out, &manual[j]);
        proof {
            assert(out@ + manual_blocks_spec(manual@.skip(j + 1)) =~= before + (manual_block_spec(
                manual@[j as int],
            ) + manual_blocks_spec(manual@.skip(j + 1))));
        }
        j = j + 1;
    }
    proof {
        assert(manual_blocks_spec(manual@.skip(m as int)) == Seq::<char>::empty()) by {
            assert(manual@.skip(m as int) =~= Seq::<ManualDependency>::empty());
        }
        assert(out@ + Seq::<char>::empty() =~= out@);
    }
    out.append("\n");
    let ghost prefix = out@;
    let ghost iu = in_use_spec(resolved@, manual@);
    let b = bundled.len();
    let mut k: usize = 0;
    proof {
        assert(bundled@.skip(0) =~= bundled@);
    }
    while k < b
        invariant
            b == bundled@.len(),
            k <= b,
            r_view(in_use@) == iu,
            out@ + bundled_section_spec(bundled@.skip(k as int), iu) == prefix
                + bundled_section_spec(bundled@, iu),
        decreases b - k,
    {
        proof {
            assert(bundled@.skip(k as int)[0] == bundled@[k as int]);
            assert(bundled@.skip(k as int).skip(1) =~= bundled@.skip(k + 1));
        }
        let ghost before = out@;
        if name_matches(&bundled[k].name, &in_use) {
            append_bundled_block(&mut out, &bundled[k]);
        }
        proof {
            if name_in_use(bundled@[k as int].name@, iu) {
                assert(out@ + bundled_section_spec(bundled@.skip(k + 1), iu) =~= before + (
                bundled_block_spec(bundled@[k as int]) + bundled_section_spec(
                    bundled@.skip(k + 1),
                    iu,
                )));
            }
        }
        k = k + 1;
    }
    proof {
        assert(bundled_section_spec(bundled@.skip(b as int), iu) == Seq::<char>::empty()) by {
            assert(bundled@.skip(b as int) =~= Seq::<BundledLicense>::empty());
        }
        assert(out@ + Seq::<char>::empty() =~= out@);
    }
    out.append("---------------------------------------------------------\n");
    proof {
        assert(out@ =~= notice_spec(resolved@, manual@, bundled@));
    }
    out
}

/// Resolves every dependency record and renders the notice document; the
/// first unresolvable dependency aborts with its error instead.
pub fn build_notice(
    records: &Vec<DependencyRecord>,
    overrides: &Vec<Package>,
    license_files: &Vec<Package>,
    manual: &Vec<ManualDependency>,
    bundled: &Vec<BundledLicense>,
) -> (r: Result<String, NoticeError>)
    ensures
        r is Ok <==> resolve_all_spec(records@, overrides@, license_files@) is Ok,
        r matches Ok(doc) ==> doc@ == notice_spec(
            resolve_all_spec(records@, overrides@, license_files@)->Ok_0,
            manual@,
            bundled@,
        ),
        r matches Err(e) ==> Err::<Seq<ResolvedDependency>, NoticeError>(e) == resolve_all_spec(
            records@,
            overrides@,
            license_files@,
        ),
{
    match resolve_all(records, overrides, license_files) {
        Err(e) => Err(e),
        Ok(resolved) => Ok(render_notice(&resolved, manual, bundled)),
    }
}

/// Rendering is deterministic: identical resolved dependencies, manual
/// additions, and bundled-library contents always produce the identical
/// document.
pub proof fn lemma_render_deterministic(
    resolved1: Seq<ResolvedDependency>,
    manual1: Seq<ManualDependency>,
    bundled1: Seq<BundledLicense>,
    resolved2: Seq<ResolvedDependency>,
    manual2: Seq<ManualDependency>,
    bundled2: Seq<BundledLicense>,
)
    requires
        resolved1 == resolved2,
        manual1 == manual2,
        bundled1 == bundled2,
    ensures
        notice_spec(resolved1, manual1, bundled1) == notice_spec(resolved2, manual2, bundled2),
{
}

} // verus!
