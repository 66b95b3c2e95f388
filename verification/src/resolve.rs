//! License resolution: merging dependency records with the curated
//! override table and the full-text license table, and collecting the
//! set of license identifiers in use.

use vstd::prelude::*;
use crate::license_file::{Package, lookup, lookup_spec};

verus! {

/// One normalized fact about a third-party component, as produced by a
/// dependency adapter.
pub struct DependencyRecord {
    pub name: String,
    pub version: String,
    pub repository: Option<String>,
    /// Short license identifier, e.g. "MIT", when the adapter reported one.
    pub license: Option<String>,
    /// Whether the adapter reported that full license text is available
    /// for this dependency instead of (or besides) an identifier.
    pub has_full_license_text: bool,
}

/// How one dependency's license is disclosed in the notice document:
/// by a short identifier, or by full license text printed verbatim.
pub enum ResolvedLicense {
    Identifier(String),
    FullText(String),
}

/// A dependency together with its resolved license disclosure.
pub struct ResolvedDependency {
    pub name: String,
    pub version: String,
    pub repository: Option<String>,
    pub resolution: ResolvedLicense,
}

/// A manually supplied notice entry: a license identifier and freeform
/// notice text, not backed by any adapter.
pub struct ManualDependency {
    pub license: String,
    pub notice: String,
}

/// The fatal errors of aggregation; each carries the name of the
/// dependency it arose for, where one is involved.
#[derive(Debug)]
pub enum NoticeError {
    /// A dependency with neither a license identifier nor full text.
    NoLicense(String),
    /// An override entry with both or neither of identifier and full text.
    MalformedOverride(String),
    /// A dependency declared full-text licensing, but the license table
    /// holds no text for it.
    LicenseFileNotFound(String),
    /// A repository field that is neither a plain string nor an object
    /// carrying a string under its url key.
    InvalidRepository,
}

impl NoticeError {
    /// A human-readable description of the error.
    pub fn message(&self) -> (r: String)
        ensures
            r@ == self.message_spec(),
    {
        match self {
            NoticeError::NoLicense(n) => {
                let mut m = String::from_str("no license found for ");
                m.append(n.as_str());
                m
            },
            NoticeError::MalformedOverride(n) => {
                let mut m = String::from_str(
                    "either license_file_url or license must be specified for ",
                );
                m.append(n.as_str());
                m
            },
            NoticeError::LicenseFileNotFound(n) => {
                let mut m = String::from_str("license file not found for ");
                m.append(n.as_str());
                m
            },
            NoticeError::InvalidRepository => String::from_str("invalid repository type"),
        }
    }

    /// What `message` returns for each variant.
    pub open spec fn message_spec(self) -> Seq<char> {
        match self {
            NoticeError::NoLicense(n) => "no license found for "@ + n@,
            NoticeError::MalformedOverride(n) => {
                "either license_file_url or license must be specified for "@ + n@
            },
            NoticeError::LicenseFileNotFound(n) => "license file not found for "@ + n@,
            NoticeError::InvalidRepository => "invalid repository type"@,
        }
    }
}

/// The resolution of one record: the override wins when present, else the
/// record's own identifier, else full text from the license table, else a
/// fatal error naming the dependency.
pub open spec fn resolve_spec(
    rec: DependencyRecord,
    overrides: Seq<Package>,
    files: Seq<Package>,
) -> Result<ResolvedLicense, NoticeError> {
    match lookup_spec(overrides, rec.name@) {
        Some(ov) => match (ov.license, ov.license_file_content) {
            (Some(id), None) => Ok(ResolvedLicense::Identifier(id)),
            (None, Some(text)) => Ok(ResolvedLicense::FullText(text)),
            _ => Err(NoticeError::MalformedOverride(rec.name)),
        },
        None => match rec.license {
            Some(id) => Ok(ResolvedLicense::Identifier(id)),
            None => {
                if rec.has_full_license_text {
                    match lookup_spec(files, rec.name@) {
                        Some(p) => match p.license_file_content {
                            Some(text) => Ok(ResolvedLicense::FullText(text)),
                            None => Err(NoticeError::LicenseFileNotFound(rec.name)),
                        },
                        None => Err(NoticeError::LicenseFileNotFound(rec.name)),
                    }
                } else {
                    Err(NoticeError::NoLicense(rec.name))
                }
            },
        },
    }
}

/// Resolves one dependency record against the override table and the
/// full-text license table.
pub fn resolve_record(
    rec: &DependencyRecord,
    overrides: &Vec<Package>,
    files: &Vec<Package>,
) -> (r: Result<ResolvedLicense, NoticeError>)
    ensures
        r == resolve_spec(*rec, overrides@, files@),
{
    match lookup(overrides, &rec.name) {
        Some(i) => {
            let ov = &overrides[i];
            match (&ov.license, &ov.license_file_content) {
                (Some(id), None) => Ok(ResolvedLicense::Identifier(id.clone())),
                (None, Some(text)) => Ok(ResolvedLicense::FullText(text.clone())),
                _ => Err(NoticeError::MalformedOverride(rec.name.clone())),
            }
        },
        None => match &rec.license {
            Some(id) => Ok(ResolvedLicense::Identifier(id.clone())),
            None => {
                if rec.has_full_license_text {
                    match lookup(files, &rec.name) {
                        Some(i) => match &files[i].license_file_content {
                            Some(text) => Ok(ResolvedLicense::FullText(text.clone())),
                            None => Err(NoticeError::LicenseFileNotFound(rec.name.clone())),
                        },
                        None => Err(NoticeError::LicenseFileNotFound(rec.name.clone())),
                    }
                } else {
                    Err(NoticeError::NoLicense(rec.name.clone()))
                }
            },
        },
    }
}

/// `rec` paired with its resolution.
pub open spec fn resolved_of(rec: DependencyRecord, res: ResolvedLicense) -> ResolvedDependency {
    ResolvedDependency {
        name: rec.name,
        version: rec.version,
        repository: rec.repository,
        resolution: res,
    }
}

/// Resolution of a whole record list, in order; the first fatal error
/// aborts the run.
pub open spec fn resolve_all_spec(
    recs: Seq<DependencyRecord>,
    overrides: Seq<Package>,
    files: Seq<Package>,
) -> Result<Seq<ResolvedDependency>, NoticeError>
    decreases recs.len(),
{
    if recs.len() == 0 {
        Ok(Seq::empty())
    } else {
        match resolve_spec(recs[0], overrides, files) {
            Err(e) => Err(e),
            Ok(res) => match resolve_all_spec(recs.skip(1), overrides, files) {
                Err(e) => Err(e),
                Ok(rest) => Ok(seq![resolved_of(recs[0], res)] + rest),
            },
        }
    }
}

/// Resolves every record, in adapter-output order, stopping at the first
/// dependency whose license cannot be resolved.
pub fn resolve_all(
    recs: &Vec<DependencyRecord>,
    overrides: &Vec<Package>,
    files: &Vec<Package>,
) -> (r: Result<Vec<ResolvedDependency>, NoticeError>)
    ensures
        r is Ok <==> resolve_all_spec(recs@, overrides@, files@) is Ok,
        r matches Ok(v) ==> Ok::<Seq<ResolvedDependency>, NoticeError>(v@) == resolve_all_spec(
            recs@,
            overrides@,
            files@,
        ),
        r matches Err(e) ==> Err::<Seq<ResolvedDependency>, NoticeError>(e) == resolve_all_spec(
            recs@,
            overrides@,
            files@,
        ),
{
    let n = recs.len();
    let mut out: Vec<ResolvedDependency> = Vec::new();
    let mut i: usize = 0;
    proof {
        assert(recs@.skip(0) =~= recs@);
        if resolve_all_spec(recs@, overrides@, files@) is Ok {
            assert(out@ + resolve_all_spec(recs@, overrides@, files@)->Ok_0 =~= resolve_all_spec(
                recs@,
                overrides@,
                files@,
            )->Ok_0);
        }
    }
    while i < n
        invariant
            n == recs@.len(),
            i <= n,
            resolve_all_spec(recs@, overrides@, files@) == match resolve_all_spec(
                recs@.skip(i as int),
                overrides@,
                files@,
            ) {
                Ok(rest) => Ok::<Seq<ResolvedDependency>, NoticeError>(out@ + rest),
                Err(e) => Err::<Seq<ResolvedDependency>, NoticeError>(e),
            },
        decreases n - i,
    {
        proof {
            assert(recs@.skip(i as int)[0] == recs@[i as int]);
            assert(recs@.skip(i as int).skip(1) =~= recs@.skip(i + 1));
        }
        let rec = &recs[i];
        match resolve_record(rec, overrides, files) {
            Err(e) => {
                return Err(e);
            },
            Ok(res) => {
                let ghost prev = out@;
                let name = rec.name.clone();
                let version = rec.version.clone();
                let repository = match &rec.repository {
                    Some(s) => Some(s.clone()),
                    None => None,
                };
                out.push(ResolvedDependency { name, version, repository, resolution: res });
                proof {
                    assert(out@ =~= prev + seq![resolved_of(recs@[i as int], res)]);
                    if resolve_all_spec(recs@.skip(i + 1), overrides@, files@) is Ok {
                        let rest = resolve_all_spec(
                            recs@.skip(i + 1),
                            overrides@,
                            files@,
                        )->Ok_0;
                        assert(prev + (seq![resolved_of(recs@[i as int], res)] + rest) =~= (prev
                            + seq![resolved_of(recs@[i as int], res)]) + rest);
                    }
                }
            },
        }
        i = i + 1;
    }
    proof {
        assert(recs@.skip(n as int) =~= Seq::<DependencyRecord>::empty());
        assert(out@ + Seq::<ResolvedDependency>::empty() =~= out@);
    }
    Ok(out)
}

/// The license identifiers contributed by resolved dependencies, in
/// order: identifier resolutions contribute; full-text resolutions do not.
pub open spec fn identifiers_of(resolved: Seq<ResolvedDependency>) -> Seq<Seq<char>>
    decreases resolved.len(),
{
    if resolved.len() == 0 {
        Seq::empty()
    } else {
        match resolved[0].resolution {
            ResolvedLicense::Identifier(id) => seq![id@] + identifiers_of(resolved.skip(1)),
            ResolvedLicense::FullText(_) => identifiers_of(resolved.skip(1)),
        }
    }
}

/// The full "licenses in use" collection: identifiers of resolved
/// dependencies, then the identifiers of the manual additions.
pub open spec fn in_use_spec(
    resolved: Seq<ResolvedDependency>,
    manual: Seq<ManualDependency>,
) -> Seq<Seq<char>> {
    identifiers_of(resolved) + manual.map_values(|m: ManualDependency| m.license@)
}

/// Collects the license identifiers in use, in order.
pub fn licenses_in_use(resolved: &Vec<ResolvedDependency>, manual: &Vec<ManualDependency>) -> (r:
    Vec<String>)
    ensures
        r@.map_values(|s: String| s@) == in_use_spec(resolved@, manual@),
{
    let mut out: Vec<String> = Vec::new();
    let n = resolved.len();
    let mut i: usize = 0;
    proof {
        assert(resolved@.skip(0) =~= resolved@);
        assert(r_view(out@) + identifiers_of(resolved@) =~= identifiers_of(resolved@));
    }
    while i < n
        invariant
            n == resolved@.len(),
            i <= n,
            identifiers_of(resolved@) == r_view(out@) + identifiers_of(resolved@.skip(i as int)),
        decreases n - i,
    {
        proof {
            assert(resolved@.skip(i as int)[0] == resolved@[i as int]);
            assert(resolved@.skip(i as int).skip(1) =~= resolved@.skip(i + 1));
        }
        let ghost prev = out@;
        match &resolved[i].resolution {
            ResolvedLicense::Identifier(id) => {
                out.push(id.clone());
                proof {
                    assert(r_view(out@) =~= r_view(prev) + seq![resolved@[i as int].resolution->Identifier_0@]);
                    assert(r_view(prev) + (seq![resolved@[i as int].resolution->Identifier_0@]
                        + identifiers_of(resolved@.skip(i + 1))) =~= (r_view(prev)
                        + seq![resolved@[i as int].resolution->Identifier_0@]) + identifiers_of(
                        resolved@.skip(i + 1),
                    ));
                }
            },
            ResolvedLicense::FullText(_) => {
            },
        }
        i = i + 1;
    }
    proof {
        assert(resolved@.skip(n as int) =~= Seq::<ResolvedDependency>::empty());
        assert(r_view(out@) + Seq::<Seq<char>>::empty() =~= r_view(out@));
    }
    let m = manual.len();
    let mut j: usize = 0;
    while j < m
        invariant
            m == manual@.len(),
            j <= m,
            r_view(out@) == identifiers_of(resolved@) + manual@.take(j as int).map_values(
                |x: ManualDependency| x.license@,
            ),
        decreases m - j,
    {
        let ghost prev = out@;
        out.push(manual[j].license.clone());
        proof {
            assert(r_view(out@) =~= r_view(prev) + seq![manual@[j as int].license@]);
            assert(manual@.take(j + 1).map_values(|x: ManualDependency| x.license@) =~= manual@.take(
                j as int,
            ).map_values(|x: ManualDependency| x.license@) + seq![manual@[j as int].license@]);
            assert(identifiers_of(resolved@) + (manual@.take(j as int).map_values(
                |x: ManualDependency| x.license@,
            ) + seq![manual@[j as int].license@]) =~= (identifiers_of(resolved@)
                + manual@.take(j as int).map_values(|x: ManualDependency| x.license@))
                + seq![manual@[j as int].license@]);
        }
        j = j + 1;
    }
    proof {
        assert(manual@.take(m as int) =~= manual@);
    }
    out
}

/// The views of a list of strings.
pub open spec fn r_view(v: Seq<String>) -> Seq<Seq<char>> {
    v.map_values(|s: String| s@)
}

/// For a record list in which every dependency carries a license
/// identifier or resolvable full text (and every override that applies
/// is well-formed), resolution succeeds and yields every dependency
/// exactly once, in adapter-output order, with its name, version and
/// repository unchanged; this holds in particular when no two records
/// share a name.
pub proof fn lemma_resolution_complete(
    recs: Seq<DependencyRecord>,
    overrides: Seq<Package>,
    files: Seq<Package>,
)
    requires
        forall|i: int|
            0 <= i < recs.len() ==> match lookup_spec(overrides, (#[trigger] recs[i]).name@) {
                Some(ov) => ov.wf(),
                None => true,
            },
        forall|i: int|
            0 <= i < recs.len() ==> (lookup_spec(overrides, (#[trigger] recs[i]).name@) is None
                ==> (recs[i].license is Some || (recs[i].has_full_license_text && match lookup_spec(
                files,
                recs[i].name@,
            ) {
                Some(p) => p.license_file_content is Some,
                None => false,
            }))),
    ensures
        resolve_all_spec(recs, overrides, files) is Ok,
        resolve_all_spec(recs, overrides, files)->Ok_0.len() == recs.len(),
        forall|i: int|
            0 <= i < recs.len() ==> {
                let d = #[trigger] resolve_all_spec(recs, overrides, files)->Ok_0[i];
                d.name == recs[i].name && d.version == recs[i].version && d.repository
                    == recs[i].repository && Ok::<ResolvedLicense, NoticeError>(d.resolution)
                    == resolve_spec(recs[i], overrides, files)
            },
    decreases recs.len(),
{
    if recs.len() == 0 {
    } else {
        assert(resolve_spec(recs[0], overrides, files) is Ok) by {
            assert(match lookup_spec(overrides, recs[0].name@) {
                Some(ov) => ov.wf(),
                None => true,
            });
        }
        assert forall|i: int| 0 <= i < recs.skip(1).len() implies match lookup_spec(
            overrides,
            (#[trigger] recs.skip(1)[i]).name@,
        ) {
            Some(ov) => ov.wf(),
            None => true,
        } by {
            assert(recs.skip(1)[i] == recs[i + 1]);
        }
        assert forall|i: int| 0 <= i < recs.skip(1).len() implies (lookup_spec(
            overrides,
            (#[trigger] recs.skip(1)[i]).name@,
        ) is None ==> (recs.skip(1)[i].license is Some || (recs.skip(1)[i].has_full_license_text
            && match lookup_spec(files, recs.skip(1)[i].name@) {
            Some(p) => p.license_file_content is Some,
            None => false,
        }))) by {
            assert(recs.skip(1)[i] == recs[i + 1]);
        }
        lemma_resolution_complete(recs.skip(1), overrides, files);
        let res = resolve_spec(recs[0], overrides, files)->Ok_0;
        let rest = resolve_all_spec(recs.skip(1), overrides, files)->Ok_0;
        assert(resolve_all_spec(recs, overrides, files)->Ok_0 == seq![resolved_of(recs[0], res)]
            + rest);
        assert forall|i: int| 0 <= i < recs.len() implies {
            let d = #[trigger] resolve_all_spec(recs, overrides, files)->Ok_0[i];
            d.name == recs[i].name && d.version == recs[i].version && d.repository
                == recs[i].repository && Ok::<ResolvedLicense, NoticeError>(d.resolution)
                == resolve_spec(recs[i], overrides, files)
        } by {
            if i > 0 {
                assert(recs.skip(1)[i - 1] == recs[i]);
                assert((seq![resolved_of(recs[0], res)] + rest)[i] == rest[i - 1]);
            }
        }
    }
}

/// A dependency lacking both a license identifier and full-text
/// licensing, and not covered by an override, makes resolution fail,
/// whatever the rest of the data holds.
pub proof fn lemma_missing_license_fails(
    recs: Seq<DependencyRecord>,
    overrides: Seq<Package>,
    files: Seq<Package>,
)
    requires
        exists|i: int|
            0 <= i < recs.len() && (#[trigger] recs[i]).license is None
                && !recs[i].has_full_license_text && lookup_spec(overrides, recs[i].name@) is None,
    ensures
        resolve_all_spec(recs, overrides, files) is Err,
    decreases recs.len(),
{
    let w = choose|i: int|
        0 <= i < recs.len() && (#[trigger] recs[i]).license is None
            && !recs[i].has_full_license_text && lookup_spec(overrides, recs[i].name@) is None;
    if w == 0 {
        assert(resolve_spec(recs[0], overrides, files) is Err);
    } else {
        if resolve_spec(recs[0], overrides, files) is Ok {
            assert(recs.skip(1)[w - 1] == recs[w]);
            lemma_missing_license_fails(recs.skip(1), overrides, files);
        }
    }
}

} // verus!
