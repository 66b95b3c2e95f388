//! The module-tree adapter logic: normalizing parsed module manifests
//! into dependency details, excluding development-only packages named by
//! a lockfile, and rendering the module-tree notice document.

use vstd::prelude::*;
use crate::license_file::{Package, lookup_spec};
use crate::render::{BundledLicense, build_notice, notice_spec};
use crate::resolve::{
    DependencyRecord, ManualDependency, NoticeError, ResolvedDependency, ResolvedLicense, r_view,
    lemma_resolution_complete, resolve_all_spec, resolve_spec,
};
use crate::text::{remove_all, remove_all_spec};

verus! {

/// One dependency found in the installed module tree, normalized.
pub struct NodeDependencyDetails {
    pub name: String,
    pub version: String,
    pub repository: String,
    pub license: String,
}

/// The repository field of a module manifest, as the caller parsed it:
/// a plain string, an object carrying an optional string url field, or
/// a value of some other shape.
pub enum RepositoryField {
    Text(String),
    UrlObject(Option<String>),
    OtherShape,
}

/// One parsed module manifest.
pub struct NodePackage {
    pub name: String,
    pub version: String,
    pub repository: RepositoryField,
    pub license: String,
}

/// One entry of the lockfile's package table: an installation path and
/// whether it is a development-only dependency.
pub struct LockPackage {
    pub name: String,
    pub dev: bool,
}

/// Repository normalization: a plain string stands for itself, an object
/// contributes its url, anything else is a fatal error.
pub open spec fn normalize_repository_spec(r: RepositoryField) -> Result<String, NoticeError> {
    match r {
        RepositoryField::Text(s) => Ok(s),
        RepositoryField::UrlObject(u) => match u {
            Some(url) => Ok(url),
            None => Err(NoticeError::InvalidRepository),
        },
        RepositoryField::OtherShape => Err(NoticeError::InvalidRepository),
    }
}

/// Normalizes a parsed repository field into a single string.
pub fn normalize_repository(r: &RepositoryField) -> (res: Result<String, NoticeError>)
    ensures
        res == normalize_repository_spec(*r),
{
    match r {
        RepositoryField::Text(s) => Ok(s.clone()),
        RepositoryField::UrlObject(u) => match u {
            Some(url) => Ok(url.clone()),
            None => Err(NoticeError::InvalidRepository),
        },
        RepositoryField::OtherShape => Err(NoticeError::InvalidRepository),
    }
}

/// The names of the development-only packages of a lockfile, each with
/// every "node_modules/" path component removed.
pub open spec fn dev_names_spec(pkgs: Seq<LockPackage>) -> Seq<Seq<char>>
    decreases pkgs.len(),
{
    if pkgs.len() == 0 {
        Seq::empty()
    } else {
        (if pkgs[0].dev {
            seq![remove_all_spec(pkgs[0].name@, "node_modules/"@)]
        } else {
            Seq::empty()
        }) + dev_names_spec(pkgs.skip(1))
    }
}

/// Collects the development-only package names of a lockfile.
pub fn dev_package_names(pkgs: &Vec<LockPackage>) -> (r: Vec<String>)
    ensures
        r_view(r@) == dev_names_spec(pkgs@),
{
    let mut out: Vec<String> = Vec::new();
    let n = pkgs.len();
    let mut i: usize = 0;
    proof {
        assert(pkgs@.skip(0) =~= pkgs@);
        assert(r_view(out@) + dev_names_spec(pkgs@) =~= dev_names_spec(pkgs@));
    }
    while i < n
        invariant
            n == pkgs@.len(),
            i <= n,
            dev_names_spec(pkgs@) == r_view(out@) + dev_names_spec(pkgs@.skip(i as int)),
        decreases n - i,
    {
        proof {
            assert(pkgs@.skip(i as int)[0] == pkgs@[i as int]);
            assert(pkgs@.skip(i as int).skip(1) =~= pkgs@.skip(i + 1));
        }
        let ghost before = out@;
        if pkgs[i].dev {
            let stripped = remove_all(pkgs[i].name.as_str(), "node_modules/");
            out.push(stripped);
            proof {
                assert(r_view(out@) =~= r_view(before) + seq![
                    remove_all_spec(pkgs@[i as int].name@, "node_modules/"@),
                ]);
                assert(r_view(before) + (seq![
                    remove_all_spec(pkgs@[i as int].name@, "node_modules/"@),
                ] + dev_names_spec(pkgs@.skip(i + 1))) =~= (r_view(before) + seq![
                    remove_all_spec(pkgs@[i as int].name@, "node_modules/"@),
                ]) + dev_names_spec(pkgs@.skip(i + 1)));
            }
        }
        i = i + 1;
    }
    proof {
        assert(dev_names_spec(pkgs@.skip(n as int)) == Seq::<Seq<char>>::empty()) by {
            assert(pkgs@.skip(n as int) =~= Seq::<LockPackage>::empty());
        }
        assert(r_view(out@) + Seq::<Seq<char>>::empty() =~= r_view(out@));
    }
    out
}

/// Whether `n` is one of `names`, by exact equality.
pub open spec fn name_listed(names: Seq<Seq<char>>, n: Seq<char>) -> bool {
    exists|k: int| 0 <= k < names.len() && #[trigger] names[k] == n
}

/// Decides whether `n` is one of `names`.
pub fn name_listed_exec(names: &Vec<String>, n: &String) -> (r: bool)
    ensures
        r == name_listed(r_view(names@), n@),
{
    let len = names.len();
    let mut k: usize = 0;
    while k < len
        invariant
            len == names@.len(),
            k <= len,
            forall|kk: int| 0 <= kk < k ==> #[trigger] r_view(names@)[kk] != n@,
        decreases len - k,
    {
        proof {
            assert(r_view(names@)[k as int] == names@[k as int]@);
        }
        if names[k] == *n {
            return true;
        }
        k = k + 1;
    }
    false
}

/// The dependency details of every non-development package, in tree
/// order; a package with an unusable repository field is a fatal error.
pub open spec fn collect_spec(pkgs: Seq<NodePackage>, dev: Seq<Seq<char>>) -> Result<
    Seq<NodeDependencyDetails>,
    NoticeError,
>
    decreases pkgs.len(),
{
    if pkgs.len() == 0 {
        Ok(Seq::empty())
    } else if name_listed(dev, pkgs[0].name@) {
        collect_spec(pkgs.skip(1), dev)
    } else {
        match normalize_repository_spec(pkgs[0].repository) {
            Err(e) => Err(e),
            Ok(rep) => match collect_spec(pkgs.skip(1), dev) {
                Err(e) => Err(e),
                Ok(rest) => Ok(
                    seq![
                        NodeDependencyDetails {
                            name: pkgs[0].name,
                            version: pkgs[0].version,
                            repository: rep,
                            license: pkgs[0].license,
                        },
                    ] + rest,
                ),
            },
        }
    }
}

/// Normalizes the parsed module manifests into dependency details,
/// excluding the development-only packages.
pub fn collect_node_dependencies(pkgs: &Vec<NodePackage>, dev: &Vec<String>) -> (r: Result<
    Vec<NodeDependencyDetails>,
    NoticeError,
>)
    ensures
        r is Ok <==> collect_spec(pkgs@, r_view(dev@)) is Ok,
        r matches Ok(v) ==> Ok::<Seq<NodeDependencyDetails>, NoticeError>(v@) == collect_spec(
            pkgs@,
            r_view(dev@),
        ),
        r matches Err(e) ==> Err::<Seq<NodeDependencyDetails>, NoticeError>(e) == collect_spec(
            pkgs@,
            r_view(dev@),
        ),
{
    let n = pkgs.len();
    let mut out: Vec<NodeDependencyDetails> = Vec::new();
    let mut i: usize = 0;
    proof {
        assert(pkgs@.skip(0) =~= pkgs@);
        if collect_spec(pkgs@, r_view(dev@)) is Ok {
            assert(out@ + collect_spec(pkgs@, r_view(dev@))->Ok_0 =~= collect_spec(
                pkgs@,
                r_view(dev@),
            )->Ok_0);
        }
    }
    while i < n
        invariant
            n == pkgs@.len(),
            i <= n,
            collect_spec(pkgs@, r_view(dev@)) == match collect_spec(
                pkgs@.skip(i as int),
                r_view(dev@),
            ) {
                Ok(rest) => Ok::<Seq<NodeDependencyDetails>, NoticeError>(out@ + rest),
                Err(e) => Err::<Seq<NodeDependencyDetails>, NoticeError>(e),
            },
        decreases n - i,
    {
        proof {
            assert(pkgs@.skip(i as int)[0] == pkgs@[i as int]);
            assert(pkgs@.skip(i as int).skip(1) =~= pkgs@.skip(i + 1));
        }
        let p = &pkgs[i];
        if !name_listed_exec(dev, &p.name) {
            match normalize_repository(&p.repository) {
                Err(e) => {
                    return Err(e);
                },
                Ok(rep) => {
                    let ghost prev = out@;
                    let d = NodeDependencyDetails {
                        name: p.name.clone(),
                        version: p.version.clone(),
                        repository: rep,
                        license: p.license.clone(),
                    };
                    out.push(d);
                    proof {
                        let spec_d = NodeDependencyDetails {
                            name: pkgs@[i as int].name,
                            version: pkgs@[i as int].version,
                            repository: normalize_repository_spec(
                                pkgs@[i as int].repository,
                            )->Ok_0,
                            license: pkgs@[i as int].license,
                        };
                        assert(out@ =~= prev + seq![spec_d]);
                        if collect_spec(pkgs@.skip(i + 1), r_view(dev@)) is Ok {
                            let rest = collect_spec(pkgs@.skip(i + 1), r_view(dev@))->Ok_0;
                            assert(prev + (seq![spec_d] + rest) =~= (prev + seq![spec_d]) + rest);
                        }
                    }
                },
            }
        }
        i = i + 1;
    }
    proof {
        assert(pkgs@.skip(n as int) =~= Seq::<NodePackage>::empty());
        assert(out@ + Seq::<NodeDependencyDetails>::empty() =~= out@);
    }
    Ok(out)
}

/// The dependency record of one module-tree dependency: both adapters
/// feed the single record model, so the one renderer serves both paths.
pub open spec fn record_of_node(d: NodeDependencyDetails) -> DependencyRecord {
    DependencyRecord {
        name: d.name,
        version: d.version,
        repository: Some(d.repository),
        license: Some(d.license),
        has_full_license_text: false,
    }
}

/// The records of a whole module-tree dependency list, in tree order.
pub open spec fn npm_records_spec(ds: Seq<NodeDependencyDetails>) -> Seq<DependencyRecord> {
    ds.map_values(|d: NodeDependencyDetails| record_of_node(d))
}

/// Converts module-tree dependency details into dependency records.
pub fn npm_dependency_records(deps: &Vec<NodeDependencyDetails>) -> (r: Vec<DependencyRecord>)
    ensures
        r@ == npm_records_spec(deps@),
{
    let mut out: Vec<DependencyRecord> = Vec::new();
    let n = deps.len();
    let mut i: usize = 0;
    while i < n
        invariant
            n == deps@.len(),
            i <= n,
            out@ == npm_records_spec(deps@.take(i as int)),
        decreases n - i,
    {
        let d = &deps[i];
        out.push(
            DependencyRecord {
                name: d.name.clone(),
                version: d.version.clone(),
                repository: Some(d.repository.clone()),
                license: Some(d.license.clone()),
                has_full_license_text: false,
            },
        );
        proof {
            assert(deps@.take(i + 1) =~= deps@.take(i as int).push(deps@[i as int]));
            assert(npm_records_spec(deps@.take(i + 1)) =~= npm_records_spec(
                deps@.take(i as int),
            ).push(record_of_node(deps@[i as int])));
        }
        i = i + 1;
    }
    proof {
        assert(deps@.take(n as int) =~= deps@);
    }
    out
}

/// Renders the module-tree notice document: the dependencies become
/// ordinary dependency records (license identifier present, no full
/// text), the override table applies to them as on the native path, and
/// the one renderer produces the document.
pub fn build_npm_notice(
    deps: &Vec<NodeDependencyDetails>,
    overrides: &Vec<Package>,
    bundled: &Vec<BundledLicense>,
) -> (r: Result<String, NoticeError>)
    ensures
        r is Ok <==> resolve_all_spec(npm_records_spec(deps@), overrides@, Seq::empty()) is Ok,
        r matches Ok(doc) ==> doc@ == notice_spec(
            resolve_all_spec(npm_records_spec(deps@), overrides@, Seq::empty())->Ok_0,
            Seq::empty(),
            bundled@,
        ),
        r matches Err(e) ==> Err::<Seq<ResolvedDependency>, NoticeError>(e) == resolve_all_spec(
            npm_records_spec(deps@),
            overrides@,
            Seq::empty(),
        ),
{
    let records = npm_dependency_records(deps);
    let files: Vec<Package> = Vec::new();
    let manual: Vec<ManualDependency> = Vec::new();
    proof {
        assert(files@ =~= Seq::<Package>::empty());
        assert(manual@ =~= Seq::<ManualDependency>::empty());
    }
    build_notice(&records, overrides, &files, &manual, bundled)
}

/// With no override table, module-tree resolution always succeeds, and
/// the document carries one block per dependency, exactly once, in tree
/// order, each resolved to its own license identifier with its name,
/// version and repository unchanged.
pub proof fn lemma_npm_resolution_complete(ds: Seq<NodeDependencyDetails>)
    ensures
        resolve_all_spec(npm_records_spec(ds), Seq::empty(), Seq::empty()) is Ok,
        resolve_all_spec(npm_records_spec(ds), Seq::empty(), Seq::empty())->Ok_0.len() == ds.len(),
        forall|i: int|
            0 <= i < ds.len() ==> #[trigger] resolve_all_spec(
                npm_records_spec(ds),
                Seq::empty(),
                Seq::empty(),
            )->Ok_0[i] == (ResolvedDependency {
                name: ds[i].name,
                version: ds[i].version,
                repository: Some(ds[i].repository),
                resolution: ResolvedLicense::Identifier(ds[i].license),
            }),
{
    let recs = npm_records_spec(ds);
    assert forall|i: int| 0 <= i < recs.len() implies match lookup_spec(
        Seq::empty(),
        (#[trigger] recs[i]).name@,
    ) {
        Some(ov) => ov.wf(),
        None => true,
    } by {
        assert(lookup_spec(Seq::<Package>::empty(), recs[i].name@) is None);
    }
    assert forall|i: int| 0 <= i < recs.len() implies (lookup_spec(
        Seq::empty(),
        (#[trigger] recs[i]).name@,
    ) is None ==> (recs[i].license is Some || (recs[i].has_full_license_text && match lookup_spec(
        Seq::empty(),
        recs[i].name@,
    ) {
        Some(p) => p.license_file_content is Some,
        None => false,
    }))) by {
        assert(recs[i] == record_of_node(ds[i]));
    }
    lemma_resolution_complete(recs, Seq::empty(), Seq::empty());
    assert forall|i: int| 0 <= i < ds.len() implies #[trigger] resolve_all_spec(
        recs,
        Seq::empty(),
        Seq::empty(),
    )->Ok_0[i] == (ResolvedDependency {
        name: ds[i].name,
        version: ds[i].version,
        repository: Some(ds[i].repository),
        resolution: ResolvedLicense::Identifier(ds[i].license),
    }) by {
        assert(recs[i] == record_of_node(ds[i]));
        assert(lookup_spec(Seq::<Package>::empty(), recs[i].name@) is None);
        assert(resolve_spec(recs[i], Seq::empty(), Seq::empty()) == Ok::<
            ResolvedLicense,
            NoticeError,
        >(ResolvedLicense::Identifier(ds[i].license)));
    }
}

} // verus!
