//! The manifest pipeline's data model and checkers: one package per manifest,
//! checked for missing recommended fields, and its pinned dependencies
//! audited for stale version tags. Each present field yields an informational
//! entry with its value; each absent one an advisory finding. Package and
//! dependency order from the source is preserved in the report.
use vstd::prelude::*;

use crate::json::json_parse;
use crate::json::json_parses;
use crate::json::json_tree;
use crate::json::tree_get;
use crate::json::tree_as_array;
use crate::json::tree_as_str;
use crate::json::spec_string;
use crate::json::spec_opt_string;
use crate::json::spec_array;
use crate::json::value_get;
use crate::json::value_as_array;
use crate::json::value_as_str;
use crate::json::get_string;
use crate::json::get_opt_string;
use crate::staleness::StalenessPolicy;
use crate::staleness::policy_wf;
use crate::staleness::package_dep_entries;
use crate::staleness::check_package_dependencies;
use crate::text::join;

verus! {

/// One dependency of a package, with the source reference it is pinned to,
/// if any.
#[derive(Debug, Clone, PartialEq, Eq)]
pub struct Dependency {
    pub name: String,
    pub source: Option<String>,
}

/// One package entry from the build-manifest inspector.
#[derive(Debug, Clone, PartialEq, Eq)]
pub struct Package {
    pub name: String,
    pub manifest_path: String,
    pub version: String,
    pub license: Option<String>,
    pub description: Option<String>,
    pub authors: Vec<String>,
    pub repository: Option<String>,
    pub dependencies: Vec<Dependency>,
}

/// The whole manifest document: its packages, in source order.
#[derive(Debug, Clone, PartialEq, Eq)]
pub struct Metadata {
    pub packages: Vec<Package>,
}

/// The mathematical content of a dependency.
pub struct DependencyView {
    pub name: Seq<char>,
    pub source: Option<Seq<char>>,
}

/// The mathematical content of a package entry.
pub struct PackageView {
    pub name: Seq<char>,
    pub manifest_path: Seq<char>,
    pub version: Seq<char>,
    pub license: Option<Seq<char>>,
    pub description: Option<Seq<char>>,
    pub authors: Seq<Seq<char>>,
    pub repository: Option<Seq<char>>,
    pub dependencies: Seq<DependencyView>,
}

/// The mathematical content of a manifest document.
pub struct MetadataView {
    pub packages: Seq<PackageView>,
}

/// The characters of an optional string.
pub open spec fn opt_chars(v: Option<String>) -> Option<Seq<char>> {
    match v {
        Some(s) => Some(s@),
        None => None,
    }
}

impl View for Dependency {
    type V = DependencyView;

    open spec fn view(&self) -> DependencyView {
        DependencyView { name: self.name@, source: opt_chars(self.source) }
    }
}

impl View for Package {
    type V = PackageView;

    open spec fn view(&self) -> PackageView {
        PackageView {
            name: self.name@,
            manifest_path: self.manifest_path@,
            version: self.version@,
            license: opt_chars(self.license),
            description: opt_chars(self.description),
            authors: self.authors@.map_values(|a: String| a@),
            repository: opt_chars(self.repository),
            dependencies: self.dependencies@.map_values(|d: Dependency| d@),
        }
    }
}

impl View for Metadata {
    type V = MetadataView;

    open spec fn view(&self) -> MetadataView {
        MetadataView { packages: self.packages@.map_values(|p: Package| p@) }
    }
}

/// A recommended manifest field the completeness checker looks at.
#[derive(Debug, Clone, Copy, PartialEq, Eq, Structural)]
pub enum ManifestField {
    Authors,
    Description,
    License,
    Repository,
}

/// One entry of the manifest report.
#[derive(Debug, Clone, PartialEq, Eq)]
pub enum ManifestEntry {
    /// A package header: the package and where its manifest lives.
    Package { name: String, manifest_path: String },
    /// An advisory finding: a recommended field is absent or empty.
    MissingField { field: ManifestField },
    /// An informational line: a recommended field and its value.
    PresentField { field: ManifestField, value: String },
    /// A warning: a pinned dependency names a version tag that is not
    /// current.
    StaleDependency { dependency: String, tag: String },
    /// A finding: a dependency's source reference could not be parsed as a
    /// URL.
    MalformedSource { dependency: String },
}

/// The mathematical content of a manifest report entry.
pub enum EntryView {
    Package { name: Seq<char>, manifest_path: Seq<char> },
    MissingField { field: ManifestField },
    PresentField { field: ManifestField, value: Seq<char> },
    StaleDependency { dependency: Seq<char>, tag: Seq<char> },
    MalformedSource { dependency: Seq<char> },
}

impl View for ManifestEntry {
    type V = EntryView;

    open spec fn view(&self) -> EntryView {
        match self {
            ManifestEntry::Package { name, manifest_path } => EntryView::Package {
                name: name@,
                manifest_path: manifest_path@,
            },
            ManifestEntry::MissingField { field } => EntryView::MissingField { field: *field },
            ManifestEntry::PresentField { field, value } => EntryView::PresentField {
                field: *field,
                value: value@,
            },
            ManifestEntry::StaleDependency { dependency, tag } => EntryView::StaleDependency {
                dependency: dependency@,
                tag: tag@,
            },
            ManifestEntry::MalformedSource { dependency } => EntryView::MalformedSource {
                dependency: dependency@,
            },
        }
    }
}

/// Which recommended fields the completeness checker reports on: a
/// configurable check set, not a fixed list.
#[derive(Debug, Clone, Copy, PartialEq, Eq, Structural)]
pub struct FieldChecks {
    pub authors: bool,
    pub description: bool,
    pub license: bool,
    pub repository: bool,
}

/// The characters of each string.
pub open spec fn string_views(items: Seq<String>) -> Seq<Seq<char>> {
    items.map_values(|s: String| s@)
}

/// What the authors check reports: an advisory finding when the list is
/// empty, else the authors joined with ", ".
pub open spec fn authors_entry(p: Package) -> EntryView {
    if p.authors@.len() == 0 {
        EntryView::MissingField { field: ManifestField::Authors }
    } else {
        EntryView::PresentField {
            field: ManifestField::Authors,
            value: join(", "@, string_views(p.authors@)),
        }
    }
}

/// What the check of one optional field reports: an advisory finding when
/// absent, else the value.
pub open spec fn option_entry(field: ManifestField, v: Option<String>) -> EntryView {
    match v {
        None => EntryView::MissingField { field },
        Some(s) => EntryView::PresentField { field, value: s@ },
    }
}

/// The completeness findings of one package, in reporting order: authors,
/// description, license, repository - each only when its check is enabled.
pub open spec fn field_entries(p: Package, checks: FieldChecks) -> Seq<EntryView> {
    (if checks.authors {
        seq![authors_entry(p)]
    } else {
        Seq::<EntryView>::empty()
    }) + (if checks.description {
        seq![option_entry(ManifestField::Description, p.description)]
    } else {
        Seq::<EntryView>::empty()
    }) + (if checks.license {
        seq![option_entry(ManifestField::License, p.license)]
    } else {
        Seq::<EntryView>::empty()
    }) + (if checks.repository {
        seq![option_entry(ManifestField::Repository, p.repository)]
    } else {
        Seq::<EntryView>::empty()
    })
}

proof fn lemma_join_snoc(sep: Seq<char>, s: Seq<Seq<char>>, x: Seq<char>)
    ensures
        join(sep, s.push(x)) == if s.len() == 0 {
            x
        } else {
            join(sep, s) + sep + x
        },
    decreases s.len(),
{
    if s.len() == 0 {
        assert(s.push(x)[0] == x);
    } else {
        lemma_join_snoc(sep, s.skip(1), x);
        assert(s.push(x).skip(1) =~= s.skip(1).push(x));
        assert(s.push(x)[0] == s[0]);
        if s.len() == 1 {
            assert(s.skip(1).len() == 0);
        } else {
            assert(s[0] + sep + (join(sep, s.skip(1)) + sep + x) =~= (s[0] + sep + join(
                sep,
                s.skip(1),
            )) + sep + x);
        }
    }
}

/// The items joined into one string with `sep` between neighbours.
#[verifier::loop_isolation(false)]
pub fn join_strings(items: &Vec<String>, sep: &str) -> (r: String)
    ensures
        r@ == join(sep@, string_views(items@)),
{
    if items.len() == 0 {
        let r = String::new();
        return r;
    }
    let mut r = items[0].clone();
    let mut i: usize = 1;
    proof {
        assert(string_views(items@).take(1)[0] == items@[0]@);
        assert(r@ == join(sep@, string_views(items@).take(1)));
    }
    while i < items.len()
        invariant
            1 <= i <= items@.len(),
            r@ == join(sep@, string_views(items@).take(i as int)),
        decreases items@.len() - i,
    {
        r.append(sep);
        r.append(items[i].as_str());
        proof {
            lemma_join_snoc(sep@, string_views(items@).take(i as int), items@[i as int]@);
            assert(string_views(items@).take(i + 1) =~= string_views(items@).take(
                i as int,
            ).push(items@[i as int]@));
        }
        i = i + 1;
    }
    proof {
        assert(string_views(items@).take(i as int) =~= string_views(items@));
    }
    r
}

/// The completeness findings of one package under the enabled checks: one
/// advisory entry per absent or empty recommended field, one informational
/// entry with the value per present field, in reporting order.
#[verifier::loop_isolation(false)]
pub fn check_package_fields(p: &Package, checks: &FieldChecks) -> (r: Vec<ManifestEntry>)
    ensures
        r@.map_values(|e: ManifestEntry| e@) == field_entries(*p, *checks),
{
    let mut out: Vec<ManifestEntry> = Vec::new();
    if checks.authors {
        if p.authors.len() == 0 {
            out.push(ManifestEntry::MissingField { field: ManifestField::Authors });
        } else {
            let joined = join_strings(&p.authors, ", ");
            out.push(
                ManifestEntry::PresentField { field: ManifestField::Authors, value: joined },
            );
        }
    }
    if checks.description {
        match &p.description {
            None => out.push(ManifestEntry::MissingField { field: ManifestField::Description }),
            Some(d) => out.push(
                ManifestEntry::PresentField {
                    field: ManifestField::Description,
                    value: d.clone(),
                },
            ),
        }
    }
    if checks.license {
        match &p.license {
            None => out.push(ManifestEntry::MissingField { field: ManifestField::License }),
            Some(l) => out.push(
                ManifestEntry::PresentField { field: ManifestField::License, value: l.clone() },
            ),
        }
    }
    if checks.repository {
        match &p.repository {
            None => out.push(ManifestEntry::MissingField { field: ManifestField::Repository }),
            Some(u) => out.push(
                ManifestEntry::PresentField { field: ManifestField::Repository, value: u.clone() },
            ),
        }
    }
    proof {
        assert(out@.map_values(|e: ManifestEntry| e@) =~= field_entries(*p, *checks));
    }
    out
}

/// The whole report for one package: its header, then its completeness
/// findings, then its dependency audit.
pub open spec fn package_entries(
    p: Package,
    checks: FieldChecks,
    policy: StalenessPolicy,
) -> Seq<EntryView> {
    seq![EntryView::Package { name: p.name@, manifest_path: p.manifest_path@ }] + field_entries(
        p,
        checks,
    ) + package_dep_entries(p.dependencies@, policy)
}

/// The whole manifest report: each package's entries, in source order.
pub open spec fn packages_entries(
    ps: Seq<Package>,
    checks: FieldChecks,
    policy: StalenessPolicy,
) -> Seq<EntryView>
    decreases ps.len(),
{
    if ps.len() == 0 {
        Seq::<EntryView>::empty()
    } else {
        package_entries(ps[0], checks, policy) + packages_entries(ps.drop_first(), checks, policy)
    }
}

/// The report for one package: exactly the entries `package_entries`
/// describes, in order.
#[verifier::loop_isolation(false)]
pub fn report_package(p: &Package, checks: &FieldChecks, policy: &StalenessPolicy) -> (r: Vec<
    ManifestEntry,
>)
    requires
        policy_wf(*policy),
    ensures
        r@.map_values(|e: ManifestEntry| e@) == package_entries(*p, *checks, *policy),
{
    let mut out: Vec<ManifestEntry> = Vec::new();
    out.push(
        ManifestEntry::Package { name: p.name.clone(), manifest_path: p.manifest_path.clone() },
    );
    let mut fields = check_package_fields(p, checks);
    let ghost fields_view = fields@;
    out.append(&mut fields);
    let mut deps = check_package_dependencies(&p.dependencies, policy);
    let ghost deps_view = deps@;
    out.append(&mut deps);
    proof {
        assert(out@.map_values(|e: ManifestEntry| e@) =~= package_entries(*p, *checks, *policy));
    }
    out
}

proof fn lemma_packages_entries_snoc(
    ps: Seq<Package>,
    checks: FieldChecks,
    policy: StalenessPolicy,
    i: int,
)
    requires
        0 <= i < ps.len(),
    ensures
        packages_entries(ps.take(i + 1), checks, policy) == packages_entries(
            ps.take(i),
            checks,
            policy,
        ) + package_entries(ps[i], checks, policy),
    decreases i,
{
    if i == 0 {
        assert(ps.take(1)[0] == ps[0]);
        assert(ps.take(0) =~= Seq::<Package>::empty());
        assert(ps.take(1).drop_first() =~= ps.take(0));
        assert(packages_entries(ps.take(1), checks, policy) =~= packages_entries(
            ps.take(0),
            checks,
            policy,
        ) + package_entries(ps[0], checks, policy));
    } else {
        lemma_packages_entries_snoc(ps.drop_first(), checks, policy, i - 1);
        assert(ps.take(i + 1)[0] == ps[0]);
        assert(ps.take(i + 1).drop_first() =~= ps.drop_first().take(i));
        assert(ps.take(i)[0] == ps[0]);
        assert(ps.take(i).drop_first() =~= ps.drop_first().take(i - 1));
        assert(ps.drop_first()[i - 1] == ps[i]);
        assert(package_entries(ps[0], checks, policy) + (packages_entries(
            ps.drop_first().take(i - 1),
            checks,
            policy,
        ) + package_entries(ps[i], checks, policy)) =~= (package_entries(ps[0], checks, policy)
            + packages_entries(ps.drop_first().take(i - 1), checks, policy)) + package_entries(
            ps[i],
            checks,
            policy,
        ));
    }
}

/// The whole manifest report: each package's header, completeness findings,
/// and dependency audit, in source order.
#[verifier::loop_isolation(false)]
pub fn metadata_report(m: &Metadata, checks: &FieldChecks, policy: &StalenessPolicy) -> (r: Vec<
    ManifestEntry,
>)
    requires
        policy_wf(*policy),
    ensures
        r@.map_values(|e: ManifestEntry| e@) == packages_entries(m.packages@, *checks, *policy),
{
    let mut out: Vec<ManifestEntry> = Vec::new();
    let mut i: usize = 0;
    while i < m.packages.len()
        invariant
            i <= m.packages@.len(),
            out@.map_values(|e: ManifestEntry| e@) == packages_entries(
                m.packages@.take(i as int),
                *checks,
                *policy,
            ),
        decreases m.packages@.len() - i,
    {
        let mut entries = report_package(&m.packages[i], checks, policy);
        proof {
            lemma_packages_entries_snoc(m.packages@, *checks, *policy, i as int);
        }
        let ghost old_out = out@;
        let ghost new_entries = entries@;
        out.append(&mut entries);
        i = i + 1;
        proof {
            assert(out@.map_values(|e: ManifestEntry| e@) =~= old_out.map_values(
                |e: ManifestEntry| e@,
            ) + new_entries.map_values(|e: ManifestEntry| e@));
            assert(out@.map_values(|e: ManifestEntry| e@) =~= packages_entries(
                m.packages@.take(i as int),
                *checks,
                *policy,
            ));
        }
    }
    proof {
        assert(m.packages@.take(i as int) =~= m.packages@);
    }
    out
}

/// What a dependency object denotes, when well-shaped.
pub open spec fn spec_dependency(v: serde_json::Value) -> Option<DependencyView> {
    match (spec_string(v, "name"@), spec_opt_string(v, "source"@)) {
        (Some(n), Some(src)) => Some(DependencyView { name: n, source: src }),
        _ => None,
    }
}

/// Whether every element of an array is a string.
pub open spec fn strings_ok(items: Seq<serde_json::Value>) -> bool {
    forall|i: int| 0 <= i < items.len() ==> tree_as_str(#[trigger] items[i]) is Some
}

/// The strings of an all-string array.
pub open spec fn strings_of(items: Seq<serde_json::Value>) -> Seq<Seq<char>> {
    items.map_values(|e: serde_json::Value| tree_as_str(e)->0)
}

/// What an all-string array denotes, when well-shaped.
pub open spec fn spec_string_array(v: serde_json::Value) -> Option<Seq<Seq<char>>> {
    match tree_as_array(v) {
        Some(items) => if strings_ok(items) {
            Some(strings_of(items))
        } else {
            None
        },
        None => None,
    }
}

/// Whether every element of a dependencies array is well-shaped.
pub open spec fn deps_ok(items: Seq<serde_json::Value>) -> bool {
    forall|i: int| 0 <= i < items.len() ==> spec_dependency(#[trigger] items[i]) is Some
}

/// The dependencies of a dependencies array.
pub open spec fn deps_of(items: Seq<serde_json::Value>) -> Seq<DependencyView> {
    items.map_values(|e: serde_json::Value| spec_dependency(e)->0)
}

/// What a package object denotes, when well-shaped.
pub open spec fn spec_package(v: serde_json::Value) -> Option<PackageView> {
    if spec_string(v, "name"@) is Some && spec_string(v, "manifest_path"@) is Some && spec_string(
        v,
        "version"@,
    ) is Some && spec_opt_string(v, "license"@) is Some && spec_opt_string(
        v,
        "description"@,
    ) is Some && spec_opt_string(v, "repository"@) is Some && tree_get(v, "authors"@) is Some
        && spec_string_array(tree_get(v, "authors"@)->0) is Some && spec_array(
        v,
        "dependencies"@,
    ) is Some && deps_ok(spec_array(v, "dependencies"@)->0) {
        Some(
            PackageView {
                name: spec_string(v, "name"@)->0,
                manifest_path: spec_string(v, "manifest_path"@)->0,
                version: spec_string(v, "version"@)->0,
                license: spec_opt_string(v, "license"@)->0,
                description: spec_opt_string(v, "description"@)->0,
                authors: spec_string_array(tree_get(v, "authors"@)->0)->0,
                repository: spec_opt_string(v, "repository"@)->0,
                dependencies: deps_of(spec_array(v, "dependencies"@)->0),
            },
        )
    } else {
        None
    }
}

/// Whether every element of a packages array is well-shaped.
pub open spec fn packages_ok(items: Seq<serde_json::Value>) -> bool {
    forall|i: int| 0 <= i < items.len() ==> spec_package(#[trigger] items[i]) is Some
}

/// The packages of a packages array.
pub open spec fn packages_of(items: Seq<serde_json::Value>) -> Seq<PackageView> {
    items.map_values(|e: serde_json::Value| spec_package(e)->0)
}

/// What a manifest document tree denotes, when well-shaped.
pub open spec fn spec_metadata(v: serde_json::Value) -> Option<MetadataView> {
    match spec_array(v, "packages"@) {
        Some(items) => if packages_ok(items) {
            Some(MetadataView { packages: packages_of(items) })
        } else {
            None
        },
        None => None,
    }
}

fn parse_dependency(v: &serde_json::Value) -> (r: Result<Dependency, String>)
    ensures
        r is Ok <==> spec_dependency(*v) is Some,
        r matches Ok(d) ==> Some(d@) == spec_dependency(*v),
{
    let name = get_string(v, "name", "dependency name")?;
    let source = get_opt_string(v, "source", "dependency source")?;
    Ok(Dependency { name, source })
}

#[verifier::loop_isolation(false)]
fn parse_string_array(v: &serde_json::Value, what: &str) -> (r: Result<Vec<String>, String>)
    ensures
        r is Ok <==> spec_string_array(*v) is Some,
        r matches Ok(a) ==> Some(a@.map_values(|s: String| s@)) == spec_string_array(*v),
{
    match value_as_array(v) {
        None => Err(String::from_str("field is not an array: ").concat(what)),
        Some(items) => {
            let mut out: Vec<String> = Vec::new();
            let mut i: usize = 0;
            while i < items.len()
                invariant
                    i <= items@.len(),
                    forall|k: int| 0 <= k < i ==> tree_as_str(#[trigger] items@[k]) is Some,
                    out@.map_values(|s: String| s@) == strings_of(items@.take(i as int)),
                decreases items@.len() - i,
            {
                let ghost old_out = out@;
                match value_as_str(&items[i]) {
                    None => {
                        proof {
                            assert(!strings_ok(items@));
                        }
                        return Err(String::from_str("element is not a string: ").concat(what));
                    },
                    Some(s) => {
                        proof {
                            assert(Some(s@) == tree_as_str(items@[i as int]));
                        }
                        out.push(s.to_owned());
                    },
                }
                i = i + 1;
                proof {
                    let f = |s: String| s@;
                    assert forall|k: int|
                        0 <= k < i implies out@.map_values(f)[k] == strings_of(
                        items@.take(i as int),
                    )[k] by {
                        assert(strings_of(items@.take(i as int))[k] == tree_as_str(items@[k])->0);
                        if k < i - 1 {
                            assert(out@[k] == old_out[k]);
                            assert(old_out.map_values(f)[k] == strings_of(items@.take(i - 1))[k]);
                        }
                    }
                    assert(out@.map_values(f) =~= strings_of(items@.take(i as int)));
                }
            }
            proof {
                assert(items@.take(i as int) =~= items@);
            }
            Ok(out)
        },
    }
}

#[verifier::loop_isolation(false)]
fn parse_package(v: &serde_json::Value) -> (r: Result<Package, String>)
    ensures
        r is Ok <==> spec_package(*v) is Some,
        r matches Ok(p) ==> Some(p@) == spec_package(*v),
{
    let name = get_string(v, "name", "package name")?;
    let manifest_path = get_string(v, "manifest_path", "package manifest_path")?;
    let version = get_string(v, "version", "package version")?;
    let license = get_opt_string(v, "license", "package license")?;
    let description = get_opt_string(v, "description", "package description")?;
    let repository = get_opt_string(v, "repository", "package repository")?;
    let authors = match value_get(v, "authors") {
        None => {
            return Err(String::from_str("missing array field: authors"));
        },
        Some(a) => parse_string_array(a, "authors")?,
    };
    let mut dependencies: Vec<Dependency> = Vec::new();
    match value_get(v, "dependencies") {
        None => {
            return Err(String::from_str("missing array field: dependencies"));
        },
        Some(d) => match value_as_array(d) {
            None => {
                return Err(String::from_str("field is not an array: dependencies"));
            },
            Some(items) => {
                let mut i: usize = 0;
                while i < items.len()
                    invariant
                        i <= items@.len(),
                        forall|k: int| 0 <= k < i ==> spec_dependency(#[trigger] items@[k]) is Some,
                        dependencies@.map_values(|d: Dependency| d@) == deps_of(
                            items@.take(i as int),
                        ),
                    decreases items@.len() - i,
                {
                    let ghost old_deps = dependencies@;
                    match parse_dependency(&items[i]) {
                        Err(e) => {
                            proof {
                                assert(!deps_ok(items@));
                            }
                            return Err(e);
                        },
                        Ok(dep) => {
                            proof {
                                assert(Some(dep@) == spec_dependency(items@[i as int]));
                            }
                            dependencies.push(dep);
                        },
                    }
                    i = i + 1;
                    proof {
                        let f = |d: Dependency| d@;
                        assert forall|k: int|
                            0 <= k < i implies dependencies@.map_values(f)[k] == deps_of(
                            items@.take(i as int),
                        )[k] by {
                            assert(deps_of(items@.take(i as int))[k] == spec_dependency(
                                items@[k],
                            )->0);
                            if k < i - 1 {
                                assert(dependencies@[k] == old_deps[k]);
                                assert(old_deps.map_values(f)[k] == deps_of(
                                    items@.take(i - 1),
                                )[k]);
                            }
                        }
                        assert(dependencies@.map_values(f) =~= deps_of(items@.take(i as int)));
                    }
                }
                proof {
                    assert(items@.take(i as int) =~= items@);
                }
            },
        },
    }
    let p = Package {
        name,
        manifest_path,
        version,
        license,
        description,
        authors,
        repository,
        dependencies,
    };
    proof {
        assert(Some(p@) == spec_package(*v));
    }
    Ok(p)
}

/// What a manifest document string denotes: nothing when it is not
/// well-formed JSON or not a well-shaped document, else its packages.
pub open spec fn doc_metadata(s: Seq<char>) -> Option<MetadataView> {
    if json_parses(s) {
        spec_metadata(json_tree(s))
    } else {
        None
    }
}

/// The manifest document parsed whole: exactly the document the string
/// denotes. A document that is not well-formed JSON, or whose shape is
/// wrong, is a single error that is fatal to the manifest pipeline: no
/// per-package output is produced.
#[verifier::loop_isolation(false)]
pub fn parse_metadata(doc: &str) -> (r: Result<Metadata, String>)
    ensures
        r is Ok <==> doc_metadata(doc@) is Some,
        r matches Ok(m) ==> Some(m@) == doc_metadata(doc@),
{
    let v = match json_parse(doc) {
        Ok(v) => v,
        Err(e) => {
            return Err(e);
        },
    };
    let mut packages: Vec<Package> = Vec::new();
    match value_get(&v, "packages") {
        None => {
            return Err(String::from_str("missing array field: packages"));
        },
        Some(p) => match value_as_array(p) {
            None => {
                return Err(String::from_str("field is not an array: packages"));
            },
            Some(items) => {
                let mut i: usize = 0;
                while i < items.len()
                    invariant
                        i <= items@.len(),
                        forall|k: int| 0 <= k < i ==> spec_package(#[trigger] items@[k]) is Some,
                        packages@.map_values(|p: Package| p@) == packages_of(
                            items@.take(i as int),
                        ),
                    decreases items@.len() - i,
                {
                    let ghost old_packages = packages@;
                    match parse_package(&items[i]) {
                        Err(e) => {
                            proof {
                                assert(!packages_ok(items@));
                            }
                            return Err(e);
                        },
                        Ok(package) => {
                            proof {
                                assert(Some(package@) == spec_package(items@[i as int]));
                            }
                            packages.push(package);
                        },
                    }
                    i = i + 1;
                    proof {
                        let f = |p: Package| p@;
                        assert forall|k: int|
                            0 <= k < i implies packages@.map_values(f)[k] == packages_of(
                            items@.take(i as int),
                        )[k] by {
                            assert(packages_of(items@.take(i as int))[k] == spec_package(
                                items@[k],
                            )->0);
                            if k < i - 1 {
                                assert(packages@[k] == old_packages[k]);
                                assert(old_packages.map_values(f)[k] == packages_of(
                                    items@.take(i - 1),
                                )[k]);
                            }
                        }
                        assert(packages@.map_values(f) =~= packages_of(items@.take(i as int)));
                    }
                }
                proof {
                    assert(items@.take(i as int) =~= items@);
                }
            },
        },
    }
    let m = Metadata { packages };
    proof {
        assert(Some(m@) == doc_metadata(doc@));
    }
    Ok(m)
}

/// The whole manifest pipeline for one run: the document parsed, then every
/// package checked and audited. A document denoting no well-shaped manifest
/// is one error and no entries; a well-shaped one yields exactly the report
/// of the packages it denotes.
pub fn analyze_manifests(doc: &str, checks: &FieldChecks, policy: &StalenessPolicy) -> (r: Result<
    Vec<ManifestEntry>,
    String,
>)
    requires
        policy_wf(*policy),
    ensures
        r is Ok <==> doc_metadata(doc@) is Some,
        r matches Ok(entries) ==> exists|m: Metadata|
            Some(m@) == doc_metadata(doc@) && entries@.map_values(|e: ManifestEntry| e@)
                == packages_entries(m.packages@, *checks, *policy),
{
    match parse_metadata(doc) {
        Err(e) => Err(e),
        Ok(m) => {
            let entries = metadata_report(&m, checks, policy);
            proof {
                let ghost mm = m;
                assert(Some(mm@) == doc_metadata(doc@) && entries@.map_values(
                    |e: ManifestEntry| e@,
                ) == packages_entries(mm.packages@, *checks, *policy));
            }
            Ok(entries)
        },
    }
}

} // verus!
