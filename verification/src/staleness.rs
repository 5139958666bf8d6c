//! The dependency staleness evaluator: a dependency whose source reference
//! starts with the configured ecosystem prefix is audited - the reference,
//! with its source-kind marker dropped, is parsed as a URL, every `branch`
//! query parameter is extracted, and each branch value that is not in the set
//! of current tags yields one warning. A source not matching the prefix is
//! out of scope and silently skipped; one matching it but unparsable as a URL
//! is a finding for that dependency alone, and the scan goes on.
use vstd::prelude::*;

use crate::manifest::Dependency;
use crate::manifest::EntryView;
use crate::manifest::ManifestEntry;
use crate::text::is_prefix;
use crate::text::has_prefix;
use crate::text::str_eq;

verus! {

/// The audit's configuration: the source-reference prefix that identifies
/// the audited ecosystem (carrying the `git+` source-kind marker that is
/// dropped before URL parsing), and the set of version tags considered
/// current.
#[derive(Debug, Clone, PartialEq, Eq)]
pub struct StalenessPolicy {
    pub source_prefix: String,
    pub current_tags: Vec<String>,
}

/// A usable policy: the prefix is at least as long as the `git+` source-kind
/// marker it begins with, so a matching source can have the marker dropped.
pub open spec fn policy_wf(p: StalenessPolicy) -> bool {
    p.source_prefix@.len() >= 4
}

/// Whether a string parses as a URL; what the outside parser accepts depends
/// on the string alone.
pub uninterp spec fn url_parses(s: Seq<char>) -> bool;

/// The query parameters of the URL written in a string, as key-value pairs
/// in order of occurrence.
pub uninterp spec fn url_pairs(s: Seq<char>) -> Seq<(Seq<char>, Seq<char>)>;

/// The characters of each pair of strings.
pub open spec fn pair_views(ps: Seq<(String, String)>) -> Seq<(Seq<char>, Seq<char>)> {
    ps.map_values(|p: (String, String)| (p.0@, p.1@))
}

/// Relies on url::Url::parse and url::Url::query_pairs: parsing succeeds on
/// well-formed URLs and the decoded query pairs come back in order of
/// occurrence; both depend on the input string alone.
#[verifier::external_body]
fn parse_query_pairs(s: &str) -> (r: Option<Vec<(String, String)>>)
    ensures
        r is Some <==> url_parses(s@),
        r matches Some(ps) ==> pair_views(ps@) == url_pairs(s@),
{
    match url::Url::parse(s) {
        Ok(u) => Some(u.query_pairs().map(|(k, v)| (k.into_owned(), v.into_owned())).collect()),
        Err(_) => None,
    }
}

/// The characters of each string.
pub open spec fn tag_views(tags: Seq<String>) -> Seq<Seq<char>> {
    tags.map_values(|t: String| t@)
}

/// A query pair that warrants a warning: a `branch` parameter whose value is
/// not a current tag.
pub open spec fn stale_pair(p: (Seq<char>, Seq<char>), tags: Seq<Seq<char>>) -> bool {
    p.0 == "branch"@ && !tags.contains(p.1)
}

/// The warnings for one dependency's query pairs: one per stale `branch`
/// value, in order of occurrence.
pub open spec fn stale_entries(
    name: Seq<char>,
    pairs: Seq<(Seq<char>, Seq<char>)>,
    tags: Seq<Seq<char>>,
) -> Seq<EntryView> {
    pairs.filter(|p: (Seq<char>, Seq<char>)| stale_pair(p, tags)).map_values(
        |p: (Seq<char>, Seq<char>)| EntryView::StaleDependency { dependency: name, tag: p.1 },
    )
}

/// What the audit reports for one dependency: nothing when the source is
/// absent or out of scope; a malformed-source finding when the in-scope
/// source does not parse as a URL; else one warning per stale branch tag.
pub open spec fn dep_entries(d: Dependency, policy: StalenessPolicy) -> Seq<EntryView> {
    match d.source {
        None => Seq::<EntryView>::empty(),
        Some(src) => if !is_prefix(policy.source_prefix@, src@) {
            Seq::<EntryView>::empty()
        } else if !url_parses(src@.skip(4)) {
            seq![EntryView::MalformedSource { dependency: d.name@ }]
        } else {
            stale_entries(d.name@, url_pairs(src@.skip(4)), tag_views(policy.current_tags@))
        },
    }
}

/// What the audit reports for a package's dependency list: each dependency's
/// entries in order, independently of the others.
pub open spec fn package_dep_entries(deps: Seq<Dependency>, policy: StalenessPolicy) -> Seq<
    EntryView,
>
    decreases deps.len(),
{
    if deps.len() == 0 {
        Seq::<EntryView>::empty()
    } else {
        dep_entries(deps[0], policy) + package_dep_entries(deps.drop_first(), policy)
    }
}

fn tag_member(tags: &Vec<String>, v: &str) -> (r: bool)
    ensures
        r == tag_views(tags@).contains(v@),
{
    let mut i: usize = 0;
    while i < tags.len()
        invariant
            i <= tags@.len(),
            forall|k: int| 0 <= k < i ==> (#[trigger] tags@[k])@ != v@,
        decreases tags@.len() - i,
    {
        if str_eq(tags[i].as_str(), v) {
            assert(tag_views(tags@)[i as int] == v@);
            assert(tag_views(tags@).contains(tag_views(tags@)[i as int]));
            return true;
        }
        i = i + 1;
    }
    assert forall|t: Seq<char>| tag_views(tags@).contains(t) implies t != v@ by {
        let k = choose|k: int| 0 <= k < tag_views(tags@).len() && tag_views(tags@)[k] == t;
        assert(tags@[k]@ == t);
    }
    false
}

proof fn lemma_stale_filter_singleton(x: (Seq<char>, Seq<char>), tags: Seq<Seq<char>>)
    ensures
        seq![x].filter(|p: (Seq<char>, Seq<char>)| stale_pair(p, tags)) == if stale_pair(x, tags) {
            seq![x]
        } else {
            Seq::<(Seq<char>, Seq<char>)>::empty()
        },
{
    reveal_with_fuel(Seq::filter, 2);
    assert(seq![x].drop_last() =~= Seq::<(Seq<char>, Seq<char>)>::empty());
}

proof fn lemma_stale_entries_step(
    name: Seq<char>,
    pairs: Seq<(Seq<char>, Seq<char>)>,
    tags: Seq<Seq<char>>,
    i: int,
)
    requires
        0 <= i < pairs.len(),
    ensures
        stale_entries(name, pairs.take(i + 1), tags) == if stale_pair(pairs[i], tags) {
            stale_entries(name, pairs.take(i), tags).push(
                EntryView::StaleDependency { dependency: name, tag: pairs[i].1 },
            )
        } else {
            stale_entries(name, pairs.take(i), tags)
        },
{
    let pred = |p: (Seq<char>, Seq<char>)| stale_pair(p, tags);
    let pre = pairs.take(i);
    let x = pairs[i];
    assert(pairs.take(i + 1) =~= pre + seq![x]);
    Seq::filter_distributes_over_add(pre, seq![x], pred);
    lemma_stale_filter_singleton(x, tags);
    if stale_pair(x, tags) {
        assert(pre.filter(pred) + seq![x] =~= pre.filter(pred).push(x));
        assert(stale_entries(name, pairs.take(i + 1), tags) =~= stale_entries(
            name,
            pre,
            tags,
        ).push(EntryView::StaleDependency { dependency: name, tag: x.1 }));
    } else {
        assert(pre.filter(pred) + Seq::<(Seq<char>, Seq<char>)>::empty() =~= pre.filter(pred));
    }
}

/// The audit of one dependency: exactly the entries `dep_entries` describes
/// - silence for an out-of-scope source, one malformed-source finding for an
/// in-scope source that is no URL, and one warning per stale `branch` tag
/// otherwise.
#[verifier::loop_isolation(false)]
pub fn check_dependency(d: &Dependency, policy: &StalenessPolicy) -> (r: Vec<ManifestEntry>)
    requires
        policy_wf(*policy),
    ensures
        r@.map_values(|e: ManifestEntry| e@) == dep_entries(*d, *policy),
{
    let mut out: Vec<ManifestEntry> = Vec::new();
    match &d.source {
        None => {},
        Some(src) => {
            if has_prefix(src.as_str(), policy.source_prefix.as_str()) {
                let len = src.as_str().unicode_len();
                let rest = src.as_str().substring_char(4, len);
                proof {
                    assert(rest@ =~= src@.skip(4));
                }
                match parse_query_pairs(rest) {
                    None => {
                        out.push(ManifestEntry::MalformedSource { dependency: d.name.clone() });
                    },
                    Some(pairs) => {
                        let ghost views = pair_views(pairs@);
                        let ghost tags = tag_views(policy.current_tags@);
                        let mut i: usize = 0;
                        while i < pairs.len()
                            invariant
                                i <= pairs@.len(),
                                views == pair_views(pairs@),
                                tags == tag_views(policy.current_tags@),
                                views == url_pairs(src@.skip(4)),
                                out@.map_values(|e: ManifestEntry| e@) == stale_entries(
                                    d.name@,
                                    views.take(i as int),
                                    tags,
                                ),
                            decreases pairs@.len() - i,
                        {
                            proof {
                                assert(views[i as int] == (pairs@[i as int].0@, pairs@[i
                                    as int].1@));
                                lemma_stale_entries_step(d.name@, views, tags, i as int);
                            }
                            let is_branch = str_eq(pairs[i].0.as_str(), "branch");
                            if is_branch && !tag_member(&policy.current_tags, pairs[i].1.as_str()) {
                                out.push(
                                    ManifestEntry::StaleDependency {
                                        dependency: d.name.clone(),
                                        tag: pairs[i].1.clone(),
                                    },
                                );
                            }
                            i = i + 1;
                            proof {
                                assert(out@.map_values(|e: ManifestEntry| e@) =~= stale_entries(
                                    d.name@,
                                    views.take(i as int),
                                    tags,
                                ));
                            }
                        }
                        proof {
                            assert(views.take(i as int) =~= views);
                        }
                    },
                }
            }
        },
    }
    proof {
        assert(out@.map_values(|e: ManifestEntry| e@) =~= dep_entries(*d, *policy));
    }
    out
}

proof fn lemma_package_dep_entries_snoc(deps: Seq<Dependency>, policy: StalenessPolicy, i: int)
    requires
        0 <= i < deps.len(),
    ensures
        package_dep_entries(deps.take(i + 1), policy) == package_dep_entries(deps.take(i), policy)
            + dep_entries(deps[i], policy),
    decreases i,
{
    if i == 0 {
        assert(deps.take(1)[0] == deps[0]);
        assert(deps.take(0) =~= Seq::<Dependency>::empty());
        assert(deps.take(1).drop_first() =~= deps.take(0));
        assert(package_dep_entries(deps.take(1), policy) =~= package_dep_entries(
            deps.take(0),
            policy,
        ) + dep_entries(deps[0], policy));
    } else {
        lemma_package_dep_entries_snoc(deps.drop_first(), policy, i - 1);
        assert(deps.take(i + 1)[0] == deps[0]);
        assert(deps.take(i + 1).drop_first() =~= deps.drop_first().take(i));
        assert(deps.take(i)[0] == deps[0]);
        assert(deps.take(i).drop_first() =~= deps.drop_first().take(i - 1));
        assert(deps.drop_first()[i - 1] == deps[i]);
        assert(dep_entries(deps[0], policy) + (package_dep_entries(
            deps.drop_first().take(i - 1),
            policy,
        ) + dep_entries(deps[i], policy)) =~= (dep_entries(deps[0], policy)
            + package_dep_entries(deps.drop_first().take(i - 1), policy)) + dep_entries(
            deps[i],
            policy,
        ));
    }
}

/// The audit of a package's dependency list: each dependency's entries, in
/// source order.
#[verifier::loop_isolation(false)]
pub fn check_package_dependencies(deps: &Vec<Dependency>, policy: &StalenessPolicy) -> (r: Vec<
    ManifestEntry,
>)
    requires
        policy_wf(*policy),
    ensures
        r@.map_values(|e: ManifestEntry| e@) == package_dep_entries(deps@, *policy),
{
    let mut out: Vec<ManifestEntry> = Vec::new();
    let mut i: usize = 0;
    while i < deps.len()
        invariant
            i <= deps@.len(),
            out@.map_values(|e: ManifestEntry| e@) == package_dep_entries(
                deps@.take(i as int),
                *policy,
            ),
        decreases deps@.len() - i,
    {
        let mut entries = check_dependency(&deps[i], policy);
        proof {
            lemma_package_dep_entries_snoc(deps@, *policy, i as int);
        }
        let ghost old_out = out@;
        let ghost new_entries = entries@;
        out.append(&mut entries);
        i = i + 1;
        proof {
            assert(out@ == old_out + new_entries);
            assert(out@.map_values(|e: ManifestEntry| e@) =~= old_out.map_values(
                |e: ManifestEntry| e@,
            ) + new_entries.map_values(|e: ManifestEntry| e@));
            assert(out@.map_values(|e: ManifestEntry| e@) =~= package_dep_entries(
                deps@.take(i as int),
                *policy,
            ));
        }
    }
    proof {
        assert(deps@.take(i as int) =~= deps@);
    }
    out
}

/// One dependency's audit is isolated: the report of a dependency list is
/// the concatenation of what comes before a dependency, that dependency's
/// own entries, and what comes after - so a malformed source in one
/// dependency cannot affect, or stop, the audit of the others.
pub proof fn lemma_dependency_isolation(deps: Seq<Dependency>, policy: StalenessPolicy, i: int)
    requires
        0 <= i < deps.len(),
    ensures
        package_dep_entries(deps, policy) == package_dep_entries(deps.take(i), policy)
            + dep_entries(deps[i], policy) + package_dep_entries(deps.skip(i + 1), policy),
    decreases deps.len(),
{
    if deps.len() > 0 {
        if i == 0 {
            assert(deps.take(0) =~= Seq::<Dependency>::empty());
            assert(deps.skip(1) =~= deps.drop_first());
            assert(package_dep_entries(deps.take(0), policy) + dep_entries(deps[0], policy)
                + package_dep_entries(deps.skip(1), policy) =~= dep_entries(deps[0], policy)
                + package_dep_entries(deps.drop_first(), policy));
        } else {
            lemma_dependency_isolation(deps.drop_first(), policy, i - 1);
            assert(deps.drop_first().take(i - 1) =~= deps.take(i).drop_first());
            assert(deps.drop_first().skip(i) =~= deps.skip(i + 1));
            assert(deps.drop_first()[i - 1] == deps[i]);
            assert(deps.take(i)[0] == deps[0]);
            let a = dep_entries(deps[0], policy);
            let b = package_dep_entries(deps.take(i).drop_first(), policy);
            let c = dep_entries(deps[i], policy);
            let e = package_dep_entries(deps.skip(i + 1), policy);
            assert(package_dep_entries(deps.take(i), policy) == a + b);
            assert(a + (b + c + e) =~= (a + b) + c + e);
        }
    }
}

} // verus!
