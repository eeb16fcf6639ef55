//! Classification of each declared dependency against the registry's versions, and
//! the positioned diagnostics that report it.
use vstd::prelude::*;
use vstd::string::*;
use vstd::utf8::encode_utf8;
use crate::cache::{cached_versions, VersionCache};
use crate::registry::views;
use crate::text::{is_boundary, is_offset_of, offset_to_pos, Range};

verus! {

/// A dependency as the manifest declares it: its name, the byte span of the name's
/// key, the version requirement, and whether it has no registry identity of its own
/// (a local path, or a dependency inherited from the workspace).
#[derive(Clone, Debug)]
pub struct DependencyEntry {
    pub name: String,
    pub start: usize,
    pub end: usize,
    pub requirement: String,
    pub is_path: bool,
}

/// How a requirement relates to the published versions.
#[derive(Clone, Copy, Debug, PartialEq, Eq, Structural)]
pub enum Classification {
    /// No published version is known: the fetch failed or the package has none.
    Unresolvable,
    /// The requirement is `*`.
    AnyVersion,
    /// The newest version matches.
    Latest,
    /// Only an older version matches.
    Outdated,
    /// No version matches.
    UnknownVersion,
}

/// How prominently a diagnostic is shown.
#[derive(Clone, Copy, Debug, PartialEq, Eq, Structural)]
pub enum Severity {
    Error,
    Warning,
    Information,
    Hint,
}

/// A positioned report on one dependency.
#[derive(Clone, Debug)]
pub struct Diagnostic {
    pub range: Range,
    pub severity: Severity,
    pub message: String,
    pub dependency: String,
}

/// `version` starts with `requirement`, byte for byte.
pub open spec fn has_prefix(version: Seq<char>, requirement: Seq<char>) -> bool {
    let v = encode_utf8(version);
    let q = encode_utf8(requirement);
    q.len() <= v.len() && v.subrange(0, q.len() as int) == q
}

/// The classification of `requirement` against versions listed newest first.
pub open spec fn classification_of(newest_first: Seq<Seq<char>>, requirement: Seq<char>) -> Classification {
    if newest_first.len() == 0 {
        Classification::Unresolvable
    } else if requirement == seq!['*'] {
        Classification::AnyVersion
    } else if has_prefix(newest_first[0], requirement) {
        Classification::Latest
    } else if exists|i: int| 0 <= i < newest_first.len() && has_prefix(newest_first[i], requirement) {
        Classification::Outdated
    } else {
        Classification::UnknownVersion
    }
}

pub open spec fn severity_of(c: Classification) -> Severity {
    match c {
        Classification::Unresolvable => Severity::Error,
        Classification::AnyVersion => Severity::Information,
        Classification::Latest => Severity::Hint,
        Classification::Outdated => Severity::Warning,
        Classification::UnknownVersion => Severity::Error,
    }
}

pub open spec fn label_of(c: Classification) -> Seq<char> {
    match c {
        Classification::Unresolvable => "Unknown/Unresolvable Version"@,
        Classification::AnyVersion => "Matches any Version"@,
        Classification::Latest => "Latest Version"@,
        Classification::Outdated => "Outdated Version"@,
        Classification::UnknownVersion => "Unknown Version"@,
    }
}

/// The lines of `vs`, joined by line breaks.
pub open spec fn joined(vs: Seq<Seq<char>>) -> Seq<char>
    decreases vs.len(),
{
    if vs.len() == 0 {
        Seq::empty()
    } else if vs.len() == 1 {
        vs[0]
    } else {
        joined(vs.drop_last()) + seq!['\n'] + vs.last()
    }
}

/// The message of a diagnostic: the label, the dependency with its requirement, and
/// the versions newest first.
pub open spec fn message_of(
    name: Seq<char>,
    requirement: Seq<char>,
    newest_first: Seq<Seq<char>>,
    c: Classification,
) -> Seq<char> {
    label_of(c) + seq!['\n', '\n'] + name + seq![' ', '('] + requirement + seq![')', '\n'] + joined(
        newest_first,
    )
}

/// `vs` in the opposite order.
pub open spec fn reversed(vs: Seq<Seq<char>>) -> Seq<Seq<char>> {
    Seq::new(vs.len(), |i: int| vs[vs.len() - 1 - i])
}

/// The entries that get a diagnostic, in order: those that name a registry package
/// and whose span starts and ends on character boundaries of the text.
pub open spec fn reported(text: Seq<u8>, es: Seq<DependencyEntry>) -> Seq<DependencyEntry>
    decreases es.len(),
{
    if es.len() == 0 {
        Seq::empty()
    } else {
        let e = es.last();
        reported(text, es.drop_last()) + if !e.is_path && is_boundary(text, e.start as int)
            && is_boundary(text, e.end as int) {
            seq![e]
        } else {
            Seq::<DependencyEntry>::empty()
        }
    }
}

/// `d` is the diagnostic of entry `e` of `text`, with the versions that cache `c` holds.
pub open spec fn diagnostic_matches(
    text: Seq<u8>,
    c: Map<Seq<char>, Seq<Seq<char>>>,
    e: DependencyEntry,
    d: Diagnostic,
) -> bool {
    let vs = reversed(cached_versions(c, e.name@));
    let cl = classification_of(vs, e.requirement@);
    &&& is_offset_of(text, d.range.start, e.start as int)
    &&& is_offset_of(text, d.range.end, e.end as int)
    &&& d.severity == severity_of(cl)
    &&& d.message@ == message_of(e.name@, e.requirement@, vs, cl)
    &&& d.dependency@ == e.name@
}

/// Whether `version` starts with `requirement`, byte for byte.
pub fn starts_with(version: &str, requirement: &str) -> (r: bool)
    ensures
        r == has_prefix(version@, requirement@),
{
    let v = version.as_bytes();
    let q = requirement.as_bytes();
    assert(v@ == encode_utf8(version@));
    assert(q@ == encode_utf8(requirement@));
    if q.len() > v.len() {
        return false;
    }
    let mut i: usize = 0;
    while i < q.len()
        invariant
            q@.len() <= v@.len(),
            v@ == encode_utf8(version@),
            q@ == encode_utf8(requirement@),
            i <= q@.len(),
            forall|j: int| 0 <= j < i ==> v@[j] == q@[j],
        decreases q@.len() - i,
    {
        if v[i] != q[i] {
            assert(v@.subrange(0, q@.len() as int)[i as int] != q@[i as int]);
            return false;
        }
        i = i + 1;
    }
    assert(v@.subrange(0, q@.len() as int) =~= q@);
    true
}

/// The classification of `requirement` against `newest_first`, the published versions
/// newest first: the first version that starts with the requirement decides.
pub fn classify(newest_first: &Vec<String>, requirement: &str) -> (r: Classification)
    ensures
        r == classification_of(views(newest_first@), requirement@),
{
    let ghost vs = views(newest_first@);
    if newest_first.len() == 0 {
        return Classification::Unresolvable;
    }
    if requirement.unicode_len() == 1 && requirement.get_char(0) == '*' {
        assert(requirement@ =~= seq!['*']);
        return Classification::AnyVersion;
    }
    assert(requirement@ != seq!['*']) by {
        if requirement@ == seq!['*'] {
            assert(requirement@.len() == 1 && requirement@[0] == '*');
        }
    }
    let mut i: usize = 0;
    while i < newest_first.len()
        invariant
            i <= newest_first@.len(),
            vs == views(newest_first@),
            newest_first@.len() > 0,
            requirement@ != seq!['*'],
            forall|j: int| 0 <= j < i ==> !has_prefix(vs[j], requirement@),
        decreases newest_first@.len() - i,
    {
        assert(vs[i as int] == newest_first@[i as int]@);
        if starts_with(newest_first[i].as_str(), requirement) {
            assert(has_prefix(vs[i as int], requirement@));
            if i == 0 {
                return Classification::Latest;
            } else {
                return Classification::Outdated;
            }
        }
        i = i + 1;
    }
    Classification::UnknownVersion
}

/// How prominently a classification is reported.
pub fn severity(c: Classification) -> (r: Severity)
    ensures
        r == severity_of(c),
{
    match c {
        Classification::Unresolvable => Severity::Error,
        Classification::AnyVersion => Severity::Information,
        Classification::Latest => Severity::Hint,
        Classification::Outdated => Severity::Warning,
        Classification::UnknownVersion => Severity::Error,
    }
}

fn label(c: Classification) -> (r: &'static str)
    ensures
        r@ == label_of(c),
{
    match c {
        Classification::Unresolvable => "Unknown/Unresolvable Version",
        Classification::AnyVersion => "Matches any Version",
        Classification::Latest => "Latest Version",
        Classification::Outdated => "Outdated Version",
        Classification::UnknownVersion => "Unknown Version",
    }
}

/// The versions joined by line breaks.
pub fn join_lines(vs: &Vec<String>) -> (r: String)
    ensures
        r@ == joined(views(vs@)),
{
    let mut r = String::new();
    let mut i: usize = 0;
    while i < vs.len()
        invariant
            i <= vs@.len(),
            r@ == joined(views(vs@.subrange(0, i as int))),
        decreases vs@.len() - i,
    {
        let ghost prev = views(vs@.subrange(0, i as int));
        let ghost next = views(vs@.subrange(0, i as int + 1));
        assert(next.drop_last() =~= prev);
        if i > 0 {
            proof { reveal_strlit("\n"); }
            r.append("\n");
        } else {
            assert(prev =~= Seq::<Seq<char>>::empty());
        }
        r.append(vs[i].as_str());
        i = i + 1;
        assert(r@ =~= joined(next));
    }
    assert(vs@.subrange(0, vs@.len() as int) =~= vs@);
    r
}

/// The message that reports dependency `name` with `requirement`, classified as `c`
/// against `newest_first`.
pub fn message(name: &str, requirement: &str, newest_first: &Vec<String>, c: Classification) -> (r: String)
    ensures
        r@ == message_of(name@, requirement@, views(newest_first@), c),
{
    let mut r = label(c).to_owned();
    proof {
        reveal_strlit("\n\n");
        reveal_strlit(" (");
        reveal_strlit(")\n");
    }
    r.append("\n\n");
    r.append(name);
    r.append(" (");
    r.append(requirement);
    r.append(")\n");
    let lines = join_lines(newest_first);
    r.append(lines.as_str());
    r
}

/// The versions newest first.
pub fn newest_first(oldest_first: &Vec<String>) -> (r: Vec<String>)
    ensures
        views(r@) == reversed(views(oldest_first@)),
{
    let mut r: Vec<String> = Vec::new();
    let n = oldest_first.len();
    let mut i: usize = n;
    while i > 0
        invariant
            i <= n == oldest_first@.len(),
            views(r@) == reversed(views(oldest_first@)).subrange(0, (n - i) as int),
        decreases i,
    {
        let ghost before = views(r@);
        i = i - 1;
        r.push(oldest_first[i].clone());
        assert(views(r@) =~= before.push(oldest_first@[i as int]@));
        assert(views(r@) =~= reversed(views(oldest_first@)).subrange(0, (n - i) as int));
    }
    assert(reversed(views(oldest_first@)).subrange(0, n as int) =~= reversed(views(oldest_first@)));
    r
}

/// The names of the entries that name a registry package, in order.
pub open spec fn registry_names(es: Seq<DependencyEntry>) -> Seq<Seq<char>>
    decreases es.len(),
{
    if es.len() == 0 {
        Seq::empty()
    } else {
        registry_names(es.drop_last()) + if es.last().is_path {
            Seq::<Seq<char>>::empty()
        } else {
            seq![es.last().name@]
        }
    }
}

/// The names to resolve: those of the entries that name a registry package.
pub fn resolution_names(entries: &Vec<DependencyEntry>) -> (r: Vec<String>)
    ensures
        views(r@) == registry_names(entries@),
{
    let mut r: Vec<String> = Vec::new();
    let mut i: usize = 0;
    while i < entries.len()
        invariant
            i <= entries@.len(),
            views(r@) == registry_names(entries@.subrange(0, i as int)),
        decreases entries@.len() - i,
    {
        let ghost before = views(r@);
        assert(entries@.subrange(0, i as int + 1).drop_last() =~= entries@.subrange(0, i as int));
        if !entries[i].is_path {
            r.push(entries[i].name.clone());
            assert(views(r@) =~= before + seq![entries@[i as int].name@]);
        } else {
            assert(views(r@) =~= before + Seq::<Seq<char>>::empty());
        }
        i = i + 1;
    }
    assert(entries@.subrange(0, entries@.len() as int) =~= entries@);
    r
}

/// The diagnostics of manifest `text` for its dependency `entries`, classified against
/// the versions that `cache` holds: one for each entry that names a registry package
/// and whose span maps to positions of the text, in the entries' order.
pub fn synthesize(text: &Vec<u8>, entries: &Vec<DependencyEntry>, cache: &VersionCache) -> (r: Vec<
    Diagnostic,
>)
    ensures
        r@.len() == reported(text@, entries@).len(),
        forall|i: int|
            0 <= i < r@.len() ==> diagnostic_matches(
                text@,
                cache@,
                #[trigger] reported(text@, entries@)[i],
                r@[i],
            ),
{
    let mut r: Vec<Diagnostic> = Vec::new();
    let mut i: usize = 0;
    while i < entries.len()
        invariant
            i <= entries@.len(),
            r@.len() == reported(text@, entries@.subrange(0, i as int)).len(),
            forall|j: int|
                0 <= j < r@.len() ==> diagnostic_matches(
                    text@,
                    cache@,
                    #[trigger] reported(text@, entries@.subrange(0, i as int))[j],
                    r@[j],
                ),
        decreases entries@.len() - i,
    {
        let ghost prev = reported(text@, entries@.subrange(0, i as int));
        let ghost before = r@;
        assert(entries@.subrange(0, i as int + 1).drop_last() =~= entries@.subrange(0, i as int));
        assert(entries@.subrange(0, i as int + 1).last() == entries@[i as int]);
        let entry = &entries[i];
        if !entry.is_path {
            match (offset_to_pos(text, entry.start), offset_to_pos(text, entry.end)) {
                (Some(start), Some(end)) => {
                    let versions = newest_first(&cache.versions_of(entry.name.as_str()));
                    let c = classify(&versions, entry.requirement.as_str());
                    let d = Diagnostic {
                        range: Range { start, end },
                        severity: severity(c),
                        message: message(entry.name.as_str(), entry.requirement.as_str(), &versions, c),
                        dependency: entry.name.clone(),
                    };
                    r.push(d);
                    let ghost next = reported(text@, entries@.subrange(0, i as int + 1));
                    assert(next =~= prev.push(*entry));
                    assert forall|j: int| 0 <= j < r@.len() implies diagnostic_matches(
                        text@,
                        cache@,
                        #[trigger] next[j],
                        r@[j],
                    ) by {
                        if j < before.len() {
                            assert(r@[j] == before[j]);
                            assert(next[j] == prev[j]);
                        }
                    }
                },
                _ => {
                    assert(reported(text@, entries@.subrange(0, i as int + 1)) =~= prev);
                },
            }
        } else {
            assert(reported(text@, entries@.subrange(0, i as int + 1)) =~= prev);
        }
        i = i + 1;
    }
    assert(entries@.subrange(0, entries@.len() as int) =~= entries@);
    r
}

/// With no known version a dependency is unresolvable, whatever it requires.
pub proof fn lemma_no_versions_is_unresolvable(requirement: Seq<char>)
    ensures
        classification_of(Seq::empty(), requirement) == Classification::Unresolvable,
{
}

/// Dependencies on a local path are neither resolved nor reported: no name to resolve
/// comes from them alone, and no diagnostic is made for one.
pub proof fn lemma_path_entries_excluded(text: Seq<u8>, es: Seq<DependencyEntry>)
    ensures
        forall|i: int| 0 <= i < reported(text, es).len() ==> !(#[trigger] reported(text, es)[i]).is_path,
        forall|i: int| 0 <= i < registry_names(es).len() ==> exists|j: int|
            0 <= j < es.len() && !es[j].is_path && es[j].name@ == #[trigger] registry_names(es)[i],
    decreases es.len(),
{
    if es.len() > 0 {
        let rest = es.drop_last();
        lemma_path_entries_excluded(text, rest);
        assert forall|i: int| 0 <= i < registry_names(es).len() implies exists|j: int|
            0 <= j < es.len() && !es[j].is_path && es[j].name@ == #[trigger] registry_names(es)[i] by {
            if i < registry_names(rest).len() {
                assert(registry_names(es)[i] == registry_names(rest)[i]);
                let j = choose|j: int|
                    0 <= j < rest.len() && !rest[j].is_path && rest[j].name@ == #[trigger] registry_names(rest)[i];
                assert(es[j] == rest[j]);
            } else {
                assert(es[es.len() - 1] == es.last());
            }
        }
        assert forall|i: int| 0 <= i < reported(text, es).len() implies !(#[trigger] reported(text, es)[i]).is_path by {
            if i < reported(text, rest).len() {
                assert(reported(text, es)[i] == reported(text, rest)[i]);
            }
        }
    }
}

} // verus!
