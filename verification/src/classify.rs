//! Classification of deployed subgraphs into *retained* and *reaping candidate*.
//!
//! Pure: takes an already-fetched listing, a policy and a clock reading, and
//! returns a verdict per deployed version. No IO, and no ability to delete.
//!
//! The signal is **supersession**, not usage: a version is a candidate when a
//! newer version under the same name has replaced it and nothing points at it
//! any more. Anything that cannot be positively established is retained.

use crate::text::{has_prefix, starts_with};
use vstd::prelude::*;

verus! {

/// Milliseconds per day. Goldsky reports `created_at` in epoch millis.
pub const MS_PER_DAY: i64 = 86_400_000;

/// What a listing row actually is.
///
/// Goldsky's listing returns two kinds of row under one shape: real deployed
/// versions, and tag aliases whose `version` is the tag label and which point
/// at some target version. Only deployments are ever classified; an alias is
/// reported but never a candidate.
#[derive(Debug, Clone, PartialEq, Eq)]
pub enum Kind {
    /// A real deployed version.
    Deployment,
    /// An alias row: `name/<version>` resolves to `name/<target_version>`.
    /// `target_version` is `None` for a tag that points at nothing.
    TagAlias { target_version: Option<String> },
}

/// One row of a Goldsky subgraph listing, reduced to what classification needs.
#[derive(Debug, Clone, PartialEq, Eq)]
pub struct SubgraphEntry {
    pub name: String,
    pub version: String,
    pub network: String,
    pub kind: Kind,
    pub paused: bool,
    /// Creation time of the newest deployment backing this row, epoch millis.
    /// `None` when Goldsky returned no deployment records, in which case the
    /// age is unknown and no age-based judgement is possible.
    pub created_at_ms: Option<i64>,
    pub graphql_endpoint: String,
}

impl SubgraphEntry {
    /// `name/version` as text.
    pub open spec fn id(self) -> Seq<char> {
        self.name@ + seq!['/'] + self.version@
    }

    /// `name/version`, the identifier Goldsky itself uses for a deployed
    /// version and the string a human would hand to the Goldsky CLI.
    pub fn name_and_version(&self) -> (r: String)
        ensures
            r@ == self.id(),
    {
        let mut out = self.name.clone();
        out.append("/");
        out.append(self.version.as_str());
        proof {
            reveal_strlit("/");
        }
        out
    }

    /// Whether this row is a tag alias rather than a deployed version.
    pub fn is_tag_alias(&self) -> (r: bool)
        ensures
            r == (self.kind is TagAlias),
    {
        match self.kind {
            Kind::TagAlias { .. } => true,
            Kind::Deployment => false,
        }
    }
}

/// A field-by-field copy of an entry.
pub(crate) fn copy_entry(e: &SubgraphEntry) -> (r: SubgraphEntry)
    ensures
        r == *e,
{
    let kind = match &e.kind {
        Kind::Deployment => Kind::Deployment,
        Kind::TagAlias { target_version } => Kind::TagAlias {
            target_version: match target_version {
                Some(t) => Some(t.clone()),
                None => None,
            },
        },
    };
    SubgraphEntry {
        name: e.name.clone(),
        version: e.version.clone(),
        network: e.network.clone(),
        kind,
        paused: e.paused,
        created_at_ms: e.created_at_ms,
        graphql_endpoint: e.graphql_endpoint.clone(),
    }
}

/// Why a deployed version is being kept. Every retention records its reason so
/// a human reading the report can audit the decision rather than trust it.
#[derive(Debug, Clone, PartialEq, Eq)]
pub enum Retained {
    /// The caller named this version explicitly as protected.
    Pinned,
    /// A tag on this name resolves to this version, so consumers following the
    /// tag reach it.
    TagTarget,
    /// Goldsky returned no deployment record, so the age is unknown and this
    /// version cannot be judged.
    UnknownAge,
    /// The newest version for its name. The live deploy is never a candidate.
    Newest,
    /// Superseded, but created too recently to be inside the reaping window.
    WithinAgeWindow { age_days: i64 },
}

/// The verdict for one deployed version.
#[derive(Debug, Clone, PartialEq, Eq)]
pub enum Verdict {
    Retained(Retained),
    /// Superseded by a newer version of the same name, untagged, unpinned and
    /// older than the configured window. A candidate for a human to reap; this
    /// crate never acts on it.
    Candidate { age_days: i64 },
}

impl Verdict {
    /// Whether this verdict makes the version a reaping candidate.
    pub fn is_candidate(&self) -> (r: bool)
        ensures
            r == (*self is Candidate),
    {
        match self {
            Verdict::Candidate { .. } => true,
            Verdict::Retained(_) => false,
        }
    }
}

/// The verdict for one deployed version, with the row it was reached from.
#[derive(Debug, Clone, PartialEq, Eq)]
pub struct Assessment {
    pub entry: SubgraphEntry,
    pub verdict: Verdict,
}

/// An alias row, reported so a human can see which URL is canonical for a name.
#[derive(Debug, Clone, PartialEq, Eq)]
pub struct TagRow {
    pub name: String,
    pub label: String,
    /// `None` for a tag pointing at nothing: a dangling alias worth surfacing.
    pub target_version: Option<String>,
}

impl TagRow {
    /// Whether the alias points at nothing.
    pub fn is_dangling(&self) -> (r: bool)
        ensures
            r == (self.target_version is None),
    {
        self.target_version.is_none()
    }
}

/// The reaping policy.
#[derive(Debug, Clone, PartialEq, Eq)]
pub struct Policy {
    /// A superseded version must be at least this many days old before it is
    /// reported as a candidate.
    pub min_age_days: i64,
    /// `name/version` strings that are never candidates whatever else holds.
    /// Read as a set: order and repeats carry no meaning.
    pub pinned: Vec<String>,
}

impl Default for Policy {
    /// A thirty-day window and nothing pinned.
    fn default() -> (r: Self)
        ensures
            r.min_age_days == 30,
            r.pinned@.len() == 0,
    {
        Policy { min_age_days: 30, pinned: Vec::new() }
    }
}

/// The classified listing.
#[derive(Debug, Clone, PartialEq, Eq)]
pub struct Report {
    /// One assessment per deployed version, in the order given.
    pub deployments: Vec<Assessment>,
    /// One row per tag alias, in the order given.
    pub tags: Vec<TagRow>,
}

/// The candidate assessments of `s`, in order.
pub open spec fn candidate_rows(s: Seq<Assessment>) -> Seq<Assessment>
    decreases s.len(),
{
    if s.len() == 0 {
        Seq::empty()
    } else if s.last().verdict is Candidate {
        candidate_rows(s.drop_last()).push(s.last())
    } else {
        candidate_rows(s.drop_last())
    }
}

/// The dangling tag rows of `s`, in order.
pub open spec fn dangling_rows(s: Seq<TagRow>) -> Seq<TagRow>
    decreases s.len(),
{
    if s.len() == 0 {
        Seq::empty()
    } else if s.last().target_version is None {
        dangling_rows(s.drop_last()).push(s.last())
    } else {
        dangling_rows(s.drop_last())
    }
}

impl Report {
    /// The assessments whose verdict is a candidate, in order.
    pub fn candidates(&self) -> (r: Vec<&Assessment>)
        ensures
            r@.map_values(|a: &Assessment| *a) == candidate_rows(self.deployments@),
            r@.map_values(|a: &Assessment| *a) == self.deployments@.filter(
                |a: Assessment| a.verdict is Candidate,
            ),
    {
        let mut out: Vec<&Assessment> = Vec::new();
        let mut i: usize = 0;
        while i < self.deployments.len()
            invariant
                i <= self.deployments@.len(),
                out@.map_values(|a: &Assessment| *a) == candidate_rows(
                    self.deployments@.take(i as int),
                ),
            decreases self.deployments@.len() - i,
        {
            let a = &self.deployments[i];
            proof {
                assert(self.deployments@.take(i + 1).drop_last() =~= self.deployments@.take(
                    i as int,
                ));
            }
            if a.verdict.is_candidate() {
                out.push(a);
            }
            i = i + 1;
            assert(out@.map_values(|a: &Assessment| *a) =~= candidate_rows(
                self.deployments@.take(i as int),
            ));
        }
        assert(self.deployments@.take(i as int) =~= self.deployments@);
        proof {
            candidate_rows_are_the_candidates(self.deployments@);
        }
        out
    }

    /// The tag rows that point at nothing, in order.
    pub fn dangling_tags(&self) -> (r: Vec<&TagRow>)
        ensures
            r@.map_values(|t: &TagRow| *t) == dangling_rows(self.tags@),
    {
        let mut out: Vec<&TagRow> = Vec::new();
        let mut i: usize = 0;
        while i < self.tags.len()
            invariant
                i <= self.tags@.len(),
                out@.map_values(|t: &TagRow| *t) == dangling_rows(self.tags@.take(i as int)),
            decreases self.tags@.len() - i,
        {
            let t = &self.tags[i];
            proof {
                assert(self.tags@.take(i + 1).drop_last() =~= self.tags@.take(i as int));
            }
            if t.is_dangling() {
                out.push(t);
            }
            i = i + 1;
            assert(out@.map_values(|t: &TagRow| *t) =~= dangling_rows(self.tags@.take(i as int)));
        }
        assert(self.tags@.take(i as int) =~= self.tags@);
        out
    }
}

// ---------- filtering ----------

/// The name is selected by the prefixes: an empty list selects every name,
/// otherwise the name must start with one of them.
pub open spec fn name_selected(name: Seq<char>, prefixes: Seq<String>) -> bool {
    prefixes.len() == 0 || exists|k: int|
        0 <= k < prefixes.len() && starts_with(name, #[trigger] prefixes[k]@)
}

/// The rows of `entries` whose name the prefixes select, in order.
pub open spec fn selected_rows(entries: Seq<SubgraphEntry>, prefixes: Seq<String>) -> Seq<
    SubgraphEntry,
>
    decreases entries.len(),
{
    if entries.len() == 0 {
        Seq::empty()
    } else if name_selected(entries.last().name@, prefixes) {
        selected_rows(entries.drop_last(), prefixes).push(entries.last())
    } else {
        selected_rows(entries.drop_last(), prefixes)
    }
}

fn name_matches(name: &String, prefixes: &[String]) -> (r: bool)
    ensures
        r == name_selected(name@, prefixes@),
{
    if prefixes.len() == 0 {
        return true;
    }
    let mut k: usize = 0;
    while k < prefixes.len()
        invariant
            k <= prefixes@.len(),
            forall|x: int| 0 <= x < k ==> !starts_with(name@, #[trigger] prefixes@[x]@),
        decreases prefixes@.len() - k,
    {
        if has_prefix(name.as_str(), prefixes[k].as_str()) {
            return true;
        }
        k = k + 1;
    }
    false
}

/// Keep only the rows whose name starts with one of `prefixes`.
///
/// Prefix rather than substring: the deployed names are `<subgraph>-<network>`,
/// so a prefix anchors on the subgraph and cannot be satisfied by a name that
/// merely contains it. Several prefixes are accepted because older live
/// deploys use other stems. An empty prefix list matches everything. Alias rows
/// are filtered by their name like any other row, so a tag and the versions
/// it protects stay together.
pub fn filter_by_name_prefixes(entries: &[SubgraphEntry], prefixes: &[String]) -> (r: Vec<
    SubgraphEntry,
>)
    ensures
        r@ == selected_rows(entries@, prefixes@),
        prefixes@.len() == 0 ==> r@ == entries@,
        forall|e: SubgraphEntry| #[trigger] r@.contains(e) ==> entries@.contains(e),
        forall|e: SubgraphEntry|
            prefixes@.len() > 0 && #[trigger] r@.contains(e) ==> exists|k: int|
                #![trigger prefixes@[k]]
                0 <= k < prefixes@.len() && prefixes@[k]@.len() <= e.name@.len()
                    && e.name@.subrange(0, prefixes@[k]@.len() as int) == prefixes@[k]@,
        forall|j: int, k: int|
            #![trigger entries@[j], prefixes@[k]]
            0 <= j < entries@.len() && 0 <= k < prefixes@.len() && prefixes@[k]@.len()
                <= entries@[j].name@.len() && entries@[j].name@.subrange(
                0,
                prefixes@[k]@.len() as int,
            ) == prefixes@[k]@ ==> r@.contains(entries@[j]),
{
    let mut out: Vec<SubgraphEntry> = Vec::new();
    let mut i: usize = 0;
    while i < entries.len()
        invariant
            i <= entries@.len(),
            out@ == selected_rows(entries@.take(i as int), prefixes@),
        decreases entries@.len() - i,
    {
        let e = &entries[i];
        proof {
            assert(entries@.take(i + 1).drop_last() =~= entries@.take(i as int));
        }
        if name_matches(&e.name, prefixes) {
            out.push(copy_entry(e));
        }
        i = i + 1;
        assert(out@ =~= selected_rows(entries@.take(i as int), prefixes@));
    }
    assert(entries@.take(i as int) =~= entries@);
    proof {
        filter_keeps_exactly_the_prefixed_rows(entries@, prefixes@);
    }
    out
}

// ---------- age ----------

/// `now - created`, clamped to the range of `i64` (`i64::saturating_sub`).
pub open spec fn saturating_elapsed(created: int, now: int) -> int {
    let d = now - created;
    if d > i64::MAX {
        i64::MAX as int
    } else if d < i64::MIN {
        i64::MIN as int
    } else {
        d
    }
}

/// Whole days elapsed, floored, and zero for a timestamp in the future.
pub open spec fn days_elapsed(created: int, now: int) -> int {
    let e = saturating_elapsed(created, now);
    if e < 0 {
        0
    } else {
        e / (MS_PER_DAY as int)
    }
}

/// Whole days elapsed between `created_at_ms` and `now_ms`, floored, never
/// negative: a timestamp in the future reads as age zero rather than as a
/// negative age that would slip past the window check.
pub fn age_days(created_at_ms: i64, now_ms: i64) -> (r: i64)
    ensures
        r == days_elapsed(created_at_ms as int, now_ms as int),
        r >= 0,
{
    let d: i128 = now_ms as i128 - created_at_ms as i128;
    let elapsed: i64 = if d > i64::MAX as i128 {
        i64::MAX
    } else if d < i64::MIN as i128 {
        i64::MIN
    } else {
        d as i64
    };
    if elapsed < 0 {
        0
    } else {
        elapsed / MS_PER_DAY
    }
}


// ---------- classification ----------

/// The policy names `id` as pinned.
pub open spec fn is_pinned(policy: Policy, id: Seq<char>) -> bool {
    exists|k: int| 0 <= k < policy.pinned@.len() && #[trigger] policy.pinned@[k]@ == id
}

/// `row` is an alias under `name` whose target is `version`.
pub open spec fn alias_targets(row: SubgraphEntry, name: Seq<char>, version: Seq<char>) -> bool {
    &&& row.name@ == name
    &&& row.kind matches Kind::TagAlias { target_version: Some(t) }
    &&& t@ == version
}

/// Some alias in the listing, under the same name, resolves to `version`.
pub open spec fn is_tag_target(
    entries: Seq<SubgraphEntry>,
    name: Seq<char>,
    version: Seq<char>,
) -> bool {
    exists|j: int| 0 <= j < entries.len() && alias_targets(#[trigger] entries[j], name, version)
}

/// `row` is a deployment under `name` with a known creation time.
pub open spec fn dated_deployment_of(row: SubgraphEntry, name: Seq<char>) -> bool {
    &&& row.kind is Deployment
    &&& row.name@ == name
    &&& row.created_at_ms is Some
}

/// Some deployment under `name` was created strictly after `created`: the
/// version created at `created` is not the newest of its name.
pub open spec fn newer_exists(entries: Seq<SubgraphEntry>, name: Seq<char>, created: int) -> bool {
    exists|j: int|
        0 <= j < entries.len() && dated_deployment_of(#[trigger] entries[j], name)
            && entries[j].created_at_ms->0 > created
}

/// The verdict on the deployment row `e` of the listing `entries`.
///
/// Retention wins every tie: pinned first, then tag target, then unknown age,
/// then newest (ties on the newest timestamp all count as newest), then the
/// age window. Only what is left is a candidate.
pub open spec fn verdict_of(entries: Seq<SubgraphEntry>, policy: Policy, now: i64, e: SubgraphEntry) -> Verdict {
    if is_pinned(policy, e.id()) {
        Verdict::Retained(Retained::Pinned)
    } else if is_tag_target(entries, e.name@, e.version@) {
        Verdict::Retained(Retained::TagTarget)
    } else {
        match e.created_at_ms {
            None => Verdict::Retained(Retained::UnknownAge),
            Some(created) => if !newer_exists(entries, e.name@, created as int) {
                Verdict::Retained(Retained::Newest)
            } else {
                let age = days_elapsed(created as int, now as int);
                if age < policy.min_age_days {
                    Verdict::Retained(Retained::WithinAgeWindow { age_days: age as i64 })
                } else {
                    Verdict::Candidate { age_days: age as i64 }
                }
            },
        }
    }
}

/// One assessment per deployment row of `rows`, in order, each judged against
/// the whole listing `entries`.
pub open spec fn assessments(
    entries: Seq<SubgraphEntry>,
    rows: Seq<SubgraphEntry>,
    policy: Policy,
    now: i64,
) -> Seq<Assessment>
    decreases rows.len(),
{
    if rows.len() == 0 {
        Seq::empty()
    } else {
        let prev = assessments(entries, rows.drop_last(), policy, now);
        let e = rows.last();
        if e.kind is Deployment {
            prev.push(Assessment { entry: e, verdict: verdict_of(entries, policy, now, e) })
        } else {
            prev
        }
    }
}

/// One tag row per alias row of `rows`, in order.
pub open spec fn tag_rows(rows: Seq<SubgraphEntry>) -> Seq<TagRow>
    decreases rows.len(),
{
    if rows.len() == 0 {
        Seq::empty()
    } else {
        let prev = tag_rows(rows.drop_last());
        let e = rows.last();
        match e.kind {
            Kind::TagAlias { target_version } => prev.push(
                TagRow { name: e.name, label: e.version, target_version },
            ),
            Kind::Deployment => prev,
        }
    }
}

fn pinned_contains(policy: &Policy, id: &String) -> (r: bool)
    ensures
        r == is_pinned(*policy, id@),
{
    let mut k: usize = 0;
    while k < policy.pinned.len()
        invariant
            k <= policy.pinned@.len(),
            forall|x: int| 0 <= x < k ==> #[trigger] policy.pinned@[x]@ != id@,
        decreases policy.pinned@.len() - k,
    {
        if policy.pinned[k] == *id {
            return true;
        }
        k = k + 1;
    }
    false
}

fn tag_target_present(entries: &[SubgraphEntry], name: &String, version: &String) -> (r: bool)
    ensures
        r == is_tag_target(entries@, name@, version@),
{
    let mut j: usize = 0;
    while j < entries.len()
        invariant
            j <= entries@.len(),
            forall|x: int| 0 <= x < j ==> !alias_targets(#[trigger] entries@[x], name@, version@),
        decreases entries@.len() - j,
    {
        let row = &entries[j];
        if row.name == *name {
            match &row.kind {
                Kind::TagAlias { target_version: Some(t) } => {
                    if *t == *version {
                        return true;
                    }
                },
                _ => {},
            }
        }
        j = j + 1;
    }
    false
}

/// The newest creation time among the dated deployments under `name`.
fn newest_for(entries: &[SubgraphEntry], name: &String) -> (r: Option<i64>)
    ensures
        r is None ==> forall|j: int|
            0 <= j < entries@.len() ==> !dated_deployment_of(#[trigger] entries@[j], name@),
        r matches Some(m) ==> forall|j: int|
            0 <= j < entries@.len() && dated_deployment_of(#[trigger] entries@[j], name@)
                ==> entries@[j].created_at_ms->0 <= m,
        r matches Some(m) ==> exists|j: int|
            0 <= j < entries@.len() && dated_deployment_of(#[trigger] entries@[j], name@)
                && entries@[j].created_at_ms->0 == m,
{
    let mut best: Option<i64> = None;
    let mut j: usize = 0;
    while j < entries.len()
        invariant
            j <= entries@.len(),
            best is None ==> forall|x: int|
                0 <= x < j ==> !dated_deployment_of(#[trigger] entries@[x], name@),
            best matches Some(m) ==> forall|x: int|
                0 <= x < j && dated_deployment_of(#[trigger] entries@[x], name@)
                    ==> entries@[x].created_at_ms->0 <= m,
            best matches Some(m) ==> exists|x: int|
                0 <= x < j && dated_deployment_of(#[trigger] entries@[x], name@)
                    && entries@[x].created_at_ms->0 == m,
        decreases entries@.len() - j,
    {
        let row = &entries[j];
        if !row.is_tag_alias() && row.name == *name {
            if let Some(created) = row.created_at_ms {
                assert(dated_deployment_of(entries@[j as int], name@));
                best = match best {
                    None => Some(created),
                    Some(m) => if created > m {
                        Some(created)
                    } else {
                        Some(m)
                    },
                };
            }
        }
        j = j + 1;
    }
    best
}

fn verdict_for(entries: &[SubgraphEntry], policy: &Policy, now_ms: i64, e: &SubgraphEntry) -> (r:
    Verdict)
    requires
        e.kind is Deployment,
        exists|j: int| 0 <= j < entries@.len() && entries@[j] == *e,
    ensures
        r == verdict_of(entries@, *policy, now_ms, *e),
{
    if pinned_contains(policy, &e.name_and_version()) {
        Verdict::Retained(Retained::Pinned)
    } else if tag_target_present(entries, &e.name, &e.version) {
        Verdict::Retained(Retained::TagTarget)
    } else {
        match e.created_at_ms {
            None => Verdict::Retained(Retained::UnknownAge),
            Some(created) => {
                let newest = newest_for(entries, &e.name);
                let is_newest = match newest {
                    Some(m) => m == created,
                    None => false,
                };
                proof {
                    let j = choose|j: int| 0 <= j < entries@.len() && entries@[j] == *e;
                    assert(dated_deployment_of(entries@[j], e.name@));
                }
                if is_newest {
                    Verdict::Retained(Retained::Newest)
                } else {
                    let age: i64 = age_days(created, now_ms);
                    if age < policy.min_age_days {
                        Verdict::Retained(Retained::WithinAgeWindow { age_days: age })
                    } else {
                        Verdict::Candidate { age_days: age }
                    }
                }
            },
        }
    }
}

/// Classify every row.
///
/// Retention wins every tie. A deployed version is a candidate only when it is
/// *all* of: not a tag alias, not pinned, not a tag target, of known age, not
/// the newest for its name, and at least `min_age_days` old. Anything that
/// cannot be positively established is retained, because a false retention
/// costs nothing and a false candidate risks a live subgraph.
pub fn classify(entries: &[SubgraphEntry], policy: &Policy, now_ms: i64) -> (r: Report)
    ensures
        r.deployments@ == assessments(entries@, entries@, *policy, now_ms),
        r.tags@ == tag_rows(entries@),
        forall|i: int|
            0 <= i < r.deployments@.len() ==> {
                let a = #[trigger] r.deployments@[i];
                &&& (exists|k: int|
                    0 <= k < policy.pinned@.len() && #[trigger] policy.pinned@[k]@ == a.entry.name@
                        + seq!['/'] + a.entry.version@) ==> a.verdict == Verdict::Retained(
                    Retained::Pinned,
                )
                &&& (forall|k: int|
                    0 <= k < policy.pinned@.len() ==> #[trigger] policy.pinned@[k]@ != a.entry.name@
                        + seq!['/'] + a.entry.version@) && (exists|j: int|
                    0 <= j < entries@.len() && (#[trigger] entries@[j]).name@ == a.entry.name@
                        && (entries@[j].kind matches Kind::TagAlias { target_version: Some(t) }
                        && t@ == a.entry.version@)) ==> a.verdict == Verdict::Retained(
                    Retained::TagTarget,
                )
            },
{
    let mut deployments: Vec<Assessment> = Vec::new();
    let mut tags: Vec<TagRow> = Vec::new();
    let mut i: usize = 0;
    while i < entries.len()
        invariant
            i <= entries@.len(),
            deployments@ == assessments(entries@, entries@.take(i as int), *policy, now_ms),
            tags@ == tag_rows(entries@.take(i as int)),
        decreases entries@.len() - i,
    {
        let e = &entries[i];
        proof {
            assert(entries@.take(i + 1).drop_last() =~= entries@.take(i as int));
            assert(entries@.take(i + 1).last() == entries@[i as int]);
        }
        match &e.kind {
            Kind::TagAlias { target_version } => {
                tags.push(
                    TagRow {
                        name: e.name.clone(),
                        label: e.version.clone(),
                        target_version: match target_version {
                            Some(t) => Some(t.clone()),
                            None => None,
                        },
                    },
                );
            },
            Kind::Deployment => {
                let verdict = verdict_for(entries, policy, now_ms, e);
                deployments.push(Assessment { entry: copy_entry(e), verdict });
            },
        }
        i = i + 1;
    }
    assert(entries@.take(i as int) =~= entries@);
    proof {
        pins_and_tags_protect_whatever_the_label(entries@, *policy, now_ms);
    }
    Report { deployments, tags }
}


// ---------- properties of the classification ----------

/// Each assessment judges a deployment row of `rows`, with the verdict that
/// row has against the whole listing.
proof fn lemma_assessment_members(
    entries: Seq<SubgraphEntry>,
    rows: Seq<SubgraphEntry>,
    policy: Policy,
    now: i64,
)
    ensures
        forall|i: int|
            0 <= i < assessments(entries, rows, policy, now).len() ==> {
                let a = #[trigger] assessments(entries, rows, policy, now)[i];
                &&& a.entry.kind is Deployment
                &&& a.verdict == verdict_of(entries, policy, now, a.entry)
                &&& exists|j: int| 0 <= j < rows.len() && rows[j] == a.entry
            },
    decreases rows.len(),
{
    if rows.len() > 0 {
        lemma_assessment_members(entries, rows.drop_last(), policy, now);
        let prev = assessments(entries, rows.drop_last(), policy, now);
        let cur = assessments(entries, rows, policy, now);
        assert forall|i: int| 0 <= i < cur.len() implies {
            let a = #[trigger] cur[i];
            &&& a.entry.kind is Deployment
            &&& a.verdict == verdict_of(entries, policy, now, a.entry)
            &&& exists|j: int| 0 <= j < rows.len() && rows[j] == a.entry
        } by {
            if i < prev.len() {
                assert(cur[i] == prev[i]);
                let j = choose|j: int| 0 <= j < rows.drop_last().len() && rows.drop_last()[j] == prev[i].entry;
                assert(rows[j] == prev[i].entry);
            } else {
                assert(rows[rows.len() - 1] == cur[i].entry);
            }
        }
    }
}

/// Every deployment row of `rows` has an assessment.
proof fn lemma_deployments_assessed(
    entries: Seq<SubgraphEntry>,
    rows: Seq<SubgraphEntry>,
    policy: Policy,
    now: i64,
)
    ensures
        forall|j: int|
            0 <= j < rows.len() && (#[trigger] rows[j]).kind is Deployment ==> exists|i: int|
                0 <= i < assessments(entries, rows, policy, now).len() && assessments(
                    entries,
                    rows,
                    policy,
                    now,
                )[i].entry == rows[j],
    decreases rows.len(),
{
    if rows.len() > 0 {
        lemma_deployments_assessed(entries, rows.drop_last(), policy, now);
        let prev = assessments(entries, rows.drop_last(), policy, now);
        let cur = assessments(entries, rows, policy, now);
        assert forall|j: int| 0 <= j < rows.len() && (#[trigger] rows[j]).kind is Deployment implies exists|i: int|
            0 <= i < cur.len() && cur[i].entry == rows[j] by {
            if j < rows.len() - 1 {
                assert(rows.drop_last()[j] == rows[j]);
                let i = choose|i: int| 0 <= i < prev.len() && prev[i].entry == rows.drop_last()[j];
                assert(cur[i] == prev[i]);
            } else {
                assert(cur[cur.len() - 1].entry == rows[j]);
            }
        }
    }
}

/// An index of a dated deployment under `name` whose creation time is the
/// largest among them.
proof fn newest_index(entries: Seq<SubgraphEntry>, name: Seq<char>) -> (j: int)
    requires
        exists|k: int| 0 <= k < entries.len() && dated_deployment_of(#[trigger] entries[k], name),
    ensures
        0 <= j < entries.len(),
        dated_deployment_of(entries[j], name),
        forall|k: int|
            0 <= k < entries.len() && dated_deployment_of(#[trigger] entries[k], name)
                ==> entries[k].created_at_ms->0 <= entries[j].created_at_ms->0,
    decreases entries.len(),
{
    let last: int = entries.len() - 1;
    let init = entries.drop_last();
    if exists|k: int| 0 <= k < init.len() && dated_deployment_of(#[trigger] init[k], name) {
        let j0 = newest_index(init, name);
        assert(init[j0] == entries[j0]);
        if dated_deployment_of(entries[last], name) && entries[last].created_at_ms->0
            > entries[j0].created_at_ms->0 {
            assert forall|k: int|
                0 <= k < entries.len() && dated_deployment_of(#[trigger] entries[k], name)
                    implies entries[k].created_at_ms->0 <= entries[last].created_at_ms->0 by {
                if k < last {
                    assert(init[k] == entries[k]);
                }
            }
            last
        } else {
            assert forall|k: int|
                0 <= k < entries.len() && dated_deployment_of(#[trigger] entries[k], name)
                    implies entries[k].created_at_ms->0 <= entries[j0].created_at_ms->0 by {
                if k < last {
                    assert(init[k] == entries[k]);
                }
            }
            j0
        }
    } else {
        let w = choose|k: int| 0 <= k < entries.len() && dated_deployment_of(#[trigger] entries[k], name);
        if w < last {
            assert(init[w] == entries[w]);
        }
        assert forall|k: int|
            0 <= k < entries.len() && dated_deployment_of(#[trigger] entries[k], name)
                implies entries[k].created_at_ms->0 <= entries[last].created_at_ms->0 by {
            if k < last {
                assert(init[k] == entries[k]);
            }
        }
        last
    }
}

/// An alias row is never assessed, and so never a candidate: every assessment
/// of a classified listing is of a deployed version of that listing, judged by
/// `verdict_of`.
pub proof fn alias_rows_are_never_assessed(entries: Seq<SubgraphEntry>, policy: Policy, now: i64)
    ensures
        forall|i: int|
            0 <= i < assessments(entries, entries, policy, now).len() ==> {
                let a = #[trigger] assessments(entries, entries, policy, now)[i];
                &&& a.entry.kind is Deployment
                &&& a.verdict == verdict_of(entries, policy, now, a.entry)
                &&& exists|j: int| 0 <= j < entries.len() && entries[j] == a.entry
            },
{
    lemma_assessment_members(entries, entries, policy, now);
}

/// A deployed version is a candidate exactly when it is unpinned, no tag under
/// its name resolves to it, its age is known, a newer version of its name
/// exists, and it is at least `min_age_days` old; its reported age is then the
/// whole days elapsed since it was created.
pub proof fn candidate_exactly_when_superseded_unprotected_and_old(
    entries: Seq<SubgraphEntry>,
    policy: Policy,
    now: i64,
)
    ensures
        forall|i: int|
            0 <= i < assessments(entries, entries, policy, now).len() ==> {
                let a = #[trigger] assessments(entries, entries, policy, now)[i];
                let e = a.entry;
                (a.verdict is Candidate) <==> {
                    &&& !is_pinned(policy, e.id())
                    &&& !is_tag_target(entries, e.name@, e.version@)
                    &&& e.created_at_ms is Some
                    &&& newer_exists(entries, e.name@, e.created_at_ms->0 as int)
                    &&& days_elapsed(e.created_at_ms->0 as int, now as int) >= policy.min_age_days
                }
            },
        forall|i: int|
            0 <= i < assessments(entries, entries, policy, now).len() ==> {
                let a = #[trigger] assessments(entries, entries, policy, now)[i];
                a.verdict matches Verdict::Candidate { age_days } ==> age_days == days_elapsed(
                    a.entry.created_at_ms->0 as int,
                    now as int,
                )
            },
{
    lemma_assessment_members(entries, entries, policy, now);
    assert forall|i: int| 0 <= i < assessments(entries, entries, policy, now).len() implies {
        let a = #[trigger] assessments(entries, entries, policy, now)[i];
        a.verdict matches Verdict::Candidate { age_days } ==> age_days == days_elapsed(
            a.entry.created_at_ms->0 as int,
            now as int,
        )
    } by {
        let a = assessments(entries, entries, policy, now)[i];
        if let Some(c) = a.entry.created_at_ms {
            assert(days_elapsed(c as int, now as int) <= (i64::MAX as int) / (MS_PER_DAY as int));
        }
    }
}

/// Pinning takes precedence over every other reason: a pinned version is
/// retained as pinned, however old and superseded. Short of a pin, a tag that
/// resolves to the version retains it as a tag target.
pub proof fn pins_and_tags_always_retain(entries: Seq<SubgraphEntry>, policy: Policy, now: i64)
    ensures
        forall|i: int|
            0 <= i < assessments(entries, entries, policy, now).len() ==> {
                let a = #[trigger] assessments(entries, entries, policy, now)[i];
                &&& is_pinned(policy, a.entry.id()) ==> a.verdict == Verdict::Retained(
                    Retained::Pinned,
                )
                &&& !is_pinned(policy, a.entry.id()) && is_tag_target(
                    entries,
                    a.entry.name@,
                    a.entry.version@,
                ) ==> a.verdict == Verdict::Retained(Retained::TagTarget)
            },
{
    lemma_assessment_members(entries, entries, policy, now);
}

/// The live deploy is never a candidate: under any name that has a dated
/// deployment, some deployed version of that name is retained.
pub proof fn newest_of_each_name_is_retained(
    entries: Seq<SubgraphEntry>,
    policy: Policy,
    now: i64,
    name: Seq<char>,
)
    requires
        exists|k: int| 0 <= k < entries.len() && dated_deployment_of(#[trigger] entries[k], name),
    ensures
        exists|i: int|
            0 <= i < assessments(entries, entries, policy, now).len() && (#[trigger] assessments(
                entries,
                entries,
                policy,
                now,
            )[i]).entry.name@ == name && !(assessments(entries, entries, policy, now)[i].verdict is Candidate),
{
    let j = newest_index(entries, name);
    lemma_deployments_assessed(entries, entries, policy, now);
    lemma_assessment_members(entries, entries, policy, now);
    let i = choose|i: int|
        0 <= i < assessments(entries, entries, policy, now).len() && assessments(
            entries,
            entries,
            policy,
            now,
        )[i].entry == entries[j];
    let a = assessments(entries, entries, policy, now)[i];
    assert(!newer_exists(entries, name, entries[j].created_at_ms->0 as int));
    assert(a.entry.name@ == name);
}

/// A row belongs to the selection exactly when it belongs to the listing and
/// its name is selected.
proof fn lemma_selected_members(entries: Seq<SubgraphEntry>, prefixes: Seq<String>)
    ensures
        forall|i: int|
            0 <= i < selected_rows(entries, prefixes).len() ==> name_selected(
                (#[trigger] selected_rows(entries, prefixes)[i]).name@,
                prefixes,
            ) && exists|j: int| 0 <= j < entries.len() && entries[j] == selected_rows(entries, prefixes)[i],
        forall|j: int|
            0 <= j < entries.len() && name_selected((#[trigger] entries[j]).name@, prefixes)
                ==> exists|i: int|
                0 <= i < selected_rows(entries, prefixes).len() && selected_rows(entries, prefixes)[i]
                    == entries[j],
    decreases entries.len(),
{
    if entries.len() > 0 {
        let init = entries.drop_last();
        lemma_selected_members(init, prefixes);
        let prev = selected_rows(init, prefixes);
        let cur = selected_rows(entries, prefixes);
        assert forall|i: int| 0 <= i < cur.len() implies name_selected(
            (#[trigger] cur[i]).name@,
            prefixes,
        ) && exists|j: int| 0 <= j < entries.len() && entries[j] == cur[i] by {
            if i < prev.len() {
                assert(cur[i] == prev[i]);
                let j = choose|j: int| 0 <= j < init.len() && init[j] == prev[i];
                assert(entries[j] == init[j]);
            } else {
                assert(entries[entries.len() - 1] == cur[i]);
            }
        }
        assert forall|j: int|
            0 <= j < entries.len() && name_selected((#[trigger] entries[j]).name@, prefixes)
                implies exists|i: int| 0 <= i < cur.len() && cur[i] == entries[j] by {
            if j < entries.len() - 1 {
                assert(init[j] == entries[j]);
                let i = choose|i: int| 0 <= i < prev.len() && prev[i] == init[j];
                assert(cur[i] == prev[i]);
            } else {
                assert(cur[cur.len() - 1] == entries[j]);
            }
        }
    }
}

/// Filtering by name prefix never changes a verdict. Rows that share a name
/// pass or fail the filter together, so an alias still protects its target
/// and the newest version of a name is still the newest. A deployed version
/// that passes the filter gets, in the filtered listing, the verdict it gets
/// in the whole listing.
pub proof fn filtering_preserves_verdicts(
    entries: Seq<SubgraphEntry>,
    prefixes: Seq<String>,
    policy: Policy,
    now: i64,
)
    ensures
        forall|i: int|
            0 <= i < assessments(
                selected_rows(entries, prefixes),
                selected_rows(entries, prefixes),
                policy,
                now,
            ).len() ==> {
                let a = #[trigger] assessments(
                    selected_rows(entries, prefixes),
                    selected_rows(entries, prefixes),
                    policy,
                    now,
                )[i];
                a.verdict == verdict_of(entries, policy, now, a.entry)
            },
{
    let sel = selected_rows(entries, prefixes);
    lemma_selected_members(entries, prefixes);
    lemma_assessment_members(sel, sel, policy, now);
    assert forall|i: int| 0 <= i < assessments(sel, sel, policy, now).len() implies {
        let a = #[trigger] assessments(sel, sel, policy, now)[i];
        a.verdict == verdict_of(entries, policy, now, a.entry)
    } by {
        let a = assessments(sel, sel, policy, now)[i];
        let e = a.entry;
        let js = choose|j: int| 0 <= j < sel.len() && sel[j] == e;
        assert(name_selected(sel[js].name@, prefixes));
        // The same rows under e's name appear in both listings.
        assert(is_tag_target(sel, e.name@, e.version@) == is_tag_target(
            entries,
            e.name@,
            e.version@,
        )) by {
            if is_tag_target(entries, e.name@, e.version@) {
                let j = choose|j: int|
                    0 <= j < entries.len() && alias_targets(#[trigger] entries[j], e.name@, e.version@);
                assert(name_selected(entries[j].name@, prefixes));
                let k = choose|k: int| 0 <= k < sel.len() && sel[k] == entries[j];
                assert(alias_targets(sel[k], e.name@, e.version@));
            }
            if is_tag_target(sel, e.name@, e.version@) {
                let k = choose|k: int|
                    0 <= k < sel.len() && alias_targets(#[trigger] sel[k], e.name@, e.version@);
                let j = choose|j: int| 0 <= j < entries.len() && entries[j] == sel[k];
                assert(alias_targets(entries[j], e.name@, e.version@));
            }
        }
        if let Some(c) = e.created_at_ms {
            assert(newer_exists(sel, e.name@, c as int) == newer_exists(entries, e.name@, c as int))
                by {
                if newer_exists(entries, e.name@, c as int) {
                    let j = choose|j: int|
                        0 <= j < entries.len() && dated_deployment_of(#[trigger] entries[j], e.name@)
                            && entries[j].created_at_ms->0 > c;
                    assert(name_selected(entries[j].name@, prefixes));
                    let k = choose|k: int| 0 <= k < sel.len() && sel[k] == entries[j];
                    assert(dated_deployment_of(sel[k], e.name@));
                }
                if newer_exists(sel, e.name@, c as int) {
                    let k = choose|k: int|
                        0 <= k < sel.len() && dated_deployment_of(#[trigger] sel[k], e.name@)
                            && sel[k].created_at_ms->0 > c;
                    let j = choose|j: int| 0 <= j < entries.len() && entries[j] == sel[k];
                    assert(dated_deployment_of(entries[j], e.name@));
                }
            }
        }
    }
}


/// An empty prefix list selects every row, in order.
pub proof fn an_empty_prefix_list_selects_everything(entries: Seq<SubgraphEntry>)
    ensures
        selected_rows(entries, Seq::<String>::empty()) == entries,
    decreases entries.len(),
{
    if entries.len() > 0 {
        an_empty_prefix_list_selects_everything(entries.drop_last());
        assert(entries.drop_last().push(entries.last()) =~= entries);
    }
}


// ---------- laws stated over the rows themselves ----------

/// A pinned version is retained as pinned, and an unpinned version that any
/// alias under its name resolves to is retained as a tag target, whatever
/// that alias's label.
pub proof fn pins_and_tags_protect_whatever_the_label(
    entries: Seq<SubgraphEntry>,
    policy: Policy,
    now: i64,
)
    ensures
        forall|i: int|
            0 <= i < assessments(entries, entries, policy, now).len() ==> {
                let a = #[trigger] assessments(entries, entries, policy, now)[i];
                &&& (exists|k: int|
                    0 <= k < policy.pinned@.len() && #[trigger] policy.pinned@[k]@ == a.entry.name@
                        + seq!['/'] + a.entry.version@) ==> a.verdict == Verdict::Retained(
                    Retained::Pinned,
                )
                &&& (forall|k: int|
                    0 <= k < policy.pinned@.len() ==> #[trigger] policy.pinned@[k]@ != a.entry.name@
                        + seq!['/'] + a.entry.version@) && (exists|j: int|
                    0 <= j < entries.len() && (#[trigger] entries[j]).name@ == a.entry.name@
                        && (entries[j].kind matches Kind::TagAlias { target_version: Some(t) }
                        && t@ == a.entry.version@)) ==> a.verdict == Verdict::Retained(
                    Retained::TagTarget,
                )
            },
{
    lemma_assessment_members(entries, entries, policy, now);
    assert forall|i: int| 0 <= i < assessments(entries, entries, policy, now).len() implies {
        let a = #[trigger] assessments(entries, entries, policy, now)[i];
        &&& (exists|k: int|
            0 <= k < policy.pinned@.len() && #[trigger] policy.pinned@[k]@ == a.entry.name@
                + seq!['/'] + a.entry.version@) ==> a.verdict == Verdict::Retained(Retained::Pinned)
        &&& (forall|k: int|
            0 <= k < policy.pinned@.len() ==> #[trigger] policy.pinned@[k]@ != a.entry.name@
                + seq!['/'] + a.entry.version@) && (exists|j: int|
            0 <= j < entries.len() && (#[trigger] entries[j]).name@ == a.entry.name@
                && (entries[j].kind matches Kind::TagAlias { target_version: Some(t) } && t@
                == a.entry.version@)) ==> a.verdict == Verdict::Retained(Retained::TagTarget)
    } by {
        let a = assessments(entries, entries, policy, now)[i];
        if exists|j: int|
            0 <= j < entries.len() && (#[trigger] entries[j]).name@ == a.entry.name@
                && (entries[j].kind matches Kind::TagAlias { target_version: Some(t) } && t@
                == a.entry.version@) {
            let j = choose|j: int|
                0 <= j < entries.len() && (#[trigger] entries[j]).name@ == a.entry.name@
                    && (entries[j].kind matches Kind::TagAlias { target_version: Some(t) } && t@
                    == a.entry.version@);
            assert(alias_targets(entries[j], a.entry.name@, a.entry.version@));
        }
        if !is_pinned(policy, a.entry.id()) {
            assert forall|k: int| 0 <= k < policy.pinned@.len() implies #[trigger] policy.pinned@[k]@
                != a.entry.name@ + seq!['/'] + a.entry.version@ by {}
        }
    }
}

/// With no prefix every row is kept, in order. Otherwise a row is kept
/// exactly when one of the prefixes, taken whole, is no longer than the row's
/// name and equals the name's first characters; and every kept row is a row
/// of the listing.
pub proof fn filter_keeps_exactly_the_prefixed_rows(
    entries: Seq<SubgraphEntry>,
    prefixes: Seq<String>,
)
    ensures
        prefixes.len() == 0 ==> selected_rows(entries, prefixes) == entries,
        forall|e: SubgraphEntry| #[trigger]
            selected_rows(entries, prefixes).contains(e) ==> entries.contains(e),
        forall|e: SubgraphEntry|
            prefixes.len() > 0 && #[trigger] selected_rows(entries, prefixes).contains(e)
                ==> exists|k: int|
                #![trigger prefixes[k]]
                0 <= k < prefixes.len() && prefixes[k]@.len() <= e.name@.len() && e.name@.subrange(
                    0,
                    prefixes[k]@.len() as int,
                ) == prefixes[k]@,
        forall|j: int, k: int|
            #![trigger entries[j], prefixes[k]]
            0 <= j < entries.len() && 0 <= k < prefixes.len() && prefixes[k]@.len()
                <= entries[j].name@.len() && entries[j].name@.subrange(0, prefixes[k]@.len() as int)
                == prefixes[k]@ ==> selected_rows(entries, prefixes).contains(entries[j]),
{
    if prefixes.len() == 0 {
        assert(prefixes =~= Seq::<String>::empty());
        an_empty_prefix_list_selects_everything(entries);
    }
    let sel = selected_rows(entries, prefixes);
    assert forall|e: SubgraphEntry| #[trigger] sel.contains(e) implies entries.contains(e) && (
    prefixes.len() > 0 ==> exists|k: int|
        #![trigger prefixes[k]]
        0 <= k < prefixes.len() && prefixes[k]@.len() <= e.name@.len() && e.name@.subrange(
            0,
            prefixes[k]@.len() as int,
        ) == prefixes[k]@) by {
        let i = choose|i: int| 0 <= i < sel.len() && sel[i] == e;
        lemma_selected_row_facts(entries, prefixes, i);
        let j = choose|j: int| 0 <= j < entries.len() && entries[j] == sel[i];
        assert(entries[j] == e);
    }
    assert forall|j: int, k: int|
        #![trigger entries[j], prefixes[k]]
        0 <= j < entries.len() && 0 <= k < prefixes.len() && prefixes[k]@.len()
            <= entries[j].name@.len() && entries[j].name@.subrange(0, prefixes[k]@.len() as int)
            == prefixes[k]@ implies sel.contains(entries[j]) by {
        lemma_prefixed_row_kept(entries, prefixes, j, k);
    }
}

/// What one kept row satisfies: it is a row of the listing, and with a
/// non-empty prefix list some prefix begins its name.
proof fn lemma_selected_row_facts(entries: Seq<SubgraphEntry>, prefixes: Seq<String>, i: int)
    requires
        0 <= i < selected_rows(entries, prefixes).len(),
    ensures
        exists|j: int| 0 <= j < entries.len() && entries[j] == selected_rows(entries, prefixes)[i],
        prefixes.len() > 0 ==> exists|k: int|
            #![trigger prefixes[k]]
            0 <= k < prefixes.len() && prefixes[k]@.len() <= selected_rows(
                entries,
                prefixes,
            )[i].name@.len() && selected_rows(entries, prefixes)[i].name@.subrange(
                0,
                prefixes[k]@.len() as int,
            ) == prefixes[k]@,
{
    lemma_selected_members(entries, prefixes);
    let name = selected_rows(entries, prefixes)[i].name@;
    assert(name_selected(name, prefixes));
    if prefixes.len() > 0 {
        let k = choose|k: int| 0 <= k < prefixes.len() && starts_with(name, #[trigger] prefixes[k]@);
        assert(starts_with(name, prefixes[k]@));
    }
}

/// A row whose name begins with one of the prefixes is kept.
proof fn lemma_prefixed_row_kept(entries: Seq<SubgraphEntry>, prefixes: Seq<String>, j: int, k: int)
    requires
        0 <= j < entries.len(),
        0 <= k < prefixes.len(),
        prefixes[k]@.len() <= entries[j].name@.len(),
        entries[j].name@.subrange(0, prefixes[k]@.len() as int) == prefixes[k]@,
    ensures
        exists|i: int|
            0 <= i < selected_rows(entries, prefixes).len() && selected_rows(entries, prefixes)[i]
                == entries[j],
{
    lemma_selected_members(entries, prefixes);
    assert(starts_with(entries[j].name@, prefixes[k]@));
    assert(name_selected(entries[j].name@, prefixes));
}

/// The candidate list is exactly the assessments whose verdict is a
/// candidate, in order, whatever else their entries hold.
pub proof fn candidate_rows_are_the_candidates(s: Seq<Assessment>)
    ensures
        candidate_rows(s) == s.filter(|a: Assessment| a.verdict is Candidate),
    decreases s.len(),
{
    reveal_with_fuel(Seq::<_>::filter, 1);
    if s.len() > 0 {
        candidate_rows_are_the_candidates(s.drop_last());
    }
}

} // verus!
