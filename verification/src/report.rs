//! Rendering of a classified listing.
//!
//! Three forms: a human table, the candidate list, and the document model of
//! the machine-readable report. Both reports state explicitly that
//! per-subgraph usage metrics are unavailable, so neither can be mistaken for
//! a usage-based report.
//!
//! Nothing here emits a runnable delete command or a shell script: the
//! candidate list is `name/version` identifiers only. Reaping is a human's
//! decision and a human's keystroke.

use crate::classify::{
    candidate_rows, candidate_rows_are_the_candidates, days_elapsed, Assessment, Policy, Report, Retained, TagRow, Verdict,
    age_days,
};
use crate::text::{
    int_text, join, join_strings, pad_left, pad_right, push_count, push_int, push_padded_left,
    push_padded_right, texts,
};
use vstd::prelude::*;

verus! {

/// Stated in every report: Goldsky's subgraph admin API exposes no query
/// count, no bandwidth and no last-query timestamp, so "unused" cannot be
/// measured and "superseded" is what is actually reported.
pub const USAGE_CAVEAT: &'static str = "Goldsky's subgraph admin API exposes no per-subgraph usage metrics (no query count, no bandwidth, no last-query timestamp). Candidates below are SUPERSEDED, not proven unused: each is an untagged, unpinned version that a newer version of the same name has replaced. Confirm nothing queries a candidate before reaping it.";

// ---------- reasons ----------

/// The stable machine-readable reason for a verdict.
pub open spec fn reason_code_text(v: Verdict) -> Seq<char> {
    match v {
        Verdict::Retained(Retained::Pinned) => "pinned"@,
        Verdict::Retained(Retained::TagTarget) => "tag-target"@,
        Verdict::Retained(Retained::UnknownAge) => "unknown-age"@,
        Verdict::Retained(Retained::Newest) => "newest"@,
        Verdict::Retained(Retained::WithinAgeWindow { .. }) => "within-age-window"@,
        Verdict::Candidate { .. } => "superseded"@,
    }
}

/// Stable machine-readable reason for a verdict.
pub fn reason_code(verdict: &Verdict) -> (r: &'static str)
    ensures
        r@ == reason_code_text(*verdict),
{
    match verdict {
        Verdict::Retained(Retained::Pinned) => "pinned",
        Verdict::Retained(Retained::TagTarget) => "tag-target",
        Verdict::Retained(Retained::UnknownAge) => "unknown-age",
        Verdict::Retained(Retained::Newest) => "newest",
        Verdict::Retained(Retained::WithinAgeWindow { .. }) => "within-age-window",
        Verdict::Candidate { .. } => "superseded",
    }
}

/// The human-readable one-liner for a verdict.
pub open spec fn reason_line(v: Verdict) -> Seq<char> {
    match v {
        Verdict::Retained(Retained::Pinned) => "retained: pinned by caller"@,
        Verdict::Retained(Retained::TagTarget) => "retained: a tag resolves here"@,
        Verdict::Retained(Retained::UnknownAge) => "retained: no deployment record, age unknown"@,
        Verdict::Retained(Retained::Newest) => "retained: newest for this name"@,
        Verdict::Retained(Retained::WithinAgeWindow { age_days }) => "retained: superseded but only "@
            + int_text(age_days as int) + "d old"@,
        Verdict::Candidate { age_days } => "CANDIDATE: superseded, "@ + int_text(age_days as int)
            + "d old"@,
    }
}

/// Human-readable one-liner for a verdict.
pub fn reason_text(verdict: &Verdict) -> (r: String)
    ensures
        r@ == reason_line(*verdict),
{
    match verdict {
        Verdict::Retained(Retained::Pinned) => String::from_str("retained: pinned by caller"),
        Verdict::Retained(Retained::TagTarget) => String::from_str("retained: a tag resolves here"),
        Verdict::Retained(Retained::UnknownAge) => String::from_str(
            "retained: no deployment record, age unknown",
        ),
        Verdict::Retained(Retained::Newest) => String::from_str("retained: newest for this name"),
        Verdict::Retained(Retained::WithinAgeWindow { age_days }) => {
            let mut out = String::from_str("retained: superseded but only ");
            push_int(&mut out, *age_days);
            out.append("d old");
            out
        },
        Verdict::Candidate { age_days } => {
            let mut out = String::from_str("CANDIDATE: superseded, ");
            push_int(&mut out, *age_days);
            out.append("d old");
            out
        },
    }
}

/// The age of the assessed row in whole days, when its creation time is known.
pub open spec fn age_of(a: Assessment, now: i64) -> Option<int> {
    match a.entry.created_at_ms {
        Some(c) => Some(days_elapsed(c as int, now as int)),
        None => None,
    }
}

fn assessment_age(assessment: &Assessment, now_ms: i64) -> (r: Option<i64>)
    ensures
        r is Some <==> age_of(*assessment, now_ms) is Some,
        r matches Some(d) ==> age_of(*assessment, now_ms) == Some(d as int),
{
    match assessment.entry.created_at_ms {
        Some(c) => Some(age_days(c, now_ms)),
        None => None,
    }
}

// ---------- the candidate list ----------

/// The `name/version` identifiers of the candidates, in order.
pub open spec fn candidate_ids(deployments: Seq<Assessment>) -> Seq<Seq<char>> {
    candidate_rows(deployments).map_values(|a: Assessment| a.entry.id())
}

/// Candidate identifiers, one `name/version` per line, for a human to act on.
pub fn render_candidates(report: &Report) -> (r: String)
    ensures
        r@ == join(candidate_ids(report.deployments@), "\n"@),
        r@ == join(
            report.deployments@.filter(|a: Assessment| a.verdict is Candidate).map_values(
                |a: Assessment| a.entry.id(),
            ),
            "\n"@,
        ),
{
    let candidates = report.candidates();
    let mut ids: Vec<String> = Vec::new();
    let mut i: usize = 0;
    while i < candidates.len()
        invariant
            i <= candidates@.len(),
            candidates@.map_values(|a: &Assessment| *a) == candidate_rows(report.deployments@),
            ids@.len() == i,
            forall|k: int| 0 <= k < i ==> (#[trigger] ids@[k])@ == candidates@[k].entry.id(),
        decreases candidates@.len() - i,
    {
        ids.push(candidates[i].entry.name_and_version());
        i = i + 1;
    }
    let r = join_strings(ids.as_slice(), "\n");
    proof {
        assert(texts(ids@) =~= candidate_ids(report.deployments@)) by {
            assert forall|k: int| 0 <= k < ids@.len() implies texts(ids@)[k] == candidate_ids(
                report.deployments@,
            )[k] by {
                assert(candidates@.map_values(|a: &Assessment| *a)[k] == *candidates@[k]);
            }
        }
        candidate_rows_are_the_candidates(report.deployments@);
    }
    r
}


// ---------- the table ----------

/// The number of bytes of `s` as `str::len` reports it. A string held in
/// memory is shorter than `usize::MAX` bytes, so this is its UTF-8 length.
pub open spec fn byte_len(s: Seq<char>) -> nat {
    (vstd::utf8::encode_utf8(s).len() as usize) as nat
}

/// The widest `name/version` identifier, in bytes; zero when there is none.
pub open spec fn id_width(rows: Seq<Assessment>) -> nat
    decreases rows.len(),
{
    if rows.len() == 0 {
        0
    } else {
        let w = byte_len(rows.last().entry.id());
        let prev = id_width(rows.drop_last());
        if w > prev {
            w
        } else {
            prev
        }
    }
}

/// The widest network name, in bytes; zero when there is none.
pub open spec fn network_width(rows: Seq<Assessment>) -> nat
    decreases rows.len(),
{
    if rows.len() == 0 {
        0
    } else {
        let w = byte_len(rows.last().entry.network@);
        let prev = network_width(rows.drop_last());
        if w > prev {
            w
        } else {
            prev
        }
    }
}

/// How the prefixes a report ran under are displayed.
pub open spec fn prefix_display(prefixes: Seq<String>) -> Seq<char> {
    if prefixes.len() == 0 {
        "<all>"@
    } else {
        join(texts(prefixes), ", "@)
    }
}

/// The first line of the table and the blank line after it.
pub open spec fn table_header(policy: Policy, prefixes: Seq<String>) -> Seq<char> {
    "Deployed subgraphs matching prefix(es) "@ + prefix_display(prefixes) + " (window: "@
        + int_text(policy.min_age_days as int) + "d)\n\n"@
}

/// The age column of a row: whole days with a `d`, or `?` when unknown.
pub open spec fn age_cell(a: Assessment, now: i64) -> Seq<char> {
    match age_of(a, now) {
        Some(d) => int_text(d) + "d"@,
        None => "?"@,
    }
}

/// One line of the table: identifier and network left-aligned to their
/// column widths, the age right-aligned in five characters, the reason, and
/// a paused marker.
pub open spec fn row_line(a: Assessment, idw: nat, netw: nat, now: i64) -> Seq<char> {
    pad_right(a.entry.id(), idw) + "  "@ + pad_right(a.entry.network@, netw) + "  "@ + pad_left(
        age_cell(a, now),
        5,
    ) + "  "@ + reason_line(a.verdict) + (if a.entry.paused {
        " [paused]"@
    } else {
        Seq::empty()
    }) + "\n"@
}

/// The last character of every reason line: none of them ends in `]`.
proof fn lemma_reason_line_last(v: Verdict)
    ensures
        reason_line(v).len() > 0,
        reason_line(v).last() != ']',
{
    reveal_strlit("retained: pinned by caller");
    reveal_strlit("retained: a tag resolves here");
    reveal_strlit("retained: no deployment record, age unknown");
    reveal_strlit("retained: newest for this name");
    reveal_strlit("d old");
    let line = reason_line(v);
    match v {
        Verdict::Retained(Retained::WithinAgeWindow { age_days }) => {
            let head = "retained: superseded but only "@ + int_text(age_days as int);
            assert(line == head + "d old"@);
            assert(line.last() == "d old"@[4]);
        },
        Verdict::Candidate { age_days } => {
            let head = "CANDIDATE: superseded, "@ + int_text(age_days as int);
            assert(line == head + "d old"@);
            assert(line.last() == "d old"@[4]);
        },
        _ => {},
    }
}

/// The paused marker follows the entry's paused flag alone: a table row ends
/// with ` [paused]` and its newline exactly when its entry is paused,
/// whatever the verdict, the widths and the clock.
pub proof fn paused_marker_follows_paused_alone(a: Assessment, idw: nat, netw: nat, now: i64)
    ensures
        a.entry.paused <==> (row_line(a, idw, netw, now).len() >= 10 && row_line(
            a,
            idw,
            netw,
            now,
        ).subrange(row_line(a, idw, netw, now).len() - 10, row_line(a, idw, netw, now).len() as int)
            == " [paused]\n"@),
{
    reveal_strlit(" [paused]\n");
    reveal_strlit(" [paused]");
    reveal_strlit("\n");
    let line = row_line(a, idw, netw, now);
    let marker = " [paused]\n"@;
    let pre = pad_right(a.entry.id(), idw) + "  "@ + pad_right(a.entry.network@, netw) + "  "@
        + pad_left(age_cell(a, now), 5) + "  "@ + reason_line(a.verdict);
    if a.entry.paused {
        assert(line == pre + " [paused]"@ + "\n"@);
        assert(line.subrange(line.len() - 10, line.len() as int) =~= marker);
    } else {
        assert(line == pre + Seq::<char>::empty() + "\n"@);
        lemma_reason_line_last(a.verdict);
        let reason = reason_line(a.verdict);
        assert(pre == (pad_right(a.entry.id(), idw) + "  "@ + pad_right(a.entry.network@, netw)
            + "  "@ + pad_left(age_cell(a, now), 5) + "  "@) + reason);
        assert(line[line.len() - 2] == reason.last());
        if line.len() >= 10 && line.subrange(line.len() - 10, line.len() as int) == marker {
            assert(line.subrange(line.len() - 10, line.len() as int)[8] == line[line.len() - 2]);
            assert(marker[8] == ']');
        }
    }
}

/// The lines of `rows`, in order.
pub open spec fn row_lines(rows: Seq<Assessment>, idw: nat, netw: nat, now: i64) -> Seq<char>
    decreases rows.len(),
{
    if rows.len() == 0 {
        Seq::empty()
    } else {
        row_lines(rows.drop_last(), idw, netw, now) + row_line(rows.last(), idw, netw, now)
    }
}

/// The deployment section of the table.
pub open spec fn deployment_section(rows: Seq<Assessment>, now: i64) -> Seq<char> {
    if rows.len() == 0 {
        "No deployed versions matched.\n"@
    } else {
        row_lines(rows, id_width(rows), network_width(rows), now)
    }
}

/// One alias line: where the alias resolves, or that it dangles.
pub open spec fn tag_line(t: TagRow) -> Seq<char> {
    match t.target_version {
        Some(target) => "  "@ + t.name@ + "/"@ + t.label@ + " -> "@ + t.name@ + "/"@ + target@
            + "\n"@,
        None => "  "@ + t.name@ + "/"@ + t.label@ + " -> [no target] (dangling)\n"@,
    }
}

/// The alias lines of `tags`, in order.
pub open spec fn tag_lines(tags: Seq<TagRow>) -> Seq<char>
    decreases tags.len(),
{
    if tags.len() == 0 {
        Seq::empty()
    } else {
        tag_lines(tags.drop_last()) + tag_line(tags.last())
    }
}

/// The alias section of the table, absent when there is no alias.
pub open spec fn tag_section(tags: Seq<TagRow>) -> Seq<char> {
    if tags.len() == 0 {
        Seq::empty()
    } else {
        "\nTag aliases\n"@ + tag_lines(tags)
    }
}

/// The counts line and the usage caveat that close the table.
pub open spec fn table_footer(deployments: Seq<Assessment>, tags: Seq<TagRow>) -> Seq<char> {
    "\n"@ + int_text(deployments.len() as int) + " deployed version(s), "@ + int_text(
        tags.len() as int,
    ) + " tag alias(es), "@ + int_text(candidate_rows(deployments).len() as int)
        + " reaping candidate(s).\n"@ + "\n"@ + USAGE_CAVEAT@ + "\n"@
}

/// The whole human table.
pub open spec fn table_text(
    deployments: Seq<Assessment>,
    tags: Seq<TagRow>,
    policy: Policy,
    prefixes: Seq<String>,
    now: i64,
) -> Seq<char> {
    table_header(policy, prefixes) + deployment_section(deployments, now) + tag_section(tags)
        + table_footer(deployments, tags)
}

fn widths(rows: &Vec<Assessment>) -> (r: (usize, usize))
    ensures
        r.0 as nat == id_width(rows@),
        r.1 as nat == network_width(rows@),
{
    let mut idw: usize = 0;
    let mut netw: usize = 0;
    let mut i: usize = 0;
    while i < rows.len()
        invariant
            i <= rows@.len(),
            idw as nat == id_width(rows@.take(i as int)),
            netw as nat == network_width(rows@.take(i as int)),
        decreases rows@.len() - i,
    {
        proof {
            assert(rows@.take(i + 1).drop_last() =~= rows@.take(i as int));
        }
        let id = rows[i].entry.name_and_version();
        let w: usize = id.as_str().len();
        if w > idw {
            idw = w;
        }
        let n: usize = rows[i].entry.network.as_str().len();
        if n > netw {
            netw = n;
        }
        i = i + 1;
    }
    assert(rows@.take(i as int) =~= rows@);
    (idw, netw)
}

fn push_row(out: &mut String, a: &Assessment, idw: usize, netw: usize, now_ms: i64)
    ensures
        final(out)@ == old(out)@ + row_line(*a, idw as nat, netw as nat, now_ms),
{
    let ghost start = out@;
    let id = a.entry.name_and_version();
    push_padded_right(out, id.as_str(), idw);
    out.append("  ");
    push_padded_right(out, a.entry.network.as_str(), netw);
    out.append("  ");
    let age = match assessment_age(a, now_ms) {
        Some(d) => {
            let mut t = String::new();
            push_int(&mut t, d);
            t.append("d");
            t
        },
        None => String::from_str("?"),
    };
    assert(age@ == age_cell(*a, now_ms));
    push_padded_left(out, age.as_str(), 5);
    out.append("  ");
    let reason = reason_text(&a.verdict);
    out.append(reason.as_str());
    if a.entry.paused {
        out.append(" [paused]");
    }
    out.append("\n");
    assert(out@ =~= start + row_line(*a, idw as nat, netw as nat, now_ms));
}

fn push_tag_line(out: &mut String, t: &TagRow)
    ensures
        final(out)@ == old(out)@ + tag_line(*t),
{
    let ghost start = out@;
    out.append("  ");
    out.append(t.name.as_str());
    out.append("/");
    out.append(t.label.as_str());
    match &t.target_version {
        Some(target) => {
            out.append(" -> ");
            out.append(t.name.as_str());
            out.append("/");
            out.append(target.as_str());
            out.append("\n");
        },
        None => {
            out.append(" -> [no target] (dangling)\n");
        },
    }
    assert(out@ =~= start + tag_line(*t));
}

fn push_header(out: &mut String, policy: &Policy, name_prefixes: &[String])
    ensures
        final(out)@ == old(out)@ + table_header(*policy, name_prefixes@),
{
    let ghost start = out@;
    out.append("Deployed subgraphs matching prefix(es) ");
    if name_prefixes.len() == 0 {
        out.append("<all>");
    } else {
        let joined = join_strings(name_prefixes, ", ");
        out.append(joined.as_str());
    }
    out.append(" (window: ");
    push_int(out, policy.min_age_days);
    out.append("d)\n\n");
    assert(out@ =~= start + table_header(*policy, name_prefixes@));
}

fn push_deployment_section(out: &mut String, rows: &Vec<Assessment>, now_ms: i64)
    ensures
        final(out)@ == old(out)@ + deployment_section(rows@, now_ms),
{
    let ghost start = out@;
    if rows.len() == 0 {
        out.append("No deployed versions matched.\n");
    } else {
        let (idw, netw) = widths(rows);
        let mut i: usize = 0;
        while i < rows.len()
            invariant
                i <= rows@.len(),
                idw as nat == id_width(rows@),
                netw as nat == network_width(rows@),
                out@ == start + row_lines(rows@.take(i as int), idw as nat, netw as nat, now_ms),
            decreases rows@.len() - i,
        {
            proof {
                assert(rows@.take(i + 1).drop_last() =~= rows@.take(i as int));
            }
            push_row(out, &rows[i], idw, netw, now_ms);
            i = i + 1;
            assert(out@ =~= start + row_lines(rows@.take(i as int), idw as nat, netw as nat, now_ms));
        }
        assert(rows@.take(i as int) =~= rows@);
    }
}

fn push_tag_section(out: &mut String, tags: &Vec<TagRow>)
    ensures
        final(out)@ == old(out)@ + tag_section(tags@),
{
    let ghost start = out@;
    if tags.len() > 0 {
        out.append("\nTag aliases\n");
        let ghost tag_start = out@;
        let mut j: usize = 0;
        while j < tags.len()
            invariant
                j <= tags@.len(),
                out@ == tag_start + tag_lines(tags@.take(j as int)),
            decreases tags@.len() - j,
        {
            proof {
                assert(tags@.take(j + 1).drop_last() =~= tags@.take(j as int));
            }
            push_tag_line(out, &tags[j]);
            j = j + 1;
            assert(out@ =~= tag_start + tag_lines(tags@.take(j as int)));
        }
        assert(tags@.take(j as int) =~= tags@);
        assert(out@ =~= start + tag_section(tags@));
    } else {
        assert(out@ =~= start + tag_section(tags@));
    }
}

fn push_footer(out: &mut String, report: &Report)
    ensures
        final(out)@ == old(out)@ + table_footer(report.deployments@, report.tags@),
{
    let ghost start = out@;
    let candidates = report.candidates();
    proof {
        assert(candidates@.len() == candidates@.map_values(|a: &Assessment| *a).len());
    }
    out.append("\n");
    push_count(out, report.deployments.len());
    out.append(" deployed version(s), ");
    push_count(out, report.tags.len());
    out.append(" tag alias(es), ");
    push_count(out, candidates.len());
    out.append(" reaping candidate(s).\n");
    out.append("\n");
    out.append(USAGE_CAVEAT);
    out.append("\n");
    assert(out@ =~= start + table_footer(report.deployments@, report.tags@));
}

/// The human table.
pub fn render_table(report: &Report, policy: &Policy, name_prefixes: &[String], now_ms: i64) -> (r:
    String)
    ensures
        r@ == table_text(report.deployments@, report.tags@, *policy, name_prefixes@, now_ms),
{
    let mut out = String::new();
    push_header(&mut out, policy, name_prefixes);
    push_deployment_section(&mut out, &report.deployments, now_ms);
    push_tag_section(&mut out, &report.tags);
    push_footer(&mut out, report);
    assert(out@ =~= table_text(report.deployments@, report.tags@, *policy, name_prefixes@, now_ms));
    out
}


// ---------- the machine-readable report ----------

/// One deployed version as the machine-readable report lists it.
#[derive(Debug, Clone, PartialEq, Eq)]
pub struct DeploymentRecord {
    pub name: String,
    pub version: String,
    pub name_and_version: String,
    pub network: String,
    pub paused: bool,
    pub created_at_ms: Option<i64>,
    /// `None` when the creation time is unknown.
    pub age_days: Option<i64>,
    pub graphql_endpoint: String,
    /// `"candidate"` or `"retained"`.
    pub verdict: String,
    /// The reason code of the verdict.
    pub reason: String,
}

/// One alias row as the machine-readable report lists it.
#[derive(Debug, Clone, PartialEq, Eq)]
pub struct TagRecord {
    pub name: String,
    pub label: String,
    pub target_version: Option<String>,
    pub dangling: bool,
}

/// The policy a report ran under, echoed into it.
#[derive(Debug, Clone, PartialEq, Eq)]
pub struct PolicyRecord {
    pub name_prefixes: Vec<String>,
    pub min_age_days: i64,
    /// The pinned identifiers, each once, in increasing order.
    pub pinned: Vec<String>,
}

/// The machine-readable report: every value the JSON document carries, in
/// the shape the document has.
#[derive(Debug, Clone, PartialEq, Eq)]
pub struct ReportDocument {
    pub generated_at_ms: i64,
    /// Always `false`: Goldsky exposes no usage metrics.
    pub usage_metrics_available: bool,
    pub caveat: String,
    pub policy: PolicyRecord,
    pub deployments: Vec<DeploymentRecord>,
    pub tags: Vec<TagRecord>,
    /// The candidate identifiers, in order.
    pub candidates: Vec<String>,
}

/// `"candidate"` for a candidate, `"retained"` otherwise.
pub open spec fn verdict_word(v: Verdict) -> Seq<char> {
    if v is Candidate {
        "candidate"@
    } else {
        "retained"@
    }
}

/// `d` lists the assessment `a`.
pub open spec fn lists_assessment(d: DeploymentRecord, a: Assessment, now: i64) -> bool {
    &&& d.name@ == a.entry.name@
    &&& d.version@ == a.entry.version@
    &&& d.name_and_version@ == a.entry.id()
    &&& d.network@ == a.entry.network@
    &&& d.paused == a.entry.paused
    &&& d.created_at_ms == a.entry.created_at_ms
    &&& match d.age_days {
        Some(x) => age_of(a, now) == Some(x as int),
        None => age_of(a, now) is None,
    }
    &&& d.graphql_endpoint@ == a.entry.graphql_endpoint@
    &&& d.verdict@ == verdict_word(a.verdict)
    &&& d.reason@ == reason_code_text(a.verdict)
}

/// The verdict word of a record is "candidate" exactly when the verdict it
/// lists is a candidate; every retention, whatever its reason, reads
/// "retained".
pub proof fn record_verdict_word_is_candidacy(d: DeploymentRecord, a: Assessment, now: i64)
    requires
        lists_assessment(d, a, now),
    ensures
        (d.verdict@ == "candidate"@) <==> (a.verdict is Candidate),
        !(a.verdict is Candidate) ==> d.verdict@ == "retained"@,
{
    reveal_strlit("candidate");
    reveal_strlit("retained");
    assert("candidate"@[0] != "retained"@[0]);
}

/// `r` lists the tag row `t`.
pub open spec fn lists_tag(r: TagRecord, t: TagRow) -> bool {
    &&& r.name@ == t.name@
    &&& r.label@ == t.label@
    &&& r.target_version == t.target_version
    &&& r.dangling == (t.target_version is None)
}

fn deployment_record(a: &Assessment, now_ms: i64) -> (r: DeploymentRecord)
    ensures
        lists_assessment(r, *a, now_ms),
{
    let verdict = if a.verdict.is_candidate() {
        String::from_str("candidate")
    } else {
        String::from_str("retained")
    };
    DeploymentRecord {
        name: a.entry.name.clone(),
        version: a.entry.version.clone(),
        name_and_version: a.entry.name_and_version(),
        network: a.entry.network.clone(),
        paused: a.entry.paused,
        created_at_ms: a.entry.created_at_ms,
        age_days: assessment_age(a, now_ms),
        graphql_endpoint: a.entry.graphql_endpoint.clone(),
        verdict,
        reason: String::from_str(reason_code(&a.verdict)),
    }
}

fn tag_record(t: &TagRow) -> (r: TagRecord)
    ensures
        lists_tag(r, *t),
{
    TagRecord {
        name: t.name.clone(),
        label: t.label.clone(),
        target_version: match &t.target_version {
            Some(v) => Some(v.clone()),
            None => None,
        },
        dangling: t.is_dangling(),
    }
}

fn copy_strings(items: &[String]) -> (r: Vec<String>)
    ensures
        r@ == items@,
{
    let mut out: Vec<String> = Vec::new();
    let mut i: usize = 0;
    while i < items.len()
        invariant
            i <= items@.len(),
            out@ == items@.take(i as int),
        decreases items@.len() - i,
    {
        out.push(items[i].clone());
        i = i + 1;
        assert(out@ =~= items@.take(i as int));
    }
    assert(items@.take(i as int) =~= items@);
    out
}

/// The machine-readable report: the clock reading it was made at, the usage
/// caveat, the policy it ran under, one record per deployed version and per
/// alias, and the candidate identifiers.
pub fn report_document(report: &Report, policy: &Policy, name_prefixes: &[String], now_ms: i64) -> (r:
    ReportDocument)
    ensures
        r.generated_at_ms == now_ms,
        !r.usage_metrics_available,
        r.caveat@ == USAGE_CAVEAT@,
        r.policy.name_prefixes@ == name_prefixes@,
        r.policy.min_age_days == policy.min_age_days,
        crate::text::strictly_increasing(texts(r.policy.pinned@)),
        forall|i: int|
            0 <= i < policy.pinned@.len() ==> crate::text::has_text(
                r.policy.pinned@,
                #[trigger] policy.pinned@[i]@,
            ),
        forall|j: int|
            0 <= j < r.policy.pinned@.len() ==> crate::text::has_text(
                policy.pinned@,
                #[trigger] r.policy.pinned@[j]@,
            ),
        r.deployments@.len() == report.deployments@.len(),
        forall|i: int|
            0 <= i < report.deployments@.len() ==> lists_assessment(
                #[trigger] r.deployments@[i],
                report.deployments@[i],
                now_ms,
            ),
        r.tags@.len() == report.tags@.len(),
        forall|i: int|
            0 <= i < report.tags@.len() ==> lists_tag(#[trigger] r.tags@[i], report.tags@[i]),
        texts(r.candidates@) == candidate_ids(report.deployments@),
        forall|i: int|
            0 <= i < report.deployments@.len() ==> ((#[trigger] r.deployments@[i]).verdict@
                == "candidate"@ <==> report.deployments@[i].verdict is Candidate),
        forall|i: int|
            0 <= i < report.deployments@.len() && !(report.deployments@[i].verdict is Candidate)
                ==> (#[trigger] r.deployments@[i]).verdict@ == "retained"@,
        texts(r.candidates@) == report.deployments@.filter(
            |a: Assessment| a.verdict is Candidate,
        ).map_values(|a: Assessment| a.entry.id()),
{
    let mut deployments: Vec<DeploymentRecord> = Vec::new();
    let mut i: usize = 0;
    while i < report.deployments.len()
        invariant
            i <= report.deployments@.len(),
            deployments@.len() == i,
            forall|k: int|
                0 <= k < i ==> lists_assessment(
                    #[trigger] deployments@[k],
                    report.deployments@[k],
                    now_ms,
                ),
        decreases report.deployments@.len() - i,
    {
        deployments.push(deployment_record(&report.deployments[i], now_ms));
        i = i + 1;
    }
    let mut tags: Vec<TagRecord> = Vec::new();
    let mut j: usize = 0;
    while j < report.tags.len()
        invariant
            j <= report.tags@.len(),
            tags@.len() == j,
            forall|k: int| 0 <= k < j ==> lists_tag(#[trigger] tags@[k], report.tags@[k]),
        decreases report.tags@.len() - j,
    {
        tags.push(tag_record(&report.tags[j]));
        j = j + 1;
    }
    let found = report.candidates();
    let mut candidates: Vec<String> = Vec::new();
    let mut c: usize = 0;
    while c < found.len()
        invariant
            c <= found@.len(),
            found@.map_values(|a: &Assessment| *a) == candidate_rows(report.deployments@),
            candidates@.len() == c,
            forall|k: int| 0 <= k < c ==> (#[trigger] candidates@[k])@ == found@[k].entry.id(),
        decreases found@.len() - c,
    {
        candidates.push(found[c].entry.name_and_version());
        c = c + 1;
    }
    proof {
        assert forall|k: int| 0 <= k < candidates@.len() implies texts(candidates@)[k]
            == candidate_ids(report.deployments@)[k] by {
            assert(found@.map_values(|a: &Assessment| *a)[k] == *found@[k]);
        }
        assert(texts(candidates@) =~= candidate_ids(report.deployments@));
        candidate_rows_are_the_candidates(report.deployments@);
        assert forall|k: int| 0 <= k < deployments@.len() implies ((#[trigger] deployments@[k]).verdict@
            == "candidate"@ <==> report.deployments@[k].verdict is Candidate) && (!(
        report.deployments@[k].verdict is Candidate) ==> deployments@[k].verdict@ == "retained"@) by {
            record_verdict_word_is_candidacy(deployments@[k], report.deployments@[k], now_ms);
        }
    }
    ReportDocument {
        generated_at_ms: now_ms,
        usage_metrics_available: false,
        caveat: String::from_str(USAGE_CAVEAT),
        policy: PolicyRecord {
            name_prefixes: copy_strings(name_prefixes),
            min_age_days: policy.min_age_days,
            pinned: crate::text::sorted_distinct(&policy.pinned),
        },
        deployments,
        tags,
        candidates,
    }
}


// ---------- properties of the reasons ----------

/// Which of the six kinds of verdict `v` is.
pub open spec fn verdict_kind(v: Verdict) -> int {
    match v {
        Verdict::Retained(Retained::Pinned) => 0,
        Verdict::Retained(Retained::TagTarget) => 1,
        Verdict::Retained(Retained::UnknownAge) => 2,
        Verdict::Retained(Retained::Newest) => 3,
        Verdict::Retained(Retained::WithinAgeWindow { .. }) => 4,
        Verdict::Candidate { .. } => 5,
    }
}

/// Every kind of verdict has its own reason code, so a consumer of the
/// machine-readable report can tell every reason apart; the code of a
/// candidate names supersession.
pub proof fn reason_codes_are_distinct(v1: Verdict, v2: Verdict)
    ensures
        verdict_kind(v1) != verdict_kind(v2) ==> reason_code_text(v1) != reason_code_text(v2),
        v1 is Candidate ==> reason_code_text(v1) == "superseded"@,
{
    reveal_strlit("pinned");
    reveal_strlit("tag-target");
    reveal_strlit("unknown-age");
    reveal_strlit("newest");
    reveal_strlit("within-age-window");
    reveal_strlit("superseded");
    let codes = seq![
        "pinned"@,
        "tag-target"@,
        "unknown-age"@,
        "newest"@,
        "within-age-window"@,
        "superseded"@,
    ];
    assert(codes[0].len() == 6 && codes[3].len() == 6 && codes[0][0] != codes[3][0]);
    assert(codes[1].len() == 10 && codes[5].len() == 10 && codes[1][0] != codes[5][0]);
    assert(codes[2].len() == 11 && codes[4].len() == 17);
    assert forall|a: int, b: int| 0 <= a < 6 && 0 <= b < 6 && a != b implies #[trigger] codes[a] != #[trigger] codes[b] by {
        if codes[a].len() == codes[b].len() {
            assert(codes[a][0] != codes[b][0]);
        }
    }
    assert(reason_code_text(v1) == codes[verdict_kind(v1)]);
    assert(reason_code_text(v2) == codes[verdict_kind(v2)]);
}

/// `t` occurs somewhere in `s`.
pub open spec fn contains_text(s: Seq<char>, t: Seq<char>) -> bool {
    exists|i: int| 0 <= i && i + t.len() <= s.len() && #[trigger] s.subrange(i, i + t.len()) == t
}

proof fn lemma_digits_are_not_c(n: nat)
    ensures
        forall|k: int| 0 <= k < crate::text::digits_of(n).len() ==> #[trigger] crate::text::digits_of(n)[k] != 'C',
    decreases n,
{
    if n >= 10 {
        lemma_digits_are_not_c(n / 10);
        let prev = crate::text::digits_of(n / 10);
        assert forall|k: int| 0 <= k < crate::text::digits_of(n).len() implies #[trigger] crate::text::digits_of(n)[k] != 'C' by {
            if k < prev.len() {
                assert(crate::text::digits_of(n)[k] == prev[k]);
            }
        }
    }
}

proof fn lemma_int_text_is_not_c(n: int)
    ensures
        forall|k: int| 0 <= k < int_text(n).len() ==> #[trigger] int_text(n)[k] != 'C',
{
    if n < 0 {
        lemma_digits_are_not_c((-n) as nat);
        let d = crate::text::digits_of((-n) as nat);
        assert forall|k: int| 0 <= k < int_text(n).len() implies #[trigger] int_text(n)[k] != 'C' by {
            if k > 0 {
                assert(int_text(n)[k] == d[k - 1]);
            }
        }
    } else {
        lemma_digits_are_not_c(n as nat);
    }
}

/// Only a candidate reads as a candidate: the text of a retained verdict
/// starts with `retained:` and never contains `CANDIDATE`, and the text of a
/// candidate starts with `CANDIDATE`.
pub proof fn only_candidates_read_as_candidates(v: Verdict)
    ensures
        !(v is Candidate) ==> crate::text::starts_with(reason_line(v), "retained:"@),
        !(v is Candidate) ==> !contains_text(reason_line(v), "CANDIDATE"@),
        v is Candidate ==> crate::text::starts_with(reason_line(v), "CANDIDATE"@),
{
    reveal_strlit("retained:");
    reveal_strlit("CANDIDATE");
    reveal_strlit("retained: pinned by caller");
    reveal_strlit("retained: a tag resolves here");
    reveal_strlit("retained: no deployment record, age unknown");
    reveal_strlit("retained: newest for this name");
    reveal_strlit("retained: superseded but only ");
    reveal_strlit("d old");
    reveal_strlit("CANDIDATE: superseded, ");
    let line = reason_line(v);
    match v {
        Verdict::Candidate { age_days } => {
            assert(line.subrange(0, 9) =~= "CANDIDATE"@);
        },
        Verdict::Retained(r) => {
            assert(line.subrange(0, 9) =~= "retained:"@);
            if let Retained::WithinAgeWindow { age_days } = r {
                lemma_int_text_is_not_c(age_days as int);
                let a = "retained: superseded but only "@;
                let b = int_text(age_days as int);
                assert forall|k: int| 0 <= k < line.len() implies #[trigger] line[k] != 'C' by {
                    if k < a.len() {
                        assert(line[k] == a[k]);
                    } else if k < a.len() + b.len() {
                        assert(line[k] == b[k - a.len()]);
                    } else {
                        assert(line[k] == "d old"@[k - a.len() - b.len()]);
                    }
                }
            }
            assert forall|k: int| 0 <= k < line.len() implies #[trigger] line[k] != 'C' by {}
            if contains_text(line, "CANDIDATE"@) {
                let i = choose|i: int|
                    0 <= i && i + "CANDIDATE"@.len() <= line.len() && #[trigger] line.subrange(
                        i,
                        i + "CANDIDATE"@.len(),
                    ) == "CANDIDATE"@;
                assert(line.subrange(i, i + 9)[0] == line[i]);
            }
        },
    }
}


// ---------- the layout of the table ----------

proof fn lemma_row_lines_in_order(rows: Seq<Assessment>, idw: nat, netw: nat, now: i64)
    ensures
        row_lines(rows, idw, netw, now) == rows.map_values(
            |a: Assessment| row_line(a, idw, netw, now),
        ).flatten(),
    decreases rows.len(),
{
    let m = rows.map_values(|a: Assessment| row_line(a, idw, netw, now));
    m.lemma_flatten_and_flatten_alt_are_equivalent();
    if rows.len() > 0 {
        lemma_row_lines_in_order(rows.drop_last(), idw, netw, now);
        let init = rows.drop_last().map_values(|a: Assessment| row_line(a, idw, netw, now));
        assert(init =~= m.drop_last());
        init.lemma_flatten_and_flatten_alt_are_equivalent();
    } else {
        assert(m =~= Seq::<Seq<char>>::empty());
    }
}

proof fn lemma_tag_lines_in_order(tags: Seq<TagRow>)
    ensures
        tag_lines(tags) == tags.map_values(|t: TagRow| tag_line(t)).flatten(),
    decreases tags.len(),
{
    let m = tags.map_values(|t: TagRow| tag_line(t));
    m.lemma_flatten_and_flatten_alt_are_equivalent();
    if tags.len() > 0 {
        lemma_tag_lines_in_order(tags.drop_last());
        let init = tags.drop_last().map_values(|t: TagRow| tag_line(t));
        assert(init =~= m.drop_last());
        init.lemma_flatten_and_flatten_alt_are_equivalent();
    } else {
        assert(m =~= Seq::<Seq<char>>::empty());
    }
}

proof fn lemma_widths_are_maxima(rows: Seq<Assessment>)
    ensures
        forall|i: int|
            0 <= i < rows.len() ==> byte_len((#[trigger] rows[i]).entry.id()) <= id_width(rows)
                && byte_len(rows[i].entry.network@) <= network_width(rows),
        rows.len() > 0 ==> exists|i: int|
            0 <= i < rows.len() && byte_len((#[trigger] rows[i]).entry.id()) == id_width(rows),
        rows.len() > 0 ==> exists|j: int|
            0 <= j < rows.len() && byte_len((#[trigger] rows[j]).entry.network@) == network_width(
                rows,
            ),
    decreases rows.len(),
{
    if rows.len() > 0 {
        let init = rows.drop_last();
        let last: int = rows.len() - 1;
        lemma_widths_are_maxima(init);
        assert forall|i: int| 0 <= i < init.len() implies #[trigger] init[i] == rows[i] by {}
        if init.len() > 0 {
            let i = choose|i: int| 0 <= i < init.len() && byte_len((#[trigger] init[i]).entry.id()) == id_width(init);
            let j = choose|j: int| 0 <= j < init.len() && byte_len((#[trigger] init[j]).entry.network@) == network_width(init);
            assert(rows[i] == init[i]);
            assert(rows[j] == init[j]);
        }
        assert(rows[last] == rows.last());
        assert forall|i: int| 0 <= i < rows.len() implies byte_len((#[trigger] rows[i]).entry.id())
            <= id_width(rows) && byte_len(rows[i].entry.network@) <= network_width(rows) by {
            if i < last {
                assert(init[i] == rows[i]);
            }
        }
    }
}

/// How the table is laid out: the header; then "No deployed versions
/// matched." when there is no deployment, else one line per assessment, in
/// order, with the identifier and network columns padded to the widest
/// identifier and network (in bytes); then, when there are aliases, a
/// "Tag aliases" section with one line per alias, in order; then the counts
/// and the usage caveat.
pub proof fn table_layout(
    deployments: Seq<Assessment>,
    tags: Seq<TagRow>,
    policy: Policy,
    prefixes: Seq<String>,
    now: i64,
)
    ensures
        table_text(deployments, tags, policy, prefixes, now) == table_header(policy, prefixes) + (
        if deployments.len() == 0 {
            "No deployed versions matched.\n"@
        } else {
            deployments.map_values(
                |a: Assessment| row_line(a, id_width(deployments), network_width(deployments), now),
            ).flatten()
        }) + (if tags.len() == 0 {
            Seq::empty()
        } else {
            "\nTag aliases\n"@ + tags.map_values(|t: TagRow| tag_line(t)).flatten()
        }) + table_footer(deployments, tags),
        forall|i: int|
            0 <= i < deployments.len() ==> byte_len((#[trigger] deployments[i]).entry.id())
                <= id_width(deployments) && byte_len(deployments[i].entry.network@)
                <= network_width(deployments),
        deployments.len() > 0 ==> exists|i: int|
            0 <= i < deployments.len() && byte_len((#[trigger] deployments[i]).entry.id())
                == id_width(deployments),
        deployments.len() > 0 ==> exists|j: int|
            0 <= j < deployments.len() && byte_len((#[trigger] deployments[j]).entry.network@)
                == network_width(deployments),
{
    lemma_row_lines_in_order(deployments, id_width(deployments), network_width(deployments), now);
    lemma_tag_lines_in_order(tags);
    lemma_widths_are_maxima(deployments);
}

} // verus!
