use metaboard_subgraph_report::classify::{
    age_days, classify, filter_by_name_prefixes, Kind, Policy, Report, Retained, SubgraphEntry,
    TagRow, Verdict, MS_PER_DAY,
};

const DAY: i64 = MS_PER_DAY;
/// An arbitrary fixed "now" so ages in tests are exact, not clock-dependent.
const NOW: i64 = 1_700_000_000_000;

fn deployment(name: &str, version: &str, created_at_ms: Option<i64>) -> SubgraphEntry {
    SubgraphEntry {
        name: name.to_string(),
        version: version.to_string(),
        network: "base".to_string(),
        kind: Kind::Deployment,
        paused: false,
        created_at_ms,
        graphql_endpoint: format!("/api/public/p/subgraphs/{name}/{version}/gn"),
    }
}

fn alias(name: &str, label: &str, target: Option<&str>) -> SubgraphEntry {
    SubgraphEntry {
        name: name.to_string(),
        version: label.to_string(),
        network: "base".to_string(),
        kind: Kind::TagAlias {
            target_version: target.map(String::from),
        },
        paused: false,
        created_at_ms: None,
        graphql_endpoint: String::new(),
    }
}

fn policy(min_age_days: i64, pinned: &[&str]) -> Policy {
    Policy {
        min_age_days,
        pinned: pinned.iter().map(|s| s.to_string()).collect(),
    }
}

fn verdict_for<'a>(report: &'a Report, name_and_version: &str) -> &'a Verdict {
    &report
        .deployments
        .iter()
        .find(|a| a.entry.name_and_version() == name_and_version)
        .unwrap_or_else(|| panic!("no assessment for {name_and_version}"))
        .verdict
}

// ---------- age_days ----------

#[test]
fn age_days_floors_to_whole_days() {
    assert_eq!(age_days(NOW - DAY - 1, NOW), 1);
    assert_eq!(age_days(NOW - (2 * DAY) + 1, NOW), 1);
    assert_eq!(age_days(NOW - 2 * DAY, NOW), 2);
}

#[test]
fn age_days_of_now_is_zero() {
    assert_eq!(age_days(NOW, NOW), 0);
}

#[test]
fn age_days_never_goes_negative_for_a_future_timestamp() {
    // A clock skew must not produce a negative age that slips past the
    // `age < min_age_days` window check as if it were very old.
    assert_eq!(age_days(NOW + 5 * DAY, NOW), 0);
    assert_eq!(age_days(i64::MAX, NOW), 0);
}

// ---------- the single-version case ----------

#[test]
fn a_lone_version_is_newest_and_never_a_candidate() {
    let entries = vec![deployment("metaboard-base", "v1", Some(NOW - 900 * DAY))];
    let report = classify(&entries, &policy(30, &[]), NOW);
    assert_eq!(
        verdict_for(&report, "metaboard-base/v1"),
        &Verdict::Retained(Retained::Newest)
    );
    assert_eq!(report.candidates().len(), 0);
}

// ---------- supersession ----------

#[test]
fn an_older_version_superseded_by_a_newer_one_is_a_candidate() {
    let entries = vec![
        deployment("metaboard-base", "old", Some(NOW - 100 * DAY)),
        deployment("metaboard-base", "new", Some(NOW - DAY)),
    ];
    let report = classify(&entries, &policy(30, &[]), NOW);
    assert_eq!(
        verdict_for(&report, "metaboard-base/old"),
        &Verdict::Candidate { age_days: 100 }
    );
    assert_eq!(
        verdict_for(&report, "metaboard-base/new"),
        &Verdict::Retained(Retained::Newest)
    );
}

#[test]
fn supersession_is_scoped_to_one_name() {
    // A newer version of a DIFFERENT name must not supersede this one.
    let entries = vec![
        deployment("metaboard-base", "only", Some(NOW - 100 * DAY)),
        deployment("metaboard-flare", "newer", Some(NOW - DAY)),
    ];
    let report = classify(&entries, &policy(30, &[]), NOW);
    assert_eq!(
        verdict_for(&report, "metaboard-base/only"),
        &Verdict::Retained(Retained::Newest)
    );
    assert_eq!(report.candidates().len(), 0);
}

#[test]
fn only_the_newest_survives_among_many() {
    let entries = vec![
        deployment("metaboard-base", "a", Some(NOW - 300 * DAY)),
        deployment("metaboard-base", "b", Some(NOW - 200 * DAY)),
        deployment("metaboard-base", "c", Some(NOW - 100 * DAY)),
    ];
    let report = classify(&entries, &policy(30, &[]), NOW);
    let candidates: Vec<String> = report
        .candidates()
        .iter()
        .map(|a| a.entry.name_and_version())
        .collect();
    assert_eq!(candidates, vec!["metaboard-base/a", "metaboard-base/b"]);
    assert_eq!(
        verdict_for(&report, "metaboard-base/c"),
        &Verdict::Retained(Retained::Newest)
    );
}

#[test]
fn newest_is_by_timestamp_not_by_listing_order() {
    // The newest row is deliberately listed FIRST, so an implementation
    // that took "last seen" or "first seen" rather than max would differ.
    let entries = vec![
        deployment("metaboard-base", "new", Some(NOW - DAY)),
        deployment("metaboard-base", "old", Some(NOW - 100 * DAY)),
    ];
    let report = classify(&entries, &policy(30, &[]), NOW);
    assert_eq!(
        verdict_for(&report, "metaboard-base/new"),
        &Verdict::Retained(Retained::Newest)
    );
    assert_eq!(
        verdict_for(&report, "metaboard-base/old"),
        &Verdict::Candidate { age_days: 100 }
    );
}

#[test]
fn versions_tied_on_the_newest_timestamp_are_both_retained() {
    let entries = vec![
        deployment("metaboard-base", "a", Some(NOW - 100 * DAY)),
        deployment("metaboard-base", "b", Some(NOW - 100 * DAY)),
    ];
    let report = classify(&entries, &policy(30, &[]), NOW);
    assert_eq!(
        verdict_for(&report, "metaboard-base/a"),
        &Verdict::Retained(Retained::Newest)
    );
    assert_eq!(
        verdict_for(&report, "metaboard-base/b"),
        &Verdict::Retained(Retained::Newest)
    );
    assert_eq!(report.candidates().len(), 0);
}

// ---------- the age window ----------

#[test]
fn a_superseded_version_inside_the_window_is_retained() {
    let entries = vec![
        deployment("metaboard-base", "old", Some(NOW - 29 * DAY)),
        deployment("metaboard-base", "new", Some(NOW)),
    ];
    let report = classify(&entries, &policy(30, &[]), NOW);
    assert_eq!(
        verdict_for(&report, "metaboard-base/old"),
        &Verdict::Retained(Retained::WithinAgeWindow { age_days: 29 })
    );
}

#[test]
fn the_age_window_boundary_is_inclusive_of_the_threshold() {
    // Exactly min_age_days old IS a candidate; one day younger is not.
    let at_threshold = vec![
        deployment("metaboard-base", "old", Some(NOW - 30 * DAY)),
        deployment("metaboard-base", "new", Some(NOW)),
    ];
    assert_eq!(
        verdict_for(
            &classify(&at_threshold, &policy(30, &[]), NOW),
            "metaboard-base/old"
        ),
        &Verdict::Candidate { age_days: 30 }
    );

    let below_threshold = vec![
        deployment("metaboard-base", "old", Some(NOW - 30 * DAY + 1)),
        deployment("metaboard-base", "new", Some(NOW)),
    ];
    assert_eq!(
        verdict_for(
            &classify(&below_threshold, &policy(30, &[]), NOW),
            "metaboard-base/old"
        ),
        &Verdict::Retained(Retained::WithinAgeWindow { age_days: 29 })
    );
}

#[test]
fn a_zero_day_window_still_retains_the_newest() {
    let entries = vec![
        deployment("metaboard-base", "old", Some(NOW)),
        deployment("metaboard-base", "new", Some(NOW + DAY)),
    ];
    let report = classify(&entries, &policy(0, &[]), NOW);
    assert_eq!(
        verdict_for(&report, "metaboard-base/new"),
        &Verdict::Retained(Retained::Newest)
    );
    assert_eq!(
        verdict_for(&report, "metaboard-base/old"),
        &Verdict::Candidate { age_days: 0 }
    );
}

// ---------- tags ----------

#[test]
fn a_tag_target_is_retained_even_when_superseded_and_ancient() {
    let entries = vec![
        deployment("metaboard-base", "tagged", Some(NOW - 900 * DAY)),
        deployment("metaboard-base", "new", Some(NOW)),
        alias("metaboard-base", "latest", Some("tagged")),
    ];
    let report = classify(&entries, &policy(30, &[]), NOW);
    assert_eq!(
        verdict_for(&report, "metaboard-base/tagged"),
        &Verdict::Retained(Retained::TagTarget)
    );
    assert_eq!(report.candidates().len(), 0);
}

#[test]
fn a_tag_only_protects_its_own_name() {
    // An alias under metaboard-flare naming version "shared" must not
    // protect metaboard-base/shared.
    let entries = vec![
        deployment("metaboard-base", "shared", Some(NOW - 100 * DAY)),
        deployment("metaboard-base", "new", Some(NOW)),
        alias("metaboard-flare", "latest", Some("shared")),
    ];
    let report = classify(&entries, &policy(30, &[]), NOW);
    assert_eq!(
        verdict_for(&report, "metaboard-base/shared"),
        &Verdict::Candidate { age_days: 100 }
    );
}

#[test]
fn alias_rows_are_reported_separately_and_never_assessed() {
    let entries = vec![
        deployment("metaboard-base", "v1", Some(NOW)),
        alias("metaboard-base", "latest", Some("v1")),
    ];
    let report = classify(&entries, &policy(30, &[]), NOW);
    assert_eq!(report.deployments.len(), 1);
    assert_eq!(
        report.tags,
        vec![TagRow {
            name: "metaboard-base".to_string(),
            label: "latest".to_string(),
            target_version: Some("v1".to_string()),
        }]
    );
}

#[test]
fn an_alias_is_never_a_candidate_even_if_it_looks_superseded() {
    // The safety property: a row carrying a tag can never be reaped by
    // this tool, whatever its age or position.
    let entries = vec![
        alias("metaboard-base", "ancient-label", Some("v1")),
        deployment("metaboard-base", "v1", Some(NOW)),
        deployment("metaboard-base", "v2", Some(NOW + DAY)),
    ];
    let report = classify(&entries, &policy(0, &[]), NOW);
    for a in &report.deployments {
        assert!(!a.entry.is_tag_alias());
    }
    assert!(
        report
            .candidates()
            .iter()
            .all(|a| a.entry.name_and_version() != "metaboard-base/ancient-label")
    );
}

#[test]
fn a_dangling_tag_is_reported_and_protects_nothing() {
    let entries = vec![
        deployment("metaboard-base", "old", Some(NOW - 100 * DAY)),
        deployment("metaboard-base", "new", Some(NOW)),
        alias("metaboard-base", "latest", None),
    ];
    let report = classify(&entries, &policy(30, &[]), NOW);
    assert_eq!(report.dangling_tags().len(), 1);
    // The dangling tag names no target, so nothing gains protection.
    assert_eq!(
        verdict_for(&report, "metaboard-base/old"),
        &Verdict::Candidate { age_days: 100 }
    );
}

#[test]
fn an_alias_does_not_count_as_the_newest_deployment() {
    // If aliases were folded into the newest calculation, a recent alias
    // row would make a real newest deployment look superseded.
    let entries = vec![
        deployment("metaboard-base", "real", Some(NOW - 100 * DAY)),
        alias("metaboard-base", "latest", Some("real")),
    ];
    let report = classify(&entries, &policy(30, &[]), NOW);
    assert_eq!(
        verdict_for(&report, "metaboard-base/real"),
        &Verdict::Retained(Retained::TagTarget)
    );
}

#[test]
fn an_alias_carrying_its_own_timestamp_does_not_displace_the_newest() {
    // Goldsky can return deployment records on a tag row. Folding those
    // into the newest calculation would make a live, newest deployment
    // look superseded and hand it to a human as a reaping candidate.
    let mut recent_alias = alias("metaboard-base", "latest", None);
    recent_alias.created_at_ms = Some(NOW);
    let entries = vec![
        deployment("metaboard-base", "real", Some(NOW - 100 * DAY)),
        recent_alias,
    ];
    let report = classify(&entries, &policy(30, &[]), NOW);
    assert_eq!(
        verdict_for(&report, "metaboard-base/real"),
        &Verdict::Retained(Retained::Newest)
    );
    assert_eq!(report.candidates().len(), 0);
}

// ---------- pinning ----------

#[test]
fn a_pinned_version_is_retained_however_old_and_superseded() {
    let entries = vec![
        deployment("metaboard-base", "old", Some(NOW - 900 * DAY)),
        deployment("metaboard-base", "new", Some(NOW)),
    ];
    let report = classify(&entries, &policy(30, &["metaboard-base/old"]), NOW);
    assert_eq!(
        verdict_for(&report, "metaboard-base/old"),
        &Verdict::Retained(Retained::Pinned)
    );
    assert_eq!(report.candidates().len(), 0);
}

#[test]
fn pinning_matches_the_full_name_and_version_not_the_version_alone() {
    let entries = vec![
        deployment("metaboard-base", "old", Some(NOW - 900 * DAY)),
        deployment("metaboard-base", "new", Some(NOW)),
    ];
    // Pinning a bare version, or another name's version, must not protect.
    let report = classify(&entries, &policy(30, &["old", "metaboard-flare/old"]), NOW);
    assert_eq!(
        verdict_for(&report, "metaboard-base/old"),
        &Verdict::Candidate { age_days: 900 }
    );
}

// ---------- unknown age ----------

#[test]
fn a_version_with_no_deployment_record_is_retained_as_unknown_age() {
    let entries = vec![
        deployment("metaboard-base", "undated", None),
        deployment("metaboard-base", "new", Some(NOW)),
    ];
    let report = classify(&entries, &policy(30, &[]), NOW);
    assert_eq!(
        verdict_for(&report, "metaboard-base/undated"),
        &Verdict::Retained(Retained::UnknownAge)
    );
    assert_eq!(report.candidates().len(), 0);
}

#[test]
fn undated_rows_do_not_establish_a_newest_for_their_name() {
    let entries = vec![deployment("metaboard-base", "undated", None)];
    let report = classify(&entries, &policy(30, &[]), NOW);
    assert_eq!(
        verdict_for(&report, "metaboard-base/undated"),
        &Verdict::Retained(Retained::UnknownAge)
    );
}

// ---------- precedence ----------

#[test]
fn pinning_takes_precedence_over_every_other_reason() {
    let entries = vec![
        deployment("metaboard-base", "old", Some(NOW - 900 * DAY)),
        deployment("metaboard-base", "new", Some(NOW)),
        alias("metaboard-base", "latest", Some("old")),
    ];
    let report = classify(&entries, &policy(30, &["metaboard-base/old"]), NOW);
    assert_eq!(
        verdict_for(&report, "metaboard-base/old"),
        &Verdict::Retained(Retained::Pinned)
    );
}

#[test]
fn a_tag_target_outranks_unknown_age() {
    let entries = vec![
        deployment("metaboard-base", "undated", None),
        alias("metaboard-base", "latest", Some("undated")),
    ];
    let report = classify(&entries, &policy(30, &[]), NOW);
    assert_eq!(
        verdict_for(&report, "metaboard-base/undated"),
        &Verdict::Retained(Retained::TagTarget)
    );
}

// ---------- paused ----------

#[test]
fn paused_is_carried_through_but_does_not_by_itself_make_a_candidate() {
    let mut paused = deployment("metaboard-base", "only", Some(NOW - 900 * DAY));
    paused.paused = true;
    let report = classify(&[paused], &policy(30, &[]), NOW);
    assert_eq!(
        verdict_for(&report, "metaboard-base/only"),
        &Verdict::Retained(Retained::Newest)
    );
    assert!(report.deployments[0].entry.paused);
}

// ---------- filtering ----------

#[test]
fn the_prefix_filter_anchors_at_the_start_of_the_name() {
    let entries = vec![
        deployment("metaboard-base", "v", Some(NOW)),
        deployment("not-metaboard-base", "v", Some(NOW)),
    ];
    let kept = filter_by_name_prefixes(&entries, &[String::from("metaboard")]);
    assert_eq!(kept.len(), 1);
    assert_eq!(kept[0].name, "metaboard-base");
}

#[test]
fn the_prefix_filter_accepts_several_prefixes() {
    let entries = vec![
        deployment("metaboard-base", "v", Some(NOW)),
        deployment("metadata-base", "v", Some(NOW)),
        deployment("unrelated", "v", Some(NOW)),
    ];
    let kept = filter_by_name_prefixes(
        &entries,
        &[String::from("metaboard"), String::from("metadata")],
    );
    let names: Vec<&str> = kept.iter().map(|e| e.name.as_str()).collect();
    assert_eq!(names, vec!["metaboard-base", "metadata-base"]);
}

#[test]
fn an_empty_prefix_list_matches_everything() {
    let entries = vec![
        deployment("metaboard-base", "v", Some(NOW)),
        deployment("unrelated", "v", Some(NOW)),
    ];
    assert_eq!(filter_by_name_prefixes(&entries, &[]).len(), 2);
}

#[test]
fn the_filter_keeps_alias_rows_so_tags_still_protect_after_filtering() {
    // Dropping aliases at the filter step would silently strip the
    // protection a tag confers.
    let entries = vec![
        deployment("metaboard-base", "old", Some(NOW - 900 * DAY)),
        deployment("metaboard-base", "new", Some(NOW)),
        alias("metaboard-base", "latest", Some("old")),
    ];
    let kept = filter_by_name_prefixes(&entries, &[String::from("metaboard")]);
    let report = classify(&kept, &policy(30, &[]), NOW);
    assert_eq!(
        verdict_for(&report, "metaboard-base/old"),
        &Verdict::Retained(Retained::TagTarget)
    );
}

// ---------- shape ----------

#[test]
fn an_empty_listing_produces_an_empty_report() {
    let report = classify(&[], &policy(30, &[]), NOW);
    assert!(report.deployments.is_empty());
    assert!(report.tags.is_empty());
    assert_eq!(report.candidates().len(), 0);
}

#[test]
fn name_and_version_joins_with_a_slash() {
    assert_eq!(
        deployment("metaboard-base", "0xabc-1106a15", None).name_and_version(),
        "metaboard-base/0xabc-1106a15"
    );
}

#[test]
fn assessments_preserve_the_input_order_of_deployment_rows() {
    let entries = vec![
        deployment("metaboard-base", "a", Some(NOW - 300 * DAY)),
        alias("metaboard-base", "latest", Some("c")),
        deployment("metaboard-base", "b", Some(NOW - 200 * DAY)),
        deployment("metaboard-base", "c", Some(NOW - 100 * DAY)),
    ];
    let report = classify(&entries, &policy(30, &[]), NOW);
    let order: Vec<String> = report
        .deployments
        .iter()
        .map(|a| a.entry.version.clone())
        .collect();
    assert_eq!(order, vec!["a", "b", "c"]);
}

#[test]
fn the_default_policy_pins_nothing_and_uses_a_thirty_day_window() {
    let default = Policy::default();
    assert_eq!(default.min_age_days, 30);
    assert!(default.pinned.is_empty());
}


// ---------- further cases ----------

#[test]
fn filtering_never_changes_the_verdict_of_a_kept_row() {
    let entries = vec![
        deployment("metaboard-base", "old", Some(NOW - 900 * DAY)),
        deployment("metaboard-base", "mid", Some(NOW - 100 * DAY)),
        deployment("metaboard-base", "new", Some(NOW)),
        alias("metaboard-base", "latest", Some("old")),
        deployment("unrelated", "newer", Some(NOW + DAY)),
    ];
    let whole = classify(&entries, &policy(30, &[]), NOW);
    let kept = filter_by_name_prefixes(&entries, &[String::from("metaboard")]);
    let filtered = classify(&kept, &policy(30, &[]), NOW);
    assert_eq!(filtered.deployments.len(), 3);
    for a in &filtered.deployments {
        assert_eq!(
            &a.verdict,
            verdict_for(&whole, &a.entry.name_and_version()),
            "verdict changed for {}",
            a.entry.name_and_version()
        );
    }
}

#[test]
fn every_dated_name_keeps_a_retained_version() {
    let entries = vec![
        deployment("metaboard-base", "a", Some(NOW - 300 * DAY)),
        deployment("metaboard-base", "b", Some(NOW - 200 * DAY)),
        deployment("metaboard-flare", "c", Some(NOW - 100 * DAY)),
        deployment("metaboard-flare", "d", Some(NOW - 400 * DAY)),
    ];
    let report = classify(&entries, &policy(0, &[]), NOW);
    for name in ["metaboard-base", "metaboard-flare"] {
        assert!(report
            .deployments
            .iter()
            .any(|a| a.entry.name == name && !a.verdict.is_candidate()));
    }
    assert_eq!(report.candidates().len(), 2);
}

#[test]
fn a_candidate_reports_the_whole_days_since_creation() {
    let entries = vec![
        deployment("metaboard-base", "old", Some(NOW - 45 * DAY - DAY / 2)),
        deployment("metaboard-base", "new", Some(NOW)),
    ];
    let report = classify(&entries, &policy(45, &[]), NOW);
    assert_eq!(
        verdict_for(&report, "metaboard-base/old"),
        &Verdict::Candidate { age_days: 45 }
    );
}

#[test]
fn age_days_saturates_instead_of_overflowing() {
    assert_eq!(age_days(i64::MIN, i64::MAX), i64::MAX / DAY);
    assert_eq!(age_days(i64::MAX, i64::MIN), 0);
    assert_eq!(age_days(-DAY, 0), 1);
}

#[test]
fn dangling_tags_are_listed_in_order() {
    let entries = vec![
        alias("metaboard-base", "first", None),
        alias("metaboard-base", "pointing", Some("v1")),
        alias("metaboard-flare", "second", None),
    ];
    let report = classify(&entries, &policy(30, &[]), NOW);
    let labels: Vec<&str> = report
        .dangling_tags()
        .iter()
        .map(|t| t.label.as_str())
        .collect();
    assert_eq!(labels, vec!["first", "second"]);
    assert!(!report.tags[1].is_dangling());
    assert!(report.tags[0].is_dangling());
}

#[test]
fn a_prefix_must_match_from_the_first_character() {
    let entries = vec![
        deployment("metaboard", "v", Some(NOW)),
        deployment("metaboar", "v", Some(NOW)),
        deployment("Metaboard-base", "v", Some(NOW)),
    ];
    let kept = filter_by_name_prefixes(&entries, &[String::from("metaboard")]);
    assert_eq!(kept.len(), 1);
    assert_eq!(kept[0].name, "metaboard");
    let everything = filter_by_name_prefixes(&entries, &[String::new()]);
    assert_eq!(everything.len(), 3);
}

#[test]
fn a_verdict_is_a_candidate_only_when_it_says_so() {
    assert!(Verdict::Candidate { age_days: 0 }.is_candidate());
    assert!(!Verdict::Retained(Retained::Newest).is_candidate());
    assert!(!Verdict::Retained(Retained::WithinAgeWindow { age_days: 3 }).is_candidate());
}

#[test]
fn is_tag_alias_follows_the_kind() {
    assert!(alias("n", "latest", None).is_tag_alias());
    assert!(!deployment("n", "v", None).is_tag_alias());
    assert_eq!(
        deployment("ünïcode", "v/2", None).name_and_version(),
        "ünïcode/v/2"
    );
}
