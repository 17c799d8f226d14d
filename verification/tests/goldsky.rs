use metaboard_subgraph_report::classify::Kind;
use metaboard_subgraph_report::goldsky::{
    api_error, entries_from_rows, error_message, listing_outcome, DeploymentJson, GoldskyClient, GoldskyError,
    SubgraphJson, TagJson, DEFAULT_API_HOST, SUBGRAPHS_PATH,
};

/// A row carrying only `name` and `version`, every other field at the value
/// an absent field decodes to.
fn row(name: &str, version: &str) -> SubgraphJson {
    SubgraphJson {
        name: name.to_string(),
        version: version.to_string(),
        tag: None,
        network: String::new(),
        status: None,
        graphql_endpoint: String::new(),
        deployments: Vec::new(),
    }
}

fn records(created: &[Option<i64>]) -> Vec<DeploymentJson> {
    created
        .iter()
        .map(|c| DeploymentJson { created_at: *c })
        .collect()
}

/// The `message` field of a JSON error body, as the application decodes it.
fn message_field(body: &str) -> Option<String> {
    serde_json::from_str::<serde_json::Value>(body)
        .ok()
        .and_then(|v| v.get("message").and_then(|m| m.as_str()).map(String::from))
}

// ---------- row reduction ----------

#[test]
fn a_row_without_a_tag_object_is_a_deployment() {
    let mut json = row("metaboard-base", "0xfb84-1106a15");
    json.network = "base".to_string();
    json.status = Some("Active".to_string());
    json.graphql_endpoint = "/api/public/p/subgraphs/metaboard-base/0xfb84-1106a15/gn".to_string();
    json.deployments = records(&[Some(1_700_000_000_000i64)]);
    let entry = json.into_entry();

    assert_eq!(entry.kind, Kind::Deployment);
    assert_eq!(entry.name_and_version(), "metaboard-base/0xfb84-1106a15");
    assert_eq!(entry.network, "base");
    assert!(!entry.paused);
    assert_eq!(entry.created_at_ms, Some(1_700_000_000_000));
}

#[test]
fn a_row_carrying_a_tag_object_is_an_alias() {
    let mut json = row("metaboard-base", "latest");
    json.tag = Some(TagJson {
        target_version: Some("0xfb84-1106a15".to_string()),
    });
    json.network = "base".to_string();
    let entry = json.into_entry();

    assert_eq!(
        entry.kind,
        Kind::TagAlias {
            target_version: Some("0xfb84-1106a15".to_string())
        }
    );
    assert!(entry.is_tag_alias());
}

#[test]
fn a_tag_object_with_no_target_is_a_dangling_alias() {
    let mut json = row("metaboard-base", "latest");
    json.tag = Some(TagJson {
        target_version: None,
    });
    let entry = json.into_entry();

    assert_eq!(
        entry.kind,
        Kind::TagAlias {
            target_version: None
        }
    );
}

#[test]
fn created_at_is_the_newest_of_several_deployment_records() {
    let mut json = row("metaboard-base", "v1");
    json.deployments = records(&[Some(100i64), Some(900i64), Some(500i64)]);
    let entry = json.into_entry();

    assert_eq!(entry.created_at_ms, Some(900));
}

#[test]
fn no_deployment_records_means_an_unknown_creation_time() {
    let entry = row("metaboard-base", "v1").into_entry();

    assert_eq!(entry.created_at_ms, None);
}

#[test]
fn deployment_records_without_a_timestamp_are_skipped() {
    let mut json = row("metaboard-base", "v1");
    json.deployments = records(&[None, Some(42i64)]);
    let entry = json.into_entry();

    assert_eq!(entry.created_at_ms, Some(42));
}

#[test]
fn a_paused_status_is_carried_onto_the_entry() {
    let mut json = row("metaboard-base", "v1");
    json.status = Some("Paused".to_string());
    let entry = json.into_entry();

    assert!(entry.paused);
}

#[test]
fn only_the_exact_paused_status_counts_as_paused() {
    for status in ["Active", "paused", "PAUSED", ""] {
        let mut json = row("metaboard-base", "v1");
        json.status = Some(status.to_string());
        let entry = json.into_entry();
        assert!(!entry.paused, "status {status:?} should not read as paused");
    }
}

#[test]
fn absent_optional_fields_degrade_rather_than_fail() {
    // Only name and version are required; everything else may be missing.
    let entry = row("n", "v").into_entry();
    assert_eq!(entry.network, "");
    assert_eq!(entry.graphql_endpoint, "");
    assert_eq!(entry.created_at_ms, None);
    assert!(!entry.paused);
    assert_eq!(entry.kind, Kind::Deployment);
}

// ---------- error bodies ----------

#[test]
fn the_message_is_lifted_out_of_a_goldsky_error_body() {
    // This is the body the live endpoint returns for an unauthenticated
    // request, captured verbatim.
    let body = r#"{"statusCode":401,"message":"Make sure to run 'goldsky login' before running any commands requiring authorization."}"#;
    assert_eq!(
        error_message(message_field(body), body),
        "Make sure to run 'goldsky login' before running any commands requiring authorization."
    );
}

#[test]
fn a_non_json_error_body_falls_back_to_the_raw_text() {
    let body = "  502 Bad Gateway\n";
    assert_eq!(error_message(message_field(body), body), "502 Bad Gateway");
}

#[test]
fn a_json_error_body_without_a_message_falls_back_to_the_raw_text() {
    let body = r#"{"statusCode":500}"#;
    assert_eq!(
        error_message(message_field(body), body),
        r#"{"statusCode":500}"#
    );
}

// ---------- client construction ----------

#[test]
fn an_empty_token_is_refused_before_any_request_is_made() {
    assert!(matches!(
        GoldskyClient::new(DEFAULT_API_HOST, ""),
        Err(GoldskyError::MissingToken)
    ));
}

#[test]
fn the_listing_url_is_the_host_plus_the_admin_path() {
    let client = GoldskyClient::new("https://api.goldsky.com", "t").unwrap();
    assert_eq!(
        client.listing_url(),
        "https://api.goldsky.com/api/admin/subgraph/v1/subgraphs"
    );
}

#[test]
fn a_trailing_slash_on_the_host_does_not_double_up() {
    let client = GoldskyClient::new("https://api.goldsky.com/", "t").unwrap();
    assert_eq!(
        client.listing_url(),
        "https://api.goldsky.com/api/admin/subgraph/v1/subgraphs"
    );
}

// ---------- further cases ----------

#[test]
fn several_trailing_slashes_are_all_dropped() {
    let client = GoldskyClient::new("http://localhost:8080///", "t").unwrap();
    assert_eq!(
        client.listing_url(),
        format!("http://localhost:8080{SUBGRAPHS_PATH}")
    );
}

#[test]
fn a_tab_and_carriage_return_are_trimmed_from_a_raw_body() {
    let body = "\t\r\n upstream exploded \u{3000}";
    assert_eq!(error_message(None, body), "upstream exploded");
    assert_eq!(error_message(None, " \n\t "), "");
}

#[test]
fn a_message_field_wins_over_the_raw_body() {
    assert_eq!(
        error_message(Some("from field".to_string()), "  raw  "),
        "from field"
    );
}

#[test]
fn a_success_status_is_no_error() {
    assert!(api_error(200, None, "{}").is_none());
    assert!(api_error(299, None, "").is_none());
}

#[test]
fn a_failure_status_becomes_an_api_error_with_its_message() {
    match api_error(401, Some("log in first".to_string()), "{}") {
        Some(GoldskyError::Api { status, message }) => {
            assert_eq!(status, 401);
            assert_eq!(message, "log in first");
        }
        other => panic!("expected an Api error, got {other:?}"),
    }
    match api_error(500, None, "upstream exploded\n") {
        Some(GoldskyError::Api { status, message }) => {
            assert_eq!(status, 500);
            assert_eq!(message, "upstream exploded");
        }
        other => panic!("expected an Api error, got {other:?}"),
    }
    assert!(api_error(199, None, "").is_some());
    assert!(api_error(300, None, "").is_some());
}

#[test]
fn a_decoded_listing_reduces_to_one_entry_per_row_in_order() {
    let mut deployed = row("metaboard-base", "0xfb84-1106a15");
    deployed.deployments = records(&[Some(1_700_000_000_000i64)]);
    let mut tagged = row("metaboard-base", "latest");
    tagged.tag = Some(TagJson {
        target_version: Some("0xfb84-1106a15".to_string()),
    });
    let entries = entries_from_rows(vec![deployed, tagged]);
    assert_eq!(entries.len(), 2);
    assert_eq!(entries[0].kind, Kind::Deployment);
    assert!(entries[1].is_tag_alias());
    assert!(entries_from_rows(Vec::new()).is_empty());
}

#[test]
fn negative_timestamps_still_pick_the_newest_record() {
    let mut json = row("n", "v");
    json.deployments = records(&[Some(-5i64), None, Some(-9i64)]);
    assert_eq!(json.into_entry().created_at_ms, Some(-5));
}

fn decode_error() -> serde_json::Error {
    serde_json::from_str::<serde_json::Value>("not json at all").unwrap_err()
}

#[test]
fn a_failure_status_wins_over_whatever_the_body_decodes_to() {
    match listing_outcome(401, Some("log in".to_string()), Err(decode_error()), "x") {
        Err(GoldskyError::Api { status, message }) => {
            assert_eq!(status, 401);
            assert_eq!(message, "log in");
        }
        other => panic!("expected an Api error, got {other:?}"),
    }
    match listing_outcome(503, None, Ok(vec![row("n", "v")]), " busy ") {
        Err(GoldskyError::Api { status, message }) => {
            assert_eq!(status, 503);
            assert_eq!(message, "busy");
        }
        other => panic!("expected an Api error, got {other:?}"),
    }
}

#[test]
fn a_malformed_success_body_is_a_decode_error() {
    assert!(matches!(
        listing_outcome(200, None, Err(decode_error()), "not json at all"),
        Err(GoldskyError::Decode(_))
    ));
}

#[test]
fn a_decoded_success_body_gives_its_entries_in_order() {
    let mut tagged = row("metaboard-base", "latest");
    tagged.tag = Some(TagJson {
        target_version: Some("v1".to_string()),
    });
    let entries = listing_outcome(200, None, Ok(vec![row("metaboard-base", "v1"), tagged]), "{}")
        .unwrap();
    assert_eq!(entries.len(), 2);
    assert_eq!(entries[0].kind, Kind::Deployment);
    assert!(entries[1].is_tag_alias());
    assert!(listing_outcome(200, None, Ok(Vec::new()), "{}").unwrap().is_empty());
}
