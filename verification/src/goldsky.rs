//! Reduction of Goldsky listing rows, and a **read-only** handle on Goldsky's
//! subgraph admin API.
//!
//! Read-only by construction: the client holds what the listing `GET` needs,
//! and the only request it prepares is that `GET`. There is deliberately no
//! delete, pause or mutate path here. The prepared request is handed to the
//! application as a reqwest `RequestBuilder` to send; that builder carries the
//! bearer token in its Authorization header and, through reqwest's own API
//! (`build_split`), can give back the underlying HTTP client. Decoding the
//! reply's JSON body is also the application's; this module decides what the
//! reply means.

use crate::classify::{Kind, SubgraphEntry};
use crate::text::{trim_text, trim_trailing_slashes, trimmed, without_trailing_slashes};
use vstd::prelude::*;

verus! {

/// Goldsky's API host.
pub const DEFAULT_API_HOST: &'static str = "https://api.goldsky.com";

/// The listing endpoint. This is the path the Goldsky CLI itself uses.
pub const SUBGRAPHS_PATH: &'static str = "/api/admin/subgraph/v1/subgraphs";

/// Seconds allowed to connect, so a hung endpoint cannot wedge a report.
pub const CONNECT_TIMEOUT_SECS: u64 = 10;

/// Seconds allowed for the whole request.
pub const REQUEST_TIMEOUT_SECS: u64 = 30;

/// The value Goldsky uses for a paused subgraph's `status`.
pub const STATUS_PAUSED: &'static str = "Paused";

#[verifier::external_type_specification]
#[verifier::external_body]
pub struct ExReqwestClient(reqwest::Client);

#[verifier::external_type_specification]
#[verifier::external_body]
pub struct ExReqwestError(reqwest::Error);

#[verifier::external_type_specification]
#[verifier::external_body]
pub struct ExReqwestRequestBuilder(reqwest::RequestBuilder);

#[verifier::external_type_specification]
#[verifier::external_body]
pub struct ExSerdeJsonError(serde_json::Error);

/// What can go wrong while listing.
#[derive(Debug)]
pub enum GoldskyError {
    /// The request itself failed (or the HTTP client could not be built).
    Http(reqwest::Error),
    /// Goldsky answered with a non-success status.
    Api { status: u16, message: String },
    /// A success body that is not a listing.
    Decode(serde_json::Error),
    /// No token was supplied, so no request is made.
    MissingToken,
}

/// One listing row as Goldsky returns it. Only the fields classification
/// needs are modelled; every field but `name` and `version` may be absent
/// upstream and then takes its empty value.
#[derive(Debug, Clone)]
pub struct SubgraphJson {
    pub name: String,
    pub version: String,
    pub tag: Option<TagJson>,
    pub network: String,
    pub status: Option<String>,
    pub graphql_endpoint: String,
    pub deployments: Vec<DeploymentJson>,
}

/// The `tag` object of an alias row.
#[derive(Debug, Clone)]
pub struct TagJson {
    pub target_version: Option<String>,
}

/// One deployment record of a row.
#[derive(Debug, Clone)]
pub struct DeploymentJson {
    /// Epoch millis. Goldsky's CLI reads this field as a JS `Date` argument.
    pub created_at: Option<i64>,
}

/// The largest timestamp among the records that carry one, `None` when no
/// record carries one.
pub open spec fn latest_created(records: Seq<DeploymentJson>) -> Option<i64>
    decreases records.len(),
{
    if records.len() == 0 {
        None
    } else {
        let prev = latest_created(records.drop_last());
        match records.last().created_at {
            None => prev,
            Some(c) => match prev {
                None => Some(c),
                Some(p) => Some(
                    if c > p {
                        c
                    } else {
                        p
                    },
                ),
            },
        }
    }
}

/// The status text marks the row as paused: exactly `"Paused"`.
pub open spec fn is_paused_status(status: Option<String>) -> bool {
    status matches Some(s) && s@ == STATUS_PAUSED@
}

/// The entry a listing row reduces to.
pub open spec fn entry_of(row: SubgraphJson) -> SubgraphEntry {
    SubgraphEntry {
        name: row.name,
        version: row.version,
        network: row.network,
        kind: match row.tag {
            Some(tag) => Kind::TagAlias { target_version: tag.target_version },
            None => Kind::Deployment,
        },
        paused: is_paused_status(row.status),
        created_at_ms: latest_created(row.deployments@),
        graphql_endpoint: row.graphql_endpoint,
    }
}

/// The newest creation time among the deployment records, if any has one.
fn newest_record(records: &Vec<DeploymentJson>) -> (r: Option<i64>)
    ensures
        r == latest_created(records@),
{
    let mut best: Option<i64> = None;
    let mut i: usize = 0;
    while i < records.len()
        invariant
            i <= records@.len(),
            best == latest_created(records@.take(i as int)),
        decreases records@.len() - i,
    {
        proof {
            assert(records@.take(i + 1).drop_last() =~= records@.take(i as int));
        }
        if let Some(c) = records[i].created_at {
            best = match best {
                None => Some(c),
                Some(p) => Some(
                    if c > p {
                        c
                    } else {
                        p
                    },
                ),
            };
        }
        i = i + 1;
    }
    assert(records@.take(i as int) =~= records@);
    best
}

impl SubgraphJson {
    /// Reduce a listing row to the shape classification consumes.
    ///
    /// A row carrying a `tag` object is an alias row, whose `version` is the
    /// tag label rather than a deployed version. Keying on the presence of
    /// `tag` fails safe: an alias can never be mistaken for a deployment and
    /// so can never become a reaping candidate. The creation time is the
    /// newest of the deployment records that carry one.
    pub fn into_entry(self) -> (r: SubgraphEntry)
        ensures
            r == entry_of(self),
    {
        let created_at_ms = newest_record(&self.deployments);
        let kind = match self.tag {
            Some(tag) => Kind::TagAlias { target_version: tag.target_version },
            None => Kind::Deployment,
        };
        let paused = match &self.status {
            Some(s) => *s == String::from_str(STATUS_PAUSED),
            None => false,
        };
        SubgraphEntry {
            name: self.name,
            version: self.version,
            network: self.network,
            kind,
            paused,
            created_at_ms,
            graphql_endpoint: self.graphql_endpoint,
        }
    }
}

/// The entries of a decoded listing, one per row, in order.
pub fn entries_from_rows(rows: Vec<SubgraphJson>) -> (r: Vec<SubgraphEntry>)
    ensures
        r@ == rows@.map_values(|row: SubgraphJson| entry_of(row)),
{
    let ghost all = rows@;
    let mut rest = rows;
    let mut out: Vec<SubgraphEntry> = Vec::new();
    while rest.len() > 0
        invariant
            out@.len() + rest@.len() == all.len(),
            rest@ == all.skip(out@.len() as int),
            out@ == all.take(out@.len() as int).map_values(|row: SubgraphJson| entry_of(row)),
        decreases rest@.len(),
    {
        let ghost done: int = out@.len() as int;
        let row = rest.remove(0);
        out.push(row.into_entry());
        proof {
            assert(rest@ =~= all.skip(done + 1));
            assert(all.take(done + 1).drop_last() =~= all.take(done));
            assert(out@ =~= all.take(done + 1).map_values(|row: SubgraphJson| entry_of(row)));
        }
    }
    assert(all.take(all.len() as int) =~= all);
    out
}

/// The message of a Goldsky error body when it carried one, falling back to
/// the raw body with surrounding white space removed. `message_field` is the
/// body's `message` field as decoded by the caller.
pub fn error_message(message_field: Option<String>, body: &str) -> (r: String)
    ensures
        r@ == match message_field {
            Some(m) => m@,
            None => trim_text(body@),
        },
{
    match message_field {
        Some(m) => m,
        None => trimmed(body),
    }
}

/// An HTTP status in `200..300` (`StatusCode::is_success`).
pub open spec fn is_success_status(status: u16) -> bool {
    200 <= status < 300
}

/// The error a listing reply stands for: `None` for a success status,
/// otherwise an API error carrying the status and the message of the body.
pub fn api_error(status: u16, message_field: Option<String>, body: &str) -> (r: Option<
    GoldskyError,
>)
    ensures
        is_success_status(status) <==> r is None,
        r matches Some(e) ==> e matches GoldskyError::Api { status: s, message } && s == status
            && message@ == match message_field {
            Some(m) => m@,
            None => trim_text(body@),
        },
{
    if 200 <= status && status < 300 {
        None
    } else {
        Some(GoldskyError::Api { status, message: error_message(message_field, body) })
    }
}

/// What a listing reply comes to. The status is judged first: a non-success
/// status is an API error carrying the body's message, whatever the body
/// decodes to. Otherwise a body that did not decode as a listing is a decode
/// error, and a decoded listing gives one entry per row, in order.
/// `decoded` is the caller's decoding of `body` as a listing and
/// `message_field` its decoding of the body's `message` field.
pub fn listing_outcome(
    status: u16,
    message_field: Option<String>,
    decoded: Result<Vec<SubgraphJson>, serde_json::Error>,
    body: &str,
) -> (r: Result<Vec<SubgraphEntry>, GoldskyError>)
    ensures
        !is_success_status(status) ==> (r matches Err(GoldskyError::Api { status: s, message })
            && s == status && message@ == match message_field {
            Some(m) => m@,
            None => trim_text(body@),
        }),
        is_success_status(status) && decoded is Err ==> (r matches Err(GoldskyError::Decode(e))
            && e == decoded->Err_0),
        is_success_status(status) && decoded is Ok ==> (r matches Ok(entries) && entries@
            == decoded->Ok_0@.map_values(|row: SubgraphJson| entry_of(row))),
{
    if let Some(error) = api_error(status, message_field, body) {
        return Err(error);
    }
    match decoded {
        Ok(rows) => Ok(entries_from_rows(rows)),
        Err(e) => Err(GoldskyError::Decode(e)),
    }
}

/// An HTTP client, with the timeouts it was built with.
pub struct HttpClient {
    client: reqwest::Client,
    timeouts: Ghost<(u64, u64)>,
}

impl HttpClient {
    /// The connect timeout and the total request timeout, in seconds, that
    /// the client was built with.
    pub closed spec fn timeouts(self) -> (u64, u64) {
        self.timeouts@
    }
}

/// Builds the HTTP client: reqwest's `Client::builder()`, then
/// `connect_timeout` and `timeout` with the given numbers of seconds, then
/// `build`. The builder stores both timeouts as given, so a built client
/// carries them; that is what the contract records. Whether building
/// succeeds depends on the machine (TLS backend, resolver configuration), so
/// nothing is promised of the outcome.
#[verifier::external_body]
fn build_http_client(connect_secs: u64, request_secs: u64) -> (r: Result<HttpClient, reqwest::Error>)
    ensures
        r matches Ok(c) ==> c.timeouts() == (connect_secs, request_secs),
{
    let built = reqwest::Client::builder().connect_timeout(
        std::time::Duration::from_secs(connect_secs),
    ).timeout(std::time::Duration::from_secs(request_secs)).build();
    match built {
        Ok(client) => Ok(HttpClient { client, timeouts: Ghost((connect_secs, request_secs)) }),
        Err(e) => Err(e),
    }
}

/// A prepared request, with the method, the URL and the bearer token it was
/// prepared with.
pub struct ListingGet {
    request: reqwest::RequestBuilder,
    method: Ghost<Seq<char>>,
    url: Ghost<Seq<char>>,
    bearer: Ghost<Option<Seq<char>>>,
}

impl ListingGet {
    /// The HTTP method of the request: `"GET"` for a request made by `get`.
    pub closed spec fn method(self) -> Seq<char> {
        self.method@
    }

    /// The URL handed to `get`.
    pub closed spec fn url(self) -> Seq<char> {
        self.url@
    }

    /// The token handed to `bearer_auth`, if any.
    pub closed spec fn bearer(self) -> Option<Seq<char>> {
        self.bearer@
    }

    /// The reqwest request, ready to be sent.
    pub closed spec fn builder(self) -> reqwest::RequestBuilder {
        self.request
    }

    /// The request, for the caller to `send`.
    pub fn into_request(self) -> (r: reqwest::RequestBuilder)
        ensures
            r == self.builder(),
    {
        self.request
    }
}

/// Prepares a `GET` of `url` through the client (reqwest's `Client::get`,
/// which is `request(Method::GET, url)`). The contract records the method
/// and the URL handed to the call; no authorization is set.
#[verifier::external_body]
fn prepare_get(http: &HttpClient, url: String) -> (r: ListingGet)
    ensures
        r.method() == "GET"@,
        r.url() == url@,
        r.bearer() == None::<Seq<char>>,
{
    let request = http.client.get(url.as_str());
    ListingGet { request, method: Ghost("GET"@), url: Ghost(url@), bearer: Ghost(None) }
}

/// Adds bearer authentication to a prepared request (reqwest's
/// `RequestBuilder::bearer_auth`). The contract records the token handed to
/// the call; the method and the URL are unchanged.
#[verifier::external_body]
fn with_bearer(get: ListingGet, token: &str) -> (r: ListingGet)
    ensures
        r.method() == get.method(),
        r.url() == get.url(),
        r.bearer() == Some(token@),
{
    let request = get.request.bearer_auth(token);
    ListingGet { request, method: get.method, url: get.url, bearer: Ghost(Some(token@)) }
}

/// A read-only handle on Goldsky's subgraph listing. The only request it
/// prepares is the listing `GET`, and it has no accessor for its HTTP client
/// or its token.
pub struct GoldskyClient {
    http: HttpClient,
    api_host: String,
    token: String,
}

impl GoldskyClient {
    /// The API host, without trailing slashes.
    pub closed spec fn host_text(self) -> Seq<char> {
        self.api_host@
    }

    /// The bearer token.
    pub closed spec fn token_text(self) -> Seq<char> {
        self.token@
    }

    /// The connect and total request timeouts, in seconds, of the client.
    pub closed spec fn timeouts(self) -> (u64, u64) {
        self.http.timeouts()
    }

    /// A client for `api_host` authenticated by `token`. An empty token is
    /// refused before anything else is done; trailing slashes on the host are
    /// dropped so the listing URL never doubles one. The HTTP client gets a
    /// connect timeout of [`CONNECT_TIMEOUT_SECS`] and a total request
    /// timeout of [`REQUEST_TIMEOUT_SECS`], so a slow or hung endpoint cannot
    /// wedge a report.
    pub fn new(api_host: &str, token: &str) -> (r: Result<Self, GoldskyError>)
        ensures
            token@.len() == 0 <==> r matches Err(GoldskyError::MissingToken),
            r matches Err(e) ==> (e is MissingToken || e is Http),
            r matches Ok(c) ==> c.host_text() == trim_trailing_slashes(api_host@) && c.token_text()
                == token@,
            r matches Ok(c) ==> c.timeouts() == (CONNECT_TIMEOUT_SECS, REQUEST_TIMEOUT_SECS),
    {
        if token.is_empty() {
            return Err(GoldskyError::MissingToken);
        }
        let http = match build_http_client(CONNECT_TIMEOUT_SECS, REQUEST_TIMEOUT_SECS) {
            Ok(c) => c,
            Err(e) => return Err(GoldskyError::Http(e)),
        };
        Ok(GoldskyClient { http, api_host: without_trailing_slashes(api_host), token: String::from_str(token) })
    }

    /// The full URL of the listing endpoint.
    pub fn listing_url(&self) -> (r: String)
        ensures
            r@ == self.host_text() + SUBGRAPHS_PATH@,
    {
        let mut out = self.api_host.clone();
        out.append(SUBGRAPHS_PATH);
        out
    }

    /// The listing request: a `GET` of the listing URL carrying the token as
    /// bearer authorization.
    pub fn listing_request(&self) -> (r: ListingGet)
        ensures
            r.method() == "GET"@,
            r.url() == self.host_text() + SUBGRAPHS_PATH@,
            r.bearer() == Some(self.token_text()),
    {
        let get = prepare_get(&self.http, self.listing_url());
        with_bearer(get, self.token.as_str())
    }
}

/// The creation time a row reduces to is the newest timestamp among its
/// deployment records, and is unknown exactly when no record carries one.
pub proof fn latest_created_is_the_newest_record(records: Seq<DeploymentJson>)
    ensures
        latest_created(records) is None <==> forall|i: int|
            0 <= i < records.len() ==> (#[trigger] records[i]).created_at is None,
        latest_created(records) matches Some(m) ==> exists|i: int|
            0 <= i < records.len() && (#[trigger] records[i]).created_at == Some(m),
        latest_created(records) matches Some(m) ==> forall|i: int|
            0 <= i < records.len() && (#[trigger] records[i]).created_at is Some
                ==> records[i].created_at->0 <= m,
    decreases records.len(),
{
    if records.len() > 0 {
        let init = records.drop_last();
        let last: int = records.len() - 1;
        latest_created_is_the_newest_record(init);
        assert forall|i: int| 0 <= i < init.len() implies #[trigger] init[i] == records[i] by {}
        if latest_created(init) is Some && records.last().created_at is None {
            let i = choose|i: int| 0 <= i < init.len() && (#[trigger] init[i]).created_at == latest_created(init);
            assert(records[i] == init[i]);
        }
        if latest_created(records) is None {
            assert forall|i: int| 0 <= i < records.len() implies (#[trigger] records[i]).created_at is None by {
                if i < last {
                    assert(init[i] == records[i]);
                }
            }
        }
        if let Some(m) = latest_created(records) {
            assert forall|i: int| 0 <= i < records.len() && (#[trigger] records[i]).created_at is Some
                implies records[i].created_at->0 <= m by {
                if i < last {
                    assert(init[i] == records[i]);
                }
            }
        }
    }
}

/// An alias row never reduces to a deployment and a deployment row never to
/// an alias: the kind follows the presence of the `tag` object alone. Only
/// the exact status `"Paused"` reads as paused.
pub proof fn reduction_keeps_kind_and_pause(row: SubgraphJson)
    ensures
        entry_of(row).kind is TagAlias <==> row.tag is Some,
        entry_of(row).paused <==> (row.status matches Some(s) && s@ == STATUS_PAUSED@),
        entry_of(row).name == row.name && entry_of(row).version == row.version,
{
}

} // verus!
