//! The REST API's configuration and the answers its routes give.
//!
//! Serving HTTP and running the job queue is the caller's; which status and
//! body each request gets is decided here.
use vstd::prelude::*;
use crate::text::{chars_of, decimal, decimal_chars, eq_str, parse_u64, parse_unsigned, push_all, push_str, string_of};

verus! {

/// API server configuration.
#[derive(Debug, Clone)]
pub struct ApiConfig {
    pub host: String,
    pub port: u16,
    pub api_key: Option<String>,
}

impl Default for ApiConfig {
    fn default() -> (r: Self)
        ensures
            r.host@ == "127.0.0.1"@,
            r.port == 8081,
            r.api_key is None,
    {
        ApiConfig { host: string_of(&chars_of("127.0.0.1")), port: 8081, api_key: None }
    }
}

/// The address the server binds: `host:port`.
pub fn bind_address(config: &ApiConfig) -> (r: String)
    ensures
        r@ == config.host@ + ":"@ + decimal(config.port as nat),
{
    let mut m = chars_of(config.host.as_str());
    push_str(&mut m, ":");
    push_all(&mut m, &decimal_chars(config.port as u64));
    string_of(&m)
}

/// The only paths an API key is not required on.
pub fn is_health_path(path: &str) -> (r: bool)
    ensures
        r == (path@ == "/api/v1/health"@ || path@ == "/health"@),
{
    let p = chars_of(path);
    eq_str(&p, "/api/v1/health") || eq_str(&p, "/health")
}

/// The health answer, naming the server's version.
pub fn health_response(version: &str) -> (r: (u16, String))
    ensures
        r.0 == 200,
        r.1@ == "{\"status\":\"ok\",\"version\":\""@ + version@ + "\"}"@,
{
    let mut m = chars_of("{\"status\":\"ok\",\"version\":\"");
    push_str(&mut m, version);
    push_str(&mut m, "\"}");
    (200, string_of(&m))
}

/// The job id a path parameter names, as `u64`.
pub fn job_id(text: &str) -> (r: Option<u64>)
    ensures
        match r {
            Some(v) => parse_unsigned(text@, u64::MAX as nat) == Some(v as nat),
            None => parse_unsigned(text@, u64::MAX as nat) is None,
        },
{
    parse_u64(&chars_of(text))
}

/// The answer to a request with a job id that does not parse.
pub fn invalid_job_id() -> (r: (u16, String))
    ensures
        r.0 == 400,
        r.1@ == "{\"error\":\"invalid job id\"}"@,
{
    (400, string_of(&chars_of("{\"error\":\"invalid job id\"}")))
}

/// The answer to a status request for a job the queue does not hold; a job it
/// holds is answered with its JSON.
pub fn job_not_found() -> (r: (u16, String))
    ensures
        r.0 == 404,
        r.1@ == "{\"error\":\"job not found\"}"@,
{
    (404, string_of(&chars_of("{\"error\":\"job not found\"}")))
}

/// The answer to a cancellation, by whether the queue cancelled the job.
pub fn cancel_response(cancelled: bool) -> (r: (u16, String))
    ensures
        cancelled ==> r.0 == 200 && r.1@ == "{\"cancelled\":true}"@,
        !cancelled ==> r.0 == 404 && r.1@ == "{\"error\":\"job not found or not cancellable\"}"@,
{
    if cancelled {
        (200, string_of(&chars_of("{\"cancelled\":true}")))
    } else {
        (404, string_of(&chars_of("{\"error\":\"job not found or not cancellable\"}")))
    }
}

/// The answer to a pause (`true`) or resume (`false`).
pub fn pause_response(paused: bool) -> (r: (u16, String))
    ensures
        r.0 == 200,
        r.1@ == "{\"paused\":"@ + (if paused {
            "true"@
        } else {
            "false"@
        }) + "}"@,
{
    let mut m = chars_of("{\"paused\":");
    push_str(
        &mut m,
        if paused {
            "true"
        } else {
            "false"
        },
    );
    push_str(&mut m, "}");
    (200, string_of(&m))
}

/// What a job submission is answered: refused while the queue is paused,
/// refused with the parse error where the body is not a job request, else
/// queued under `id`.
pub open spec fn submit_spec(paused: bool, parsed: Result<u64, Seq<char>>) -> (u16, Seq<char>) {
    if paused {
        (503, "{\"error\":\"queue is paused\"}"@)
    } else {
        match parsed {
            Err(e) => (400, e),
            Ok(id) => (202, "{\"id\":"@ + decimal(id as nat) + ",\"status\":\"queued\"}"@),
        }
    }
}

/// The answer to a job submission, given whether the queue is paused and
/// either the id the queue gave the job or the body's error (as JSON).
pub fn submit_response(paused: bool, queued: Result<u64, String>) -> (r: (u16, String))
    ensures
        r.0 == submit_spec(
            paused,
            match queued {
                Ok(i) => Ok(i),
                Err(e) => Err(e@),
            },
        ).0,
        r.1@ == submit_spec(
            paused,
            match queued {
                Ok(i) => Ok(i),
                Err(e) => Err(e@),
            },
        ).1,
{
    if paused {
        return (503, string_of(&chars_of("{\"error\":\"queue is paused\"}")));
    }
    match queued {
        Err(e) => (400, e),
        Ok(id) => {
            let mut m = chars_of("{\"id\":");
            push_all(&mut m, &decimal_chars(id));
            push_str(&mut m, ",\"status\":\"queued\"}");
            (202, string_of(&m))
        },
    }
}

/// The Prometheus metrics: the number of jobs in each state.
pub open spec fn metrics_spec(queued: nat, running: nat, completed: nat, failed: nat) -> Seq<char> {
    "# HELP imfwizard_jobs_total Total jobs by state\n# TYPE imfwizard_jobs_total gauge\nimfwizard_jobs_total{state=\"queued\"} "@
        + decimal(queued) + "\nimfwizard_jobs_total{state=\"running\"} "@ + decimal(running)
        + "\nimfwizard_jobs_total{state=\"completed\"} "@ + decimal(completed)
        + "\nimfwizard_jobs_total{state=\"failed\"} "@ + decimal(failed) + "\n"@
}

/// The Prometheus metrics text for the job counts.
pub fn metrics_text(queued: u64, running: u64, completed: u64, failed: u64) -> (r: String)
    ensures
        r@ == metrics_spec(queued as nat, running as nat, completed as nat, failed as nat),
{
    let mut m = chars_of(
        "# HELP imfwizard_jobs_total Total jobs by state\n# TYPE imfwizard_jobs_total gauge\nimfwizard_jobs_total{state=\"queued\"} ",
    );
    push_all(&mut m, &decimal_chars(queued));
    push_str(&mut m, "\nimfwizard_jobs_total{state=\"running\"} ");
    push_all(&mut m, &decimal_chars(running));
    push_str(&mut m, "\nimfwizard_jobs_total{state=\"completed\"} ");
    push_all(&mut m, &decimal_chars(completed));
    push_str(&mut m, "\nimfwizard_jobs_total{state=\"failed\"} ");
    push_all(&mut m, &decimal_chars(failed));
    push_str(&mut m, "\n");
    string_of(&m)
}

} // verus!
