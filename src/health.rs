use vstd::prelude::*;
use vstd::string::*;

verus! {

/// How long a probe waits for the backend when no other timeout is given.
pub const DEFAULT_TIMEOUT_MS: u64 = 5000;

/// The base URL used when the host configures none.
pub open spec fn default_base_url() -> Seq<char> {
    "http://localhost:8000"@
}

/// The path of the health endpoint, under the base URL.
pub open spec fn health_path() -> Seq<char> {
    "/health"@
}

/// Where the backend listens: a base URL, fixed for the life of the process.
pub struct BackendEndpoint {
    base_url: String,
}

impl View for BackendEndpoint {
    type V = Seq<char>;

    closed spec fn view(&self) -> Seq<char> {
        self.base_url@
    }
}

impl BackendEndpoint {
    pub fn new(base_url: String) -> (r: BackendEndpoint)
        ensures
            r@ == base_url@,
    {
        BackendEndpoint { base_url }
    }

    /// The configured base URL where there is one, the local default otherwise.
    pub fn resolve(configured: Option<String>) -> (r: BackendEndpoint)
        ensures
            r@ == match configured {
                Some(s) => s@,
                None => default_base_url(),
            },
    {
        match configured {
            Some(base_url) => BackendEndpoint { base_url },
            None => BackendEndpoint { base_url: String::from_str("http://localhost:8000") },
        }
    }

    pub fn base_url(&self) -> (r: &str)
        ensures
            r@ == self@,
    {
        self.base_url.as_str()
    }

    /// The URL of the health endpoint: the base URL followed by `/health`.
    pub fn health_url(&self) -> (r: String)
        ensures
            r@ == self@ + health_path(),
    {
        self.base_url.clone().concat("/health")
    }
}

/// One GET request for the host to send.
#[derive(Debug)]
pub struct HealthRequest {
    pub url: String,
    pub timeout_ms: u64,
}

/// What became of a health request: a response with its status code, or no
/// response at all (refused connection, failed name lookup, timeout).
#[derive(Debug)]
pub enum ProbeOutcome {
    Response(u16),
    Failed(String),
}

/// Outcome of one health probe of the backend.
#[derive(Debug)]
pub enum HealthStatus {
    Healthy,
    Unhealthy(u16),
    Unreachable(String),
}

/// Whether an HTTP status code lies in the success range (2xx).
pub open spec fn is_success_code(code: u16) -> bool {
    200 <= code && code <= 299
}

/// The rule of a probe: a success status is healthy, any other status is
/// unhealthy, and no response is unreachable, with the reason kept.
pub open spec fn status_matches(outcome: ProbeOutcome, status: HealthStatus) -> bool {
    match outcome {
        ProbeOutcome::Response(code) => if is_success_code(code) {
            status is Healthy
        } else {
            status == HealthStatus::Unhealthy(code)
        },
        ProbeOutcome::Failed(reason) => status is Unreachable && status->Unreachable_0@ == reason@,
    }
}

/// Checks whether the backend answers on its health endpoint. Each check is
/// one request, with no retry and no state kept between checks.
pub struct HealthProbe {
    endpoint: BackendEndpoint,
    timeout_ms: u64,
}

impl HealthProbe {
    pub closed spec fn spec_endpoint(&self) -> Seq<char> {
        self.endpoint@
    }

    pub closed spec fn spec_timeout_ms(&self) -> u64 {
        self.timeout_ms
    }

    /// A probe with the default timeout.
    pub fn new(endpoint: BackendEndpoint) -> (r: HealthProbe)
        ensures
            r.spec_endpoint() == endpoint@,
            r.spec_timeout_ms() == DEFAULT_TIMEOUT_MS,
    {
        HealthProbe { endpoint, timeout_ms: DEFAULT_TIMEOUT_MS }
    }

    pub fn with_timeout(endpoint: BackendEndpoint, timeout_ms: u64) -> (r: HealthProbe)
        ensures
            r.spec_endpoint() == endpoint@,
            r.spec_timeout_ms() == timeout_ms,
    {
        HealthProbe { endpoint, timeout_ms }
    }

    pub fn timeout_ms(&self) -> (r: u64)
        ensures
            r == self.spec_timeout_ms(),
    {
        self.timeout_ms
    }

    pub fn endpoint(&self) -> (r: &BackendEndpoint)
        ensures
            r@ == self.spec_endpoint(),
    {
        &self.endpoint
    }

    /// The single request that a check sends.
    pub fn request(&self) -> (r: HealthRequest)
        ensures
            r.url@ == self.spec_endpoint() + health_path(),
            r.timeout_ms == self.spec_timeout_ms(),
    {
        HealthRequest { url: self.endpoint.health_url(), timeout_ms: self.timeout_ms }
    }

    /// Classifies what became of the request.
    pub fn classify(outcome: ProbeOutcome) -> (r: HealthStatus)
        ensures
            status_matches(outcome, r),
    {
        match outcome {
            ProbeOutcome::Response(code) => classify_status(code),
            ProbeOutcome::Failed(reason) => HealthStatus::Unreachable(reason),
        }
    }
}

/// Classifies the status code of a completed health request.
pub fn classify_status(code: u16) -> (r: HealthStatus)
    ensures
        status_matches(ProbeOutcome::Response(code), r),
{
    if 200 <= code && code <= 299 {
        HealthStatus::Healthy
    } else {
        HealthStatus::Unhealthy(code)
    }
}

/// The reply that the host shows for a probe's result.
pub fn status_reply(status: &HealthStatus) -> (r: Result<String, String>)
    ensures
        match status {
            HealthStatus::Healthy => r is Ok && r->Ok_0@ == "Backend conectado"@,
            HealthStatus::Unhealthy(_) => r is Err && r->Err_0@
                == "Backend no responde correctamente"@,
            HealthStatus::Unreachable(_) => r is Err && r->Err_0@
                == "No se puede conectar al backend"@,
        },
{
    match status {
        HealthStatus::Healthy => Ok(String::from_str("Backend conectado")),
        HealthStatus::Unhealthy(_) => Err(String::from_str("Backend no responde correctamente")),
        HealthStatus::Unreachable(_) => Err(String::from_str("No se puede conectar al backend")),
    }
}

/// The answer to "is the backend up?" for what became of one health request:
/// `Ok` with a confirmation where the backend answered with success, `Err`
/// with the reason otherwise.
pub fn check_backend_status(outcome: ProbeOutcome) -> (r: Result<String, String>)
    ensures
        match outcome {
            ProbeOutcome::Response(code) => if is_success_code(code) {
                r is Ok && r->Ok_0@ == "Backend conectado"@
            } else {
                r is Err && r->Err_0@ == "Backend no responde correctamente"@
            },
            ProbeOutcome::Failed(_) => r is Err && r->Err_0@ == "No se puede conectar al backend"@,
        },
{
    let status = HealthProbe::classify(outcome);
    status_reply(&status)
}

pub const SPACE: u8 = 32;

pub const CARRIAGE_RETURN: u8 = 13;

pub open spec fn is_digit(b: u8) -> bool {
    48 <= b && b <= 57
}

/// The bytes `HTTP/` that open every HTTP/1.x status line.
pub open spec fn http_prefix() -> Seq<u8> {
    seq![72u8, 84u8, 84u8, 80u8, 47u8]
}

/// `line` is `HTTP/<version> <three digits>`, the version free of spaces and
/// its end at `s`, followed by the end of the line, a space (before the reason
/// phrase) or a carriage return.
pub open spec fn status_at(line: Seq<u8>, s: int) -> bool {
    &&& 5 < s && s + 4 <= line.len()
    &&& line.take(5) == http_prefix()
    &&& forall|j: int| 5 <= j < s ==> line[j] != SPACE
    &&& line[s] == SPACE
    &&& is_digit(line[s + 1]) && is_digit(line[s + 2]) && is_digit(line[s + 3])
    &&& (s + 4 == line.len() || line[s + 4] == SPACE || line[s + 4] == CARRIAGE_RETURN)
}

/// The three digits after position `s`, read as a decimal number.
pub open spec fn code_at(line: Seq<u8>, s: int) -> u16 {
    ((line[s + 1] - 48) * 100 + (line[s + 2] - 48) * 10 + (line[s + 3] - 48)) as u16
}

/// Reads the status code from the first line of an HTTP/1.x response.
pub fn parse_status_line(line: &[u8]) -> (r: Option<u16>)
    ensures
        match r {
            Some(code) => exists|s: int| status_at(line@, s) && code == code_at(line@, s),
            None => forall|s: int| !status_at(line@, s),
        },
{
    let n = line.len();
    if n < 5 || line[0] != 72 || line[1] != 84 || line[2] != 84 || line[3] != 80 || line[4]
        != 47 {
        proof {
            assert forall|s: int| !status_at(line@, s) by {
                if 5 < s && s + 4 <= line@.len() && line@.take(5) == http_prefix() {
                    assert(line@.take(5)[0] == line@[0]);
                    assert(line@.take(5)[1] == line@[1]);
                    assert(line@.take(5)[2] == line@[2]);
                    assert(line@.take(5)[3] == line@[3]);
                    assert(line@.take(5)[4] == line@[4]);
                }
            }
        }
        return None;
    }
    proof {
        assert(line@.take(5) =~= http_prefix());
    }
    let mut s: usize = 5;
    while s < n && line[s] != SPACE
        invariant
            5 <= s <= n,
            n == line@.len(),
            forall|j: int| 5 <= j < s ==> line@[j] != SPACE,
        decreases n - s,
    {
        s = s + 1;
    }
    if s == 5 || n - s < 4 {
        proof {
            assert forall|t: int| !status_at(line@, t) by {
                if status_at(line@, t) {
                    if t > s {
                        assert(line@[s as int] != SPACE);
                    }
                }
            }
        }
        return None;
    }
    let d1 = line[s + 1];
    let d2 = line[s + 2];
    let d3 = line[s + 3];
    let ok_digits = 48 <= d1 && d1 <= 57 && 48 <= d2 && d2 <= 57 && 48 <= d3 && d3 <= 57;
    let ok_end = s + 4 == n || line[s + 4] == SPACE || line[s + 4] == CARRIAGE_RETURN;
    if ok_digits && ok_end {
        let code: u16 = (d1 - 48) as u16 * 100 + (d2 - 48) as u16 * 10 + (d3 - 48) as u16;
        proof {
            assert(status_at(line@, s as int));
        }
        Some(code)
    } else {
        proof {
            assert forall|t: int| !status_at(line@, t) by {
                if status_at(line@, t) {
                    if t > s {
                        assert(line@[s as int] != SPACE);
                    } else if t < s {
                        assert(line@[t] != SPACE);
                    }
                }
            }
        }
        None
    }
}

} // verus!
