//! The uniform API response body and the health-check response, with the
//! HTTP status each is sent with.
use vstd::prelude::*;

verus! {

/// The uniform body of an API response.
#[derive(Debug)]
pub struct ApiResponse<T> {
    pub success: bool,
    pub data: Option<T>,
    pub error: Option<String>,
    pub request_id: Option<String>,
    pub status_code: Option<u16>,
}

/// Whether `code` is a number that an HTTP status code can have (100 to 999).
pub open spec fn is_status_number(code: u16) -> bool {
    100 <= code <= 999
}

/// The status a response with `success` and `status_code` is sent with: its
/// status code when that is a valid status number, else 200 for a success
/// and 500 for an error.
pub open spec fn sent_status(success: bool, status_code: Option<u16>) -> u16 {
    match status_code {
        Some(code) if is_status_number(code) => code,
        _ => if success { 200 } else { 500 },
    }
}

/// `http::StatusCode::from_u16(code).is_ok()`: whether `code` is accepted as
/// a status code, which holds exactly for 100 to 999.
#[verifier::external_body]
fn status_code_accepts(code: u16) -> (res: bool)
    ensures
        res == is_status_number(code),
{
    http::StatusCode::from_u16(code).is_ok()
}

/// A response whose status code is a valid status number (100 to 999) is
/// sent with that very status, success or error alike; one with no status
/// code, or an invalid one, is sent with 200 on success and 500 on error.
pub proof fn lemma_sent_status_law(success: bool, status_code: Option<u16>)
    ensures
        status_code matches Some(c) && 100 <= c <= 999 ==> sent_status(success, status_code) == status_code->Some_0,
        !(status_code matches Some(c) && 100 <= c <= 999) ==> sent_status(success, status_code) == (if success {
            200u16
        } else {
            500u16
        }),
        status_code matches Some(c) && 100 <= c <= 999 ==> sent_status(true, status_code) == sent_status(false, status_code),
{
}

impl<T> ApiResponse<T> {
    /// A success carrying `data`, with status `status`.
    pub fn success_with_status(data: T, status: u16) -> (res: Self)
        ensures
            res.success,
            res.data == Some(data),
            res.error is None,
            res.request_id is None,
            res.status_code == Some(status),
    {
        ApiResponse { success: true, data: Some(data), error: None, request_id: None, status_code: Some(status) }
    }

    /// A success carrying `data`, with status 200.
    pub fn success(data: T) -> (res: Self)
        ensures
            res.success,
            res.data == Some(data),
            res.error is None,
            res.request_id is None,
            res.status_code == Some(200u16),
    {
        Self::success_with_status(data, 200)
    }

    /// A success carrying `data` and the request id, with status 200.
    pub fn success_with_request_id(data: T, request_id: String) -> (res: Self)
        ensures
            res.success,
            res.data == Some(data),
            res.error is None,
            res.request_id == Some(request_id),
            res.status_code == Some(200u16),
    {
        ApiResponse {
            success: true,
            data: Some(data),
            error: None,
            request_id: Some(request_id),
            status_code: Some(200),
        }
    }

    /// An error with message `error`, with status 500.
    pub fn error(error: String) -> (res: Self)
        ensures
            !res.success,
            res.data is None,
            res.error == Some(error),
            res.request_id is None,
            res.status_code == Some(500u16),
    {
        Self::error_with_status(error, 500)
    }

    /// An error with message `error` and the request id, with status 500.
    pub fn error_with_request_id(error: String, request_id: String) -> (res: Self)
        ensures
            !res.success,
            res.data is None,
            res.error == Some(error),
            res.request_id == Some(request_id),
            res.status_code == Some(500u16),
    {
        ApiResponse {
            success: false,
            data: None,
            error: Some(error),
            request_id: Some(request_id),
            status_code: Some(500),
        }
    }

    /// An error with message `error`, with status `status`.
    pub fn error_with_status(error: String, status: u16) -> (res: Self)
        ensures
            !res.success,
            res.data is None,
            res.error == Some(error),
            res.request_id is None,
            res.status_code == Some(status),
    {
        ApiResponse { success: false, data: None, error: Some(error), request_id: None, status_code: Some(status) }
    }

    /// A success with status 200 (OK).
    pub fn ok(data: T) -> (res: Self)
        ensures
            res.success,
            res.data == Some(data),
            res.error is None,
            res.request_id is None,
            res.status_code == Some(200u16),
    {
        Self::success_with_status(data, 200)
    }

    /// A success with status 201 (Created).
    pub fn created(data: T) -> (res: Self)
        ensures
            res.success,
            res.data == Some(data),
            res.error is None,
            res.request_id is None,
            res.status_code == Some(201u16),
    {
        Self::success_with_status(data, 201)
    }

    /// A success with status 202 (Accepted).
    pub fn accepted(data: T) -> (res: Self)
        ensures
            res.success,
            res.data == Some(data),
            res.error is None,
            res.request_id is None,
            res.status_code == Some(202u16),
    {
        Self::success_with_status(data, 202)
    }

    /// The status this response is sent with (see [`sent_status`]).
    pub fn response_status(&self) -> (res: u16)
        ensures
            res == sent_status(self.success, self.status_code),
    {
        match self.status_code {
            Some(code) if status_code_accepts(code) => code,
            _ => if self.success { 200 } else { 500 },
        }
    }
}

/// Whether `res` is an error response with message `error` and status `status`.
pub open spec fn is_error_response(res: ApiResponse<()>, error: Seq<char>, status: u16) -> bool {
    &&& !res.success
    &&& res.data is None
    &&& res.error matches Some(e) && e@ == error
    &&& res.request_id is None
    &&& res.status_code == Some(status)
}

impl ApiResponse<()> {
    /// A success without data, with status 204 (No Content).
    pub fn no_content() -> (res: Self)
        ensures
            res.success,
            res.data is None,
            res.error is None,
            res.request_id is None,
            res.status_code == Some(204u16),
    {
        ApiResponse { success: true, data: None, error: None, request_id: None, status_code: Some(204) }
    }

    /// An error with status 400 (Bad Request).
    pub fn bad_request(error: &str) -> (res: Self)
        ensures
            is_error_response(res, error@, 400),
    {
        Self::error_with_status(String::from_str(error), 400)
    }

    /// An error with status 401 (Unauthorized).
    pub fn unauthorized(error: &str) -> (res: Self)
        ensures
            is_error_response(res, error@, 401),
    {
        Self::error_with_status(String::from_str(error), 401)
    }

    /// An error with status 403 (Forbidden).
    pub fn forbidden(error: &str) -> (res: Self)
        ensures
            is_error_response(res, error@, 403),
    {
        Self::error_with_status(String::from_str(error), 403)
    }

    /// An error with status 404 (Not Found).
    pub fn not_found(error: &str) -> (res: Self)
        ensures
            is_error_response(res, error@, 404),
    {
        Self::error_with_status(String::from_str(error), 404)
    }

    /// An error with status 409 (Conflict).
    pub fn conflict(error: &str) -> (res: Self)
        ensures
            is_error_response(res, error@, 409),
    {
        Self::error_with_status(String::from_str(error), 409)
    }

    /// An error with status 422 (Unprocessable Entity).
    pub fn unprocessable_entity(error: &str) -> (res: Self)
        ensures
            is_error_response(res, error@, 422),
    {
        Self::error_with_status(String::from_str(error), 422)
    }

    /// An error with status 429 (Too Many Requests).
    pub fn too_many_requests(error: &str) -> (res: Self)
        ensures
            is_error_response(res, error@, 429),
    {
        Self::error_with_status(String::from_str(error), 429)
    }

    /// An error with status 500 (Internal Server Error).
    pub fn internal_server_error(error: &str) -> (res: Self)
        ensures
            is_error_response(res, error@, 500),
    {
        Self::error_with_status(String::from_str(error), 500)
    }

    /// An error with status 503 (Service Unavailable).
    pub fn service_unavailable(error: &str) -> (res: Self)
        ensures
            is_error_response(res, error@, 503),
    {
        Self::error_with_status(String::from_str(error), 503)
    }
}

/// The body of a health-check response.
#[derive(Debug)]
pub struct HealthResponse {
    pub status: String,
    pub message: String,
    /// When the check was made, in RFC 3339 form.
    pub timestamp: String,
}

/// Whether `s` has the shape of an RFC 3339 UTC time as chrono writes it:
/// at least `YYYY-MM-DDTHH:MM:SSZ` (20 characters), made of digits and the
/// signs `-`, `+`, `T`, `:`, `.`, and ending in `Z`.
pub open spec fn is_utc_timestamp_text(s: Seq<char>) -> bool {
    &&& s.len() >= 20
    &&& s.last() == 'Z'
    &&& forall|i: int| 0 <= i < s.len() ==> {
        let c = #[trigger] s[i];
        ('0' <= c && c <= '9') || c == '-' || c == '+' || c == 'T' || c == ':' || c == '.' || c == 'Z'
    }
}

/// The current UTC time in RFC 3339 form with a `Z` suffix
/// (`chrono::Utc::now().to_rfc3339_opts(SecondsFormat::AutoSi, true)`): a
/// date (four-digit year, or a signed one beyond 0 to 9999), `T`, the time
/// to the second, a fraction of 3, 6 or 9 digits when it is not zero, and
/// `Z`. Which instant comes out is left open.
#[verifier::external_body]
fn utc_now_rfc3339() -> (res: String)
    ensures
        is_utc_timestamp_text(res@),
{
    chrono::Utc::now().to_rfc3339_opts(chrono::SecondsFormat::AutoSi, true)
}

impl HealthResponse {
    /// A healthy report at `timestamp`.
    pub fn healthy_at(timestamp: String) -> (res: Self)
        ensures
            res.status@ == "ok"@,
            res.message@ == "Service is running"@,
            res.timestamp == timestamp,
    {
        HealthResponse {
            status: String::from_str("ok"),
            message: String::from_str("Service is running"),
            timestamp,
        }
    }

    /// An unhealthy report with `message` at `timestamp`.
    pub fn unhealthy_at(message: String, timestamp: String) -> (res: Self)
        ensures
            res.status@ == "error"@,
            res.message == message,
            res.timestamp == timestamp,
    {
        HealthResponse { status: String::from_str("error"), message, timestamp }
    }

    /// A healthy report, now.
    pub fn healthy() -> (res: Self)
        ensures
            res.status@ == "ok"@,
            res.message@ == "Service is running"@,
            is_utc_timestamp_text(res.timestamp@),
    {
        Self::healthy_at(utc_now_rfc3339())
    }

    /// An unhealthy report with `message`, now.
    pub fn unhealthy(message: String) -> (res: Self)
        ensures
            res.status@ == "error"@,
            res.message == message,
            is_utc_timestamp_text(res.timestamp@),
    {
        Self::unhealthy_at(message, utc_now_rfc3339())
    }

    /// The status this report is sent with: 200 when its status is `"ok"`,
    /// else 503.
    pub fn response_status(&self) -> (res: u16)
        ensures
            res == if self.status@ == "ok"@ { 200u16 } else { 503u16 },
    {
        let ok = String::from_str("ok");
        if self.status == ok {
            200
        } else {
            503
        }
    }
}

} // verus!
