use common_http_server_rs::response::{ApiResponse, HealthResponse};
use http::StatusCode;

#[test]
fn ok_shortcut_sets_success_and_200() {
    let response = ApiResponse::ok("ok");
    assert!(response.success);
    assert_eq!(response.status_code, Some(StatusCode::OK.as_u16()));
}

#[test]
fn created_shortcut_sets_201() {
    let response = ApiResponse::created("created");
    assert_eq!(response.status_code, Some(StatusCode::CREATED.as_u16()));
}

#[test]
fn no_content_shortcut_sets_204_without_data() {
    let response = ApiResponse::no_content();
    assert!(response.success);
    assert!(response.data.is_none());
    assert_eq!(response.status_code, Some(StatusCode::NO_CONTENT.as_u16()));
}

#[test]
fn not_found_shortcut_sets_error_and_404() {
    let response = ApiResponse::not_found("missing");
    assert!(!response.success);
    assert_eq!(response.error.as_deref(), Some("missing"));
    assert_eq!(response.status_code, Some(StatusCode::NOT_FOUND.as_u16()));
}

#[test]
fn too_many_requests_shortcut_sets_429() {
    let response = ApiResponse::too_many_requests("limit exceeded");
    assert_eq!(response.status_code, Some(StatusCode::TOO_MANY_REQUESTS.as_u16()));
}

#[test]
fn every_error_shortcut_has_its_status() {
    let cases: Vec<(ApiResponse<()>, StatusCode)> = vec![
        (ApiResponse::bad_request("x"), StatusCode::BAD_REQUEST),
        (ApiResponse::unauthorized("x"), StatusCode::UNAUTHORIZED),
        (ApiResponse::forbidden("x"), StatusCode::FORBIDDEN),
        (ApiResponse::conflict("x"), StatusCode::CONFLICT),
        (ApiResponse::unprocessable_entity("x"), StatusCode::UNPROCESSABLE_ENTITY),
        (ApiResponse::internal_server_error("x"), StatusCode::INTERNAL_SERVER_ERROR),
        (ApiResponse::service_unavailable("x"), StatusCode::SERVICE_UNAVAILABLE),
    ];
    for (response, status) in cases {
        assert!(!response.success);
        assert_eq!(response.error.as_deref(), Some("x"));
        assert_eq!(response.status_code, Some(status.as_u16()));
        assert_eq!(response.response_status(), status.as_u16());
    }
}

#[test]
fn success_variants_carry_data_and_request_id() {
    let r = ApiResponse::success_with_request_id(5, "req-1".to_string());
    assert_eq!(r.data, Some(5));
    assert_eq!(r.request_id.as_deref(), Some("req-1"));
    assert_eq!(r.status_code, Some(200));
    let a = ApiResponse::accepted(1);
    assert_eq!(a.status_code, Some(202));
    let s = ApiResponse::success(2);
    assert_eq!(s.status_code, Some(200));
    let e: ApiResponse<u8> = ApiResponse::error_with_request_id("bad".to_string(), "req-2".to_string());
    assert!(!e.success);
    assert_eq!(e.status_code, Some(500));
    assert_eq!(e.request_id.as_deref(), Some("req-2"));
}

#[test]
fn response_status_falls_back_on_invalid_codes() {
    let mut r = ApiResponse::success_with_status(1, 42);
    assert_eq!(r.response_status(), 200);
    r.status_code = None;
    assert_eq!(r.response_status(), 200);
    let mut e: ApiResponse<u8> = ApiResponse::error_with_status("x".to_string(), 1000);
    assert_eq!(e.response_status(), 500);
    e.status_code = Some(999);
    assert_eq!(e.response_status(), 999);
    let f: ApiResponse<u8> = ApiResponse::error("x".to_string());
    assert_eq!(f.response_status(), 500);
}

#[test]
fn health_response_status() {
    let healthy = HealthResponse::healthy();
    assert_eq!(healthy.status, "ok");
    assert_eq!(healthy.message, "Service is running");
    assert_eq!(healthy.response_status(), 200);
    assert!(healthy.timestamp.ends_with('Z'));
    let sick = HealthResponse::unhealthy("db down".to_string());
    assert_eq!(sick.status, "error");
    assert_eq!(sick.message, "db down");
    assert_eq!(sick.response_status(), 503);
    let at = HealthResponse::healthy_at("2026-01-01T00:00:00Z".to_string());
    assert_eq!(at.timestamp, "2026-01-01T00:00:00Z");
}

#[test]
fn health_timestamps_are_utc_rfc3339() {
    for timestamp in [HealthResponse::healthy().timestamp, HealthResponse::unhealthy("x".to_string()).timestamp] {
        assert!(timestamp.len() >= 20);
        assert!(timestamp.ends_with('Z'));
        assert_eq!(&timestamp[4..5], "-");
        assert_eq!(&timestamp[10..11], "T");
        assert!(timestamp.chars().all(|c| c.is_ascii_digit() || "-+T:.Z".contains(c)));
    }
}
