use cadmus_sync::api::ApiError;
use cadmus_sync::security::RegisterRequest;

fn request(username: &str, password: &str) -> RegisterRequest {
    RegisterRequest {
        username: username.to_string(),
        password: password.to_string(),
    }
}

#[test]
fn registration_rules_hold_at_the_boundaries() {
    assert!(request("abc", "12345678").validate());
    assert!(request("abcdefghijklmnopqrst", "12345678").validate());
    assert!(!request("ab", "12345678").validate());
    assert!(!request("abcdefghijklmnopqrstu", "12345678").validate());
    assert!(!request("abc", "1234567").validate());
    assert!(request("abc", "123456789").validate());
}

fn error(code: &str) -> ApiError {
    ApiError {
        error: "boom".to_string(),
        code: code.to_string(),
    }
}

#[test]
fn error_codes_map_to_http_statuses() {
    assert_eq!(error("UNAUTHORIZED").status(), 401);
    assert_eq!(error("404").status(), 404);
    assert_eq!(error("DB_ERROR").status(), 500);
    assert_eq!(error("INTERNAL").status(), 500);
    assert_eq!(error("STORAGE_FAIL").status(), 500);
    assert_eq!(error("VALIDATION").status(), 400);
    assert_eq!(error("VALIDATION_FAIL").status(), 400);
    assert_eq!(error("INVALID_ID").status(), 400);
    assert_eq!(error("SOMETHING_ELSE").status(), 400);
}
