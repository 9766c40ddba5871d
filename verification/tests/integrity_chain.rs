use cadmus_sync::integrity::IntegrityEngine;

#[test]
fn test_integrity_chain() {
    let prev_hash = "GENESIS";
    let user_id = "user-123";
    let action = "CREATE_DOC";
    let details = "{\"title\": \"Sovereign Doc\"}";

    let hash1 = IntegrityEngine::calculate_audit_hash(
        Some(user_id),
        None,
        action,
        details,
        Some(prev_hash),
    );

    let is_valid = IntegrityEngine::verify_link(
        &hash1,
        Some(user_id),
        None,
        action,
        details,
        Some(prev_hash),
    );

    assert!(is_valid);

    // Test chain corruption
    let is_corrupted = IntegrityEngine::verify_link(
        &hash1,
        Some(user_id),
        None,
        action,
        "tampered details",
        Some(prev_hash),
    );

    assert!(!is_corrupted);
}

#[test]
fn audit_hash_has_exact_known_values() {
    // SHA-256("SYSTEM" + "NULL" + "" + "" + "GENESIS_BLOCK"), lowercase hex.
    assert_eq!(
        IntegrityEngine::calculate_audit_hash(None, None, "", "", None),
        "bd9ce93201a7890b3cbb6487bdefe58bc04173b165e0c64bdb2c771a35be8017"
    );
    // SHA-256 of the chained fields of the first link above.
    assert_eq!(
        IntegrityEngine::calculate_audit_hash(
            Some("user-123"),
            None,
            "CREATE_DOC",
            "{\"title\": \"Sovereign Doc\"}",
            Some("GENESIS"),
        ),
        "2b69a4fde9c3bddb1d6a213ecf945d3e79defc4bdfa494f2d781b224365d396a"
    );
}
