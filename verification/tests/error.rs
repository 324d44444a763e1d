use yt_dlp_ui::error::AppError;

#[test]
fn errors_and_their_replies() {
    let cases = vec![
        (AppError::NotFound, 404, "Not found"),
        (AppError::Invalid("bad".to_string()), 400, "Invalid input: bad"),
        (AppError::Io("disk".to_string()), 500, "I/O error: disk"),
        (AppError::Serde("json".to_string()), 500, "Serialization error: json"),
        (AppError::Other("join".to_string()), 500, "Server error: join"),
    ];
    for (error, status, text) in cases {
        assert_eq!(error.status_code(), status);
        assert_eq!(error.message(), text);
    }
}

#[test]
fn invalid_carries_its_reason() {
    assert!(matches!(AppError::invalid("why"), AppError::Invalid(m) if m == "why"));
}
