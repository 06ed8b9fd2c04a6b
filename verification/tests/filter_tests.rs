use knowledge_mcp::filter::SensitiveDataFilter;

#[test]
fn test_no_sensitive_data() {
    let filter = SensitiveDataFilter::new(vec!["password".to_string(), "salary".to_string()]);
    let result = filter.check("This is a normal note about programming.");
    assert!(!result.is_sensitive);
    assert!(result.matched_keywords.is_empty());
}

#[test]
fn test_sensitive_keyword_detected() {
    let filter = SensitiveDataFilter::new(vec!["password".to_string(), "salary".to_string()]);
    let result = filter.check("My salary is $100,000 per year.");
    assert!(result.is_sensitive);
    assert_eq!(result.matched_keywords, vec!["salary"]);
}

#[test]
fn test_case_insensitive() {
    let filter = SensitiveDataFilter::new(vec!["password".to_string()]);
    let result = filter.check("My PASSWORD is secret123.");
    assert!(result.is_sensitive);
    assert_eq!(result.matched_keywords, vec!["password"]);
}

#[test]
fn test_multiple_keywords() {
    let filter = SensitiveDataFilter::new(vec![
        "password".to_string(),
        "salary".to_string(),
        "ssn".to_string(),
    ]);
    let result = filter.check("Password: xyz, SSN: 123-45-6789");
    assert!(result.is_sensitive);
    assert!(result.matched_keywords.contains(&"password".to_string()));
    assert!(result.matched_keywords.contains(&"ssn".to_string()));
}

#[test]
fn filter_keeps_keyword_order() {
    let filter = SensitiveDataFilter::new(vec!["ssn".to_string(), "password".to_string()]);
    let result = filter.check("password and ssn");
    assert_eq!(result.matched_keywords, vec!["ssn", "password"]);
}

#[test]
fn filter_matches_uppercase_keywords() {
    let filter = SensitiveDataFilter::new(vec!["SSN".to_string()]);
    let result = filter.check("My SSN is 123-45-6789");
    assert!(result.is_sensitive);
    assert_eq!(result.matched_keywords, vec!["SSN"]);
    assert!(filter.check("my ssn").is_sensitive);
}
