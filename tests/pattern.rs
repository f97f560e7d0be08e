use ic_http::{Pattern, PatternError};

#[test]
fn compiles_valid_patterns() {
    for text in ["/", "/a", "/a/b", "/a/:id", "/files/*rest", "/:x/:y/*z", "/a:b/c*"] {
        let p = Pattern::compile(text).unwrap();
        assert_eq!(p.text(), text);
    }
}

#[test]
fn refuses_each_defect() {
    assert_eq!(Pattern::compile("").err(), Some(PatternError::MissingLeadingSlash));
    assert_eq!(Pattern::compile("a/b").err(), Some(PatternError::MissingLeadingSlash));
    assert_eq!(Pattern::compile("/a//b").err(), Some(PatternError::EmptySegment));
    assert_eq!(Pattern::compile("/a/").err(), Some(PatternError::EmptySegment));
    assert_eq!(Pattern::compile("/a/:").err(), Some(PatternError::UnnamedParameter));
    assert_eq!(Pattern::compile("/*").err(), Some(PatternError::UnnamedParameter));
    assert_eq!(Pattern::compile("/*rest/a").err(), Some(PatternError::CatchAllNotLast));
    assert_eq!(Pattern::compile("/:id/:id").err(), Some(PatternError::DuplicateParameter));
    assert_eq!(Pattern::compile("/:id/*id").err(), Some(PatternError::DuplicateParameter));
}

#[test]
fn captures_parameters() {
    let p = Pattern::compile("/a/:id/*rest").unwrap();
    let params = p.captures("/a/7/x/y").unwrap();
    assert_eq!(params.len(), 2);
    assert_eq!(params.get("id"), Some("7"));
    assert_eq!(params.get("rest"), Some("x/y"));
    assert!(p.captures("/a/7").is_none());
    assert!(p.captures("/a/7/").is_none());
    assert!(p.captures("/b/7/x").is_none());
}

#[test]
fn specificity_order() {
    let lit = Pattern::compile("/a/fixed").unwrap();
    let param = Pattern::compile("/a/:id").unwrap();
    let rest = Pattern::compile("/a/*rest").unwrap();
    assert!(lit.more_specific_than(&param));
    assert!(param.more_specific_than(&rest));
    assert!(lit.more_specific_than(&rest));
    assert!(!param.more_specific_than(&lit));
    assert!(!param.more_specific_than(&param));
}
