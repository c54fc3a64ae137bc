use metassr_hooks::use_params;
use metassr_hooks::Params;
use metassr_hooks::RouteMatch;
use metassr_hooks::RouterContext;

#[test]
fn new_params_are_empty() {
    let params = Params::new();
    assert!(params.is_empty());
    assert_eq!(params.len(), 0);
    assert_eq!(params.get("id"), None);
}

#[test]
fn insert_overrides_existing_key() {
    let mut params = Params::new();
    params.insert("id".to_string(), "1".to_string());
    params.insert("id".to_string(), "2".to_string());
    assert_eq!(params.len(), 1);
    assert_eq!(params.get("id"), Some(&"2".to_string()));
}

#[test]
fn get_missing_key_is_none() {
    let mut params = Params::new();
    params.insert("id".to_string(), "42".to_string());
    assert_eq!(params.get("name"), None);
}

#[test]
fn earlier_matches_are_shadowed_not_merged() {
    let mut params1 = Params::new();
    params1.insert("early".to_string(), "1".to_string());

    let mut params2 = Params::new();
    params2.insert("late".to_string(), "2".to_string());

    let context = RouterContext {
        matches: vec![
            RouteMatch { params: params1 },
            RouteMatch { params: params2 },
        ],
    };

    let extracted = use_params(&context);
    assert_eq!(extracted.len(), 1);
    assert_eq!(extracted.get("early"), None);
    assert_eq!(extracted.get("late"), Some(&"2".to_string()));
}

#[test]
fn empty_last_match_shadows_earlier_params() {
    let mut params1 = Params::new();
    params1.insert("early".to_string(), "1".to_string());

    let context = RouterContext {
        matches: vec![
            RouteMatch { params: params1 },
            RouteMatch {
                params: Params::new(),
            },
        ],
    };

    let extracted = use_params(&context);
    assert!(extracted.is_empty());
    assert_eq!(extracted.get("early"), None);
}

#[test]
fn returned_params_are_owned_independently() {
    let mut params = Params::new();
    params.insert("id".to_string(), "42".to_string());
    let context = RouterContext {
        matches: vec![RouteMatch { params }],
    };

    let mut extracted = use_params(&context);
    extracted.insert("id".to_string(), "7".to_string());
    extracted.insert("extra".to_string(), "x".to_string());

    let again = use_params(&context);
    assert_eq!(again.len(), 1);
    assert_eq!(again.get("id"), Some(&"42".to_string()));
    assert_eq!(again.get("extra"), None);
}

#[test]
fn lookup_is_idempotent_on_unchanged_context() {
    let mut params = Params::new();
    params.insert("id".to_string(), "42".to_string());
    params.insert("name".to_string(), "Alice".to_string());
    let context = RouterContext {
        matches: vec![RouteMatch { params }],
    };

    let first = use_params(&context);
    let second = use_params(&context);
    assert_eq!(first.len(), second.len());
    assert_eq!(first.get("id"), second.get("id"));
    assert_eq!(first.get("name"), second.get("name"));
    assert_eq!(first.get("id"), Some(&"42".to_string()));
    assert_eq!(first.get("name"), Some(&"Alice".to_string()));
}
