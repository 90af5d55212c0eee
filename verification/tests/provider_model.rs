use cairn_runtime::provider_model::ProviderModelServiceImpl;

#[test]
fn provider_model_register_gives_capabilities_back() {
    let mut svc = ProviderModelServiceImpl::new();
    let caps = "{\"supports_streaming\":true}".to_owned();
    let r = svc.register("t1", "conn_a", "gpt-5", caps.clone());
    assert_eq!(r, caps);
    assert_eq!(svc.get("gpt-5"), Some(caps));
    assert_eq!(svc.get("unknown"), None);
}

#[test]
fn provider_model_register_again_replaces_entry() {
    let mut svc = ProviderModelServiceImpl::new();
    svc.register("t1", "conn_a", "m1", "{\"v\":1}".to_owned());
    svc.register("t1", "conn_a", "m1", "{\"v\":2}".to_owned());
    assert_eq!(svc.get("m1"), Some("{\"v\":2}".to_owned()));
    assert_eq!(svc.list("conn_a"), vec!["{\"v\":2}".to_owned()]);
}

#[test]
fn provider_model_list_filters_by_connection_in_order() {
    let mut svc = ProviderModelServiceImpl::new();
    svc.register("t1", "conn_a", "m1", "a1".to_owned());
    svc.register("t1", "conn_b", "m2", "b1".to_owned());
    svc.register("t1", "conn_a", "m3", "a2".to_owned());
    assert_eq!(svc.list("conn_a"), vec!["a1".to_owned(), "a2".to_owned()]);
    assert_eq!(svc.list("conn_b"), vec!["b1".to_owned()]);
    assert!(svc.list("conn_c").is_empty());
}
