use csml::apm::{
    build_traces_endpoint, clean_env_value, filter_directives, log_level, plan_apm, ApmEnv,
    ApmPlan, EndpointError, LogLevel, TracesEndpoint, DEFAULT_FILTER,
};

fn empty_env() -> ApmEnv {
    ApmEnv {
        otel_traces_endpoint: None,
        otel_endpoint: None,
        apm_server_url: None,
        otel_service_name: None,
        apm_service_name: None,
        secret_token: None,
        otel_sampler_arg: None,
        apm_sample_rate: None,
        environment: None,
        hostname: None,
        container_name: None,
        dockerenv_exists: false,
        kubernetes_service_host: None,
        kube_namespace: None,
        kube_pod_uid: None,
        kube_node_name: None,
    }
}

fn s(v: &str) -> Option<String> {
    Some(v.to_owned())
}

fn endpoint_ok(base: &str) -> String {
    match build_traces_endpoint(base) {
        Ok(e) => e,
        Err(EndpointError::MissingScheme(b)) => panic!("unexpected missing scheme for {:?}", b),
    }
}

fn plan(env: &ApmEnv) -> ApmPlan {
    match plan_apm(env, "1.2.3", "x86_64", "linux") {
        Ok(Some(p)) => p,
        Ok(None) => panic!("tracing unexpectedly disabled"),
        Err(_) => panic!("unexpected endpoint error"),
    }
}

fn attrs(p: &ApmPlan) -> Vec<(String, String)> {
    p.attributes.iter().map(|a| (a.key.clone(), a.value.clone())).collect()
}

fn pairs(v: &[(&str, &str)]) -> Vec<(String, String)> {
    v.iter().map(|(k, x)| (k.to_string(), x.to_string())).collect()
}

#[test]
fn clean_env_value_strips_space_and_quotes() {
    assert_eq!(clean_env_value(Some("  \"'svc'\"  ")), s("svc"));
    assert_eq!(clean_env_value(Some("\" svc \"")), s("svc"));
    assert_eq!(clean_env_value(Some("svc")), s("svc"));
    assert_eq!(clean_env_value(Some("  ")), None);
    assert_eq!(clean_env_value(Some("\"\"")), None);
    assert_eq!(clean_env_value(None), None);
}

#[test]
fn traces_endpoint_appends_path() {
    assert_eq!(endpoint_ok("http://apm:8200"), "http://apm:8200/v1/traces");
    assert_eq!(endpoint_ok("  https://apm:8200//  "), "https://apm:8200/v1/traces");
    assert_eq!(endpoint_ok("HTTP://APM"), "HTTP://APM/v1/traces");
}

#[test]
fn traces_endpoint_keeps_existing_path() {
    assert_eq!(endpoint_ok("http://apm/v1/traces/"), "http://apm/v1/traces");
    assert_eq!(endpoint_ok("https://apm/V1/TRACES"), "https://apm/V1/TRACES");
}

#[test]
fn traces_endpoint_requires_scheme() {
    match build_traces_endpoint(" apm.example.com:8200/ ") {
        Err(EndpointError::MissingScheme(b)) => assert_eq!(b, "apm.example.com:8200"),
        Ok(e) => panic!("built {:?}", e),
    }
    assert!(build_traces_endpoint("ftp://x").is_err());
    assert!(build_traces_endpoint("").is_err());
}

#[test]
fn traces_endpoint_is_idempotent() {
    for base in ["http://apm:8200", "https://a/V1/TRACES", "http://x /", "HTTPS://h//"] {
        let once = endpoint_ok(base);
        assert_eq!(endpoint_ok(&once), once);
    }
}

#[test]
fn tracing_disabled_without_endpoint_or_service() {
    let env = empty_env();
    assert!(matches!(plan_apm(&env, "1", "a", "o"), Ok(None)));

    let mut env = empty_env();
    env.apm_server_url = s("http://apm:8200");
    assert!(matches!(plan_apm(&env, "1", "a", "o"), Ok(None)));

    let mut env = empty_env();
    env.otel_service_name = s("svc");
    env.apm_server_url = s("   ");
    assert!(matches!(plan_apm(&env, "1", "a", "o"), Ok(None)));
}

#[test]
fn bad_server_url_is_an_error() {
    let mut env = empty_env();
    env.apm_server_url = s("apm:8200");
    env.apm_service_name = s("svc");
    match plan_apm(&env, "1", "a", "o") {
        Err(EndpointError::MissingScheme(b)) => assert_eq!(b, "apm:8200"),
        _ => panic!("expected an endpoint error"),
    }
}

#[test]
fn otel_variables_win() {
    let mut env = empty_env();
    env.apm_server_url = s("apm:8200");
    env.otel_endpoint = s("http://collector:4318");
    env.otel_traces_endpoint = s("http://collector:4318/custom");
    env.apm_service_name = s("elastic-name");
    env.otel_service_name = s("otel-name");
    env.apm_sample_rate = s("0.5");
    env.otel_sampler_arg = s("0.25");
    let p = plan(&env);
    assert_eq!(p.service_name, "otel-name");
    match &p.endpoint {
        TracesEndpoint::FromEnvironment(u) => assert_eq!(u, "http://collector:4318/custom"),
        TracesEndpoint::Explicit(_) => panic!("expected the SDK to resolve the endpoint"),
    }
    assert_eq!(p.sample_ratio, s("0.25"));

    env.otel_traces_endpoint = None;
    env.otel_sampler_arg = s("  ");
    let p = plan(&env);
    match &p.endpoint {
        TracesEndpoint::FromEnvironment(u) => assert_eq!(u, "http://collector:4318"),
        TracesEndpoint::Explicit(_) => panic!("expected the SDK to resolve the endpoint"),
    }
    assert_eq!(p.sample_ratio, s("0.5"));
}

#[test]
fn elastic_configuration() {
    let mut env = empty_env();
    env.apm_server_url = s("\"https://apm:8200/\"");
    env.apm_service_name = s("csml");
    env.secret_token = s("'tok'");
    let p = plan(&env);
    assert_eq!(p.service_name, "csml");
    match &p.endpoint {
        TracesEndpoint::Explicit(u) => assert_eq!(u, "https://apm:8200/v1/traces"),
        TracesEndpoint::FromEnvironment(_) => panic!("expected an explicit endpoint"),
    }
    assert_eq!(p.authorization, s("Bearer tok"));
    assert_eq!(p.sample_ratio, None);
    assert!(!p.container_id_missing);
    assert_eq!(
        attrs(&p),
        pairs(&[
            ("service.version", "1.2.3"),
            ("deployment.environment", "development"),
            ("deployment.environment.name", "development"),
            ("host.arch", "x86_64"),
            ("os.type", "linux"),
        ])
    );
}

#[test]
fn host_container_and_kubernetes_attributes() {
    let mut env = empty_env();
    env.otel_endpoint = s("http://c:4318");
    env.otel_service_name = s("svc");
    env.environment = s("prod");
    env.hostname = s("pod-1");
    env.container_name = s("");
    env.kubernetes_service_host = s("10.0.0.1");
    env.kube_namespace = s("ns");
    env.kube_node_name = s("node-a");
    let p = plan(&env);
    assert!(!p.container_id_missing);
    assert_eq!(
        attrs(&p),
        pairs(&[
            ("service.version", "1.2.3"),
            ("deployment.environment", "prod"),
            ("deployment.environment.name", "prod"),
            ("host.arch", "x86_64"),
            ("os.type", "linux"),
            ("host.name", "pod-1"),
            ("service.instance.id", "pod-1"),
            ("container.id", "pod-1"),
            ("k8s.namespace.name", "ns"),
            ("k8s.pod.name", "pod-1"),
            ("k8s.node.name", "node-a"),
        ])
    );
}

#[test]
fn container_without_hostname() {
    let mut env = empty_env();
    env.otel_endpoint = s("http://c:4318");
    env.otel_service_name = s("svc");
    env.dockerenv_exists = true;
    let p = plan(&env);
    assert!(p.container_id_missing);
    assert_eq!(p.attributes.len(), 5);
}

#[test]
fn filter_directives_from_rust_log() {
    assert_eq!(filter_directives(None), DEFAULT_FILTER);
    assert_eq!(filter_directives(Some("  ")), DEFAULT_FILTER);
    assert_eq!(
        filter_directives(Some(" debug,hyper=off ")),
        "debug,hyper=off,tracing_actix_web=info"
    );
    assert!(DEFAULT_FILTER.contains("tracing_actix_web=info"));
}

#[test]
fn log_level_names() {
    assert_eq!(log_level(None), LogLevel::Error);
    assert_eq!(log_level(Some(" TRACE ")), LogLevel::Trace);
    assert_eq!(log_level(Some("Debug")), LogLevel::Debug);
    assert_eq!(log_level(Some("info")), LogLevel::Info);
    assert_eq!(log_level(Some("warn")), LogLevel::Warn);
    assert_eq!(log_level(Some("OFF")), LogLevel::Off);
    assert_eq!(log_level(Some("verbose")), LogLevel::Error);
    assert_eq!(log_level(Some("")), LogLevel::Error);
}
