//! Tracing (OTLP) configuration: what the server exports its traces to, under
//! which service name and resource attributes, with which filter and log
//! level. Everything here is decided from the process environment, handed in
//! as plain values.

use vstd::prelude::*;
use vstd::string::StringExecFns;
use crate::text::{
    Trimmed, trim_ws, trim_seq, trim_end_seq, trim_start_seq, starts_with_lower, ends_with_lower,
    lowers_to, is_unicode_whitespace, trim, trim_chars, trim_end_chars, starts_with_ignore_ascii_case,
    ends_with_ignore_ascii_case, eq_lower, eq_ignore_ascii_case, lemma_trim_seq_idempotent,
    lemma_trim_seq_empty, lemma_trim_seq_noop, ascii_lower, lemma_lowers_to_code,
};

verus! {

/// An environment value after cleaning: surrounding white space and quotes
/// removed (`v.trim().trim_matches('"').trim_matches('\'').trim()`).
pub open spec fn cleaned(s: Seq<char>) -> Seq<char> {
    trim_ws(trim_seq(Trimmed::Char('\''), trim_seq(Trimmed::Char('"'), trim_ws(s))))
}

/// A raw environment value after cleaning; an unset or blank value is absent.
pub open spec fn env_value(raw: Option<Seq<char>>) -> Option<Seq<char>> {
    match raw {
        Some(s) => if cleaned(s).len() > 0 {
            Some(cleaned(s))
        } else {
            None
        },
        None => None,
    }
}

pub open spec fn opt_string_view(s: Option<String>) -> Option<Seq<char>> {
    match s {
        Some(v) => Some(v@),
        None => None,
    }
}

pub open spec fn is_quote(c: char) -> bool {
    c == '"' || c == '\''
}

/// Cleaning never leaves white space at either end of a value, a value that is
/// blank under `str::trim` counts as unset, and a value with no white space
/// or quote at its ends is kept as it is.
pub proof fn lemma_clean_env_value(s: Seq<char>)
    ensures
        env_value(Some(s)) matches Some(r) ==> r.len() > 0 && trim_ws(r) == r,
        trim_ws(s).len() == 0 ==> env_value(Some(s)) is None,
        (s.len() > 0 && !is_unicode_whitespace(s[0]) && !is_unicode_whitespace(s.last())
            && !is_quote(s[0]) && !is_quote(s.last())) ==> env_value(Some(s)) == Some(s),
{
    let x = trim_seq(Trimmed::Char('\''), trim_seq(Trimmed::Char('"'), trim_ws(s)));
    lemma_trim_seq_idempotent(Trimmed::Whitespace, x);
    if trim_ws(s).len() == 0 {
        lemma_trim_seq_empty(Trimmed::Char('"'), trim_ws(s));
        lemma_trim_seq_empty(Trimmed::Char('\''), trim_seq(Trimmed::Char('"'), trim_ws(s)));
        lemma_trim_seq_empty(Trimmed::Whitespace, x);
    }
    if s.len() > 0 && !is_unicode_whitespace(s[0]) && !is_unicode_whitespace(s.last())
        && !is_quote(s[0]) && !is_quote(s.last()) {
        lemma_trim_seq_noop(Trimmed::Whitespace, s);
        lemma_trim_seq_noop(Trimmed::Char('"'), s);
        lemma_trim_seq_noop(Trimmed::Char('\''), s);
    }
}

/// Cleans a raw environment value (`None` when the variable is unset); a value
/// that is empty once cleaned counts as unset.
pub fn clean_env_value(raw: Option<&str>) -> (r: Option<String>)
    ensures
        opt_string_view(r) == env_value(crate::tools::opt_view(raw)),
        raw is None ==> r is None,
        r matches Some(x) ==> x@.len() > 0 && trim_ws(x@) == x@,
        raw matches Some(v) && trim_ws(v@).len() == 0 ==> r is None,
{
    match raw {
        None => None,
        Some(s) => {
            proof {
                lemma_clean_env_value(s@);
            }
            let a = trim(s);
            let b = trim_chars(a, Trimmed::Char('"'));
            let c = trim_chars(b, Trimmed::Char('\''));
            let d = trim(c);
            if d.unicode_len() == 0 {
                None
            } else {
                Some(String::from_str(d))
            }
        },
    }
}

fn clean_env_string(raw: &Option<String>) -> (r: Option<String>)
    ensures
        opt_string_view(r) == env_value(opt_string_view(*raw)),
{
    match raw {
        Some(s) => clean_env_value(Some(s.as_str())),
        None => clean_env_value(None),
    }
}

/// Why a traces endpoint could not be built.
pub enum EndpointError {
    /// The server URL (trimmed, trailing slashes removed) has no `http://` or
    /// `https://` scheme.
    MissingScheme(String),
}

/// The server URL with surrounding white space and trailing slashes removed.
pub open spec fn endpoint_base(base: Seq<char>) -> Seq<char> {
    trim_end_seq(Trimmed::Char('/'), trim_ws(base))
}

/// The URL starts with `http://` or `https://`, in any ASCII case.
pub open spec fn has_http_scheme(s: Seq<char>) -> bool {
    starts_with_lower(s, "http://"@) || starts_with_lower(s, "https://"@)
}

/// `<base>/v1/traces`, built idempotently: an error when the trimmed base has
/// no HTTP scheme, the trimmed base itself when it already ends with
/// `/v1/traces` (in any ASCII case), and the trimmed base followed by
/// `/v1/traces` otherwise.
pub open spec fn traces_endpoint(base: Seq<char>) -> Result<Seq<char>, Seq<char>> {
    let b = endpoint_base(base);
    if !has_http_scheme(b) {
        Err(b)
    } else if ends_with_lower(b, "/v1/traces"@) {
        Ok(b)
    } else {
        Ok(b + "/v1/traces"@)
    }
}

pub open spec fn endpoint_result_view(r: Result<String, EndpointError>) -> Result<
    Seq<char>,
    Seq<char>,
> {
    match r {
        Ok(s) => Ok(s@),
        Err(EndpointError::MissingScheme(b)) => Err(b@),
    }
}

/// Builds the OTLP traces endpoint `<base>/v1/traces` from the APM server URL.
pub fn build_traces_endpoint(base: &str) -> (r: Result<String, EndpointError>)
    ensures
        endpoint_result_view(r) == traces_endpoint(base@),
{
    let b = trim_end_chars(trim(base), Trimmed::Char('/'));
    if !starts_with_ignore_ascii_case(b, "http://") && !starts_with_ignore_ascii_case(
        b,
        "https://",
    ) {
        return Err(EndpointError::MissingScheme(String::from_str(b)));
    }
    if ends_with_ignore_ascii_case(b, "/v1/traces") {
        Ok(String::from_str(b))
    } else {
        Ok(String::from_str(b).concat("/v1/traces"))
    }
}

/// Building the endpoint is idempotent: an endpoint built from a URL builds
/// to itself.
pub proof fn lemma_traces_endpoint_idempotent(base: Seq<char>)
    requires
        traces_endpoint(base) is Ok,
    ensures
        traces_endpoint(traces_endpoint(base)->Ok_0) == traces_endpoint(base),
{
    reveal_strlit("http://");
    reveal_strlit("https://");
    reveal_strlit("/v1/traces");
    let b = endpoint_base(base);
    let e = traces_endpoint(base)->Ok_0;
    // `e` starts with `h`/`H` and ends with `s`/`S`: nothing to trim.
    assert(e.len() > 0);
    assert(lowers_to(e[0], 'h'));
    assert(lowers_to(e.last(), 's')) by {
        if ends_with_lower(b, "/v1/traces"@) {
            assert(lowers_to(b[b.len() - 10 + 9], "/v1/traces"@[9]));
        } else {
            assert(e.last() == "/v1/traces"@[9]);
        }
    }
    assert(!is_unicode_whitespace(e[0]));
    assert(!is_unicode_whitespace(e.last()));
    assert(trim_start_seq(Trimmed::Whitespace, e) == e);
    assert(trim_end_seq(Trimmed::Whitespace, e) == e);
    assert(trim_end_seq(Trimmed::Char('/'), e) == e);
    assert(endpoint_base(e) == e);
    assert(has_http_scheme(e)) by {
        if starts_with_lower(b, "http://"@) {
            assert forall|i: int| 0 <= i < 7 implies lowers_to(#[trigger] e[i], "http://"@[i]) by {
                assert(e[i] == b[i]);
            }
        } else {
            assert forall|i: int| 0 <= i < 8 implies lowers_to(#[trigger] e[i], "https://"@[i]) by {
                assert(e[i] == b[i]);
            }
        }
    }
    assert(ends_with_lower(e, "/v1/traces"@)) by {
        if !ends_with_lower(b, "/v1/traces"@) {
            assert forall|i: int| 0 <= i < 10 implies lowers_to(
                #[trigger] e[e.len() - 10 + i],
                "/v1/traces"@[i],
            ) by {
                assert(e[e.len() - 10 + i] == "/v1/traces"@[i]);
            }
        }
    }
}

/// The process environment that the tracing set-up reads, each variable as
/// `std::env::var(..).ok()` gives it.
pub struct ApmEnv {
    /// `OTEL_EXPORTER_OTLP_TRACES_ENDPOINT`
    pub otel_traces_endpoint: Option<String>,
    /// `OTEL_EXPORTER_OTLP_ENDPOINT`
    pub otel_endpoint: Option<String>,
    /// `ELASTIC_APM_SERVER_URL`
    pub apm_server_url: Option<String>,
    /// `OTEL_SERVICE_NAME`
    pub otel_service_name: Option<String>,
    /// `ELASTIC_APM_SERVICE_NAME`
    pub apm_service_name: Option<String>,
    /// `ELASTIC_APM_SECRET_TOKEN`
    pub secret_token: Option<String>,
    /// `OTEL_TRACES_SAMPLER_ARG`
    pub otel_sampler_arg: Option<String>,
    /// `ELASTIC_APM_TRANSACTION_SAMPLE_RATE`
    pub apm_sample_rate: Option<String>,
    /// `ELASTIC_APM_ENVIRONMENT`
    pub environment: Option<String>,
    /// `HOSTNAME`
    pub hostname: Option<String>,
    /// `CONTAINER_NAME`
    pub container_name: Option<String>,
    /// Whether `/.dockerenv` exists.
    pub dockerenv_exists: bool,
    /// `KUBERNETES_SERVICE_HOST`
    pub kubernetes_service_host: Option<String>,
    /// `KUBE_NAMESPACE`
    pub kube_namespace: Option<String>,
    /// `KUBE_POD_UID`
    pub kube_pod_uid: Option<String>,
    /// `KUBE_NODE_NAME`
    pub kube_node_name: Option<String>,
}

/// Where the exporter sends traces.
pub enum TracesEndpoint {
    /// An `OTEL_EXPORTER_OTLP_*ENDPOINT` variable is set: the exporter is given
    /// no endpoint and the SDK resolves this value itself.
    FromEnvironment(String),
    /// Built from `ELASTIC_APM_SERVER_URL` and given to the exporter.
    Explicit(String),
}

/// One resource attribute of the exported traces.
pub struct Attribute {
    pub key: String,
    pub value: String,
}

/// The tracing set-up to install.
pub struct ApmPlan {
    pub service_name: String,
    pub endpoint: TracesEndpoint,
    /// Value of the `Authorization` header of the exporter, if any.
    pub authorization: Option<String>,
    /// Text of the trace sample ratio, to be parsed as a float.
    pub sample_ratio: Option<String>,
    pub attributes: Vec<Attribute>,
    /// A container was detected but `HOSTNAME` is unset, so no `container.id`.
    pub container_id_missing: bool,
}

pub open spec fn either(a: Option<Seq<char>>, b: Option<Seq<char>>) -> Option<Seq<char>> {
    match a {
        Some(x) => Some(x),
        None => b,
    }
}

pub open spec fn env_of(raw: Option<String>) -> Option<Seq<char>> {
    env_value(opt_string_view(raw))
}

/// The OTEL endpoint variable in force: the traces-specific one wins.
pub open spec fn otel_endpoint_of(env: &ApmEnv) -> Option<Seq<char>> {
    either(env_of(env.otel_traces_endpoint), env_of(env.otel_endpoint))
}

/// The service name in force: `OTEL_SERVICE_NAME` wins.
pub open spec fn service_name_of(env: &ApmEnv) -> Option<Seq<char>> {
    either(env_of(env.otel_service_name), env_of(env.apm_service_name))
}

/// Tracing is set up only when some endpoint and a service name are given.
pub open spec fn apm_enabled(env: &ApmEnv) -> bool {
    &&& (otel_endpoint_of(env) is Some || env_of(env.apm_server_url) is Some)
    &&& service_name_of(env) is Some
}

pub open spec fn opt_attribute(key: Seq<char>, value: Option<Seq<char>>) -> Seq<
    (Seq<char>, Seq<char>),
> {
    match value {
        Some(v) => seq![(key, v)],
        None => Seq::empty(),
    }
}

/// Whether the process runs in a container.
pub open spec fn in_container(env: &ApmEnv) -> bool {
    env.container_name is Some || env.dockerenv_exists
}

/// The resource attributes, in order.
pub open spec fn resource_attributes(
    env: &ApmEnv,
    version: Seq<char>,
    arch: Seq<char>,
    os: Seq<char>,
) -> Seq<(Seq<char>, Seq<char>)> {
    let environment = match env_of(env.environment) {
        Some(e) => e,
        None => "development"@,
    };
    let host = env_of(env.hostname);
    let base = seq![
        ("service.version"@, version),
        ("deployment.environment"@, environment),
        ("deployment.environment.name"@, environment),
        ("host.arch"@, arch),
        ("os.type"@, os),
    ];
    let with_host = base + opt_attribute("host.name"@, host) + opt_attribute(
        "service.instance.id"@,
        host,
    );
    let with_container = if in_container(env) {
        with_host + opt_attribute("container.id"@, host)
    } else {
        with_host
    };
    if env.kubernetes_service_host is Some {
        with_container + opt_attribute("k8s.namespace.name"@, env_of(env.kube_namespace))
            + opt_attribute("k8s.pod.name"@, host) + opt_attribute(
            "k8s.pod.uid"@,
            env_of(env.kube_pod_uid),
        ) + opt_attribute("k8s.node.name"@, env_of(env.kube_node_name))
    } else {
        with_container
    }
}

/// Every configured value shows up as its own attribute: the service version,
/// the architecture, the OS, the deployment environment (`development` when
/// unset), the host name and instance id, the container id when in a
/// container, and under Kubernetes the namespace, pod name, pod UID and node
/// name.
pub open spec fn carries_configuration(
    attrs: Seq<(Seq<char>, Seq<char>)>,
    env: &ApmEnv,
    version: Seq<char>,
    arch: Seq<char>,
    os: Seq<char>,
) -> bool {
    let host = env_of(env.hostname);
    &&& attrs.contains(("service.version"@, version))
    &&& attrs.contains(("host.arch"@, arch))
    &&& attrs.contains(("os.type"@, os))
    &&& env_of(env.environment) is Some ==> attrs.contains(
        ("deployment.environment"@, env_of(env.environment)->0),
    ) && attrs.contains(("deployment.environment.name"@, env_of(env.environment)->0))
    &&& env_of(env.environment) is None ==> attrs.contains(
        ("deployment.environment"@, "development"@),
    ) && attrs.contains(("deployment.environment.name"@, "development"@))
    &&& host is Some ==> attrs.contains(("host.name"@, host->0)) && attrs.contains(
        ("service.instance.id"@, host->0),
    )
    &&& in_container(env) && host is Some ==> attrs.contains(("container.id"@, host->0))
    &&& env.kubernetes_service_host is Some ==> {
        &&& env_of(env.kube_namespace) is Some ==> attrs.contains(
            ("k8s.namespace.name"@, env_of(env.kube_namespace)->0),
        )
        &&& host is Some ==> attrs.contains(("k8s.pod.name"@, host->0))
        &&& env_of(env.kube_pod_uid) is Some ==> attrs.contains(
            ("k8s.pod.uid"@, env_of(env.kube_pod_uid)->0),
        )
        &&& env_of(env.kube_node_name) is Some ==> attrs.contains(
            ("k8s.node.name"@, env_of(env.kube_node_name)->0),
        )
    }
}

proof fn lemma_contains_concat<A>(a: Seq<A>, b: Seq<A>, x: A)
    ensures
        a.contains(x) ==> (a + b).contains(x),
        b.contains(x) ==> (a + b).contains(x),
{
    if a.contains(x) {
        let i = choose|i: int| 0 <= i < a.len() && a[i] == x;
        assert((a + b)[i] == x);
    }
    if b.contains(x) {
        let i = choose|i: int| 0 <= i < b.len() && b[i] == x;
        assert((a + b)[a.len() + i] == x);
    }
}

proof fn lemma_opt_attribute_contains(k: Seq<char>, v: Option<Seq<char>>)
    ensures
        v is Some ==> opt_attribute(k, v).contains((k, v->0)),
{
    if v is Some {
        assert(opt_attribute(k, v)[0] == (k, v->0));
    }
}

/// The resource attributes carry every configured value.
pub proof fn lemma_resource_attributes_carry_configuration(
    env: &ApmEnv,
    version: Seq<char>,
    arch: Seq<char>,
    os: Seq<char>,
)
    ensures
        carries_configuration(resource_attributes(env, version, arch, os), env, version, arch, os),
{
    let environment = match env_of(env.environment) {
        Some(e) => e,
        None => "development"@,
    };
    let host = env_of(env.hostname);
    let base = seq![
        ("service.version"@, version),
        ("deployment.environment"@, environment),
        ("deployment.environment.name"@, environment),
        ("host.arch"@, arch),
        ("os.type"@, os),
    ];
    assert(base[0] == ("service.version"@, version));
    assert(base[1] == ("deployment.environment"@, environment));
    assert(base[2] == ("deployment.environment.name"@, environment));
    assert(base[3] == ("host.arch"@, arch));
    assert(base[4] == ("os.type"@, os));
    let h1 = opt_attribute("host.name"@, host);
    let h2 = opt_attribute("service.instance.id"@, host);
    lemma_opt_attribute_contains("host.name"@, host);
    lemma_opt_attribute_contains("service.instance.id"@, host);
    let with_host = base + h1 + h2;
    assert forall|x: (Seq<char>, Seq<char>)|
        base.contains(x) || h1.contains(x) || h2.contains(x) implies with_host.contains(x) by {
        lemma_contains_concat(base, h1, x);
        lemma_contains_concat(base + h1, h2, x);
    }
    let c = opt_attribute("container.id"@, host);
    lemma_opt_attribute_contains("container.id"@, host);
    let with_container = if in_container(env) {
        with_host + c
    } else {
        with_host
    };
    assert forall|x: (Seq<char>, Seq<char>)| with_host.contains(x) implies with_container.contains(
        x,
    ) by {
        if in_container(env) {
            lemma_contains_concat(with_host, c, x);
        }
    }
    if in_container(env) && host is Some {
        lemma_contains_concat(with_host, c, ("container.id"@, host->0));
    }
    let attrs = resource_attributes(env, version, arch, os);
    if env.kubernetes_service_host is Some {
        let k1 = opt_attribute("k8s.namespace.name"@, env_of(env.kube_namespace));
        let k2 = opt_attribute("k8s.pod.name"@, host);
        let k3 = opt_attribute("k8s.pod.uid"@, env_of(env.kube_pod_uid));
        let k4 = opt_attribute("k8s.node.name"@, env_of(env.kube_node_name));
        lemma_opt_attribute_contains("k8s.namespace.name"@, env_of(env.kube_namespace));
        lemma_opt_attribute_contains("k8s.pod.name"@, host);
        lemma_opt_attribute_contains("k8s.pod.uid"@, env_of(env.kube_pod_uid));
        lemma_opt_attribute_contains("k8s.node.name"@, env_of(env.kube_node_name));
        assert(attrs == with_container + k1 + k2 + k3 + k4);
        assert forall|x: (Seq<char>, Seq<char>)|
            with_container.contains(x) || k1.contains(x) || k2.contains(x) || k3.contains(x)
                || k4.contains(x) implies attrs.contains(x) by {
            lemma_contains_concat(with_container, k1, x);
            lemma_contains_concat(with_container + k1, k2, x);
            lemma_contains_concat(with_container + k1 + k2, k3, x);
            lemma_contains_concat(with_container + k1 + k2 + k3, k4, x);
        }
    } else {
        assert(attrs == with_container);
    }
}

pub open spec fn attribute_view(a: Attribute) -> (Seq<char>, Seq<char>) {
    (a.key@, a.value@)
}

pub open spec fn attributes_view(v: Seq<Attribute>) -> Seq<(Seq<char>, Seq<char>)> {
    v.map_values(|a: Attribute| attribute_view(a))
}

pub open spec fn endpoint_view(e: TracesEndpoint) -> Result<Seq<char>, Seq<char>> {
    match e {
        TracesEndpoint::FromEnvironment(u) => Err(u@),
        TracesEndpoint::Explicit(u) => Ok(u@),
    }
}

fn push_attribute(attrs: &mut Vec<Attribute>, key: &str, value: &str)
    ensures
        attributes_view(final(attrs)@) == attributes_view(old(attrs)@).push((key@, value@)),
{
    attrs.push(Attribute { key: String::from_str(key), value: String::from_str(value) });
    proof {
        assert(attributes_view(attrs@) =~= attributes_view(old(attrs)@).push((key@, value@)));
    }
}

fn push_opt_attribute(attrs: &mut Vec<Attribute>, key: &str, value: &Option<String>)
    ensures
        attributes_view(final(attrs)@) == attributes_view(old(attrs)@) + opt_attribute(
            key@,
            opt_string_view(*value),
        ),
{
    match value {
        Some(v) => {
            push_attribute(attrs, key, v.as_str());
            proof {
                assert(attributes_view(attrs@) =~= attributes_view(old(attrs)@) + opt_attribute(
                    key@,
                    opt_string_view(*value),
                ));
            }
        },
        None => {
            proof {
                assert(attributes_view(attrs@) =~= attributes_view(old(attrs)@) + opt_attribute(
                    key@,
                    opt_string_view(*value),
                ));
            }
        },
    }
}

fn either_string(a: Option<String>, b: Option<String>) -> (r: Option<String>)
    ensures
        opt_string_view(r) == either(opt_string_view(a), opt_string_view(b)),
{
    match a {
        Some(x) => Some(x),
        None => b,
    }
}

/// The resource attributes of the exported traces, and whether a detected
/// container had to go without a `container.id`.
pub fn build_resource_attributes(env: &ApmEnv, version: &str, arch: &str, os: &str) -> (r: (
    Vec<Attribute>,
    bool,
))
    ensures
        attributes_view(r.0@) == resource_attributes(env, version@, arch@, os@),
        carries_configuration(attributes_view(r.0@), env, version@, arch@, os@),
        r.1 == (in_container(env) && env_of(env.hostname) is None),
{
    let environment = match clean_env_string(&env.environment) {
        Some(e) => e,
        None => String::from_str("development"),
    };
    let host = clean_env_string(&env.hostname);
    let mut attrs: Vec<Attribute> = Vec::new();
    push_attribute(&mut attrs, "service.version", version);
    push_attribute(&mut attrs, "deployment.environment", environment.as_str());
    push_attribute(&mut attrs, "deployment.environment.name", environment.as_str());
    push_attribute(&mut attrs, "host.arch", arch);
    push_attribute(&mut attrs, "os.type", os);
    push_opt_attribute(&mut attrs, "host.name", &host);
    push_opt_attribute(&mut attrs, "service.instance.id", &host);
    let in_container = env.container_name.is_some() || env.dockerenv_exists;
    let mut container_id_missing = false;
    if in_container {
        push_opt_attribute(&mut attrs, "container.id", &host);
        container_id_missing = host.is_none();
    }
    if env.kubernetes_service_host.is_some() {
        let ns = clean_env_string(&env.kube_namespace);
        let uid = clean_env_string(&env.kube_pod_uid);
        let node = clean_env_string(&env.kube_node_name);
        push_opt_attribute(&mut attrs, "k8s.namespace.name", &ns);
        push_opt_attribute(&mut attrs, "k8s.pod.name", &host);
        push_opt_attribute(&mut attrs, "k8s.pod.uid", &uid);
        push_opt_attribute(&mut attrs, "k8s.node.name", &node);
    }
    proof {
        let ghost expected = resource_attributes(env, version@, arch@, os@);
        assert(attributes_view(attrs@) =~= expected);
        lemma_resource_attributes_carry_configuration(env, version@, arch@, os@);
    }
    (attrs, container_id_missing)
}

/// Decides the tracing set-up from the environment (`version`, `arch` and
/// `os` are the service version and the target's architecture and OS).
///
/// `Ok(None)` when no endpoint or no service name is configured; an error
/// when the endpoint has to be built from `ELASTIC_APM_SERVER_URL` and that
/// URL has no HTTP scheme.
pub fn plan_apm(env: &ApmEnv, version: &str, arch: &str, os: &str) -> (r: Result<
    Option<ApmPlan>,
    EndpointError,
>)
    ensures
        !apm_enabled(env) ==> r matches Ok(None),
        apm_enabled(env) && otel_endpoint_of(env) is None ==> (r is Err <==> traces_endpoint(
            env_of(env.apm_server_url)->0,
        ) is Err),
        r matches Err(e) ==> endpoint_result_view(Err(e)) == traces_endpoint(
            env_of(env.apm_server_url)->0,
        ),
        apm_enabled(env) ==> !(r matches Ok(None)),
        otel_endpoint_of(env) is Some ==> r is Ok,
        r matches Ok(Some(p)) ==> {
            &&& apm_enabled(env)
            &&& p.service_name@ == service_name_of(env)->0
            &&& endpoint_view(p.endpoint) == match otel_endpoint_of(env) {
                Some(u) => Err(u),
                None => Ok(traces_endpoint(env_of(env.apm_server_url)->0)->Ok_0),
            }
            &&& opt_string_view(p.authorization) == match env_of(env.secret_token) {
                Some(t) => Some("Bearer "@ + t),
                None => None,
            }
            &&& opt_string_view(p.sample_ratio) == either(
                env_of(env.otel_sampler_arg),
                env_of(env.apm_sample_rate),
            )
            &&& attributes_view(p.attributes@) == resource_attributes(env, version@, arch@, os@)
            &&& carries_configuration(attributes_view(p.attributes@), env, version@, arch@, os@)
            &&& p.container_id_missing == (in_container(env) && env_of(env.hostname) is None)
        },
{
    let otel_endpoint = either_string(
        clean_env_string(&env.otel_traces_endpoint),
        clean_env_string(&env.otel_endpoint),
    );
    let apm_server_url = clean_env_string(&env.apm_server_url);
    let service_name = either_string(
        clean_env_string(&env.otel_service_name),
        clean_env_string(&env.apm_service_name),
    );
    if otel_endpoint.is_none() && apm_server_url.is_none() {
        return Ok(None);
    }
    let service_name = match service_name {
        Some(name) => name,
        None => return Ok(None),
    };
    let endpoint = match otel_endpoint {
        Some(url) => TracesEndpoint::FromEnvironment(url),
        None => {
            let url = match apm_server_url {
                Some(u) => u,
                None => return Ok(None),
            };
            match build_traces_endpoint(url.as_str()) {
                Ok(e) => TracesEndpoint::Explicit(e),
                Err(e) => return Err(e),
            }
        },
    };
    let authorization = match clean_env_string(&env.secret_token) {
        Some(token) => Some(String::from_str("Bearer ").concat(token.as_str())),
        None => None,
    };
    let sample_ratio = either_string(
        clean_env_string(&env.otel_sampler_arg),
        clean_env_string(&env.apm_sample_rate),
    );
    let (attributes, container_id_missing) = build_resource_attributes(env, version, arch, os);
    Ok(
        Some(
            ApmPlan {
                service_name,
                endpoint,
                authorization,
                sample_ratio,
                attributes,
                container_id_missing,
            },
        ),
    )
}

/// The filter directives used when `RUST_LOG` is unset or blank.
pub const DEFAULT_FILTER: &'static str = "warn,csml_server=info,csml_engine=info,csml_interpreter=warn,tracing_actix_web=info,hyper=off,h2=off,reqwest=off,tokio=off,rustls=off";

/// The tracing filter: a non-blank `RUST_LOG`, trimmed, with
/// `tracing_actix_web=info` appended so that the request root spans are never
/// filtered out; `DEFAULT_FILTER` otherwise.
pub open spec fn filter_directives_for(rust_log: Option<Seq<char>>) -> Seq<char> {
    match rust_log {
        Some(v) if trim_ws(v).len() > 0 => trim_ws(v) + ",tracing_actix_web=info"@,
        _ => DEFAULT_FILTER@,
    }
}

/// The text `tracing_actix_web=info` occurs in `s` at position `i`.
pub open spec fn root_span_directive_at(s: Seq<char>, i: int) -> bool {
    0 <= i && i + 22 <= s.len() && s.subrange(i, i + 22) == "tracing_actix_web=info"@
}

/// The filter never drops the request root spans: a non-blank `RUST_LOG` is
/// kept (trimmed) and followed by `,tracing_actix_web=info`, and every filter
/// holds the `tracing_actix_web=info` directive.
pub proof fn lemma_filter_keeps_root_spans(rust_log: Option<Seq<char>>)
    ensures
        (rust_log matches Some(v) && trim_ws(v).len() > 0) ==> filter_directives_for(rust_log)
            == trim_ws(rust_log->0) + ",tracing_actix_web=info"@,
        exists|i: int| root_span_directive_at(filter_directives_for(rust_log), i),
{
    reveal_strlit("tracing_actix_web=info");
    reveal_strlit(",tracing_actix_web=info");
    reveal_strlit(
        "warn,csml_server=info,csml_engine=info,csml_interpreter=warn,tracing_actix_web=info,hyper=off,h2=off,reqwest=off,tokio=off,rustls=off",
    );
    let f = filter_directives_for(rust_log);
    match rust_log {
        Some(v) if trim_ws(v).len() > 0 => {
            let n: int = trim_ws(v).len() as int;
            assert(f.subrange(n + 1, n + 23) =~= "tracing_actix_web=info"@);
            assert(root_span_directive_at(f, n + 1));
        },
        _ => {
            assert(f.subrange(61, 83) =~= "tracing_actix_web=info"@);
            assert(root_span_directive_at(f, 61));
        },
    }
}

/// Tracing filter directives from the raw `RUST_LOG` value.
pub fn filter_directives(rust_log: Option<&str>) -> (r: String)
    ensures
        r@ == filter_directives_for(crate::tools::opt_view(rust_log)),
        match rust_log {
            Some(v) => if trim_ws(v@).len() > 0 {
                r@ == trim_ws(v@) + ",tracing_actix_web=info"@
            } else {
                r@ == DEFAULT_FILTER@
            },
            None => r@ == DEFAULT_FILTER@,
        },
{
    match rust_log {
        Some(v) => {
            let t = trim(v);
            if t.unicode_len() > 0 {
                return String::from_str(t).concat(",tracing_actix_web=info");
            }
        },
        None => {},
    }
    String::from_str(DEFAULT_FILTER)
}

/// Cap of the `log` records that reach the tracing layer.
#[derive(Clone, Copy, PartialEq, Eq, Debug)]
pub enum LogLevel {
    Trace,
    Debug,
    Info,
    Warn,
    Off,
    Error,
}

/// The log level named by `CSML_LOG_LEVEL` (unset meaning `error`), trimmed
/// and compared case-insensitively; any other name means `Error`.
pub open spec fn log_level_for(raw: Option<Seq<char>>) -> LogLevel {
    let name = match raw {
        Some(v) => trim_ws(v),
        None => "error"@,
    };
    if eq_lower(name, "trace"@) {
        LogLevel::Trace
    } else if eq_lower(name, "debug"@) {
        LogLevel::Debug
    } else if eq_lower(name, "info"@) {
        LogLevel::Info
    } else if eq_lower(name, "warn"@) {
        LogLevel::Warn
    } else if eq_lower(name, "off"@) {
        LogLevel::Off
    } else {
        LogLevel::Error
    }
}

/// `a` and `b` are equal once ASCII-lower-cased.
pub open spec fn same_lowercase(a: Seq<char>, b: Seq<char>) -> bool {
    a.len() == b.len() && forall|i: int| 0 <= i < a.len() ==> ascii_lower(#[trigger] a[i])
        == ascii_lower(b[i])
}

proof fn lemma_eq_lower_same_lowercase(a: Seq<char>, b: Seq<char>, p: Seq<char>)
    requires
        same_lowercase(a, b),
    ensures
        eq_lower(a, p) == eq_lower(b, p),
{
    if eq_lower(a, p) {
        assert forall|i: int| 0 <= i < p.len() implies lowers_to(#[trigger] b[i], p[i]) by {
            lemma_lowers_to_code(a[i], p[i]);
            lemma_lowers_to_code(b[i], p[i]);
        }
    }
    if eq_lower(b, p) {
        assert forall|i: int| 0 <= i < p.len() implies lowers_to(#[trigger] a[i], p[i]) by {
            lemma_lowers_to_code(a[i], p[i]);
            lemma_lowers_to_code(b[i], p[i]);
        }
    }
}

/// The log level depends only on the trimmed name with ASCII case ignored:
/// two values whose trimmed texts agree up to ASCII case give the same level.
pub proof fn lemma_log_level_ignores_case(a: Seq<char>, b: Seq<char>)
    requires
        same_lowercase(trim_ws(a), trim_ws(b)),
    ensures
        log_level_for(Some(a)) == log_level_for(Some(b)),
{
    lemma_eq_lower_same_lowercase(trim_ws(a), trim_ws(b), "trace"@);
    lemma_eq_lower_same_lowercase(trim_ws(a), trim_ws(b), "debug"@);
    lemma_eq_lower_same_lowercase(trim_ws(a), trim_ws(b), "info"@);
    lemma_eq_lower_same_lowercase(trim_ws(a), trim_ws(b), "warn"@);
    lemma_eq_lower_same_lowercase(trim_ws(a), trim_ws(b), "off"@);
}

/// Each level name selects its level, in any ASCII case and with surrounding
/// white space; an unset value means `Error`.
pub proof fn lemma_log_level_names(raw: Option<Seq<char>>)
    ensures
        raw is None ==> log_level_for(raw) == LogLevel::Error,
        raw matches Some(v) && eq_lower(trim_ws(v), "trace"@) ==> log_level_for(raw)
            == LogLevel::Trace,
        raw matches Some(v) && eq_lower(trim_ws(v), "debug"@) ==> log_level_for(raw)
            == LogLevel::Debug,
        raw matches Some(v) && eq_lower(trim_ws(v), "info"@) ==> log_level_for(raw)
            == LogLevel::Info,
        raw matches Some(v) && eq_lower(trim_ws(v), "warn"@) ==> log_level_for(raw)
            == LogLevel::Warn,
        raw matches Some(v) && eq_lower(trim_ws(v), "off"@) ==> log_level_for(raw)
            == LogLevel::Off,
{
    reveal_strlit("trace");
    reveal_strlit("debug");
    reveal_strlit("info");
    reveal_strlit("warn");
    reveal_strlit("off");
    reveal_strlit("error");
    if raw is None {
        assert(!eq_lower("error"@, "trace"@)) by {
            assert("error"@[0] == 'e');
            assert("trace"@[0] == 't');
            assert(!lowers_to("error"@[0], "trace"@[0]));
        }
        assert(!eq_lower("error"@, "debug"@));
        assert(!eq_lower("error"@, "info"@));
        assert(!eq_lower("error"@, "warn"@));
        assert(!eq_lower("error"@, "off"@));
    }
    if let Some(v) = raw {
        let n = trim_ws(v);
        if eq_lower(n, "debug"@) {
            assert(!eq_lower(n, "trace"@)) by {
                assert(lowers_to(n[0], 'd'));
                assert(!lowers_to(n[0], 't'));
            }
        }
        if eq_lower(n, "info"@) {
            assert(!eq_lower(n, "trace"@));
            assert(!eq_lower(n, "debug"@));
        }
        if eq_lower(n, "warn"@) {
            assert(!eq_lower(n, "trace"@));
            assert(!eq_lower(n, "debug"@));
            assert(!eq_lower(n, "info"@)) by {
                assert(lowers_to(n[0], 'w'));
                assert(!lowers_to(n[0], 'i'));
            }
        }
        if eq_lower(n, "off"@) {
            assert(!eq_lower(n, "trace"@));
            assert(!eq_lower(n, "debug"@));
            assert(!eq_lower(n, "info"@));
            assert(!eq_lower(n, "warn"@));
        }
    }
}

/// Log level from the raw `CSML_LOG_LEVEL` value.
pub fn log_level(raw: Option<&str>) -> (r: LogLevel)
    ensures
        r == log_level_for(crate::tools::opt_view(raw)),
        raw is None ==> r == LogLevel::Error,
        raw matches Some(v) && eq_lower(trim_ws(v@), "trace"@) ==> r == LogLevel::Trace,
        raw matches Some(v) && eq_lower(trim_ws(v@), "debug"@) ==> r == LogLevel::Debug,
        raw matches Some(v) && eq_lower(trim_ws(v@), "info"@) ==> r == LogLevel::Info,
        raw matches Some(v) && eq_lower(trim_ws(v@), "warn"@) ==> r == LogLevel::Warn,
        raw matches Some(v) && eq_lower(trim_ws(v@), "off"@) ==> r == LogLevel::Off,
{
    proof {
        lemma_log_level_names(crate::tools::opt_view(raw));
    }
    let name = match raw {
        Some(v) => trim(v),
        None => "error",
    };
    if eq_ignore_ascii_case(name, "trace") {
        LogLevel::Trace
    } else if eq_ignore_ascii_case(name, "debug") {
        LogLevel::Debug
    } else if eq_ignore_ascii_case(name, "info") {
        LogLevel::Info
    } else if eq_ignore_ascii_case(name, "warn") {
        LogLevel::Warn
    } else if eq_ignore_ascii_case(name, "off") {
        LogLevel::Off
    } else {
        LogLevel::Error
    }
}

} // verus!
