use common_http_server_rs::auth::SharedAuthConfig;
use common_http_server_rs::middleware_orchestrator::{
    priority_order, AuthDecision, AuthRule, ConfigError, GlobalAuthConfig, GlobalAuthFallback,
    GlobalAuthMode, GlobalMonitoringConfig, MiddlewareOrchestrator, PathScope, RuntimeLayer,
    RuntimeLayerSettings, ScopedAuthState, runtime_layer_plan,
};
use common_http_server_rs::monitoring::{MonitoringState, PerformanceMonitoringConfig, ProtectionStack};

fn valid_auth(handle: u64) -> SharedAuthConfig {
    SharedAuthConfig::new(handle, None)
}

#[test]
fn path_scope_prefix_matching_is_segment_aware() {
    let scope = PathScope::all().exclude_prefix("/panel");

    assert!(!scope.matches("/panel"));
    assert!(!scope.matches("/panel/api"));
    assert!(scope.matches("/panelized"));
}

#[test]
fn path_scope_include_filters_paths() {
    let scope = PathScope::all()
        .include_prefix("/api")
        .exclude_exact("/api/private");

    assert!(scope.matches("/api/users"));
    assert!(!scope.matches("/panel"));
    assert!(!scope.matches("/api/private"));
}

#[test]
fn orchestrator_validate_rejects_invalid_auth_rules() {
    let invalid_auth = SharedAuthConfig::new(7, Some("jwt secret is the insecure default".to_string()));

    let orchestrator = MiddlewareOrchestrator::new()
        .with_auth_rule(
            AuthRule::new(invalid_auth.clone(), GlobalAuthMode::ApiKey)
                .with_scope(PathScope::all().include_prefix("/api")),
        )
        .with_auth_rule(
            AuthRule::new(invalid_auth, GlobalAuthMode::ApiKey)
                .with_scope(PathScope::all().include_prefix("/realtime")),
        );

    assert!(matches!(orchestrator.validate(), Err(ConfigError::InvalidAuth(_))));
}

#[test]
fn validate_reports_first_problem_in_rule_order() {
    let orchestrator = MiddlewareOrchestrator::new()
        .with_auth_rule(AuthRule::new(valid_auth(1), GlobalAuthMode::Basic))
        .with_auth_rule(AuthRule::new(SharedAuthConfig::new(2, Some("second".to_string())), GlobalAuthMode::Jwt))
        .with_auth_rule(AuthRule::new(SharedAuthConfig::new(3, Some("third".to_string())), GlobalAuthMode::Jwt));
    match orchestrator.validate() {
        Err(ConfigError::InvalidAuth(m)) => assert_eq!(m, "second"),
        Ok(()) => panic!("expected an error"),
    }
}

#[test]
fn validate_checks_each_configuration_once() {
    // Rule 2 shares configuration 1 with rule 1, so only its first verdict counts.
    let orchestrator = MiddlewareOrchestrator::new()
        .with_auth_rule(AuthRule::new(valid_auth(1), GlobalAuthMode::ApiKey))
        .with_auth_rule(AuthRule::new(SharedAuthConfig::new(1, Some("ignored".to_string())), GlobalAuthMode::ApiKey));
    assert!(orchestrator.validate().is_ok());
}

#[test]
fn validate_accepts_no_rules() {
    assert!(MiddlewareOrchestrator::new().validate().is_ok());
}

#[test]
fn global_auth_scope_can_skip_health_routes() {
    let scope = PathScope::all().exclude_exact("/health");
    let plan = MiddlewareOrchestrator::new()
        .with_app_runtime_layers(false)
        .with_global_auth_config(GlobalAuthConfig::new(valid_auth(1), GlobalAuthMode::ApiKey).with_scope(scope))
        .layer_plan(&RuntimeLayerSettings { enable_logging: true, enable_tracing: true, cors_enabled: true });
    let auth = plan.scoped_auth.expect("auth layer");
    assert_eq!(auth.decide("/health"), AuthDecision::Allow);
    assert_eq!(auth.decide("/secure"), AuthDecision::Authenticate(0));
    assert!(plan.runtime_layers.is_empty());
}

#[test]
fn matched_auth_rule_realm_is_available_to_handlers_and_response_extensions() {
    let state = ScopedAuthState::new(
        vec![AuthRule::new(valid_auth(1), GlobalAuthMode::ApiKey)
            .with_realm("tenant-a")
            .with_scope(PathScope::all().include_prefix("/tenant-a"))],
        GlobalAuthFallback::Allow,
    );
    match state.decide("/tenant-a/realm") {
        AuthDecision::Authenticate(i) => assert_eq!(state.rule(i).realm, "tenant-a"),
        other => panic!("unexpected decision {:?}", other),
    }
}

#[test]
fn auth_rules_support_same_mode_with_different_backends() {
    let state = ScopedAuthState::new(
        vec![
            AuthRule::new(valid_auth(1), GlobalAuthMode::ApiKey)
                .with_realm("tenant-a")
                .with_scope(PathScope::all().include_prefix("/tenant-a")),
            AuthRule::new(valid_auth(2), GlobalAuthMode::ApiKey)
                .with_realm("tenant-b")
                .with_scope(PathScope::all().include_prefix("/tenant-b")),
        ],
        GlobalAuthFallback::Allow,
    );
    assert_eq!(state.decide("/tenant-a/data"), AuthDecision::Authenticate(0));
    assert_eq!(state.decide("/tenant-b/data"), AuthDecision::Authenticate(1));
    assert_eq!(state.rule(1).auth_config.handle, 2);
}

#[test]
fn auth_rule_priority_uses_highest_priority_match() {
    let plan = MiddlewareOrchestrator::new()
        .with_app_runtime_layers(false)
        .with_auth_rule(
            AuthRule::new(valid_auth(1), GlobalAuthMode::ApiKey)
                .with_scope(PathScope::all().include_prefix("/api"))
                .with_priority(10),
        )
        .with_auth_rule(
            AuthRule::new(valid_auth(2), GlobalAuthMode::ApiKey)
                .with_scope(PathScope::all().include_prefix("/api/admin"))
                .with_priority(20),
        )
        .layer_plan(&RuntimeLayerSettings { enable_logging: false, enable_tracing: false, cors_enabled: false });
    let auth = plan.scoped_auth.expect("auth layer");
    assert_eq!(auth.decide("/api/admin/stats"), AuthDecision::Authenticate(1));
    assert_eq!(auth.decide("/api/users"), AuthDecision::Authenticate(0));
}

#[test]
fn auth_fallback_can_deny_unmatched_paths() {
    let plan = MiddlewareOrchestrator::new()
        .with_app_runtime_layers(false)
        .with_auth_fallback(GlobalAuthFallback::DenyUnauthorized)
        .layer_plan(&RuntimeLayerSettings { enable_logging: false, enable_tracing: false, cors_enabled: false });
    let auth = plan.scoped_auth.expect("auth layer");
    assert_eq!(auth.decide("/public"), AuthDecision::Deny);
}

#[test]
fn equal_priorities_keep_insertion_order() {
    let rules = vec![
        AuthRule::new(valid_auth(1), GlobalAuthMode::Basic).with_priority(5),
        AuthRule::new(valid_auth(2), GlobalAuthMode::Jwt).with_priority(9),
        AuthRule::new(valid_auth(3), GlobalAuthMode::ApiKey).with_priority(5),
        AuthRule::new(valid_auth(4), GlobalAuthMode::ApiKey).with_priority(-1),
    ];
    assert_eq!(priority_order(&rules), vec![1, 0, 2, 3]);
    let state = ScopedAuthState::new(rules, GlobalAuthFallback::Allow);
    // Rules 0 and 2 cover every path with equal priority; 1 has the highest.
    assert_eq!(state.decide("/x"), AuthDecision::Authenticate(1));
}

#[test]
fn no_rules_and_allow_fallback_need_no_auth_layer() {
    let plan = MiddlewareOrchestrator::new()
        .layer_plan(&RuntimeLayerSettings { enable_logging: true, enable_tracing: false, cors_enabled: true });
    assert!(plan.scoped_auth.is_none());
    assert!(plan.protection_stack.is_none());
    assert!(plan.monitoring.is_none());
    assert_eq!(plan.runtime_layers, vec![RuntimeLayer::StructuredLogging, RuntimeLayer::Cors]);
}

#[test]
fn plan_carries_monitoring_and_protection() {
    let plan = MiddlewareOrchestrator::new()
        .with_monitoring_config(
            MonitoringState { handle: 3 },
            GlobalMonitoringConfig::new().with_performance_config(PerformanceMonitoringConfig { handle: 9 }),
        )
        .with_protection_stack(ProtectionStack { handle: 4 })
        .layer_plan(&RuntimeLayerSettings { enable_logging: false, enable_tracing: true, cors_enabled: false });
    let (state, config) = plan.monitoring.expect("monitoring");
    assert_eq!(state, MonitoringState { handle: 3 });
    assert_eq!(config.performance, PerformanceMonitoringConfig { handle: 9 });
    assert_eq!(plan.protection_stack, Some(ProtectionStack { handle: 4 }));
    assert_eq!(plan.runtime_layers, vec![RuntimeLayer::HttpTracing]);
}

#[test]
fn with_monitoring_uses_default_settings() {
    let plan = MiddlewareOrchestrator::new()
        .with_monitoring(MonitoringState { handle: 1 })
        .layer_plan(&RuntimeLayerSettings { enable_logging: false, enable_tracing: false, cors_enabled: false });
    let (_, config) = plan.monitoring.expect("monitoring");
    assert_eq!(config.performance, PerformanceMonitoringConfig::default());
}

#[test]
fn with_global_auth_replaces_earlier_rules() {
    let plan = MiddlewareOrchestrator::new()
        .with_auth_rule(AuthRule::new(valid_auth(1), GlobalAuthMode::Basic))
        .with_auth_rules(vec![AuthRule::new(valid_auth(2), GlobalAuthMode::Basic)])
        .with_global_auth(valid_auth(3), GlobalAuthMode::Jwt)
        .layer_plan(&RuntimeLayerSettings { enable_logging: false, enable_tracing: false, cors_enabled: false });
    let auth = plan.scoped_auth.expect("auth layer");
    assert_eq!(auth.rule_count(), 1);
    assert_eq!(auth.rule(0).auth_config.handle, 3);
    assert_eq!(auth.rule(0).realm, "default");
    assert_eq!(auth.rule(0).priority, 0);
}

#[test]
fn runtime_layers_follow_settings() {
    assert_eq!(
        runtime_layer_plan(&RuntimeLayerSettings { enable_logging: true, enable_tracing: true, cors_enabled: true }),
        vec![RuntimeLayer::StructuredLogging, RuntimeLayer::HttpTracing, RuntimeLayer::Cors]
    );
    assert!(runtime_layer_plan(&RuntimeLayerSettings { enable_logging: false, enable_tracing: false, cors_enabled: false }).is_empty());
}

#[test]
fn scope_entries_are_normalized() {
    let scope = PathScope::all().include_exact("api/health/");
    assert!(scope.matches("/api/health"));
    assert!(scope.matches(" /api/health/ "));
    assert!(!scope.matches("/api/health/deep"));
}

#[test]
fn root_prefix_covers_everything() {
    let scope = PathScope::all().include_prefix("/");
    assert!(scope.matches("/"));
    assert!(scope.matches("/any/thing"));
    let excluded = PathScope::all().exclude_prefix("");
    assert!(!excluded.matches("/any"));
}
