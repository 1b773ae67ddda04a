//! Global middleware orchestration: path scopes, scoped authentication rules
//! with priorities and a fallback, and the plan of layers that the router gets.
use vstd::prelude::*;
use crate::auth::SharedAuthConfig;
use crate::monitoring::{MonitoringState, PerformanceMonitoringConfig, ProtectionStack};
use crate::path_utils::{has_prefix_segment, normalize_path, normalized_path, path_has_prefix_segment};
use crate::text::string_views;

verus! {

/// Which authentication middleware a rule runs.
#[derive(Debug, Clone, Copy, PartialEq, Eq, Structural)]
pub enum GlobalAuthMode {
    Basic,
    ApiKey,
    Jwt,
}

/// What happens to a request that no authentication rule covers.
#[derive(Debug, Clone, Copy, PartialEq, Eq, Structural)]
pub enum GlobalAuthFallback {
    Allow,
    DenyUnauthorized,
}

/// Whether some prefix of `prefixes` covers `path` as whole segments.
pub open spec fn any_prefix_segment(path: Seq<char>, prefixes: Seq<Seq<char>>) -> bool {
    exists|i: int| 0 <= i < prefixes.len() && has_prefix_segment(path, #[trigger] prefixes[i])
}

/// Whether `item` is one of `list`.
fn contains_string(list: &Vec<String>, item: &String) -> (res: bool)
    ensures
        res == string_views(list@).contains(item@),
{
    let mut i: usize = 0;
    while i < list.len()
        invariant
            i <= list@.len(),
            forall|j: int| 0 <= j < i ==> (#[trigger] list@[j])@ != item@,
        decreases list.len() - i,
    {
        if list[i] == *item {
            assert(string_views(list@)[i as int] == item@);
            return true;
        }
        i += 1;
    }
    assert forall|j: int| 0 <= j < string_views(list@).len() implies string_views(list@)[j] != item@ by {
        assert(string_views(list@)[j] == list@[j]@);
    }
    false
}

/// Whether some prefix of `list` covers `path` as whole segments.
fn contains_prefix_segment(list: &Vec<String>, path: &String) -> (res: bool)
    ensures
        res == any_prefix_segment(path@, string_views(list@)),
{
    let mut i: usize = 0;
    while i < list.len()
        invariant
            i <= list@.len(),
            forall|j: int| 0 <= j < i ==> !has_prefix_segment(path@, (#[trigger] list@[j])@),
        decreases list.len() - i,
    {
        if path_has_prefix_segment(path.as_str(), list[i].as_str()) {
            assert(has_prefix_segment(path@, string_views(list@)[i as int]));
            return true;
        }
        i += 1;
    }
    assert forall|j: int| 0 <= j < string_views(list@).len() implies !has_prefix_segment(path@, #[trigger] string_views(list@)[j]) by {
        assert(string_views(list@)[j] == list@[j]@);
    }
    false
}

/// The paths that a rule covers: exact paths and segment prefixes to include
/// (none means every path) and to exclude. Every entry is stored normalised.
#[derive(Debug, Clone)]
pub struct PathScope {
    include_exact: Vec<String>,
    include_prefixes: Vec<String>,
    exclude_exact: Vec<String>,
    exclude_prefixes: Vec<String>,
}

/// The mathematical content of a [`PathScope`].
pub struct PathScopeView {
    pub include_exact: Seq<Seq<char>>,
    pub include_prefixes: Seq<Seq<char>>,
    pub exclude_exact: Seq<Seq<char>>,
    pub exclude_prefixes: Seq<Seq<char>>,
}

impl View for PathScope {
    type V = PathScopeView;

    closed spec fn view(&self) -> PathScopeView {
        PathScopeView {
            include_exact: string_views(self.include_exact@),
            include_prefixes: string_views(self.include_prefixes@),
            exclude_exact: string_views(self.exclude_exact@),
            exclude_prefixes: string_views(self.exclude_prefixes@),
        }
    }
}

/// Whether a scope with content `v` covers `path`: the normalised path is
/// included (every path when nothing is listed for inclusion, else an exact
/// entry or a segment prefix) and not excluded (by an exact entry or a
/// segment prefix).
pub open spec fn scope_matches(v: PathScopeView, path: Seq<char>) -> bool {
    let p = normalized_path(path);
    let included = (v.include_exact.len() == 0 && v.include_prefixes.len() == 0)
        || v.include_exact.contains(p) || any_prefix_segment(p, v.include_prefixes);
    let excluded = v.exclude_exact.contains(p) || any_prefix_segment(p, v.exclude_prefixes);
    included && !excluded
}

/// The scope with nothing listed.
pub open spec fn empty_scope() -> PathScopeView {
    PathScopeView {
        include_exact: Seq::empty(),
        include_prefixes: Seq::empty(),
        exclude_exact: Seq::empty(),
        exclude_prefixes: Seq::empty(),
    }
}

impl Default for PathScope {
    fn default() -> (res: Self)
        ensures
            res@ == empty_scope(),
    {
        let res = PathScope {
            include_exact: Vec::new(),
            include_prefixes: Vec::new(),
            exclude_exact: Vec::new(),
            exclude_prefixes: Vec::new(),
        };
        assert(res@.include_exact =~= Seq::<Seq<char>>::empty());
        assert(res@.include_prefixes =~= Seq::<Seq<char>>::empty());
        assert(res@.exclude_exact =~= Seq::<Seq<char>>::empty());
        assert(res@.exclude_prefixes =~= Seq::<Seq<char>>::empty());
        res
    }
}

impl PathScope {
    /// The scope that covers every path.
    pub fn all() -> (res: Self)
        ensures
            res@ == empty_scope(),
    {
        Self::default()
    }

    /// Adds an exact path to include.
    pub fn include_exact(self, path: &str) -> (res: Self)
        ensures
            res@ == (PathScopeView {
                include_exact: self@.include_exact.push(normalized_path(path@)),
                ..self@
            }),
    {
        let mut s = self;
        let p = normalize_path(path);
        s.include_exact.push(p);
        assert(string_views(s.include_exact@) =~= self@.include_exact.push(normalized_path(path@)));
        s
    }

    /// Adds a segment prefix to include.
    pub fn include_prefix(self, prefix: &str) -> (res: Self)
        ensures
            res@ == (PathScopeView {
                include_prefixes: self@.include_prefixes.push(normalized_path(prefix@)),
                ..self@
            }),
    {
        let mut s = self;
        let p = normalize_path(prefix);
        s.include_prefixes.push(p);
        assert(string_views(s.include_prefixes@) =~= self@.include_prefixes.push(normalized_path(prefix@)));
        s
    }

    /// Adds an exact path to exclude.
    pub fn exclude_exact(self, path: &str) -> (res: Self)
        ensures
            res@ == (PathScopeView {
                exclude_exact: self@.exclude_exact.push(normalized_path(path@)),
                ..self@
            }),
    {
        let mut s = self;
        let p = normalize_path(path);
        s.exclude_exact.push(p);
        assert(string_views(s.exclude_exact@) =~= self@.exclude_exact.push(normalized_path(path@)));
        s
    }

    /// Adds a segment prefix to exclude.
    pub fn exclude_prefix(self, prefix: &str) -> (res: Self)
        ensures
            res@ == (PathScopeView {
                exclude_prefixes: self@.exclude_prefixes.push(normalized_path(prefix@)),
                ..self@
            }),
    {
        let mut s = self;
        let p = normalize_path(prefix);
        s.exclude_prefixes.push(p);
        assert(string_views(s.exclude_prefixes@) =~= self@.exclude_prefixes.push(normalized_path(prefix@)));
        s
    }

    /// Whether this scope covers `path` (see [`scope_matches`]).
    pub fn matches(&self, path: &str) -> (res: bool)
        ensures
            res == scope_matches(self@, path@),
    {
        let p = normalize_path(path);
        let included = if self.include_exact.len() == 0 && self.include_prefixes.len() == 0 {
            true
        } else {
            contains_string(&self.include_exact, &p) || contains_prefix_segment(&self.include_prefixes, &p)
        };
        let excluded = contains_string(&self.exclude_exact, &p) || contains_prefix_segment(&self.exclude_prefixes, &p);
        included && !excluded
    }
}

/// One scoped authentication rule: the configuration to authenticate with,
/// the middleware to run, the paths it covers, the realm it names and its
/// priority (higher first).
#[derive(Debug, Clone)]
pub struct GlobalAuthConfig {
    pub auth_config: SharedAuthConfig,
    pub mode: GlobalAuthMode,
    pub scope: PathScope,
    pub realm: String,
    pub priority: i32,
}

/// A scoped authentication rule.
pub type AuthRule = GlobalAuthConfig;

impl GlobalAuthConfig {
    /// A rule over every path, in realm `"default"`, with priority 0.
    pub fn new(auth_config: SharedAuthConfig, mode: GlobalAuthMode) -> (res: Self)
        ensures
            res.auth_config == auth_config,
            res.mode == mode,
            res.scope@ == empty_scope(),
            res.realm@ == "default"@,
            res.priority == 0,
    {
        GlobalAuthConfig {
            auth_config,
            mode,
            scope: PathScope::all(),
            realm: String::from_str("default"),
            priority: 0,
        }
    }

    /// Replaces the scope.
    pub fn with_scope(self, scope: PathScope) -> (res: Self)
        ensures
            res == (GlobalAuthConfig { scope, ..self }),
    {
        let mut s = self;
        s.scope = scope;
        s
    }

    /// Replaces the realm.
    pub fn with_realm(self, realm: &str) -> (res: Self)
        ensures
            res.realm@ == realm@,
            res.auth_config == self.auth_config,
            res.mode == self.mode,
            res.scope == self.scope,
            res.priority == self.priority,
    {
        let mut s = self;
        s.realm = String::from_str(realm);
        s
    }

    /// Replaces the priority.
    pub fn with_priority(self, priority: i32) -> (res: Self)
        ensures
            res == (GlobalAuthConfig { priority, ..self }),
    {
        let mut s = self;
        s.priority = priority;
        s
    }
}

/// The realm of the rule that authenticated a request.
#[derive(Debug, Clone)]
pub struct AuthRealm(pub String);

/// Settings of the global monitoring layer.
#[derive(Debug, Clone, Copy)]
pub struct GlobalMonitoringConfig {
    pub performance: PerformanceMonitoringConfig,
}

impl Default for GlobalMonitoringConfig {
    fn default() -> (res: Self)
        ensures
            res.performance.handle == 0,
    {
        GlobalMonitoringConfig { performance: PerformanceMonitoringConfig::default() }
    }
}

impl GlobalMonitoringConfig {
    /// The default monitoring settings.
    pub fn new() -> (res: Self)
        ensures
            res.performance.handle == 0,
    {
        Self::default()
    }

    /// Replaces the performance-monitoring settings.
    pub fn with_performance_config(self, performance: PerformanceMonitoringConfig) -> (res: Self)
        ensures
            res.performance == performance,
    {
        GlobalMonitoringConfig { performance }
    }
}

/// Errors that a configuration check reports.
#[derive(Debug)]
pub enum ConfigError {
    InvalidAuth(String),
}

/// Whether `seen` holds `h`.
fn contains_handle(seen: &Vec<u64>, h: u64) -> (res: bool)
    ensures
        res == seen@.contains(h),
{
    let mut k: usize = 0;
    while k < seen.len()
        invariant
            k <= seen@.len(),
            forall|k2: int| 0 <= k2 < k ==> seen@[k2] != h,
        decreases seen.len() - k,
    {
        if seen[k] == h {
            return true;
        }
        k += 1;
    }
    false
}

/// Whether rule `i` is the first of `rules` with its configuration.
pub open spec fn first_with_config(rules: Seq<AuthRule>, i: int) -> bool {
    forall|j: int| 0 <= j < i ==> (#[trigger] rules[j]).auth_config.handle != rules[i].auth_config.handle
}

/// The problem reported when the rules from `i` on are checked in order, each
/// configuration once (at its first rule): the first problem found, if any.
pub open spec fn auth_problem_from(rules: Seq<AuthRule>, i: int) -> Option<String>
    decreases rules.len() - i,
{
    if i < 0 || i >= rules.len() {
        None
    } else if first_with_config(rules, i) && rules[i].auth_config.problem is Some {
        rules[i].auth_config.problem
    } else {
        auth_problem_from(rules, i + 1)
    }
}

/// The problem reported when `rules` are checked.
pub open spec fn auth_problem(rules: Seq<AuthRule>) -> Option<String> {
    auth_problem_from(rules, 0)
}

/// Whether rule `a` is tried before rule `b`: higher priority first, and for
/// equal priority the one added first.
pub open spec fn ranks_before(rules: Seq<AuthRule>, a: int, b: int) -> bool {
    ||| rules[a].priority > rules[b].priority
    ||| (rules[a].priority == rules[b].priority && a < b)
}

/// Whether `order` lists every index of `rules` exactly once, in the order in
/// which the rules are tried (a stable sort by descending priority).
pub open spec fn is_priority_order(rules: Seq<AuthRule>, order: Seq<usize>) -> bool {
    &&& order.len() == rules.len()
    &&& forall|k: int| 0 <= k < order.len() ==> (#[trigger] order[k]) < rules.len()
    &&& forall|k1: int, k2: int|
        0 <= k1 < k2 < order.len() ==> ranks_before(rules, #[trigger] order[k1] as int, #[trigger] order[k2] as int)
    &&& forall|m: int| 0 <= m < rules.len() ==> #[trigger] listed(order, m)
}

/// Whether `m` occurs in `order`.
pub open spec fn listed(order: Seq<usize>, m: int) -> bool {
    exists|k: int| 0 <= k < order.len() && #[trigger] order[k] == m
}

/// Whether `rules[i]` is the rule applied to `path`: it covers the path and
/// every other rule that covers it is tried after it.
pub open spec fn is_selected_rule(rules: Seq<AuthRule>, path: Seq<char>, i: int) -> bool {
    &&& 0 <= i < rules.len()
    &&& scope_matches(rules[i].scope@, path)
    &&& forall|j: int| 0 <= j < rules.len() && j != i && scope_matches(rules[j].scope@, path)
        ==> ranks_before(rules, i, j)
}

/// Whether some rule covers `path`.
pub open spec fn some_rule_matches(rules: Seq<AuthRule>, path: Seq<char>) -> bool {
    exists|i: int| 0 <= i < rules.len() && scope_matches((#[trigger] rules[i]).scope@, path)
}

/// The indices of `rules` in the order in which they are tried.
pub fn priority_order(rules: &Vec<AuthRule>) -> (order: Vec<usize>)
    ensures
        is_priority_order(rules@, order@),
{
    let n = rules.len();
    let mut order: Vec<usize> = Vec::new();
    let mut i: usize = 0;
    while i < n
        invariant
            n == rules@.len(),
            i <= n,
            order@.len() == i,
            forall|k: int| 0 <= k < order@.len() ==> (#[trigger] order@[k]) < i,
            forall|k1: int, k2: int|
                0 <= k1 < k2 < order@.len() ==> ranks_before(rules@, #[trigger] order@[k1] as int, #[trigger] order@[k2] as int),
            forall|m: int| 0 <= m < i ==> #[trigger] listed(order@, m),
        decreases n - i,
    {
        let p = rules[i].priority;
        let mut j: usize = 0;
        while j < order.len() && rules[order[j]].priority >= p
            invariant
                n == rules@.len(),
                i < n,
                p == rules@[i as int].priority,
                j <= order@.len(),
                forall|k: int| 0 <= k < order@.len() ==> (#[trigger] order@[k]) < i,
                forall|k: int| 0 <= k < j ==> rules@[#[trigger] order@[k] as int].priority >= p,
            decreases order.len() - j,
        {
            j += 1;
        }
        let ghost old_order = order@;
        assert(forall|k: int| j <= k < old_order.len() ==> rules@[#[trigger] old_order[k] as int].priority < p) by {
            assert forall|k: int| j <= k < old_order.len() implies rules@[#[trigger] old_order[k] as int].priority < p by {
                if k > j {
                    assert(ranks_before(rules@, old_order[j as int] as int, old_order[k] as int));
                }
            }
        }
        order.insert(j, i);
        assert(order@ == old_order.insert(j as int, i));
        assert forall|k1: int, k2: int|
            0 <= k1 < k2 < order@.len() implies ranks_before(rules@, #[trigger] order@[k1] as int, #[trigger] order@[k2] as int) by {
            if k1 < j && k2 < j {
                assert(order@[k1] == old_order[k1] && order@[k2] == old_order[k2]);
            } else if k1 < j && k2 == j {
                assert(order@[k1] == old_order[k1]);
            } else if k1 < j {
                assert(order@[k1] == old_order[k1] && order@[k2] == old_order[k2 - 1]);
            } else if k1 == j {
                assert(order@[k2] == old_order[k2 - 1]);
            } else {
                assert(order@[k1] == old_order[k1 - 1] && order@[k2] == old_order[k2 - 1]);
            }
        }
        assert forall|m: int| 0 <= m < i + 1 implies #[trigger] listed(order@, m) by {
            if m == i {
                assert(order@[j as int] == m);
            } else {
                assert(listed(old_order, m));
                let k = choose|k: int| 0 <= k < old_order.len() && #[trigger] old_order[k] == m;
                if k < j {
                    assert(order@[k] == m);
                } else {
                    assert(order@[k + 1] == m);
                }
            }
        }
        i += 1;
    }
    order
}

/// What the scoped authentication middleware does with a request.
#[derive(Debug, Clone, Copy, PartialEq, Eq, Structural)]
pub enum AuthDecision {
    /// Authenticate with the rule of this index (in the order the rules were added).
    Authenticate(usize),
    /// Let the request through unauthenticated.
    Allow,
    /// Refuse the request as unauthorized.
    Deny,
}

/// The state of the scoped authentication middleware: the rules as added,
/// the order in which they are tried, and the fallback.
pub struct ScopedAuthState {
    rules: Vec<AuthRule>,
    order: Vec<usize>,
    fallback: GlobalAuthFallback,
}

impl ScopedAuthState {
    #[verifier::type_invariant]
    spec fn well_ordered(self) -> bool {
        is_priority_order(self.rules@, self.order@)
    }

    /// The rules, in the order in which they were added.
    pub closed spec fn rules_view(&self) -> Seq<AuthRule> {
        self.rules@
    }

    /// The fallback for uncovered requests.
    pub closed spec fn fallback_view(&self) -> GlobalAuthFallback {
        self.fallback
    }

    /// The state for `rules` (tried by descending priority, then in the order
    /// added) and `fallback`.
    pub fn new(rules: Vec<AuthRule>, fallback: GlobalAuthFallback) -> (res: Self)
        ensures
            res.rules_view() == rules@,
            res.fallback_view() == fallback,
    {
        let order = priority_order(&rules);
        ScopedAuthState { rules, order, fallback }
    }

    /// The rule of index `i`, in the order added.
    pub fn rule(&self, i: usize) -> (res: &AuthRule)
        requires
            i < self.rules_view().len(),
        ensures
            *res == self.rules_view()[i as int],
    {
        &self.rules[i]
    }

    /// The number of rules.
    pub fn rule_count(&self) -> (res: usize)
        ensures
            res == self.rules_view().len(),
    {
        self.rules.len()
    }

    /// What to do with a request for `path`: authenticate with the covering
    /// rule of highest priority (the first added among equals), or, when no
    /// rule covers the path, follow the fallback.
    pub fn decide(&self, path: &str) -> (res: AuthDecision)
        ensures
            match res {
                AuthDecision::Authenticate(i) => is_selected_rule(self.rules_view(), path@, i as int),
                AuthDecision::Allow => !some_rule_matches(self.rules_view(), path@)
                    && self.fallback_view() == GlobalAuthFallback::Allow,
                AuthDecision::Deny => !some_rule_matches(self.rules_view(), path@)
                    && self.fallback_view() == GlobalAuthFallback::DenyUnauthorized,
            },
    {
        proof { use_type_invariant(self); }
        let mut k: usize = 0;
        while k < self.order.len()
            invariant
                is_priority_order(self.rules@, self.order@),
                k <= self.order@.len(),
                forall|k2: int| 0 <= k2 < k ==> !scope_matches(self.rules@[#[trigger] self.order@[k2] as int].scope@, path@),
            decreases self.order.len() - k,
        {
            let idx = self.order[k];
            if self.rules[idx].scope.matches(path) {
                proof {
                    let rules = self.rules@;
                    assert forall|j: int| 0 <= j < rules.len() && j != idx && scope_matches(rules[j].scope@, path@)
                        implies ranks_before(rules, idx as int, j) by {
                        assert(listed(self.order@, j));
                        let kj = choose|kj: int| 0 <= kj < self.order@.len() && #[trigger] self.order@[kj] == j;
                        if kj < k {
                            assert(!scope_matches(rules[self.order@[kj] as int].scope@, path@));
                        } else if kj > k {
                            assert(ranks_before(rules, self.order@[k as int] as int, self.order@[kj] as int));
                        }
                    }
                }
                return AuthDecision::Authenticate(idx);
            }
            k += 1;
        }
        proof {
            let rules = self.rules@;
            assert forall|j: int| 0 <= j < rules.len() implies !scope_matches((#[trigger] rules[j]).scope@, path@) by {
                assert(listed(self.order@, j));
                let kj = choose|kj: int| 0 <= kj < self.order@.len() && #[trigger] self.order@[kj] == j;
                assert(!scope_matches(rules[self.order@[kj] as int].scope@, path@));
            }
        }
        match self.fallback {
            GlobalAuthFallback::Allow => AuthDecision::Allow,
            GlobalAuthFallback::DenyUnauthorized => AuthDecision::Deny,
        }
    }
}

/// The application-level runtime layers that the orchestrator may add.
#[derive(Debug, Clone, Copy, PartialEq, Eq, Structural)]
pub enum RuntimeLayer {
    StructuredLogging,
    HttpTracing,
    Cors,
}

/// The parts of the application configuration that decide the runtime layers.
#[derive(Debug, Clone, Copy)]
pub struct RuntimeLayerSettings {
    pub enable_logging: bool,
    pub enable_tracing: bool,
    pub cors_enabled: bool,
}

/// The runtime layers for `s`, innermost first: structured logging when
/// enabled, then HTTP tracing when enabled, then CORS when configured.
pub open spec fn runtime_layers_for(s: RuntimeLayerSettings) -> Seq<RuntimeLayer> {
    (if s.enable_logging { seq![RuntimeLayer::StructuredLogging] } else { Seq::empty() })
        + (if s.enable_tracing { seq![RuntimeLayer::HttpTracing] } else { Seq::empty() })
        + (if s.cors_enabled { seq![RuntimeLayer::Cors] } else { Seq::empty() })
}

/// Each runtime layer is planned exactly when its own setting asks for it,
/// whatever the other settings are, at most once, and in the order
/// structured logging, HTTP tracing, CORS.
pub proof fn lemma_runtime_layers_follow_settings(s: RuntimeLayerSettings)
    ensures
        runtime_layers_for(s).contains(RuntimeLayer::StructuredLogging) <==> s.enable_logging,
        runtime_layers_for(s).contains(RuntimeLayer::HttpTracing) <==> s.enable_tracing,
        runtime_layers_for(s).contains(RuntimeLayer::Cors) <==> s.cors_enabled,
        runtime_layers_for(s).no_duplicates(),
        forall|i: int, j: int| 0 <= i < j < runtime_layers_for(s).len() ==> {
            &&& runtime_layers_for(s)[i] != RuntimeLayer::Cors
            &&& runtime_layers_for(s)[j] != RuntimeLayer::StructuredLogging
        },
{
    let l = runtime_layers_for(s);
    let a = if s.enable_logging { seq![RuntimeLayer::StructuredLogging] } else { Seq::<RuntimeLayer>::empty() };
    let b = if s.enable_tracing { seq![RuntimeLayer::HttpTracing] } else { Seq::<RuntimeLayer>::empty() };
    let c = if s.cors_enabled { seq![RuntimeLayer::Cors] } else { Seq::<RuntimeLayer>::empty() };
    assert(l == a + b + c);
    assert forall|x: RuntimeLayer| l.contains(x) <==> (a.contains(x) || b.contains(x) || c.contains(x)) by {
        if l.contains(x) {
            let k = choose|k: int| 0 <= k < l.len() && l[k] == x;
            if k < a.len() {
                assert(a[k] == x);
            } else if k < a.len() + b.len() {
                assert(b[k - a.len()] == x);
            } else {
                assert(c[k - a.len() - b.len()] == x);
            }
        }
        if a.contains(x) {
            let k = choose|k: int| 0 <= k < a.len() && a[k] == x;
            assert(l[k] == x);
        }
        if b.contains(x) {
            let k = choose|k: int| 0 <= k < b.len() && b[k] == x;
            assert(l[a.len() + k] == x);
        }
        if c.contains(x) {
            let k = choose|k: int| 0 <= k < c.len() && c[k] == x;
            assert(l[a.len() + b.len() + k] == x);
        }
    }
    if s.enable_logging {
        assert(a[0] == RuntimeLayer::StructuredLogging);
        assert(a.contains(RuntimeLayer::StructuredLogging));
    }
    if s.enable_tracing {
        assert(b[0] == RuntimeLayer::HttpTracing);
        assert(b.contains(RuntimeLayer::HttpTracing));
    }
    if s.cors_enabled {
        assert(c[0] == RuntimeLayer::Cors);
        assert(c.contains(RuntimeLayer::Cors));
    }
}

/// The runtime layers to put around a router, innermost first.
pub fn runtime_layer_plan(settings: &RuntimeLayerSettings) -> (res: Vec<RuntimeLayer>)
    ensures
        res@ == runtime_layers_for(*settings),
{
    let mut layers: Vec<RuntimeLayer> = Vec::new();
    if settings.enable_logging {
        layers.push(RuntimeLayer::StructuredLogging);
    }
    if settings.enable_tracing {
        layers.push(RuntimeLayer::HttpTracing);
    }
    if settings.cors_enabled {
        layers.push(RuntimeLayer::Cors);
    }
    assert(layers@ =~= runtime_layers_for(*settings));
    layers
}

/// The layers that a router gets, innermost first: scoped authentication,
/// protection, monitoring, then the runtime layers.
pub struct MiddlewarePlan {
    pub scoped_auth: Option<ScopedAuthState>,
    pub protection_stack: Option<ProtectionStack>,
    pub monitoring: Option<(MonitoringState, GlobalMonitoringConfig)>,
    pub runtime_layers: Vec<RuntimeLayer>,
}

/// One place that decides which global middleware a router gets.
pub struct MiddlewareOrchestrator {
    apply_app_runtime_layers: bool,
    monitoring: Option<(MonitoringState, GlobalMonitoringConfig)>,
    protection_stack: Option<ProtectionStack>,
    auth_rules: Vec<AuthRule>,
    auth_fallback: GlobalAuthFallback,
}

/// The content of a [`MiddlewareOrchestrator`].
pub struct MiddlewareOrchestratorView {
    pub apply_app_runtime_layers: bool,
    pub monitoring: Option<(MonitoringState, GlobalMonitoringConfig)>,
    pub protection_stack: Option<ProtectionStack>,
    pub auth_rules: Seq<AuthRule>,
    pub auth_fallback: GlobalAuthFallback,
}

impl View for MiddlewareOrchestrator {
    type V = MiddlewareOrchestratorView;

    closed spec fn view(&self) -> MiddlewareOrchestratorView {
        MiddlewareOrchestratorView {
            apply_app_runtime_layers: self.apply_app_runtime_layers,
            monitoring: self.monitoring,
            protection_stack: self.protection_stack,
            auth_rules: self.auth_rules@,
            auth_fallback: self.auth_fallback,
        }
    }
}

/// The orchestrator before any setting: runtime layers on, nothing else,
/// and uncovered requests allowed.
pub open spec fn initial_orchestrator() -> MiddlewareOrchestratorView {
    MiddlewareOrchestratorView {
        apply_app_runtime_layers: true,
        monitoring: None,
        protection_stack: None,
        auth_rules: Seq::empty(),
        auth_fallback: GlobalAuthFallback::Allow,
    }
}

/// Whether the plan of `v` has a scoped authentication layer: some rule is
/// set, or uncovered requests are refused.
pub open spec fn needs_scoped_auth(v: MiddlewareOrchestratorView) -> bool {
    v.auth_rules.len() > 0 || v.auth_fallback == GlobalAuthFallback::DenyUnauthorized
}

impl Default for MiddlewareOrchestrator {
    fn default() -> (res: Self)
        ensures
            res@ == initial_orchestrator(),
    {
        let res = MiddlewareOrchestrator {
            apply_app_runtime_layers: true,
            monitoring: None,
            protection_stack: None,
            auth_rules: Vec::new(),
            auth_fallback: GlobalAuthFallback::Allow,
        };
        assert(res@.auth_rules =~= Seq::<AuthRule>::empty());
        res
    }
}

impl MiddlewareOrchestrator {
    /// An orchestrator with no setting made.
    pub fn new() -> (res: Self)
        ensures
            res@ == initial_orchestrator(),
    {
        Self::default()
    }

    /// Turns the application runtime layers on or off.
    pub fn with_app_runtime_layers(self, enabled: bool) -> (res: Self)
        ensures
            res@ == (MiddlewareOrchestratorView { apply_app_runtime_layers: enabled, ..self@ }),
    {
        let mut s = self;
        s.apply_app_runtime_layers = enabled;
        s
    }

    /// Sets monitoring with the default monitoring settings.
    pub fn with_monitoring(self, state: MonitoringState) -> (res: Self)
        ensures
            res@.monitoring matches Some((m, c)) && m == state && c.performance.handle == 0,
            res@ == (MiddlewareOrchestratorView { monitoring: res@.monitoring, ..self@ }),
    {
        let mut s = self;
        s.monitoring = Some((state, GlobalMonitoringConfig::default()));
        s
    }

    /// Sets monitoring with the given settings.
    pub fn with_monitoring_config(self, state: MonitoringState, config: GlobalMonitoringConfig) -> (res: Self)
        ensures
            res@ == (MiddlewareOrchestratorView { monitoring: Some((state, config)), ..self@ }),
    {
        let mut s = self;
        s.monitoring = Some((state, config));
        s
    }

    /// Sets the protection stack.
    pub fn with_protection_stack(self, protection_stack: ProtectionStack) -> (res: Self)
        ensures
            res@ == (MiddlewareOrchestratorView { protection_stack: Some(protection_stack), ..self@ }),
    {
        let mut s = self;
        s.protection_stack = Some(protection_stack);
        s
    }

    /// Replaces all rules by one rule over every path.
    pub fn with_global_auth(self, auth_config: SharedAuthConfig, mode: GlobalAuthMode) -> (res: Self)
        ensures
            res@.auth_rules.len() == 1,
            res@.auth_rules[0].auth_config == auth_config,
            res@.auth_rules[0].mode == mode,
            res@.auth_rules[0].scope@ == empty_scope(),
            res@.auth_rules[0].realm@ == "default"@,
            res@.auth_rules[0].priority == 0,
            res@ == (MiddlewareOrchestratorView { auth_rules: res@.auth_rules, ..self@ }),
    {
        let rule = GlobalAuthConfig::new(auth_config, mode);
        self.with_global_auth_config(rule)
    }

    /// Replaces all rules by `global_auth`.
    pub fn with_global_auth_config(self, global_auth: GlobalAuthConfig) -> (res: Self)
        ensures
            res@ == (MiddlewareOrchestratorView { auth_rules: seq![global_auth], ..self@ }),
    {
        let mut s = self;
        let mut rules: Vec<AuthRule> = Vec::new();
        rules.push(global_auth);
        s.auth_rules = rules;
        assert(s@.auth_rules =~= seq![global_auth]);
        s
    }

    /// Adds one rule after the others.
    pub fn with_auth_rule(self, auth_rule: AuthRule) -> (res: Self)
        ensures
            res@ == (MiddlewareOrchestratorView { auth_rules: self@.auth_rules.push(auth_rule), ..self@ }),
    {
        let mut s = self;
        s.auth_rules.push(auth_rule);
        s
    }

    /// Adds rules after the others, in their order.
    pub fn with_auth_rules(self, auth_rules: Vec<AuthRule>) -> (res: Self)
        ensures
            res@ == (MiddlewareOrchestratorView { auth_rules: self@.auth_rules + auth_rules@, ..self@ }),
    {
        let mut s = self;
        let mut more = auth_rules;
        s.auth_rules.append(&mut more);
        s
    }

    /// Sets what happens to requests that no rule covers.
    pub fn with_auth_fallback(self, fallback: GlobalAuthFallback) -> (res: Self)
        ensures
            res@ == (MiddlewareOrchestratorView { auth_fallback: fallback, ..self@ }),
    {
        let mut s = self;
        s.auth_fallback = fallback;
        s
    }

    /// Checks the authentication configurations of the rules, in rule order
    /// and each configuration once: fails with the first problem reported.
    pub fn validate(&self) -> (res: Result<(), ConfigError>)
        ensures
            match res {
                Ok(()) => auth_problem(self@.auth_rules) is None,
                Err(ConfigError::InvalidAuth(m)) => auth_problem(self@.auth_rules) == Some(m),
            },
    {
        let ghost rules = self.auth_rules@;
        let mut seen: Vec<u64> = Vec::new();
        let mut i: usize = 0;
        while i < self.auth_rules.len()
            invariant
                rules == self@.auth_rules,
                rules == self.auth_rules@,
                i <= rules.len(),
                auth_problem(rules) == auth_problem_from(rules, i as int),
                forall|h: u64| seen@.contains(h) <==> exists|j: int| 0 <= j < i && (#[trigger] rules[j]).auth_config.handle == h,
            decreases self.auth_rules.len() - i,
        {
            let rule = &self.auth_rules[i];
            let handle = rule.auth_config.handle;
            let known = contains_handle(&seen, handle);
            let ghost old_seen = seen@;
            assert(known == !first_with_config(rules, i as int)) by {
                if known {
                    let j = choose|j: int| 0 <= j < i && (#[trigger] rules[j]).auth_config.handle == handle;
                    assert(rules[j].auth_config.handle == rules[i as int].auth_config.handle);
                } else {
                    assert forall|j: int| 0 <= j < i implies (#[trigger] rules[j]).auth_config.handle != rules[i as int].auth_config.handle by {
                        if rules[j].auth_config.handle == handle {
                            assert(seen@.contains(handle));
                        }
                    }
                }
            }
            if !known {
                match &rule.auth_config.problem {
                    Some(problem) => {
                        return Err(ConfigError::InvalidAuth(problem.clone()));
                    },
                    None => {},
                }
                seen.push(handle);
            }
            assert(seen@ == old_seen || seen@ == old_seen.push(handle));
            assert(known ==> seen@ == old_seen);
            assert forall|h: u64| seen@.contains(h) <==> exists|j: int| 0 <= j < i + 1 && (#[trigger] rules[j]).auth_config.handle == h by {
                if seen@.contains(h) {
                    if h == handle {
                        assert(rules[i as int].auth_config.handle == h);
                    } else {
                        let k = choose|k: int| 0 <= k < seen@.len() && seen@[k] == h;
                        assert(old_seen[k] == h);
                        assert(old_seen.contains(h));
                        let j = choose|j: int| 0 <= j < i && (#[trigger] rules[j]).auth_config.handle == h;
                        assert(rules[j].auth_config.handle == h);
                    }
                }
                if exists|j: int| 0 <= j < i + 1 && (#[trigger] rules[j]).auth_config.handle == h {
                    let j = choose|j: int| 0 <= j < i + 1 && (#[trigger] rules[j]).auth_config.handle == h;
                    if j < i {
                        assert(old_seen.contains(h));
                        let k = choose|k: int| 0 <= k < old_seen.len() && old_seen[k] == h;
                        assert(seen@[k] == h);
                    } else if known {
                        assert(old_seen.contains(h));
                    } else {
                        assert(seen@[seen@.len() - 1] == h);
                    }
                }
            }
            i += 1;
        }
        Ok(())
    }

    /// The layers that a router gets from this orchestrator: a scoped
    /// authentication layer (rules tried by descending priority, then in the
    /// order added) when some rule is set or uncovered requests are refused,
    /// the protection stack and the monitoring when set, and the runtime
    /// layers of `settings` when they are on.
    pub fn layer_plan(self, settings: &RuntimeLayerSettings) -> (res: MiddlewarePlan)
        ensures
            needs_scoped_auth(self@) ==> (res.scoped_auth matches Some(a)
                && a.rules_view() == self@.auth_rules && a.fallback_view() == self@.auth_fallback),
            !needs_scoped_auth(self@) ==> res.scoped_auth is None,
            res.protection_stack == self@.protection_stack,
            res.monitoring == self@.monitoring,
            res.runtime_layers@ == if self@.apply_app_runtime_layers {
                runtime_layers_for(*settings)
            } else {
                Seq::empty()
            },
    {
        let needs_auth = self.auth_rules.len() > 0 || match self.auth_fallback {
            GlobalAuthFallback::DenyUnauthorized => true,
            GlobalAuthFallback::Allow => false,
        };
        let scoped_auth = if needs_auth {
            Some(ScopedAuthState::new(self.auth_rules, self.auth_fallback))
        } else {
            None
        };
        let runtime_layers = if self.apply_app_runtime_layers {
            runtime_layer_plan(settings)
        } else {
            Vec::new()
        };
        MiddlewarePlan {
            scoped_auth,
            protection_stack: self.protection_stack,
            monitoring: self.monitoring,
            runtime_layers,
        }
    }
}

/// A scope with nothing listed covers every path.
pub proof fn lemma_all_scope_covers_every_path(path: Seq<char>)
    ensures
        scope_matches(empty_scope(), path),
{
}

/// An excluded path is never covered, whatever the scope includes.
pub proof fn lemma_exclusion_wins(v: PathScopeView, path: Seq<char>)
    requires
        v.exclude_exact.contains(normalized_path(path))
            || any_prefix_segment(normalized_path(path), v.exclude_prefixes),
    ensures
        !scope_matches(v, path),
{
}

/// Adding an exclusion never widens a scope: a path covered once an exact
/// path or a segment prefix is excluded was covered before.
pub proof fn lemma_exclusion_never_widens(v: PathScopeView, excluded: Seq<char>, path: Seq<char>)
    ensures
        scope_matches(PathScopeView { exclude_exact: v.exclude_exact.push(excluded), ..v }, path)
            ==> scope_matches(v, path),
        scope_matches(PathScopeView { exclude_prefixes: v.exclude_prefixes.push(excluded), ..v }, path)
            ==> scope_matches(v, path),
{
    let p = normalized_path(path);
    if v.exclude_exact.contains(p) {
        let k = choose|k: int| 0 <= k < v.exclude_exact.len() && v.exclude_exact[k] == p;
        assert(v.exclude_exact.push(excluded)[k] == p);
    }
    if any_prefix_segment(p, v.exclude_prefixes) {
        let k = choose|k: int| 0 <= k < v.exclude_prefixes.len() && has_prefix_segment(p, #[trigger] v.exclude_prefixes[k]);
        assert(v.exclude_prefixes.push(excluded)[k] == v.exclude_prefixes[k]);
        assert(any_prefix_segment(p, v.exclude_prefixes.push(excluded)));
    }
}

/// A path is covered exactly when it is not excluded and it is included:
/// every path when nothing is listed for inclusion, else a path whose normal
/// form is one of the included exact paths or lies, as whole segments, under
/// one of the included prefixes. So an included prefix covers its paths
/// whatever exact paths are included too, and adding an inclusion to a scope
/// that already lists one never narrows it.
pub proof fn lemma_scope_coverage(v: PathScopeView, path: Seq<char>, extra: Seq<char>)
    ensures
        ({
            let p = normalized_path(path);
            let excluded = (exists|i: int| 0 <= i < v.exclude_exact.len() && v.exclude_exact[i] == p)
                || (exists|i: int| 0 <= i < v.exclude_prefixes.len() && has_prefix_segment(p, v.exclude_prefixes[i]));
            let included = (v.include_exact.len() == 0 && v.include_prefixes.len() == 0)
                || (exists|i: int| 0 <= i < v.include_exact.len() && v.include_exact[i] == p)
                || (exists|i: int| 0 <= i < v.include_prefixes.len() && has_prefix_segment(p, v.include_prefixes[i]));
            scope_matches(v, path) <==> (included && !excluded)
        }),
        v.include_exact.len() + v.include_prefixes.len() > 0 && scope_matches(v, path) ==> {
            &&& scope_matches(PathScopeView { include_exact: v.include_exact.push(extra), ..v }, path)
            &&& scope_matches(PathScopeView { include_prefixes: v.include_prefixes.push(extra), ..v }, path)
        },
{
    let p = normalized_path(path);
    assert((exists|i: int| 0 <= i < v.exclude_exact.len() && v.exclude_exact[i] == p) <==> v.exclude_exact.contains(p));
    assert((exists|i: int| 0 <= i < v.include_exact.len() && v.include_exact[i] == p) <==> v.include_exact.contains(p));
    if scope_matches(v, path) && v.include_exact.len() + v.include_prefixes.len() > 0 {
        if v.include_exact.contains(p) {
            let k = choose|k: int| 0 <= k < v.include_exact.len() && v.include_exact[k] == p;
            assert(v.include_exact.push(extra)[k] == p);
        }
        if any_prefix_segment(p, v.include_prefixes) {
            let k = choose|k: int| 0 <= k < v.include_prefixes.len() && has_prefix_segment(p, #[trigger] v.include_prefixes[k]);
            assert(v.include_prefixes.push(extra)[k] == v.include_prefixes[k]);
            assert(any_prefix_segment(p, v.include_prefixes.push(extra)));
        }
    }
}

/// At most one rule is the one applied to a path.
pub proof fn lemma_selected_rule_unique(rules: Seq<AuthRule>, path: Seq<char>, i: int, j: int)
    requires
        is_selected_rule(rules, path, i),
        is_selected_rule(rules, path, j),
    ensures
        i == j,
{
    if i != j {
        assert(scope_matches(rules[j].scope@, path) ==> ranks_before(rules, i, j));
        assert(scope_matches(rules[i].scope@, path) ==> ranks_before(rules, j, i));
    }
}

/// The rule applied to a path has the highest priority among the rules that
/// cover it, and among those of equal priority it was added first.
pub proof fn lemma_selected_rule_has_top_priority(rules: Seq<AuthRule>, path: Seq<char>, i: int, j: int)
    requires
        is_selected_rule(rules, path, i),
        0 <= j < rules.len(),
        scope_matches(rules[j].scope@, path),
    ensures
        rules[i].priority >= rules[j].priority,
        rules[i].priority == rules[j].priority ==> i <= j,
{
    if i != j {
        assert(scope_matches(rules[j].scope@, path) ==> ranks_before(rules, i, j));
    }
}

/// Every rule has an earliest rule with the same configuration.
proof fn lemma_first_with_same_config(rules: Seq<AuthRule>, k: int) -> (f: int)
    requires
        0 <= k < rules.len(),
    ensures
        0 <= f <= k,
        first_with_config(rules, f),
        rules[f].auth_config.handle == rules[k].auth_config.handle,
    decreases k,
{
    if first_with_config(rules, k) {
        k
    } else {
        let j = choose|j: int| 0 <= j < k && (#[trigger] rules[j]).auth_config.handle != rules[k].auth_config.handle == false;
        assert(rules[j].auth_config.handle == rules[k].auth_config.handle);
        lemma_first_with_same_config(rules, j)
    }
}

/// Checking from rule `i` on reports a problem exactly when some rule from
/// `i` on is the first with its configuration and reports one.
proof fn lemma_auth_problem_from(rules: Seq<AuthRule>, i: int)
    requires
        0 <= i <= rules.len(),
    ensures
        auth_problem_from(rules, i) is Some <==> exists|k: int|
            i <= k < rules.len() && first_with_config(rules, k) && (#[trigger] rules[k]).auth_config.problem is Some,
    decreases rules.len() - i,
{
    if i < rules.len() {
        lemma_auth_problem_from(rules, i + 1);
        if exists|k: int| i <= k < rules.len() && first_with_config(rules, k) && (#[trigger] rules[k]).auth_config.problem is Some {
            let k = choose|k: int| i <= k < rules.len() && first_with_config(rules, k) && (#[trigger] rules[k]).auth_config.problem is Some;
            if k > i {
                assert(exists|k2: int| i + 1 <= k2 < rules.len() && first_with_config(rules, k2) && (#[trigger] rules[k2]).auth_config.problem is Some);
            }
        }
    }
}

/// Where one configuration always reports the same verdict, checking the
/// rules (each configuration once) fails exactly when some rule's
/// configuration reports a problem.
pub proof fn lemma_validation_fails_iff_some_problem(rules: Seq<AuthRule>)
    requires
        forall|i: int, j: int|
            0 <= i < rules.len() && 0 <= j < rules.len()
                && (#[trigger] rules[i]).auth_config.handle == (#[trigger] rules[j]).auth_config.handle
                ==> rules[i].auth_config.problem == rules[j].auth_config.problem,
    ensures
        auth_problem(rules) is Some <==> exists|k: int| 0 <= k < rules.len() && (#[trigger] rules[k]).auth_config.problem is Some,
{
    lemma_auth_problem_from(rules, 0);
    if exists|k: int| 0 <= k < rules.len() && (#[trigger] rules[k]).auth_config.problem is Some {
        let k = choose|k: int| 0 <= k < rules.len() && (#[trigger] rules[k]).auth_config.problem is Some;
        let f = lemma_first_with_same_config(rules, k);
        assert(rules[f].auth_config.problem == rules[k].auth_config.problem);
        assert(first_with_config(rules, f) && rules[f].auth_config.problem is Some);
    }
}

} // verus!
