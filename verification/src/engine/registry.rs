//! The endpoint registry: the compiled table of endpoints, each with the
//! windows and bursts that apply to it, found by method and path.
use vstd::prelude::*;
use std::sync::Arc;
use crate::config::schema::{
    BehaviorScope, BehaviorWindow, BurstEvent, Configuration, Endpoint, EndpointGroup, HttpMethod,
};
use crate::config::validator::{contains_text, method_text, method_to_str, texts};
use crate::engine::behavior::EndpointBehaviors;
use crate::limiter::{new_bucket, TokenBucket};

verus! {

/// The key under which an endpoint is routed: the name of its method and
/// its path.
#[derive(Debug, Clone)]
pub struct RouteKey {
    method: String,
    path: String,
}

/// The name of a method as it stands in a route key.
pub fn method_to_string(method: &HttpMethod) -> (name: &'static str)
    ensures
        name@ == method_text(*method),
{
    method_to_str(method)
}

impl RouteKey {
    /// The name of the method of the key.
    pub closed spec fn method(&self) -> Seq<char> {
        self.method@
    }

    /// The path of the key.
    pub closed spec fn path(&self) -> Seq<char> {
        self.path@
    }

    /// The key of a method and a path.
    pub fn new(method: &HttpMethod, path: &str) -> (key: RouteKey)
        ensures
            key.method() == method_text(*method),
            key.path() == path@,
    {
        RouteKey { method: method_to_string(method).to_string(), path: path.to_string() }
    }

    /// Whether two keys route alike.
    pub fn same(&self, other: &RouteKey) -> (alike: bool)
        ensures
            alike == (self.method() == other.method() && self.path() == other.path()),
    {
        self.method == other.method && self.path == other.path
    }
}

/// An endpoint as the registry serves it: with the behaviours that apply
/// to it, the reading of the clock at which it was loaded, and its token
/// bucket where it is rate-limited.
#[derive(Debug)]
pub struct ResolvedEndpoint {
    pub endpoint: Endpoint,
    pub behaviors: EndpointBehaviors,
    pub loaded_at: Option<u64>,
    pub rate_limiter: Option<TokenBucket>,
}

/// The registry of the endpoints of one configuration. It remembers when
/// it was last loaded, so that every load is later than the one before.
#[derive(Debug)]
pub struct EndpointRegistry {
    endpoints: Vec<ResolvedEndpoint>,
    last_loaded: Option<u64>,
}

/// The loading time of a load that reads `now` from the clock after a load
/// at time `last`: the reading where the clock has moved on, and else the
/// time just after the last load. Only at the largest reading that there is
/// can a load be no later than the one before.
pub open spec fn origin_after(last: Option<u64>, now: u64) -> u64 {
    match last {
        Some(previous) => if now > previous {
            now
        } else if previous < u64::MAX {
            (previous + 1) as u64
        } else {
            previous
        },
        None => now,
    }
}

/// Another handle to a shared value, by `Arc::clone` of the standard
/// library: the new handle stands for the same value.
#[verifier::external_body]
pub(crate) fn share<T>(handle: &Arc<T>) -> (again: Arc<T>)
    ensures
        again == *handle,
{
    Arc::clone(handle)
}

/// Whether an endpoint is routed by this method and path.
pub open spec fn routed_by(endpoint: &Endpoint, method: HttpMethod, path: Seq<char>) -> bool {
    method_text(endpoint.method) == method_text(method) && endpoint.path@ == path
}

/// The index of the last of the first `count` endpoints of a table that is
/// routed by this method and path.
pub open spec fn last_routed(
    table: Seq<ResolvedEndpoint>,
    method: HttpMethod,
    path: Seq<char>,
    count: nat,
) -> Option<int>
    decreases count,
{
    if count == 0 {
        None
    } else if routed_by(&table[count - 1].endpoint, method, path) {
        Some(count - 1)
    } else {
        last_routed(table, method, path, (count - 1) as nat)
    }
}

/// The members of the last of the first `count` groups with the given id.
pub open spec fn group_members(groups: Seq<EndpointGroup>, group_id: Seq<char>, count: nat)
    -> Option<Seq<Seq<char>>>
    decreases count,
{
    if count == 0 {
        None
    } else if groups[count - 1].id@ == group_id {
        Some(texts(groups[count - 1].endpoint_ids@))
    } else {
        group_members(groups, group_id, (count - 1) as nat)
    }
}

/// Whether a scope applies to an endpoint: it is global, or names the
/// endpoint, or names a group that the endpoint is a member of. What a
/// scope names first decides: the endpoint before the group.
pub open spec fn scope_applies(
    endpoint: &Endpoint,
    scope: &BehaviorScope,
    groups: Seq<EndpointGroup>,
) -> bool {
    if scope.global {
        true
    } else if scope.endpoint_id is Some {
        scope.endpoint_id->0@ == endpoint.id@
    } else if scope.group_id is Some {
        match group_members(groups, scope.group_id->0@, groups.len()) {
            Some(members) => members.contains(endpoint.id@),
            None => false,
        }
    } else {
        false
    }
}

fn find_members<'a>(groups: &'a Vec<EndpointGroup>, group_id: &String) -> (found: Option<
    &'a Vec<String>,
>)
    ensures
        match found {
            Some(members) => group_members(groups@, group_id@, groups@.len()) == Some(
                texts(members@),
            ),
            None => group_members(groups@, group_id@, groups@.len()) is None,
        },
{
    let mut count: usize = groups.len();
    while count > 0
        invariant
            count <= groups@.len(),
            group_members(groups@, group_id@, groups@.len()) == group_members(
                groups@,
                group_id@,
                count as nat,
            ),
        decreases count,
    {
        if groups[count - 1].id == *group_id {
            return Some(&groups[count - 1].endpoint_ids);
        }
        count -= 1;
    }
    None
}

/// Whether a scope applies to an endpoint.
pub fn scope_matches(endpoint: &Endpoint, scope: &BehaviorScope, groups: &Vec<EndpointGroup>) -> (
    applies: bool)
    ensures
        applies == scope_applies(endpoint, scope, groups@),
{
    if scope.global {
        return true;
    }
    if let Some(endpoint_id) = &scope.endpoint_id {
        return *endpoint_id == endpoint.id;
    }
    if let Some(group_id) = &scope.group_id {
        if let Some(members) = find_members(groups, group_id) {
            return contains_text(members, &endpoint.id);
        }
    }
    false
}

/// The windows behind a list of shared windows.
pub open spec fn windows_of(shared: Seq<Arc<BehaviorWindow>>) -> Seq<BehaviorWindow> {
    shared.map_values(|w: Arc<BehaviorWindow>| *w)
}

/// The bursts behind a list of shared bursts.
pub open spec fn bursts_of(shared: Seq<Arc<BurstEvent>>) -> Seq<BurstEvent> {
    shared.map_values(|b: Arc<BurstEvent>| *b)
}

/// Those of the first `count` windows whose scope applies to an endpoint,
/// in the order of declaration.
pub open spec fn windows_for(
    endpoint: &Endpoint,
    windows: Seq<BehaviorWindow>,
    groups: Seq<EndpointGroup>,
    count: nat,
) -> Seq<BehaviorWindow>
    decreases count,
{
    if count == 0 {
        Seq::empty()
    } else {
        let earlier = windows_for(endpoint, windows, groups, (count - 1) as nat);
        if scope_applies(endpoint, &windows[count - 1].scope, groups) {
            earlier.push(windows[count - 1])
        } else {
            earlier
        }
    }
}

/// Those of the first `count` bursts whose scope applies to an endpoint,
/// in the order of declaration.
pub open spec fn bursts_for(
    endpoint: &Endpoint,
    bursts: Seq<BurstEvent>,
    groups: Seq<EndpointGroup>,
    count: nat,
) -> Seq<BurstEvent>
    decreases count,
{
    if count == 0 {
        Seq::empty()
    } else {
        let earlier = bursts_for(endpoint, bursts, groups, (count - 1) as nat);
        if scope_applies(endpoint, &bursts[count - 1].scope, groups) {
            earlier.push(bursts[count - 1])
        } else {
            earlier
        }
    }
}

/// The windows and bursts that apply to an endpoint.
pub fn resolve_behaviors(
    endpoint: &Endpoint,
    behavior_windows: &Vec<Arc<BehaviorWindow>>,
    burst_events: &Vec<Arc<BurstEvent>>,
    groups: &Vec<EndpointGroup>,
) -> (behaviors: EndpointBehaviors)
    ensures
        windows_of(behaviors.windows@) == windows_for(
            endpoint,
            windows_of(behavior_windows@),
            groups@,
            behavior_windows@.len(),
        ),
        bursts_of(behaviors.bursts@) == bursts_for(
            endpoint,
            bursts_of(burst_events@),
            groups@,
            burst_events@.len(),
        ),
{
    let mut windows: Vec<Arc<BehaviorWindow>> = Vec::new();
    let mut i: usize = 0;
    assert(windows_of(windows@) =~= Seq::<BehaviorWindow>::empty());
    while i < behavior_windows.len()
        invariant
            i <= behavior_windows@.len(),
            windows_of(windows@) == windows_for(
                endpoint,
                windows_of(behavior_windows@),
                groups@,
                i as nat,
            ),
        decreases behavior_windows@.len() - i,
    {
        let window = &behavior_windows[i];
        assert(windows_of(behavior_windows@)[i as int] == **window);
        if scope_matches(endpoint, &window.scope, groups) {
            let ghost earlier = windows@;
            windows.push(share(window));
            assert(windows_of(windows@) =~= windows_of(earlier).push(**window));
        }
        i += 1;
    }
    let mut bursts: Vec<Arc<BurstEvent>> = Vec::new();
    let mut k: usize = 0;
    assert(bursts_of(bursts@) =~= Seq::<BurstEvent>::empty());
    while k < burst_events.len()
        invariant
            k <= burst_events@.len(),
            bursts_of(bursts@) == bursts_for(
                endpoint,
                bursts_of(burst_events@),
                groups@,
                k as nat,
            ),
        decreases burst_events@.len() - k,
    {
        let burst = &burst_events[k];
        assert(bursts_of(burst_events@)[k as int] == **burst);
        if scope_matches(endpoint, &burst.scope, groups) {
            let ghost earlier = bursts@;
            bursts.push(share(burst));
            assert(bursts_of(bursts@) =~= bursts_of(earlier).push(**burst));
        }
        k += 1;
    }
    EndpointBehaviors { windows, bursts }
}

fn share_windows(windows: Vec<BehaviorWindow>) -> (shared: Vec<Arc<BehaviorWindow>>)
    ensures
        windows_of(shared@) == windows@,
{
    let mut shared: Vec<Arc<BehaviorWindow>> = Vec::new();
    assert(windows_of(shared@) =~= windows@.subrange(0, 0));
    for window in it: windows
        invariant
            windows_of(shared@) == windows@.subrange(0, it.index@ as int),
    {
        let ghost earlier = shared@;
        shared.push(Arc::new(window));
        assert(windows_of(shared@) =~= windows_of(earlier).push(window));
        assert(windows_of(shared@) =~= windows@.subrange(0, it.index@ + 1));
    }
    assert(windows@.subrange(0, windows@.len() as int) =~= windows@);
    shared
}

fn share_bursts(bursts: Vec<BurstEvent>) -> (shared: Vec<Arc<BurstEvent>>)
    ensures
        bursts_of(shared@) == bursts@,
{
    let mut shared: Vec<Arc<BurstEvent>> = Vec::new();
    assert(bursts_of(shared@) =~= bursts@.subrange(0, 0));
    for burst in it: bursts
        invariant
            bursts_of(shared@) == bursts@.subrange(0, it.index@ as int),
    {
        let ghost earlier = shared@;
        shared.push(Arc::new(burst));
        assert(bursts_of(shared@) =~= bursts_of(earlier).push(burst));
        assert(bursts_of(shared@) =~= bursts@.subrange(0, it.index@ + 1));
    }
    assert(bursts@.subrange(0, bursts@.len() as int) =~= bursts@);
    shared
}

/// Whether `resolved` is what the registry makes of `endpoint` at time
/// `now`: the endpoint itself, with the windows and bursts that apply to
/// it, the time of loading, and a full token bucket where it is
/// rate-limited.
pub open spec fn resolves(
    resolved: &ResolvedEndpoint,
    endpoint: Endpoint,
    windows: Seq<BehaviorWindow>,
    bursts: Seq<BurstEvent>,
    groups: Seq<EndpointGroup>,
    now: u64,
) -> bool {
    &&& resolved.endpoint == endpoint
    &&& windows_of(resolved.behaviors.windows@) == windows_for(
        &endpoint,
        windows,
        groups,
        windows.len(),
    )
    &&& bursts_of(resolved.behaviors.bursts@) == bursts_for(
        &endpoint,
        bursts,
        groups,
        bursts.len(),
    )
    &&& resolved.loaded_at == Some(now)
    &&& match endpoint.rate_limit {
        Some(limit) => {
            &&& resolved.rate_limiter is Some
            &&& resolved.rate_limiter->0@ == new_bucket(
                limit.requests_per_second,
                limit.burst,
                now,
            )
        },
        None => resolved.rate_limiter is None,
    }
}

/// Whether a table is what the registry compiles from a configuration at
/// time `now`: one resolved endpoint for each endpoint, in order.
pub open spec fn compiled_from(
    table: Seq<ResolvedEndpoint>,
    endpoints: Seq<Endpoint>,
    windows: Seq<BehaviorWindow>,
    bursts: Seq<BurstEvent>,
    groups: Seq<EndpointGroup>,
    now: u64,
) -> bool {
    &&& table.len() == endpoints.len()
    &&& forall|i: int|
        0 <= i < table.len() ==> resolves(
            #[trigger] &table[i],
            endpoints[i],
            windows,
            bursts,
            groups,
            now,
        )
}

fn compile(
    endpoints: Vec<Endpoint>,
    windows: &Vec<Arc<BehaviorWindow>>,
    bursts: &Vec<Arc<BurstEvent>>,
    groups: &Vec<EndpointGroup>,
    now: u64,
) -> (table: Vec<ResolvedEndpoint>)
    ensures
        compiled_from(table@, endpoints@, windows_of(windows@), bursts_of(bursts@), groups@, now),
{
    let mut table: Vec<ResolvedEndpoint> = Vec::new();
    for endpoint in it: endpoints
        invariant
            table@.len() == it.index@,
            forall|i: int|
                0 <= i < table@.len() ==> resolves(
                    #[trigger] &table@[i],
                    endpoints@[i],
                    windows_of(windows@),
                    bursts_of(bursts@),
                    groups@,
                    now,
                ),
    {
        let rate_limiter: Option<TokenBucket> = match &endpoint.rate_limit {
            Some(limit) => Some(TokenBucket::new(limit.requests_per_second, limit.burst, now)),
            None => None,
        };
        let behaviors = resolve_behaviors(&endpoint, windows, bursts, groups);
        table.push(ResolvedEndpoint { endpoint, behaviors, loaded_at: Some(now), rate_limiter });
    }
    table
}

impl EndpointRegistry {
    /// The table of resolved endpoints, in the order of the configuration.
    pub closed spec fn table(&self) -> Seq<ResolvedEndpoint> {
        self.endpoints@
    }

    /// The loading time of the last load; none before the first.
    pub closed spec fn last_loaded(&self) -> Option<u64> {
        self.last_loaded
    }

    /// A registry without endpoints, which was never loaded.
    pub fn new() -> (registry: EndpointRegistry)
        ensures
            registry.table().len() == 0,
            registry.last_loaded() is None,
    {
        EndpointRegistry { endpoints: Vec::new(), last_loaded: None }
    }

    /// The loading time of a load that reads `now` from the clock.
    fn next_origin(&self, now: u64) -> (origin: u64)
        ensures
            origin == origin_after(self.last_loaded(), now),
    {
        match self.last_loaded {
            Some(previous) => {
                if now > previous {
                    now
                } else if previous < u64::MAX {
                    previous + 1
                } else {
                    previous
                }
            },
            None => now,
        }
    }

    /// Compiles a configuration and puts the new table in the place of the
    /// old one. Every endpoint of the load gets the same loading time: the
    /// reading `now` of the clock, or the time just after the last load
    /// where the clock has not moved on since, so that the loading time
    /// advances strictly from load to load.
    pub fn set_config(&mut self, config: Configuration, now: u64)
        ensures
            compiled_from(
                final(self).table(),
                config.endpoints@,
                config.behavior_windows@,
                config.burst_events@,
                config.endpoint_groups@,
                origin_after(old(self).last_loaded(), now),
            ),
            final(self).last_loaded() == Some(origin_after(old(self).last_loaded(), now)),
            old(self).last_loaded() is Some && old(self).last_loaded()->0 < u64::MAX
                ==> final(self).last_loaded()->0 > old(self).last_loaded()->0,
    {
        let origin: u64 = self.next_origin(now);
        let Configuration { endpoints, endpoint_groups, behavior_windows, burst_events, .. } =
            config;
        let windows = share_windows(behavior_windows);
        let bursts = share_bursts(burst_events);
        self.endpoints = compile(endpoints, &windows, &bursts, &endpoint_groups, origin);
        self.last_loaded = Some(origin);
    }

    /// Compiles endpoints to which no window and no burst applies. The
    /// loading time advances as it does for a whole configuration.
    pub fn set_endpoints(&mut self, endpoints: Vec<Endpoint>, now: u64)
        ensures
            compiled_from(
                final(self).table(),
                endpoints@,
                Seq::empty(),
                Seq::empty(),
                Seq::empty(),
                origin_after(old(self).last_loaded(), now),
            ),
            final(self).last_loaded() == Some(origin_after(old(self).last_loaded(), now)),
            old(self).last_loaded() is Some && old(self).last_loaded()->0 < u64::MAX
                ==> final(self).last_loaded()->0 > old(self).last_loaded()->0,
    {
        let origin: u64 = self.next_origin(now);
        let windows: Vec<Arc<BehaviorWindow>> = Vec::new();
        let bursts: Vec<Arc<BurstEvent>> = Vec::new();
        let groups: Vec<EndpointGroup> = Vec::new();
        assert(windows_of(windows@) =~= Seq::<BehaviorWindow>::empty());
        assert(bursts_of(bursts@) =~= Seq::<BurstEvent>::empty());
        self.endpoints = compile(endpoints, &windows, &bursts, &groups, origin);
        self.last_loaded = Some(origin);
    }

    /// The place in the table of the endpoint that answers this method and
    /// path: the last one declared with this route.
    pub fn find(&self, method: &HttpMethod, path: &str) -> (found: Option<usize>)
        ensures
            match found {
                Some(index) => index < self.table().len() && last_routed(
                    self.table(),
                    *method,
                    path@,
                    self.table().len(),
                ) == Some(index as int),
                None => last_routed(self.table(), *method, path@, self.table().len()) is None,
            },
    {
        let key = RouteKey::new(method, path);
        let mut count: usize = self.endpoints.len();
        while count > 0
            invariant
                count <= self.endpoints@.len(),
                key.method() == method_text(*method),
                key.path() == path@,
                last_routed(self.table(), *method, path@, self.table().len()) == last_routed(
                    self.table(),
                    *method,
                    path@,
                    count as nat,
                ),
            decreases count,
        {
            let endpoint = &self.endpoints[count - 1].endpoint;
            if key.same(&RouteKey::new(&endpoint.method, endpoint.path.as_str())) {
                return Some(count - 1);
            }
            count -= 1;
        }
        None
    }

    /// The resolved endpoint that answers this method and path. There is
    /// one exactly when the table holds an endpoint with this route.
    pub fn get(&self, method: &HttpMethod, path: &str) -> (found: Option<&ResolvedEndpoint>)
        ensures
            match found {
                Some(resolved) => {
                    &&& last_routed(self.table(), *method, path@, self.table().len()) is Some
                    &&& *resolved == self.table()[last_routed(
                        self.table(),
                        *method,
                        path@,
                        self.table().len(),
                    )->0]
                },
                None => last_routed(self.table(), *method, path@, self.table().len()) is None,
            },
            found is Some <==> exists|i: int|
                0 <= i < self.table().len() && routed_by(
                    &(#[trigger] self.table()[i]).endpoint,
                    *method,
                    path@,
                ),
    {
        proof {
            lemma_last_routed(self.table(), *method, path@, self.table().len());
        }
        match self.find(method, path) {
            Some(index) => Some(&self.endpoints[index]),
            None => None,
        }
    }

    /// The resolved endpoint at a place of the table, to work on.
    pub(crate) fn entry(&mut self, index: usize) -> (resolved: &mut ResolvedEndpoint)
        requires
            index < old(self).table().len(),
        ensures
            *resolved == old(self).table()[index as int],
            final(self).table() == old(self).table().update(index as int, *final(resolved)),
            final(self).last_loaded() == old(self).last_loaded(),
    {
        &mut self.endpoints[index]
    }

    /// All resolved endpoints, in the order of the configuration.
    pub fn list(&self) -> (all: &Vec<ResolvedEndpoint>)
        ensures
            all@ == self.table(),
    {
        &self.endpoints
    }
}

/// The last endpoint with a route is routed by it, and there is none
/// exactly where no endpoint is.
pub proof fn lemma_last_routed(
    table: Seq<ResolvedEndpoint>,
    method: HttpMethod,
    path: Seq<char>,
    count: nat,
)
    requires
        count <= table.len(),
    ensures
        match last_routed(table, method, path, count) {
            Some(index) => 0 <= index < count && routed_by(&table[index].endpoint, method, path),
            None => forall|i: int| 0 <= i < count ==> !routed_by(&table[i].endpoint, method, path),
        },
    decreases count,
{
    if count > 0 && !routed_by(&table[count - 1].endpoint, method, path) {
        lemma_last_routed(table, method, path, (count - 1) as nat);
    }
}

/// A table compiled from a configuration answers a method and a path
/// exactly when the configuration has an endpoint with this method and
/// path.
pub proof fn lemma_compiled_table_routes(
    table: Seq<ResolvedEndpoint>,
    endpoints: Seq<Endpoint>,
    windows: Seq<BehaviorWindow>,
    bursts: Seq<BurstEvent>,
    groups: Seq<EndpointGroup>,
    now: u64,
    method: HttpMethod,
    path: Seq<char>,
)
    requires
        compiled_from(table, endpoints, windows, bursts, groups, now),
    ensures
        last_routed(table, method, path, table.len()) is Some <==> exists|i: int|
            0 <= i < endpoints.len() && (#[trigger] endpoints[i]).method == method
                && endpoints[i].path@ == path,
{
    lemma_last_routed(table, method, path, table.len());
    match last_routed(table, method, path, table.len()) {
        Some(index) => {
            assert(resolves(&table[index], endpoints[index], windows, bursts, groups, now));
            lemma_method_by_name(endpoints[index].method, method);
        },
        None => {
            assert forall|i: int| 0 <= i < endpoints.len() implies !((
            #[trigger] endpoints[i]).method == method && endpoints[i].path@ == path) by {
                assert(resolves(&table[i], endpoints[i], windows, bursts, groups, now));
                assert(!routed_by(&table[i].endpoint, method, path));
            }
        },
    }
}

/// Two methods with the same name are the same method.
pub proof fn lemma_method_by_name(first: HttpMethod, second: HttpMethod)
    requires
        method_text(first) == method_text(second),
    ensures
        first == second,
{
    reveal_strlit("GET");
    reveal_strlit("POST");
    reveal_strlit("PUT");
    reveal_strlit("DELETE");
    reveal_strlit("PATCH");
    reveal_strlit("HEAD");
    reveal_strlit("OPTIONS");
    assert("GET"@.len() == 3 && "GET"@[0] == 'G');
    assert("PUT"@.len() == 3 && "PUT"@[0] == 'P');
    assert("POST"@.len() == 4 && "POST"@[0] == 'P');
    assert("HEAD"@.len() == 4 && "HEAD"@[0] == 'H');
    assert("PATCH"@.len() == 5);
    assert("DELETE"@.len() == 6);
    assert("OPTIONS"@.len() == 7);
    assert(method_text(first).len() == method_text(second).len());
    assert(method_text(first)[0] == method_text(second)[0]);
}

/// Compiling one configuration twice gives two tables that answer every
/// method and path alike: both have an endpoint for it or neither has, and
/// the two endpoints are the same, with the same windows and bursts. Only
/// the time of loading and the token buckets can differ.
pub proof fn lemma_compile_twice(
    first: Seq<ResolvedEndpoint>,
    second: Seq<ResolvedEndpoint>,
    endpoints: Seq<Endpoint>,
    windows: Seq<BehaviorWindow>,
    bursts: Seq<BurstEvent>,
    groups: Seq<EndpointGroup>,
    earlier: u64,
    later: u64,
    method: HttpMethod,
    path: Seq<char>,
)
    requires
        compiled_from(first, endpoints, windows, bursts, groups, earlier),
        compiled_from(second, endpoints, windows, bursts, groups, later),
    ensures
        last_routed(first, method, path, first.len()) == last_routed(
            second,
            method,
            path,
            second.len(),
        ),
        match last_routed(first, method, path, first.len()) {
            Some(index) => {
                &&& first[index].endpoint == second[index].endpoint
                &&& windows_of(first[index].behaviors.windows@) == windows_of(
                    second[index].behaviors.windows@,
                )
                &&& bursts_of(first[index].behaviors.bursts@) == bursts_of(
                    second[index].behaviors.bursts@,
                )
            },
            None => true,
        },
{
    lemma_same_routes(first, second, method, path, first.len());
    lemma_last_routed(first, method, path, first.len());
    match last_routed(first, method, path, first.len()) {
        Some(index) => {
            assert(resolves(&first[index], endpoints[index], windows, bursts, groups, earlier));
            assert(resolves(&second[index], endpoints[index], windows, bursts, groups, later));
        },
        None => {},
    }
}

/// Two tables with the same endpoints in the same places route alike.
proof fn lemma_same_routes(
    first: Seq<ResolvedEndpoint>,
    second: Seq<ResolvedEndpoint>,
    method: HttpMethod,
    path: Seq<char>,
    count: nat,
)
    requires
        count <= first.len(),
        first.len() == second.len(),
        forall|i: int| 0 <= i < first.len() ==> (#[trigger] first[i]).endpoint == second[i].endpoint,
    ensures
        last_routed(first, method, path, count) == last_routed(second, method, path, count),
    decreases count,
{
    if count > 0 {
        assert(first[count - 1].endpoint == second[count - 1].endpoint);
        lemma_same_routes(first, second, method, path, (count - 1) as nat);
    }
}

} // verus!
