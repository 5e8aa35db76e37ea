use vstd::prelude::*;

use crate::model::{ConfigError, Endpoint, EndpointView, ProbeTarget, ProbeTargetView, Scheme, TlsValidation};

verus! {

/// The well-known ports and the scheme each one selects; any other port is `Generic`.
pub open spec fn scheme_table_spec() -> Seq<(i32, Scheme)> {
    seq![(80i32, Scheme::Http), (443i32, Scheme::Https), (22i32, Scheme::Ssh)]
}

/// The scheme of the first table entry for `port`, or `Generic` if there is none.
pub open spec fn lookup_scheme_spec(table: Seq<(i32, Scheme)>, port: i32) -> Scheme
    decreases table.len(),
{
    if table.len() == 0 {
        Scheme::Generic
    } else if table[0].0 == port {
        table[0].1
    } else {
        lookup_scheme_spec(table.drop_first(), port)
    }
}

pub open spec fn scheme_of(port: i32) -> Scheme {
    lookup_scheme_spec(scheme_table_spec(), port)
}

pub open spec fn tls_of(tls_disabled: Option<bool>) -> TlsValidation {
    if tls_disabled == Some(true) {
        TlsValidation::Bypassed
    } else {
        TlsValidation::Enforced
    }
}

pub open spec fn valid_port(p: i32) -> bool {
    1 <= p <= 65535
}

pub open spec fn target_of(e: EndpointView, port: i32) -> ProbeTargetView {
    ProbeTargetView {
        host: e.host,
        port: port as u16,
        scheme: scheme_of(port),
        tls_validation: tls_of(e.tls_disabled),
    }
}

/// The targets of one endpoint, one per port, in port order.
pub open spec fn expand(e: EndpointView) -> Seq<ProbeTargetView> {
    e.ports.map_values(|p: i32| target_of(e, p))
}

/// The targets of all endpoints, endpoint by endpoint.
pub open spec fn expand_all(es: Seq<EndpointView>) -> Seq<ProbeTargetView>
    decreases es.len(),
{
    if es.len() == 0 {
        Seq::empty()
    } else {
        expand_all(es.drop_last()) + expand(es.last())
    }
}

/// The number of ports over all endpoints.
pub open spec fn total_ports(es: Seq<EndpointView>) -> nat
    decreases es.len(),
{
    if es.len() == 0 {
        0
    } else {
        total_ports(es.drop_last()) + es.last().ports.len()
    }
}

/// The first port of `ports` outside 1..=65535, if any.
pub open spec fn first_bad_port(ports: Seq<i32>) -> Option<i32>
    decreases ports.len(),
{
    if ports.len() == 0 {
        None
    } else {
        match first_bad_port(ports.drop_last()) {
            Some(p) => Some(p),
            None => if valid_port(ports.last()) {
                None
            } else {
                Some(ports.last())
            },
        }
    }
}

/// What is wrong with the endpoint at `index`, checked in the order host, ports, port range.
pub open spec fn endpoint_error(e: EndpointView, index: usize) -> Option<ConfigError> {
    if e.host.len() == 0 {
        Some(ConfigError::EmptyHost { endpoint: index })
    } else if e.ports.len() == 0 {
        Some(ConfigError::EmptyPorts { endpoint: index })
    } else {
        match first_bad_port(e.ports) {
            Some(p) => Some(ConfigError::PortOutOfRange { endpoint: index, port: p }),
            None => None,
        }
    }
}

/// The error of the first faulty endpoint, if any.
pub open spec fn config_error(es: Seq<EndpointView>) -> Option<ConfigError>
    decreases es.len(),
{
    if es.len() == 0 {
        None
    } else {
        match config_error(es.drop_last()) {
            Some(err) => Some(err),
            None => endpoint_error(es.last(), (es.len() - 1) as usize),
        }
    }
}

/// What resolving a list of endpoints yields.
pub open spec fn resolution(es: Seq<EndpointView>) -> Result<Seq<ProbeTargetView>, ConfigError> {
    match config_error(es) {
        Some(err) => Err(err),
        None => Ok(expand_all(es)),
    }
}

pub open spec fn endpoints_view(es: Seq<Endpoint>) -> Seq<EndpointView> {
    es.map_values(|e: Endpoint| e@)
}

pub open spec fn targets_view(ts: Seq<ProbeTarget>) -> Seq<ProbeTargetView> {
    ts.map_values(|t: ProbeTarget| t@)
}

pub open spec fn resolved_view(r: Result<Vec<ProbeTarget>, ConfigError>) -> Result<
    Seq<ProbeTargetView>,
    ConfigError,
> {
    match r {
        Ok(v) => Ok(targets_view(v@)),
        Err(err) => Err(err),
    }
}

/// The table of well-known ports that scheme selection reads.
pub fn scheme_table() -> (r: Vec<(i32, Scheme)>)
    ensures
        r@ == scheme_table_spec(),
{
    let mut t: Vec<(i32, Scheme)> = Vec::new();
    t.push((80, Scheme::Http));
    t.push((443, Scheme::Https));
    t.push((22, Scheme::Ssh));
    assert(t@ =~= scheme_table_spec());
    t
}

/// The scheme that `table` gives `port`: its first matching entry, else `Generic`.
pub fn lookup_scheme(table: &Vec<(i32, Scheme)>, port: i32) -> (r: Scheme)
    ensures
        r == lookup_scheme_spec(table@, port),
{
    let mut i: usize = 0;
    assert(table@.subrange(0, table@.len() as int) =~= table@);
    while i < table.len()
        invariant
            i <= table@.len(),
            lookup_scheme_spec(table@, port) == lookup_scheme_spec(
                table@.subrange(i as int, table@.len() as int),
                port,
            ),
        decreases table@.len() - i,
    {
        let ghost rest = table@.subrange(i as int, table@.len() as int);
        assert(rest.drop_first() =~= table@.subrange(i + 1, table@.len() as int));
        if table[i].0 == port {
            return table[i].1;
        }
        i = i + 1;
    }
    Scheme::Generic
}

/// The scheme selected for `port`.
pub fn scheme_for_port(port: i32) -> (r: Scheme)
    ensures
        r == scheme_of(port),
{
    let table = scheme_table();
    lookup_scheme(&table, port)
}

/// The certificate policy of an endpoint: bypassed only when TLS is explicitly disabled.
pub fn tls_policy(tls_disabled: Option<bool>) -> (r: TlsValidation)
    ensures
        r == tls_of(tls_disabled),
{
    match tls_disabled {
        Some(true) => TlsValidation::Bypassed,
        _ => TlsValidation::Enforced,
    }
}

/// The first structural fault of the endpoint at `index`, if any.
pub fn check_endpoint(e: &Endpoint, index: usize) -> (r: Option<ConfigError>)
    ensures
        r == endpoint_error(e@, index),
{
    if e.host.as_str().is_empty() {
        return Some(ConfigError::EmptyHost { endpoint: index });
    }
    if e.ports.len() == 0 {
        return Some(ConfigError::EmptyPorts { endpoint: index });
    }
    let mut j: usize = 0;
    while j < e.ports.len()
        invariant
            j <= e.ports@.len(),
            e@.host.len() != 0,
            e@.ports.len() != 0,
            first_bad_port(e.ports@.take(j as int)) == None::<i32>,
        decreases e.ports@.len() - j,
    {
        assert(e.ports@.take(j + 1).drop_last() =~= e.ports@.take(j as int));
        let p = e.ports[j];
        if p < 1 || p > 65535 {
            proof {
                assert(e.ports@.take(j + 1).last() == p);
                assert(first_bad_port(e.ports@.take(j + 1)) == Some(p));
                lemma_first_bad_port_prefix(e.ports@, j as int + 1);
            }
            return Some(ConfigError::PortOutOfRange { endpoint: index, port: p });
        }
        j = j + 1;
    }
    assert(e.ports@.take(j as int) =~= e.ports@);
    None
}

/// Appends the targets of `e`, one per port in port order, to `out`.
pub fn expand_endpoint(e: &Endpoint, table: &Vec<(i32, Scheme)>, out: &mut Vec<ProbeTarget>)
    requires
        table@ == scheme_table_spec(),
    ensures
        targets_view(final(out)@) == targets_view(old(out)@) + expand(e@),
{
    let tls = tls_policy(e.tls_disabled);
    let mut j: usize = 0;
    while j < e.ports.len()
        invariant
            j <= e.ports@.len(),
            table@ == scheme_table_spec(),
            tls == tls_of(e.tls_disabled),
            targets_view(out@) == targets_view(old(out)@) + expand(e@).take(j as int),
        decreases e.ports@.len() - j,
    {
        let p = e.ports[j];
        let t = ProbeTarget {
            host: e.host.clone(),
            port: p as u16,
            scheme: lookup_scheme(table, p),
            tls_validation: tls,
        };
        let ghost before = out@;
        out.push(t);
        assert(targets_view(out@) =~= targets_view(before).push(t@));
        assert(expand(e@).take(j + 1) =~= expand(e@).take(j as int).push(t@));
        j = j + 1;
    }
    assert(expand(e@).take(j as int) =~= expand(e@));
}

/// Expands endpoints into probe targets: endpoint order, then port order within
/// each endpoint. Fails on the first endpoint with an empty host, no ports, or a
/// port outside 1..=65535.
pub fn resolve(endpoints: &Vec<Endpoint>) -> (r: Result<Vec<ProbeTarget>, ConfigError>)
    ensures
        resolved_view(r) == resolution(endpoints_view(endpoints@)),
{
    let ghost es = endpoints_view(endpoints@);
    let table = scheme_table();
    let mut out: Vec<ProbeTarget> = Vec::new();
    let mut i: usize = 0;
    while i < endpoints.len()
        invariant
            i <= endpoints@.len(),
            es == endpoints_view(endpoints@),
            table@ == scheme_table_spec(),
            config_error(es.take(i as int)) == None::<ConfigError>,
            targets_view(out@) == expand_all(es.take(i as int)),
        decreases endpoints@.len() - i,
    {
        let e = &endpoints[i];
        assert(es.take(i + 1).drop_last() =~= es.take(i as int));
        assert(es.take(i + 1).last() == e@);
        match check_endpoint(e, i) {
            Some(err) => {
                proof {
                    lemma_config_error_prefix(es, i as int + 1);
                }
                return Err(err);
            },
            None => {},
        }
        expand_endpoint(e, &table, &mut out);
        i = i + 1;
    }
    assert(es.take(i as int) =~= es);
    assert(targets_view(out@) == expand_all(es));
    Ok(out)
}

/// A bad port found in a prefix is the first bad port of the whole list.
pub proof fn lemma_first_bad_port_prefix(ports: Seq<i32>, n: int)
    requires
        0 <= n <= ports.len(),
        first_bad_port(ports.take(n)) is Some,
    ensures
        first_bad_port(ports) == first_bad_port(ports.take(n)),
    decreases ports.len() - n,
{
    if n < ports.len() {
        assert(ports.take(n + 1).drop_last() =~= ports.take(n));
        lemma_first_bad_port_prefix(ports, n + 1);
    } else {
        assert(ports.take(n) =~= ports);
    }
}

/// An error found in a prefix of the endpoints is the error of the whole list.
pub proof fn lemma_config_error_prefix(es: Seq<EndpointView>, n: int)
    requires
        0 <= n <= es.len(),
        config_error(es.take(n)) is Some,
    ensures
        config_error(es) == config_error(es.take(n)),
    decreases es.len() - n,
{
    if n < es.len() {
        assert(es.take(n + 1).drop_last() =~= es.take(n));
        lemma_config_error_prefix(es, n + 1);
    } else {
        assert(es.take(n) =~= es);
    }
}

/// Expansion yields one target per configured port.
pub proof fn lemma_expand_all_len(es: Seq<EndpointView>)
    ensures
        expand_all(es).len() == total_ports(es),
    decreases es.len(),
{
    if es.len() > 0 {
        lemma_expand_all_len(es.drop_last());
    }
}

/// The `j`-th port of the `i`-th endpoint lands after the ports of all earlier endpoints.
pub proof fn lemma_expand_all_index(es: Seq<EndpointView>, i: int, j: int)
    requires
        0 <= i < es.len(),
        0 <= j < es[i].ports.len(),
    ensures
        total_ports(es.take(i)) + j < expand_all(es).len(),
        expand_all(es)[total_ports(es.take(i)) + j] == target_of(es[i], es[i].ports[j]),
    decreases es.len(),
{
    let d = es.drop_last();
    lemma_expand_all_len(es);
    lemma_expand_all_len(d);
    if i == es.len() - 1 {
        assert(es.take(i) =~= d);
    } else {
        assert(d.take(i) =~= es.take(i));
        assert(d[i] == es[i]);
        lemma_expand_all_index(d, i, j);
    }
}

/// Resolving well-formed endpoints succeeds with exactly one target per
/// configured port, laid out endpoint by endpoint and, within an endpoint, in
/// port order.
pub proof fn law_resolution_count_and_order(es: Seq<EndpointView>)
    requires
        config_error(es) is None,
    ensures
        resolution(es) is Ok,
        resolution(es)->Ok_0.len() == total_ports(es),
        forall|i: int, j: int|
            0 <= i < es.len() && 0 <= j < es[i].ports.len() ==> #[trigger] resolution(es)->Ok_0[
            total_ports(es.take(i)) + j] == target_of(es[i], #[trigger] es[i].ports[j]),
{
    lemma_expand_all_len(es);
    assert forall|i: int, j: int|
        0 <= i < es.len() && 0 <= j < es[i].ports.len() implies #[trigger] resolution(
        es,
    )->Ok_0[total_ports(es.take(i)) + j] == target_of(es[i], #[trigger] es[i].ports[j]) by {
        lemma_expand_all_index(es, i, j);
    }
}

/// Scheme selection is total: port 80 is HTTP, 443 HTTPS, 22 SSH, and every
/// other port is generic.
pub proof fn law_scheme_mapping(port: i32)
    ensures
        scheme_of(port) == (if port == 80 {
            Scheme::Http
        } else if port == 443 {
            Scheme::Https
        } else if port == 22 {
            Scheme::Ssh
        } else {
            Scheme::Generic
        }),
{
    let t = scheme_table_spec();
    assert(t.drop_first() =~= seq![(443i32, Scheme::Https), (22i32, Scheme::Ssh)]);
    assert(t.drop_first().drop_first() =~= seq![(22i32, Scheme::Ssh)]);
    assert(t.drop_first().drop_first().drop_first() =~= Seq::<(i32, Scheme)>::empty());
    reveal_with_fuel(lookup_scheme_spec, 4);
}

/// Certificate checks are bypassed exactly when TLS is explicitly disabled; an
/// absent flag behaves as `false`.
pub proof fn law_tls_policy(tls_disabled: Option<bool>)
    ensures
        (tls_of(tls_disabled) == TlsValidation::Bypassed) == (tls_disabled == Some(true)),
        tls_of(None) == tls_of(Some(false)),
        tls_of(None) == TlsValidation::Enforced,
{
}

/// Every target of an endpoint carries the endpoint's certificate policy.
pub proof fn law_targets_share_tls_policy(e: EndpointView, k: int)
    requires
        0 <= k < expand(e).len(),
    ensures
        (expand(e)[k].tls_validation == TlsValidation::Bypassed) == (e.tls_disabled == Some(true)),
{
}

/// Resolution is a pure function of the endpoint list: the same list resolves
/// to the same targets, or the same error, every time.
pub proof fn law_resolution_deterministic(a: Seq<EndpointView>, b: Seq<EndpointView>)
    requires
        a =~= b,
    ensures
        resolution(a) == resolution(b),
{
}

/// An endpoint with no ports makes the whole resolution fail.
pub proof fn law_empty_ports_rejected(es: Seq<EndpointView>, i: int)
    requires
        0 <= i < es.len(),
        es[i].ports.len() == 0,
    ensures
        resolution(es) is Err,
{
    let p = es.take(i + 1);
    assert(p.drop_last() =~= es.take(i));
    assert(p.last() == es[i]);
    assert(config_error(p) is Some);
    lemma_config_error_prefix(es, i + 1);
}

/// Endpoints whose ports all lie in 1..=65535.
pub open spec fn ports_in_range(es: Seq<EndpointView>) -> bool {
    forall|i: int, j: int|
        0 <= i < es.len() && 0 <= j < es[i].ports.len() ==> valid_port(#[trigger] es[i].ports[j])
}

/// The endpoint has an empty host or no ports.
pub open spec fn endpoint_empty(e: EndpointView) -> bool {
    e.host.len() == 0 || e.ports.len() == 0
}

/// Some endpoint has an empty host or no ports.
pub open spec fn some_endpoint_empty(es: Seq<EndpointView>) -> bool {
    exists|i: int| 0 <= i < es.len() && endpoint_empty(#[trigger] es[i])
}

proof fn lemma_first_bad_port_none(ports: Seq<i32>)
    requires
        forall|j: int| 0 <= j < ports.len() ==> valid_port(#[trigger] ports[j]),
    ensures
        first_bad_port(ports) is None,
    decreases ports.len(),
{
    if ports.len() > 0 {
        let d = ports.drop_last();
        assert forall|j: int| 0 <= j < d.len() implies valid_port(#[trigger] d[j]) by {
            assert(d[j] == ports[j]);
        }
        lemma_first_bad_port_none(d);
    }
}

/// With every port in 1..=65535, resolution fails exactly when some endpoint
/// has an empty host or no ports.
pub proof fn law_config_error_iff_empty(es: Seq<EndpointView>)
    requires
        ports_in_range(es),
    ensures
        (resolution(es) is Err) == some_endpoint_empty(es),
    decreases es.len(),
{
    if es.len() > 0 {
        let d = es.drop_last();
        let n = es.len() - 1;
        assert(ports_in_range(d)) by {
            assert forall|i: int, j: int|
                0 <= i < d.len() && 0 <= j < d[i].ports.len() implies valid_port(
                #[trigger] d[i].ports[j],
            ) by {
                assert(d[i] == es[i]);
            }
        }
        law_config_error_iff_empty(d);
        assert forall|j: int| 0 <= j < es.last().ports.len() implies valid_port(
            #[trigger] es.last().ports[j],
        ) by {
            assert(es[n].ports[j] == es.last().ports[j]);
        }
        lemma_first_bad_port_none(es.last().ports);
        if some_endpoint_empty(d) {
            let i = choose|i: int| 0 <= i < d.len() && endpoint_empty(#[trigger] d[i]);
            assert(es[i] == d[i]);
            assert(some_endpoint_empty(es));
        }
        if some_endpoint_empty(es) {
            let i = choose|i: int| 0 <= i < es.len() && endpoint_empty(#[trigger] es[i]);
            if i < n {
                assert(d[i] == es[i]);
                assert(some_endpoint_empty(d));
            }
        }
        if endpoint_empty(es.last()) {
            assert(es[n] == es.last());
            assert(some_endpoint_empty(es));
        }
    }
}

/// Endpoints with non-empty hosts and port lists, all ports in 1..=65535,
/// resolve to exactly one target per port, endpoint by endpoint and port by port.
pub proof fn law_well_formed_endpoints_resolve(es: Seq<EndpointView>)
    requires
        ports_in_range(es),
        forall|i: int| 0 <= i < es.len() ==> !endpoint_empty(#[trigger] es[i]),
    ensures
        resolution(es) is Ok,
        resolution(es)->Ok_0.len() == total_ports(es),
        forall|i: int, j: int|
            0 <= i < es.len() && 0 <= j < es[i].ports.len() ==> #[trigger] resolution(es)->Ok_0[
            total_ports(es.take(i)) + j] == target_of(es[i], #[trigger] es[i].ports[j]),
{
    law_config_error_iff_empty(es);
    law_resolution_count_and_order(es);
}

} // verus!
