//! The one place a provider's id resolves to the backend that answers for it.
//!
//! A search that acquires machines and a caller that only reads and destroys go
//! through the same resolution. What separates them is settings.
use vstd::prelude::*;
use vstd::string::*;

use crate::config::Rented;
use crate::fault::Fault;
use crate::reach::{SpawnMode, SshDestination};
use crate::text::{cat, cat3, decimal, parse_number, quote, same};

verus! {

// ---- Settings ----------------------------------------------------------------------------------

/// What a backend needs beyond the id that names it.
#[derive(Debug, PartialEq, Eq)]
pub struct ProviderSettings<'a> {
    /// The image an instance boots, which enters a request only when an
    /// instance is created.
    pub image: &'a str,
    /// The disk an instance is given.
    pub disk_gb: u64,
    /// How many machines the caller intends to acquire, which the stub's
    /// scripted marketplace sizes itself to.
    pub count: usize,
}

impl ProviderSettings<'_> {
    /// The settings of a caller that only reads and destroys: no instance is
    /// created, so no image and no disk enter a request.
    pub fn read_only() -> (settings: ProviderSettings<'static>)
        ensures
            settings.image@ == ""@,
            settings.disk_gb == 0,
            settings.count == 0,
    {
        ProviderSettings { image: "", disk_gb: 0, count: 0 }
    }
}

// ---- Backends ----------------------------------------------------------------------------------

/// A backend and what it is configured with.
#[derive(Debug, PartialEq, Eq)]
pub enum Backend<'a> {
    /// The vast.ai marketplace; its key is read from the environment.
    Vast { image: &'a str, disk_gb: u64 },
    /// The in-process backend, listing these machines.
    Stub { offers: Vec<StubOffer> },
}

/// What an id without a backend is refused with.
pub open spec fn no_backend_text(id: Seq<char>) -> Seq<char> {
    "the provider "@ + crate::text::quoted(id) + " is one this build has no backend for"@
}

/// The backend `id` names, configured by `settings`.
pub fn provider_for<'a>(id: &str, settings: &ProviderSettings<'a>) -> (r: Result<
    Backend<'a>,
    Fault,
>)
    requires
        settings.count + 100_000 <= u64::MAX,
    ensures
        if id@ == "vastai"@ {
            r matches Ok(Backend::Vast { image, disk_gb }) && image@ == settings.image@ && disk_gb
                == settings.disk_gb
        } else if id@ == "stub"@ {
            r matches Ok(Backend::Stub { offers }) && is_marketplace(offers@, settings.count)
        } else {
            r matches Err(fault) && fault@ == crate::fault::Complaint::Provider(no_backend_text(id@))
        },
{
    if same(id, "vastai") {
        return Ok(Backend::Vast { image: settings.image, disk_gb: settings.disk_gb });
    }
    if same(id, "stub") {
        return Ok(Backend::Stub { offers: stub_offers(settings.count) });
    }
    let name: String = quote(id);
    Err(
        Fault::Provider(
            cat3("the provider ", name.as_str(), " is one this build has no backend for"),
        ),
    )
}

// ---- The stub's marketplace ----------------------------------------------------------------------

/// A machine the stub backend offers. Every one is verified and fully reliable.
#[derive(Debug, Clone, PartialEq, Eq)]
pub struct StubOffer {
    /// The offer.
    pub id: String,
    /// The machine it is for.
    pub machine: String,
    /// The model of its GPU.
    pub gpu_model: String,
    /// How many of them it has.
    pub gpu_count: u32,
    /// The memory of each, in megabytes.
    pub vram_mb: u64,
    /// The price per hour, in millionths of a dollar.
    pub price: u64,
    /// Whether the marketplace verified it.
    pub verified: bool,
    /// Its disk, in gigabytes.
    pub disk_gb: u64,
    /// Its bandwidth, in megabits per second.
    pub bandwidth_mbps: u64,
    /// Where it stands.
    pub location: String,
}

/// Whether `offer` is the `n`th machine of the stub's marketplace.
pub open spec fn is_stub_offer(offer: StubOffer, n: int) -> bool {
    &&& offer.id@ == "stub-offer-"@ + crate::text::decimal_text(n as nat)
    &&& offer.machine@ == "stub-machine-"@ + crate::text::decimal_text(n as nat)
    &&& offer.gpu_model@ == "stub-gpu"@
    &&& offer.gpu_count == 1
    &&& offer.vram_mb == 24_000
    &&& offer.price == 100_000 + n
    &&& offer.verified
    &&& offer.disk_gb == 1_000
    &&& offer.bandwidth_mbps == 10_000
    &&& offer.location@ == ""@
}

/// Whether `offers` is the marketplace for `count` machines: one for each, and
/// one where none are asked for.
pub open spec fn is_marketplace(offers: Seq<StubOffer>, count: usize) -> bool {
    &&& offers.len() == (if count == 0 {
        1
    } else {
        count as int
    })
    &&& forall|n: int| 0 <= n < offers.len() ==> is_stub_offer(#[trigger] offers[n], n)
}

/// The machines the stub backend offers to a caller that wants `count`: cheap,
/// plentiful, and each at its own rate.
pub fn stub_offers(count: usize) -> (offers: Vec<StubOffer>)
    requires
        count + 100_000 <= u64::MAX,
    ensures
        is_marketplace(offers@, count),
{
    let wanted: usize = if count == 0 {
        1
    } else {
        count
    };
    let mut offers: Vec<StubOffer> = Vec::new();
    let mut n: usize = 0;
    while n < wanted
        invariant
            n <= wanted,
            wanted + 100_000 <= u64::MAX || wanted == 1,
            offers@.len() == n,
            forall|k: int| 0 <= k < n ==> is_stub_offer(#[trigger] offers@[k], k),
        decreases wanted - n,
    {
        let numeral: String = decimal(n as u64);
        offers.push(
            StubOffer {
                id: cat("stub-offer-", numeral.as_str()),
                machine: cat("stub-machine-", numeral.as_str()),
                gpu_model: "stub-gpu".to_owned(),
                gpu_count: 1,
                vram_mb: 24_000,
                price: 100_000 + n as u64,
                verified: true,
                disk_gb: 1_000,
                bandwidth_mbps: 10_000,
                location: "".to_owned(),
            },
        );
        n = n + 1;
    }
    offers
}

/// No two machines of the stub's marketplace cost the same, so the cheapest
/// comes first in exactly one order, and no two share a name.
pub proof fn stub_offers_are_told_apart(offers: Seq<StubOffer>, count: usize, a: int, b: int)
    requires
        is_marketplace(offers, count),
        0 <= a < b < offers.len(),
    ensures
        offers[a].price < offers[b].price,
        offers[a].id@ != offers[b].id@,
        offers[a].machine@ != offers[b].machine@,
{
    assert(is_stub_offer(offers[a], a) && is_stub_offer(offers[b], b));
    let x = crate::text::decimal_text(a as nat);
    let y = crate::text::decimal_text(b as nat);
    if x == y {
        crate::text::a_numeral_reads_back(a as nat, b as nat);
        crate::text::a_numeral_reads_back(b as nat, b as nat);
    }
    let p = "stub-offer-"@;
    assert((p + x).skip(p.len() as int) =~= x);
    assert((p + y).skip(p.len() as int) =~= y);
    let q = "stub-machine-"@;
    assert((q + x).skip(q.len() as int) =~= x);
    assert((q + y).skip(q.len() as int) =~= y);
}

// ---- The stub's endpoint -------------------------------------------------------------------------

/// Where a machine answers ssh.
#[derive(Debug, Clone, PartialEq, Eq)]
pub struct SshEndpoint {
    /// Its address.
    pub host: String,
    /// Its port.
    pub port: u16,
    /// Who logs in.
    pub user: String,
}

/// Whether `at` is the first place of `c` in `s`.
pub open spec fn is_first(s: Seq<char>, c: char, at: int) -> bool {
    0 <= at < s.len() && s[at] == c && forall|i: int| 0 <= i < at ==> s[i] != c
}

/// Whether `at` is the last place of `c` in `s`.
pub open spec fn is_last(s: Seq<char>, c: char, at: int) -> bool {
    0 <= at < s.len() && s[at] == c && forall|i: int| at < i < s.len() ==> s[i] != c
}

/// Whether `endpoint` is what the value names: the user before the first at
/// sign, the host up to the last colon after it, and a port that is not zero.
/// An IPv6 literal in brackets keeps its own colons.
pub open spec fn names_endpoint(value: Seq<char>, endpoint: SshEndpoint) -> bool {
    exists|at: int, colon: int|
        {
            &&& #[trigger] is_first(value, '@', at)
            &&& #[trigger] is_last(value.skip(at + 1), ':', colon)
            &&& endpoint.user@ == value.take(at)
            &&& endpoint.user@.len() > 0
            &&& endpoint.host@ == value.skip(at + 1).take(colon)
            &&& endpoint.host@.len() > 0
            &&& crate::text::number_in(value.skip(at + 1).skip(colon + 1), 65_535) == Ok::<
                nat,
                crate::text::NumberFault,
            >(endpoint.port as nat)
            &&& endpoint.port != 0
        }
}

/// What a value that names no endpoint is refused with.
pub open spec fn malformed_endpoint_text(value: Seq<char>) -> Seq<char> {
    "SIMA_STUB_SSH is "@ + crate::text::quoted(value)
        + ", which is not a user@host:port endpoint"@
}

fn malformed(value: &str) -> (fault: Fault)
    ensures
        fault@ == crate::fault::Complaint::Validation(malformed_endpoint_text(value@)),
{
    let shown: String = quote(value);
    Fault::Validation(
        cat3("SIMA_STUB_SSH is ", shown.as_str(), ", which is not a user@host:port endpoint"),
    )
}

/// The first place of `c` in `s`.
fn find_first(s: &str, c: char) -> (r: Option<usize>)
    ensures
        match r {
            Some(at) => is_first(s@, c, at as int),
            None => forall|i: int| 0 <= i < s@.len() ==> s@[i] != c,
        },
{
    let n: usize = s.unicode_len();
    let mut i: usize = 0;
    while i < n
        invariant
            n == s@.len(),
            i <= n,
            forall|k: int| 0 <= k < i ==> s@[k] != c,
        decreases n - i,
    {
        if s.get_char(i) == c {
            return Some(i);
        }
        i = i + 1;
    }
    None
}

/// The last place of `c` in `s`.
fn find_last(s: &str, c: char) -> (r: Option<usize>)
    ensures
        match r {
            Some(at) => is_last(s@, c, at as int),
            None => forall|i: int| 0 <= i < s@.len() ==> s@[i] != c,
        },
{
    let n: usize = s.unicode_len();
    let mut i: usize = n;
    while i > 0
        invariant
            n == s@.len(),
            i <= n,
            forall|k: int| i <= k < n ==> s@[k] != c,
        decreases i,
    {
        i = i - 1;
        if s.get_char(i) == c {
            return Some(i);
        }
    }
    None
}

/// The endpoint a `user@host:port` value names. A value that does not name one
/// is refused, and is never read as no endpoint at all.
pub fn stub_endpoint(value: &str) -> (r: Result<SshEndpoint, Fault>)
    ensures
        match r {
            Ok(endpoint) => names_endpoint(value@, endpoint),
            Err(fault) => {
                &&& fault@ == crate::fault::Complaint::Validation(malformed_endpoint_text(value@))
                &&& forall|endpoint: SshEndpoint| !names_endpoint(value@, endpoint)
            },
        },
{
    let n: usize = value.unicode_len();
    let at: usize = match find_first(value, '@') {
        Some(at) => at,
        None => {
            return Err(malformed(value));
        },
    };
    let user: &str = value.substring_char(0, at);
    let rest: &str = value.substring_char(at + 1, n);
    proof {
        assert(user@ =~= value@.take(at as int));
        assert(rest@ =~= value@.skip(at + 1));
    }
    let colon: usize = match find_last(rest, ':') {
        Some(colon) => colon,
        None => {
            proof {
                assert forall|endpoint: SshEndpoint| !names_endpoint(value@, endpoint) by {
                    if names_endpoint(value@, endpoint) {
                        let (a, c) = choose|a: int, c: int|
                            #[trigger] is_first(value@, '@', a) && #[trigger] is_last(
                                value@.skip(a + 1),
                                ':',
                                c,
                            );
                        assert(a == at);
                        assert(rest@[c] == ':');
                    }
                }
            }
            return Err(malformed(value));
        },
    };
    let m: usize = rest.unicode_len();
    let host: &str = rest.substring_char(0, colon);
    let port: &str = rest.substring_char(colon + 1, m);
    proof {
        assert(host@ =~= rest@.take(colon as int));
        assert(port@ =~= rest@.skip(colon + 1));
        assert forall|endpoint: SshEndpoint| names_endpoint(value@, endpoint) implies {
            &&& endpoint.user@ == user@
            &&& user@.len() > 0
            &&& endpoint.host@ == host@
            &&& host@.len() > 0
            &&& crate::text::number_in(port@, 65_535) == Ok::<nat, crate::text::NumberFault>(
                endpoint.port as nat,
            )
            &&& endpoint.port != 0
        } by {
            let (a, c) = choose|a: int, c: int|
                {
                    &&& #[trigger] is_first(value@, '@', a)
                    &&& #[trigger] is_last(value@.skip(a + 1), ':', c)
                    &&& endpoint.user@ == value@.take(a)
                    &&& endpoint.user@.len() > 0
                    &&& endpoint.host@ == value@.skip(a + 1).take(c)
                    &&& endpoint.host@.len() > 0
                    &&& crate::text::number_in(value@.skip(a + 1).skip(c + 1), 65_535) == Ok::<
                        nat,
                        crate::text::NumberFault,
                    >(endpoint.port as nat)
                    &&& endpoint.port != 0
                };
            assert(a == at);
            assert(c == colon);
        }
    }
    let number: u32 = match parse_number(port, 65_535) {
        Ok(number) => number,
        Err(_) => {
            return Err(malformed(value));
        },
    };
    if user.unicode_len() == 0 || host.unicode_len() == 0 || number == 0 {
        return Err(malformed(value));
    }
    proof {
        crate::text::a_number_is_no_larger(port@, 65_535);
    }
    let endpoint: SshEndpoint = SshEndpoint {
        host: host.to_owned(),
        port: number as u16,
        user: user.to_owned(),
    };
    proof {
        assert(is_first(value@, '@', at as int) && is_last(value@.skip(at + 1), ':', colon as int));
    }
    Ok(endpoint)
}

/// How a control plane says its machines are reached.
#[derive(Debug, Clone, Copy, PartialEq, Eq, Structural)]
pub enum Reachability {
    /// The endpoint it reports names a machine that is really there.
    Ssh,
    /// Its machines are this machine.
    Local,
}

/// The way a control plane's machines are reached. A local spawn needs the
/// workers' binary, which is looked for only where it is needed.
pub fn transport_mode<E>(reachability: Reachability, worker: Result<String, E>) -> (r: Result<
    SpawnMode,
    E,
>)
    ensures
        match reachability {
            Reachability::Ssh => r == Ok::<SpawnMode, E>(SpawnMode::Ssh),
            Reachability::Local => match worker {
                Ok(binary) => r == Ok::<SpawnMode, E>(SpawnMode::Local(binary)),
                Err(e) => r == Err::<SpawnMode, E>(e),
            },
        },
{
    match reachability {
        Reachability::Ssh => Ok(SpawnMode::Ssh),
        Reachability::Local => match worker {
            Ok(binary) => Ok(SpawnMode::Local(binary)),
            Err(e) => Err(e),
        },
    }
}

/// The machine at a provider's endpoint, as ssh is told of it.
pub fn endpoint_target(endpoint: SshEndpoint) -> (target: SshDestination)
    ensures
        target == (SshDestination::Rented {
            host: endpoint.host,
            port: endpoint.port,
            user: endpoint.user,
        }),
{
    SshDestination::Rented { host: endpoint.host, port: endpoint.port, user: endpoint.user }
}

/// The backend a rental of `count` machines acquires them through.
pub fn provider_for_rental(rented: &Rented, count: usize) -> (r: Result<Backend<'_>, Fault>)
    requires
        count + 100_000 <= u64::MAX,
    ensures
        if rented.provider@ == "vastai"@ {
            r matches Ok(Backend::Vast { image, disk_gb }) && image@ == rented.image@ && disk_gb
                == rented.disk_gb
        } else if rented.provider@ == "stub"@ {
            r matches Ok(Backend::Stub { offers }) && is_marketplace(offers@, count)
        } else {
            r matches Err(fault) && fault@ == crate::fault::Complaint::Provider(
                no_backend_text(rented.provider@),
            )
        },
{
    let settings: ProviderSettings<'_> = ProviderSettings {
        image: rented.image.as_str(),
        disk_gb: rented.disk_gb,
        count,
    };
    provider_for(rented.provider.as_str(), &settings)
}

/// An endpoint reads back from its `user@host:port` text, for every user
/// without an at sign and every port but zero.
pub proof fn an_endpoint_reads_back(endpoint: SshEndpoint)
    requires
        endpoint.user@.len() > 0,
        endpoint.host@.len() > 0,
        endpoint.port != 0,
        forall|i: int| 0 <= i < endpoint.user@.len() ==> endpoint.user@[i] != '@',
    ensures
        names_endpoint(
            endpoint.user@ + seq!['@'] + endpoint.host@ + seq![':'] + crate::text::decimal_text(
                endpoint.port as nat,
            ),
            endpoint,
        ),
{
    let user = endpoint.user@;
    let host = endpoint.host@;
    let port = crate::text::decimal_text(endpoint.port as nat);
    let value = user + seq!['@'] + host + seq![':'] + port;
    let at = user.len() as int;
    let colon = host.len() as int;
    crate::text::a_numeral_reads_back(endpoint.port as nat, 65_535);
    crate::text::a_numeral_is_digits(endpoint.port as nat);
    assert(value.skip(at + 1) =~= host + seq![':'] + port);
    assert(value.take(at) =~= user);
    assert(value.skip(at + 1).take(colon) =~= host);
    assert(value.skip(at + 1).skip(colon + 1) =~= port);
    assert(is_first(value, '@', at));
    let rest = value.skip(at + 1);
    assert forall|i: int| colon < i < rest.len() implies rest[i] != ':' by {
        assert(rest[i] == port[i - colon - 1]);
        assert(crate::text::digit_value(port[i - colon - 1]) is Some);
    }
    assert(is_last(rest, ':', colon));
}

} // verus!
