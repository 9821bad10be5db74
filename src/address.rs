//! Turning a user-supplied `host` or `host:port` into a cache key.

use vstd::prelude::*;
use vstd::string::*;

use crate::text::{
    all_digits, ascii_alpha, digits_value, find_from, is_ascii_alpha, parse_u16, split_once,
    split_once_str, u16_of,
};

verus! {

/// The port probed when the address names none.
pub const DEFAULT_PORT: u16 = 25565;

/// An IP address, as the bits of its version.
#[derive(Clone, Copy, Debug, PartialEq, Eq, Structural, Hash)]
pub enum IpAddress {
    V4(u32),
    V6(u128),
}

/// A resolved network destination.
#[derive(Clone, Copy, Debug, PartialEq, Eq, Structural, Hash)]
pub struct Endpoint {
    pub ip: IpAddress,
    pub port: u16,
}

/// Why an address was refused. Both are errors in the caller's input.
#[derive(Clone, Copy, Debug, PartialEq, Eq, Structural)]
pub enum AddressError {
    /// More than one `:`, or a port that is not a 16-bit decimal.
    MalformedAddress,
    /// Name resolution failed or gave no address.
    ResolutionFailed,
}

/// An address split into what name resolution needs, before resolution.
#[derive(Clone, Debug)]
pub struct AddressPlan {
    pub host: String,
    pub port: u16,
    /// The host text, where it is a name rather than a literal IP.
    pub domain_name: Option<String>,
}

pub ghost struct PlanView {
    pub host: Seq<char>,
    pub port: u16,
    pub domain_name: Option<Seq<char>>,
}

impl View for AddressPlan {
    type V = PlanView;

    open spec fn view(&self) -> PlanView {
        PlanView { host: self.host@, port: self.port, domain_name: opt_view(self.domain_name) }
    }
}

/// The cache key: the resolved endpoint together with the host name, if the
/// address gave one. Two names of one IP are distinct keys.
#[derive(Clone, Debug)]
pub struct ServerAddr {
    pub domain_name: Option<String>,
    pub address: Endpoint,
}

pub ghost struct KeyView {
    pub domain_name: Option<Seq<char>>,
    pub address: Endpoint,
}

impl View for ServerAddr {
    type V = KeyView;

    open spec fn view(&self) -> KeyView {
        KeyView { domain_name: opt_view(self.domain_name), address: self.address }
    }
}

pub open spec fn opt_view(s: Option<String>) -> Option<Seq<char>> {
    match s {
        Some(t) => Some(t@),
        None => None,
    }
}

pub open spec fn colon_count(s: Seq<char>) -> nat
    decreases s.len(),
{
    if s.len() == 0 {
        0
    } else {
        colon_count(s.drop_last()) + if s.last() == ':' {
            1nat
        } else {
            0nat
        }
    }
}

pub open spec fn has_alpha(s: Seq<char>) -> bool {
    exists|i: int| 0 <= i < s.len() && is_ascii_alpha(#[trigger] s[i])
}

/// A host that holds a letter is a name, and is kept; otherwise it is an IP.
pub open spec fn domain_of(host: Seq<char>) -> Option<Seq<char>> {
    if has_alpha(host) {
        Some(host)
    } else {
        None
    }
}

/// How an address splits: no `:` gives the default port, one `:` gives an
/// explicit port, more are refused.
pub open spec fn plan_of(s: Seq<char>) -> Result<PlanView, AddressError> {
    if colon_count(s) == 0 {
        Ok(PlanView { host: s, port: DEFAULT_PORT, domain_name: domain_of(s) })
    } else if colon_count(s) == 1 {
        match split_once(s, seq![':']) {
            Some((h, p)) => match u16_of(p) {
                Some(port) => Ok(PlanView { host: h, port, domain_name: domain_of(h) }),
                None => Err(AddressError::MalformedAddress),
            },
            None => Err(AddressError::MalformedAddress),
        }
    } else {
        Err(AddressError::MalformedAddress)
    }
}

/// The key for a plan, given the addresses that resolution gave (`None`
/// where it failed). The first address is taken.
pub open spec fn key_of(plan: PlanView, resolved: Option<Seq<IpAddress>>) -> Result<
    KeyView,
    AddressError,
> {
    match resolved {
        Some(ips) => if ips.len() > 0 {
            Ok(
                KeyView {
                    domain_name: plan.domain_name,
                    address: Endpoint { ip: ips[0], port: plan.port },
                },
            )
        } else {
            Err(AddressError::ResolutionFailed)
        },
        None => Err(AddressError::ResolutionFailed),
    }
}

/// The key of an address text, given what resolving its plan gave.
pub open spec fn canonical_key(s: Seq<char>, resolved: Option<Seq<IpAddress>>) -> Result<
    KeyView,
    AddressError,
> {
    match plan_of(s) {
        Ok(plan) => key_of(plan, resolved),
        Err(e) => Err(e),
    }
}

pub open spec fn plan_result_view(r: Result<AddressPlan, AddressError>) -> Result<
    PlanView,
    AddressError,
> {
    match r {
        Ok(p) => Ok(p@),
        Err(e) => Err(e),
    }
}

pub open spec fn key_result_view(r: Result<ServerAddr, AddressError>) -> Result<
    KeyView,
    AddressError,
> {
    match r {
        Ok(k) => Ok(k@),
        Err(e) => Err(e),
    }
}

pub open spec fn ips_view(r: Option<Vec<IpAddress>>) -> Option<Seq<IpAddress>> {
    match r {
        Some(v) => Some(v@),
        None => None,
    }
}

fn count_colons(s: &str) -> (r: usize)
    ensures
        r == colon_count(s@),
{
    let n = s.unicode_len();
    let mut count: usize = 0;
    let mut i: usize = 0;
    while i < n
        invariant
            n == s@.len(),
            i <= n,
            count <= i,
            count == colon_count(s@.subrange(0, i as int)),
        decreases n - i,
    {
        assert(s@.subrange(0, i + 1).drop_last() =~= s@.subrange(0, i as int));
        if s.get_char(i) == ':' {
            count = count + 1;
        }
        i = i + 1;
    }
    assert(s@.subrange(0, n as int) =~= s@);
    count
}

fn domain_name_of(host: &str) -> (r: Option<String>)
    ensures
        opt_view(r) == domain_of(host@),
{
    let n = host.unicode_len();
    let mut i: usize = 0;
    while i < n
        invariant
            n == host@.len(),
            i <= n,
            forall|j: int| 0 <= j < i ==> !is_ascii_alpha(#[trigger] host@[j]),
        decreases n - i,
    {
        if ascii_alpha(host.get_char(i)) {
            return Some(host.to_owned());
        }
        i = i + 1;
    }
    None
}

/// Splits an address into host and port, and keeps the host name if it is one.
pub fn plan_address(addr: &str) -> (r: Result<AddressPlan, AddressError>)
    ensures
        plan_result_view(r) == plan_of(addr@),
{
    let colons = count_colons(addr);
    if colons == 0 {
        let domain_name = domain_name_of(addr);
        Ok(AddressPlan { host: addr.to_owned(), port: DEFAULT_PORT, domain_name })
    } else if colons == 1 {
        proof {
            reveal_strlit(":");
            assert(":"@ =~= seq![':']);
        }
        match split_once_str(addr, ":") {
            Some((h, p)) => match parse_u16(p) {
                Some(port) => {
                    let domain_name = domain_name_of(h);
                    Ok(AddressPlan { host: h.to_owned(), port, domain_name })
                },
                None => Err(AddressError::MalformedAddress),
            },
            None => Err(AddressError::MalformedAddress),
        }
    } else {
        Err(AddressError::MalformedAddress)
    }
}

fn clone_name(s: &Option<String>) -> (r: Option<String>)
    ensures
        opt_view(r) == opt_view(*s),
{
    match s {
        Some(t) => Some(t.clone()),
        None => None,
    }
}

/// Builds the key from a plan and the addresses that resolving it gave
/// (`None` where resolution failed).
pub fn canonicalize(plan: &AddressPlan, resolved: Option<Vec<IpAddress>>) -> (r: Result<
    ServerAddr,
    AddressError,
>)
    ensures
        key_result_view(r) == key_of(plan@, ips_view(resolved)),
{
    match resolved {
        Some(ips) => {
            if ips.len() > 0 {
                Ok(
                    ServerAddr {
                        domain_name: clone_name(&plan.domain_name),
                        address: Endpoint { ip: ips[0], port: plan.port },
                    },
                )
            } else {
                Err(AddressError::ResolutionFailed)
            }
        },
        None => Err(AddressError::ResolutionFailed),
    }
}

impl ServerAddr {
    /// Whether two keys are the same key.
    pub fn same_key(&self, other: &ServerAddr) -> (r: bool)
        ensures
            r == (self@ == other@),
    {
        if self.address != other.address {
            return false;
        }
        match (&self.domain_name, &other.domain_name) {
            (Some(a), Some(b)) => *a == *b,
            (None, None) => true,
            _ => false,
        }
    }

    /// A copy of this key.
    pub fn duplicate(&self) -> (r: ServerAddr)
        ensures
            r@ == self@,
    {
        ServerAddr { domain_name: clone_name(&self.domain_name), address: self.address }
    }
}

impl PartialEq for ServerAddr {
    fn eq(&self, other: &ServerAddr) -> (r: bool) {
        self.same_key(other)
    }
}

impl vstd::std_specs::cmp::PartialEqSpecImpl for ServerAddr {
    open spec fn obeys_eq_spec() -> bool {
        true
    }

    open spec fn eq_spec(&self, other: &ServerAddr) -> bool {
        self@ == other@
    }
}

impl Eq for ServerAddr {

}

proof fn lemma_colon_count_concat(a: Seq<char>, b: Seq<char>)
    ensures
        colon_count(a + b) == colon_count(a) + colon_count(b),
    decreases b.len(),
{
    if b.len() > 0 {
        assert((a + b).drop_last() =~= a + b.drop_last());
        lemma_colon_count_concat(a, b.drop_last());
    } else {
        assert(a + b =~= a);
    }
}

proof fn lemma_no_colon(s: Seq<char>, i: int)
    requires
        colon_count(s) == 0,
        0 <= i < s.len(),
    ensures
        s[i] != ':',
    decreases s.len(),
{
    if i < s.len() - 1 {
        lemma_no_colon(s.drop_last(), i);
    }
}

proof fn lemma_first_colon(host: Seq<char>, tail: Seq<char>, i: nat)
    requires
        colon_count(host) == 0,
        tail.len() > 0,
        tail[0] == ':',
        i <= host.len(),
    ensures
        find_from(host + tail, seq![':'], i) == Some(host.len()),
    decreases host.len() - i,
{
    let s = host + tail;
    if i < host.len() {
        lemma_no_colon(host, i as int);
        assert(s.subrange(i as int, i + 1int)[0] == host[i as int]);
        lemma_first_colon(host, tail, i + 1);
    } else {
        assert(s.subrange(i as int, i + 1int) =~= seq![':']);
    }
}

/// Naming the default port changes nothing: for a host without `:`, the
/// texts `host` and `host:25565` give the same plan, and so the same key
/// whatever resolution gives.
pub proof fn lemma_default_port_is_implicit(host: Seq<char>, resolved: Option<Seq<IpAddress>>)
    requires
        colon_count(host) == 0,
    ensures
        plan_of(host + ":25565"@) == plan_of(host),
        canonical_key(host + ":25565"@, resolved) == canonical_key(host, resolved),
{
    reveal_strlit(":25565");
    let tail = ":25565"@;
    let digits = seq!['2', '5', '5', '6', '5'];
    assert(tail =~= seq![':'] + digits);
    let s = host + tail;
    lemma_colon_count_concat(host, tail);
    lemma_colon_count_concat(seq![':'], digits);
    assert(seq![':'].drop_last() =~= Seq::<char>::empty());
    assert(digits.drop_last() =~= seq!['2', '5', '5', '6']);
    assert(digits.drop_last().drop_last() =~= seq!['2', '5', '5']);
    assert(seq!['2', '5', '5'].drop_last() =~= seq!['2', '5']);
    assert(seq!['2', '5'].drop_last() =~= seq!['2']);
    assert(seq!['2'].drop_last() =~= Seq::<char>::empty());
    assert(colon_count(Seq::<char>::empty()) == 0);
    assert(colon_count(seq!['2']) == 0);
    assert(colon_count(seq!['2', '5']) == 0);
    assert(colon_count(seq!['2', '5', '5']) == 0);
    assert(colon_count(seq!['2', '5', '5', '6']) == 0);
    assert(colon_count(digits) == 0);
    assert(colon_count(seq![':']) == 1);
    assert(colon_count(tail) == 1);
    lemma_first_colon(host, tail, 0);
    assert(s.subrange(0, host.len() as int) =~= host);
    assert(s.subrange(host.len() + 1int, s.len() as int) =~= digits);
    assert(digits_value(Seq::<char>::empty()) == 0);
    assert(seq!['2'].last() == '2');
    assert('2' as int - '0' as int == 2);
    assert(digits_value(seq!['2']) == 2);
    assert(digits_value(seq!['2', '5']) == 25);
    assert(digits_value(seq!['2', '5', '5']) == 255);
    assert(digits_value(seq!['2', '5', '5', '6']) == 2556);
    assert(digits_value(digits) == 25565);
    assert(all_digits(digits));
    assert(u16_of(digits) == Some(25565u16));
}

} // verus!
