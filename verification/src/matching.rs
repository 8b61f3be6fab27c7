//! The match reason taxonomy and the matcher core: a pure, total comparison
//! of one blocked address against one candidate address, and the driver that
//! collects every match of every candidate across the parsed records.

use vstd::prelude::*;

use crate::address::Address;
use crate::address::AddressView;
use crate::record::Record;
use crate::text::chars_of;
use crate::text::views_of;

verus! {

/// Why a candidate address is covered by a blocked address: one reason per
/// matching cell of the variant cross product.
#[derive(Clone, Copy, Debug, PartialEq, Eq, Structural, Hash)]
pub enum MatchReason {
    /// IPv4 address is equal to blocked IPv4 address.
    IPv4Equals,
    /// IPv4 address is contained in blocked IPv4 network.
    IPv4InBlockedIPv4Network,
    /// IPv4 network contains blocked IPv4 address.
    IPv4NetworkContainsBlockedIPv4,
    /// IPv4 network is equal to blocked IPv4 network.
    IPv4NetworkEquals,
    /// IPv4 network is a subset of blocked IPv4 network.
    IPv4NetworkInBlockedIPv4Network,
    /// IPv4 network is a superset of blocked IPv4 network.
    IPv4NetworkContainsBlockedIPv4Network,
    /// Domain name is equal to blocked domain name.
    DomainNameEquals,
    /// Domain name matches blocked wildcard domain name.
    DomainNameInBlockedWildcard,
    /// Wildcard domain name is matched by blocked domain name.
    WildcardContainsBlockedDomain,
    /// Wildcard domain name is equal to blocked wildcard domain name.
    WildcardEquals,
    /// Wildcard domain name is a subset of blocked wildcard domain name.
    WildcardInBlockedWildcard,
    /// Wildcard domain name is a superset of blocked wildcard domain name.
    WildcardContainsBlockedWildcard,
    /// URL is equal to blocked URL.
    URLEquals,
    /// URL is a base of blocked URL.
    URLContainsBlockedURL,
    /// URL is starting from blocked URL.
    URLInBlockedURL,
}

impl MatchReason {
    /// The serialized name of the reason.
    pub fn name(&self) -> (r: &'static str)
        ensures
            r@ == reason_name(*self),
    {
        match self {
            MatchReason::IPv4Equals => "IPv4Equals",
            MatchReason::IPv4InBlockedIPv4Network => "IPv4InBlockedIPv4Network",
            MatchReason::IPv4NetworkContainsBlockedIPv4 => "IPv4NetworkContainsBlockedIPv4",
            MatchReason::IPv4NetworkEquals => "IPv4NetworkEquals",
            MatchReason::IPv4NetworkInBlockedIPv4Network => "IPv4NetworkInBlockedIPv4Network",
            MatchReason::IPv4NetworkContainsBlockedIPv4Network => "IPv4NetworkContainsBlockedIPv4Network",
            MatchReason::DomainNameEquals => "DomainNameEquals",
            MatchReason::DomainNameInBlockedWildcard => "DomainNameInBlockedWildcard",
            MatchReason::WildcardContainsBlockedDomain => "WildcardContainsBlockedDomain",
            MatchReason::WildcardEquals => "WildcardEquals",
            MatchReason::WildcardInBlockedWildcard => "WildcardInBlockedWildcard",
            MatchReason::WildcardContainsBlockedWildcard => "WildcardContainsBlockedWildcard",
            MatchReason::URLEquals => "URLEquals",
            MatchReason::URLContainsBlockedURL => "URLContainsBlockedURL",
            MatchReason::URLInBlockedURL => "URLInBlockedURL",
        }
    }

    /// The human-readable phrase for the reason.
    pub fn phrase(&self) -> (r: &'static str)
        ensures
            r@ == reason_phrase(*self),
    {
        match self {
            MatchReason::IPv4Equals => "IPv4 address is equal to blocked IPv4 address",
            MatchReason::IPv4InBlockedIPv4Network => "IPv4 address is contained in blocked IPv4 network",
            MatchReason::IPv4NetworkContainsBlockedIPv4 => "IPv4 network contains blocked IPv4 address",
            MatchReason::IPv4NetworkEquals => "IPv4 network is equal to blocked IPv4 network",
            MatchReason::IPv4NetworkInBlockedIPv4Network => "IPv4 network is a subset of blocked IPv4 network",
            MatchReason::IPv4NetworkContainsBlockedIPv4Network => "IPV4 network is a superset of blocked IPv4 network",
            MatchReason::DomainNameEquals => "Domain name is equal to blocked domain name",
            MatchReason::DomainNameInBlockedWildcard => "Domain name matches blocked wildcard domain name",
            MatchReason::WildcardContainsBlockedDomain => "Wildcard domain name is matched by blocked domain name",
            MatchReason::WildcardEquals => "Wildcard domain name is equal to blocked wildcard domain name",
            MatchReason::WildcardInBlockedWildcard => "Wildcard domain name is a subset of blocked wildcard domain name",
            MatchReason::WildcardContainsBlockedWildcard => "Wildcard domain name is a superset of blocked wildcard domain name",
            MatchReason::URLEquals => "URL is equal to blocked URL",
            MatchReason::URLContainsBlockedURL => "URL is a base of blocked URL",
            MatchReason::URLInBlockedURL => "URL is starting from blocked URL",
        }
    }
}

pub open spec fn reason_name(r: MatchReason) -> Seq<char> {
    match r {
        MatchReason::IPv4Equals => "IPv4Equals"@,
        MatchReason::IPv4InBlockedIPv4Network => "IPv4InBlockedIPv4Network"@,
        MatchReason::IPv4NetworkContainsBlockedIPv4 => "IPv4NetworkContainsBlockedIPv4"@,
        MatchReason::IPv4NetworkEquals => "IPv4NetworkEquals"@,
        MatchReason::IPv4NetworkInBlockedIPv4Network => "IPv4NetworkInBlockedIPv4Network"@,
        MatchReason::IPv4NetworkContainsBlockedIPv4Network => "IPv4NetworkContainsBlockedIPv4Network"@,
        MatchReason::DomainNameEquals => "DomainNameEquals"@,
        MatchReason::DomainNameInBlockedWildcard => "DomainNameInBlockedWildcard"@,
        MatchReason::WildcardContainsBlockedDomain => "WildcardContainsBlockedDomain"@,
        MatchReason::WildcardEquals => "WildcardEquals"@,
        MatchReason::WildcardInBlockedWildcard => "WildcardInBlockedWildcard"@,
        MatchReason::WildcardContainsBlockedWildcard => "WildcardContainsBlockedWildcard"@,
        MatchReason::URLEquals => "URLEquals"@,
        MatchReason::URLContainsBlockedURL => "URLContainsBlockedURL"@,
        MatchReason::URLInBlockedURL => "URLInBlockedURL"@,
    }
}

pub open spec fn reason_phrase(r: MatchReason) -> Seq<char> {
    match r {
        MatchReason::IPv4Equals => "IPv4 address is equal to blocked IPv4 address"@,
        MatchReason::IPv4InBlockedIPv4Network => "IPv4 address is contained in blocked IPv4 network"@,
        MatchReason::IPv4NetworkContainsBlockedIPv4 => "IPv4 network contains blocked IPv4 address"@,
        MatchReason::IPv4NetworkEquals => "IPv4 network is equal to blocked IPv4 network"@,
        MatchReason::IPv4NetworkInBlockedIPv4Network => "IPv4 network is a subset of blocked IPv4 network"@,
        MatchReason::IPv4NetworkContainsBlockedIPv4Network => "IPV4 network is a superset of blocked IPv4 network"@,
        MatchReason::DomainNameEquals => "Domain name is equal to blocked domain name"@,
        MatchReason::DomainNameInBlockedWildcard => "Domain name matches blocked wildcard domain name"@,
        MatchReason::WildcardContainsBlockedDomain => "Wildcard domain name is matched by blocked domain name"@,
        MatchReason::WildcardEquals => "Wildcard domain name is equal to blocked wildcard domain name"@,
        MatchReason::WildcardInBlockedWildcard => "Wildcard domain name is a subset of blocked wildcard domain name"@,
        MatchReason::WildcardContainsBlockedWildcard => "Wildcard domain name is a superset of blocked wildcard domain name"@,
        MatchReason::URLEquals => "URL is equal to blocked URL"@,
        MatchReason::URLContainsBlockedURL => "URL is a base of blocked URL"@,
        MatchReason::URLInBlockedURL => "URL is starting from blocked URL"@,
    }
}

/// The wildcard string with every leading `*` removed.
pub open spec fn strip_stars(w: Seq<char>) -> Seq<char>
    decreases w.len(),
{
    if w.len() > 0 && w[0] == '*' {
        strip_stars(w.skip(1))
    } else {
        w
    }
}

/// Whether `d` ends with `suf` (raw character comparison).
pub open spec fn suffix_matches(d: Seq<char>, suf: Seq<char>) -> bool {
    d.len() >= suf.len() && d.skip(d.len() - suf.len()) == suf
}

/// Wildcard coverage: `*` covers everything; otherwise the domain must end
/// with the wildcard stripped of all leading `*` characters (the suffix
/// keeps its leading dot).
pub open spec fn spec_wildcard_match(w: Seq<char>, d: Seq<char>) -> bool {
    w == seq!['*'] || suffix_matches(d, strip_stars(w))
}

/// Whether a domain is covered by a wildcard domain pattern.
#[verifier::loop_isolation(false)]
pub fn match_wildcard_domain(wildcard_domain: &str, domain: &str) -> (r: bool)
    ensures
        r == spec_wildcard_match(wildcard_domain@, domain@),
{
    let w = chars_of(wildcard_domain);
    let d = chars_of(domain);
    if w.len() == 1 && w[0] == '*' {
        proof {
            assert(w@ =~= seq!['*']);
        }
        return true;
    }
    proof {
        if w@ == seq!['*'] {
            assert(w@[0] == '*');
            assert(false);
        }
    }
    let mut k: usize = 0;
    assert(w@.skip(0) =~= w@);
    while k < w.len() && w[k] == '*'
        invariant
            k <= w@.len(),
            strip_stars(w@) == strip_stars(w@.skip(k as int)),
        decreases w@.len() - k,
    {
        assert(w@.skip(k as int).skip(1) =~= w@.skip(k + 1));
        k = k + 1;
    }
    assert(strip_stars(w@) == w@.skip(k as int)) by {
        if k < w@.len() {
            assert(w@.skip(k as int)[0] == w@[k as int]);
        }
    }
    let m = w.len() - k;
    if d.len() < m {
        return false;
    }
    let off = d.len() - m;
    for i in 0..m
        invariant
            k + m == w@.len(),
            off + m == d@.len(),
            forall|j: int| 0 <= j < i ==> #[trigger] d@[off + j] == w@[k + j],
            strip_stars(w@) == w@.skip(k as int),
    {
        if d[off + i] != w[k + i] {
            assert(d@.skip(off as int)[i as int] != w@.skip(k as int)[i as int]);
            assert(!suffix_matches(d@, strip_stars(w@)));
            return false;
        }
    }
    assert forall|j: int| 0 <= j < m implies d@.skip(off as int)[j] == w@.skip(k as int)[j] by {
        assert(d@[off + j] == w@[k + j]);
    }
    assert(d@.skip(off as int) =~= w@.skip(k as int));
    true
}

/// Compare a candidate address against one blocked address: the typed
/// reason why the block covers the candidate, or nothing. Total over all
/// variant pairs and a pure function of the two values.
///
/// A URL candidate is compared against blocked URLs only: query expansion
/// already derives a URL's host as a candidate of its own, so the cells
/// comparing a URL against blocked domains and wildcards stay empty here.
pub open spec fn spec_addr_match(blocked: AddressView, addr: AddressView) -> Option<MatchReason> {
    match addr {
        AddressView::IPv4(ip) => match blocked {
            AddressView::IPv4(b) => if b == ip {
                Some(MatchReason::IPv4Equals)
            } else {
                None
            },
            AddressView::IPv4Network(bn) => if bn.spec_contains_ip(ip) {
                Some(MatchReason::IPv4InBlockedIPv4Network)
            } else {
                None
            },
            _ => None,
        },
        AddressView::IPv4Network(n) => match blocked {
            AddressView::IPv4(b) => if n.spec_contains_ip(b) {
                Some(MatchReason::IPv4NetworkContainsBlockedIPv4)
            } else {
                None
            },
            AddressView::IPv4Network(bn) => if bn == n {
                Some(MatchReason::IPv4NetworkEquals)
            } else if bn.spec_contains_net(n) {
                Some(MatchReason::IPv4NetworkInBlockedIPv4Network)
            } else if n.spec_contains_net(bn) {
                Some(MatchReason::IPv4NetworkContainsBlockedIPv4Network)
            } else {
                None
            },
            _ => None,
        },
        AddressView::DomainName(d) => match blocked {
            AddressView::DomainName(bd) => if bd == d {
                Some(MatchReason::DomainNameEquals)
            } else {
                None
            },
            AddressView::WildcardDomainName(bw) => if spec_wildcard_match(bw, d) {
                Some(MatchReason::DomainNameInBlockedWildcard)
            } else {
                None
            },
            _ => None,
        },
        AddressView::WildcardDomainName(w) => match blocked {
            AddressView::DomainName(bd) => if spec_wildcard_match(w, bd) {
                Some(MatchReason::WildcardContainsBlockedDomain)
            } else {
                None
            },
            AddressView::WildcardDomainName(bw) => if bw == w {
                Some(MatchReason::WildcardEquals)
            } else if spec_wildcard_match(bw, w) {
                Some(MatchReason::WildcardInBlockedWildcard)
            } else if spec_wildcard_match(w, bw) {
                Some(MatchReason::WildcardContainsBlockedWildcard)
            } else {
                None
            },
            _ => None,
        },
        AddressView::URL(u) => match blocked {
            AddressView::URL(bu) => if bu.text == u.text {
                Some(MatchReason::URLEquals)
            } else if u.text.is_prefix_of(bu.text) {
                Some(MatchReason::URLContainsBlockedURL)
            } else if bu.text.is_prefix_of(u.text) {
                Some(MatchReason::URLInBlockedURL)
            } else {
                None
            },
            _ => None,
        },
        AddressView::Reserved => None,
    }
}

/// Whether `a@` is a prefix of `b@`.
fn str_prefix_of(a: &str, b: &str) -> (r: bool)
    ensures
        r == a@.is_prefix_of(b@),
{
    let na = a.unicode_len();
    let nb = b.unicode_len();
    if na > nb {
        return false;
    }
    for i in 0..na
        invariant
            na == a@.len(),
            nb == b@.len(),
            na <= nb,
            forall|j: int| 0 <= j < i ==> a@[j] == b@[j],
    {
        if a.get_char(i) != b.get_char(i) {
            assert(!a@.is_prefix_of(b@));
            return false;
        }
    }
    assert(a@ =~= b@.subrange(0, na as int));
    true
}

/// Compare a candidate address against one blocked address.
pub fn addr_match(blocked_address: &Address, address: &Address) -> (r: Option<MatchReason>)
    requires
        blocked_address.wf(),
        address.wf(),
    ensures
        r == spec_addr_match(blocked_address@, address@),
{
    match address {
        Address::IPv4(ip) => match blocked_address {
            Address::IPv4(b) => if b.bits == ip.bits {
                Some(MatchReason::IPv4Equals)
            } else {
                None
            },
            Address::IPv4Network(bn) => if bn.contains_ip(ip) {
                Some(MatchReason::IPv4InBlockedIPv4Network)
            } else {
                None
            },
            _ => None,
        },
        Address::IPv4Network(n) => match blocked_address {
            Address::IPv4(b) => if n.contains_ip(b) {
                Some(MatchReason::IPv4NetworkContainsBlockedIPv4)
            } else {
                None
            },
            Address::IPv4Network(bn) => if bn.addr.bits == n.addr.bits && bn.prefix_len
                == n.prefix_len {
                Some(MatchReason::IPv4NetworkEquals)
            } else if bn.contains_net(n) {
                Some(MatchReason::IPv4NetworkInBlockedIPv4Network)
            } else if n.contains_net(bn) {
                Some(MatchReason::IPv4NetworkContainsBlockedIPv4Network)
            } else {
                None
            },
            _ => None,
        },
        Address::DomainName(d) => match blocked_address {
            Address::DomainName(bd) => if *bd == *d {
                Some(MatchReason::DomainNameEquals)
            } else {
                None
            },
            Address::WildcardDomainName(bw) => if match_wildcard_domain(
                bw.as_str(),
                d.as_str(),
            ) {
                Some(MatchReason::DomainNameInBlockedWildcard)
            } else {
                None
            },
            _ => None,
        },
        Address::WildcardDomainName(w) => match blocked_address {
            Address::DomainName(bd) => if match_wildcard_domain(w.as_str(), bd.as_str()) {
                Some(MatchReason::WildcardContainsBlockedDomain)
            } else {
                None
            },
            Address::WildcardDomainName(bw) => if *bw == *w {
                Some(MatchReason::WildcardEquals)
            } else if match_wildcard_domain(bw.as_str(), w.as_str()) {
                Some(MatchReason::WildcardInBlockedWildcard)
            } else if match_wildcard_domain(w.as_str(), bw.as_str()) {
                Some(MatchReason::WildcardContainsBlockedWildcard)
            } else {
                None
            },
            _ => None,
        },
        Address::URL(u) => match blocked_address {
            Address::URL(bu) => if bu.text == u.text {
                Some(MatchReason::URLEquals)
            } else if str_prefix_of(u.text.as_str(), bu.text.as_str()) {
                Some(MatchReason::URLContainsBlockedURL)
            } else if str_prefix_of(bu.text.as_str(), u.text.as_str()) {
                Some(MatchReason::URLInBlockedURL)
            } else {
                None
            },
            _ => None,
        },
        Address::__NonExhaustive => None,
    }
}

/// One finding: which record (by its index in the parsed record list),
/// which of its blocked addresses, and why it covers the candidate.
#[derive(Debug, PartialEq, Eq)]
pub struct Match {
    pub block_record_index: usize,
    pub blocked_address: Address,
    pub match_reason: MatchReason,
}

/// Spec-level image of `Match`.
pub struct MatchView {
    pub block_record_index: int,
    pub blocked_address: AddressView,
    pub match_reason: MatchReason,
}

impl View for Match {
    type V = MatchView;

    open spec fn view(&self) -> MatchView {
        MatchView {
            block_record_index: self.block_record_index as int,
            blocked_address: self.blocked_address@,
            match_reason: self.match_reason,
        }
    }
}

/// One expanded sub-address of a user query, with every match found for it.
#[derive(Debug, PartialEq, Eq)]
pub struct SubAddressWithMatches {
    pub address: Address,
    pub matches: Vec<Match>,
}

/// Spec-level image of `SubAddressWithMatches`.
pub struct SubView {
    pub address: AddressView,
    pub matches: Seq<MatchView>,
}

impl View for SubAddressWithMatches {
    type V = SubView;

    open spec fn view(&self) -> SubView {
        SubView { address: self.address@, matches: views_of(self.matches@) }
    }
}

/// One user query: the original string and its expanded sub-addresses.
#[derive(Debug, PartialEq, Eq)]
pub struct QueryResult {
    pub original_address: String,
    pub addresses: Vec<SubAddressWithMatches>,
}

/// Spec-level image of `QueryResult`.
pub struct QueryView {
    pub original_address: Seq<char>,
    pub addresses: Seq<SubView>,
}

impl View for QueryResult {
    type V = QueryView;

    open spec fn view(&self) -> QueryView {
        QueryView { original_address: self.original_address@, addresses: views_of(self.addresses@) }
    }
}

impl QueryResult {
    /// Every sub-address is well-formed.
    pub open spec fn wf(&self) -> bool {
        forall|j: int|
            0 <= j < self.addresses@.len() ==> (#[trigger] self.addresses@[j].address).wf()
    }

    /// Wrap a query string and its expanded sub-addresses, with no matches
    /// found yet.
    pub fn new(original_address: String, sub_addresses: Vec<Address>) -> (r: QueryResult)
        ensures
            r.original_address == original_address,
            r.addresses@.len() == sub_addresses@.len(),
            forall|j: int|
                0 <= j < sub_addresses@.len() ==> (#[trigger] r.addresses@[j]).address
                    == sub_addresses@[j] && r.addresses@[j].matches@.len() == 0,
    {
        let mut addresses: Vec<SubAddressWithMatches> = Vec::new();
        let mut rest = sub_addresses;
        let ghost orig = rest@;
        while rest.len() > 0
            invariant
                addresses@.len() + rest@.len() == orig.len(),
                forall|j: int|
                    0 <= j < addresses@.len() ==> (#[trigger] addresses@[j]).address == orig[j]
                        && addresses@[j].matches@.len() == 0,
                forall|j: int|
                    0 <= j < rest@.len() ==> #[trigger] rest@[j] == orig[addresses@.len() + j],
            decreases rest@.len(),
        {
            let a = rest.remove(0);
            addresses.push(SubAddressWithMatches { address: a, matches: Vec::new() });
        }
        QueryResult { original_address, addresses }
    }
}

/// The matches that one record's blocked addresses produce for one
/// candidate, in blocked-address order.
pub open spec fn matches_for(blocked: Seq<AddressView>, idx: int, addr: AddressView) -> Seq<
    MatchView,
>
    decreases blocked.len(),
{
    if blocked.len() == 0 {
        Seq::empty()
    } else {
        let rest = matches_for(blocked.drop_last(), idx, addr);
        match spec_addr_match(blocked.last(), addr) {
            Some(reason) => rest.push(
                MatchView {
                    block_record_index: idx,
                    blocked_address: blocked.last(),
                    match_reason: reason,
                },
            ),
            None => rest,
        }
    }
}

/// The matches that a whole record list produces for one candidate, in
/// record-then-blocked-address order.
pub open spec fn matches_over(records: Seq<crate::record::RecordView>, addr: AddressView) -> Seq<
    MatchView,
>
    decreases records.len(),
{
    if records.len() == 0 {
        Seq::empty()
    } else {
        matches_over(records.drop_last(), addr) + matches_for(
            records.last().addresses,
            records.len() - 1,
            addr,
        )
    }
}

/// Collect the matches of one candidate against one record's addresses.
#[verifier::loop_isolation(false)]
pub fn matches_of_record(blocked: &Vec<Address>, index: usize, sub: &Address) -> (r: Vec<Match>)
    requires
        forall|i: int| 0 <= i < blocked@.len() ==> (#[trigger] blocked@[i]).wf(),
        sub.wf(),
    ensures
        views_of(r@) == matches_for(views_of(blocked@), index as int, sub@),
{
    let mut r: Vec<Match> = Vec::new();
    assert(views_of(r@) =~= matches_for(views_of(blocked@).take(0), index as int, sub@));
    let n = blocked.len();
    for i in 0..n
        invariant
            views_of(r@) == matches_for(views_of(blocked@).take(i as int), index as int, sub@),
    {
        proof {
            assert(views_of(blocked@).take(i + 1).drop_last() =~= views_of(blocked@).take(
                i as int,
            ));
            assert(views_of(blocked@).take(i + 1).last() == blocked@[i as int]@);
        }
        match addr_match(&blocked[i], sub) {
            Some(reason) => {
                let m = Match {
                    block_record_index: index,
                    blocked_address: blocked[i].clone(),
                    match_reason: reason,
                };
                proof {
                    crate::text::lemma_views_of_push(r@, m);
                }
                r.push(m);
            },
            None => {},
        }
    }
    assert(views_of(blocked@).take(n as int) =~= views_of(blocked@));
    r
}

/// Append to every sub-address of one query the matches that one record
/// produces for it, in blocked-address order.
#[verifier::loop_isolation(false)]
pub fn find_matches(block_record: &Record, index: usize, query: QueryResult) -> (r: QueryResult)
    requires
        block_record.wf(),
        query.wf(),
    ensures
        r.wf(),
        r.original_address == query.original_address,
        r.addresses@.len() == query.addresses@.len(),
        forall|j: int|
            0 <= j < query.addresses@.len() ==> (#[trigger] r.addresses@[j]).address
                == query.addresses@[j].address,
        forall|j: int|
            0 <= j < query.addresses@.len() ==> views_of((#[trigger] r.addresses@[j]).matches@)
                == views_of(query.addresses@[j].matches@) + matches_for(
                views_of(block_record.addresses@),
                index as int,
                query.addresses@[j].address@,
            ),
{
    let QueryResult { original_address, addresses } = query;
    let ghost orig = addresses@;
    let mut rest = addresses;
    let mut out: Vec<SubAddressWithMatches> = Vec::new();
    while rest.len() > 0
        invariant
            out@.len() + rest@.len() == orig.len(),
            forall|j: int| 0 <= j < rest@.len() ==> #[trigger] rest@[j] == orig[out@.len() + j],
            forall|j: int|
                0 <= j < out@.len() ==> (#[trigger] out@[j]).address == orig[j].address
                    && views_of(out@[j].matches@) == views_of(orig[j].matches@) + matches_for(
                    views_of(block_record.addresses@),
                    index as int,
                    orig[j].address@,
                ),
        decreases rest@.len(),
    {
        let ghost k = out@.len();
        let mut sa = rest.remove(0);
        assert(sa == orig[k as int]);
        let mut more = matches_of_record(&block_record.addresses, index, &sa.address);
        let ghost old_matches = sa.matches@;
        let ghost more_seq = more@;
        sa.matches.append(&mut more);
        proof {
            crate::text::lemma_views_of_concat(old_matches, more_seq);
        }
        out.push(sa);
    }
    QueryResult { original_address, addresses: out }
}

/// Walk every record for every query: each sub-address accumulates its
/// matches in record order, and within one record in blocked-address order.
#[verifier::loop_isolation(false)]
pub fn find_all_matches(records: &Vec<Record>, queries: Vec<QueryResult>) -> (r: Vec<QueryResult>)
    requires
        forall|i: int| 0 <= i < records@.len() ==> (#[trigger] records@[i]).wf(),
        forall|j: int| 0 <= j < queries@.len() ==> (#[trigger] queries@[j]).wf(),
    ensures
        r@.len() == queries@.len(),
        forall|j: int|
            0 <= j < queries@.len() ==> (#[trigger] r@[j]).original_address
                == queries@[j].original_address,
        forall|j: int|
            0 <= j < queries@.len() ==> (#[trigger] r@[j]).addresses@.len()
                == queries@[j].addresses@.len(),
        forall|j: int, l: int|
            0 <= j < queries@.len() && 0 <= l < queries@[j].addresses@.len() ==> {
                &&& (#[trigger] r@[j].addresses@[l]).address == queries@[j].addresses@[l].address
                &&& views_of(r@[j].addresses@[l].matches@) == views_of(
                    queries@[j].addresses@[l].matches@,
                ) + matches_over(views_of(records@), queries@[j].addresses@[l].address@)
            },
{
    let ghost orig = queries@;
    let mut rest = queries;
    let mut out: Vec<QueryResult> = Vec::new();
    while rest.len() > 0
        invariant
            out@.len() + rest@.len() == orig.len(),
            forall|j: int| 0 <= j < rest@.len() ==> #[trigger] rest@[j] == orig[out@.len() + j],
            forall|j: int|
                0 <= j < out@.len() ==> (#[trigger] out@[j]).original_address
                    == orig[j].original_address && out@[j].addresses@.len()
                    == orig[j].addresses@.len(),
            forall|j: int, l: int|
                0 <= j < out@.len() && 0 <= l < orig[j].addresses@.len() ==> {
                    &&& (#[trigger] out@[j].addresses@[l]).address == orig[j].addresses@[l].address
                    &&& views_of(out@[j].addresses@[l].matches@) == views_of(
                        orig[j].addresses@[l].matches@,
                    ) + matches_over(views_of(records@), orig[j].addresses@[l].address@)
                },
        decreases rest@.len(),
    {
        let ghost k = out@.len();
        let mut q = rest.remove(0);
        assert(q == orig[k as int]);
        let n = records.len();
        for i in 0..n
            invariant
                n == records@.len(),
                q.wf(),
                q.original_address == orig[k as int].original_address,
                q.addresses@.len() == orig[k as int].addresses@.len(),
                forall|l: int|
                    0 <= l < q.addresses@.len() ==> (#[trigger] q.addresses@[l]).address
                        == orig[k as int].addresses@[l].address,
                forall|l: int|
                    0 <= l < q.addresses@.len() ==> views_of(
                        (#[trigger] q.addresses@[l]).matches@,
                    ) == views_of(orig[k as int].addresses@[l].matches@) + matches_over(
                        views_of(records@).take(i as int),
                        orig[k as int].addresses@[l].address@,
                    ),
        {
            proof {
                assert(views_of(records@).take(0) =~= Seq::<crate::record::RecordView>::empty());
                assert(views_of(records@).take(i + 1).drop_last() =~= views_of(records@).take(
                    i as int,
                ));
                assert(views_of(records@).take(i + 1).last() == records@[i as int]@);
            }
            let ghost before = q;
            q = find_matches(&records[i], i, q);
            proof {
                assert forall|l: int| 0 <= l < q.addresses@.len() implies views_of(
                    (#[trigger] q.addresses@[l]).matches@,
                ) == views_of(orig[k as int].addresses@[l].matches@) + matches_over(
                    views_of(records@).take(i + 1),
                    orig[k as int].addresses@[l].address@,
                ) by {
                    assert(views_of(q.addresses@[l].matches@) == views_of(
                        before.addresses@[l].matches@,
                    ) + matches_for(
                        views_of(records@[i as int].addresses@),
                        i as int,
                        before.addresses@[l].address@,
                    ));
                }
            }
        }
        proof {
            assert(views_of(records@).take(n as int) =~= views_of(records@));
        }
        out.push(q);
    }
    out
}

/// Law: every well-formed address of a concrete variant matches itself,
/// with the equality reason of its variant.
pub proof fn lemma_addr_match_reflexive(a: Address)
    requires
        a.wf(),
        !(a@ is Reserved),
    ensures
        spec_addr_match(a@, a@) == Some(
            match a@ {
                AddressView::IPv4(_) => MatchReason::IPv4Equals,
                AddressView::IPv4Network(_) => MatchReason::IPv4NetworkEquals,
                AddressView::DomainName(_) => MatchReason::DomainNameEquals,
                AddressView::WildcardDomainName(_) => MatchReason::WildcardEquals,
                AddressView::URL(_) => MatchReason::URLEquals,
                AddressView::Reserved => MatchReason::IPv4Equals,
            },
        ),
{
}

/// Law: the lone `*` wildcard covers every domain.
pub proof fn lemma_star_matches_every_domain(d: Seq<char>)
    ensures
        spec_wildcard_match(seq!['*'], d),
{
}

/// Law: when one well-formed network properly contains another, the matcher
/// reports the containment with the direction-specific reason, whichever
/// side is the blocked one.
pub proof fn lemma_net_match_nesting(m: crate::ipv4::Ipv4Network, n: crate::ipv4::Ipv4Network)
    requires
        m.wf(),
        n.wf(),
        n.spec_contains_net(m),
        m != n,
    ensures
        spec_addr_match(AddressView::IPv4Network(n), AddressView::IPv4Network(m)) == Some(
            MatchReason::IPv4NetworkInBlockedIPv4Network,
        ),
        spec_addr_match(AddressView::IPv4Network(m), AddressView::IPv4Network(n)) == Some(
            MatchReason::IPv4NetworkContainsBlockedIPv4Network,
        ),
{
    if n.prefix_len == m.prefix_len {
        assert(m.addr.bits & crate::ipv4::net_mask(n.prefix_len) == n.addr.bits);
        assert(m.addr.bits & crate::ipv4::net_mask(m.prefix_len) == m.addr.bits);
        assert(m.addr == n.addr);
        assert(false);
    }
    assert(n.prefix_len < m.prefix_len);
    assert(!m.spec_contains_net(n));
}

} // verus!
