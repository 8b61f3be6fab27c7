//! The five address variants of the block list and their string forms:
//! classification of a user-supplied string into a variant, and canonical
//! rendering. Domain canonicalization and URL parsing are done by the
//! `idna` and `url` crates behind trusted wrappers.

use vstd::prelude::*;

use crate::ipv4::Ipv4Address;
use crate::ipv4::Ipv4Network;
use crate::ipv4::ipv4_chars;
use crate::ipv4::net_chars;
use crate::ipv4::spec_parse_ipv4;
use crate::ipv4::spec_parse_net;
use crate::text::chars_of;
use crate::text::string_from_chars;

verus! {

/// The host part of a parsed URL.
#[derive(Debug, PartialEq, Eq, Hash, PartialOrd, Ord)]
pub enum UrlHost {
    /// A registered name, as it appears in the canonical URL.
    Domain(String),
    /// An IPv4 address literal.
    Ipv4(Ipv4Address),
    /// An IPv6 address literal (not otherwise supported by this crate).
    Ipv6,
    /// The URL has no host.
    NoHost,
}

/// An absolute URL, kept in its canonical serialized form together with the
/// host that the URL parser extracted from it.
#[derive(Debug, PartialEq, Eq, Hash, PartialOrd, Ord)]
pub struct UrlAddress {
    pub text: String,
    pub host: UrlHost,
}

/// Spec-level image of `UrlHost`.
pub enum HostView {
    Domain(Seq<char>),
    Ipv4(Ipv4Address),
    Ipv6,
    NoHost,
}

/// Spec-level image of `UrlAddress`.
pub struct UrlView {
    pub text: Seq<char>,
    pub host: HostView,
}

impl View for UrlHost {
    type V = HostView;

    open spec fn view(&self) -> HostView {
        match self {
            UrlHost::Domain(d) => HostView::Domain(d@),
            UrlHost::Ipv4(ip) => HostView::Ipv4(*ip),
            UrlHost::Ipv6 => HostView::Ipv6,
            UrlHost::NoHost => HostView::NoHost,
        }
    }
}

impl View for UrlAddress {
    type V = UrlView;

    open spec fn view(&self) -> UrlView {
        UrlView { text: self.text@, host: self.host@ }
    }
}

/// Internet address blocked by the list.
#[derive(Debug, PartialEq, Eq, Hash, PartialOrd, Ord)]
pub enum Address {
    /// Blocked by IPv4 address.
    IPv4(Ipv4Address),
    /// Blocked by IPv4 subnet.
    IPv4Network(Ipv4Network),
    /// Blocked by domain name: lowercase, IDNA-ASCII (Punycode if needed).
    DomainName(String),
    /// Blocked by wildcard domain name: `*` or `*.` followed by a domain.
    WildcardDomainName(String),
    /// Blocked by URL, in canonical serialized form.
    URL(UrlAddress),
    /// This enum may be extended; match it with a catch-all `_` arm.
    __NonExhaustive,
}

/// Spec-level image of `Address`.
pub enum AddressView {
    IPv4(Ipv4Address),
    IPv4Network(Ipv4Network),
    DomainName(Seq<char>),
    WildcardDomainName(Seq<char>),
    URL(UrlView),
    Reserved,
}

impl View for Address {
    type V = AddressView;

    open spec fn view(&self) -> AddressView {
        match self {
            Address::IPv4(ip) => AddressView::IPv4(*ip),
            Address::IPv4Network(n) => AddressView::IPv4Network(*n),
            Address::DomainName(d) => AddressView::DomainName(d@),
            Address::WildcardDomainName(w) => AddressView::WildcardDomainName(w@),
            Address::URL(u) => AddressView::URL(u@),
            Address::__NonExhaustive => AddressView::Reserved,
        }
    }
}

/// The variant tag of an address.
#[derive(Clone, Copy, Debug, PartialEq, Eq, Structural, Hash)]
pub enum AddressKind {
    IPv4,
    IPv4Network,
    DomainName,
    WildcardDomainName,
    URL,
    Reserved,
}

/// Failure to classify a string as any address variant.
#[derive(Clone, Copy, Debug, PartialEq, Eq, Structural, Hash)]
pub struct AddressError;

/// What `idna::domain_to_ascii` returns: the UTS-46 ASCII form of a domain
/// (lowercased, Punycode-encoded), or nothing when the mapping fails. It
/// depends on the input characters alone.
pub uninterp spec fn idna_of(s: Seq<char>) -> Option<Seq<char>>;

/// What `url::Url::parse` followed by serialization returns: the canonical
/// text of the URL, or nothing when parsing fails. It depends on the input
/// characters alone.
pub uninterp spec fn url_canon(s: Seq<char>) -> Option<Seq<char>>;

/// What `url::Url::host` returns for a URL with the given canonical text.
pub uninterp spec fn url_host_of(text: Seq<char>) -> HostView;

/// Relies on `idna::domain_to_ascii`: the UTS-46 "domain to ASCII" mapping
/// with no ASCII deny list, a pure function of the input string.
#[verifier::external_body]
fn idna_ascii(s: &str) -> (r: Option<String>)
    ensures
        r is Some <==> idna_of(s@) is Some,
        r matches Some(t) ==> Some(t@) == idna_of(s@),
{
    idna::domain_to_ascii(s).ok()
}

/// Relies on `url::Url::parse`, `Url::host` and the `String` conversion of
/// `Url`: parsing either fails or yields a URL whose canonical text and host
/// depend on the input alone. A string with no `:` has no scheme, and an
/// absolute URL without a scheme never parses.
#[verifier::external_body]
pub(crate) fn url_parse_raw(s: &str) -> (r: Option<UrlAddress>)
    ensures
        r is Some <==> url_canon(s@) is Some,
        r matches Some(u) ==> Some(u.text@) == url_canon(s@) && u.host@ == url_host_of(u.text@),
        (forall|j: int| 0 <= j < s@.len() ==> s@[j] != ':') ==> r is None,
{
    match url::Url::parse(s) {
        Ok(u) => {
            let host = match u.host() {
                Some(url::Host::Domain(d)) => UrlHost::Domain(d.to_string()),
                Some(url::Host::Ipv4(a)) => UrlHost::Ipv4(Ipv4Address { bits: u32::from_be_bytes(a.octets()) }),
                Some(url::Host::Ipv6(_)) => UrlHost::Ipv6,
                None => UrlHost::NoHost,
            };
            Some(UrlAddress { text: String::from(u), host })
        },
        Err(_) => None,
    }
}

/// `*` alone, or `*.` followed by anything.
pub open spec fn is_wildcard_shape(s: Seq<char>) -> bool {
    s == seq!['*'] || (s.len() >= 2 && s[0] == '*' && s[1] == '.')
}

pub open spec fn has_char(s: Seq<char>, c: char) -> bool {
    exists|j: int| 0 <= j < s.len() && s[j] == c
}

/// A bare domain accepted by this crate: non-empty, no wildcard characters,
/// and mapped by IDNA.
pub open spec fn spec_domain_ok(s: Seq<char>) -> bool {
    s.len() > 0 && !has_char(s, '*') && idna_of(s) is Some
}

/// Classification of a string into an address variant, trying the variants
/// in fixed order: IPv4 literal, IPv4 network, URL, wildcard domain, domain.
pub open spec fn spec_parse_address(s: Seq<char>) -> Option<AddressView> {
    if spec_parse_ipv4(s) is Some {
        Some(AddressView::IPv4(Ipv4Address { bits: spec_parse_ipv4(s)->0 }))
    } else if spec_parse_net(s) is Some {
        Some(AddressView::IPv4Network(spec_parse_net(s)->0))
    } else if url_canon(s) is Some {
        Some(
            AddressView::URL(
                UrlView { text: url_canon(s)->0, host: url_host_of(url_canon(s)->0) },
            ),
        )
    } else if is_wildcard_shape(s) && idna_of(s) is Some {
        Some(AddressView::WildcardDomainName(idna_of(s)->0))
    } else if spec_domain_ok(s) {
        Some(AddressView::DomainName(idna_of(s)->0))
    } else {
        None
    }
}

/// Canonical string form of an address.
pub open spec fn render_view(a: AddressView) -> Seq<char> {
    match a {
        AddressView::IPv4(ip) => ipv4_chars(ip.bits),
        AddressView::IPv4Network(n) => net_chars(n),
        AddressView::DomainName(d) => d,
        AddressView::WildcardDomainName(w) => w,
        AddressView::URL(u) => u.text,
        AddressView::Reserved => Seq::empty(),
    }
}

impl Address {
    /// Which variants are well-formed: network addresses have host bits zero.
    pub open spec fn wf(&self) -> bool {
        match self {
            Address::IPv4Network(n) => n.wf(),
            _ => true,
        }
    }

    /// Parse a string as an IPv4 address literal.
    pub fn ipv4_from_str(address: &str) -> (r: Result<Address, AddressError>)
        ensures
            r is Ok <==> spec_parse_ipv4(address@) is Some,
            r matches Ok(a) ==> a@ == AddressView::IPv4(
                Ipv4Address { bits: spec_parse_ipv4(address@)->0 },
            ) && a.wf(),
    {
        let cs = chars_of(address);
        match crate::ipv4::parse_ipv4(&cs) {
            Some(ip) => Ok(Address::IPv4(ip)),
            None => Err(AddressError),
        }
    }

    /// Parse a string as an IPv4 CIDR network, normalizing to the network
    /// address.
    pub fn ipv4_network_from_str(address: &str) -> (r: Result<Address, AddressError>)
        ensures
            r is Ok <==> spec_parse_net(address@) is Some,
            r matches Ok(a) ==> a@ == AddressView::IPv4Network(spec_parse_net(address@)->0)
                && a.wf(),
    {
        let cs = chars_of(address);
        match crate::ipv4::parse_net(&cs) {
            Some(n) => Ok(Address::IPv4Network(n)),
            None => Err(AddressError),
        }
    }

    /// Parse a string as a bare domain name, canonicalizing through IDNA.
    /// Wildcard characters are not accepted in this variant.
    pub fn domain_name_from_str(address: &str) -> (r: Result<Address, AddressError>)
        ensures
            r is Ok <==> spec_domain_ok(address@),
            r matches Ok(a) ==> a@ == AddressView::DomainName(idna_of(address@)->0) && a.wf(),
    {
        let cs = chars_of(address);
        if cs.len() == 0 {
            return Err(AddressError);
        }
        let star = crate::text::find_char(&cs, '*');
        proof {
            crate::text::lemma_first_occ(cs@, '*');
        }
        if star.is_some() {
            return Err(AddressError);
        }
        match idna_ascii(address) {
            Some(t) => Ok(Address::DomainName(t)),
            None => Err(AddressError),
        }
    }

    /// Parse a string as a wildcard domain name (`*` or `*.domain`),
    /// canonicalizing through IDNA.
    pub fn wildcard_domain_name_from_str(address: &str) -> (r: Result<Address, AddressError>)
        ensures
            r is Ok <==> is_wildcard_shape(address@) && idna_of(address@) is Some,
            r matches Ok(a) ==> a@ == AddressView::WildcardDomainName(idna_of(address@)->0)
                && a.wf(),
    {
        let cs = chars_of(address);
        let shape_ok = if cs.len() == 1 {
            let ok = cs[0] == '*';
            proof {
                if ok {
                    assert(cs@ =~= seq!['*']);
                }
            }
            ok
        } else {
            cs.len() >= 2 && cs[0] == '*' && cs[1] == '.'
        };
        if !shape_ok {
            return Err(AddressError);
        }
        match idna_ascii(address) {
            Some(t) => Ok(Address::WildcardDomainName(t)),
            None => Err(AddressError),
        }
    }

    /// Parse a string as an absolute URL, keeping its canonical form.
    pub fn url_from_str(address: &str) -> (r: Result<Address, AddressError>)
        ensures
            r is Ok <==> url_canon(address@) is Some,
            r matches Ok(a) ==> a@ == AddressView::URL(
                UrlView {
                    text: url_canon(address@)->0,
                    host: url_host_of(url_canon(address@)->0),
                },
            ) && a.wf(),
    {
        match url_parse_raw(address) {
            Some(u) => Ok(Address::URL(u)),
            None => Err(AddressError),
        }
    }

    /// Parse a string by trying the variants in fixed order: IPv4 literal,
    /// IPv4 network, URL, wildcard domain, bare domain.
    pub fn parse(address: &str) -> (r: Result<Address, AddressError>)
        ensures
            r is Ok <==> spec_parse_address(address@) is Some,
            r matches Ok(a) ==> Some(a@) == spec_parse_address(address@) && a.wf(),
    {
        match Self::ipv4_from_str(address) {
            Ok(a) => {
                return Ok(a);
            },
            Err(_) => {},
        }
        match Self::ipv4_network_from_str(address) {
            Ok(a) => {
                return Ok(a);
            },
            Err(_) => {},
        }
        match Self::url_from_str(address) {
            Ok(a) => {
                return Ok(a);
            },
            Err(_) => {},
        }
        match Self::wildcard_domain_name_from_str(address) {
            Ok(a) => {
                return Ok(a);
            },
            Err(_) => {},
        }
        match Self::domain_name_from_str(address) {
            Ok(a) => {
                return Ok(a);
            },
            Err(_) => Err(AddressError),
        }
    }

    /// Canonical string form.
    pub fn render(&self) -> (r: String)
        requires
            !(self@ is Reserved),
            self.wf(),
        ensures
            r@ == render_view(self@),
    {
        match self {
            Address::IPv4(ip) => {
                let cs = crate::ipv4::ipv4_to_chars(ip);
                string_from_chars(cs.as_slice())
            },
            Address::IPv4Network(n) => {
                let cs = crate::ipv4::net_to_chars(n);
                string_from_chars(cs.as_slice())
            },
            Address::DomainName(d) => d.clone(),
            Address::WildcardDomainName(w) => w.clone(),
            Address::URL(u) => u.text.clone(),
            Address::__NonExhaustive => {
                proof {
                    assert(false);
                }
                String::new()
            },
        }
    }

    /// The variant tag.
    pub fn kind(&self) -> (r: AddressKind)
        ensures
            r == (match self@ {
                AddressView::IPv4(_) => AddressKind::IPv4,
                AddressView::IPv4Network(_) => AddressKind::IPv4Network,
                AddressView::DomainName(_) => AddressKind::DomainName,
                AddressView::WildcardDomainName(_) => AddressKind::WildcardDomainName,
                AddressView::URL(_) => AddressKind::URL,
                AddressView::Reserved => AddressKind::Reserved,
            }),
    {
        match self {
            Address::IPv4(_) => AddressKind::IPv4,
            Address::IPv4Network(_) => AddressKind::IPv4Network,
            Address::DomainName(_) => AddressKind::DomainName,
            Address::WildcardDomainName(_) => AddressKind::WildcardDomainName,
            Address::URL(_) => AddressKind::URL,
            Address::__NonExhaustive => AddressKind::Reserved,
        }
    }
}

impl core::str::FromStr for Address {
    type Err = AddressError;

    fn from_str(address: &str) -> Result<Address, AddressError> {
        Address::parse(address)
    }
}

impl Clone for UrlHost {
    fn clone(&self) -> (r: Self)
        ensures
            r == *self,
    {
        match self {
            UrlHost::Domain(d) => UrlHost::Domain(d.clone()),
            UrlHost::Ipv4(ip) => UrlHost::Ipv4(*ip),
            UrlHost::Ipv6 => UrlHost::Ipv6,
            UrlHost::NoHost => UrlHost::NoHost,
        }
    }
}

impl Clone for UrlAddress {
    fn clone(&self) -> (r: Self)
        ensures
            r == *self,
    {
        UrlAddress { text: self.text.clone(), host: self.host.clone() }
    }
}

impl Clone for Address {
    fn clone(&self) -> (r: Self)
        ensures
            r == *self,
    {
        match self {
            Address::IPv4(ip) => Address::IPv4(*ip),
            Address::IPv4Network(n) => Address::IPv4Network(*n),
            Address::DomainName(d) => Address::DomainName(d.clone()),
            Address::WildcardDomainName(w) => Address::WildcardDomainName(w.clone()),
            Address::URL(u) => Address::URL(u.clone()),
            Address::__NonExhaustive => Address::__NonExhaustive,
        }
    }
}

/// A token whose first character is not a digit is neither an IPv4 literal
/// nor the start of one.
proof fn lemma_nondigit_head_ipv4_fails(s: Seq<char>)
    requires
        s.len() == 0 || !crate::ipv4::is_digit(s[0]),
    ensures
        spec_parse_ipv4(s) is None,
{
    crate::text::lemma_first_occ(s, '.');
    let parts = crate::text::split_char(s, '.');
    if parts.len() == 4 {
        match crate::text::first_occ(s, '.') {
            None => {
                assert(parts.len() == 1);
            },
            Some(i) => {
                assert(parts[0] == s.take(i));
                if i == 0 {
                    assert(s.take(0).len() == 0);
                    assert(crate::ipv4::spec_parse_octet(parts[0]) is None);
                } else {
                    assert(s.take(i)[0] == s[0]);
                    assert(crate::ipv4::spec_parse_octet(parts[0]) is None);
                }
            },
        }
    }
}

/// A token whose first character is not a digit is not a CIDR network
/// either.
proof fn lemma_nondigit_head_net_fails(s: Seq<char>)
    requires
        s.len() == 0 || !crate::ipv4::is_digit(s[0]),
    ensures
        spec_parse_net(s) is None,
{
    crate::text::lemma_first_occ(s, '/');
    let parts = crate::text::split_char(s, '/');
    if parts.len() == 2 {
        match crate::text::first_occ(s, '/') {
            None => {
                assert(parts.len() == 1);
            },
            Some(i) => {
                assert(parts[0] == s.take(i));
                if i == 0 {
                    lemma_nondigit_head_ipv4_fails(s.take(0));
                } else {
                    assert(s.take(i)[0] == s[0]);
                    lemma_nondigit_head_ipv4_fails(s.take(i));
                }
            },
        }
    }
}

/// Splitting on `d` keeps every other character inside some part.
proof fn lemma_split_preserves_char(s: Seq<char>, d: char, c: char)
    requires
        c != d,
        has_char(s, c),
    ensures
        exists|k: int|
            0 <= k < crate::text::split_char(s, d).len() && has_char(
                #[trigger] crate::text::split_char(s, d)[k],
                c,
            ),
    decreases s.len(),
{
    crate::text::lemma_first_occ(s, d);
    let parts = crate::text::split_char(s, d);
    let j = choose|j: int| 0 <= j < s.len() && s[j] == c;
    match crate::text::first_occ(s, d) {
        None => {
            assert(parts[0] == s);
            assert(has_char(parts[0], c));
        },
        Some(i) => {
            assert(s[i] == d);
            if j < i {
                assert(parts[0] == s.take(i));
                assert(s.take(i)[j] == s[j]);
                assert(has_char(parts[0], c));
            } else {
                assert(j != i);
                let rest = s.skip(i + 1);
                assert(rest[j - i - 1] == s[j]);
                assert(has_char(rest, c));
                lemma_split_preserves_char(rest, d, c);
                let k = choose|k: int|
                    0 <= k < crate::text::split_char(rest, d).len() && has_char(
                        #[trigger] crate::text::split_char(rest, d)[k],
                        c,
                    );
                assert(parts[k + 1] == crate::text::split_char(rest, d)[k]);
                assert(has_char(parts[k + 1], c));
            }
        },
    }
}

/// A token holding a character that is neither a digit nor a dot is not an
/// IPv4 literal.
proof fn lemma_ipv4_fails_with_char(s: Seq<char>, c: char)
    requires
        has_char(s, c),
        !crate::ipv4::is_digit(c),
        c != '.',
    ensures
        spec_parse_ipv4(s) is None,
{
    let parts = crate::text::split_char(s, '.');
    lemma_split_preserves_char(s, '.', c);
    let k = choose|k: int| 0 <= k < parts.len() && has_char(#[trigger] parts[k], c);
    if parts.len() == 4 {
        let p = parts[k];
        let j = choose|j: int| 0 <= j < p.len() && p[j] == c;
        assert(crate::ipv4::spec_parse_octet(p) is None);
    }
}

/// Law: for every well-formed non-URL address, parsing the canonical
/// rendering gives the address back. For the domain and wildcard variants
/// the stored string must be its own IDNA form (the canonical-form
/// invariant of those variants) and must not also read as one of the
/// variants tried earlier in the parse order.
pub proof fn lemma_parse_render_round_trip(a: Address)
    requires
        a.wf(),
        (match a@ {
            AddressView::IPv4(_) => true,
            AddressView::IPv4Network(_) => true,
            AddressView::DomainName(d) => d.len() > 0 && !has_char(d, '*') && idna_of(d) == Some(d)
                && spec_parse_ipv4(d) is None && spec_parse_net(d) is None && url_canon(d) is None,
            AddressView::WildcardDomainName(w) => is_wildcard_shape(w) && idna_of(w) == Some(w)
                && url_canon(w) is None,
            AddressView::URL(_) => false,
            AddressView::Reserved => false,
        }),
    ensures
        spec_parse_address(render_view(a@)) == Some(a@),
{
    match a@ {
        AddressView::IPv4(ip) => {
            crate::ipv4::lemma_ipv4_round(ip.bits);
        },
        AddressView::IPv4Network(n) => {
            let r = render_view(a@);
            assert(r == net_chars(n));
            assert(r[ipv4_chars(n.addr.bits).len() as int] == '/');
            assert(has_char(r, '/'));
            assert(!crate::ipv4::is_digit('/'));
            lemma_ipv4_fails_with_char(r, '/');
            crate::ipv4::lemma_net_round(n);
        },
        AddressView::DomainName(d) => {
            if is_wildcard_shape(d) {
                if d == seq!['*'] {
                    assert(d[0] == '*');
                } else {
                    assert(d[0] == '*');
                }
                assert(has_char(d, '*'));
                assert(false);
            }
        },
        AddressView::WildcardDomainName(w) => {
            if w == seq!['*'] {
                assert(w[0] == '*');
            }
            assert(w.len() > 0 && w[0] == '*');
            assert(!crate::ipv4::is_digit('*'));
            lemma_nondigit_head_ipv4_fails(w);
            lemma_nondigit_head_net_fails(w);
        },
        AddressView::URL(_) => {},
        AddressView::Reserved => {},
    }
}

/// Law: when a string parses as a URL, its rendering is exactly the URL
/// canonicalization of the input.
pub proof fn lemma_url_render_canonical(s: Seq<char>)
    requires
        spec_parse_ipv4(s) is None,
        spec_parse_net(s) is None,
        url_canon(s) is Some,
    ensures
        spec_parse_address(s) is Some,
        render_view(spec_parse_address(s)->0) == url_canon(s)->0,
{
}

/// Law: classification is determined by the IDNA image for domain-shaped
/// strings. Two strings that neither read as an IPv4 literal, network or
/// URL, have no wildcard characters, and canonicalize to the same IDNA
/// form parse to the same domain address; case-folding and Punycode
/// equivalence of domain spellings live inside the canonicalization.
pub proof fn lemma_domain_parse_idna_determined(s: Seq<char>, t: Seq<char>)
    requires
        spec_parse_ipv4(s) is None,
        spec_parse_net(s) is None,
        url_canon(s) is None,
        spec_domain_ok(s),
        spec_parse_ipv4(t) is None,
        spec_parse_net(t) is None,
        url_canon(t) is None,
        spec_domain_ok(t),
        idna_of(s) == idna_of(t),
    ensures
        spec_parse_address(s) == spec_parse_address(t),
        spec_parse_address(s) == Some(AddressView::DomainName(idna_of(s)->0)),
{
    if is_wildcard_shape(s) {
        if s == seq!['*'] {
            assert(s[0] == '*');
        }
        assert(has_char(s, '*'));
        assert(false);
    }
    if is_wildcard_shape(t) {
        if t == seq!['*'] {
            assert(t[0] == '*');
        }
        assert(has_char(t, '*'));
        assert(false);
    }
}

} // verus!
