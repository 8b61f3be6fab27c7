//! Parser and matcher for the Zapret-Info block list: a semicolon-separated
//! dump of blocked Internet addresses, with a timestamp header, five kinds of
//! address (IPv4 literal, IPv4 network, domain, wildcard domain, URL), and a
//! matcher that explains why a user-supplied address is covered by the list.

pub mod address;
pub mod codepage;
pub mod date;
pub mod expand;
pub mod ipv4;
pub mod matching;
pub mod output;
pub mod reader;
pub mod record;
pub mod select;
pub mod text;

pub use address::Address;
pub use address::AddressError;
pub use address::AddressKind;
pub use address::UrlAddress;
pub use address::UrlHost;

pub use date::Date;
pub use date::DateTime;

pub use expand::ExpandError;
pub use expand::NullResolver;
pub use expand::ResolveError;
pub use expand::Resolver;
pub use expand::domain_answer_items;
pub use expand::extract_all_info;
pub use expand::extract_more_info;

pub use matching::Match;
pub use matching::MatchReason;
pub use matching::QueryResult;
pub use matching::SubAddressWithMatches;
pub use matching::addr_match;
pub use matching::find_all_matches;
pub use matching::find_matches;
pub use matching::match_wildcard_domain;
pub use matching::matches_of_record;

pub use output::format_search_results;

pub use reader::HeaderError;
pub use reader::Reader;
pub use reader::RecordError;
pub use reader::RecordErrorKind;

pub use record::Record;

pub use select::OutputFormat;
pub use select::OutputFormatError;
pub use select::SelectOptions;
pub use select::select;

pub use ipv4::Ipv4Address;
pub use ipv4::Ipv4Network;
