//! Selection of address kinds out of the parsed records, and the output
//! format names of the search command.

use vstd::prelude::*;

use crate::address::AddressView;
use crate::address::render_view;
use crate::record::Record;
use crate::record::RecordView;
use crate::text::views_of;

verus! {

/// Which address variants `select` keeps.
#[derive(Clone, Copy, Debug, PartialEq, Eq, Structural, Hash)]
pub struct SelectOptions {
    pub ipv4: bool,
    pub ipv4_network: bool,
    pub domain: bool,
    pub wildcard_domain: bool,
    pub url: bool,
}

/// Whether the options keep an address of this variant.
pub open spec fn spec_selected(o: SelectOptions, a: AddressView) -> bool {
    match a {
        AddressView::IPv4(_) => o.ipv4,
        AddressView::IPv4Network(_) => o.ipv4_network,
        AddressView::DomainName(_) => o.domain,
        AddressView::WildcardDomainName(_) => o.wildcard_domain,
        AddressView::URL(_) => o.url,
        AddressView::Reserved => false,
    }
}

/// The renderings of the selected addresses of one record, in order.
pub open spec fn sel_addrs_rec(
    o: SelectOptions,
    addrs: Seq<AddressView>,
    i: int,
    done: Seq<Seq<char>>,
) -> Seq<Seq<char>>
    decreases addrs.len() - i,
{
    if i < 0 || i >= addrs.len() {
        done
    } else if spec_selected(o, addrs[i]) {
        sel_addrs_rec(o, addrs, i + 1, done.push(render_view(addrs[i])))
    } else {
        sel_addrs_rec(o, addrs, i + 1, done)
    }
}

/// The renderings of the selected addresses of all records, in
/// record-then-address order.
pub open spec fn sel_records_rec(
    o: SelectOptions,
    records: Seq<RecordView>,
    k: int,
    done: Seq<Seq<char>>,
) -> Seq<Seq<char>>
    decreases records.len() - k,
{
    if k < 0 || k >= records.len() {
        done
    } else {
        sel_records_rec(o, records, k + 1, sel_addrs_rec(o, records[k].addresses, 0, done))
    }
}

/// What `select` prints, one line per selected address.
pub open spec fn spec_select(o: SelectOptions, records: Seq<RecordView>) -> Seq<Seq<char>> {
    sel_records_rec(o, records, 0, Seq::empty())
}

impl SelectOptions {
    /// At least one variant is asked for.
    pub fn any(&self) -> (r: bool)
        ensures
            r == (self.ipv4 || self.ipv4_network || self.domain || self.wildcard_domain
                || self.url),
    {
        self.ipv4 || self.ipv4_network || self.domain || self.wildcard_domain || self.url
    }
}

/// Render the selected addresses of the given records, in order: each
/// record's addresses in record order, keeping the variants the options
/// name.
#[verifier::loop_isolation(false)]
pub fn select(options: &SelectOptions, records: &Vec<Record>) -> (r: Vec<String>)
    requires
        forall|k: int| 0 <= k < records@.len() ==> (#[trigger] records@[k]).wf(),
    ensures
        views_of(r@) == spec_select(*options, views_of(records@)),
{
    let mut out: Vec<String> = Vec::new();
    let n = records.len();
    assert(views_of(out@) =~= Seq::<Seq<char>>::empty());
    for k in 0..n
        invariant
            spec_select(*options, views_of(records@)) == sel_records_rec(
                *options,
                views_of(records@),
                k as int,
                views_of(out@),
            ),
    {
        let rec = &records[k];
        let m = rec.addresses.len();
        for i in 0..m
            invariant
                m == rec.addresses@.len(),
                spec_select(*options, views_of(records@)) == sel_records_rec(
                    *options,
                    views_of(records@),
                    k + 1,
                    sel_addrs_rec(
                        *options,
                        views_of(records@)[k as int].addresses,
                        i as int,
                        views_of(out@),
                    ),
                ),
        {
            let a = &rec.addresses[i];
            let keep = match a {
                crate::address::Address::IPv4(_) => options.ipv4,
                crate::address::Address::IPv4Network(_) => options.ipv4_network,
                crate::address::Address::DomainName(_) => options.domain,
                crate::address::Address::WildcardDomainName(_) => options.wildcard_domain,
                crate::address::Address::URL(_) => options.url,
                crate::address::Address::__NonExhaustive => false,
            };
            assert(keep == spec_selected(*options, views_of(records@)[k as int].addresses[i as int]));
            if keep {
                let s = a.render();
                proof {
                    crate::text::lemma_views_of_push(out@, s);
                }
                out.push(s);
            }
        }
    }
    out
}

/// How `search` writes its results.
#[derive(Clone, Copy, Debug, PartialEq, Eq, Structural, Hash)]
pub enum OutputFormat {
    HumanReadable,
    PrettyJSON,
    JSON,
}

/// A string could not be read as an output format name.
#[derive(Clone, Copy, Debug, PartialEq, Eq, Structural, Hash)]
pub struct OutputFormatError;

impl OutputFormat {
    /// The accepted format names, in the order the formats are declared.
    pub fn variants() -> (r: Vec<&'static str>)
        ensures
            r@.len() == 3,
            r@[0]@ == "human-readable"@,
            r@[1]@ == "pretty-json"@,
            r@[2]@ == "json"@,
    {
        let mut r: Vec<&'static str> = Vec::new();
        r.push("human-readable");
        r.push("pretty-json");
        r.push("json");
        r
    }

    /// The name of this format.
    pub fn as_str(&self) -> (r: &'static str)
        ensures
            r@ == (match *self {
                OutputFormat::HumanReadable => "human-readable"@,
                OutputFormat::PrettyJSON => "pretty-json"@,
                OutputFormat::JSON => "json"@,
            }),
    {
        match self {
            OutputFormat::HumanReadable => "human-readable",
            OutputFormat::PrettyJSON => "pretty-json",
            OutputFormat::JSON => "json",
        }
    }

    /// The format a name denotes: exactly the three names of `variants`.
    pub fn from_name(name: &str) -> (r: Result<OutputFormat, OutputFormatError>)
        ensures
            r == (if name@ == "human-readable"@ {
                Ok::<OutputFormat, OutputFormatError>(OutputFormat::HumanReadable)
            } else if name@ == "pretty-json"@ {
                Ok::<OutputFormat, OutputFormatError>(OutputFormat::PrettyJSON)
            } else if name@ == "json"@ {
                Ok::<OutputFormat, OutputFormatError>(OutputFormat::JSON)
            } else {
                Err::<OutputFormat, OutputFormatError>(OutputFormatError)
            }),
    {
        if crate::text::str_eq(name, "human-readable") {
            Ok(OutputFormat::HumanReadable)
        } else if crate::text::str_eq(name, "pretty-json") {
            Ok(OutputFormat::PrettyJSON)
        } else if crate::text::str_eq(name, "json") {
            Ok(OutputFormat::JSON)
        } else {
            Err(OutputFormatError)
        }
    }
}

impl core::str::FromStr for OutputFormat {
    type Err = OutputFormatError;

    fn from_str(name: &str) -> Result<OutputFormat, OutputFormatError> {
        OutputFormat::from_name(name)
    }
}

} // verus!
