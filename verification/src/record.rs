//! One row of the block list: the blocked addresses together with the
//! organization, document id and document date that ordered the blocking.

use vstd::prelude::*;

use crate::address::Address;
use crate::address::AddressView;
use crate::address::render_view;
use crate::date::Date;
use crate::date::date_chars;
use crate::text::views_of;

verus! {

/// One record of the dump.
#[derive(Debug, PartialEq, Eq, Hash, PartialOrd, Ord)]
pub struct Record {
    /// Blocked addresses, in column-then-token order.
    pub addresses: Vec<Address>,
    /// Name of the organization that requested blocking.
    pub organization: String,
    /// ID of the official document.
    pub document_id: String,
    /// Date of the official document.
    pub document_date: Date,
}

/// Spec-level image of `Record`.
pub struct RecordView {
    pub addresses: Seq<AddressView>,
    pub organization: Seq<char>,
    pub document_id: Seq<char>,
    pub document_date: Date,
}

impl View for Record {
    type V = RecordView;

    open spec fn view(&self) -> RecordView {
        RecordView {
            addresses: views_of(self.addresses@),
            organization: self.organization@,
            document_id: self.document_id@,
            document_date: self.document_date,
        }
    }
}

impl Record {
    /// Every address is well-formed and none is the reserved variant.
    pub open spec fn wf(&self) -> bool {
        forall|i: int|
            0 <= i < self.addresses@.len() ==> (#[trigger] self.addresses@[i]).wf() && !(
            self.addresses@[i]@ is Reserved)
    }
}

/// Clone a list of addresses element by element.
pub fn clone_addresses(v: &Vec<Address>) -> (r: Vec<Address>)
    ensures
        r@ == v@,
{
    let mut r: Vec<Address> = Vec::new();
    let n = v.len();
    for i in 0..n
        invariant
            n == v@.len(),
            r@ == v@.subrange(0, i as int),
    {
        r.push(v[i].clone());
        assert(v@.subrange(0, i + 1) =~= v@.subrange(0, i as int).push(v@[i as int]));
    }
    assert(v@.subrange(0, n as int) =~= v@);
    r
}

impl Clone for Record {
    fn clone(&self) -> (r: Self)
        ensures
            r@ == self@,
            r.addresses@ == self.addresses@,
            r.organization == self.organization,
            r.document_id == self.document_id,
            r.document_date == self.document_date,
    {
        let r = Record {
            addresses: clone_addresses(&self.addresses),
            organization: self.organization.clone(),
            document_id: self.document_id.clone(),
            document_date: self.document_date,
        };
        proof {
            assert(r.addresses@ =~= self.addresses@);
        }
        r
    }
}

impl Default for Record {
    /// An empty record dated at the epoch.
    fn default() -> (r: Self)
        ensures
            r@.addresses.len() == 0,
            r@.organization.len() == 0,
            r@.document_id.len() == 0,
            r@.document_date == (Date { year: 1970, month: 1, day: 1 }),
    {
        let r = Record {
            addresses: Vec::new(),
            organization: String::new(),
            document_id: String::new(),
            document_date: Date { year: 1970, month: 1, day: 1 },
        };
        proof {
            assert(views_of(r.addresses@) =~= Seq::<AddressView>::empty());
        }
        r
    }
}

/// The addresses of a record rendered one after another, separated by
/// a comma and a space.
pub open spec fn rendered_addresses(addrs: Seq<AddressView>) -> Seq<char>
    decreases addrs.len(),
{
    if addrs.len() == 0 {
        Seq::empty()
    } else if addrs.len() == 1 {
        render_view(addrs[0])
    } else {
        rendered_addresses(addrs.drop_last()) + ", "@ + render_view(addrs.last())
    }
}

/// The one-line display form of a record:
/// `addr, addr ("org", "id"/YYYY-MM-DD)` with the address list and its
/// trailing space absent when the record has no addresses.
pub open spec fn record_display(r: RecordView) -> Seq<char> {
    let tail = "(\""@ + r.organization + "\", \""@ + r.document_id + "\"/"@ + date_chars(
        r.document_date,
    ) + ")"@;
    if r.addresses.len() == 0 {
        tail
    } else {
        rendered_addresses(r.addresses) + " "@ + tail
    }
}

impl Record {
    /// Render the record on one line for human-readable output.
    pub fn display_string(&self) -> (r: String)
        requires
            self.wf(),
            self.document_date.wf(),
        ensures
            r@ == record_display(self@),
    {
        let mut s = String::new();
        let n = self.addresses.len();
        if n > 0 {
            let first = self.addresses[0].render();
            s.append(first.as_str());
            assert(s@ =~= rendered_addresses(self@.addresses.subrange(0, 1)));
            for i in 1..n
                invariant
                    n == self.addresses@.len(),
                    self.wf(),
                    s@ == rendered_addresses(self@.addresses.subrange(0, i as int)),
            {
                s.append(", ");
                let next = self.addresses[i].render();
                s.append(next.as_str());
                proof {
                    let sub = self@.addresses.subrange(0, i + 1);
                    assert(sub.drop_last() =~= self@.addresses.subrange(0, i as int));
                    assert(sub.last() == self@.addresses[i as int]);
                }
            }
            assert(self@.addresses.subrange(0, n as int) =~= self@.addresses);
            s.append(" ");
        }
        s.append("(\"");
        s.append(self.organization.as_str());
        s.append("\", \"");
        s.append(self.document_id.as_str());
        s.append("\"/");
        let date = crate::date::date_to_chars(&self.document_date);
        let date_str = crate::text::string_from_chars(date.as_slice());
        s.append(date_str.as_str());
        s.append(")");
        s
    }
}

} // verus!
