//! The human-readable search report: one block per query, one indented
//! block per sub-address (`not found`, or `blocked` with one entry per
//! match naming the reason, the blocked address, and the blocking record's
//! organization, document id and document date), blank lines between
//! siblings.

use vstd::prelude::*;

use crate::address::render_view;
use crate::date::date_chars;
use crate::matching::MatchView;
use crate::matching::QueryResult;
use crate::matching::QueryView;
use crate::matching::SubView;
use crate::matching::reason_phrase;
use crate::record::Record;
use crate::record::RecordView;
use crate::text::views_of;

verus! {

/// The four lines of one match entry.
pub open spec fn match_text(records: Seq<RecordView>, m: MatchView) -> Seq<char> {
    let rec = records[m.block_record_index];
    "        "@ + reason_phrase(m.match_reason) + ":\n"@ + "            Blocked: "@
        + render_view(m.blocked_address) + "\n"@ + "            Organization: "@
        + rec.organization + "\n"@ + "            Document ID: "@ + rec.document_id + "\n"@
        + "            Document date: "@ + date_chars(rec.document_date) + "\n"@
}

/// The match entries of one sub-address, appended in order.
pub open spec fn matches_text(
    records: Seq<RecordView>,
    ms: Seq<MatchView>,
    k: int,
    acc: Seq<char>,
) -> Seq<char>
    decreases ms.len() - k,
{
    if k < 0 || k >= ms.len() {
        acc
    } else {
        matches_text(records, ms, k + 1, acc + match_text(records, ms[k]))
    }
}

/// The blocks of one query's sub-addresses, blank lines between them.
pub open spec fn subs_text(
    records: Seq<RecordView>,
    subs: Seq<SubView>,
    l: int,
    acc: Seq<char>,
) -> Seq<char>
    decreases subs.len() - l,
{
    if l < 0 || l >= subs.len() {
        acc
    } else {
        let head = if l > 0 {
            acc + "\n"@
        } else {
            acc
        };
        let block = if subs[l].matches.len() == 0 {
            head + "    "@ + render_view(subs[l].address) + ": not found\n"@
        } else {
            matches_text(
                records,
                subs[l].matches,
                0,
                head + "    "@ + render_view(subs[l].address) + ": blocked\n"@,
            )
        };
        subs_text(records, subs, l + 1, block)
    }
}

/// The blocks of all queries, blank lines between them.
pub open spec fn queries_text(
    records: Seq<RecordView>,
    qs: Seq<QueryView>,
    j: int,
    acc: Seq<char>,
) -> Seq<char>
    decreases qs.len() - j,
{
    if j < 0 || j >= qs.len() {
        acc
    } else {
        let head = if j > 0 {
            acc + "\n"@
        } else {
            acc
        };
        queries_text(
            records,
            qs,
            j + 1,
            subs_text(records, qs[j].addresses, 0, head + qs[j].original_address + ":\n"@),
        )
    }
}

/// The whole human-readable report.
pub open spec fn spec_search_report(records: Seq<RecordView>, qs: Seq<QueryView>) -> Seq<char> {
    queries_text(records, qs, 0, Seq::empty())
}

/// Append the four lines of one match entry.
#[verifier::rlimit(30)]
fn append_match_entry(s: &mut String, records: &Vec<Record>, m: &crate::matching::Match)
    requires
        (m.block_record_index as int) < records@.len(),
        records@[m.block_record_index as int].wf(),
        records@[m.block_record_index as int].document_date.wf(),
        m.blocked_address.wf(),
        !(m.blocked_address@ is Reserved),
    ensures
        final(s)@ == old(s)@ + match_text(views_of(records@), m@),
{
    let record = &records[m.block_record_index];
    proof {
        assert(views_of(records@)[m.block_record_index as int] == records@[m.block_record_index as int]@);
    }
    s.append("        ");
    s.append(m.match_reason.phrase());
    s.append(":\n");
    s.append("            Blocked: ");
    let blocked = m.blocked_address.render();
    s.append(blocked.as_str());
    s.append("\n");
    s.append("            Organization: ");
    s.append(record.organization.as_str());
    s.append("\n");
    s.append("            Document ID: ");
    s.append(record.document_id.as_str());
    s.append("\n");
    s.append("            Document date: ");
    let date = crate::date::date_to_chars(&record.document_date);
    let date_str = crate::text::string_from_chars(date.as_slice());
    s.append(date_str.as_str());
    s.append("\n");
    proof {
        assert(s@ =~= old(s)@ + match_text(views_of(records@), m@));
    }
}

/// Assemble the human-readable search report.
#[verifier::loop_isolation(false)]
#[verifier::rlimit(60)]
pub fn format_search_results(results: &Vec<QueryResult>, records: &Vec<Record>) -> (r: String)
    requires
        forall|k: int|
            0 <= k < records@.len() ==> (#[trigger] records@[k]).wf()
                && records@[k].document_date.wf(),
        forall|j: int, l: int|
            0 <= j < results@.len() && 0 <= l < results@[j].addresses@.len() ==> {
                let sub = #[trigger] results@[j].addresses@[l];
                &&& sub.address.wf()
                &&& !(sub.address@ is Reserved)
                &&& forall|k: int|
                    0 <= k < sub.matches@.len() ==> {
                        let m = #[trigger] sub.matches@[k];
                        &&& m.block_record_index < records@.len()
                        &&& m.blocked_address.wf()
                        &&& !(m.blocked_address@ is Reserved)
                    }
            },
    ensures
        r@ == spec_search_report(views_of(records@), views_of(results@)),
{
    let ghost rv = views_of(records@);
    let ghost qv = views_of(results@);
    let ghost report = spec_search_report(rv, qv);
    let mut s = String::new();
    let nq = results.len();
    for j in 0..nq
        invariant
            report == queries_text(rv, qv, j as int, s@),
    {
        let ghost acc0 = s@;
        if j > 0 {
            s.append("\n");
        }
        let query = &results[j];
        s.append(query.original_address.as_str());
        s.append(":\n");
        let ghost subs = qv[j as int].addresses;
        proof {
            assert(qv[j as int] == results@[j as int]@);
            let head = if j > 0 {
                acc0 + "\n"@
            } else {
                acc0
            };
            assert(s@ =~= head + qv[j as int].original_address + ":\n"@);
        }
        let ns = query.addresses.len();
        for l in 0..ns
            invariant
                ns == query.addresses@.len(),
                subs == qv[j as int].addresses,
                report == queries_text(rv, qv, j + 1, subs_text(rv, subs, l as int, s@)),
        {
            let ghost acc1 = s@;
            if l > 0 {
                s.append("\n");
            }
            let sub = &query.addresses[l];
            proof {
                assert(*query == results@[j as int]);
                assert(subs[l as int] == query.addresses@[l as int]@);
            }
            s.append("    ");
            let rendered = sub.address.render();
            s.append(rendered.as_str());
            let ghost head1 = if l > 0 {
                acc1 + "\n"@
            } else {
                acc1
            };
            let nm = sub.matches.len();
            if nm == 0 {
                s.append(": not found\n");
                proof {
                    assert(subs[l as int].matches.len() == 0);
                    assert(s@ =~= head1 + "    "@ + render_view(subs[l as int].address)
                        + ": not found\n"@);
                }
            } else {
                s.append(": blocked\n");
                let ghost ms = subs[l as int].matches;
                proof {
                    assert(s@ =~= head1 + "    "@ + render_view(subs[l as int].address)
                        + ": blocked\n"@);
                }
                for k in 0..nm
                    invariant
                        nm == sub.matches@.len(),
                        ms == subs[l as int].matches,
                        subs == qv[j as int].addresses,
                        report == queries_text(
                            rv,
                            qv,
                            j + 1,
                            subs_text(rv, subs, l + 1, matches_text(rv, ms, k as int, s@)),
                        ),
                {
                    let m = &sub.matches[k];
                    proof {
                        assert(ms[k as int] == sub.matches@[k as int]@);
                    }
                    append_match_entry(&mut s, records, m);
                }
            }
        }
    }
    s
}

} // verus!
