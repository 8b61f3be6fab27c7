//! The dump reader: line splitting, the six semicolon-separated fields with
//! minimal quote handling, per-column tokenization, classification of every
//! token into an address variant, and per-line error reporting that never
//! poisons the rest of the stream.

use vstd::prelude::*;

use crate::address::Address;
use crate::address::AddressView;
use crate::codepage::decode_win1251;
use crate::codepage::win1251_decode;
use crate::codepage::win1251_ok;
use crate::date::DateTime;
use crate::date::spec_parse_date;
use crate::date::spec_parse_header;
use crate::record::Record;
use crate::record::RecordView;
use crate::text::split_char;
use crate::text::trim_spec;
use crate::text::views_of;

verus! {

/// Why one data line of the dump was rejected.
#[derive(Clone, Copy, Debug, PartialEq, Eq, Structural, Hash)]
pub enum RecordErrorKind {
    /// The line does not have exactly six fields.
    FieldCount,
    /// A field holds a byte outside the codepage.
    Encoding,
    /// A token of the IPv4 column is not an IPv4 literal.
    Ipv4,
    /// A token of the IPv4 column is not a CIDR network.
    Ipv4Network,
    /// A token of the URL column is not an absolute URL.
    Url,
    /// The document date is not a valid `YYYY-MM-DD` date.
    Date,
}

/// One rejected data line: its 1-based line number in the dump (the header
/// is line 1, so data lines start at 2) and the reason.
#[derive(Clone, Copy, Debug, PartialEq, Eq, Structural, Hash)]
pub struct RecordError {
    pub line: u64,
    pub kind: RecordErrorKind,
}

/// The dump's first line could not be read as an `Updated:` timestamp.
#[derive(Clone, Copy, Debug, PartialEq, Eq, Structural, Hash)]
pub struct HeaderError;

/// A line with its one trailing carriage return removed, if any.
pub open spec fn strip_cr(line: Seq<u8>) -> Seq<u8> {
    if line.len() > 0 && line.last() == 13 {
        line.drop_last()
    } else {
        line
    }
}

/// Walk the input byte by byte, cutting a line at every newline. A final
/// segment left empty by a trailing newline is not a line.
pub open spec fn lines_rec(data: Seq<u8>, i: int, cur: Seq<u8>, done: Seq<Seq<u8>>) -> Seq<
    Seq<u8>,
>
    decreases data.len() - i,
{
    if i < 0 || i >= data.len() {
        if cur.len() == 0 {
            done
        } else {
            done.push(strip_cr(cur))
        }
    } else if data[i] == 10 {
        lines_rec(data, i + 1, Seq::empty(), done.push(strip_cr(cur)))
    } else {
        lines_rec(data, i + 1, cur.push(data[i]), done)
    }
}

/// The lines of the dump.
pub open spec fn spec_lines(data: Seq<u8>) -> Seq<Seq<u8>> {
    lines_rec(data, 0, Seq::empty(), Seq::empty())
}

/// Walk one line byte by byte, cutting a field at every semicolon that is
/// not inside double quotes; the quote characters themselves are dropped.
pub open spec fn fields_rec(line: Seq<u8>, i: int, inq: bool, cur: Seq<u8>, done: Seq<Seq<u8>>) -> Seq<
    Seq<u8>,
>
    decreases line.len() - i,
{
    if i < 0 || i >= line.len() {
        done.push(cur)
    } else if line[i] == 34 {
        fields_rec(line, i + 1, !inq, cur, done)
    } else if line[i] == 59 && !inq {
        fields_rec(line, i + 1, inq, Seq::empty(), done.push(cur))
    } else {
        fields_rec(line, i + 1, inq, cur.push(line[i]), done)
    }
}

/// The semicolon-separated fields of one line.
pub open spec fn spec_fields(line: Seq<u8>) -> Seq<Seq<u8>> {
    fields_rec(line, 0, false, Seq::empty(), Seq::empty())
}

/// Walk one decoded column, cutting a part at every ` | ` (space, pipe,
/// space) separator.
pub open spec fn pipe3_rec(s: Seq<char>, i: int, cur: Seq<char>, done: Seq<Seq<char>>) -> Seq<
    Seq<char>,
>
    decreases s.len() - i,
{
    if i < 0 || i >= s.len() {
        done.push(cur)
    } else if i + 3 <= s.len() && s[i] == ' ' && s[i + 1] == '|' && s[i + 2] == ' ' {
        pipe3_rec(s, i + 3, Seq::empty(), done.push(cur))
    } else {
        pipe3_rec(s, i + 1, cur.push(s[i]), done)
    }
}

/// The ` | `-separated parts of the URL column.
pub open spec fn spec_pipe3(s: Seq<char>) -> Seq<Seq<char>> {
    pipe3_rec(s, 0, Seq::empty(), Seq::empty())
}

/// Trim every part and drop the empty ones.
pub open spec fn clean_rec(parts: Seq<Seq<char>>, i: int, done: Seq<Seq<char>>) -> Seq<Seq<char>>
    decreases parts.len() - i,
{
    if i < 0 || i >= parts.len() {
        done
    } else {
        let t = trim_spec(parts[i]);
        if t.len() == 0 {
            clean_rec(parts, i + 1, done)
        } else {
            clean_rec(parts, i + 1, done.push(t))
        }
    }
}

/// The non-empty trimmed tokens of a `|`-separated column.
pub open spec fn clean_tokens(s: Seq<char>, d: char) -> Seq<Seq<char>> {
    clean_rec(split_char(s, d), 0, Seq::empty())
}

/// The non-empty trimmed tokens of the ` | `-separated URL column.
pub open spec fn clean_url_tokens(s: Seq<char>) -> Seq<Seq<char>> {
    clean_rec(spec_pipe3(s), 0, Seq::empty())
}

/// Classify the IPv4 column's tokens: a token with a slash must be a CIDR
/// network, any other must be an IPv4 literal; the first bad token rejects
/// the line.
pub open spec fn ipv4_col_rec(ts: Seq<Seq<char>>, i: int, done: Seq<AddressView>) -> Result<
    Seq<AddressView>,
    RecordErrorKind,
>
    decreases ts.len() - i,
{
    if i < 0 || i >= ts.len() {
        Ok(done)
    } else {
        let t = ts[i];
        if crate::address::has_char(t, '/') {
            match crate::ipv4::spec_parse_net(t) {
                Some(n) => ipv4_col_rec(ts, i + 1, done.push(AddressView::IPv4Network(n))),
                None => Err(RecordErrorKind::Ipv4Network),
            }
        } else {
            match crate::ipv4::spec_parse_ipv4(t) {
                Some(b) => ipv4_col_rec(
                    ts,
                    i + 1,
                    done.push(AddressView::IPv4(crate::ipv4::Ipv4Address { bits: b })),
                ),
                None => Err(RecordErrorKind::Ipv4),
            }
        }
    }
}

/// Classify the domain column's tokens: a token starting with `*` is a
/// wildcard domain, any other a bare domain; tokens are kept as they stand.
pub open spec fn domain_col_rec(ts: Seq<Seq<char>>, i: int, done: Seq<AddressView>) -> Seq<
    AddressView,
>
    decreases ts.len() - i,
{
    if i < 0 || i >= ts.len() {
        done
    } else {
        let t = ts[i];
        if t.len() > 0 && t[0] == '*' {
            domain_col_rec(ts, i + 1, done.push(AddressView::WildcardDomainName(t)))
        } else {
            domain_col_rec(ts, i + 1, done.push(AddressView::DomainName(t)))
        }
    }
}

/// Parse the URL column's tokens: every token must parse as an absolute
/// URL; the first bad token rejects the line.
pub open spec fn url_col_rec(ts: Seq<Seq<char>>, i: int, done: Seq<AddressView>) -> Result<
    Seq<AddressView>,
    RecordErrorKind,
>
    decreases ts.len() - i,
{
    if i < 0 || i >= ts.len() {
        Ok(done)
    } else {
        let t = ts[i];
        match crate::address::url_canon(t) {
            Some(c) => url_col_rec(
                ts,
                i + 1,
                done.push(
                    AddressView::URL(
                        crate::address::UrlView { text: c, host: crate::address::url_host_of(c) },
                    ),
                ),
            ),
            None => Err(RecordErrorKind::Url),
        }
    }
}

/// Parse one data line of the dump: six fields, decoded from the codepage,
/// the three address columns tokenized and classified in column order, the
/// free-form fields trimmed, the date strict `YYYY-MM-DD`.
pub open spec fn spec_parse_line(line: Seq<u8>) -> Result<RecordView, RecordErrorKind> {
    let fields = spec_fields(line);
    if fields.len() != 6 {
        Err(RecordErrorKind::FieldCount)
    } else if !(win1251_ok(fields[0]) && win1251_ok(fields[1]) && win1251_ok(fields[2])
        && win1251_ok(fields[3]) && win1251_ok(fields[4]) && win1251_ok(fields[5])) {
        Err(RecordErrorKind::Encoding)
    } else {
        let c0 = win1251_decode(fields[0]);
        let c1 = win1251_decode(fields[1]);
        let c2 = win1251_decode(fields[2]);
        let c3 = win1251_decode(fields[3]);
        let c4 = win1251_decode(fields[4]);
        let c5 = win1251_decode(fields[5]);
        match ipv4_col_rec(clean_tokens(c0, '|'), 0, Seq::empty()) {
            Err(e) => Err(e),
            Ok(a0) => {
                let a01 = domain_col_rec(clean_tokens(c1, '|'), 0, a0);
                match url_col_rec(clean_url_tokens(c2), 0, a01) {
                    Err(e) => Err(e),
                    Ok(a012) => match spec_parse_date(trim_spec(c5)) {
                        None => Err(RecordErrorKind::Date),
                        Some(d) => Ok(
                            RecordView {
                                addresses: a012,
                                organization: trim_spec(c3),
                                document_id: trim_spec(c4),
                                document_date: d,
                            },
                        ),
                    },
                }
            },
        }
    }
}

/// The header timestamp of a whole dump, when its first line carries one.
pub open spec fn spec_reader_header(data: Seq<u8>) -> Option<DateTime> {
    let ls = spec_lines(data);
    if ls.len() > 0 && win1251_ok(ls[0]) {
        spec_parse_header(win1251_decode(ls[0]))
    } else {
        None
    }
}

/// Split the dump into lines.
#[verifier::loop_isolation(false)]
pub fn split_lines(data: &[u8]) -> (r: Vec<Vec<u8>>)
    ensures
        views_of(r@) == spec_lines(data@),
{
    let mut done: Vec<Vec<u8>> = Vec::new();
    let mut cur: Vec<u8> = Vec::new();
    let n = data.len();
    assert(views_of(done@) =~= Seq::<Seq<u8>>::empty());
    for i in 0..n
        invariant
            spec_lines(data@) == lines_rec(data@, i as int, cur@, views_of(done@)),
    {
        let b = data[i];
        if b == 10 {
            let line = strip_cr_exec(cur);
            proof {
                crate::text::lemma_views_of_push(done@, line);
            }
            done.push(line);
            cur = Vec::new();
        } else {
            cur.push(b);
        }
    }
    if cur.len() > 0 {
        let line = strip_cr_exec(cur);
        proof {
            crate::text::lemma_views_of_push(done@, line);
        }
        done.push(line);
    }
    done
}

fn strip_cr_exec(line: Vec<u8>) -> (r: Vec<u8>)
    ensures
        r@ == strip_cr(line@),
{
    let mut line = line;
    if line.len() > 0 && line[line.len() - 1] == 13 {
        let _ = line.pop();
    }
    line
}

/// Split one line into its semicolon-separated fields.
#[verifier::loop_isolation(false)]
pub fn split_fields(line: &Vec<u8>) -> (r: Vec<Vec<u8>>)
    ensures
        views_of(r@) == spec_fields(line@),
{
    let mut done: Vec<Vec<u8>> = Vec::new();
    let mut cur: Vec<u8> = Vec::new();
    let mut inq = false;
    let n = line.len();
    assert(views_of(done@) =~= Seq::<Seq<u8>>::empty());
    for i in 0..n
        invariant
            spec_fields(line@) == fields_rec(line@, i as int, inq, cur@, views_of(done@)),
    {
        let b = line[i];
        if b == 34 {
            inq = !inq;
        } else if b == 59 && !inq {
            proof {
                crate::text::lemma_views_of_push(done@, cur);
            }
            done.push(cur);
            cur = Vec::new();
        } else {
            cur.push(b);
        }
    }
    proof {
        crate::text::lemma_views_of_push(done@, cur);
    }
    done.push(cur);
    done
}

/// Split the URL column on ` | `.
#[verifier::loop_isolation(false)]
pub fn split_pipe3(s: &Vec<char>) -> (r: Vec<Vec<char>>)
    ensures
        views_of(r@) == spec_pipe3(s@),
{
    let mut done: Vec<Vec<char>> = Vec::new();
    let mut cur: Vec<char> = Vec::new();
    let n = s.len();
    let mut i: usize = 0;
    assert(views_of(done@) =~= Seq::<Seq<char>>::empty());
    while i < n
        invariant
            i <= n,
            spec_pipe3(s@) == pipe3_rec(s@, i as int, cur@, views_of(done@)),
        decreases n - i,
    {
        if n - i >= 3 && s[i] == ' ' && s[i + 1] == '|' && s[i + 2] == ' ' {
            proof {
                crate::text::lemma_views_of_push(done@, cur);
            }
            done.push(cur);
            cur = Vec::new();
            i = i + 3;
        } else {
            cur.push(s[i]);
            i = i + 1;
        }
    }
    proof {
        crate::text::lemma_views_of_push(done@, cur);
    }
    done.push(cur);
    done
}

/// Trim every part and keep the non-empty ones.
#[verifier::loop_isolation(false)]
pub fn clean_parts(parts: &Vec<Vec<char>>) -> (r: Vec<Vec<char>>)
    ensures
        views_of(r@) == clean_rec(views_of(parts@), 0, Seq::empty()),
{
    let mut done: Vec<Vec<char>> = Vec::new();
    let n = parts.len();
    assert(views_of(done@) =~= Seq::<Seq<char>>::empty());
    for i in 0..n
        invariant
            clean_rec(views_of(parts@), 0, Seq::empty()) == clean_rec(
                views_of(parts@),
                i as int,
                views_of(done@),
            ),
    {
        let t = crate::text::trim(&parts[i]);
        assert(t@ == trim_spec(views_of(parts@)[i as int]));
        if t.len() > 0 {
            proof {
                crate::text::lemma_views_of_push(done@, t);
            }
            done.push(t);
        }
    }
    done
}

/// Parse one data line into a record.
#[verifier::loop_isolation(false)]
pub fn parse_data_line(line: &Vec<u8>) -> (r: Result<Record, RecordErrorKind>)
    ensures
        r matches Ok(rec) ==> spec_parse_line(line@) == Ok::<RecordView, RecordErrorKind>(rec@)
            && rec.wf() && rec.document_date.wf(),
        r matches Err(k) ==> spec_parse_line(line@) == Err::<RecordView, RecordErrorKind>(k),
{
    let fields = split_fields(line);
    if fields.len() != 6 {
        return Err(RecordErrorKind::FieldCount);
    }
    let c0 = match decode_win1251(fields[0].as_slice()) {
        Some(c) => c,
        None => {
            return Err(RecordErrorKind::Encoding);
        },
    };
    let c1 = match decode_win1251(fields[1].as_slice()) {
        Some(c) => c,
        None => {
            return Err(RecordErrorKind::Encoding);
        },
    };
    let c2 = match decode_win1251(fields[2].as_slice()) {
        Some(c) => c,
        None => {
            return Err(RecordErrorKind::Encoding);
        },
    };
    let c3 = match decode_win1251(fields[3].as_slice()) {
        Some(c) => c,
        None => {
            return Err(RecordErrorKind::Encoding);
        },
    };
    let c4 = match decode_win1251(fields[4].as_slice()) {
        Some(c) => c,
        None => {
            return Err(RecordErrorKind::Encoding);
        },
    };
    let c5 = match decode_win1251(fields[5].as_slice()) {
        Some(c) => c,
        None => {
            return Err(RecordErrorKind::Encoding);
        },
    };
    let mut addresses: Vec<Address> = Vec::new();
    let parts0 = crate::text::split_on_char(&c0, '|');
    let t0 = clean_parts(&parts0);
    let ghost ts0 = clean_tokens(c0@, '|');
    let ghost expected0 = ipv4_col_rec(ts0, 0, Seq::empty());
    assert(views_of(addresses@) =~= Seq::<AddressView>::empty());
    let n0 = t0.len();
    for i in 0..n0
        invariant
            expected0 == ipv4_col_rec(ts0, i as int, views_of(addresses@)),
            forall|j: int|
                0 <= j < addresses@.len() ==> (#[trigger] addresses@[j]).wf() && !(
                addresses@[j]@ is Reserved),
    {
        let tok = &t0[i];
        assert(tok@ == ts0[i as int]);
        let slash = crate::text::find_char(tok, '/');
        proof {
            crate::text::lemma_first_occ(tok@, '/');
        }
        if slash.is_some() {
            assert(crate::address::has_char(tok@, '/'));
            match crate::ipv4::parse_net(tok) {
                Some(n) => {
                    proof {
                        crate::text::lemma_views_of_push(addresses@, Address::IPv4Network(n));
                    }
                    addresses.push(Address::IPv4Network(n));
                },
                None => {
                    return Err(RecordErrorKind::Ipv4Network);
                },
            }
        } else {
            assert(!crate::address::has_char(tok@, '/'));
            match crate::ipv4::parse_ipv4(tok) {
                Some(ip) => {
                    proof {
                        crate::text::lemma_views_of_push(addresses@, Address::IPv4(ip));
                    }
                    addresses.push(Address::IPv4(ip));
                },
                None => {
                    return Err(RecordErrorKind::Ipv4);
                },
            }
        }
    }
    let ghost a0 = views_of(addresses@);
    assert(expected0 == Ok::<Seq<AddressView>, RecordErrorKind>(a0));
    let parts1 = crate::text::split_on_char(&c1, '|');
    let t1 = clean_parts(&parts1);
    let ghost ts1 = clean_tokens(c1@, '|');
    let ghost expected1 = domain_col_rec(ts1, 0, a0);
    let n1 = t1.len();
    for i in 0..n1
        invariant
            expected1 == domain_col_rec(ts1, i as int, views_of(addresses@)),
            forall|j: int|
                0 <= j < addresses@.len() ==> (#[trigger] addresses@[j]).wf() && !(
                addresses@[j]@ is Reserved),
    {
        let tok = &t1[i];
        assert(tok@ == ts1[i as int]);
        let text = crate::text::string_from_chars(tok.as_slice());
        let a = if tok.len() > 0 && tok[0] == '*' {
            Address::WildcardDomainName(text)
        } else {
            Address::DomainName(text)
        };
        proof {
            crate::text::lemma_views_of_push(addresses@, a);
        }
        addresses.push(a);
    }
    let ghost a01 = views_of(addresses@);
    assert(expected1 == a01);
    let parts2 = split_pipe3(&c2);
    let t2 = clean_parts(&parts2);
    let ghost ts2 = clean_url_tokens(c2@);
    let ghost expected2 = url_col_rec(ts2, 0, a01);
    let n2 = t2.len();
    for i in 0..n2
        invariant
            expected2 == url_col_rec(ts2, i as int, views_of(addresses@)),
            forall|j: int|
                0 <= j < addresses@.len() ==> (#[trigger] addresses@[j]).wf() && !(
                addresses@[j]@ is Reserved),
    {
        let tok = &t2[i];
        assert(tok@ == ts2[i as int]);
        let text = crate::text::string_from_chars(tok.as_slice());
        match crate::address::url_parse_raw(text.as_str()) {
            Some(u) => {
                let a = Address::URL(u);
                proof {
                    crate::text::lemma_views_of_push(addresses@, a);
                }
                addresses.push(a);
            },
            None => {
                return Err(RecordErrorKind::Url);
            },
        }
    }
    let ghost a012 = views_of(addresses@);
    assert(expected2 == Ok::<Seq<AddressView>, RecordErrorKind>(a012));
    let d5 = crate::text::trim(&c5);
    let date = match crate::date::parse_date(&d5) {
        Some(d) => d,
        None => {
            return Err(RecordErrorKind::Date);
        },
    };
    let org_chars = crate::text::trim(&c3);
    let organization = crate::text::string_from_chars(org_chars.as_slice());
    let id_chars = crate::text::trim(&c4);
    let document_id = crate::text::string_from_chars(id_chars.as_slice());
    let rec = Record { addresses, organization, document_id, document_date: date };
    Ok(rec)
}

/// The dump reader: the header timestamp and the data lines, read lazily.
pub struct Reader {
    pub updated: DateTime,
    pub lines: Vec<Vec<u8>>,
    pub next_line: usize,
}

impl Reader {
    /// The read position is inside the line list, and line numbers fit.
    pub open spec fn wf(&self) -> bool {
        self.next_line <= self.lines@.len() && self.lines@.len() <= 0xffff_ffff
    }

    /// Parse the header line of a dump and hold the data lines for
    /// streaming. Fails exactly when the first line carries no readable
    /// `Updated:` timestamp (or the dump is larger than the reader's
    /// line-count limit).
    pub fn from_bytes(data: &[u8]) -> (r: Result<Reader, HeaderError>)
        ensures
            r is Ok <==> spec_reader_header(data@) is Some && spec_lines(data@).len()
                <= 0x1_0000_0000,
            r matches Ok(rd) ==> {
                &&& rd.wf()
                &&& Some(rd.updated) == spec_reader_header(data@)
                &&& rd.updated.hour < 24 && rd.updated.minute < 60 && rd.updated.second < 60
                &&& views_of(rd.lines@) == spec_lines(data@).skip(1)
                &&& rd.next_line == 0
            },
    {
        let mut lines = split_lines(data);
        if lines.len() == 0 {
            return Err(HeaderError);
        }
        if lines.len() - 1 > 0xffff_ffff {
            return Err(HeaderError);
        }
        let ghost all = spec_lines(data@);
        let header = lines.remove(0);
        assert(header@ == all[0]);
        let cs = match decode_win1251(header.as_slice()) {
            Some(c) => c,
            None => {
                return Err(HeaderError);
            },
        };
        match crate::date::parse_header(&cs) {
            Some(dt) => {
                proof {
                    assert(views_of(lines@) =~= all.skip(1));
                }
                Ok(Reader { updated: dt, lines, next_line: 0 })
            },
            None => Err(HeaderError),
        }
    }

    /// Date of last update of this list.
    pub fn get_timestamp(&self) -> (r: &DateTime)
        ensures
            *r == self.updated,
    {
        &self.updated
    }

    /// Pull the next record. An entry comes for every data line, well-formed
    /// or not: a bad line yields an error naming its line number (the header
    /// is line 1) and the stream goes on.
    pub fn next_record(&mut self) -> (r: Option<Result<Record, RecordError>>)
        requires
            old(self).wf(),
        ensures
            final(self).wf(),
            final(self).updated == old(self).updated,
            final(self).lines == old(self).lines,
            old(self).next_line >= old(self).lines@.len() ==> r is None && final(self).next_line
                == old(self).next_line,
            old(self).next_line < old(self).lines@.len() ==> {
                &&& final(self).next_line == old(self).next_line + 1
                &&& match r {
                    Some(Ok(rec)) => spec_parse_line(old(self).lines@[old(self).next_line as int]@)
                        == Ok::<RecordView, RecordErrorKind>(rec@) && rec.wf()
                        && rec.document_date.wf(),
                    Some(Err(e)) => spec_parse_line(old(self).lines@[old(self).next_line as int]@)
                        == Err::<RecordView, RecordErrorKind>(e.kind) && e.line == old(
                        self,
                    ).next_line + 2,
                    None => false,
                }
            },
    {
        if self.next_line >= self.lines.len() {
            return None;
        }
        let idx = self.next_line;
        self.next_line = idx + 1;
        let line_no: u64 = idx as u64 + 2;
        match parse_data_line(&self.lines[idx]) {
            Ok(rec) => Some(Ok(rec)),
            Err(kind) => Some(Err(RecordError { line: line_no, kind })),
        }
    }

    /// Collect every remaining entry of the stream: one entry per data line,
    /// an error entry exactly for each malformed line, tagged with that
    /// line's number.
    pub fn records(&mut self) -> (r: Vec<Result<Record, RecordError>>)
        requires
            old(self).wf(),
        ensures
            final(self).wf(),
            final(self).updated == old(self).updated,
            final(self).lines == old(self).lines,
            final(self).next_line == old(self).lines@.len(),
            r@.len() + old(self).next_line == old(self).lines@.len(),
            forall|i: int|
                0 <= i < r@.len() ==> match #[trigger] r@[i] {
                    Ok(rec) => spec_parse_line(
                        old(self).lines@[old(self).next_line + i]@,
                    ) == Ok::<RecordView, RecordErrorKind>(rec@) && rec.wf()
                        && rec.document_date.wf(),
                    Err(e) => spec_parse_line(old(self).lines@[old(self).next_line + i]@)
                        == Err::<RecordView, RecordErrorKind>(e.kind) && e.line == old(
                        self,
                    ).next_line + i + 2,
                },
            forall|i: int, j: int|
                0 <= i < r@.len() && 0 <= j < r@.len() && i != j && r@[i] is Err && r@[j] is Err
                    ==> (#[trigger] r@[i])->Err_0.line != (#[trigger] r@[j])->Err_0.line,
    {
        let mut r: Vec<Result<Record, RecordError>> = Vec::new();
        while self.next_line < self.lines.len()
            invariant
                self.wf(),
                self.updated == old(self).updated,
                self.lines == old(self).lines,
                old(self).next_line <= self.next_line,
                r@.len() + old(self).next_line == self.next_line,
                forall|i: int|
                    0 <= i < r@.len() ==> match #[trigger] r@[i] {
                        Ok(rec) => spec_parse_line(
                            old(self).lines@[old(self).next_line + i]@,
                        ) == Ok::<RecordView, RecordErrorKind>(rec@) && rec.wf()
                            && rec.document_date.wf(),
                        Err(e) => spec_parse_line(old(self).lines@[old(self).next_line + i]@)
                            == Err::<RecordView, RecordErrorKind>(e.kind) && e.line == old(
                            self,
                        ).next_line + i + 2,
                    },
            decreases self.lines@.len() - self.next_line,
        {
            let idx = self.next_line;
            self.next_line = idx + 1;
            let line_no: u64 = idx as u64 + 2;
            match parse_data_line(&self.lines[idx]) {
                Ok(rec) => r.push(Ok(rec)),
                Err(kind) => r.push(Err(RecordError { line: line_no, kind })),
            }
        }
        r
    }
}

} // verus!
