use vstd::prelude::*;
use vstd::utf8::valid_utf8;

verus! {

pub const NEWLINE: u8 = 10;

pub const CARRIAGE_RETURN: u8 = 13;

/// A line as a terminated line reads: one trailing carriage return dropped.
pub open spec fn strip_cr(l: Seq<u8>) -> Seq<u8> {
    if l.len() > 0 && l.last() == CARRIAGE_RETURN {
        l.drop_last()
    } else {
        l
    }
}

/// The lines ended so far by a newline, and the bytes of the line still open.
pub open spec fn scan(s: Seq<u8>) -> (Seq<Seq<u8>>, Seq<u8>)
    decreases s.len(),
{
    if s.len() == 0 {
        (seq![], seq![])
    } else {
        let prev = scan(s.drop_last());
        if s.last() == NEWLINE {
            (prev.0.push(strip_cr(prev.1)), seq![])
        } else {
            (prev.0, prev.1.push(s.last()))
        }
    }
}

/// The lines of a text: split at each newline, with the line ending left
/// out (`\n` or `\r\n`), and no empty line after a final newline.
pub open spec fn lines_of(s: Seq<u8>) -> Seq<Seq<u8>> {
    let sc = scan(s);
    if sc.1.len() == 0 {
        sc.0
    } else {
        sc.0.push(sc.1)
    }
}

/// Each line followed by a newline.
pub open spec fn terminated(ls: Seq<Seq<u8>>) -> Seq<u8>
    decreases ls.len(),
{
    if ls.len() == 0 {
        seq![]
    } else {
        terminated(ls.drop_last()) + ls.last() + seq![NEWLINE]
    }
}

/// The lines that stay when a record is added under the bound `max`: all of
/// them while they number fewer than `max`, else the first line and the
/// `max - 2` newest after it.
pub open spec fn evicted(ls: Seq<Seq<u8>>, max: int) -> Seq<Seq<u8>> {
    if ls.len() < max {
        ls
    } else {
        seq![ls[0]] + ls.subrange(ls.len() - (max - 2), ls.len() as int)
    }
}

/// The kept lines joined by newlines, one more newline, then the record.
pub open spec fn rendered(kept: Seq<Seq<u8>>, record: Seq<u8>) -> Seq<u8> {
    if kept.len() == 0 {
        seq![NEWLINE] + record
    } else {
        terminated(kept) + record
    }
}

/// The text of the log after `record` is appended to `contents` under the
/// bound `max`.
pub open spec fn appended(contents: Seq<u8>, record: Seq<u8>, max: int) -> Seq<u8> {
    rendered(evicted(lines_of(contents), max), record)
}

/// The text of a log that was created with `header` and then had each of
/// `records` appended, in order.
pub open spec fn after_appends(header: Seq<u8>, records: Seq<Seq<u8>>, max: int) -> Seq<u8>
    decreases records.len(),
{
    if records.len() == 0 {
        header.push(NEWLINE)
    } else {
        appended(after_appends(header, records.drop_last(), max), records.last(), max)
    }
}

/// Holds neither a newline nor a carriage return.
pub open spec fn single_line(l: Seq<u8>) -> bool {
    forall|i: int| 0 <= i < l.len() ==> l[i] != NEWLINE && l[i] != CARRIAGE_RETURN
}

/// Holds no newline.
pub open spec fn no_newline(l: Seq<u8>) -> bool {
    forall|i: int| 0 <= i < l.len() ==> l[i] != NEWLINE
}

/// Ends in a carriage return.
pub open spec fn ends_with_cr(l: Seq<u8>) -> bool {
    l.len() > 0 && l.last() == CARRIAGE_RETURN
}

/// A line that reads back as itself once written with a newline after it.
pub open spec fn clean_line(l: Seq<u8>) -> bool {
    no_newline(l) && !ends_with_cr(l)
}

proof fn lemma_single_line_is_clean(l: Seq<u8>)
    requires
        single_line(l),
    ensures
        clean_line(l),
{
    if l.len() > 0 {
        assert(l[l.len() - 1] != CARRIAGE_RETURN);
    }
}

proof fn lemma_lines_have_no_newline(s: Seq<u8>)
    ensures
        forall|k: int| 0 <= k < lines_of(s).len() ==> no_newline(#[trigger] lines_of(s)[k]),
{
    lemma_scan_has_no_newline(s);
}

proof fn lemma_scan_has_no_newline(s: Seq<u8>)
    ensures
        forall|k: int| 0 <= k < scan(s).0.len() ==> no_newline(#[trigger] scan(s).0[k]),
        no_newline(scan(s).1),
    decreases s.len(),
{
    if s.len() > 0 {
        let prev = scan(s.drop_last());
        lemma_scan_has_no_newline(s.drop_last());
        if s.last() == NEWLINE {
            let l = strip_cr(prev.1);
            assert forall|i: int| 0 <= i < l.len() implies l[i] != NEWLINE by {
                assert(l[i] == prev.1[i]);
            }
            assert forall|k: int| 0 <= k < scan(s).0.len() implies no_newline(
                #[trigger] scan(s).0[k],
            ) by {
                if k < prev.0.len() {
                    assert(scan(s).0[k] == prev.0[k]);
                }
            }
        } else {
            let c = prev.1.push(s.last());
            assert forall|i: int| 0 <= i < c.len() implies c[i] != NEWLINE by {
                if i < prev.1.len() {
                    assert(c[i] == prev.1[i]);
                }
            }
        }
    }
}

pub open spec fn views(v: Seq<Vec<u8>>) -> Seq<Seq<u8>> {
    v.map_values(|l: Vec<u8>| l@)
}

proof fn lemma_scan_open(p: Seq<u8>, c: Seq<u8>)
    requires
        no_newline(c),
    ensures
        scan(p + c) == (scan(p).0, scan(p).1 + c),
    decreases c.len(),
{
    if c.len() == 0 {
        assert(p + c =~= p);
        assert(scan(p).1 + c =~= scan(p).1);
    } else {
        let c0 = c.drop_last();
        assert((p + c).drop_last() =~= p + c0);
        assert(no_newline(c0)) by {
            assert forall|i: int| 0 <= i < c0.len() implies c0[i] != NEWLINE by {
                assert(c0[i] == c[i]);
            }
        }
        lemma_scan_open(p, c0);
        assert(c[c.len() - 1] != NEWLINE);
        assert(scan(p).1 + c0.push(c.last()) =~= scan(p).1 + c);
        assert(c0.push(c.last()) =~= c);
    }
}

proof fn lemma_scan_terminated(ls: Seq<Seq<u8>>)
    requires
        forall|k: int| 0 <= k < ls.len() ==> clean_line(#[trigger] ls[k]),
    ensures
        scan(terminated(ls)) == (ls, Seq::<u8>::empty()),
    decreases ls.len(),
{
    if ls.len() == 0 {
        assert(ls =~= seq![]);
    } else {
        let prev = ls.drop_last();
        let l = ls.last();
        assert(clean_line(ls[ls.len() - 1]));
        assert forall|k: int| 0 <= k < prev.len() implies clean_line(#[trigger] prev[k]) by {
            assert(prev[k] == ls[k]);
        }
        lemma_scan_terminated(prev);
        let p = terminated(prev);
        lemma_scan_open(p, l);
        let s = terminated(ls);
        assert(s =~= (p + l).push(NEWLINE));
        assert(s.drop_last() =~= p + l);
        assert(seq![] + l =~= l);
        assert(prev.push(l) =~= ls);
    }
}

/// A log written as lines followed by one record of a single line reads
/// back as those lines and the record.
proof fn lemma_lines_after_render(ls: Seq<Seq<u8>>, record: Seq<u8>)
    requires
        forall|k: int| 0 <= k < ls.len() ==> clean_line(#[trigger] ls[k]),
        no_newline(record),
        record.len() > 0,
    ensures
        lines_of(terminated(ls) + record) == ls.push(record),
{
    lemma_scan_terminated(ls);
    lemma_scan_open(terminated(ls), record);
    assert(Seq::<u8>::empty() + record =~= record);
}

/// Whatever records were appended, the first line of the log is its header,
/// once, and after it come the newest `max - 1` records, or all of them
/// while they are fewer, oldest first.
pub proof fn lemma_header_and_newest_records(header: Seq<u8>, records: Seq<Seq<u8>>, max: int)
    requires
        max >= 2,
        single_line(header),
        forall|k: int|
            0 <= k < records.len() ==> single_line(#[trigger] records[k]) && records[k].len() > 0,
    ensures
        lines_of(after_appends(header, records, max)) == seq![header] + records.subrange(
            records.len() - (if records.len() < max - 1 { records.len() as int } else { max - 1 }),
            records.len() as int,
        ),
    decreases records.len(),
{
    let n = records.len() as int;
    if n == 0 {
        let hs = seq![header];
        lemma_single_line_is_clean(header);
        assert(terminated(hs.drop_last()) =~= seq![]);
        assert(terminated(hs) =~= header.push(NEWLINE));
        lemma_scan_terminated(hs);
        assert(records.subrange(0, 0) =~= seq![]);
        assert(hs + records.subrange(0, 0) =~= hs);
    } else {
        let prev = records.drop_last();
        let r = records.last();
        assert forall|k: int| 0 <= k < prev.len() implies single_line(#[trigger] prev[k])
            && prev[k].len() > 0 by {
            assert(prev[k] == records[k]);
        }
        lemma_header_and_newest_records(header, prev, max);
        let m = n - 1;
        let kept_prev = if m < max - 1 { m } else { max - 1 };
        let ls = seq![header] + prev.subrange(m - kept_prev, m);
        assert(lines_of(after_appends(header, prev, max)) == ls);
        let kept = evicted(ls, max);
        let kn = if n < max - 1 { n } else { max - 1 };
        if ls.len() < max {
            assert(kept == ls);
        } else {
            assert(kept =~= seq![header] + prev.subrange(m - (max - 2), m));
        }
        assert(kept =~= seq![header] + prev.subrange(n - kn, m));
        assert forall|k: int| 0 <= k < kept.len() implies clean_line(#[trigger] kept[k]) by {
            if k > 0 {
                assert(kept[k] == records[n - kn + k - 1]);
                lemma_single_line_is_clean(records[n - kn + k - 1]);
            } else {
                lemma_single_line_is_clean(header);
            }
        }
        assert(single_line(records[n - 1]));
        lemma_single_line_is_clean(r);
        lemma_lines_after_render(kept, r);
        assert(kept.push(r) =~= seq![header] + records.subrange(n - kn, n));
    }
}

/// Appending a record that differs from the header to a log whose first
/// line is the header, which no other line repeats and in which no line
/// ends in a carriage return, leaves the header first and alone, and again
/// no line ending in a carriage return.
pub proof fn lemma_header_stays_first(contents: Seq<u8>, header: Seq<u8>, record: Seq<u8>, max: int)
    requires
        max >= 2,
        lines_of(contents).len() > 0,
        lines_of(contents)[0] == header,
        forall|i: int| 1 <= i < lines_of(contents).len() ==> #[trigger] lines_of(contents)[i] != header,
        forall|i: int| 0 <= i < lines_of(contents).len() ==> !ends_with_cr(#[trigger] lines_of(contents)[i]),
        single_line(record),
        record.len() > 0,
        record != header,
    ensures
        ({
            let out = lines_of(appended(contents, record, max));
            &&& out.len() > 0
            &&& out[0] == header
            &&& forall|i: int| 1 <= i < out.len() ==> #[trigger] out[i] != header
            &&& forall|i: int| 0 <= i < out.len() ==> !ends_with_cr(#[trigger] out[i])
        }),
{
    let ls = lines_of(contents);
    lemma_lines_have_no_newline(contents);
    let kept = evicted(ls, max);
    let from = if ls.len() < max { 1 } else { ls.len() - (max - 2) };
    assert(kept =~= seq![ls[0]] + ls.subrange(from, ls.len() as int)) by {
        if ls.len() < max {
            assert(seq![ls[0]] + ls.subrange(1, ls.len() as int) =~= ls);
        }
    }
    assert forall|k: int| 0 <= k < kept.len() implies clean_line(#[trigger] kept[k])
        && (k >= 1 ==> kept[k] != header) by {
        if k >= 1 {
            assert(kept[k] == ls[from + k - 1]);
        }
    }
    lemma_single_line_is_clean(record);
    lemma_lines_after_render(kept, record);
    let out = kept.push(record);
    assert forall|i: int| 1 <= i < out.len() implies #[trigger] out[i] != header by {
        if i < kept.len() {
            assert(out[i] == kept[i]);
        }
    }
    assert forall|i: int| 0 <= i < out.len() implies !ends_with_cr(#[trigger] out[i]) by {
        if i < kept.len() {
            assert(out[i] == kept[i]);
        }
    }
}

pub(crate) fn push_bytes(out: &mut Vec<u8>, b: &Vec<u8>)
    ensures
        final(out)@ == old(out)@ + b@,
{
    let ghost start = out@;
    let mut k: usize = 0;
    while k < b.len()
        invariant
            k <= b@.len(),
            out@ == start + b@.subrange(0, k as int),
        decreases b@.len() - k,
    {
        out.push(b[k]);
        k = k + 1;
        assert(b@.subrange(0, k as int) =~= b@.subrange(0, k - 1).push(b@[k - 1]));
    }
    assert(b@.subrange(0, b@.len() as int) =~= b@);
}

/// Splits a text into its lines, as `lines_of` describes them.
pub fn split_lines(s: &Vec<u8>) -> (r: Vec<Vec<u8>>)
    ensures
        views(r@) == lines_of(s@),
{
    let mut lines: Vec<Vec<u8>> = Vec::new();
    let mut cur: Vec<u8> = Vec::new();
    let mut i: usize = 0;
    while i < s.len()
        invariant
            i <= s@.len(),
            scan(s@.subrange(0, i as int)) == (views(lines@), cur@),
        decreases s@.len() - i,
    {
        let b = s[i];
        assert(s@.subrange(0, i + 1).drop_last() =~= s@.subrange(0, i as int));
        if b == NEWLINE {
            let n = cur.len();
            if n > 0 && cur[n - 1] == CARRIAGE_RETURN {
                cur.pop();
            }
            let ghost before = views(lines@);
            lines.push(cur);
            assert(views(lines@) =~= before.push(lines@[lines@.len() - 1]@));
            cur = Vec::new();
        } else {
            cur.push(b);
        }
        i = i + 1;
    }
    assert(s@.subrange(0, s@.len() as int) =~= s@);
    if cur.len() > 0 {
        let ghost before = views(lines@);
        lines.push(cur);
        assert(views(lines@) =~= before.push(lines@[lines@.len() - 1]@));
    }
    lines
}

/// The text of the log once `record` is appended to `contents`: the lines
/// of `contents` beyond what `max_records` allows are dropped, oldest first
/// and never the first line, the rest are written back each followed by a
/// newline, and the record comes last.
pub fn append_to_text(contents: &Vec<u8>, record: &Vec<u8>, max_records: usize) -> (r: Vec<u8>)
    requires
        max_records >= 2,
    ensures
        r@ == appended(contents@, record@, max_records as int),
{
    let lines = split_lines(contents);
    let ghost ls = views(lines@);
    let ghost kept = evicted(ls, max_records as int);
    let n = lines.len();
    let mut out: Vec<u8> = Vec::new();
    if n == 0 {
        out.push(NEWLINE);
        assert(out@ =~= seq![NEWLINE]);
    } else {
        assert(ls[0] == lines@[0]@);
        let from: usize = if n < max_records { 1 } else { n - (max_records - 2) };
        push_bytes(&mut out, &lines[0]);
        out.push(NEWLINE);
        assert(terminated(seq![ls[0]].drop_last()) =~= seq![]);
        assert(out@ =~= terminated(seq![ls[0]]));
        assert(seq![ls[0]] + ls.subrange(from as int, from as int) =~= seq![ls[0]]);
        let mut j: usize = from;
        while j < n
            invariant
                1 <= from <= j <= n,
                n == lines@.len(),
                ls == views(lines@),
                out@ == terminated(seq![ls[0]] + ls.subrange(from as int, j as int)),
            decreases n - j,
        {
            let ghost prefix = seq![ls[0]] + ls.subrange(from as int, j as int);
            let ghost next = seq![ls[0]] + ls.subrange(from as int, j + 1);
            assert(next.drop_last() =~= prefix);
            assert(next.last() == lines@[j as int]@);
            push_bytes(&mut out, &lines[j]);
            out.push(NEWLINE);
            j = j + 1;
            assert(out@ =~= terminated(next));
        }
        if n < max_records {
            assert(seq![ls[0]] + ls.subrange(1, n as int) =~= ls);
        }
        assert(seq![ls[0]] + ls.subrange(from as int, n as int) == kept);
    }
    push_bytes(&mut out, record);
    out
}

/// Why the log could not take a record.
pub enum LogError {
    /// The log's bytes are not UTF-8 text.
    NotText,
}

/// Relies on `std::str::from_utf8`: `Ok` exactly when the bytes are UTF-8.
#[verifier::external_body]
fn is_utf8(b: &[u8]) -> (r: bool)
    ensures
        r == valid_utf8(b@),
{
    std::str::from_utf8(b).is_ok()
}

/// The text of a log that was just created: the header line alone.
pub fn initial_contents(header: &Vec<u8>) -> (r: Vec<u8>)
    ensures
        r@ == header@.push(NEWLINE),
{
    let mut out: Vec<u8> = Vec::new();
    push_bytes(&mut out, header);
    out.push(NEWLINE);
    out
}

/// Appends `record` to the log text `contents` under the bound
/// `max_records`, once the text is known to be UTF-8.
pub fn append_record(contents: &Vec<u8>, record: &Vec<u8>, max_records: usize) -> (r: Result<
    Vec<u8>,
    LogError,
>)
    requires
        max_records >= 2,
    ensures
        valid_utf8(contents@) ==> (r matches Ok(t) && t@ == appended(
            contents@,
            record@,
            max_records as int,
        )),
        !valid_utf8(contents@) ==> r matches Err(LogError::NotText),
{
    if is_utf8(contents.as_slice()) {
        Ok(append_to_text(contents, record, max_records))
    } else {
        Err(LogError::NotText)
    }
}

/// The log text that follows an append of `record`: `existing` is what the
/// file holds, `None` where there is no file yet, which is then taken to
/// hold the header line alone.
pub fn next_log_text(
    existing: Option<&Vec<u8>>,
    header: &Vec<u8>,
    record: &Vec<u8>,
    max_records: usize,
) -> (r: Result<Vec<u8>, LogError>)
    requires
        max_records >= 2,
    ensures
        ({
            let start = match existing {
                Some(c) => c@,
                None => header@.push(NEWLINE),
            };
            &&& valid_utf8(start) ==> (r matches Ok(t) && t@ == appended(
                start,
                record@,
                max_records as int,
            ))
            &&& !valid_utf8(start) ==> r matches Err(LogError::NotText)
        }),
{
    match existing {
        Some(c) => append_record(c, record, max_records),
        None => {
            let start = initial_contents(header);
            append_record(&start, record, max_records)
        },
    }
}

} // verus!
