//! Record and field grammar of the delimited input.
//!
//! The input is a byte stream of newline-terminated records; a record is a
//! comma-separated list of fields. Under the strict profile a field that
//! starts with a double quote runs to the matching closing quote, with `""`
//! standing for one literal quote, and the closing quote must be followed by
//! a comma or the end of the record; quoted fields do not span records.
//! Under the lenient profile quotes carry no meaning at all.

use vstd::prelude::*;

use crate::text::{
    find_byte, lemma_find_byte_props, find_byte_from, copy_range, push_bytes,
    COMMA, QUOTE, NEWLINE, CARRIAGE_RETURN,
};

verus! {

/// The two recognized quoting profiles of the input.
#[derive(Clone, Copy, PartialEq, Eq, Structural, Debug)]
pub enum QuotingMode {
    /// Quoting is enforced; a malformed quoted field is a structural error.
    Strict,
    /// Quotes are ordinary bytes; fields split on commas alone.
    Lenient,
}

/// The byte views of a sequence of field buffers.
pub open spec fn fields_view(v: Seq<Vec<u8>>) -> Seq<Seq<u8>> {
    v.map_values(|f: Vec<u8>| f@)
}

/// Field split of one record when quotes carry no meaning.
pub open spec fn lenient_fields(rec: Seq<u8>) -> Seq<Seq<u8>>
    decreases rec.len(),
    via lenient_fields_dec
{
    match find_byte(rec, COMMA) {
        None => seq![rec],
        Some(i) => seq![rec.take(i)] + lenient_fields(rec.skip(i + 1)),
    }
}

#[via_fn]
proof fn lenient_fields_dec(rec: Seq<u8>) {
    lemma_find_byte_props(rec, COMMA);
}

/// Splits one record on commas, quotes carrying no meaning.
pub fn split_lenient(rec: &[u8]) -> (r: Vec<Vec<u8>>)
    ensures
        fields_view(r@) == lenient_fields(rec@),
{
    let mut out: Vec<Vec<u8>> = Vec::new();
    let mut pos: usize = 0;
    let n = rec.len();
    proof {
        assert(rec@.skip(0) =~= rec@);
        assert(fields_view(out@) + lenient_fields(rec@.skip(0)) =~= lenient_fields(rec@));
    }
    loop
        invariant
            pos <= n,
            n == rec@.len(),
            lenient_fields(rec@) == fields_view(out@) + lenient_fields(rec@.skip(pos as int)),
        decreases n - pos,
    {
        let ghost rem = rec@.skip(pos as int);
        match find_byte_from(rec, pos, COMMA) {
            None => {
                let ghost prev = out@;
                let field = copy_range(rec, pos, n);
                out.push(field);
                proof {
                    assert(field@ =~= rem);
                    assert(lenient_fields(rem) =~= seq![rem]);
                    assert(fields_view(out@) =~= fields_view(prev) + seq![field@]);
                    assert(fields_view(out@) =~= lenient_fields(rec@));
                }
                return out;
            }
            Some(j) => {
                let ghost prev = out@;
                let field = copy_range(rec, pos, j);
                out.push(field);
                proof {
                    let i = j - pos;
                    assert(rem.take(i) =~= field@);
                    assert(rem.skip(i + 1) =~= rec@.skip(j + 1));
                    assert(lenient_fields(rem) == seq![field@] + lenient_fields(rec@.skip(j + 1)));
                    assert(fields_view(out@) =~= fields_view(prev) + seq![field@]);
                    assert(fields_view(prev) + (seq![field@] + lenient_fields(rec@.skip(j + 1)))
                        =~= fields_view(out@) + lenient_fields(rec@.skip(j + 1)));
                }
                pos = j + 1;
            }
        }
    }
}

/// One raw record: its byte offset in the input and its bytes, the line
/// terminator and any carriage return before it removed.
pub struct RawRecord {
    /// Offset of the record's first byte in the input.
    pub offset: usize,
    /// The record's bytes.
    pub data: Vec<u8>,
}

/// Mathematical image of a raw record.
#[verifier::ext_equal]
pub ghost struct RawRecordView {
    /// Offset of the record's first byte in the input.
    pub offset: int,
    /// The record's bytes.
    pub data: Seq<u8>,
}

impl View for RawRecord {
    type V = RawRecordView;

    open spec fn view(&self) -> RawRecordView {
        RawRecordView { offset: self.offset as int, data: self.data@ }
    }
}

/// The views of a sequence of raw records.
pub open spec fn records_view(v: Seq<RawRecord>) -> Seq<RawRecordView> {
    v.map_values(|r: RawRecord| r@)
}

/// Removes one trailing carriage return, if present.
pub open spec fn strip_cr(s: Seq<u8>) -> Seq<u8> {
    if s.len() > 0 && s.last() == CARRIAGE_RETURN {
        s.drop_last()
    } else {
        s
    }
}

/// The records of the input from offset `base` on: one per newline-terminated
/// line (the last line needs no terminator), each stripped of its terminator
/// and of a carriage return before it; blank lines yield no record.
pub open spec fn spec_records(input: Seq<u8>, base: int) -> Seq<RawRecordView>
    decreases input.len(),
    via spec_records_dec
{
    if input.len() == 0 {
        Seq::empty()
    } else {
        match find_byte(input, NEWLINE) {
            None => {
                let d = strip_cr(input);
                if d.len() == 0 {
                    Seq::empty()
                } else {
                    seq![RawRecordView { offset: base, data: d }]
                }
            }
            Some(i) => {
                let d = strip_cr(input.take(i));
                let rest = spec_records(input.skip(i + 1), base + i + 1);
                if d.len() == 0 {
                    rest
                } else {
                    seq![RawRecordView { offset: base, data: d }] + rest
                }
            }
        }
    }
}

#[via_fn]
proof fn spec_records_dec(input: Seq<u8>, base: int) {
    if input.len() > 0 {
        lemma_find_byte_props(input, NEWLINE);
    }
}

/// Splits the input into its records, keeping each record's byte offset.
pub fn split_records(input: &[u8]) -> (r: Vec<RawRecord>)
    ensures
        records_view(r@) == spec_records(input@, 0),
{
    let n = input.len();
    let mut out: Vec<RawRecord> = Vec::new();
    let mut pos: usize = 0;
    proof {
        assert(input@.skip(0) =~= input@);
        assert(records_view(out@) + spec_records(input@.skip(0), 0) =~= spec_records(input@, 0));
    }
    while pos < n
        invariant
            pos <= n,
            n == input@.len(),
            spec_records(input@, 0) == records_view(out@) + spec_records(input@.skip(pos as int), pos as int),
        decreases n - pos,
    {
        let ghost rem = input@.skip(pos as int);
        let (line_end, found) = match find_byte_from(input, pos, NEWLINE) {
            Some(j) => (j, true),
            None => (n, false),
        };
        let data_end = if line_end > pos && input[line_end - 1] == CARRIAGE_RETURN {
            line_end - 1
        } else {
            line_end
        };
        let ghost prev = out@;
        let ghost line = input@.subrange(pos as int, line_end as int);
        proof {
            if found {
                assert(rem.take(line_end - pos) =~= line);
            } else {
                assert(rem =~= line);
            }
            if line.len() > 0 && line.last() == CARRIAGE_RETURN {
                assert(line.last() == input@[line_end - 1]);
                assert(strip_cr(line) =~= input@.subrange(pos as int, data_end as int));
            } else {
                assert(strip_cr(line) =~= input@.subrange(pos as int, data_end as int));
            }
        }
        if data_end > pos {
            let data = copy_range(input, pos, data_end);
            out.push(RawRecord { offset: pos, data });
            proof {
                assert(records_view(out@) =~= records_view(prev) + seq![out@.last()@]);
            }
        } else {
            proof {
                assert(strip_cr(line).len() == 0);
            }
        }
        proof {
            let d = strip_cr(line);
            if found {
                assert(rem.skip(line_end - pos + 1) =~= input@.skip(line_end + 1));
                assert(spec_records(rem, pos as int) == (if d.len() == 0 {
                    spec_records(input@.skip(line_end + 1), line_end + 1)
                } else {
                    seq![RawRecordView { offset: pos as int, data: d }]
                        + spec_records(input@.skip(line_end + 1), line_end + 1)
                }));
                if d.len() > 0 {
                    assert(out@.last()@ == RawRecordView { offset: pos as int, data: d });
                    assert(records_view(prev) + (seq![out@.last()@]
                            + spec_records(input@.skip(line_end + 1), line_end + 1))
                        =~= records_view(out@) + spec_records(input@.skip(line_end + 1), line_end + 1));
                }
            } else {
                assert(spec_records(rem, pos as int) == (if d.len() == 0 {
                    Seq::<RawRecordView>::empty()
                } else {
                    seq![RawRecordView { offset: pos as int, data: d }]
                }));
                if d.len() > 0 {
                    assert(out@.last()@ == RawRecordView { offset: pos as int, data: d });
                }
                assert(input@.skip(n as int).len() == 0);
                assert(records_view(prev) + spec_records(rem, pos as int)
                    =~= records_view(out@) + spec_records(input@.skip(n as int), n as int));
            }
        }
        if found {
            pos = line_end + 1;
        } else {
            pos = n;
        }
    }
    proof {
        assert(spec_records(input@.skip(n as int), n as int) =~= Seq::<RawRecordView>::empty());
        assert(records_view(out@) + Seq::<RawRecordView>::empty() =~= records_view(out@));
    }
    out
}

/// Reads a quoted field body, the opening quote already consumed.
/// Yields the field's content and the bytes after the closing quote,
/// or nothing when the quote is never closed.
pub open spec fn quoted_tail(s: Seq<u8>) -> Option<(Seq<u8>, Seq<u8>)>
    decreases s.len(),
    via quoted_tail_dec
{
    match find_byte(s, QUOTE) {
        None => None,
        Some(i) => {
            let before = s.take(i);
            let after = s.skip(i + 1);
            if after.len() > 0 && after[0] == QUOTE {
                match quoted_tail(after.skip(1)) {
                    None => None,
                    Some(p) => Some((before.push(QUOTE) + p.0, p.1)),
                }
            } else {
                Some((before, after))
            }
        }
    }
}

#[via_fn]
proof fn quoted_tail_dec(s: Seq<u8>) {
    lemma_find_byte_props(s, QUOTE);
}

/// What is left after a closed quoted field is strictly shorter than
/// what the field was read from.
pub proof fn lemma_quoted_tail_len(s: Seq<u8>)
    ensures
        quoted_tail(s) matches Some(p) ==> p.1.len() < s.len(),
    decreases s.len(),
{
    lemma_find_byte_props(s, QUOTE);
    match find_byte(s, QUOTE) {
        None => {}
        Some(i) => {
            let after = s.skip(i + 1);
            if after.len() > 0 && after[0] == QUOTE {
                lemma_quoted_tail_len(after.skip(1));
            }
        }
    }
}

/// Field split of one record with quoting enforced; nothing when the
/// record's quoting is malformed.
pub open spec fn strict_fields(rec: Seq<u8>) -> Option<Seq<Seq<u8>>>
    decreases rec.len(),
    via strict_fields_dec
{
    if rec.len() > 0 && rec[0] == QUOTE {
        match quoted_tail(rec.skip(1)) {
            None => None,
            Some(p) => {
                if p.1.len() == 0 {
                    Some(seq![p.0])
                } else if p.1[0] == COMMA {
                    match strict_fields(p.1.skip(1)) {
                        None => None,
                        Some(fs) => Some(seq![p.0] + fs),
                    }
                } else {
                    None
                }
            }
        }
    } else {
        match find_byte(rec, COMMA) {
            None => Some(seq![rec]),
            Some(i) => match strict_fields(rec.skip(i + 1)) {
                None => None,
                Some(fs) => Some(seq![rec.take(i)] + fs),
            },
        }
    }
}

#[via_fn]
proof fn strict_fields_dec(rec: Seq<u8>) {
    if rec.len() > 0 && rec[0] == QUOTE {
        lemma_quoted_tail_len(rec.skip(1));
    } else {
        lemma_find_byte_props(rec, COMMA);
    }
}

/// Reads one quoted field of `rec` whose opening quote sits at `start - 1`.
/// Returns the content and the index just after the closing quote.
fn take_quoted(rec: &[u8], start: usize) -> (r: Option<(Vec<u8>, usize)>)
    requires
        start <= rec@.len(),
    ensures
        r matches Some(p) ==> start <= p.1 <= rec@.len()
            && quoted_tail(rec@.skip(start as int)) == Some((p.0@, rec@.skip(p.1 as int))),
        r is None ==> quoted_tail(rec@.skip(start as int)) is None,
{
    let n = rec.len();
    let mut content: Vec<u8> = Vec::new();
    let mut i: usize = start;
    loop
        invariant
            start <= i <= n,
            n == rec@.len(),
            quoted_tail(rec@.skip(start as int)) == (match quoted_tail(rec@.skip(i as int)) {
                None => None::<(Seq<u8>, Seq<u8>)>,
                Some(p) => Some((content@ + p.0, p.1)),
            }),
        decreases n - i,
    {
        let ghost rem = rec@.skip(i as int);
        match find_byte_from(rec, i, QUOTE) {
            None => {
                return None;
            }
            Some(q) => {
                let ghost prev = content@;
                let piece = copy_range(rec, i, q);
                push_bytes(&mut content, piece.as_slice());
                proof {
                    let k = q - i;
                    assert(rem.take(k) =~= piece@);
                    assert(rem.skip(k + 1) =~= rec@.skip(q + 1));
                }
                if q + 1 < n && rec[q + 1] == QUOTE {
                    content.push(QUOTE);
                    proof {
                        let k = q - i;
                        let after = rem.skip(k + 1);
                        assert(after.len() > 0 && after[0] == QUOTE);
                        assert(after.skip(1) =~= rec@.skip(q + 2));
                        assert(content@ =~= prev + piece@.push(QUOTE));
                        assert(quoted_tail(rem) == (match quoted_tail(rec@.skip(q + 2)) {
                            None => None::<(Seq<u8>, Seq<u8>)>,
                            Some(p) => Some((piece@.push(QUOTE) + p.0, p.1)),
                        }));
                        assert(forall|p0: Seq<u8>| prev + (piece@.push(QUOTE) + p0)
                            =~= #[trigger] (content@ + p0));
                    }
                    i = q + 2;
                } else {
                    proof {
                        let k = q - i;
                        let after = rem.skip(k + 1);
                        assert(!(after.len() > 0 && after[0] == QUOTE));
                        assert(quoted_tail(rem) == Some((piece@, rec@.skip(q + 1))));
                        assert(content@ =~= prev + piece@);
                    }
                    return Some((content, q + 1));
                }
            }
        }
    }
}

/// Splits one record with quoting enforced; nothing when the quoting is
/// malformed.
pub fn split_strict(rec: &[u8]) -> (r: Option<Vec<Vec<u8>>>)
    ensures
        r matches Some(v) ==> strict_fields(rec@) == Some(fields_view(v@)),
        r is None ==> strict_fields(rec@) is None,
{
    let n = rec.len();
    let mut out: Vec<Vec<u8>> = Vec::new();
    let mut pos: usize = 0;
    proof {
        assert(rec@.skip(0) =~= rec@);
    }
    loop
        invariant
            pos <= n,
            n == rec@.len(),
            strict_fields(rec@) == (match strict_fields(rec@.skip(pos as int)) {
                None => None::<Seq<Seq<u8>>>,
                Some(fs) => Some(fields_view(out@) + fs),
            }),
        decreases n - pos,
    {
        let ghost rem = rec@.skip(pos as int);
        if pos < n && rec[pos] == QUOTE {
            proof {
                assert(rem.len() > 0 && rem[0] == QUOTE);
                assert(rem.skip(1) =~= rec@.skip(pos + 1));
            }
            match take_quoted(rec, pos + 1) {
                None => {
                    return None;
                }
                Some((content, next)) => {
                    let ghost prev = out@;
                    let ghost tail = rec@.skip(next as int);
                    out.push(content);
                    proof {
                        assert(fields_view(out@) =~= fields_view(prev) + seq![out@.last()@]);
                    }
                    if next == n {
                        proof {
                            assert(tail.len() == 0);
                            assert(strict_fields(rem) == Some(seq![out@.last()@]));
                            assert(fields_view(prev) + seq![out@.last()@] =~= fields_view(out@));
                        }
                        return Some(out);
                    }
                    if rec[next] == COMMA {
                        proof {
                            assert(tail[0] == COMMA);
                            assert(tail.skip(1) =~= rec@.skip(next + 1));
                            assert(strict_fields(rem) == (match strict_fields(rec@.skip(next + 1)) {
                                None => None::<Seq<Seq<u8>>>,
                                Some(fs) => Some(seq![out@.last()@] + fs),
                            }));
                            assert(forall|fs: Seq<Seq<u8>>| fields_view(prev) + (seq![out@.last()@] + fs)
                                =~= #[trigger] (fields_view(out@) + fs));
                        }
                        pos = next + 1;
                    } else {
                        proof {
                            assert(tail.len() > 0 && tail[0] != COMMA);
                            assert(strict_fields(rem) is None);
                        }
                        return None;
                    }
                }
            }
        } else {
            proof {
                assert(!(rem.len() > 0 && rem[0] == QUOTE));
            }
            match find_byte_from(rec, pos, COMMA) {
                None => {
                    let ghost prev = out@;
                    let field = copy_range(rec, pos, n);
                    out.push(field);
                    proof {
                        assert(field@ =~= rem);
                        assert(strict_fields(rem) == Some(seq![field@]));
                        assert(fields_view(out@) =~= fields_view(prev) + seq![field@]);
                        assert(fields_view(prev) + seq![field@] =~= fields_view(out@));
                    }
                    return Some(out);
                }
                Some(j) => {
                    let ghost prev = out@;
                    let field = copy_range(rec, pos, j);
                    out.push(field);
                    proof {
                        let k = j - pos;
                        assert(rem.take(k) =~= field@);
                        assert(rem.skip(k + 1) =~= rec@.skip(j + 1));
                        assert(strict_fields(rem) == (match strict_fields(rec@.skip(j + 1)) {
                            None => None::<Seq<Seq<u8>>>,
                            Some(fs) => Some(seq![field@] + fs),
                        }));
                        assert(fields_view(out@) =~= fields_view(prev) + seq![field@]);
                        assert(forall|fs: Seq<Seq<u8>>| fields_view(prev) + (seq![field@] + fs)
                            =~= #[trigger] (fields_view(out@) + fs));
                    }
                    pos = j + 1;
                }
            }
        }
    }
}

} // verus!
