//! The import pipeline: records in, row outcomes out, then a recovery
//! pass over the failures.
//!
//! The first record is the header; every later record either becomes a
//! card (kept or excluded as a token print) or a failure carrying the
//! record's byte offset. After the streaming pass, the recovery pass
//! revisits each failure's offset to re-read the raw row for diagnostics;
//! when that re-read fails, the diagnostic degrades to offset and cause
//! alone. Reading the input and writing the output are the surrounding
//! application's business: the pipeline works on bytes it is handed.

use vstd::prelude::*;

use crate::card::{spec_normalize, spec_render_line, Card, CardView};
use crate::filter::{is_token, spec_is_token};
use crate::records::{
    fields_view, lenient_fields, records_view, split_lenient, split_records, split_strict,
    spec_records, strict_fields, strip_cr, QuotingMode, RawRecord, RawRecordView,
};
use crate::row::{decode_row, spec_decode, RowError};
use crate::text::{copy_range, find_byte, find_byte_from, push_bytes, CARRIAGE_RETURN, NEWLINE};

verus! {

/// One row that failed structural decoding.
#[derive(Clone, Copy, PartialEq, Eq, Structural, Debug)]
pub struct ImportFailure {
    /// Byte offset of the row's record in the input.
    pub offset: usize,
    /// Why the row failed.
    pub cause: RowError,
}

/// Mathematical image of an import failure.
#[verifier::ext_equal]
pub ghost struct ImportFailureView {
    /// Byte offset of the row's record in the input.
    pub offset: int,
    /// Why the row failed.
    pub cause: RowError,
}

impl View for ImportFailure {
    type V = ImportFailureView;

    open spec fn view(&self) -> ImportFailureView {
        ImportFailureView { offset: self.offset as int, cause: self.cause }
    }
}

/// What one data row became.
pub enum RowOutcome {
    /// The row was accepted and normalized.
    Accepted(Card),
    /// The row named a token print and was excluded; the card it would
    /// have made is kept for the operator's log.
    Excluded(Card),
    /// The row failed structural decoding.
    Failed(ImportFailure),
}

/// Mathematical image of a row outcome.
#[verifier::ext_equal]
pub ghost enum RowOutcomeView {
    /// The row was accepted and normalized.
    Accepted(CardView),
    /// The row named a token print and was excluded.
    Excluded(CardView),
    /// The row failed structural decoding.
    Failed(ImportFailureView),
}

impl View for RowOutcome {
    type V = RowOutcomeView;

    open spec fn view(&self) -> RowOutcomeView {
        match self {
            RowOutcome::Accepted(c) => RowOutcomeView::Accepted(c@),
            RowOutcome::Excluded(c) => RowOutcomeView::Excluded(c@),
            RowOutcome::Failed(f) => RowOutcomeView::Failed(f@),
        }
    }
}

/// The views of a sequence of row outcomes.
pub open spec fn outcomes_view(v: Seq<RowOutcome>) -> Seq<RowOutcomeView> {
    v.map_values(|o: RowOutcome| o@)
}

/// Configuration the surrounding application hands the pipeline.
#[derive(Clone, Copy)]
pub struct ImportConfig {
    /// Which quoting profile the run uses.
    pub quoting: QuotingMode,
    /// Stop after this many accepted rows, checked at row granularity.
    pub max_rows: Option<usize>,
}

/// The import cannot start at all.
#[derive(Clone, Copy, PartialEq, Eq, Structural, Debug)]
pub enum ImportError {
    /// The header record cannot be split into column names.
    BadHeader,
}

/// Field split of one record under the chosen profile.
pub open spec fn mode_fields(mode: QuotingMode, rec: Seq<u8>) -> Option<Seq<Seq<u8>>> {
    match mode {
        QuotingMode::Strict => strict_fields(rec),
        QuotingMode::Lenient => Some(lenient_fields(rec)),
    }
}

/// Splits one record under the chosen profile.
pub fn split_fields(mode: QuotingMode, rec: &[u8]) -> (r: Option<Vec<Vec<u8>>>)
    ensures
        r matches Some(v) ==> mode_fields(mode, rec@) == Some(fields_view(v@)),
        r is None ==> mode_fields(mode, rec@) is None,
{
    match mode {
        QuotingMode::Strict => split_strict(rec),
        QuotingMode::Lenient => Some(split_lenient(rec)),
    }
}

/// What one data record becomes: a failure carrying the record's offset
/// when it cannot be split, has the wrong field count, or does not
/// decode; otherwise its card, excluded when it names a token print.
pub open spec fn spec_row_outcome(
    header: Seq<Seq<u8>>,
    rec: RawRecordView,
    mode: QuotingMode,
) -> RowOutcomeView {
    match mode_fields(mode, rec.data) {
        None => RowOutcomeView::Failed(
            ImportFailureView { offset: rec.offset, cause: RowError::MalformedQuoting },
        ),
        Some(fs) => {
            if fs.len() != header.len() {
                RowOutcomeView::Failed(
                    ImportFailureView { offset: rec.offset, cause: RowError::WrongFieldCount },
                )
            } else {
                match spec_decode(header, fs) {
                    Err(e) => RowOutcomeView::Failed(
                        ImportFailureView { offset: rec.offset, cause: e },
                    ),
                    Ok(p) => {
                        if spec_is_token(p) {
                            RowOutcomeView::Excluded(spec_normalize(p))
                        } else {
                            RowOutcomeView::Accepted(spec_normalize(p))
                        }
                    }
                }
            }
        }
    }
}

/// Processes one data record.
pub fn process_record(header: &Vec<Vec<u8>>, rec: &RawRecord, mode: QuotingMode) -> (o: RowOutcome)
    ensures
        o@ == spec_row_outcome(fields_view(header@), rec@, mode),
{
    match split_fields(mode, rec.data.as_slice()) {
        None => RowOutcome::Failed(
            ImportFailure { offset: rec.offset, cause: RowError::MalformedQuoting },
        ),
        Some(fs) => {
            if fs.len() != header.len() {
                RowOutcome::Failed(
                    ImportFailure { offset: rec.offset, cause: RowError::WrongFieldCount },
                )
            } else {
                match decode_row(header, &fs) {
                    Err(e) => RowOutcome::Failed(ImportFailure { offset: rec.offset, cause: e }),
                    Ok(p) => {
                        let token = is_token(&p);
                        let card = Card::from_row(p);
                        if token {
                            RowOutcome::Excluded(card)
                        } else {
                            RowOutcome::Accepted(card)
                        }
                    }
                }
            }
        }
    }
}

/// A row cap lowered by one accepted row.
pub open spec fn dec_cap(cap: Option<nat>) -> Option<nat> {
    match cap {
        None => None,
        Some(k) => Some((k - 1) as nat),
    }
}

/// The cap as a count, where the configuration sets one.
pub open spec fn cap_of(m: Option<usize>) -> Option<nat> {
    match m {
        None => None,
        Some(k) => Some(k as nat),
    }
}

/// Outcomes of the data records in order, stopping once the cap of
/// accepted rows is exhausted; rows after the stop are not touched.
pub open spec fn spec_outcomes(
    header: Seq<Seq<u8>>,
    recs: Seq<RawRecordView>,
    mode: QuotingMode,
    cap: Option<nat>,
) -> Seq<RowOutcomeView>
    decreases recs.len(),
{
    if recs.len() == 0 || cap == Some(0nat) {
        Seq::empty()
    } else {
        let o = spec_row_outcome(header, recs[0], mode);
        let rest_cap = if o is Accepted {
            dec_cap(cap)
        } else {
            cap
        };
        seq![o] + spec_outcomes(header, recs.skip(1), mode, rest_cap)
    }
}

/// The whole import on one input: the first record is the header, every
/// later record yields one outcome, in input order, until the cap of
/// accepted rows is reached. An input without records imports to nothing;
/// a header that cannot be split refuses the import.
pub open spec fn spec_import(input: Seq<u8>, cfg: ImportConfig) -> Result<
    Seq<RowOutcomeView>,
    ImportError,
> {
    let recs = spec_records(input, 0);
    if recs.len() == 0 {
        Ok(Seq::empty())
    } else {
        match mode_fields(cfg.quoting, recs[0].data) {
            None => Err(ImportError::BadHeader),
            Some(header) => Ok(spec_outcomes(header, recs.skip(1), cfg.quoting, cap_of(cfg.max_rows))),
        }
    }
}

/// Runs the streaming pass of the import over the input bytes.
pub fn import(input: &[u8], cfg: ImportConfig) -> (r: Result<Vec<RowOutcome>, ImportError>)
    ensures
        r matches Ok(v) ==> spec_import(input@, cfg) == Ok::<Seq<RowOutcomeView>, ImportError>(
            outcomes_view(v@),
        ),
        r matches Err(e) ==> spec_import(input@, cfg) == Err::<Seq<RowOutcomeView>, ImportError>(e),
{
    let records = split_records(input);
    let ghost grecs = records_view(records@);
    if records.len() == 0 {
        proof {
            assert(outcomes_view(Seq::empty()) =~= Seq::<RowOutcomeView>::empty());
        }
        return Ok(Vec::new());
    }
    let header = match split_fields(cfg.quoting, records[0].data.as_slice()) {
        None => {
            return Err(ImportError::BadHeader);
        }
        Some(h) => h,
    };
    let ghost h = fields_view(header@);
    let mut out: Vec<RowOutcome> = Vec::new();
    let mut left: Option<usize> = cfg.max_rows;
    let mut i: usize = 1;
    let n = records.len();
    proof {
        assert(outcomes_view(out@) + spec_outcomes(h, grecs.skip(1), cfg.quoting, cap_of(left))
            =~= spec_outcomes(h, grecs.skip(1), cfg.quoting, cap_of(cfg.max_rows)));
    }
    loop
        invariant
            1 <= i <= n,
            n == records@.len(),
            grecs == records_view(records@),
            grecs == spec_records(input@, 0),
            grecs.len() == n,
            mode_fields(cfg.quoting, grecs[0].data) == Some(h),
            h == fields_view(header@),
            spec_outcomes(h, grecs.skip(1), cfg.quoting, cap_of(cfg.max_rows)) == outcomes_view(out@)
                + spec_outcomes(h, grecs.skip(i as int), cfg.quoting, cap_of(left)),
        decreases n - i,
    {
        if i >= n {
            proof {
                assert(grecs.skip(n as int).len() == 0);
                assert(spec_outcomes(h, grecs.skip(n as int), cfg.quoting, cap_of(left))
                    =~= Seq::<RowOutcomeView>::empty());
                assert(outcomes_view(out@) + Seq::<RowOutcomeView>::empty() =~= outcomes_view(out@));
            }
            return Ok(out);
        }
        let stop = match left {
            Some(k) => k == 0,
            None => false,
        };
        if stop {
            proof {
                assert(cap_of(left) == Some(0nat));
                assert(spec_outcomes(h, grecs.skip(i as int), cfg.quoting, cap_of(left))
                    =~= Seq::<RowOutcomeView>::empty());
                assert(outcomes_view(out@) + Seq::<RowOutcomeView>::empty() =~= outcomes_view(out@));
            }
            return Ok(out);
        }
        let ghost rem = grecs.skip(i as int);
        let ghost cap_prev = cap_of(left);
        let outcome = process_record(&header, &records[i], cfg.quoting);
        proof {
            assert(rem[0] == grecs[i as int]);
            assert(outcome@ == spec_row_outcome(h, rem[0], cfg.quoting));
        }
        let accepted = match outcome {
            RowOutcome::Accepted(_) => true,
            _ => false,
        };
        if accepted {
            left = match left {
                Some(k) => Some(k - 1),
                None => None,
            };
        }
        let ghost prev = out@;
        out.push(outcome);
        proof {
            assert(rem.len() > 0 && cap_prev != Some(0nat));
            let o = spec_row_outcome(h, rem[0], cfg.quoting);
            assert(accepted == (o is Accepted));
            assert(cap_of(left) == (if o is Accepted {
                dec_cap(cap_prev)
            } else {
                cap_prev
            }));
            assert(rem.skip(1) =~= grecs.skip(i + 1));
            assert(spec_outcomes(h, rem, cfg.quoting, cap_prev) == seq![o] + spec_outcomes(
                h,
                grecs.skip(i + 1),
                cfg.quoting,
                cap_of(left),
            ));
            assert(outcomes_view(out@) =~= outcomes_view(prev) + seq![o]);
            assert(outcomes_view(prev) + (seq![o] + spec_outcomes(
                h,
                grecs.skip(i + 1),
                cfg.quoting,
                cap_of(left),
            )) =~= outcomes_view(out@) + spec_outcomes(h, grecs.skip(i + 1), cfg.quoting, cap_of(left)));
        }
        i = i + 1;
    }
}

/// The views of a sequence of cards.
pub open spec fn cards_view(v: Seq<Card>) -> Seq<CardView> {
    v.map_values(|c: Card| c@)
}

/// The views of a sequence of import failures.
pub open spec fn failures_view(v: Seq<ImportFailure>) -> Seq<ImportFailureView> {
    v.map_values(|f: ImportFailure| f@)
}

/// The accepted cards among the outcomes, in order.
pub open spec fn accepted_of(os: Seq<RowOutcomeView>) -> Seq<CardView>
    decreases os.len(),
{
    if os.len() == 0 {
        Seq::empty()
    } else {
        (match os[0] {
            RowOutcomeView::Accepted(c) => seq![c],
            _ => Seq::empty(),
        }) + accepted_of(os.skip(1))
    }
}

/// The failures among the outcomes, in order.
pub open spec fn failures_of(os: Seq<RowOutcomeView>) -> Seq<ImportFailureView>
    decreases os.len(),
{
    if os.len() == 0 {
        Seq::empty()
    } else {
        (match os[0] {
            RowOutcomeView::Failed(f) => seq![f],
            _ => Seq::empty(),
        }) + failures_of(os.skip(1))
    }
}

/// Copies a card.
fn copy_card(c: &Card) -> (r: Card)
    ensures
        r@ == c@,
{
    let r = Card {
        quantity: c.quantity,
        name: copy_range(c.name.as_slice(), 0, c.name.len()),
        set: copy_range(c.set.as_slice(), 0, c.set.len()),
        collector_number: copy_range(c.collector_number.as_slice(), 0, c.collector_number.len()),
        is_foil: c.is_foil,
    };
    proof {
        assert(r.name@ =~= c.name@);
        assert(r.set@ =~= c.set@);
        assert(r.collector_number@ =~= c.collector_number@);
        assert(r@ =~= c@);
    }
    r
}

/// Collects the accepted cards among the outcomes, in order.
pub fn accepted_cards(outcomes: &Vec<RowOutcome>) -> (r: Vec<Card>)
    ensures
        cards_view(r@) == accepted_of(outcomes_view(outcomes@)),
{
    let ghost os = outcomes_view(outcomes@);
    let mut out: Vec<Card> = Vec::new();
    let mut i: usize = 0;
    let n = outcomes.len();
    proof {
        assert(os.skip(0) =~= os);
        assert(cards_view(out@) + accepted_of(os.skip(0)) =~= accepted_of(os));
    }
    while i < n
        invariant
            i <= n,
            n == outcomes@.len(),
            os == outcomes_view(outcomes@),
            accepted_of(os) == cards_view(out@) + accepted_of(os.skip(i as int)),
        decreases n - i,
    {
        let ghost rem = os.skip(i as int);
        let ghost prev = out@;
        proof {
            assert(rem[0] == os[i as int]);
            assert(rem.skip(1) =~= os.skip(i + 1));
        }
        match &outcomes[i] {
            RowOutcome::Accepted(c) => {
                let copy = copy_card(c);
                out.push(copy);
                proof {
                    assert(cards_view(out@) =~= cards_view(prev) + seq![out@.last()@]);
                    assert(cards_view(prev) + (seq![out@.last()@] + accepted_of(os.skip(i + 1)))
                        =~= cards_view(out@) + accepted_of(os.skip(i + 1)));
                }
            }
            _ => {
                proof {
                    assert(accepted_of(rem) == accepted_of(os.skip(i + 1)));
                }
            }
        }
        i = i + 1;
    }
    proof {
        assert(os.skip(n as int).len() == 0);
        assert(cards_view(out@) + accepted_of(os.skip(n as int)) =~= cards_view(out@));
    }
    out
}

/// Collects the failures among the outcomes, in order.
pub fn collect_failures(outcomes: &Vec<RowOutcome>) -> (r: Vec<ImportFailure>)
    ensures
        failures_view(r@) == failures_of(outcomes_view(outcomes@)),
{
    let ghost os = outcomes_view(outcomes@);
    let mut out: Vec<ImportFailure> = Vec::new();
    let mut i: usize = 0;
    let n = outcomes.len();
    proof {
        assert(os.skip(0) =~= os);
        assert(failures_view(out@) + failures_of(os.skip(0)) =~= failures_of(os));
    }
    while i < n
        invariant
            i <= n,
            n == outcomes@.len(),
            os == outcomes_view(outcomes@),
            failures_of(os) == failures_view(out@) + failures_of(os.skip(i as int)),
        decreases n - i,
    {
        let ghost rem = os.skip(i as int);
        let ghost prev = out@;
        proof {
            assert(rem[0] == os[i as int]);
            assert(rem.skip(1) =~= os.skip(i + 1));
        }
        match &outcomes[i] {
            RowOutcome::Failed(f) => {
                out.push(*f);
                proof {
                    assert(failures_view(out@) =~= failures_view(prev) + seq![out@.last()@]);
                    assert(failures_view(prev) + (seq![out@.last()@] + failures_of(os.skip(i + 1)))
                        =~= failures_view(out@) + failures_of(os.skip(i + 1)));
                }
            }
            _ => {
                proof {
                    assert(failures_of(rem) == failures_of(os.skip(i + 1)));
                }
            }
        }
        i = i + 1;
    }
    proof {
        assert(os.skip(n as int).len() == 0);
        assert(failures_view(out@) + failures_of(os.skip(n as int)) =~= failures_view(out@));
    }
    out
}

/// The whole output text: each card's line in order, each terminated by
/// one line feed.
pub open spec fn spec_output(cards: Seq<CardView>) -> Seq<u8>
    decreases cards.len(),
{
    if cards.len() == 0 {
        Seq::empty()
    } else {
        spec_render_line(cards[0]).push(NEWLINE) + spec_output(cards.skip(1))
    }
}

/// Renders the accepted cards into the output text, in order.
pub fn render_output(cards: &Vec<Card>) -> (r: Vec<u8>)
    ensures
        r@ == spec_output(cards_view(cards@)),
{
    let ghost cs = cards_view(cards@);
    let mut out: Vec<u8> = Vec::new();
    let mut i: usize = 0;
    let n = cards.len();
    proof {
        assert(cs.skip(0) =~= cs);
        assert(out@ + spec_output(cs.skip(0)) =~= spec_output(cs));
    }
    while i < n
        invariant
            i <= n,
            n == cards@.len(),
            cs == cards_view(cards@),
            spec_output(cs) == out@ + spec_output(cs.skip(i as int)),
        decreases n - i,
    {
        let ghost rem = cs.skip(i as int);
        let ghost prev = out@;
        proof {
            assert(rem[0] == cs[i as int]);
            assert(rem.skip(1) =~= cs.skip(i + 1));
        }
        let line = cards[i].render_line();
        push_bytes(&mut out, line.as_slice());
        out.push(NEWLINE);
        proof {
            assert(out@ =~= prev + spec_render_line(rem[0]).push(NEWLINE));
            assert(prev + (spec_render_line(rem[0]).push(NEWLINE) + spec_output(cs.skip(i + 1)))
                =~= out@ + spec_output(cs.skip(i + 1)));
        }
        i = i + 1;
    }
    proof {
        assert(cs.skip(n as int).len() == 0);
        assert(out@ + spec_output(cs.skip(n as int)) =~= out@);
    }
    out
}

/// One recovery diagnostic: the failure's position and cause, and the
/// re-read raw fields where the re-read succeeded.
pub struct Diagnostic {
    /// Byte offset of the failed row's record in the input.
    pub offset: usize,
    /// Why the row failed.
    pub cause: RowError,
    /// The raw fields re-read at the offset, where that was possible.
    pub raw_fields: Option<Vec<Vec<u8>>>,
}

/// Mathematical image of a recovery diagnostic.
#[verifier::ext_equal]
pub ghost struct DiagnosticView {
    /// Byte offset of the failed row's record in the input.
    pub offset: int,
    /// Why the row failed.
    pub cause: RowError,
    /// The raw fields re-read at the offset, where that was possible.
    pub raw_fields: Option<Seq<Seq<u8>>>,
}

impl View for Diagnostic {
    type V = DiagnosticView;

    open spec fn view(&self) -> DiagnosticView {
        DiagnosticView {
            offset: self.offset as int,
            cause: self.cause,
            raw_fields: match self.raw_fields {
                Some(v) => Some(fields_view(v@)),
                None => None,
            },
        }
    }
}

/// The raw line of the input that starts at offset `off`: the bytes up
/// to the next line feed, a carriage return before it stripped.
pub open spec fn line_at(input: Seq<u8>, off: int) -> Seq<u8> {
    let rest = input.skip(off);
    match find_byte(rest, NEWLINE) {
        None => strip_cr(rest),
        Some(i) => strip_cr(rest.take(i)),
    }
}

/// The recovery of one failure: its offset and cause always; the raw
/// fields of the line re-read at the offset where the offset lies in the
/// input and the line splits under the profile, else no fields.
pub open spec fn spec_recover(input: Seq<u8>, f: ImportFailureView, mode: QuotingMode) -> DiagnosticView {
    if 0 <= f.offset <= input.len() {
        DiagnosticView {
            offset: f.offset,
            cause: f.cause,
            raw_fields: mode_fields(mode, line_at(input, f.offset)),
        }
    } else {
        DiagnosticView { offset: f.offset, cause: f.cause, raw_fields: None }
    }
}

/// Re-reads one failure's raw row for its diagnostic; best effort, never
/// failing itself.
pub fn recover(input: &[u8], f: &ImportFailure, mode: QuotingMode) -> (r: Diagnostic)
    ensures
        r@ == spec_recover(input@, f@, mode),
{
    let n = input.len();
    if f.offset > n {
        let r = Diagnostic { offset: f.offset, cause: f.cause, raw_fields: None };
        proof {
            assert(r@ =~= spec_recover(input@, f@, mode));
        }
        return r;
    }
    let ghost rest = input@.skip(f.offset as int);
    let line_end = match find_byte_from(input, f.offset, NEWLINE) {
        Some(j) => j,
        None => n,
    };
    let data_end = if line_end > f.offset && input[line_end - 1] == CARRIAGE_RETURN {
        line_end - 1
    } else {
        line_end
    };
    let data = copy_range(input, f.offset, data_end);
    proof {
        let line = input@.subrange(f.offset as int, line_end as int);
        if line_end < n {
            assert(rest.take(line_end - f.offset) =~= line);
        } else {
            assert(rest =~= line);
        }
        if line.len() > 0 && line.last() == CARRIAGE_RETURN {
            assert(line.last() == input@[line_end - 1]);
            assert(strip_cr(line) =~= input@.subrange(f.offset as int, data_end as int));
        } else {
            assert(strip_cr(line) =~= input@.subrange(f.offset as int, data_end as int));
        }
        assert(data@ == line_at(input@, f.offset as int));
    }
    let raw_fields = split_fields(mode, data.as_slice());
    let r = Diagnostic { offset: f.offset, cause: f.cause, raw_fields };
    proof {
        assert(r@ =~= spec_recover(input@, f@, mode));
    }
    r
}

/// Runs the recovery pass over all failures, in order.
pub fn recover_all(input: &[u8], failures: &Vec<ImportFailure>, mode: QuotingMode) -> (r: Vec<
    Diagnostic,
>)
    ensures
        r@.len() == failures@.len(),
        forall|i: int| 0 <= i < failures@.len() ==> #[trigger] r@[i]@ == spec_recover(
            input@,
            failures@[i]@,
            mode,
        ),
{
    let mut out: Vec<Diagnostic> = Vec::new();
    let mut i: usize = 0;
    let n = failures.len();
    while i < n
        invariant
            i <= n,
            n == failures@.len(),
            out@.len() == i,
            forall|j: int| 0 <= j < i ==> #[trigger] out@[j]@ == spec_recover(
                input@,
                failures@[j]@,
                mode,
            ),
        decreases n - i,
    {
        let d = recover(input, &failures[i], mode);
        out.push(d);
        i = i + 1;
    }
    out
}

} // verus!
