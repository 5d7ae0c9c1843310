//! Structured decoding of one record against the header's column names.
//!
//! Columns are bound by header name, not by position. Missing optional
//! columns default per field: strings to empty, the quantity to zero, the
//! enumerations to their documented default variant. A quantity column
//! that is present but does not hold a non-negative integer fitting a
//! `usize` makes the row fail; every other column is taken as a string
//! and cannot fail.

use vstd::prelude::*;

use vstd::string::StrSliceExecFns;
use crate::records::fields_view;
use crate::text::{bytes_eq, copy_range, to_lower, lower_bytes, is_digits, dec_val, parse_decimal};

verus! {

/// The bytes of an ASCII string slice.
pub open spec fn ascii_seq(s: &str) -> Seq<u8> {
    Seq::new(s@.len(), |i: int| s@[i] as u8)
}

/// Converts an ASCII string slice to its bytes.
pub fn ascii_vec(s: &str) -> (r: Vec<u8>)
    requires
        s.is_ascii(),
    ensures
        r@ == ascii_seq(s),
{
    broadcast use vstd::string::is_ascii_spec_bytes;

    let r = s.as_bytes_vec();
    proof {
        assert(r@ =~= ascii_seq(s));
    }
    r
}

/// The `Name` column.
pub open spec fn name_alias() -> Seq<u8> {
    ascii_seq("Name")
}

/// The `Set code` column.
pub open spec fn set_code_alias() -> Seq<u8> {
    ascii_seq("Set code")
}

/// The `Set name` column.
pub open spec fn set_name_alias() -> Seq<u8> {
    ascii_seq("Set name")
}

/// The `Collector number` column.
pub open spec fn collector_number_alias() -> Seq<u8> {
    ascii_seq("Collector number")
}

/// The `Foil` column.
pub open spec fn foil_alias() -> Seq<u8> {
    ascii_seq("Foil")
}

/// The `Rarity` column.
pub open spec fn rarity_alias() -> Seq<u8> {
    ascii_seq("Rarity")
}

/// The `Quantity` column.
pub open spec fn quantity_alias() -> Seq<u8> {
    ascii_seq("Quantity")
}

/// The `Binder Name` column.
pub open spec fn binder_name_alias() -> Seq<u8> {
    ascii_seq("Binder Name")
}

/// The `Binder Type` column.
pub open spec fn binder_type_alias() -> Seq<u8> {
    ascii_seq("Binder Type")
}

/// The `ManaBox` column.
pub open spec fn manabox_alias() -> Seq<u8> {
    ascii_seq("ManaBox")
}

/// The `Scryfall ID` column.
pub open spec fn scryfall_id_alias() -> Seq<u8> {
    ascii_seq("Scryfall ID")
}

/// The `Purchase price` column.
pub open spec fn purchase_price_alias() -> Seq<u8> {
    ascii_seq("Purchase price")
}

/// The `Misprint` column.
pub open spec fn misprint_alias() -> Seq<u8> {
    ascii_seq("Misprint")
}

/// The `Altered` column.
pub open spec fn altered_alias() -> Seq<u8> {
    ascii_seq("Altered")
}

/// The `Condition` column.
pub open spec fn condition_alias() -> Seq<u8> {
    ascii_seq("Condition")
}

/// The `Language` column.
pub open spec fn language_alias() -> Seq<u8> {
    ascii_seq("Language")
}

/// The `Purchase price currency` column.
pub open spec fn purchase_price_currency_alias() -> Seq<u8> {
    ascii_seq("Purchase price currency")
}

/// Index of the first header column named `name`, if any.
pub open spec fn find_name(header: Seq<Seq<u8>>, name: Seq<u8>) -> Option<int>
    decreases header.len(),
{
    if header.len() == 0 {
        None
    } else if header[0] == name {
        Some(0int)
    } else {
        match find_name(header.skip(1), name) {
            None => None,
            Some(i) => Some(i + 1),
        }
    }
}

/// Does the header have a column named `name`?
pub open spec fn has_column(header: Seq<Seq<u8>>, name: Seq<u8>) -> bool {
    find_name(header, name) is Some
}

/// What a `find_name` result says about the header.
pub proof fn lemma_find_name_props(header: Seq<Seq<u8>>, name: Seq<u8>)
    ensures
        match find_name(header, name) {
            Some(i) => 0 <= i < header.len() && header[i] == name
                && (forall|j: int| 0 <= j < i ==> header[j] != name),
            None => forall|j: int| 0 <= j < header.len() ==> header[j] != name,
        },
    decreases header.len(),
{
    if header.len() > 0 && header[0] != name {
        lemma_find_name_props(header.skip(1), name);
        let t = header.skip(1);
        assert(forall|j: int| 1 <= j < header.len() ==> header[j] == #[trigger] t[j - 1]);
        match find_name(t, name) {
            Some(i) => {
                assert(header[i + 1] == t[i]);
                assert(forall|j: int| 0 <= j < i + 1 ==> header[j] != name) by {
                    assert(forall|j: int| 1 <= j < i + 1 ==> #[trigger] header[j] == t[j - 1]);
                }
            }
            None => {
                assert(forall|j: int| 0 <= j < header.len() ==> header[j] != name) by {
                    assert(forall|j: int| 1 <= j < header.len() ==> #[trigger] header[j] == t[j - 1]);
                }
            }
        }
    }
}

/// `find_name` returns the first matching index.
pub proof fn lemma_find_name_some(header: Seq<Seq<u8>>, name: Seq<u8>, i: int)
    requires
        0 <= i < header.len(),
        header[i] == name,
        forall|j: int| 0 <= j < i ==> header[j] != name,
    ensures
        find_name(header, name) == Some(i),
    decreases i,
{
    if i > 0 {
        lemma_find_name_some(header.skip(1), name, i - 1);
    }
}

/// `find_name` finds nothing when no column matches.
pub proof fn lemma_find_name_none(header: Seq<Seq<u8>>, name: Seq<u8>)
    requires
        forall|j: int| 0 <= j < header.len() ==> header[j] != name,
    ensures
        find_name(header, name) == None::<int>,
    decreases header.len(),
{
    if header.len() > 0 {
        lemma_find_name_none(header.skip(1), name);
    }
}

/// Value of the column named `name`: the field at the first header
/// position of that name, or empty when the header has no such column
/// or the row is too short for it.
pub open spec fn column_value(header: Seq<Seq<u8>>, fields: Seq<Seq<u8>>, name: Seq<u8>) -> Seq<u8> {
    match find_name(header, name) {
        None => Seq::empty(),
        Some(j) => if j < fields.len() {
            fields[j]
        } else {
            Seq::empty()
        },
    }
}

/// Index of the first header column named `name`, by search.
fn find_column(header: &Vec<Vec<u8>>, name: &[u8]) -> (r: Option<usize>)
    ensures
        r matches Some(j) ==> j < header@.len()
            && find_name(fields_view(header@), name@) == Some(j as int),
        r is None ==> find_name(fields_view(header@), name@) is None,
{
    let ghost h = fields_view(header@);
    let mut i: usize = 0;
    while i < header.len()
        invariant
            i <= header@.len(),
            h == fields_view(header@),
            forall|j: int| 0 <= j < i ==> h[j] != name@,
        decreases header@.len() - i,
    {
        if bytes_eq(header[i].as_slice(), name) {
            proof {
                lemma_find_name_some(h, name@, i as int);
            }
            return Some(i);
        }
        i = i + 1;
    }
    proof {
        lemma_find_name_none(h, name@);
    }
    None
}

/// Copies the value of the column named `name` out of the row.
fn column_value_vec(header: &Vec<Vec<u8>>, fields: &Vec<Vec<u8>>, name: &[u8]) -> (r: Vec<u8>)
    ensures
        r@ == column_value(fields_view(header@), fields_view(fields@), name@),
{
    match find_column(header, name) {
        Some(j) => {
            if j < fields.len() {
                let f = fields[j].as_slice();
                let r = copy_range(f, 0, f.len());
                proof {
                    assert(r@ =~= fields_view(fields@)[j as int]);
                }
                r
            } else {
                Vec::new()
            }
        }
        None => Vec::new(),
    }
}

/// Special-finish state of a print. Unrecognized values mean `Normal`.
#[derive(Clone, Copy, PartialEq, Eq, Structural, Debug)]
pub enum Foil {
    /// No special finish.
    Normal,
    /// Plain foil finish.
    Foil,
    /// Etched finish; deliberately not treated as foil downstream.
    Etched,
}

/// Rarity of a print. Unrecognized values mean `Common`.
#[derive(Clone, Copy, PartialEq, Eq, Structural, Debug)]
pub enum Rarity {
    /// The default rarity.
    Common,
    /// Uncommon.
    Uncommon,
    /// Rare.
    Rare,
    /// Mythic.
    Mythic,
}

/// Reading of a `Foil` value: case-insensitive, unrecognized to `Normal`.
pub open spec fn spec_parse_foil(v: Seq<u8>) -> Foil {
    if lower_bytes(v) == ascii_seq("foil") {
        Foil::Foil
    } else if lower_bytes(v) == ascii_seq("etched") {
        Foil::Etched
    } else {
        Foil::Normal
    }
}

/// Reads a `Foil` value.
pub fn parse_foil(v: &[u8]) -> (r: Foil)
    ensures
        r == spec_parse_foil(v@),
{
    proof {
        reveal_strlit("foil");
        reveal_strlit("etched");
    }
    let lv = to_lower(v);
    let foil_word = ascii_vec("foil");
    let etched_word = ascii_vec("etched");
    if bytes_eq(lv.as_slice(), foil_word.as_slice()) {
        Foil::Foil
    } else if bytes_eq(lv.as_slice(), etched_word.as_slice()) {
        Foil::Etched
    } else {
        Foil::Normal
    }
}

/// Reading of a `Rarity` value: exact lower-case words, unrecognized to
/// `Common`.
pub open spec fn spec_parse_rarity(v: Seq<u8>) -> Rarity {
    if v == ascii_seq("uncommon") {
        Rarity::Uncommon
    } else if v == ascii_seq("rare") {
        Rarity::Rare
    } else if v == ascii_seq("mythic") {
        Rarity::Mythic
    } else {
        Rarity::Common
    }
}

/// Reads a `Rarity` value.
pub fn parse_rarity(v: &[u8]) -> (r: Rarity)
    ensures
        r == spec_parse_rarity(v@),
{
    proof {
        reveal_strlit("uncommon");
        reveal_strlit("rare");
        reveal_strlit("mythic");
    }
    let uncommon_word = ascii_vec("uncommon");
    let rare_word = ascii_vec("rare");
    let mythic_word = ascii_vec("mythic");
    if bytes_eq(v, uncommon_word.as_slice()) {
        Rarity::Uncommon
    } else if bytes_eq(v, rare_word.as_slice()) {
        Rarity::Rare
    } else if bytes_eq(v, mythic_word.as_slice()) {
        Rarity::Mythic
    } else {
        Rarity::Common
    }
}

/// Why one row failed structural decoding.
#[derive(Clone, Copy, PartialEq, Eq, Structural, Debug)]
pub enum RowError {
    /// The row's quoting is malformed under the strict profile.
    MalformedQuoting,
    /// The row's field count differs from the header's.
    WrongFieldCount,
    /// The quantity column does not hold a non-negative integer that
    /// fits a `usize`.
    BadQuantity,
}

/// Structured decoding of one row's fields, bound by header name.
pub struct ParsedRow {
    /// Card name; tolerated empty.
    pub name: Vec<u8>,
    /// Short code of the print set.
    pub set_code: Vec<u8>,
    /// Human-readable set name.
    pub set_name: Vec<u8>,
    /// Print-specific collector marking, kept as an opaque string.
    pub collector_number: Vec<u8>,
    /// Number of owned copies.
    pub quantity: usize,
    /// Special-finish state.
    pub foil: Foil,
    /// Rarity; unused downstream but carried.
    pub rarity: Rarity,
    /// Inert pass-through column.
    pub binder_name: Vec<u8>,
    /// Inert pass-through column.
    pub binder_type: Vec<u8>,
    /// Inert pass-through column.
    pub manabox: Vec<u8>,
    /// Inert pass-through column.
    pub scryfall_id: Vec<u8>,
    /// Inert pass-through column.
    pub purchase_price: Vec<u8>,
    /// Inert pass-through column.
    pub misprint: Vec<u8>,
    /// Inert pass-through column.
    pub altered: Vec<u8>,
    /// Inert pass-through column.
    pub condition: Vec<u8>,
    /// Inert pass-through column.
    pub language: Vec<u8>,
    /// Inert pass-through column.
    pub purchase_price_currency: Vec<u8>,
}

/// Mathematical image of a parsed row.
#[verifier::ext_equal]
pub ghost struct ParsedRowView {
    /// Card name.
    pub name: Seq<u8>,
    /// Short code of the print set.
    pub set_code: Seq<u8>,
    /// Human-readable set name.
    pub set_name: Seq<u8>,
    /// Collector marking.
    pub collector_number: Seq<u8>,
    /// Number of owned copies.
    pub quantity: nat,
    /// Special-finish state.
    pub foil: Foil,
    /// Rarity.
    pub rarity: Rarity,
    /// Inert pass-through column.
    pub binder_name: Seq<u8>,
    /// Inert pass-through column.
    pub binder_type: Seq<u8>,
    /// Inert pass-through column.
    pub manabox: Seq<u8>,
    /// Inert pass-through column.
    pub scryfall_id: Seq<u8>,
    /// Inert pass-through column.
    pub purchase_price: Seq<u8>,
    /// Inert pass-through column.
    pub misprint: Seq<u8>,
    /// Inert pass-through column.
    pub altered: Seq<u8>,
    /// Inert pass-through column.
    pub condition: Seq<u8>,
    /// Inert pass-through column.
    pub language: Seq<u8>,
    /// Inert pass-through column.
    pub purchase_price_currency: Seq<u8>,
}

impl View for ParsedRow {
    type V = ParsedRowView;

    open spec fn view(&self) -> ParsedRowView {
        ParsedRowView {
            name: self.name@,
            set_code: self.set_code@,
            set_name: self.set_name@,
            collector_number: self.collector_number@,
            quantity: self.quantity as nat,
            foil: self.foil,
            rarity: self.rarity,
            binder_name: self.binder_name@,
            binder_type: self.binder_type@,
            manabox: self.manabox@,
            scryfall_id: self.scryfall_id@,
            purchase_price: self.purchase_price@,
            misprint: self.misprint@,
            altered: self.altered@,
            condition: self.condition@,
            language: self.language@,
            purchase_price_currency: self.purchase_price_currency@,
        }
    }
}

/// The quantity the row carries: the quantity column's value where the
/// header has one, else zero.
pub open spec fn spec_quantity(header: Seq<Seq<u8>>, fields: Seq<Seq<u8>>) -> nat {
    if has_column(header, quantity_alias()) {
        dec_val(column_value(header, fields, quantity_alias()))
    } else {
        0
    }
}

/// Is the row's quantity column malformed? Only a present column can be.
pub open spec fn quantity_malformed(header: Seq<Seq<u8>>, fields: Seq<Seq<u8>>) -> bool {
    has_column(header, quantity_alias())
        && !(is_digits(column_value(header, fields, quantity_alias()))
            && dec_val(column_value(header, fields, quantity_alias())) <= usize::MAX)
}

/// Structured decoding of one row against the header: every column is
/// bound by name; a present but malformed quantity fails the row.
pub open spec fn spec_decode(header: Seq<Seq<u8>>, fields: Seq<Seq<u8>>) -> Result<
    ParsedRowView,
    RowError,
> {
    if quantity_malformed(header, fields) {
        Err(RowError::BadQuantity)
    } else {
        Ok(
            ParsedRowView {
                name: column_value(header, fields, name_alias()),
                set_code: column_value(header, fields, set_code_alias()),
                set_name: column_value(header, fields, set_name_alias()),
                collector_number: column_value(header, fields, collector_number_alias()),
                quantity: spec_quantity(header, fields),
                foil: spec_parse_foil(column_value(header, fields, foil_alias())),
                rarity: spec_parse_rarity(column_value(header, fields, rarity_alias())),
                binder_name: column_value(header, fields, binder_name_alias()),
                binder_type: column_value(header, fields, binder_type_alias()),
                manabox: column_value(header, fields, manabox_alias()),
                scryfall_id: column_value(header, fields, scryfall_id_alias()),
                purchase_price: column_value(header, fields, purchase_price_alias()),
                misprint: column_value(header, fields, misprint_alias()),
                altered: column_value(header, fields, altered_alias()),
                condition: column_value(header, fields, condition_alias()),
                language: column_value(header, fields, language_alias()),
                purchase_price_currency: column_value(header, fields, purchase_price_currency_alias()),
            },
        )
    }
}

/// Decodes one row's fields against the header.
pub fn decode_row(header: &Vec<Vec<u8>>, fields: &Vec<Vec<u8>>) -> (r: Result<ParsedRow, RowError>)
    ensures
        r matches Ok(p) ==> spec_decode(fields_view(header@), fields_view(fields@))
            == Ok::<ParsedRowView, RowError>(p@),
        r matches Err(e) ==> spec_decode(fields_view(header@), fields_view(fields@))
            == Err::<ParsedRowView, RowError>(e),
{
    let ghost h = fields_view(header@);
    let ghost f = fields_view(fields@);
    proof {
        reveal_strlit("Name");
        reveal_strlit("Set code");
        reveal_strlit("Set name");
        reveal_strlit("Collector number");
        reveal_strlit("Foil");
        reveal_strlit("Rarity");
        reveal_strlit("Quantity");
        reveal_strlit("Binder Name");
        reveal_strlit("Binder Type");
        reveal_strlit("ManaBox");
        reveal_strlit("Scryfall ID");
        reveal_strlit("Purchase price");
        reveal_strlit("Misprint");
        reveal_strlit("Altered");
        reveal_strlit("Condition");
        reveal_strlit("Language");
        reveal_strlit("Purchase price currency");
    }
    let quantity_name = ascii_vec("Quantity");
    let quantity: usize;
    match find_column(header, quantity_name.as_slice()) {
        None => {
            quantity = 0;
        }
        Some(_) => {
            let qv = column_value_vec(header, fields, quantity_name.as_slice());
            match parse_decimal(qv.as_slice()) {
                Some(v) => {
                    quantity = v;
                }
                None => {
                    return Err(RowError::BadQuantity);
                }
            }
        }
    }
    let name_name = ascii_vec("Name");
    let set_code_name = ascii_vec("Set code");
    let set_name_name = ascii_vec("Set name");
    let collector_name = ascii_vec("Collector number");
    let foil_name = ascii_vec("Foil");
    let rarity_name = ascii_vec("Rarity");
    let binder_name_name = ascii_vec("Binder Name");
    let binder_type_name = ascii_vec("Binder Type");
    let manabox_name = ascii_vec("ManaBox");
    let scryfall_name = ascii_vec("Scryfall ID");
    let price_name = ascii_vec("Purchase price");
    let misprint_name = ascii_vec("Misprint");
    let altered_name = ascii_vec("Altered");
    let condition_name = ascii_vec("Condition");
    let language_name = ascii_vec("Language");
    let currency_name = ascii_vec("Purchase price currency");
    let foil_value = column_value_vec(header, fields, foil_name.as_slice());
    let rarity_value = column_value_vec(header, fields, rarity_name.as_slice());
    let row = ParsedRow {
        name: column_value_vec(header, fields, name_name.as_slice()),
        set_code: column_value_vec(header, fields, set_code_name.as_slice()),
        set_name: column_value_vec(header, fields, set_name_name.as_slice()),
        collector_number: column_value_vec(header, fields, collector_name.as_slice()),
        quantity,
        foil: parse_foil(foil_value.as_slice()),
        rarity: parse_rarity(rarity_value.as_slice()),
        binder_name: column_value_vec(header, fields, binder_name_name.as_slice()),
        binder_type: column_value_vec(header, fields, binder_type_name.as_slice()),
        manabox: column_value_vec(header, fields, manabox_name.as_slice()),
        scryfall_id: column_value_vec(header, fields, scryfall_name.as_slice()),
        purchase_price: column_value_vec(header, fields, price_name.as_slice()),
        misprint: column_value_vec(header, fields, misprint_name.as_slice()),
        altered: column_value_vec(header, fields, altered_name.as_slice()),
        condition: column_value_vec(header, fields, condition_name.as_slice()),
        language: column_value_vec(header, fields, language_name.as_slice()),
        purchase_price_currency: column_value_vec(header, fields, currency_name.as_slice()),
    };
    proof {
        assert(spec_decode(h, f) matches Ok(p) && p =~= row@);
    }
    Ok(row)
}

} // verus!
