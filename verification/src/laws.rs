//! Laws of the pipeline, stated once for all inputs and proved here.

use vstd::prelude::*;

use crate::card::spec_normalize;
use crate::filter::{code_marks_token, spec_is_token, token_word};
use crate::pipeline::{mode_fields, spec_row_outcome, RowOutcomeView};
use crate::records::{QuotingMode, RawRecordView};
use crate::row::{
    column_value, find_name, foil_alias, has_column, lemma_find_name_props, quantity_malformed,
    rarity_alias, spec_decode, Foil, ParsedRowView, Rarity, RowError,
};
use crate::text::{contains_seq, lower_bytes, UPPER_T};

verus! {

/// Decoding a row fails exactly on a malformed quantity column; no other
/// column can fail a row.
pub proof fn lemma_error_only_quantity(header: Seq<Seq<u8>>, fields: Seq<Seq<u8>>)
    ensures
        spec_decode(header, fields) is Err <==> quantity_malformed(header, fields),
        spec_decode(header, fields) is Err ==> spec_decode(header, fields)
            == Err::<ParsedRowView, RowError>(RowError::BadQuantity),
{
}

/// A row read under a header without a `Foil` column keeps the normal
/// finish, so its card is not foil.
pub proof fn lemma_missing_foil_defaults(header: Seq<Seq<u8>>, fields: Seq<Seq<u8>>)
    requires
        !has_column(header, foil_alias()),
    ensures
        spec_decode(header, fields) matches Ok(p) ==> p.foil == Foil::Normal
            && !spec_normalize(p).is_foil,
{
    reveal_strlit("foil");
    reveal_strlit("etched");
    match spec_decode(header, fields) {
        Ok(p) => {
            assert(column_value(header, fields, foil_alias()) == Seq::<u8>::empty());
            assert(lower_bytes(Seq::<u8>::empty()).len() == 0);
        }
        Err(_) => {}
    }
}

/// A row read under a header without a `Rarity` column keeps the default
/// rarity, and the missing column raises no error.
pub proof fn lemma_missing_rarity_defaults(header: Seq<Seq<u8>>, fields: Seq<Seq<u8>>)
    requires
        !has_column(header, rarity_alias()),
    ensures
        spec_decode(header, fields) matches Ok(p) ==> p.rarity == Rarity::Common,
        spec_decode(header, fields) is Err ==> quantity_malformed(header, fields),
{
    reveal_strlit("uncommon");
    reveal_strlit("rare");
    reveal_strlit("mythic");
    match spec_decode(header, fields) {
        Ok(p) => {
            assert(column_value(header, fields, rarity_alias()) == Seq::<u8>::empty());
        }
        Err(_) => {}
    }
}

/// Normalization marks a card foil exactly when the row's finish is the
/// plain foil one; in particular an etched finish is not foil.
pub proof fn lemma_etched_is_not_foil(row: ParsedRowView)
    ensures
        spec_normalize(row).is_foil <==> row.foil == Foil::Foil,
        row.foil == Foil::Etched ==> !spec_normalize(row).is_foil,
{
}

/// A row whose lower-cased set name contains the token word is excluded,
/// whatever its set code.
pub proof fn lemma_token_by_name(row: ParsedRowView)
    requires
        contains_seq(lower_bytes(row.set_name), token_word()),
    ensures
        spec_is_token(row),
{
}

/// A row whose set code starts with `T` and is strictly longer than three
/// bytes is excluded, whatever its set name; a code of three bytes or
/// fewer never triggers the code rule by itself.
pub proof fn lemma_token_by_code(row: ParsedRowView)
    requires
        row.set_code.len() > 3,
        row.set_code[0] == UPPER_T,
    ensures
        spec_is_token(row),
{
}

/// A set code of three bytes or fewer never marks a token by the code
/// rule.
pub proof fn lemma_short_code_never_marks(code: Seq<u8>)
    requires
        code.len() <= 3,
    ensures
        !code_marks_token(code),
{
}

/// A data record that splits, matches the header's width, decodes, and
/// names a token print becomes an excluded outcome, never an accepted one.
pub proof fn lemma_token_row_excluded(
    header: Seq<Seq<u8>>,
    rec: RawRecordView,
    mode: QuotingMode,
    fs: Seq<Seq<u8>>,
    p: ParsedRowView,
)
    requires
        mode_fields(mode, rec.data) == Some(fs),
        fs.len() == header.len(),
        spec_decode(header, fs) == Ok::<ParsedRowView, RowError>(p),
        spec_is_token(p),
    ensures
        spec_row_outcome(header, rec, mode) == RowOutcomeView::Excluded(spec_normalize(p)),
{
}

/// What one header-and-row lookup yields is unchanged by reordering the
/// columns, provided the header names its columns uniquely. `perm` maps
/// the reordered position to the original one and `inv` is its inverse.
proof fn lemma_lookup_permuted(
    header1: Seq<Seq<u8>>,
    fields1: Seq<Seq<u8>>,
    header2: Seq<Seq<u8>>,
    fields2: Seq<Seq<u8>>,
    perm: Seq<int>,
    inv: Seq<int>,
    name: Seq<u8>,
)
    requires
        perm.len() == header1.len(),
        inv.len() == header1.len(),
        header2.len() == header1.len(),
        fields1.len() == header1.len(),
        fields2.len() == header1.len(),
        forall|k: int| 0 <= k < perm.len() ==> 0 <= #[trigger] perm[k] < header1.len(),
        forall|k: int| 0 <= k < perm.len() ==> #[trigger] header2[k] == header1[perm[k]],
        forall|k: int| 0 <= k < perm.len() ==> #[trigger] fields2[k] == fields1[perm[k]],
        forall|j: int| 0 <= j < inv.len() ==> 0 <= #[trigger] inv[j] < perm.len()
            && perm[inv[j]] == j,
        forall|a: int, b: int| #![trigger header1[a], header1[b]]
            0 <= a < b < header1.len() ==> header1[a] != header1[b],
    ensures
        has_column(header2, name) == has_column(header1, name),
        column_value(header2, fields2, name) == column_value(header1, fields1, name),
{
    lemma_find_name_props(header1, name);
    lemma_find_name_props(header2, name);
    match find_name(header1, name) {
        None => {
            match find_name(header2, name) {
                Some(i2) => {
                    assert(header1[perm[i2]] == name);
                    assert(false);
                }
                None => {}
            }
        }
        Some(j1) => {
            let k = inv[j1];
            assert(header2[k] == header1[j1]);
            match find_name(header2, name) {
                None => {
                    assert(header2[k] != name);
                    assert(false);
                }
                Some(i2) => {
                    assert(header2[i2] == name);
                    assert(header1[perm[i2]] == name);
                    assert(perm[i2] == j1) by {
                        if perm[i2] < j1 {
                            assert(header1[perm[i2]] != header1[j1]);
                        } else if perm[i2] > j1 {
                            assert(header1[j1] != header1[perm[i2]]);
                        }
                    }
                    assert(fields2[i2] == fields1[j1]);
                }
            }
        }
    }
}

/// Reordering the header's columns, with every row reordered the same
/// way, decodes each row to the same result, provided the header names
/// its columns uniquely. `perm` maps each reordered position to the
/// original one and `inv` is its inverse.
pub proof fn lemma_header_order_independence(
    header1: Seq<Seq<u8>>,
    fields1: Seq<Seq<u8>>,
    header2: Seq<Seq<u8>>,
    fields2: Seq<Seq<u8>>,
    perm: Seq<int>,
    inv: Seq<int>,
)
    requires
        perm.len() == header1.len(),
        inv.len() == header1.len(),
        header2.len() == header1.len(),
        fields1.len() == header1.len(),
        fields2.len() == header1.len(),
        forall|k: int| 0 <= k < perm.len() ==> 0 <= #[trigger] perm[k] < header1.len(),
        forall|k: int| 0 <= k < perm.len() ==> #[trigger] header2[k] == header1[perm[k]],
        forall|k: int| 0 <= k < perm.len() ==> #[trigger] fields2[k] == fields1[perm[k]],
        forall|j: int| 0 <= j < inv.len() ==> 0 <= #[trigger] inv[j] < perm.len()
            && perm[inv[j]] == j,
        forall|a: int, b: int| #![trigger header1[a], header1[b]]
            0 <= a < b < header1.len() ==> header1[a] != header1[b],
    ensures
        spec_decode(header2, fields2) == spec_decode(header1, fields1),
{
    lemma_lookup_permuted(header1, fields1, header2, fields2, perm, inv, crate::row::name_alias());
    lemma_lookup_permuted(header1, fields1, header2, fields2, perm, inv, crate::row::set_code_alias());
    lemma_lookup_permuted(header1, fields1, header2, fields2, perm, inv, crate::row::set_name_alias());
    lemma_lookup_permuted(
        header1, fields1, header2, fields2, perm, inv, crate::row::collector_number_alias(),
    );
    lemma_lookup_permuted(header1, fields1, header2, fields2, perm, inv, crate::row::foil_alias());
    lemma_lookup_permuted(header1, fields1, header2, fields2, perm, inv, crate::row::rarity_alias());
    lemma_lookup_permuted(header1, fields1, header2, fields2, perm, inv, crate::row::quantity_alias());
    lemma_lookup_permuted(header1, fields1, header2, fields2, perm, inv, crate::row::binder_name_alias());
    lemma_lookup_permuted(header1, fields1, header2, fields2, perm, inv, crate::row::binder_type_alias());
    lemma_lookup_permuted(header1, fields1, header2, fields2, perm, inv, crate::row::manabox_alias());
    lemma_lookup_permuted(header1, fields1, header2, fields2, perm, inv, crate::row::scryfall_id_alias());
    lemma_lookup_permuted(
        header1, fields1, header2, fields2, perm, inv, crate::row::purchase_price_alias(),
    );
    lemma_lookup_permuted(header1, fields1, header2, fields2, perm, inv, crate::row::misprint_alias());
    lemma_lookup_permuted(header1, fields1, header2, fields2, perm, inv, crate::row::altered_alias());
    lemma_lookup_permuted(header1, fields1, header2, fields2, perm, inv, crate::row::condition_alias());
    lemma_lookup_permuted(header1, fields1, header2, fields2, perm, inv, crate::row::language_alias());
    lemma_lookup_permuted(
        header1, fields1, header2, fields2, perm, inv, crate::row::purchase_price_currency_alias(),
    );
    let r1 = spec_decode(header1, fields1);
    let r2 = spec_decode(header2, fields2);
    match r1 {
        Err(_) => {
            assert(quantity_malformed(header2, fields2));
        }
        Ok(p1) => {
            match r2 {
                Err(_) => {
                    assert(false);
                }
                Ok(p2) => {
                    assert(p2 =~= p1);
                }
            }
        }
    }
}

} // verus!
