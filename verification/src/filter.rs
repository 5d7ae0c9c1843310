//! The token filter: which parsed rows name a non-collectible token print.

use vstd::prelude::*;

use crate::row::{ascii_seq, ascii_vec, ParsedRow, ParsedRowView};
use crate::text::{contains_bytes, contains_seq, lower_bytes, to_lower, UPPER_T};

verus! {

/// The word sought, case-insensitively, in set names.
pub open spec fn token_word() -> Seq<u8> {
    ascii_seq("token")
}

/// Exclusion by set name: the lower-cased set name contains `token`.
pub open spec fn name_marks_token(set_name: Seq<u8>) -> bool {
    contains_seq(lower_bytes(set_name), token_word())
}

/// Exclusion by set code: it starts with `T` (case-sensitive) and is
/// strictly longer than three bytes.
pub open spec fn code_marks_token(set_code: Seq<u8>) -> bool {
    set_code.len() > 3 && set_code[0] == UPPER_T
}

/// A row names a token print when either rule holds; the rules are
/// independent and either alone excludes. The code rule is a fixed
/// heuristic, knowingly imprecise for real set codes that begin with `T`
/// and are strictly longer than three bytes.
pub open spec fn spec_is_token(row: ParsedRowView) -> bool {
    name_marks_token(row.set_name) || code_marks_token(row.set_code)
}

/// Decides whether the row names a token print to exclude.
pub fn is_token(row: &ParsedRow) -> (r: bool)
    ensures
        r == spec_is_token(row@),
{
    proof {
        reveal_strlit("token");
    }
    let word = ascii_vec("token");
    let lowered = to_lower(row.set_name.as_slice());
    if contains_bytes(lowered.as_slice(), word.as_slice()) {
        return true;
    }
    if row.set_code.len() > 3 && row.set_code[0] == UPPER_T {
        return true;
    }
    false
}

} // verus!
