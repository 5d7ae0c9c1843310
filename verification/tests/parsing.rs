use decklist::pipeline::{
    accepted_cards, collect_failures, import, recover, recover_all, render_output, ImportConfig,
    ImportError, ImportFailure, RowOutcome,
};
use decklist::records::{split_lenient, split_strict, QuotingMode};
use decklist::row::{parse_foil, parse_rarity, Foil, Rarity, RowError};
use decklist::text::parse_decimal;

fn config(quoting: QuotingMode, max_rows: Option<usize>) -> ImportConfig {
    ImportConfig { quoting, max_rows }
}

fn run_strict(input: &str) -> Vec<RowOutcome> {
    import(input.as_bytes(), config(QuotingMode::Strict, None)).expect("import should start")
}

#[test]
fn empty_input_imports_nothing() {
    let outcomes = run_strict("");
    assert_eq!(outcomes.len(), 0);
}

#[test]
fn header_only_imports_nothing() {
    let outcomes = run_strict("Name,Set code,Quantity\n");
    assert_eq!(outcomes.len(), 0);
}

#[test]
fn quoted_field_keeps_its_comma() {
    let outcomes = run_strict("Name,Set code,Quantity\n\"Borrowing, 100000 Arrows\",C14,1\n");
    let cards = accepted_cards(&outcomes);
    assert_eq!(cards.len(), 1);
    assert_eq!(cards[0].name, b"Borrowing, 100000 Arrows".to_vec());
}

#[test]
fn doubled_quote_is_one_literal_quote() {
    let fields = split_strict(b"\"He said \"\"go\"\"\",LEA").expect("well quoted");
    assert_eq!(fields.len(), 2);
    assert_eq!(fields[0], b"He said \"go\"".to_vec());
    assert_eq!(fields[1], b"LEA".to_vec());
}

#[test]
fn unterminated_quote_fails_the_row_only() {
    let input = "Name,Set code,Quantity\n\"Bolt,LEA,4\nIsland,MH2,5\n";
    let outcomes = run_strict(input);
    assert_eq!(outcomes.len(), 2);
    let failures = collect_failures(&outcomes);
    assert_eq!(failures.len(), 1);
    assert_eq!(failures[0].cause, RowError::MalformedQuoting);
    assert_eq!(accepted_cards(&outcomes).len(), 1);
    let diagnostics = recover_all(input.as_bytes(), &failures, QuotingMode::Strict);
    assert!(diagnostics[0].raw_fields.is_none());
    assert_eq!(diagnostics[0].offset, failures[0].offset);
    assert_eq!(diagnostics[0].cause, RowError::MalformedQuoting);
}

#[test]
fn lenient_mode_takes_quotes_literally() {
    let fields = split_lenient(b"\"Bolt,LEA");
    assert_eq!(fields.len(), 2);
    assert_eq!(fields[0], b"\"Bolt".to_vec());
    assert_eq!(fields[1], b"LEA".to_vec());
    let outcomes = import(
        "Name,Set code,Quantity\n\"Bolt\",LEA,4\n".as_bytes(),
        config(QuotingMode::Lenient, None),
    )
    .expect("import should start");
    let cards = accepted_cards(&outcomes);
    assert_eq!(cards.len(), 1);
    assert_eq!(cards[0].name, b"\"Bolt\"".to_vec());
}

#[test]
fn wrong_field_count_fails_the_row() {
    let outcomes = run_strict("Name,Set code,Quantity\nBolt,LEA\n");
    let failures = collect_failures(&outcomes);
    assert_eq!(failures.len(), 1);
    assert_eq!(failures[0].cause, RowError::WrongFieldCount);
}

#[test]
fn malformed_header_refuses_the_import() {
    let r = import("\"Name,Set code\nBolt,LEA\n".as_bytes(), config(QuotingMode::Strict, None));
    assert!(matches!(r, Err(ImportError::BadHeader)));
}

#[test]
fn row_cap_stops_after_accepted_rows() {
    let input = "Name,Set code,Quantity\nBolt,LEA,4\nIsland,MH2,5\nBear,ONE,1\n";
    let outcomes = import(input.as_bytes(), config(QuotingMode::Strict, Some(1)))
        .expect("import should start");
    assert_eq!(outcomes.len(), 1);
    assert_eq!(accepted_cards(&outcomes).len(), 1);
    let all = import(input.as_bytes(), config(QuotingMode::Strict, Some(0)))
        .expect("import should start");
    assert_eq!(all.len(), 0);
}

#[test]
fn excluded_rows_do_not_count_against_the_cap() {
    let input = "Name,Set code,Quantity\nBear,TDOM,1\nBolt,LEA,4\nIsland,MH2,5\n";
    let outcomes = import(input.as_bytes(), config(QuotingMode::Strict, Some(1)))
        .expect("import should start");
    assert_eq!(outcomes.len(), 2);
    assert!(matches!(outcomes[0], RowOutcome::Excluded(_)));
    assert!(matches!(outcomes[1], RowOutcome::Accepted(_)));
}

#[test]
fn unrecognized_columns_are_ignored() {
    let outcomes = run_strict("Name,Mana Value,Set code,Quantity\nBolt,1,LEA,4\n");
    let cards = accepted_cards(&outcomes);
    assert_eq!(cards.len(), 1);
    assert_eq!(cards[0].name, b"Bolt".to_vec());
    assert_eq!(cards[0].quantity, 4);
}

#[test]
fn missing_quantity_column_defaults_to_zero() {
    let outcomes = run_strict("Name,Set code\nBolt,LEA\n");
    let cards = accepted_cards(&outcomes);
    assert_eq!(cards.len(), 1);
    assert_eq!(cards[0].quantity, 0);
    assert_eq!(render_output(&cards), b"0x Bolt (LEA:)\n".to_vec());
}

#[test]
fn oversized_quantity_fails_the_row() {
    let input = "Name,Set code,Quantity\nBolt,LEA,99999999999999999999999999999999\n";
    let outcomes = run_strict(input);
    let failures = collect_failures(&outcomes);
    assert_eq!(failures.len(), 1);
    assert_eq!(failures[0].cause, RowError::BadQuantity);
}

#[test]
fn crlf_lines_parse_like_lf_lines() {
    let outcomes = run_strict("Name,Set code,Quantity\r\nBolt,LEA,4\r\n");
    let cards = accepted_cards(&outcomes);
    assert_eq!(cards.len(), 1);
    assert_eq!(cards[0].name, b"Bolt".to_vec());
}

#[test]
fn blank_lines_are_skipped() {
    let outcomes = run_strict("Name,Set code,Quantity\n\nBolt,LEA,4\n\n");
    assert_eq!(outcomes.len(), 1);
    assert_eq!(accepted_cards(&outcomes).len(), 1);
}

#[test]
fn foil_words_parse_case_insensitively() {
    assert_eq!(parse_foil(b"FOIL"), Foil::Foil);
    assert_eq!(parse_foil(b"Etched"), Foil::Etched);
    assert_eq!(parse_foil(b"normal"), Foil::Normal);
    assert_eq!(parse_foil(b"holographic"), Foil::Normal);
    assert_eq!(parse_foil(b""), Foil::Normal);
}

#[test]
fn rarity_words_parse_with_a_default() {
    assert_eq!(parse_rarity(b"uncommon"), Rarity::Uncommon);
    assert_eq!(parse_rarity(b"rare"), Rarity::Rare);
    assert_eq!(parse_rarity(b"mythic"), Rarity::Mythic);
    assert_eq!(parse_rarity(b"common"), Rarity::Common);
    assert_eq!(parse_rarity(b"RARE"), Rarity::Common);
    assert_eq!(parse_rarity(b""), Rarity::Common);
}

#[test]
fn decimal_parsing_is_exact() {
    assert_eq!(parse_decimal(b"0"), Some(0));
    assert_eq!(parse_decimal(b"161"), Some(161));
    assert_eq!(parse_decimal(b""), None);
    assert_eq!(parse_decimal(b"1a"), None);
    assert_eq!(parse_decimal(b"-1"), None);
}

#[test]
fn recovery_beyond_the_input_degrades_to_offset_only() {
    let failure = ImportFailure { offset: 999, cause: RowError::BadQuantity };
    let diagnostic = recover(b"Name\nBolt\n", &failure, QuotingMode::Strict);
    assert!(diagnostic.raw_fields.is_none());
    assert_eq!(diagnostic.offset, 999);
    assert_eq!(diagnostic.cause, RowError::BadQuantity);
}
