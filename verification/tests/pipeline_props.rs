use decklist::pipeline::{
    accepted_cards, collect_failures, import, recover_all, render_output, ImportConfig, RowOutcome,
};
use decklist::card::Card;
use decklist::records::QuotingMode;
use decklist::row::RowError;

fn strict_config() -> ImportConfig {
    ImportConfig { quoting: QuotingMode::Strict, max_rows: None }
}

fn run(input: &str) -> Vec<RowOutcome> {
    import(input.as_bytes(), strict_config()).expect("import should start")
}

#[test]
fn header_order_is_irrelevant() {
    let a = run("Name,Set code,Set name,Collector number,Foil,Quantity\nBolt,LEA,Alpha,161,foil,4\n");
    let b = run("Quantity,Foil,Collector number,Set name,Set code,Name\n4,foil,161,Alpha,LEA,Bolt\n");
    let ca = accepted_cards(&a);
    let cb = accepted_cards(&b);
    assert_eq!(ca.len(), 1);
    assert_eq!(cb.len(), 1);
    assert_eq!(ca[0].quantity, cb[0].quantity);
    assert_eq!(ca[0].name, cb[0].name);
    assert_eq!(ca[0].set, cb[0].set);
    assert_eq!(ca[0].collector_number, cb[0].collector_number);
    assert_eq!(ca[0].is_foil, cb[0].is_foil);
    assert_eq!(render_output(&ca), render_output(&cb));
}

#[test]
fn missing_foil_column_defaults_to_not_foil() {
    let outcomes = run("Name,Set code,Quantity\nBolt,LEA,4\n");
    let cards = accepted_cards(&outcomes);
    assert_eq!(cards.len(), 1);
    assert!(!cards[0].is_foil);
}

#[test]
fn missing_rarity_column_raises_no_error() {
    let outcomes = run("Name,Set code,Quantity\nBolt,LEA,4\n");
    assert_eq!(collect_failures(&outcomes).len(), 0);
    assert_eq!(accepted_cards(&outcomes).len(), 1);
}

#[test]
fn etched_is_not_foil() {
    let outcomes = run("Name,Set code,Foil,Quantity\nBolt,LEA,etched,4\n");
    let cards = accepted_cards(&outcomes);
    assert_eq!(cards.len(), 1);
    assert!(!cards[0].is_foil);
}

#[test]
fn plain_foil_is_foil() {
    let outcomes = run("Name,Set code,Foil,Quantity\nBolt,LEA,foil,4\n");
    let cards = accepted_cards(&outcomes);
    assert_eq!(cards.len(), 1);
    assert!(cards[0].is_foil);
}

#[test]
fn token_excluded_by_set_name() {
    let outcomes = run("Name,Set code,Set name,Quantity\nBear,SLD,Secret Lair Token Drop,1\n");
    assert_eq!(accepted_cards(&outcomes).len(), 0);
    assert_eq!(outcomes.len(), 1);
    assert!(matches!(outcomes[0], RowOutcome::Excluded(_)));
}

#[test]
fn token_excluded_by_long_t_code() {
    let outcomes = run("Name,Set code,Set name,Quantity\nBear,TDOM,Dominaria,1\n");
    assert_eq!(accepted_cards(&outcomes).len(), 0);
    assert!(matches!(outcomes[0], RowOutcome::Excluded(_)));
}

#[test]
fn short_t_code_is_not_excluded() {
    let outcomes = run("Name,Set code,Set name,Quantity\nBear,TSP,Time Spiral,1\n");
    assert_eq!(accepted_cards(&outcomes).len(), 1);
    assert!(matches!(outcomes[0], RowOutcome::Accepted(_)));
}

#[test]
fn bad_row_is_isolated_and_recovered() {
    let input = "Name,Set code,Quantity\nBolt,LEA,4\nBear,ONE,abc\nIsland,MH2,5\n";
    let outcomes = run(input);
    assert_eq!(outcomes.len(), 3);
    let cards = accepted_cards(&outcomes);
    assert_eq!(cards.len(), 2);
    assert_eq!(cards[0].name, b"Bolt".to_vec());
    assert_eq!(cards[1].name, b"Island".to_vec());
    let failures = collect_failures(&outcomes);
    assert_eq!(failures.len(), 1);
    assert_eq!(failures[0].cause, RowError::BadQuantity);
    let diagnostics = recover_all(input.as_bytes(), &failures, QuotingMode::Strict);
    assert_eq!(diagnostics.len(), 1);
    let raw = diagnostics[0].raw_fields.as_ref().expect("raw fields should re-read");
    assert_eq!(raw.len(), 3);
    assert_eq!(raw[0], b"Bear".to_vec());
    assert_eq!(raw[1], b"ONE".to_vec());
    assert_eq!(raw[2], b"abc".to_vec());
}

#[test]
fn renders_the_canonical_foil_line() {
    let card = Card {
        quantity: 4,
        name: b"Lightning Bolt".to_vec(),
        set: b"LEA".to_vec(),
        collector_number: b"161".to_vec(),
        is_foil: true,
    };
    assert_eq!(card.render_line(), b"4x Lightning Bolt (LEA:161) *f*".to_vec());
}

#[test]
fn renders_the_canonical_plain_line() {
    let card = Card {
        quantity: 2,
        name: b"Island".to_vec(),
        set: b"MH2".to_vec(),
        collector_number: b"276".to_vec(),
        is_foil: false,
    };
    assert_eq!(card.render_line(), b"2x Island (MH2:276)".to_vec());
}

#[test]
fn end_to_end_keeps_island_and_logs_the_token() {
    let input = "Name,Set code,Set name,Collector number,Foil,Quantity\n\
                 Island,MH2,Modern Horizons 2,276,normal,5\n\
                 Sol Ring,TMH2,Tokens,T01,normal,1\n";
    let outcomes = run(input);
    assert_eq!(outcomes.len(), 2);
    assert!(matches!(outcomes[0], RowOutcome::Accepted(_)));
    match &outcomes[1] {
        RowOutcome::Excluded(card) => {
            assert_eq!(card.render_line(), b"1x Sol Ring (TMH2:T01)".to_vec());
        }
        _ => panic!("second row should be excluded as a token"),
    }
    let cards = accepted_cards(&outcomes);
    assert_eq!(render_output(&cards), b"5x Island (MH2:276)\n".to_vec());
}
