use pinset::authors::resolve_authors;
use pinset::authors::MetaRecord;
use pinset::fetch::interpret_authors_response;
use pinset::fetch::FetchError;

const MAGIC: &str = "0xff0a89c674ee7874";
const MANAGER: &str = "0xc0d477556c25c9d67e1f57245c7453da776b51cf";
const ADDR_A: &str = "aaaaaaaaaaaaaaaaaaaaaaaaaaaaaaaaaaaaaaaa";
const ADDR_B: &str = "bbbbbbbbbbbbbbbbbbbbbbbbbbbbbbbbbbbbbbbb";

/// Builds a raw record for an event: tag one adds the address, any other
/// tag removes it.
fn record_for(sender: &str, tag: u8, addr_hex: &str) -> MetaRecord {
    assert_eq!(addr_hex.len(), 40);
    MetaRecord {
        meta: format!("{}a10055{:02x}{}", MAGIC, tag, addr_hex),
        sender: sender.to_string(),
    }
}

#[test]
fn resolve_later_remove_overrides_earlier_add() {
    let records = vec![
        record_for(MANAGER, 1, ADDR_A),
        record_for(MANAGER, 1, ADDR_B),
        record_for(MANAGER, 0, ADDR_A),
    ];
    let authors = resolve_authors(&records, MANAGER);
    assert_eq!(authors.len(), 1);
    assert_eq!(authors[0].to_text(), format!("0x{}", ADDR_B));
}

#[test]
fn resolve_repeated_add_collapses() {
    let records = vec![
        record_for(MANAGER, 1, ADDR_A),
        record_for(MANAGER, 1, ADDR_A),
    ];
    let authors = resolve_authors(&records, MANAGER);
    assert_eq!(authors.len(), 1);
    assert_eq!(authors[0].to_text(), format!("0x{}", ADDR_A));
}

#[test]
fn resolve_add_after_remove_restores() {
    let records = vec![
        record_for(MANAGER, 1, ADDR_A),
        record_for(MANAGER, 0, ADDR_A),
        record_for(MANAGER, 1, ADDR_A),
    ];
    let authors = resolve_authors(&records, MANAGER);
    assert_eq!(authors.len(), 1);
    assert_eq!(authors[0].to_text(), format!("0x{}", ADDR_A));
}

#[test]
fn resolve_skips_records_of_other_senders() {
    let records = vec![
        record_for(MANAGER, 1, ADDR_A),
        record_for("0x8058ad7c22fdc8788fe4cb1dac15d6e976127324", 1, ADDR_B),
    ];
    let authors = resolve_authors(&records, MANAGER);
    assert_eq!(authors.len(), 1);
    assert_eq!(authors[0].to_text(), format!("0x{}", ADDR_A));
}

#[test]
fn resolve_skips_undecodable_records() {
    // The first record is too short to carry the magic prefix; resolution
    // goes on with the remaining records.
    let records = vec![
        MetaRecord {
            meta: "0000000000000000".to_string(),
            sender: MANAGER.to_string(),
        },
        record_for(MANAGER, 1, MANAGER.trim_start_matches("0x")),
    ];
    let authors = resolve_authors(&records, MANAGER);
    assert_eq!(authors.len(), 1);
    assert_eq!(authors[0].to_text(), MANAGER);
}

#[test]
fn resolve_nothing_authorized_without_adds() {
    let records = vec![record_for(MANAGER, 0, ADDR_A)];
    let authors = resolve_authors(&records, MANAGER);
    assert_eq!(authors.len(), 0);
}

#[test]
fn authors_response_with_errors_is_protocol_error() {
    let r = interpret_authors_response(true, Some(vec![]));
    assert_eq!(r.unwrap_err(), FetchError::Protocol);
}

#[test]
fn authors_response_without_records_is_empty() {
    let r = interpret_authors_response(false, None);
    assert!(r.unwrap().is_empty());
}
