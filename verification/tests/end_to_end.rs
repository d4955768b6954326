use pinset::aggregate::aggregate_results;
use pinset::authors::resolve_authors;
use pinset::authors::MetaRecord;
use pinset::fetch::interpret_authors_response;
use pinset::fetch::interpret_pin_response;
use pinset::fetch::validate_registry_url;
use pinset::subgraph::pin::PinFetch;

/// The whole pipeline on one manager: one authorizing record, one source
/// with one page of two hash strings of which one is malformed, and exactly
/// one resulting pin.
#[test]
fn pipeline_end_to_end() {
    let manager = "0xc0d477556c25c9d67e1f57245c7453da776b51cf";
    assert!(validate_registry_url("https://registry.example/authors").is_ok());

    // The authors registry answers with one record: the manager adds itself.
    let meta = "0xff0a89c674ee7874a3005501c0d477556c25c9d67e1f57245c7453da776b51cf011bffb2637608c09e3802706170706c69636174696f6e2f63626f72";
    let records = vec![MetaRecord {
        meta: meta.to_string(),
        sender: manager.to_string(),
    }];
    let records = interpret_authors_response(false, Some(records)).expect("no errors field");
    let authors = resolve_authors(&records, manager);
    assert_eq!(authors.len(), 1);
    assert_eq!(authors[0].to_text(), manager);

    // One configured source returns a single page with one well-formed and
    // one malformed hash string, then an empty page.
    let ids: Vec<String> = authors.iter().map(|a| a.to_text()).collect();
    let mut valid = vec![0x12u8, 0x20];
    valid.extend(std::iter::repeat(0x11u8).take(32));
    let valid_text = bs58::encode(&valid).into_string();
    let page = interpret_pin_response(
        false,
        Some(vec![valid_text, "not-base58-0OIl".to_string()]),
    )
    .expect("no errors field");

    let mut fetch = PinFetch::new();
    let query = fetch.next_query(ids.clone());
    assert_eq!(query.skip, 0);
    assert_eq!(query.ids, ids);
    fetch.feed_page(&page);
    assert!(!fetch.done);
    fetch.feed_page(&Vec::new());
    assert!(fetch.done);

    // The final output holds the one decodable identifier, exactly once.
    let pins = aggregate_results(vec![Ok(fetch.pins)]).expect("the one source succeeded");
    assert_eq!(pins.len(), 1);
    assert_eq!(pins[0].bytes(), &valid);
    assert_eq!(bs58::encode(pins[0].bytes()).into_string(), {
        let mut v = vec![0x12u8, 0x20];
        v.extend(std::iter::repeat(0x11u8).take(32));
        bs58::encode(&v).into_string()
    });
}
