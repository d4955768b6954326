use pinset::aggregate::aggregate_results;
use pinset::aggregate::merge_pins;
use pinset::fetch::interpret_pin_response;
use pinset::fetch::FetchError;
use pinset::ipfs::decode_hash;
use pinset::ipfs::ContentId;
use pinset::subgraph::pin::decode_pin_page;
use pinset::subgraph::pin::PinFetch;
use pinset::subgraph::pin::PAGE_SIZE;

/// A well-formed multihash: sha2-256 code, digest length thirty-two, then a
/// digest of `fill` bytes.
fn multihash_bytes(fill: u8) -> Vec<u8> {
    let mut bytes = vec![0x12, 0x20];
    bytes.extend(std::iter::repeat(fill).take(32));
    bytes
}

/// The base58 text of a well-formed multihash with a digest of `fill` bytes.
fn cid_text(fill: u8) -> String {
    bs58::encode(multihash_bytes(fill)).into_string()
}

fn cid(fill: u8) -> ContentId {
    decode_hash(&cid_text(fill)).expect("a well-formed multihash decodes")
}

#[test]
fn decode_hash_valid_roundtrip() {
    let raw = multihash_bytes(0x07);
    let id = decode_hash(&cid_text(0x07)).expect("valid content id");
    assert_eq!(id.bytes(), &raw);
}

#[test]
fn decode_hash_rejects_bad_base58() {
    // Zero, upper-case o, upper-case i and lower-case l are outside the
    // bitcoin base58 alphabet.
    assert!(decode_hash("0OIl").is_none());
    assert!(decode_hash("Qm!!").is_none());
}

#[test]
fn decode_hash_rejects_bad_multihash() {
    // Decodes as base58, but claims a 255-byte digest with none present.
    let text = bs58::encode([0x12u8, 0xff]).into_string();
    assert!(decode_hash(&text).is_none());
    // Trailing byte after the digest.
    let mut long = multihash_bytes(0x01);
    long.push(0x00);
    let text = bs58::encode(&long).into_string();
    assert!(decode_hash(&text).is_none());
}

#[test]
fn page_decode_drops_bad_records_only() {
    let page = vec![
        cid_text(0x01),
        "0OIl".to_string(),
        bs58::encode([0x12u8, 0xff]).into_string(),
        cid_text(0x02),
    ];
    let decoded = decode_pin_page(&page);
    assert_eq!(decoded.len(), 2);
    assert_eq!(decoded[0].bytes(), &multihash_bytes(0x01));
    assert_eq!(decoded[1].bytes(), &multihash_bytes(0x02));
}

#[test]
fn pagination_requests_and_termination() {
    // Pages of sizes 500, 500, 213 and 0: four requests, at skip offsets
    // 0, 500, 1000 and 1500, stopping after the empty page.
    let ids = vec!["0xaaaaaaaaaaaaaaaaaaaaaaaaaaaaaaaaaaaaaaaa".to_string()];
    let pages: Vec<Vec<String>> = vec![
        vec![cid_text(0x01); 500],
        vec![cid_text(0x02); 500],
        vec![cid_text(0x03); 213],
        vec![],
    ];
    let mut fetch = PinFetch::new();
    let mut offsets = Vec::new();
    let mut requests = 0;
    for page in &pages {
        assert!(!fetch.done);
        let query = fetch.next_query(ids.clone());
        assert_eq!(query.first, PAGE_SIZE);
        offsets.push(query.skip);
        requests += 1;
        fetch.feed_page(page);
    }
    assert!(fetch.done);
    assert_eq!(requests, 4);
    assert_eq!(offsets, vec![0, 500, 1000, 1500]);
    // Every raw entry of the three populated pages decoded.
    assert_eq!(fetch.pins.len(), 1213);
    // Deduplicated, the union of the three pages holds three identifiers.
    let merged = aggregate_results(vec![Ok(fetch.pins)]).expect("one successful source");
    assert_eq!(merged.len(), 3);
}

#[test]
fn merge_two_sources_unions_and_dedupes() {
    // Sources {X, Y} and {Y, Z} merge to exactly {X, Y, Z}.
    let lists = vec![vec![cid(0x0a), cid(0x0b)], vec![cid(0x0b), cid(0x0c)]];
    let merged = merge_pins(&lists);
    assert_eq!(merged.len(), 3);
    for fill in [0x0a, 0x0b, 0x0c] {
        assert!(merged.iter().any(|c| c.bytes() == &multihash_bytes(fill)));
    }
}

#[test]
fn aggregate_succeeds_only_when_every_source_does() {
    let ok = aggregate_results(vec![Ok(vec![cid(0x01)]), Ok(vec![cid(0x01)])]);
    assert_eq!(ok.expect("all sources succeeded").len(), 1);

    let failed = aggregate_results(vec![Ok(vec![cid(0x01)]), Err(FetchError::Protocol)]);
    assert_eq!(failed.unwrap_err(), FetchError::Protocol);
}

#[test]
fn aggregate_surfaces_first_error() {
    let r = aggregate_results(vec![
        Ok(vec![]),
        Err(FetchError::Transport),
        Err(FetchError::Protocol),
    ]);
    assert_eq!(r.unwrap_err(), FetchError::Transport);
}

#[test]
fn pin_response_with_errors_is_protocol_error() {
    let r = interpret_pin_response(true, Some(vec![cid_text(0x01)]));
    assert_eq!(r.unwrap_err(), FetchError::Protocol);
}

#[test]
fn pin_response_without_hashes_is_empty_page() {
    let r = interpret_pin_response(false, None);
    assert!(r.unwrap().is_empty());
}
