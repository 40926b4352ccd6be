use shortty::errors::AppError;
use shortty::hashing::create_hash;
use shortty::mem_store::MemStore;
use shortty::service::{shorten_response, shorten_url, Config, ShortenRequest};

#[test]
fn shorten_normalizes_then_allocates() {
    let mut store = MemStore::new();
    let rec = shorten_url(&mut store, "  example.com ", 8).unwrap();
    assert_eq!(rec.original_url, "https://example.com");
    assert_eq!(rec.short_code, create_hash("https://example.com", 8));
    assert_eq!(store.record_count(), 1);
}

#[test]
fn shorten_is_idempotent_across_spellings() {
    let mut store = MemStore::new();
    let a = shorten_url(&mut store, "example.com", 8).unwrap();
    let b = shorten_url(&mut store, "https://example.com", 8).unwrap();
    let c = shorten_url(&mut store, "https://example.com/", 8).unwrap();
    assert_eq!(a.short_code, b.short_code);
    assert_eq!(b.short_code, c.short_code);
    assert_eq!(store.record_count(), 1);
}

#[test]
fn shorten_rejects_invalid_input() {
    let mut store = MemStore::new();
    let empty = shorten_url(&mut store, "", 8);
    match empty {
        Err(AppError::InvalidUrl(msg)) => assert_eq!(msg, "URL cannot be empty"),
        other => panic!("unexpected result: {:?}", other),
    }
    let undotted = shorten_url(&mut store, "https://localhost", 8);
    match undotted {
        Err(AppError::InvalidUrl(msg)) => assert_eq!(msg, "Invalid domain format"),
        other => panic!("unexpected result: {:?}", other),
    }
    assert_eq!(store.record_count(), 0);
}

#[test]
fn response_carries_short_url() {
    let mut store = MemStore::new();
    let request = ShortenRequest { url_to_shorten: String::from("example.com") };
    let rec = shorten_url(&mut store, &request.url_to_shorten, 8).unwrap();
    let resp = shorten_response("http://localhost:3000", &rec);
    assert_eq!(resp.short_code, rec.short_code);
    assert_eq!(resp.original_url, "https://example.com");
    assert_eq!(resp.short_url, format!("http://localhost:3000/{}", rec.short_code));
}

#[test]
fn config_fields_carry_through() {
    let config = Config {
        database_url: String::from("postgres://db.example/urls"),
        server_port: 3000,
        max_connections: 10,
        hash_length: 8,
        base_url: String::from("http://localhost:3000"),
    };
    assert_eq!(config.hash_length, 8);
    assert_eq!(config.server_port, 3000);
}
