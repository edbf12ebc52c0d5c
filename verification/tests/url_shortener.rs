use rust_playground::url_shortener::{digest_text, hash_url, short_url, url_map, AddUrlRequest, RedirectRequest, SERVER_URL};

#[test]
fn a_url_is_known_by_its_hexadecimal_hash() {
    let url = "https://doc.rust-lang.org/book/";
    let expected = format!("{:x}", xxhash_rust::xxh3::xxh3_64(url.as_bytes()));
    assert_eq!(hash_url(url), expected);
    assert_ne!(hash_url(url), hash_url("https://doc.rust-lang.org/std/"));
}

#[test]
fn digests_are_written_in_lower_case_hexadecimal() {
    assert_eq!(digest_text(0), "0");
    assert_eq!(digest_text(255), "ff");
    assert_eq!(digest_text(0x1234_abcd), "1234abcd");
    assert_eq!(digest_text(u64::MAX), "ffffffffffffffff");
}

#[test]
fn short_urls_sit_under_the_server() {
    assert_eq!(SERVER_URL, "http://localhost:3000");
    assert_eq!(short_url("abc123"), "http://localhost:3000/abc123");
}

#[test]
fn url_maps_hold_all_three_forms() {
    let m = url_map("ff".to_string(), "https://example.com".to_string());
    assert_eq!(m.hash, "ff");
    assert_eq!(m.original, "https://example.com");
    assert_eq!(m.short, "http://localhost:3000/ff");
}

#[test]
fn requests_hold_their_fields() {
    let add = AddUrlRequest { url: "https://example.com".to_string() };
    let redirect = RedirectRequest { url_hash: hash_url(&add.url) };
    assert_eq!(redirect.url_hash, hash_url("https://example.com"));
}

#[test]
fn an_added_url_is_found_by_its_hash() {
    let mut kept: std::collections::HashMap<String, String> = std::collections::HashMap::new();
    let first = "https://doc.rust-lang.org/book/".to_string();
    let second = "https://doc.rust-lang.org/std/".to_string();
    let h1 = hash_url(&first);
    kept.insert(h1.clone(), first.clone());
    let h2 = hash_url(&second);
    kept.insert(h2.clone(), second.clone());
    let found = url_map(h1.clone(), kept[&h1].clone());
    assert_eq!(found.hash, h1);
    assert_eq!(found.original, first);
    assert_eq!(found.short, format!("http://localhost:3000/{}", h1));
    assert_eq!(url_map(h2.clone(), kept[&h2].clone()).original, second);
}
