//! Shortening URLs: a URL is known by the hexadecimal form of its xxh3 hash,
//! and its short form is that hash under the server's address.
use vstd::prelude::*;
use vstd::string::StringSliceAdditionalSpecFns;
use vstd::utf8::encode_utf8;

use crate::text::{chars_of, extend_chars, lower_hex, lower_hex_chars, string_of};

verus! {

/// Where the server answers.
pub const SERVER_URL: &'static str = "http://localhost:3000";

/// A request to shorten a URL.
pub struct AddUrlRequest {
    pub url: String,
}

/// A request to follow a short URL, by its hash.
pub struct RedirectRequest {
    pub url_hash: String,
}

/// A shortened URL: its hash, the URL itself and its short form.
pub struct UrlMap {
    pub hash: String,
    pub original: String,
    pub short: String,
}

/// What `xxh3_64` of the `xxhash-rust` crate makes of `bytes`.
pub uninterp spec fn xxh3_64_of(bytes: Seq<u8>) -> u64;

/// The 64-bit XXH3 hash of `bytes`, with the default seed and secret.
///
/// Calls `xxhash_rust::xxh3::xxh3_64`. The hash is named, not stated: it
/// depends on the bytes alone.
#[verifier::external_body]
fn xxh3_digest(bytes: &[u8]) -> (h: u64)
    ensures
        h == xxh3_64_of(bytes@),
{
    xxhash_rust::xxh3::xxh3_64(bytes)
}

/// The hash that a text is known by: the lower-case hexadecimal form of the
/// XXH3 hash of its UTF-8 bytes.
pub open spec fn text_hash(u: Seq<char>) -> Seq<char> {
    lower_hex(xxh3_64_of(encode_utf8(u)) as nat)
}

/// The hash that a URL is known by: that of its text.
pub open spec fn url_hash_of(url: &str) -> Seq<char> {
    text_hash(url@)
}

/// How a digest is written in a URL: in lower-case hexadecimal.
pub fn digest_text(digest: u64) -> (h: String)
    ensures
        h@ == lower_hex(digest as nat),
{
    let v = lower_hex_chars(digest);
    string_of(&v)
}

/// The hash that `url` is known by.
pub fn hash_url(url: &str) -> (h: String)
    ensures
        h@ == url_hash_of(url),
{
    let bytes = url.as_bytes();
    let digest = xxh3_digest(bytes);
    digest_text(digest)
}

/// The short form of the URL known by the hash `h`: the hash under the
/// server's address.
pub open spec fn short_form(h: Seq<char>) -> Seq<char> {
    SERVER_URL@ + "/"@ + h
}

/// The short form of the URL known by `url_hash`: the hash under the
/// server's address.
pub fn short_url(url_hash: &str) -> (s: String)
    ensures
        s@ == short_form(url_hash@),
{
    let mut v = chars_of(SERVER_URL);
    let slash = chars_of("/");
    extend_chars(&mut v, &slash);
    let h = chars_of(url_hash);
    extend_chars(&mut v, &h);
    string_of(&v)
}

/// What is known of the URL `original` kept under `url_hash`.
pub fn url_map(url_hash: String, original: String) -> (m: UrlMap)
    ensures
        m.hash@ == url_hash@,
        m.original@ == original@,
        m.short@ == short_form(url_hash@),
{
    let short = short_url(url_hash.as_str());
    UrlMap { hash: url_hash, original, short }
}

/// What a key-value server that gives back the last value written under a
/// key holds after the URLs are added one after another, from `m`: each URL
/// under its hash, as `Store::add` of the server program writes it.
pub open spec fn kept_after_adds(m: Map<Seq<char>, Seq<char>>, urls: Seq<Seq<char>>) -> Map<Seq<char>, Seq<char>>
    decreases urls.len(),
{
    if urls.len() == 0 {
        m
    } else {
        kept_after_adds(m, urls.drop_last()).insert(text_hash(urls.last()), urls.last())
    }
}

/// A URL that was added is found again under the hash that adding it
/// returned, so long as no URL added after it has the same hash; what
/// `url_map` then makes of the hash and the value found is that URL, with the
/// short form of the hash.
pub proof fn law_added_url_found(m: Map<Seq<char>, Seq<char>>, urls: Seq<Seq<char>>, i: int)
    requires
        0 <= i < urls.len(),
        forall|j: int| i < j < urls.len() ==> text_hash(#[trigger] urls[j]) != text_hash(urls[i]),
    ensures
        kept_after_adds(m, urls).contains_key(text_hash(urls[i])),
        kept_after_adds(m, urls)[text_hash(urls[i])] == urls[i],
    decreases urls.len(),
{
    if i < urls.len() - 1 {
        let init = urls.drop_last();
        assert forall|j: int| i < j < init.len() implies text_hash(#[trigger] init[j]) != text_hash(init[i]) by {
            assert(init[j] == urls[j]);
        }
        law_added_url_found(m, init, i);
        assert(text_hash(urls[urls.len() - 1]) != text_hash(urls[i]));
    }
}

} // verus!
