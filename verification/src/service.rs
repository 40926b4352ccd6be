use vstd::prelude::*;

use crate::allocator::alloc_code;
use crate::allocator::alloc_db;
use crate::allocator::allocate;
use crate::errors::AppError;
use crate::hashing::code_len;
use crate::store::Store;
use crate::store::UrlRecord;
use crate::store::has_url;
use crate::store::row_of;
use crate::store::urls_unique;
use crate::text::build_short_url;
use crate::validate_url::normalize_spec;
use crate::validate_url::normalize_url;

verus! {

/// Process configuration, passed in explicitly rather than read from
/// ambient state, so the allocation path stays a function of its inputs.
#[derive(Clone)]
pub struct Config {
    pub database_url: String,
    pub server_port: u16,
    pub max_connections: u32,
    pub hash_length: usize,
    pub base_url: String,
}

/// The body of a shorten request.
pub struct ShortenRequest {
    pub url_to_shorten: String,
}

/// What a successful shorten hands back to the client.
pub struct ShortenResponse {
    pub short_code: String,
    pub short_url: String,
    pub original_url: String,
}

/// The whole inbound shorten path: normalize and validate the raw input,
/// then allocate against the store — returning the existing mapping for a
/// known URL, a fresh deterministic one otherwise.
pub fn shorten_url<S: Store>(store: &mut S, raw_input: &str, hash_length: usize) -> (r: Result<
    UrlRecord,
    AppError,
>)
    requires
        old(store).wf(),
        urls_unique(old(store).db()),
    ensures
        final(store).wf(),
        urls_unique(final(store).db()),
        normalize_spec(raw_input@) matches Err(ve) ==> (r matches Err(e) && e matches
            AppError::InvalidUrl(m) && m@ == ve.message_spec()) && final(store).db()
            == old(store).db(),
        normalize_spec(raw_input@) matches Ok(nu) ==> ({
            &&& final(store).db() == alloc_db(old(store).db(), nu, hash_length as int)
            &&& (r is Ok <==> alloc_code(old(store).db(), nu, hash_length as int) is Some)
            &&& (r matches Ok(rec) ==> alloc_code(old(store).db(), nu, hash_length as int)
                == Option::Some(rec.short_code@) && rec.original_url@ == nu
                && final(store).db().contains_key(rec.short_code@)
                && final(store).db()[rec.short_code@] == row_of(rec))
            &&& (r matches Ok(rec) ==> (!has_url(old(store).db(), nu) ==> rec.short_code@.len()
                == code_len(hash_length as int)))
            &&& (r matches Err(e) ==> e is Internal)
        }),
{
    match normalize_url(raw_input) {
        Ok(normalized) => allocate(store, normalized.as_str(), hash_length),
        Err(ve) => Err(AppError::InvalidUrl(ve.message())),
    }
}

/// The client-facing view of a mapping, with the short URL assembled from
/// the configured base.
pub fn shorten_response(base_url: &str, rec: &UrlRecord) -> (r: ShortenResponse)
    ensures
        r.short_code@ == rec.short_code@,
        r.original_url@ == rec.original_url@,
        r.short_url@ == base_url@ + seq!['/'] + rec.short_code@,
{
    ShortenResponse {
        short_code: rec.short_code.clone(),
        short_url: build_short_url(base_url, rec.short_code.as_str()),
        original_url: rec.original_url.clone(),
    }
}

} // verus!
