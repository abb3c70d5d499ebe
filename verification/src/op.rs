//! The operations a decoded frame asks of the store: reading, writing and
//! deleting values, with a write's payload split into key and value at the
//! first `:`.

use vstd::prelude::*;
use crate::cache::{cache_delete, cache_get, cache_put, Cache};
use crate::error::{RemError, RemErrorKind, REM_00005};
use crate::scan::{after_first, before_first, first_index, lemma_first_index_properties};
use vstd::string::StrSliceExecFns;
use vstd::utf8::encode_utf8;

verus! {

/// Reads the value stored under the key; a miss is a `KeyNotFound` error.
pub fn read_value_from_cache(key: String, cache: &Cache) -> (r: Result<Vec<u8>, RemError>)
    requires
        cache.wf(),
    ensures
        ({
            match cache_get(cache@, key@) {
                Some(v) => r matches Ok(rv) && rv@ == v,
                None => r matches Err(e) && e.kind == RemErrorKind::KeyNotFound && e.reason@
                    == REM_00005@,
            }
        }),
{
    match cache.read_item(key) {
        Ok(Some(boxed_val)) => {
            let val: Vec<u8> = *boxed_val;
            Ok(val)
        },
        Ok(None) => Err(RemError::key_not_found()),
        Err(e) => Err(e),
    }
}

/// Splits the payload at the first `:` into key and value — without a `:`
/// the key is the whole payload and the value is empty — and writes the
/// value's UTF-8 bytes to the cache under the key.
pub fn write_stream_str_to_cache(stream_str: String, cache: &mut Cache) -> (r: Result<
    (),
    RemError,
>)
    requires
        old(cache).wf(),
    ensures
        final(cache).wf(),
        r is Ok,
        final(cache)@ == cache_put(
            old(cache)@,
            before_first(stream_str@, ':'),
            encode_utf8(after_first(stream_str@, ':')),
        ),
{
    let s = stream_str.as_str();
    let n = s.unicode_len();
    let ghost d = first_index(s@, ':');
    proof {
        lemma_first_index_properties(s@, ':');
    }
    let mut key = String::new();
    let mut i: usize = 0;
    while i < n
        invariant
            *cache == *old(cache),
            old(cache).wf(),
            s@ == stream_str@,
            n == s@.len(),
            i <= n,
            d == first_index(s@, ':'),
            0 <= d <= s@.len(),
            d < s@.len() ==> s@[d] == ':',
            forall|j: int| 0 <= j < d ==> s@[j] != ':',
            forall|j: int| 0 <= j < i ==> s@[j] != ':',
            key@ == s@.take(i as int),
        decreases n - i,
    {
        let c = s.get_char(i);
        if c == ':' {
            proof {
                assert(i == d);
            }
            let val = s.substring_char(i + 1, n);
            proof {
                assert(val@ =~= after_first(stream_str@, ':'));
            }
            let bytes = val.as_bytes_vec();
            return cache.cache_item(key.as_str(), bytes);
        }
        crate::text::push_char(&mut key, c);
        proof {
            assert(key@ =~= s@.take(i + 1));
        }
        i += 1;
    }
    proof {
        assert(d == s@.len());
        assert(key@ =~= before_first(stream_str@, ':'));
        assert(after_first(stream_str@, ':') == Seq::<char>::empty());
        assert(encode_utf8(after_first(stream_str@, ':')) =~= Seq::<u8>::empty());
    }
    let bytes: Vec<u8> = Vec::new();
    cache.cache_item(key.as_str(), bytes)
}

/// Deletes the value stored under the key; an absent key is no error.
pub fn delete_value_from_cache(key: String, cache: &mut Cache) -> (r: Result<(), RemError>)
    requires
        old(cache).wf(),
    ensures
        final(cache).wf(),
        r is Ok,
        final(cache)@ == cache_delete(old(cache)@, key@),
{
    cache.delete_item(key)
}

} // verus!
