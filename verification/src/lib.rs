//! A bounded key-value cache with S3-FIFO admission and eviction, as
//! described in
//! [FIFO Queues are All You Need for Cache Eviction](https://dl.acm.org/doi/pdf/10.1145/3600006.3613147).
//!
//! A cache is a number of shards. Each shard keeps new entries in a small
//! FIFO queue, promotes the ones that were read more than once to a main
//! FIFO queue when they reach the head of the small one, and notes the keys
//! of the others in a lossy ghost set, so that a key that comes back soon
//! after it left is admitted to the main queue at once. The main queue
//! gives an entry that was read another round before it lets it go.
//!
//! # What is proved
//!
//! Every function is verified against a contract over a mathematical model:
//! [`cache::ring_buffer::RingView`] for a queue,
//! [`cache::shard_model::ShardView`] for a shard and
//! [`cache::cache_model::CacheView`] for a cache. The model of a shard says
//! what an insert, a read and an eviction do, step by step; the functions of
//! [`cache::shard::Shard`] are proved to do exactly that, without a panic
//! and in a bounded number of steps. On top of the model stand the laws of
//! the cache, each a proof function: the index and the queues agree at all
//! times, a shard never holds more keys than its queues have slots, an
//! insert changes no value but that of its key, a second insert returns the
//! value of the first, and a key that the small queue retired returns to
//! the main queue.
//!
//! # What is assumed
//!
//! The cache hashes keys with a hasher that the caller picks, and keeps its
//! index in a hash map of the standard library. It relies on the key type
//! and the hasher to behave:
//! [`cache::hashing::obeys_cache_key_model`] says how, and every constructor
//! asks for it. The hash of a key is whatever the hasher returns; where a
//! contract depends on it, the hash is a parameter of the model, and a
//! function with the suffix `_hashed` takes it as an argument.
//!
//! # Sharing a cache between threads
//!
//! All operations take the cache, or the shard, by exclusive reference: a
//! read counts one more access of its entry. To share a cache between
//! threads, put each shard behind a lock of its own:
//! [`cache::Cache::into_parts`] hands out the shards, and
//! [`cache::shard_index`] tells which shard a key belongs to.
pub mod cache;

pub use cache::stats::Stats;
pub use cache::Cache;
