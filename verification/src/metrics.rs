//! Memory usage and processing counters.
use vstd::prelude::*;

use crate::text::{decimal, push_text, u64_to_decimal};

verus! {

/// Files smaller than this are read whole into memory.
pub const SMALL_FILE_THRESHOLD: u64 = 32 * 1024;

/// Files of at least this size are memory mapped.
pub const LARGE_FILE_THRESHOLD: u64 = 10 * 1024 * 1024;

/// A snapshot of the counters kept by [`MemoryMetrics`].
#[derive(Debug, Clone, Copy, PartialEq, Eq, Structural)]
pub struct MemoryStats {
    pub total_allocated: u64,
    pub peak_allocated: u64,
    pub mmap_allocated: u64,
    pub cache_size: u64,
    pub cache_hits: u64,
    pub cache_misses: u64,
    pub small_files: u64,
    pub buffered_files: u64,
    pub mmap_files: u64,
}

/// Tracks memory usage and performance metrics.
#[derive(Debug)]
pub struct MemoryMetrics {
    total_allocated: u64,
    peak_allocated: u64,
    mmap_allocated: u64,
    cache_size: u64,
    cache_hits: u64,
    cache_misses: u64,
    small_files_processed: u64,
    buffered_files_processed: u64,
    mmap_files_processed: u64,
}

/// The size category a file of `size` bytes is processed under:
/// 0 for small files, 1 for buffered files, 2 for memory-mapped files.
pub open spec fn size_category(size: u64) -> int {
    if size < SMALL_FILE_THRESHOLD {
        0
    } else if size >= LARGE_FILE_THRESHOLD {
        2
    } else {
        1
    }
}

/// Cache size after an operation that changed it by `delta` bytes.
pub open spec fn cache_size_after(size: u64, delta: i64) -> u64 {
    if delta > 0 {
        size.wrapping_add(delta as u64)
    } else {
        size.wrapping_sub((-delta) as u64)
    }
}

impl View for MemoryMetrics {
    type V = MemoryStats;

    closed spec fn view(&self) -> MemoryStats {
        MemoryStats {
            total_allocated: self.total_allocated,
            peak_allocated: self.peak_allocated,
            mmap_allocated: self.mmap_allocated,
            cache_size: self.cache_size,
            cache_hits: self.cache_hits,
            cache_misses: self.cache_misses,
            small_files: self.small_files_processed,
            buffered_files: self.buffered_files_processed,
            mmap_files: self.mmap_files_processed,
        }
    }
}

impl MemoryMetrics {
    /// The peak never falls below the current allocation.
    #[verifier::type_invariant]
    closed spec fn peak_covers_total(self) -> bool {
        self.total_allocated <= self.peak_allocated
    }

    /// The counters of a fresh metrics value.
    pub open spec fn zero_stats() -> MemoryStats {
        MemoryStats {
            total_allocated: 0,
            peak_allocated: 0,
            mmap_allocated: 0,
            cache_size: 0,
            cache_hits: 0,
            cache_misses: 0,
            small_files: 0,
            buffered_files: 0,
            mmap_files: 0,
        }
    }

    /// Creates a new MemoryMetrics instance with every counter at zero.
    pub fn new() -> (m: Self)
        ensures
            m@ == Self::zero_stats(),
    {
        MemoryMetrics {
            total_allocated: 0,
            peak_allocated: 0,
            mmap_allocated: 0,
            cache_size: 0,
            cache_hits: 0,
            cache_misses: 0,
            small_files_processed: 0,
            buffered_files_processed: 0,
            mmap_files_processed: 0,
        }
    }

    /// Records memory allocation: the total grows by `bytes` and the peak
    /// follows the total when the total exceeds it.
    pub fn record_allocation(&mut self, bytes: u64)
        requires
            old(self)@.total_allocated + bytes <= u64::MAX,
        ensures
            final(self)@ == (MemoryStats {
                total_allocated: (old(self)@.total_allocated + bytes) as u64,
                peak_allocated: if old(self)@.total_allocated + bytes > old(self)@.peak_allocated {
                    (old(self)@.total_allocated + bytes) as u64
                } else {
                    old(self)@.peak_allocated
                },
                ..old(self)@
            }),
    {
        proof {
            use_type_invariant(&*self);
        }
        let total = self.total_allocated + bytes;
        if total > self.peak_allocated {
            self.peak_allocated = total;
        }
        self.total_allocated = total;
    }

    /// Records memory deallocation: the total shrinks by `bytes`.
    pub fn record_deallocation(&mut self, bytes: u64)
        requires
            bytes <= old(self)@.total_allocated,
        ensures
            final(self)@ == (MemoryStats {
                total_allocated: (old(self)@.total_allocated - bytes) as u64,
                ..old(self)@
            }),
    {
        proof {
            use_type_invariant(&*self);
        }
        self.total_allocated = self.total_allocated - bytes;
    }

    /// Records a memory-mapped file of `bytes` bytes.
    pub fn record_mmap(&mut self, bytes: u64)
        requires
            old(self)@.mmap_allocated + bytes <= u64::MAX,
        ensures
            final(self)@ == (MemoryStats {
                mmap_allocated: (old(self)@.mmap_allocated + bytes) as u64,
                ..old(self)@
            }),
    {
        proof {
            use_type_invariant(&*self);
        }
        self.mmap_allocated = self.mmap_allocated + bytes;
    }

    /// Records unmapping of a file of `bytes` bytes.
    pub fn record_munmap(&mut self, bytes: u64)
        requires
            bytes <= old(self)@.mmap_allocated,
        ensures
            final(self)@ == (MemoryStats {
                mmap_allocated: (old(self)@.mmap_allocated - bytes) as u64,
                ..old(self)@
            }),
    {
        proof {
            use_type_invariant(&*self);
        }
        self.mmap_allocated = self.mmap_allocated - bytes;
    }

    /// Records a cache operation: the cache size moves by `size_delta`
    /// (wrapping), and a hit or a miss is counted (wrapping).
    pub fn record_cache_operation(&mut self, size_delta: i64, hit: bool)
        requires
            size_delta != i64::MIN,
        ensures
            final(self)@ == (MemoryStats {
                cache_size: cache_size_after(old(self)@.cache_size, size_delta),
                cache_hits: if hit {
                    old(self)@.cache_hits.wrapping_add(1)
                } else {
                    old(self)@.cache_hits
                },
                cache_misses: if hit {
                    old(self)@.cache_misses
                } else {
                    old(self)@.cache_misses.wrapping_add(1)
                },
                ..old(self)@
            }),
    {
        proof {
            use_type_invariant(&*self);
        }
        if size_delta > 0 {
            self.cache_size = self.cache_size.wrapping_add(size_delta as u64);
        } else {
            self.cache_size = self.cache_size.wrapping_sub((-size_delta) as u64);
        }
        if hit {
            self.cache_hits = self.cache_hits.wrapping_add(1);
        } else {
            self.cache_misses = self.cache_misses.wrapping_add(1);
        }
    }

    /// Records that a file of `size` bytes was processed, counting it under
    /// its size category.
    pub fn record_file_processing(&mut self, size: u64)
        ensures
            final(self)@ == (MemoryStats {
                small_files: if size_category(size) == 0 {
                    old(self)@.small_files.wrapping_add(1)
                } else {
                    old(self)@.small_files
                },
                buffered_files: if size_category(size) == 1 {
                    old(self)@.buffered_files.wrapping_add(1)
                } else {
                    old(self)@.buffered_files
                },
                mmap_files: if size_category(size) == 2 {
                    old(self)@.mmap_files.wrapping_add(1)
                } else {
                    old(self)@.mmap_files
                },
                ..old(self)@
            }),
    {
        proof {
            use_type_invariant(&*self);
        }
        if size < SMALL_FILE_THRESHOLD {
            self.small_files_processed = self.small_files_processed.wrapping_add(1);
        } else if size >= LARGE_FILE_THRESHOLD {
            self.mmap_files_processed = self.mmap_files_processed.wrapping_add(1);
        } else {
            self.buffered_files_processed = self.buffered_files_processed.wrapping_add(1);
        }
    }

    /// Gets current memory usage statistics.
    pub fn get_stats(&self) -> (s: MemoryStats)
        ensures
            s == self@,
            s.total_allocated <= s.peak_allocated,
    {
        proof {
            use_type_invariant(self);
        }
        MemoryStats {
            total_allocated: self.total_allocated,
            peak_allocated: self.peak_allocated,
            mmap_allocated: self.mmap_allocated,
            cache_size: self.cache_size,
            cache_hits: self.cache_hits,
            cache_misses: self.cache_misses,
            small_files: self.small_files_processed,
            buffered_files: self.buffered_files_processed,
            mmap_files: self.mmap_files_processed,
        }
    }

    /// Copies the counters into an independent value.
    pub fn snapshot(&self) -> (m: Self)
        ensures
            m@ == self@,
    {
        proof {
            use_type_invariant(self);
        }
        MemoryMetrics {
            total_allocated: self.total_allocated,
            peak_allocated: self.peak_allocated,
            mmap_allocated: self.mmap_allocated,
            cache_size: self.cache_size,
            cache_hits: self.cache_hits,
            cache_misses: self.cache_misses,
            small_files_processed: self.small_files_processed,
            buffered_files_processed: self.buffered_files_processed,
            mmap_files_processed: self.mmap_files_processed,
        }
    }
}

/// The report of the counters, one statistic per line.
pub open spec fn stats_message(s: MemoryStats) -> Seq<char> {
    "Memory usage stats:\nTotal allocated: "@ + decimal(s.total_allocated as nat)
        + " bytes\nPeak allocated: "@ + decimal(s.peak_allocated as nat)
        + " bytes\nMemory mapped: "@ + decimal(s.mmap_allocated as nat) + " bytes\nCache size: "@
        + decimal(s.cache_size as nat) + " bytes\nCache hits/misses: "@ + decimal(
        s.cache_hits as nat,
    ) + "/"@ + decimal(s.cache_misses as nat) + "\nFiles processed (small/buffered/mmap): "@
        + decimal(s.small_files as nat) + "/"@ + decimal(s.buffered_files as nat) + "/"@ + decimal(
        s.mmap_files as nat,
    )
}

fn push_number(out: &mut String, n: u64)
    ensures
        final(out)@ == old(out)@ + decimal(n as nat),
{
    let d = u64_to_decimal(n);
    push_text(out, d.as_str());
}

impl MemoryMetrics {
    /// The memory usage report that is logged (see [`stats_message`]).
    pub fn log_stats(&self) -> (r: String)
        ensures
            r@ == stats_message(self@),
    {
        let s = self.get_stats();
        let mut out = String::new();
        push_text(&mut out, "Memory usage stats:\nTotal allocated: ");
        push_number(&mut out, s.total_allocated);
        push_text(&mut out, " bytes\nPeak allocated: ");
        push_number(&mut out, s.peak_allocated);
        push_text(&mut out, " bytes\nMemory mapped: ");
        push_number(&mut out, s.mmap_allocated);
        push_text(&mut out, " bytes\nCache size: ");
        push_number(&mut out, s.cache_size);
        push_text(&mut out, " bytes\nCache hits/misses: ");
        push_number(&mut out, s.cache_hits);
        push_text(&mut out, "/");
        push_number(&mut out, s.cache_misses);
        push_text(&mut out, "\nFiles processed (small/buffered/mmap): ");
        push_number(&mut out, s.small_files);
        push_text(&mut out, "/");
        push_number(&mut out, s.buffered_files);
        push_text(&mut out, "/");
        push_number(&mut out, s.mmap_files);
        assert(out@ =~= stats_message(self@));
        out
    }
}

impl Default for MemoryMetrics {
    fn default() -> (m: Self)
        ensures
            m@ == Self::zero_stats(),
    {
        Self::new()
    }
}

} // verus!
