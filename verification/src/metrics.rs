//! Operation counters and the text that the metrics endpoint serves.

use vstd::prelude::*;
use vstd::string::*;
use vstd::utf8::*;

use crate::checksum::{crc_check, CrcCheck};
use crate::numeral::{decimal, decimal_text};
use crate::text::{has_suffix, law_prefix_and_rest};

verus! {

/// Monotonic operation counters of one mount.
#[derive(Debug, Clone, Copy)]
pub struct Metrics {
    pub reads: u64,
    pub writes: u64,
    pub s3_gets: u64,
    pub s3_heads: u64,
    pub s3_stat_heads: u64,
    pub stat_cache_hits: u64,
    pub stat_positive_cache_hits: u64,
    pub stat_negative_cache_hits: u64,
    pub s3_etag_heads: u64,
    pub s3_lists: u64,
    pub s3_puts: u64,
    pub s3_errors: u64,
    pub s3_get_errors: u64,
    pub s3_list_errors: u64,
    pub s3_put_errors: u64,
    pub s3_delete_errors: u64,
    pub s3_multipart_errors: u64,
    pub upload_bytes_total: u64,
    pub download_bytes_total: u64,
    pub read_cache_hits: u64,
    pub read_cache_misses: u64,
    pub disk_cache_hits: u64,
    pub disk_cache_misses: u64,
    pub prefetch_started: u64,
    pub prefetch_skipped: u64,
    pub prefetch_failed: u64,
    pub list_throttled: u64,
    pub crc64_mismatches: u64,
    pub trash_tombstones_written: u64,
    pub trash_refresh_incrementals: u64,
    pub trash_refresh_rebuilds: u64,
    pub trash_refresh_errors: u64,
    pub trash_start_after_ignored: u64,
    pub trash_bootstrap_failures: u64,
    pub trash_gc_etag_skips: u64,
}

/// The counters at one point in time, with the two gauges.
#[derive(Debug, Clone, Copy, PartialEq, Eq, Structural)]
pub struct MetricsSnapshot {
    pub reads: u64,
    pub writes: u64,
    pub s3_gets: u64,
    pub s3_heads: u64,
    pub s3_stat_heads: u64,
    pub stat_cache_hits: u64,
    pub stat_positive_cache_hits: u64,
    pub stat_negative_cache_hits: u64,
    pub s3_etag_heads: u64,
    pub s3_lists: u64,
    pub s3_puts: u64,
    pub s3_errors: u64,
    pub s3_get_errors: u64,
    pub s3_list_errors: u64,
    pub s3_put_errors: u64,
    pub s3_delete_errors: u64,
    pub s3_multipart_errors: u64,
    pub upload_bytes_total: u64,
    pub download_bytes_total: u64,
    pub read_cache_hits: u64,
    pub read_cache_misses: u64,
    pub disk_cache_hits: u64,
    pub disk_cache_misses: u64,
    pub prefetch_started: u64,
    pub prefetch_inflight: usize,
    pub prefetch_skipped: u64,
    pub prefetch_failed: u64,
    pub list_throttled: u64,
    pub crc64_mismatches: u64,
    pub trash_tombstones_written: u64,
    pub trash_index_entries: usize,
    pub trash_refresh_incrementals: u64,
    pub trash_refresh_rebuilds: u64,
    pub trash_refresh_errors: u64,
    pub trash_start_after_ignored: u64,
    pub trash_bootstrap_failures: u64,
    pub trash_gc_etag_skips: u64,
}

/// Adds to a counter, which wraps around.
pub fn count(counter: &mut u64, by: u64)
    ensures
        *final(counter) == u64::wrapping_add(*old(counter), by),
{
    *counter = (*counter).wrapping_add(by);
}

impl Default for MetricsSnapshot {
    /// Every counter at zero.
    fn default() -> (r: Self)
        ensures
            r == Metrics::zero().spec_snapshot(),
    {
        MetricsSnapshot {
            reads: 0,
            writes: 0,
            s3_gets: 0,
            s3_heads: 0,
            s3_stat_heads: 0,
            stat_cache_hits: 0,
            stat_positive_cache_hits: 0,
            stat_negative_cache_hits: 0,
            s3_etag_heads: 0,
            s3_lists: 0,
            s3_puts: 0,
            s3_errors: 0,
            s3_get_errors: 0,
            s3_list_errors: 0,
            s3_put_errors: 0,
            s3_delete_errors: 0,
            s3_multipart_errors: 0,
            upload_bytes_total: 0,
            download_bytes_total: 0,
            read_cache_hits: 0,
            read_cache_misses: 0,
            disk_cache_hits: 0,
            disk_cache_misses: 0,
            prefetch_started: 0,
            prefetch_inflight: 0,
            prefetch_skipped: 0,
            prefetch_failed: 0,
            list_throttled: 0,
            crc64_mismatches: 0,
            trash_tombstones_written: 0,
            trash_index_entries: 0,
            trash_refresh_incrementals: 0,
            trash_refresh_rebuilds: 0,
            trash_refresh_errors: 0,
            trash_start_after_ignored: 0,
            trash_bootstrap_failures: 0,
            trash_gc_etag_skips: 0,
        }
    }
}

impl Metrics {
    /// Counters that have counted nothing.
    pub open spec fn zero() -> Metrics {
        Metrics {
            reads: 0,
            writes: 0,
            s3_gets: 0,
            s3_heads: 0,
            s3_stat_heads: 0,
            stat_cache_hits: 0,
            stat_positive_cache_hits: 0,
            stat_negative_cache_hits: 0,
            s3_etag_heads: 0,
            s3_lists: 0,
            s3_puts: 0,
            s3_errors: 0,
            s3_get_errors: 0,
            s3_list_errors: 0,
            s3_put_errors: 0,
            s3_delete_errors: 0,
            s3_multipart_errors: 0,
            upload_bytes_total: 0,
            download_bytes_total: 0,
            read_cache_hits: 0,
            read_cache_misses: 0,
            disk_cache_hits: 0,
            disk_cache_misses: 0,
            prefetch_started: 0,
            prefetch_skipped: 0,
            prefetch_failed: 0,
            list_throttled: 0,
            crc64_mismatches: 0,
            trash_tombstones_written: 0,
            trash_refresh_incrementals: 0,
            trash_refresh_rebuilds: 0,
            trash_refresh_errors: 0,
            trash_start_after_ignored: 0,
            trash_bootstrap_failures: 0,
            trash_gc_etag_skips: 0,
        }
    }

    /// What a snapshot shows: every counter as it is, and the gauges at zero.
    pub open spec fn spec_snapshot(&self) -> MetricsSnapshot {
        MetricsSnapshot {
            reads: self.reads,
            writes: self.writes,
            s3_gets: self.s3_gets,
            s3_heads: self.s3_heads,
            s3_stat_heads: self.s3_stat_heads,
            stat_cache_hits: self.stat_cache_hits,
            stat_positive_cache_hits: self.stat_positive_cache_hits,
            stat_negative_cache_hits: self.stat_negative_cache_hits,
            s3_etag_heads: self.s3_etag_heads,
            s3_lists: self.s3_lists,
            s3_puts: self.s3_puts,
            s3_errors: self.s3_errors,
            s3_get_errors: self.s3_get_errors,
            s3_list_errors: self.s3_list_errors,
            s3_put_errors: self.s3_put_errors,
            s3_delete_errors: self.s3_delete_errors,
            s3_multipart_errors: self.s3_multipart_errors,
            upload_bytes_total: self.upload_bytes_total,
            download_bytes_total: self.download_bytes_total,
            read_cache_hits: self.read_cache_hits,
            read_cache_misses: self.read_cache_misses,
            disk_cache_hits: self.disk_cache_hits,
            disk_cache_misses: self.disk_cache_misses,
            prefetch_started: self.prefetch_started,
            prefetch_inflight: 0,
            prefetch_skipped: self.prefetch_skipped,
            prefetch_failed: self.prefetch_failed,
            list_throttled: self.list_throttled,
            crc64_mismatches: self.crc64_mismatches,
            trash_tombstones_written: self.trash_tombstones_written,
            trash_index_entries: 0,
            trash_refresh_incrementals: self.trash_refresh_incrementals,
            trash_refresh_rebuilds: self.trash_refresh_rebuilds,
            trash_refresh_errors: self.trash_refresh_errors,
            trash_start_after_ignored: self.trash_start_after_ignored,
            trash_bootstrap_failures: self.trash_bootstrap_failures,
            trash_gc_etag_skips: self.trash_gc_etag_skips,
        }
    }

    /// Counters that have counted nothing.
    pub fn new() -> (r: Self)
        ensures
            r == Metrics::zero(),
    {
        Metrics {
            reads: 0,
            writes: 0,
            s3_gets: 0,
            s3_heads: 0,
            s3_stat_heads: 0,
            stat_cache_hits: 0,
            stat_positive_cache_hits: 0,
            stat_negative_cache_hits: 0,
            s3_etag_heads: 0,
            s3_lists: 0,
            s3_puts: 0,
            s3_errors: 0,
            s3_get_errors: 0,
            s3_list_errors: 0,
            s3_put_errors: 0,
            s3_delete_errors: 0,
            s3_multipart_errors: 0,
            upload_bytes_total: 0,
            download_bytes_total: 0,
            read_cache_hits: 0,
            read_cache_misses: 0,
            disk_cache_hits: 0,
            disk_cache_misses: 0,
            prefetch_started: 0,
            prefetch_skipped: 0,
            prefetch_failed: 0,
            list_throttled: 0,
            crc64_mismatches: 0,
            trash_tombstones_written: 0,
            trash_refresh_incrementals: 0,
            trash_refresh_rebuilds: 0,
            trash_refresh_errors: 0,
            trash_start_after_ignored: 0,
            trash_bootstrap_failures: 0,
            trash_gc_etag_skips: 0,
        }
    }

    /// The counters as they are now.
    pub fn snapshot(&self) -> (r: MetricsSnapshot)
        ensures
            r == self.spec_snapshot(),
    {
        MetricsSnapshot {
            reads: self.reads,
            writes: self.writes,
            s3_gets: self.s3_gets,
            s3_heads: self.s3_heads,
            s3_stat_heads: self.s3_stat_heads,
            stat_cache_hits: self.stat_cache_hits,
            stat_positive_cache_hits: self.stat_positive_cache_hits,
            stat_negative_cache_hits: self.stat_negative_cache_hits,
            s3_etag_heads: self.s3_etag_heads,
            s3_lists: self.s3_lists,
            s3_puts: self.s3_puts,
            s3_errors: self.s3_errors,
            s3_get_errors: self.s3_get_errors,
            s3_list_errors: self.s3_list_errors,
            s3_put_errors: self.s3_put_errors,
            s3_delete_errors: self.s3_delete_errors,
            s3_multipart_errors: self.s3_multipart_errors,
            upload_bytes_total: self.upload_bytes_total,
            download_bytes_total: self.download_bytes_total,
            read_cache_hits: self.read_cache_hits,
            read_cache_misses: self.read_cache_misses,
            disk_cache_hits: self.disk_cache_hits,
            disk_cache_misses: self.disk_cache_misses,
            prefetch_started: self.prefetch_started,
            prefetch_inflight: 0,
            prefetch_skipped: self.prefetch_skipped,
            prefetch_failed: self.prefetch_failed,
            list_throttled: self.list_throttled,
            crc64_mismatches: self.crc64_mismatches,
            trash_tombstones_written: self.trash_tombstones_written,
            trash_index_entries: 0,
            trash_refresh_incrementals: self.trash_refresh_incrementals,
            trash_refresh_rebuilds: self.trash_refresh_rebuilds,
            trash_refresh_errors: self.trash_refresh_errors,
            trash_start_after_ignored: self.trash_start_after_ignored,
            trash_bootstrap_failures: self.trash_bootstrap_failures,
            trash_gc_etag_skips: self.trash_gc_etag_skips,
        }
    }
}

/// The metrics that are whole numbers, in the order in which they are shown.
pub open spec fn metric_values(s: MetricsSnapshot) -> Seq<(Seq<char>, nat)> {
    seq![
        ("ossfs_reads_total"@, s.reads as nat),
        ("ossfs_writes_total"@, s.writes as nat),
        ("ossfs_s3_gets_total"@, s.s3_gets as nat),
        ("ossfs_s3_heads_total"@, s.s3_heads as nat),
        ("ossfs_s3_stat_heads_total"@, s.s3_stat_heads as nat),
        ("ossfs_stat_cache_hits_total"@, s.stat_cache_hits as nat),
        ("ossfs_stat_positive_cache_hits_total"@, s.stat_positive_cache_hits as nat),
        ("ossfs_stat_negative_cache_hits_total"@, s.stat_negative_cache_hits as nat),
        ("ossfs_s3_etag_heads_total"@, s.s3_etag_heads as nat),
        ("ossfs_s3_lists_total"@, s.s3_lists as nat),
        ("ossfs_s3_puts_total"@, s.s3_puts as nat),
        ("ossfs_s3_errors_total"@, s.s3_errors as nat),
        ("ossfs_s3_get_errors_total"@, s.s3_get_errors as nat),
        ("ossfs_s3_list_errors_total"@, s.s3_list_errors as nat),
        ("ossfs_s3_put_errors_total"@, s.s3_put_errors as nat),
        ("ossfs_s3_delete_errors_total"@, s.s3_delete_errors as nat),
        ("ossfs_s3_multipart_errors_total"@, s.s3_multipart_errors as nat),
        ("ossfs_upload_bytes_total"@, s.upload_bytes_total as nat),
        ("ossfs_download_bytes_total"@, s.download_bytes_total as nat),
        ("ossfs_read_cache_hits_total"@, s.read_cache_hits as nat),
        ("ossfs_read_cache_misses_total"@, s.read_cache_misses as nat),
        ("ossfs_disk_cache_hits_total"@, s.disk_cache_hits as nat),
        ("ossfs_disk_cache_misses_total"@, s.disk_cache_misses as nat),
        ("ossfs_prefetch_started_total"@, s.prefetch_started as nat),
        ("ossfs_prefetch_inflight"@, s.prefetch_inflight as nat),
        ("ossfs_prefetch_skipped_total"@, s.prefetch_skipped as nat),
        ("ossfs_prefetch_failed_total"@, s.prefetch_failed as nat),
        ("ossfs_list_throttled_total"@, s.list_throttled as nat),
        ("ossfs_crc64_mismatches_total"@, s.crc64_mismatches as nat),
        ("ossfs_trash_index_entries"@, s.trash_index_entries as nat),
        ("ossfs_trash_gc_etag_skips_total"@, s.trash_gc_etag_skips as nat),
    ]
}

/// One line of the exposition: a name, a blank and a value.
pub open spec fn metric_line(name: Seq<char>, value: Seq<char>) -> Seq<char> {
    name + seq![' '] + value + seq!['\n']
}

/// The lines of the first `n` whole-number metrics.
pub open spec fn metric_lines(values: Seq<(Seq<char>, nat)>, n: int) -> Seq<char>
    decreases n,
{
    if n <= 0 {
        Seq::empty()
    } else {
        metric_lines(values, n - 1) + metric_line(values[n - 1].0, decimal(values[n - 1].1))
    }
}

/// A share of a total, or an average: what is divided by what. Nothing is
/// divided where the denominator is zero.
#[derive(Debug, Clone, Copy, PartialEq, Eq, Structural)]
pub struct Fraction {
    pub numerator: u64,
    pub denominator: u128,
}

/// The fractions that the last six lines show: the average upload and
/// download, and the hit ratios of the stat cache, of its negative part, of
/// the read cache and of the disk cache.
pub open spec fn metric_fractions(s: MetricsSnapshot) -> Seq<Fraction> {
    seq![
        Fraction { numerator: s.upload_bytes_total, denominator: s.s3_puts as u128 },
        Fraction { numerator: s.download_bytes_total, denominator: s.s3_gets as u128 },
        Fraction {
            numerator: s.stat_cache_hits,
            denominator: (s.stat_cache_hits + s.s3_stat_heads) as u128,
        },
        Fraction {
            numerator: s.stat_negative_cache_hits,
            denominator: (s.stat_positive_cache_hits + s.stat_negative_cache_hits) as u128,
        },
        Fraction {
            numerator: s.read_cache_hits,
            denominator: (s.read_cache_hits + s.read_cache_misses) as u128,
        },
        Fraction {
            numerator: s.disk_cache_hits,
            denominator: (s.disk_cache_hits + s.disk_cache_misses) as u128,
        },
    ]
}

/// The decimal notations of the six fractions, the averages with two digits
/// behind the point and the ratios with four.
#[derive(Debug)]
pub struct FractionTexts {
    pub avg_upload: String,
    pub avg_download: String,
    pub stat_hit_ratio: String,
    pub negative_hit_ratio: String,
    pub read_hit_ratio: String,
    pub disk_hit_ratio: String,
}

/// The whole exposition.
pub open spec fn prometheus_text(s: MetricsSnapshot, t: FractionTexts) -> Seq<char> {
    metric_lines(metric_values(s), metric_values(s).len() as int) + metric_line(
        "ossfs_avg_upload_bytes"@,
        t.avg_upload@,
    ) + metric_line("ossfs_avg_download_bytes"@, t.avg_download@) + metric_line(
        "ossfs_stat_cache_hit_ratio"@,
        t.stat_hit_ratio@,
    ) + metric_line("ossfs_negative_cache_hit_ratio"@, t.negative_hit_ratio@) + metric_line(
        "ossfs_read_cache_hit_ratio"@,
        t.read_hit_ratio@,
    ) + metric_line("ossfs_disk_cache_hit_ratio"@, t.disk_hit_ratio@)
}

/// The fractions behind the averages and hit ratios.
pub fn fractions(s: &MetricsSnapshot) -> (r: Vec<Fraction>)
    ensures
        r@ == metric_fractions(*s),
{
    let r = vec![
        Fraction { numerator: s.upload_bytes_total, denominator: s.s3_puts as u128 },
        Fraction { numerator: s.download_bytes_total, denominator: s.s3_gets as u128 },
        Fraction {
            numerator: s.stat_cache_hits,
            denominator: s.stat_cache_hits as u128 + s.s3_stat_heads as u128,
        },
        Fraction {
            numerator: s.stat_negative_cache_hits,
            denominator: s.stat_positive_cache_hits as u128 + s.stat_negative_cache_hits as u128,
        },
        Fraction {
            numerator: s.read_cache_hits,
            denominator: s.read_cache_hits as u128 + s.read_cache_misses as u128,
        },
        Fraction {
            numerator: s.disk_cache_hits,
            denominator: s.disk_cache_hits as u128 + s.disk_cache_misses as u128,
        },
    ];
    proof {
        assert(r@ =~= metric_fractions(*s));
    }
    r
}

/// Appends one line of the exposition.
fn push_line(out: &mut String, name: &str, value: &str)
    ensures
        final(out)@ == old(out)@ + metric_line(name@, value@),
{
    let ghost before = out@;
    out.append(name);
    out.push(' ');
    out.append(value);
    out.push('\n');
    proof {
        assert(out@ =~= before + metric_line(name@, value@));
    }
}

fn push_value(out: &mut String, name: &str, value: u64, Ghost(values): Ghost<Seq<(Seq<char>, nat)>>, Ghost(n): Ghost<int>)
    requires
        0 <= n < values.len(),
        values[n] == (name@, value as nat),
        old(out)@ == metric_lines(values, n),
    ensures
        final(out)@ == metric_lines(values, n + 1),
{
    let text = decimal_text(value);
    push_line(out, name, text.as_str());
}

/// The exposition of a snapshot: one line for each whole-number metric, then
/// the averages and the hit ratios in the notation given for them.
pub fn format_prometheus(s: &MetricsSnapshot, texts: &FractionTexts) -> (r: String)
    ensures
        r@ == prometheus_text(*s, *texts),
{
    let ghost values = metric_values(*s);
    let mut out = String::new();
    push_value(&mut out, "ossfs_reads_total", s.reads, Ghost(values), Ghost(0));
    push_value(&mut out, "ossfs_writes_total", s.writes, Ghost(values), Ghost(1));
    push_value(&mut out, "ossfs_s3_gets_total", s.s3_gets, Ghost(values), Ghost(2));
    push_value(&mut out, "ossfs_s3_heads_total", s.s3_heads, Ghost(values), Ghost(3));
    push_value(&mut out, "ossfs_s3_stat_heads_total", s.s3_stat_heads, Ghost(values), Ghost(4));
    push_value(&mut out, "ossfs_stat_cache_hits_total", s.stat_cache_hits, Ghost(values), Ghost(5));
    push_value(&mut out, "ossfs_stat_positive_cache_hits_total", s.stat_positive_cache_hits, Ghost(values), Ghost(6));
    push_value(&mut out, "ossfs_stat_negative_cache_hits_total", s.stat_negative_cache_hits, Ghost(values), Ghost(7));
    push_value(&mut out, "ossfs_s3_etag_heads_total", s.s3_etag_heads, Ghost(values), Ghost(8));
    push_value(&mut out, "ossfs_s3_lists_total", s.s3_lists, Ghost(values), Ghost(9));
    push_value(&mut out, "ossfs_s3_puts_total", s.s3_puts, Ghost(values), Ghost(10));
    push_value(&mut out, "ossfs_s3_errors_total", s.s3_errors, Ghost(values), Ghost(11));
    push_value(&mut out, "ossfs_s3_get_errors_total", s.s3_get_errors, Ghost(values), Ghost(12));
    push_value(&mut out, "ossfs_s3_list_errors_total", s.s3_list_errors, Ghost(values), Ghost(13));
    push_value(&mut out, "ossfs_s3_put_errors_total", s.s3_put_errors, Ghost(values), Ghost(14));
    push_value(&mut out, "ossfs_s3_delete_errors_total", s.s3_delete_errors, Ghost(values), Ghost(15));
    push_value(&mut out, "ossfs_s3_multipart_errors_total", s.s3_multipart_errors, Ghost(values), Ghost(16));
    push_value(&mut out, "ossfs_upload_bytes_total", s.upload_bytes_total, Ghost(values), Ghost(17));
    push_value(&mut out, "ossfs_download_bytes_total", s.download_bytes_total, Ghost(values), Ghost(18));
    push_value(&mut out, "ossfs_read_cache_hits_total", s.read_cache_hits, Ghost(values), Ghost(19));
    push_value(&mut out, "ossfs_read_cache_misses_total", s.read_cache_misses, Ghost(values), Ghost(20));
    push_value(&mut out, "ossfs_disk_cache_hits_total", s.disk_cache_hits, Ghost(values), Ghost(21));
    push_value(&mut out, "ossfs_disk_cache_misses_total", s.disk_cache_misses, Ghost(values), Ghost(22));
    push_value(&mut out, "ossfs_prefetch_started_total", s.prefetch_started, Ghost(values), Ghost(23));
    push_value(&mut out, "ossfs_prefetch_inflight", s.prefetch_inflight as u64, Ghost(values), Ghost(24));
    push_value(&mut out, "ossfs_prefetch_skipped_total", s.prefetch_skipped, Ghost(values), Ghost(25));
    push_value(&mut out, "ossfs_prefetch_failed_total", s.prefetch_failed, Ghost(values), Ghost(26));
    push_value(&mut out, "ossfs_list_throttled_total", s.list_throttled, Ghost(values), Ghost(27));
    push_value(&mut out, "ossfs_crc64_mismatches_total", s.crc64_mismatches, Ghost(values), Ghost(28));
    push_value(&mut out, "ossfs_trash_index_entries", s.trash_index_entries as u64, Ghost(values), Ghost(29));
    push_value(&mut out, "ossfs_trash_gc_etag_skips_total", s.trash_gc_etag_skips, Ghost(values), Ghost(30));
    push_line(&mut out, "ossfs_avg_upload_bytes", texts.avg_upload.as_str());
    push_line(&mut out, "ossfs_avg_download_bytes", texts.avg_download.as_str());
    push_line(&mut out, "ossfs_stat_cache_hit_ratio", texts.stat_hit_ratio.as_str());
    push_line(&mut out, "ossfs_negative_cache_hit_ratio", texts.negative_hit_ratio.as_str());
    push_line(&mut out, "ossfs_read_cache_hit_ratio", texts.read_hit_ratio.as_str());
    push_line(&mut out, "ossfs_disk_cache_hit_ratio", texts.disk_hit_ratio.as_str());
    out
}

/// The request asks for the metrics: it starts with `GET /`.
pub open spec fn asks_for_metrics(request: Seq<u8>) -> bool {
    request.len() >= 5 && request.subrange(0, 5) == seq![71u8, 69u8, 84u8, 32u8, 47u8]
}

/// The answer to a request: the metrics as plain text, or not found.
pub open spec fn http_answer(request: Seq<u8>, body: Seq<char>) -> Seq<char> {
    if asks_for_metrics(request) {
        "HTTP/1.1 200 OK\r\nContent-Type: text/plain; version=0.0.4\r\nContent-Length: "@ + decimal(
            encode_utf8(body).len(),
        ) + "\r\nConnection: close\r\n\r\n"@ + body
    } else {
        "HTTP/1.1 404 Not Found\r\nContent-Length: 0\r\nConnection: close\r\n\r\n"@
    }
}

/// Whether a request asks for the metrics.
pub fn wants_metrics(request: &[u8]) -> (r: bool)
    ensures
        r == asks_for_metrics(request@),
{
    let r = request.len() >= 5 && request[0] == 71 && request[1] == 69 && request[2] == 84
        && request[3] == 32 && request[4] == 47;
    proof {
        if request@.len() >= 5 {
            let head = request@.subrange(0, 5);
            let want = seq![71u8, 69u8, 84u8, 32u8, 47u8];
            if r {
                assert(head =~= want);
            } else if head == want {
                assert(head[0] == 71 && head[1] == 69 && head[2] == 84 && head[3] == 32 && head[4]
                    == 47);
            }
        }
    }
    r
}

/// The answer to a request, `body` being the exposition.
pub fn http_response(request: &[u8], body: &str) -> (r: String)
    ensures
        r@ == http_answer(request@, body@),
{
    if wants_metrics(request) {
        let len: usize = body.as_bytes().len();
        let length = decimal_text(len as u64);
        let mut out = "HTTP/1.1 200 OK\r\nContent-Type: text/plain; version=0.0.4\r\nContent-Length: ".to_owned();
        out.append(length.as_str());
        out.append("\r\nConnection: close\r\n\r\n");
        out.append(body);
        out
    } else {
        "HTTP/1.1 404 Not Found\r\nContent-Length: 0\r\nConnection: close\r\n\r\n".to_owned()
    }
}

/// Compares the checksum that the store reported for an upload with the one
/// taken locally, and counts a mismatch.
pub fn check_crc64_response(reported: Option<u64>, expected: u64, metrics: &mut Metrics) -> (r: CrcCheck)
    ensures
        r == crc_check(reported, expected),
        *final(metrics) == (Metrics {
            crc64_mismatches: if r is Mismatch {
                u64::wrapping_add(old(metrics).crc64_mismatches, 1)
            } else {
                old(metrics).crc64_mismatches
            },
            ..*old(metrics)
        }),
{
    match reported {
        Some(actual) => if actual == expected {
            CrcCheck::Match
        } else {
            count(&mut metrics.crc64_mismatches, 1);
            CrcCheck::Mismatch { actual }
        },
        None => CrcCheck::Missing,
    }
}

/// What is counted is shown, each count for what it counts.
pub proof fn law_snapshot_shows(m: &Metrics)
    ensures
        m.spec_snapshot().reads == m.reads,
        m.spec_snapshot().writes == m.writes,
        m.spec_snapshot().s3_gets == m.s3_gets,
        m.spec_snapshot().s3_heads == m.s3_heads,
        m.spec_snapshot().s3_stat_heads == m.s3_stat_heads,
        m.spec_snapshot().stat_cache_hits == m.stat_cache_hits,
        m.spec_snapshot().stat_positive_cache_hits == m.stat_positive_cache_hits,
        m.spec_snapshot().stat_negative_cache_hits == m.stat_negative_cache_hits,
        m.spec_snapshot().s3_etag_heads == m.s3_etag_heads,
        m.spec_snapshot().s3_lists == m.s3_lists,
        m.spec_snapshot().s3_puts == m.s3_puts,
        m.spec_snapshot().s3_errors == m.s3_errors,
        m.spec_snapshot().s3_get_errors == m.s3_get_errors,
        m.spec_snapshot().s3_list_errors == m.s3_list_errors,
        m.spec_snapshot().s3_put_errors == m.s3_put_errors,
        m.spec_snapshot().s3_delete_errors == m.s3_delete_errors,
        m.spec_snapshot().s3_multipart_errors == m.s3_multipart_errors,
        m.spec_snapshot().upload_bytes_total == m.upload_bytes_total,
        m.spec_snapshot().download_bytes_total == m.download_bytes_total,
        m.spec_snapshot().read_cache_hits == m.read_cache_hits,
        m.spec_snapshot().read_cache_misses == m.read_cache_misses,
        m.spec_snapshot().disk_cache_hits == m.disk_cache_hits,
        m.spec_snapshot().disk_cache_misses == m.disk_cache_misses,
        m.spec_snapshot().prefetch_started == m.prefetch_started,
        m.spec_snapshot().prefetch_skipped == m.prefetch_skipped,
        m.spec_snapshot().prefetch_failed == m.prefetch_failed,
        m.spec_snapshot().list_throttled == m.list_throttled,
        m.spec_snapshot().crc64_mismatches == m.crc64_mismatches,
        m.spec_snapshot().trash_tombstones_written == m.trash_tombstones_written,
        m.spec_snapshot().trash_refresh_incrementals == m.trash_refresh_incrementals,
        m.spec_snapshot().trash_refresh_rebuilds == m.trash_refresh_rebuilds,
        m.spec_snapshot().trash_refresh_errors == m.trash_refresh_errors,
        m.spec_snapshot().trash_start_after_ignored == m.trash_start_after_ignored,
        m.spec_snapshot().trash_bootstrap_failures == m.trash_bootstrap_failures,
        m.spec_snapshot().trash_gc_etag_skips == m.trash_gc_etag_skips,
{
}

/// Every count is told under its own name.
pub proof fn law_counts_told(s: MetricsSnapshot)
    ensures
        metric_values(s).len() == 31,
        exists|i: int| 0 <= i < 31 && #[trigger] metric_values(s)[i] == ("ossfs_reads_total"@, s.reads as nat),
        exists|i: int| 0 <= i < 31 && #[trigger] metric_values(s)[i] == ("ossfs_writes_total"@, s.writes as nat),
        exists|i: int| 0 <= i < 31 && #[trigger] metric_values(s)[i] == ("ossfs_s3_gets_total"@, s.s3_gets as nat),
        exists|i: int| 0 <= i < 31 && #[trigger] metric_values(s)[i] == ("ossfs_s3_heads_total"@, s.s3_heads as nat),
        exists|i: int| 0 <= i < 31 && #[trigger] metric_values(s)[i] == ("ossfs_s3_stat_heads_total"@, s.s3_stat_heads as nat),
        exists|i: int| 0 <= i < 31 && #[trigger] metric_values(s)[i] == ("ossfs_stat_cache_hits_total"@, s.stat_cache_hits as nat),
        exists|i: int| 0 <= i < 31 && #[trigger] metric_values(s)[i] == ("ossfs_stat_positive_cache_hits_total"@, s.stat_positive_cache_hits as nat),
        exists|i: int| 0 <= i < 31 && #[trigger] metric_values(s)[i] == ("ossfs_stat_negative_cache_hits_total"@, s.stat_negative_cache_hits as nat),
        exists|i: int| 0 <= i < 31 && #[trigger] metric_values(s)[i] == ("ossfs_s3_etag_heads_total"@, s.s3_etag_heads as nat),
        exists|i: int| 0 <= i < 31 && #[trigger] metric_values(s)[i] == ("ossfs_s3_lists_total"@, s.s3_lists as nat),
        exists|i: int| 0 <= i < 31 && #[trigger] metric_values(s)[i] == ("ossfs_s3_puts_total"@, s.s3_puts as nat),
        exists|i: int| 0 <= i < 31 && #[trigger] metric_values(s)[i] == ("ossfs_s3_errors_total"@, s.s3_errors as nat),
        exists|i: int| 0 <= i < 31 && #[trigger] metric_values(s)[i] == ("ossfs_s3_get_errors_total"@, s.s3_get_errors as nat),
        exists|i: int| 0 <= i < 31 && #[trigger] metric_values(s)[i] == ("ossfs_s3_list_errors_total"@, s.s3_list_errors as nat),
        exists|i: int| 0 <= i < 31 && #[trigger] metric_values(s)[i] == ("ossfs_s3_put_errors_total"@, s.s3_put_errors as nat),
        exists|i: int| 0 <= i < 31 && #[trigger] metric_values(s)[i] == ("ossfs_s3_delete_errors_total"@, s.s3_delete_errors as nat),
        exists|i: int| 0 <= i < 31 && #[trigger] metric_values(s)[i] == ("ossfs_s3_multipart_errors_total"@, s.s3_multipart_errors as nat),
        exists|i: int| 0 <= i < 31 && #[trigger] metric_values(s)[i] == ("ossfs_upload_bytes_total"@, s.upload_bytes_total as nat),
        exists|i: int| 0 <= i < 31 && #[trigger] metric_values(s)[i] == ("ossfs_download_bytes_total"@, s.download_bytes_total as nat),
        exists|i: int| 0 <= i < 31 && #[trigger] metric_values(s)[i] == ("ossfs_read_cache_hits_total"@, s.read_cache_hits as nat),
        exists|i: int| 0 <= i < 31 && #[trigger] metric_values(s)[i] == ("ossfs_read_cache_misses_total"@, s.read_cache_misses as nat),
        exists|i: int| 0 <= i < 31 && #[trigger] metric_values(s)[i] == ("ossfs_disk_cache_hits_total"@, s.disk_cache_hits as nat),
        exists|i: int| 0 <= i < 31 && #[trigger] metric_values(s)[i] == ("ossfs_disk_cache_misses_total"@, s.disk_cache_misses as nat),
        exists|i: int| 0 <= i < 31 && #[trigger] metric_values(s)[i] == ("ossfs_prefetch_started_total"@, s.prefetch_started as nat),
        exists|i: int| 0 <= i < 31 && #[trigger] metric_values(s)[i] == ("ossfs_prefetch_inflight"@, s.prefetch_inflight as nat),
        exists|i: int| 0 <= i < 31 && #[trigger] metric_values(s)[i] == ("ossfs_prefetch_skipped_total"@, s.prefetch_skipped as nat),
        exists|i: int| 0 <= i < 31 && #[trigger] metric_values(s)[i] == ("ossfs_prefetch_failed_total"@, s.prefetch_failed as nat),
        exists|i: int| 0 <= i < 31 && #[trigger] metric_values(s)[i] == ("ossfs_list_throttled_total"@, s.list_throttled as nat),
        exists|i: int| 0 <= i < 31 && #[trigger] metric_values(s)[i] == ("ossfs_crc64_mismatches_total"@, s.crc64_mismatches as nat),
        exists|i: int| 0 <= i < 31 && #[trigger] metric_values(s)[i] == ("ossfs_trash_index_entries"@, s.trash_index_entries as nat),
        exists|i: int| 0 <= i < 31 && #[trigger] metric_values(s)[i] == ("ossfs_trash_gc_etag_skips_total"@, s.trash_gc_etag_skips as nat),
{
    assert(metric_values(s)[0] == ("ossfs_reads_total"@, s.reads as nat));
    assert(metric_values(s)[1] == ("ossfs_writes_total"@, s.writes as nat));
    assert(metric_values(s)[2] == ("ossfs_s3_gets_total"@, s.s3_gets as nat));
    assert(metric_values(s)[3] == ("ossfs_s3_heads_total"@, s.s3_heads as nat));
    assert(metric_values(s)[4] == ("ossfs_s3_stat_heads_total"@, s.s3_stat_heads as nat));
    assert(metric_values(s)[5] == ("ossfs_stat_cache_hits_total"@, s.stat_cache_hits as nat));
    assert(metric_values(s)[6] == ("ossfs_stat_positive_cache_hits_total"@, s.stat_positive_cache_hits as nat));
    assert(metric_values(s)[7] == ("ossfs_stat_negative_cache_hits_total"@, s.stat_negative_cache_hits as nat));
    assert(metric_values(s)[8] == ("ossfs_s3_etag_heads_total"@, s.s3_etag_heads as nat));
    assert(metric_values(s)[9] == ("ossfs_s3_lists_total"@, s.s3_lists as nat));
    assert(metric_values(s)[10] == ("ossfs_s3_puts_total"@, s.s3_puts as nat));
    assert(metric_values(s)[11] == ("ossfs_s3_errors_total"@, s.s3_errors as nat));
    assert(metric_values(s)[12] == ("ossfs_s3_get_errors_total"@, s.s3_get_errors as nat));
    assert(metric_values(s)[13] == ("ossfs_s3_list_errors_total"@, s.s3_list_errors as nat));
    assert(metric_values(s)[14] == ("ossfs_s3_put_errors_total"@, s.s3_put_errors as nat));
    assert(metric_values(s)[15] == ("ossfs_s3_delete_errors_total"@, s.s3_delete_errors as nat));
    assert(metric_values(s)[16] == ("ossfs_s3_multipart_errors_total"@, s.s3_multipart_errors as nat));
    assert(metric_values(s)[17] == ("ossfs_upload_bytes_total"@, s.upload_bytes_total as nat));
    assert(metric_values(s)[18] == ("ossfs_download_bytes_total"@, s.download_bytes_total as nat));
    assert(metric_values(s)[19] == ("ossfs_read_cache_hits_total"@, s.read_cache_hits as nat));
    assert(metric_values(s)[20] == ("ossfs_read_cache_misses_total"@, s.read_cache_misses as nat));
    assert(metric_values(s)[21] == ("ossfs_disk_cache_hits_total"@, s.disk_cache_hits as nat));
    assert(metric_values(s)[22] == ("ossfs_disk_cache_misses_total"@, s.disk_cache_misses as nat));
    assert(metric_values(s)[23] == ("ossfs_prefetch_started_total"@, s.prefetch_started as nat));
    assert(metric_values(s)[24] == ("ossfs_prefetch_inflight"@, s.prefetch_inflight as nat));
    assert(metric_values(s)[25] == ("ossfs_prefetch_skipped_total"@, s.prefetch_skipped as nat));
    assert(metric_values(s)[26] == ("ossfs_prefetch_failed_total"@, s.prefetch_failed as nat));
    assert(metric_values(s)[27] == ("ossfs_list_throttled_total"@, s.list_throttled as nat));
    assert(metric_values(s)[28] == ("ossfs_crc64_mismatches_total"@, s.crc64_mismatches as nat));
    assert(metric_values(s)[29] == ("ossfs_trash_index_entries"@, s.trash_index_entries as nat));
    assert(metric_values(s)[30] == ("ossfs_trash_gc_etag_skips_total"@, s.trash_gc_etag_skips as nat));
}

/// The text holds the line of every count: its name, a blank and its decimal
/// digits, ended by a line feed.
pub proof fn law_lines_told(values: Seq<(Seq<char>, nat)>, n: int, i: int)
    requires
        0 <= i < n <= values.len(),
    ensures
        exists|head: Seq<char>, tail: Seq<char>| metric_lines(values, n) == #[trigger] (head + (values[i].0 + seq![' ']
            + decimal(values[i].1) + seq!['\n']) + tail),
    decreases n,
{
    let line = values[i].0 + seq![' '] + decimal(values[i].1) + seq!['\n'];
    let before = metric_lines(values, n - 1);
    if i == n - 1 {
        assert(metric_lines(values, n) =~= before + line + Seq::<char>::empty());
    } else {
        law_lines_told(values, n - 1, i);
        let (head, tail) = choose|head: Seq<char>, tail: Seq<char>| before == #[trigger] (head + line + tail);
        let more = tail + metric_line(values[n - 1].0, decimal(values[n - 1].1));
        assert(metric_lines(values, n) =~= head + line + more);
    }
}

/// The ratios are those of hits to hits and misses together, and the averages
/// those of bytes to requests.
pub proof fn law_fractions(s: MetricsSnapshot)
    ensures
        metric_fractions(s).len() == 6,
        metric_fractions(s)[0].numerator == s.upload_bytes_total && metric_fractions(s)[0].denominator == s.s3_puts,
        metric_fractions(s)[1].numerator == s.download_bytes_total && metric_fractions(s)[1].denominator == s.s3_gets,
        metric_fractions(s)[2].numerator == s.stat_cache_hits && metric_fractions(s)[2].denominator == s.stat_cache_hits
            + s.s3_stat_heads,
        metric_fractions(s)[3].numerator == s.stat_negative_cache_hits && metric_fractions(s)[3].denominator
            == s.stat_positive_cache_hits + s.stat_negative_cache_hits,
        metric_fractions(s)[4].numerator == s.read_cache_hits && metric_fractions(s)[4].denominator == s.read_cache_hits
            + s.read_cache_misses,
        metric_fractions(s)[5].numerator == s.disk_cache_hits && metric_fractions(s)[5].denominator == s.disk_cache_hits
            + s.disk_cache_misses,
{
}

/// The counts are given to whoever begins with the words of a request for
/// them; the answer tells the length of the body in bytes and ends with it.
pub proof fn law_answer(rest: Seq<u8>, body: Seq<char>)
    ensures
        asks_for_metrics(seq![71u8, 69u8, 84u8, 32u8, 47u8] + rest),
        !asks_for_metrics(seq![80u8] + rest),
        !asks_for_metrics(Seq::empty()),
        has_suffix(http_answer(seq![71u8, 69u8, 84u8, 32u8, 47u8] + rest, body), body),
{
    let get = seq![71u8, 69u8, 84u8, 32u8, 47u8] + rest;
    assert(get.subrange(0, 5) =~= seq![71u8, 69u8, 84u8, 32u8, 47u8]);
    let put = seq![80u8] + rest;
    if put.len() >= 5 {
        assert(put.subrange(0, 5)[0] == 80);
    }
    let head = "HTTP/1.1 200 OK\r\nContent-Type: text/plain; version=0.0.4\r\nContent-Length: "@ + decimal(
        encode_utf8(body).len(),
    ) + "\r\nConnection: close\r\n\r\n"@;
    law_prefix_and_rest(head, body);
}

/// Nothing is counted at first.
pub proof fn law_nothing_counted()
    ensures
        Metrics::zero().reads == 0,
        Metrics::zero().writes == 0,
        Metrics::zero().s3_gets == 0,
        Metrics::zero().s3_heads == 0,
        Metrics::zero().s3_stat_heads == 0,
        Metrics::zero().stat_cache_hits == 0,
        Metrics::zero().stat_positive_cache_hits == 0,
        Metrics::zero().stat_negative_cache_hits == 0,
        Metrics::zero().s3_etag_heads == 0,
        Metrics::zero().s3_lists == 0,
        Metrics::zero().s3_puts == 0,
        Metrics::zero().s3_errors == 0,
        Metrics::zero().s3_get_errors == 0,
        Metrics::zero().s3_list_errors == 0,
        Metrics::zero().s3_put_errors == 0,
        Metrics::zero().s3_delete_errors == 0,
        Metrics::zero().s3_multipart_errors == 0,
        Metrics::zero().upload_bytes_total == 0,
        Metrics::zero().download_bytes_total == 0,
        Metrics::zero().read_cache_hits == 0,
        Metrics::zero().read_cache_misses == 0,
        Metrics::zero().disk_cache_hits == 0,
        Metrics::zero().disk_cache_misses == 0,
        Metrics::zero().prefetch_started == 0,
        Metrics::zero().prefetch_skipped == 0,
        Metrics::zero().prefetch_failed == 0,
        Metrics::zero().list_throttled == 0,
        Metrics::zero().crc64_mismatches == 0,
        Metrics::zero().trash_tombstones_written == 0,
        Metrics::zero().trash_refresh_incrementals == 0,
        Metrics::zero().trash_refresh_rebuilds == 0,
        Metrics::zero().trash_refresh_errors == 0,
        Metrics::zero().trash_start_after_ignored == 0,
        Metrics::zero().trash_bootstrap_failures == 0,
        Metrics::zero().trash_gc_etag_skips == 0,
{
}

/// The text ends with the lines of the averages and the ratios, each under its
/// name.
pub proof fn law_ratios_told(s: MetricsSnapshot, t: FractionTexts)
    ensures
        prometheus_text(s, t) == metric_lines(metric_values(s), 31) + ("ossfs_avg_upload_bytes"@ + seq![' '] + t.avg_upload@
            + seq!['\n']) + ("ossfs_avg_download_bytes"@ + seq![' '] + t.avg_download@ + seq!['\n']) + (
        "ossfs_stat_cache_hit_ratio"@ + seq![' '] + t.stat_hit_ratio@ + seq!['\n']) + ("ossfs_negative_cache_hit_ratio"@ + seq![
            ' ',
        ] + t.negative_hit_ratio@ + seq!['\n']) + ("ossfs_read_cache_hit_ratio"@ + seq![' '] + t.read_hit_ratio@ + seq!['\n'])
            + ("ossfs_disk_cache_hit_ratio"@ + seq![' '] + t.disk_hit_ratio@ + seq!['\n']),
{
}

} // verus!
