use ossfs::checksum::CrcCheck;
use ossfs::metrics::{
    check_crc64_response, format_prometheus, fractions, http_response, wants_metrics, Fraction, FractionTexts, Metrics,
    MetricsSnapshot,
};

fn ratio(f: &Fraction) -> f64 {
    if f.denominator == 0 {
        0.0
    } else {
        f.numerator as f64 / f.denominator as f64
    }
}

fn texts(s: &MetricsSnapshot) -> FractionTexts {
    let f = fractions(s);
    FractionTexts {
        avg_upload: format!("{:.2}", ratio(&f[0])),
        avg_download: format!("{:.2}", ratio(&f[1])),
        stat_hit_ratio: format!("{:.4}", ratio(&f[2])),
        negative_hit_ratio: format!("{:.4}", ratio(&f[3])),
        read_hit_ratio: format!("{:.4}", ratio(&f[4])),
        disk_hit_ratio: format!("{:.4}", ratio(&f[5])),
    }
}

#[test]
fn formats_prometheus_lines() {
    let s = MetricsSnapshot {
        reads: 1,
        writes: 2,
        s3_gets: 3,
        s3_heads: 4,
        s3_stat_heads: 5,
        stat_cache_hits: 7,
        stat_positive_cache_hits: 8,
        stat_negative_cache_hits: 9,
        s3_etag_heads: 6,
        s3_lists: 4,
        s3_puts: 5,
        s3_errors: 9,
        s3_get_errors: 1,
        s3_list_errors: 2,
        s3_put_errors: 3,
        s3_delete_errors: 4,
        s3_multipart_errors: 5,
        upload_bytes_total: 123,
        download_bytes_total: 456,
        read_cache_hits: 6,
        read_cache_misses: 14,
        disk_cache_hits: 7,
        disk_cache_misses: 13,
        prefetch_started: 10,
        prefetch_inflight: 3,
        prefetch_skipped: 11,
        prefetch_failed: 12,
        list_throttled: 13,
        crc64_mismatches: 8,
        trash_tombstones_written: 0,
        trash_index_entries: 42,
        trash_refresh_incrementals: 0,
        trash_refresh_rebuilds: 0,
        trash_refresh_errors: 0,
        trash_start_after_ignored: 0,
        trash_bootstrap_failures: 0,
        trash_gc_etag_skips: 7,
    };
    let body = format_prometheus(&s, &texts(&s));
    assert!(body.contains("ossfs_reads_total 1\n"));
    assert!(body.contains("ossfs_crc64_mismatches_total 8\n"));
    assert!(body.contains("ossfs_trash_index_entries 42\n"), "a gauge has no _total suffix: got {body}");
    assert!(body.contains("ossfs_trash_gc_etag_skips_total 7\n"), "a counter has a _total suffix: got {body}");
    assert!(body.contains("ossfs_avg_upload_bytes 24.60\n"));
    assert!(body.contains("ossfs_avg_download_bytes 152.00\n"));
    assert!(body.contains("ossfs_stat_cache_hit_ratio 0.5833\n"));
    assert!(body.contains("ossfs_negative_cache_hit_ratio 0.5294\n"));
    assert!(body.contains("ossfs_read_cache_hit_ratio 0.3000\n"));
    assert!(body.contains("ossfs_disk_cache_hit_ratio 0.3500\n"));
}

#[test]
fn the_exposition_is_in_order_and_complete() {
    let s = MetricsSnapshot::default();
    let body = format_prometheus(&s, &texts(&s));
    let lines: Vec<&str> = body.lines().collect();
    assert_eq!(lines.len(), 37);
    assert_eq!(lines[0], "ossfs_reads_total 0");
    assert_eq!(lines[24], "ossfs_prefetch_inflight 0");
    assert_eq!(lines[30], "ossfs_trash_gc_etag_skips_total 0");
    assert_eq!(lines[31], "ossfs_avg_upload_bytes 0.00");
    assert_eq!(lines[36], "ossfs_disk_cache_hit_ratio 0.0000");
}

#[test]
fn only_get_requests_are_answered() {
    assert!(wants_metrics(b"GET /metrics HTTP/1.1\r\n"));
    assert!(wants_metrics(b"GET /"));
    assert!(!wants_metrics(b"GET"));
    assert!(!wants_metrics(b"POST /metrics"));
    assert_eq!(
        http_response(b"GET / HTTP/1.1", "ä 1\n"),
        "HTTP/1.1 200 OK\r\nContent-Type: text/plain; version=0.0.4\r\nContent-Length: 5\r\nConnection: close\r\n\r\nä 1\n"
    );
    assert_eq!(
        http_response(b"PUT /", "x"),
        "HTTP/1.1 404 Not Found\r\nContent-Length: 0\r\nConnection: close\r\n\r\n"
    );
}

#[test]
fn a_checksum_mismatch_is_counted() {
    let mut m = Metrics::new();
    assert_eq!(check_crc64_response(Some(7), 7, &mut m), CrcCheck::Match);
    assert_eq!(check_crc64_response(None, 7, &mut m), CrcCheck::Missing);
    assert_eq!(m.snapshot().crc64_mismatches, 0);
    assert_eq!(check_crc64_response(Some(8), 7, &mut m), CrcCheck::Mismatch { actual: 8 });
    assert_eq!(m.snapshot().crc64_mismatches, 1);
}
