use cs2d_stats::output::{format_bytes, format_time, sanitize_html};

#[test]
fn format_time_picks_the_two_largest_units() {
    assert_eq!(format_time(0), "0s");
    assert_eq!(format_time(59), "59s");
    assert_eq!(format_time(60), "1m 0s");
    assert_eq!(format_time(61), "1m 1s");
    assert_eq!(format_time(3600), "1h 0m");
    assert_eq!(format_time(3661), "1h 1m");
    assert_eq!(format_time(86400), "1d 0h");
    assert_eq!(format_time(90061), "1d 1h");
    assert_eq!(format_time(i32::MAX), "24855d 3h");
}

#[test]
fn format_time_negative_shows_signed_seconds() {
    assert_eq!(format_time(-5), "-5s");
    assert_eq!(format_time(-60), "0s");
    assert_eq!(format_time(-65), "-5s");
}

#[test]
fn format_bytes_uses_binary_units() {
    assert_eq!(format_bytes(0), "0 bytes");
    assert_eq!(format_bytes(500), "500 bytes");
    assert_eq!(format_bytes(1023), "1023 bytes");
    assert_eq!(format_bytes(1024), "1.00 KB");
    assert_eq!(format_bytes(1536), "1.50 KB");
    assert_eq!(format_bytes(10240), "10.00 KB");
    assert_eq!(format_bytes(1048576), "1.00 MB");
    assert_eq!(format_bytes(1572864), "1.50 MB");
    assert_eq!(format_bytes(1073741824), "1.00 GB");
    assert_eq!(format_bytes(3221225472), "3.00 GB");
}

#[test]
fn format_bytes_rounds_to_the_nearest_hundredth() {
    // 1075 / 1024 = 1.0498...; the nearest hundredth is 1.05.
    assert_eq!(format_bytes(1075), "1.05 KB");
    // 1029 / 1024 = 1.0048...; the nearest hundredth is 1.00.
    assert_eq!(format_bytes(1029), "1.00 KB");
}

#[test]
fn sanitize_html_escapes_metacharacters() {
    assert_eq!(
        sanitize_html(&b"<b>&'\"".to_vec()),
        b"&lt;b&gt;&amp;&#x27;&quot;".to_vec()
    );
}

#[test]
fn sanitize_html_replaces_line_breaks_and_trims() {
    assert_eq!(sanitize_html(&b"  Alice  ".to_vec()), b"Alice".to_vec());
    assert_eq!(sanitize_html(&b"a\r\nb".to_vec()), b"a  b".to_vec());
    assert_eq!(sanitize_html(&b"\nx\n".to_vec()), b"x".to_vec());
}

#[test]
fn sanitize_html_keeps_plain_names() {
    assert_eq!(sanitize_html(&b"Alice".to_vec()), b"Alice".to_vec());
    assert_eq!(sanitize_html(&Vec::new()), Vec::<u8>::new());
}
