use cs2d_stats::parser::{
    parse_stats, parse_userstats, DecodeError, PlayerStats, TrafficStats, TruncationPolicy,
};

fn header() -> Vec<u8> {
    b"userstats steam\n".to_vec()
}

fn player_tail(
    usertype: u8,
    userid: i64,
    score: i32,
    kills: i32,
    deaths: i32,
    assists: i32,
    mvps: i32,
    time: i32,
) -> Vec<u8> {
    let mut t = vec![usertype];
    t.extend_from_slice(&userid.to_le_bytes());
    t.extend_from_slice(&score.to_le_bytes());
    t.extend_from_slice(&kills.to_le_bytes());
    t.extend_from_slice(&deaths.to_le_bytes());
    t.extend_from_slice(&assists.to_le_bytes());
    t.extend_from_slice(&mvps.to_le_bytes());
    t.extend_from_slice(&time.to_le_bytes());
    t
}

#[test]
fn one_record_with_sentinel() {
    let mut bytes = header();
    bytes.extend_from_slice(b"Alice\n");
    bytes.extend_from_slice(&player_tail(1, 76561197960287930, 100, 10, 2, 3, 1, 3600));
    bytes.push(b'\n');
    let players = parse_userstats(&bytes, TruncationPolicy::Strict).unwrap();
    assert_eq!(players.len(), 1);
    let p = &players[0];
    assert_eq!(p.name, b"Alice".to_vec());
    assert_eq!(p.usertype, 1);
    assert_eq!(p.userid, 76561197960287930);
    assert_eq!(p.score, 100);
    assert_eq!(p.kills, 10);
    assert_eq!(p.deaths, 2);
    assert_eq!(p.assists, 3);
    assert_eq!(p.mvps, 1);
    assert_eq!(p.time, 3600);
}

#[test]
fn header_only_yields_empty() {
    let bytes = header();
    assert_eq!(parse_userstats(&bytes, TruncationPolicy::Strict), Ok(vec![]));
    assert_eq!(parse_userstats(&bytes, TruncationPolicy::Lenient), Ok(vec![]));
}

#[test]
fn wrong_header_fails_regardless_of_rest() {
    let mut bytes = b"not the right header\n".to_vec();
    bytes.extend_from_slice(b"Alice\n");
    bytes.extend_from_slice(&player_tail(1, 7, 1, 2, 3, 4, 5, 6));
    assert_eq!(
        parse_userstats(&bytes, TruncationPolicy::Strict),
        Err(DecodeError::InvalidHeader)
    );
    assert_eq!(
        parse_userstats(&bytes, TruncationPolicy::Lenient),
        Err(DecodeError::InvalidHeader)
    );
}

#[test]
fn short_header_fails() {
    assert_eq!(
        parse_userstats(&b"userstats\n".to_vec(), TruncationPolicy::Strict),
        Err(DecodeError::InvalidHeader)
    );
}

#[test]
fn empty_input_fails() {
    assert_eq!(
        parse_userstats(&Vec::new(), TruncationPolicy::Strict),
        Err(DecodeError::InvalidHeader)
    );
}

#[test]
fn header_without_newline_yields_empty() {
    let bytes = b"userstats steam".to_vec();
    assert_eq!(parse_userstats(&bytes, TruncationPolicy::Strict), Ok(vec![]));
}

#[test]
fn header_tolerates_crlf_and_trailing_whitespace() {
    assert_eq!(
        parse_userstats(&b"userstats steam\r\n".to_vec(), TruncationPolicy::Strict),
        Ok(vec![])
    );
    assert_eq!(
        parse_userstats(&b"userstats steam   \n".to_vec(), TruncationPolicy::Strict),
        Ok(vec![])
    );
}

#[test]
fn header_case_and_leading_space_significant() {
    assert_eq!(
        parse_userstats(&b"Userstats steam\n".to_vec(), TruncationPolicy::Strict),
        Err(DecodeError::InvalidHeader)
    );
    assert_eq!(
        parse_userstats(&b" userstats steam\n".to_vec(), TruncationPolicy::Strict),
        Err(DecodeError::InvalidHeader)
    );
}

#[test]
fn sentinel_stops_and_later_bytes_are_ignored() {
    let mut bytes = header();
    bytes.extend_from_slice(b"Alice\n");
    bytes.extend_from_slice(&player_tail(1, 42, 5, 6, 7, 8, 9, 10));
    bytes.push(b'\n');
    bytes.extend_from_slice(b"this is not a valid record at all");
    let players = parse_userstats(&bytes, TruncationPolicy::Strict).unwrap();
    assert_eq!(players.len(), 1);
    assert_eq!(players[0].name, b"Alice".to_vec());
}

#[test]
fn blank_name_line_is_a_sentinel() {
    let mut bytes = header();
    bytes.extend_from_slice(b"   \n");
    bytes.extend_from_slice(b"junk after the sentinel");
    assert_eq!(parse_userstats(&bytes, TruncationPolicy::Strict), Ok(vec![]));
}

#[test]
fn no_break_space_name_is_blank_too() {
    // 0xA0 reads as the no-break space character, which trimming drops.
    let mut bytes = header();
    bytes.extend_from_slice(&[0xA0, b'\n']);
    bytes.extend_from_slice(b"junk after the sentinel");
    assert_eq!(parse_userstats(&bytes, TruncationPolicy::Strict), Ok(vec![]));
}

#[test]
fn carriage_returns_inside_names_are_dropped() {
    let mut bytes = header();
    bytes.extend_from_slice(b"Al\rice\r\n");
    bytes.extend_from_slice(&player_tail(2, -3, 0, 0, 0, 0, 0, 0));
    let players = parse_userstats(&bytes, TruncationPolicy::Strict).unwrap();
    assert_eq!(players[0].name, b"Alice".to_vec());
    assert_eq!(players[0].userid, -3);
}

#[test]
fn eof_inside_name_ends_without_error() {
    let mut bytes = header();
    bytes.extend_from_slice(b"Bob");
    assert_eq!(parse_userstats(&bytes, TruncationPolicy::Strict), Ok(vec![]));
    assert_eq!(parse_userstats(&bytes, TruncationPolicy::Lenient), Ok(vec![]));
}

#[test]
fn truncated_tail_strict_fails() {
    let mut bytes = header();
    bytes.extend_from_slice(b"Bob\n");
    bytes.extend_from_slice(&[5, 1, 2]);
    assert_eq!(
        parse_userstats(&bytes, TruncationPolicy::Strict),
        Err(DecodeError::TruncatedStream)
    );
    // The same truncated input always fails the same way.
    assert_eq!(
        parse_userstats(&bytes, TruncationPolicy::Strict),
        Err(DecodeError::TruncatedStream)
    );
}

#[test]
fn truncated_tail_lenient_zero_fills() {
    let mut bytes = header();
    bytes.extend_from_slice(b"Bob\n");
    bytes.extend_from_slice(&[5, 1, 2]);
    let expected = PlayerStats {
        name: b"Bob".to_vec(),
        usertype: 5,
        userid: 0,
        score: 0,
        kills: 0,
        deaths: 0,
        assists: 0,
        mvps: 0,
        time: 0,
    };
    assert_eq!(
        parse_userstats(&bytes, TruncationPolicy::Lenient),
        Ok(vec![expected.clone()])
    );
    // The same truncated input always yields the same record.
    assert_eq!(
        parse_userstats(&bytes, TruncationPolicy::Lenient),
        Ok(vec![expected])
    );
}

#[test]
fn truncated_tail_lenient_keeps_complete_fields() {
    let mut bytes = header();
    bytes.extend_from_slice(b"Ada\n");
    let mut t = vec![7u8];
    t.extend_from_slice(&(-9i64).to_le_bytes());
    t.extend_from_slice(&(123i32).to_le_bytes());
    // 13 of 33 tail bytes: usertype, userid and score are complete.
    bytes.extend_from_slice(&t);
    let players = parse_userstats(&bytes, TruncationPolicy::Lenient).unwrap();
    assert_eq!(players.len(), 1);
    let p = &players[0];
    assert_eq!(p.usertype, 7);
    assert_eq!(p.userid, -9);
    assert_eq!(p.score, 123);
    assert_eq!(p.kills, 0);
    assert_eq!(p.deaths, 0);
    assert_eq!(p.assists, 0);
    assert_eq!(p.mvps, 0);
    assert_eq!(p.time, 0);
}

#[test]
fn complete_records_after_one_another() {
    let mut bytes = header();
    bytes.extend_from_slice(b"One\n");
    bytes.extend_from_slice(&player_tail(1, 11, 1, 1, 1, 1, 1, 1));
    bytes.extend_from_slice(b"Two\n");
    bytes.extend_from_slice(&player_tail(0, 22, 2, 2, 2, 2, 2, 2));
    let players = parse_userstats(&bytes, TruncationPolicy::Strict).unwrap();
    assert_eq!(players.len(), 2);
    assert_eq!(players[0].name, b"One".to_vec());
    assert_eq!(players[1].name, b"Two".to_vec());
    assert_eq!(players[1].userid, 22);
}

fn traffic_record(
    day: u8,
    month: u8,
    year: u16,
    hour: u8,
    uploaded: i64,
    downloaded: i64,
    players: u8,
) -> Vec<u8> {
    let mut t = vec![day, month];
    t.extend_from_slice(&year.to_le_bytes());
    t.push(hour);
    t.extend_from_slice(&uploaded.to_le_bytes());
    t.extend_from_slice(&downloaded.to_le_bytes());
    t.push(players);
    t
}

#[test]
fn traffic_basic() {
    let mut bytes = b"stats alpha\n".to_vec();
    bytes.extend_from_slice(&traffic_record(24, 12, 2023, 18, 1_000_000, 9_999_999, 14));
    bytes.extend_from_slice(&traffic_record(25, 12, 2023, 19, 5, -6, 2));
    let expected = vec![
        TrafficStats {
            day: 24,
            month: 12,
            year: 2023,
            hour: 18,
            uploaded_bytes: 1_000_000,
            downloaded_bytes: 9_999_999,
            players: 14,
        },
        TrafficStats {
            day: 25,
            month: 12,
            year: 2023,
            hour: 19,
            uploaded_bytes: 5,
            downloaded_bytes: -6,
            players: 2,
        },
    ];
    assert_eq!(parse_stats(&bytes, TruncationPolicy::Strict), Ok(expected));
}

#[test]
fn traffic_empty_and_wrong_header() {
    assert_eq!(
        parse_stats(&b"stats alpha\n".to_vec(), TruncationPolicy::Strict),
        Ok(vec![])
    );
    assert_eq!(
        parse_stats(&b"userstats steam\n".to_vec(), TruncationPolicy::Strict),
        Err(DecodeError::InvalidHeader)
    );
}

#[test]
fn traffic_truncated_record() {
    let mut bytes = b"stats alpha\n".to_vec();
    bytes.extend_from_slice(&[3, 4, 231, 7]);
    assert_eq!(
        parse_stats(&bytes, TruncationPolicy::Strict),
        Err(DecodeError::TruncatedStream)
    );
    let lenient = parse_stats(&bytes, TruncationPolicy::Lenient).unwrap();
    assert_eq!(lenient.len(), 1);
    assert_eq!(lenient[0].day, 3);
    assert_eq!(lenient[0].month, 4);
    assert_eq!(lenient[0].year, 2023);
    assert_eq!(lenient[0].hour, 0);
    assert_eq!(lenient[0].uploaded_bytes, 0);
    assert_eq!(lenient[0].downloaded_bytes, 0);
    assert_eq!(lenient[0].players, 0);
}
