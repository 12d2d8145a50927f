use cs2d_stats::parser::{encode_player, encode_userstats, parse_userstats, PlayerStats, TruncationPolicy};

fn sample(name: &[u8], userid: i64, score: i32) -> PlayerStats {
    PlayerStats {
        name: name.to_vec(),
        usertype: 1,
        userid,
        score,
        kills: 10,
        deaths: 2,
        assists: 3,
        mvps: 1,
        time: 3600,
    }
}

#[test]
fn encode_layout_is_byte_exact() {
    let p = sample(b"Alice", 76561197960287930, 100);
    let mut expected = b"Alice\n".to_vec();
    expected.push(1);
    expected.extend_from_slice(&76561197960287930i64.to_le_bytes());
    expected.extend_from_slice(&100i32.to_le_bytes());
    expected.extend_from_slice(&10i32.to_le_bytes());
    expected.extend_from_slice(&2i32.to_le_bytes());
    expected.extend_from_slice(&3i32.to_le_bytes());
    expected.extend_from_slice(&1i32.to_le_bytes());
    expected.extend_from_slice(&3600i32.to_le_bytes());
    assert_eq!(encode_player(&p), expected);
}

#[test]
fn three_records_round_trip() {
    let players = vec![
        sample(b"Alice", 76561197960287930, 100),
        sample(b"Bob", -1, 0),
        sample(b"Carol", i64::MAX, i32::MIN),
    ];
    let bytes = encode_userstats(&players);
    assert_eq!(parse_userstats(&bytes, TruncationPolicy::Strict), Ok(players.clone()));
    assert_eq!(parse_userstats(&bytes, TruncationPolicy::Lenient), Ok(players));
}

#[test]
fn negative_fields_round_trip_exactly() {
    let p = PlayerStats {
        name: b"Neg".to_vec(),
        usertype: 0,
        userid: -42,
        score: -5,
        kills: -1,
        deaths: i32::MIN,
        assists: -1000,
        mvps: i32::MAX,
        time: -3600,
    };
    let bytes = encode_userstats(&vec![p.clone()]);
    let decoded = parse_userstats(&bytes, TruncationPolicy::Strict).unwrap();
    assert_eq!(decoded.len(), 1);
    assert_eq!(decoded[0].name, p.name);
    assert_eq!(decoded[0].usertype, p.usertype);
    assert_eq!(decoded[0].userid, p.userid);
    assert_eq!(decoded[0].score, p.score);
    assert_eq!(decoded[0].kills, p.kills);
    assert_eq!(decoded[0].deaths, p.deaths);
    assert_eq!(decoded[0].assists, p.assists);
    assert_eq!(decoded[0].mvps, p.mvps);
    assert_eq!(decoded[0].time, p.time);
}

#[test]
fn empty_sequence_round_trips() {
    let bytes = encode_userstats(&Vec::new());
    assert_eq!(bytes, b"userstats steam\n".to_vec());
    assert_eq!(parse_userstats(&bytes, TruncationPolicy::Strict), Ok(vec![]));
}
