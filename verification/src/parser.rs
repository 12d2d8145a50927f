//! The record decoders.
//!
//! A player-statistics stream starts with the header line `userstats steam`;
//! after it come records, each a newline-terminated name followed by a
//! 33-byte little-endian tail (one unsigned byte, one signed 64-bit integer,
//! six signed 32-bit integers).  An empty (all-whitespace) name line, or the
//! end of the stream, ends the record sequence without error.
//!
//! A traffic-statistics stream starts with the header line `stats alpha` and
//! holds fixed 22-byte records with no name field; it ends only at the end
//! of the stream.
//!
//! Both decoders are total functions of the input bytes.  Their behaviour is
//! defined by the spec functions `spec_parse_userstats` and
//! `spec_parse_stats`, and each executable parser returns exactly what its
//! spec function denotes.  A `TruncationPolicy` picks what a record whose
//! fixed-width tail is cut off by the end of the stream yields: an error, or
//! a record whose missing fields are zero.

use vstd::prelude::*;
use vstd::bytes::{
    spec_u16_from_le_bytes, spec_u32_from_le_bytes, spec_u64_from_le_bytes, u16_from_le_bytes,
    u32_from_le_bytes, u64_from_le_bytes, u32_to_le_bytes, u64_to_le_bytes,
};
use vstd::slice::{slice_index_get, slice_subrange};
use crate::codec::{
    as_signed_32, as_signed_64, as_unsigned_32, as_unsigned_64, i32_from_u32, i64_from_u64,
    u32_from_i32, u64_from_i64,
};
use crate::text::{
    blank, bytes_eq, bytes_of_range, find_newline, find_nl, is_blank, lemma_find_nl_at, strip_cr,
    trim_end, trim_end_index,
};

verus! {

/// One decoded player record: every field is populated, and the name holds
/// the raw bytes of the name field with carriage returns dropped.
#[derive(Clone, Debug, PartialEq, Eq)]
pub struct PlayerStats {
    pub name: Vec<u8>,
    pub usertype: u8,
    pub userid: i64,
    pub score: i32,
    pub kills: i32,
    pub deaths: i32,
    pub assists: i32,
    pub mvps: i32,
    pub time: i32,
}

/// The mathematical value of a player record.
#[verifier::ext_equal]
pub struct PlayerStatsView {
    pub name: Seq<u8>,
    pub usertype: u8,
    pub userid: i64,
    pub score: i32,
    pub kills: i32,
    pub deaths: i32,
    pub assists: i32,
    pub mvps: i32,
    pub time: i32,
}

impl View for PlayerStats {
    type V = PlayerStatsView;

    open spec fn view(&self) -> PlayerStatsView {
        PlayerStatsView {
            name: self.name@,
            usertype: self.usertype,
            userid: self.userid,
            score: self.score,
            kills: self.kills,
            deaths: self.deaths,
            assists: self.assists,
            mvps: self.mvps,
            time: self.time,
        }
    }
}

/// One decoded traffic snapshot.
#[derive(Clone, Copy, Debug, PartialEq, Eq, Structural)]
pub struct TrafficStats {
    pub day: u8,
    pub month: u8,
    pub year: u16,
    pub hour: u8,
    pub uploaded_bytes: i64,
    pub downloaded_bytes: i64,
    pub players: u8,
}

/// Why a decode failed.  `InvalidHeader`: the first line is not the expected
/// marker.  `TruncatedStream`: a record's fixed-width tail is cut off by the
/// end of the stream and the strict policy is in force.
#[derive(Clone, Copy, Debug, PartialEq, Eq, Structural)]
pub enum DecodeError {
    InvalidHeader,
    TruncatedStream,
}

/// What to do with a record whose fixed-width tail is cut off by the end of
/// the stream: fail the whole decode, or emit the record with every missing
/// numeric field set to zero.
#[derive(Clone, Copy, Debug, PartialEq, Eq, Structural)]
pub enum TruncationPolicy {
    Strict,
    Lenient,
}

/// The header marker of a player-statistics stream: `userstats steam`.
pub open spec fn player_marker() -> Seq<u8> {
    seq![117u8, 115, 101, 114, 115, 116, 97, 116, 115, 32, 115, 116, 101, 97, 109]
}

/// The header marker of a traffic-statistics stream: `stats alpha`.
pub open spec fn traffic_marker() -> Seq<u8> {
    seq![115u8, 116, 97, 116, 115, 32, 97, 108, 112, 104, 97]
}

/// The header line: everything before the first line feed, or the whole
/// stream when no line feed occurs.
pub open spec fn header_line(s: Seq<u8>) -> Seq<u8> {
    s.take(find_nl(s, 0) as int)
}

/// A stream's header is valid when its header line, with trailing whitespace
/// trimmed, equals the marker.  Leading whitespace and case are significant.
pub open spec fn header_ok(s: Seq<u8>, marker: Seq<u8>) -> bool {
    trim_end(header_line(s)) == marker
}

/// The bytes after the header line.
pub open spec fn body(s: Seq<u8>) -> Seq<u8> {
    let nl = find_nl(s, 0) as int;
    if nl == s.len() {
        Seq::empty()
    } else {
        s.subrange(nl + 1, s.len() as int)
    }
}

/// The signed 32-bit field stored little-endian at offset `lo` of a tail.
pub open spec fn tail_i32(t: Seq<u8>, lo: int) -> i32 {
    as_signed_32(spec_u32_from_le_bytes(t.subrange(lo, lo + 4))) as i32
}

/// The signed 64-bit field stored little-endian at offset `lo` of a tail.
pub open spec fn tail_i64(t: Seq<u8>, lo: int) -> i64 {
    as_signed_64(spec_u64_from_le_bytes(t.subrange(lo, lo + 8))) as i64
}

/// The player record made of a name and a complete 33-byte tail.
pub open spec fn spec_player(name: Seq<u8>, t: Seq<u8>) -> PlayerStatsView
    recommends
        t.len() == 33,
{
    PlayerStatsView {
        name,
        usertype: t[0],
        userid: tail_i64(t, 1),
        score: tail_i32(t, 9),
        kills: tail_i32(t, 13),
        deaths: tail_i32(t, 17),
        assists: tail_i32(t, 21),
        mvps: tail_i32(t, 25),
        time: tail_i32(t, 29),
    }
}

/// The player record made of a name and a truncated tail: each field whose
/// full width is present keeps its value, every later field is zero.
pub open spec fn spec_player_partial(name: Seq<u8>, t: Seq<u8>) -> PlayerStatsView
    recommends
        t.len() < 33,
{
    PlayerStatsView {
        name,
        usertype: if t.len() >= 1 { t[0] } else { 0 },
        userid: if t.len() >= 9 { tail_i64(t, 1) } else { 0 },
        score: if t.len() >= 13 { tail_i32(t, 9) } else { 0 },
        kills: if t.len() >= 17 { tail_i32(t, 13) } else { 0 },
        deaths: if t.len() >= 21 { tail_i32(t, 17) } else { 0 },
        assists: if t.len() >= 25 { tail_i32(t, 21) } else { 0 },
        mvps: if t.len() >= 29 { tail_i32(t, 25) } else { 0 },
        time: 0,
    }
}

/// Prepends already-decoded records to the outcome of decoding the rest.
pub open spec fn with_prefix<T>(pre: Seq<T>, r: Result<Seq<T>, DecodeError>) -> Result<
    Seq<T>,
    DecodeError,
> {
    match r {
        Ok(rest) => Ok(pre + rest),
        Err(e) => Err(e),
    }
}

/// The record sequence denoted by the bytes after the header of a
/// player-statistics stream.  Reading a name field that ends at the end of
/// the stream instead of at a line feed, or a blank name, ends the sequence;
/// a name followed by fewer than 33 tail bytes falls to the policy.
pub open spec fn spec_decode_players(s: Seq<u8>, policy: TruncationPolicy) -> Result<
    Seq<PlayerStatsView>,
    DecodeError,
>
    decreases s.len(),
{
    let nl = find_nl(s, 0) as int;
    if nl >= s.len() {
        Ok(Seq::empty())
    } else {
        let name = strip_cr(s.take(nl));
        if blank(name) {
            Ok(Seq::empty())
        } else if s.len() - (nl + 1) >= 33 {
            let rec = spec_player(name, s.subrange(nl + 1, nl + 34));
            with_prefix(seq![rec], spec_decode_players(s.subrange(nl + 34, s.len() as int), policy))
        } else {
            match policy {
                TruncationPolicy::Strict => Err(DecodeError::TruncatedStream),
                TruncationPolicy::Lenient => Ok(
                    seq![spec_player_partial(name, s.subrange(nl + 1, s.len() as int))],
                ),
            }
        }
    }
}

/// The outcome of decoding a whole player-statistics stream: the header is
/// validated first, and no record is produced from a stream whose header
/// line is wrong.
pub open spec fn spec_parse_userstats(s: Seq<u8>, policy: TruncationPolicy) -> Result<
    Seq<PlayerStatsView>,
    DecodeError,
> {
    if !header_ok(s, player_marker()) {
        Err(DecodeError::InvalidHeader)
    } else {
        spec_decode_players(body(s), policy)
    }
}

/// The traffic snapshot held in a complete 22-byte record.
pub open spec fn spec_traffic(t: Seq<u8>) -> TrafficStats
    recommends
        t.len() == 22,
{
    TrafficStats {
        day: t[0],
        month: t[1],
        year: spec_u16_from_le_bytes(t.subrange(2, 4)),
        hour: t[4],
        uploaded_bytes: tail_i64(t, 5),
        downloaded_bytes: tail_i64(t, 13),
        players: t[21],
    }
}

/// The traffic snapshot held in a truncated record: fields whose full width
/// is present keep their values, every later field is zero.
pub open spec fn spec_traffic_partial(t: Seq<u8>) -> TrafficStats
    recommends
        t.len() < 22,
{
    TrafficStats {
        day: if t.len() >= 1 { t[0] } else { 0 },
        month: if t.len() >= 2 { t[1] } else { 0 },
        year: if t.len() >= 4 { spec_u16_from_le_bytes(t.subrange(2, 4)) } else { 0 },
        hour: if t.len() >= 5 { t[4] } else { 0 },
        uploaded_bytes: if t.len() >= 13 { tail_i64(t, 5) } else { 0 },
        downloaded_bytes: if t.len() >= 21 { tail_i64(t, 13) } else { 0 },
        players: 0,
    }
}

/// The snapshot sequence denoted by the bytes after the header of a
/// traffic-statistics stream: fixed-width records until the end of the
/// stream, a final partial record falling to the policy.
pub open spec fn spec_decode_traffic(s: Seq<u8>, policy: TruncationPolicy) -> Result<
    Seq<TrafficStats>,
    DecodeError,
>
    decreases s.len(),
{
    if s.len() == 0 {
        Ok(Seq::empty())
    } else if s.len() >= 22 {
        with_prefix(
            seq![spec_traffic(s.take(22))],
            spec_decode_traffic(s.skip(22), policy),
        )
    } else {
        match policy {
            TruncationPolicy::Strict => Err(DecodeError::TruncatedStream),
            TruncationPolicy::Lenient => Ok(seq![spec_traffic_partial(s)]),
        }
    }
}

/// The outcome of decoding a whole traffic-statistics stream.
pub open spec fn spec_parse_stats(s: Seq<u8>, policy: TruncationPolicy) -> Result<
    Seq<TrafficStats>,
    DecodeError,
> {
    if !header_ok(s, traffic_marker()) {
        Err(DecodeError::InvalidHeader)
    } else {
        spec_decode_traffic(body(s), policy)
    }
}

/// The mathematical values of a sequence of player records.
pub open spec fn players_view(v: Seq<PlayerStats>) -> Seq<PlayerStatsView> {
    v.map_values(|p: PlayerStats| p@)
}

/// Prepending nothing changes nothing.
pub proof fn lemma_with_prefix_empty<T>(r: Result<Seq<T>, DecodeError>)
    ensures
        with_prefix(Seq::empty(), r) == r,
{
    match r {
        Ok(rest) => {
            assert(Seq::<T>::empty() + rest =~= rest);
        },
        Err(_) => {},
    }
}

/// A decode that yields nothing more leaves exactly the prefix.
pub proof fn lemma_with_prefix_nil<T>(pre: Seq<T>)
    ensures
        with_prefix(pre, Ok(Seq::<T>::empty())) == Ok::<Seq<T>, DecodeError>(pre),
{
    assert(pre + Seq::<T>::empty() =~= pre);
}

/// Prefixes compose: prepending `pre` and then one more record is prepending
/// `pre.push(x)`.
pub proof fn lemma_with_prefix_assoc<T>(pre: Seq<T>, x: T, r: Result<Seq<T>, DecodeError>)
    ensures
        with_prefix(pre, with_prefix(seq![x], r)) == with_prefix(pre.push(x), r),
{
    match r {
        Ok(rest) => {
            assert(pre + (seq![x] + rest) =~= pre.push(x) + rest);
        },
        Err(_) => {},
    }
}

/// The header marker of the player-statistics format, as bytes.
pub fn player_marker_bytes() -> (r: Vec<u8>)
    ensures
        r@ == player_marker(),
{
    let v: Vec<u8> = vec![117u8, 115, 101, 114, 115, 116, 97, 116, 115, 32, 115, 116, 101, 97, 109];
    proof {
        assert(v@ =~= player_marker());
    }
    v
}

/// The header marker of the traffic-statistics format, as bytes.
pub fn traffic_marker_bytes() -> (r: Vec<u8>)
    ensures
        r@ == traffic_marker(),
{
    let v: Vec<u8> = vec![115u8, 116, 97, 116, 115, 32, 97, 108, 112, 104, 97];
    proof {
        assert(v@ =~= traffic_marker());
    }
    v
}

/// Reads the header line: the bytes before the first line feed (or all of a
/// stream without one), trailing whitespace trimmed, together with the
/// position where the body starts.
pub fn read_header(s: &[u8]) -> (r: (Vec<u8>, usize))
    ensures
        r.0@ == trim_end(header_line(s@)),
        r.1 <= s@.len(),
        body(s@) == s@.subrange(r.1 as int, s@.len() as int),
{
    let nl = find_newline(s);
    let j = trim_end_index(s, nl);
    let hdr = bytes_of_range(s, 0, j);
    let next = if nl < s.len() {
        nl + 1
    } else {
        nl
    };
    proof {
        if find_nl(s@, 0) == s@.len() {
            assert(body(s@) =~= s@.subrange(next as int, s@.len() as int));
        }
    }
    (hdr, next)
}

/// Reads one name field: the bytes before the next line feed with carriage
/// returns dropped, and the position just past the line feed.  Yields
/// nothing when the stream ends before a line feed.
pub fn read_line(s: &[u8]) -> (r: Option<(Vec<u8>, usize)>)
    ensures
        match r {
            Some(p) => {
                &&& find_nl(s@, 0) < s@.len()
                &&& p.0@ == strip_cr(s@.take(find_nl(s@, 0) as int))
                &&& p.1 == find_nl(s@, 0) + 1
            },
            None => find_nl(s@, 0) == s@.len(),
        },
{
    let n = s.len();
    let mut line: Vec<u8> = Vec::new();
    let mut i: usize = 0;
    while i < n && *slice_index_get(s, i) != 10
        invariant
            0 <= i <= n,
            n == s@.len(),
            forall|j: int| 0 <= j < i ==> s@[j] != 10,
            line@ == strip_cr(s@.take(i as int)),
        decreases n - i,
    {
        let b = *slice_index_get(s, i);
        proof {
            assert(s@.take(i + 1 as int).drop_last() =~= s@.take(i as int));
            assert(s@.take(i + 1 as int).last() == s@[i as int]);
        }
        if b != 13 {
            line.push(b);
        }
        i = i + 1;
    }
    proof {
        lemma_find_nl_at(s@, 0, i as nat);
    }
    if i < n {
        Some((line, i + 1))
    } else {
        None
    }
}

/// Decodes a complete 33-byte player tail.
fn decode_player_tail(name: Vec<u8>, t: &[u8]) -> (p: PlayerStats)
    requires
        t@.len() == 33,
    ensures
        p@ == spec_player(name@, t@),
{
    PlayerStats {
        name,
        usertype: *slice_index_get(t, 0),
        userid: i64_from_u64(u64_from_le_bytes(slice_subrange(t, 1, 9))),
        score: i32_from_u32(u32_from_le_bytes(slice_subrange(t, 9, 13))),
        kills: i32_from_u32(u32_from_le_bytes(slice_subrange(t, 13, 17))),
        deaths: i32_from_u32(u32_from_le_bytes(slice_subrange(t, 17, 21))),
        assists: i32_from_u32(u32_from_le_bytes(slice_subrange(t, 21, 25))),
        mvps: i32_from_u32(u32_from_le_bytes(slice_subrange(t, 25, 29))),
        time: i32_from_u32(u32_from_le_bytes(slice_subrange(t, 29, 33))),
    }
}

/// Decodes a truncated player tail, zero for every missing field.
fn decode_player_partial(name: Vec<u8>, t: &[u8]) -> (p: PlayerStats)
    requires
        t@.len() < 33,
    ensures
        p@ == spec_player_partial(name@, t@),
{
    let n = t.len();
    PlayerStats {
        name,
        usertype: if n >= 1 {
            *slice_index_get(t, 0)
        } else {
            0
        },
        userid: if n >= 9 {
            i64_from_u64(u64_from_le_bytes(slice_subrange(t, 1, 9)))
        } else {
            0
        },
        score: if n >= 13 {
            i32_from_u32(u32_from_le_bytes(slice_subrange(t, 9, 13)))
        } else {
            0
        },
        kills: if n >= 17 {
            i32_from_u32(u32_from_le_bytes(slice_subrange(t, 13, 17)))
        } else {
            0
        },
        deaths: if n >= 21 {
            i32_from_u32(u32_from_le_bytes(slice_subrange(t, 17, 21)))
        } else {
            0
        },
        assists: if n >= 25 {
            i32_from_u32(u32_from_le_bytes(slice_subrange(t, 21, 25)))
        } else {
            0
        },
        mvps: if n >= 29 {
            i32_from_u32(u32_from_le_bytes(slice_subrange(t, 25, 29)))
        } else {
            0
        },
        time: 0,
    }
}

/// Decodes a player-statistics stream.
///
/// The result is exactly what `spec_parse_userstats` denotes for these bytes
/// and this policy: `Err(InvalidHeader)` if and only if the header line,
/// trailing whitespace trimmed, differs from `userstats steam`; otherwise
/// the records of the stream in file order, ending without error at a blank
/// name line or at the end of the stream, and treating a record whose tail
/// is cut off according to `policy` (`Err(TruncatedStream)` under
/// `Strict`, a zero-filled final record under `Lenient`).
pub fn parse_userstats(bytes: &Vec<u8>, policy: TruncationPolicy) -> (r: Result<
    Vec<PlayerStats>,
    DecodeError,
>)
    ensures
        match r {
            Ok(v) => spec_parse_userstats(bytes@, policy) == Ok::<_, DecodeError>(
                players_view(v@),
            ),
            Err(e) => spec_parse_userstats(bytes@, policy) == Err::<Seq<PlayerStatsView>, _>(e),
        },
{
    let s = bytes.as_slice();
    let (hdr, start) = read_header(s);
    let marker = player_marker_bytes();
    if !bytes_eq(hdr.as_slice(), marker.as_slice()) {
        return Err(DecodeError::InvalidHeader);
    }
    let mut rem: &[u8] = slice_subrange(s, start, s.len());
    let mut out: Vec<PlayerStats> = Vec::new();
    let mut failure: Option<DecodeError> = None;
    let mut done: bool = false;
    proof {
        assert(players_view(out@) =~= Seq::<PlayerStatsView>::empty());
        lemma_with_prefix_empty(spec_decode_players(rem@, policy));
    }
    while !done
        invariant
            !done ==> failure is None,
            !done ==> spec_parse_userstats(bytes@, policy) == with_prefix(
                players_view(out@),
                spec_decode_players(rem@, policy),
            ),
            done ==> (match failure {
                None => spec_parse_userstats(bytes@, policy) == Ok::<_, DecodeError>(
                    players_view(out@),
                ),
                Some(e) => spec_parse_userstats(bytes@, policy) == Err::<
                    Seq<PlayerStatsView>,
                    _,
                >(e),
            }),
        decreases rem@.len() + (if done {
            0int
        } else {
            1int
        }),
    {
        let ghost rem0 = rem@;
        match read_line(rem) {
            None => {
                proof {
                    lemma_with_prefix_nil::<PlayerStatsView>(players_view(out@));
                }
                done = true;
            },
            Some((name, next)) => {
                let ghost nl = find_nl(rem0, 0) as int;
                if is_blank(&name) {
                    proof {
                        lemma_with_prefix_nil::<PlayerStatsView>(players_view(out@));
                    }
                    done = true;
                } else if rem.len() - next >= 33 {
                    let t = slice_subrange(rem, next, next + 33);
                    let ghost namev = name@;
                    let rec = decode_player_tail(name, t);
                    proof {
                        assert(spec_decode_players(rem0, policy) == with_prefix(
                            seq![spec_player(namev, rem0.subrange(nl + 1, nl + 34))],
                            spec_decode_players(rem0.subrange(nl + 34, rem0.len() as int), policy),
                        ));
                        lemma_with_prefix_assoc(
                            players_view(out@),
                            rec@,
                            spec_decode_players(rem0.subrange(nl + 34, rem0.len() as int), policy),
                        );
                        assert(players_view(out@.push(rec)) =~= players_view(out@).push(rec@));
                    }
                    out.push(rec);
                    rem = slice_subrange(rem, next + 33, rem.len());
                } else {
                    match policy {
                        TruncationPolicy::Strict => {
                            failure = Some(DecodeError::TruncatedStream);
                            done = true;
                        },
                        TruncationPolicy::Lenient => {
                            let t = slice_subrange(rem, next, rem.len());
                            let ghost namev = name@;
                            let rec = decode_player_partial(name, t);
                            proof {
                                lemma_with_prefix_assoc(
                                    players_view(out@),
                                    rec@,
                                    Ok::<Seq<PlayerStatsView>, DecodeError>(Seq::empty()),
                                );
                                lemma_with_prefix_nil::<PlayerStatsView>(
                                    players_view(out@).push(rec@),
                                );
                                assert(players_view(out@.push(rec)) =~= players_view(
                                    out@,
                                ).push(rec@));
                            }
                            out.push(rec);
                            done = true;
                        },
                    }
                }
            },
        }
    }
    match failure {
        None => Ok(out),
        Some(e) => Err(e),
    }
}

/// Decodes a complete 22-byte traffic record.
fn decode_traffic_record(t: &[u8]) -> (r: TrafficStats)
    requires
        t@.len() == 22,
    ensures
        r == spec_traffic(t@),
{
    TrafficStats {
        day: *slice_index_get(t, 0),
        month: *slice_index_get(t, 1),
        year: u16_from_le_bytes(slice_subrange(t, 2, 4)),
        hour: *slice_index_get(t, 4),
        uploaded_bytes: i64_from_u64(u64_from_le_bytes(slice_subrange(t, 5, 13))),
        downloaded_bytes: i64_from_u64(u64_from_le_bytes(slice_subrange(t, 13, 21))),
        players: *slice_index_get(t, 21),
    }
}

/// Decodes a truncated traffic record, zero for every missing field.
fn decode_traffic_partial(t: &[u8]) -> (r: TrafficStats)
    requires
        t@.len() < 22,
    ensures
        r == spec_traffic_partial(t@),
{
    let n = t.len();
    TrafficStats {
        day: if n >= 1 {
            *slice_index_get(t, 0)
        } else {
            0
        },
        month: if n >= 2 {
            *slice_index_get(t, 1)
        } else {
            0
        },
        year: if n >= 4 {
            u16_from_le_bytes(slice_subrange(t, 2, 4))
        } else {
            0
        },
        hour: if n >= 5 {
            *slice_index_get(t, 4)
        } else {
            0
        },
        uploaded_bytes: if n >= 13 {
            i64_from_u64(u64_from_le_bytes(slice_subrange(t, 5, 13)))
        } else {
            0
        },
        downloaded_bytes: if n >= 21 {
            i64_from_u64(u64_from_le_bytes(slice_subrange(t, 13, 21)))
        } else {
            0
        },
        players: 0,
    }
}

/// Decodes a traffic-statistics stream.
///
/// The result is exactly what `spec_parse_stats` denotes for these bytes and
/// this policy: `Err(InvalidHeader)` if and only if the header line, trailing
/// whitespace trimmed, differs from `stats alpha`; otherwise the 22-byte
/// records of the stream in file order until the end of the stream, treating
/// a final shorter record according to `policy`.
pub fn parse_stats(bytes: &Vec<u8>, policy: TruncationPolicy) -> (r: Result<
    Vec<TrafficStats>,
    DecodeError,
>)
    ensures
        match r {
            Ok(v) => spec_parse_stats(bytes@, policy) == Ok::<_, DecodeError>(v@),
            Err(e) => spec_parse_stats(bytes@, policy) == Err::<Seq<TrafficStats>, _>(e),
        },
{
    let s = bytes.as_slice();
    let (hdr, start) = read_header(s);
    let marker = traffic_marker_bytes();
    if !bytes_eq(hdr.as_slice(), marker.as_slice()) {
        return Err(DecodeError::InvalidHeader);
    }
    let mut rem: &[u8] = slice_subrange(s, start, s.len());
    let mut out: Vec<TrafficStats> = Vec::new();
    let mut failure: Option<DecodeError> = None;
    let mut done: bool = false;
    proof {
        lemma_with_prefix_empty(spec_decode_traffic(rem@, policy));
        assert(out@ =~= Seq::<TrafficStats>::empty());
    }
    while !done
        invariant
            !done ==> failure is None,
            !done ==> spec_parse_stats(bytes@, policy) == with_prefix(
                out@,
                spec_decode_traffic(rem@, policy),
            ),
            done ==> (match failure {
                None => spec_parse_stats(bytes@, policy) == Ok::<_, DecodeError>(out@),
                Some(e) => spec_parse_stats(bytes@, policy) == Err::<Seq<TrafficStats>, _>(e),
            }),
        decreases rem@.len() + (if done {
            0int
        } else {
            1int
        }),
    {
        let ghost rem0 = rem@;
        if rem.len() == 0 {
            proof {
                lemma_with_prefix_nil::<TrafficStats>(out@);
            }
            done = true;
        } else if rem.len() >= 22 {
            let t = slice_subrange(rem, 0, 22);
            let rec = decode_traffic_record(t);
            proof {
                assert(rem0.take(22) =~= t@);
                assert(rem0.skip(22) =~= rem0.subrange(22, rem0.len() as int));
                lemma_with_prefix_assoc(out@, rec, spec_decode_traffic(rem0.skip(22), policy));
            }
            out.push(rec);
            rem = slice_subrange(rem, 22, rem.len());
        } else {
            match policy {
                TruncationPolicy::Strict => {
                    failure = Some(DecodeError::TruncatedStream);
                    done = true;
                },
                TruncationPolicy::Lenient => {
                    let rec = decode_traffic_partial(rem);
                    proof {
                        lemma_with_prefix_assoc(
                            out@,
                            rec,
                            Ok::<Seq<TrafficStats>, DecodeError>(Seq::empty()),
                        );
                        lemma_with_prefix_nil::<TrafficStats>(out@.push(rec));
                    }
                    out.push(rec);
                    done = true;
                },
            }
        }
    }
    match failure {
        None => Ok(out),
        Some(e) => Err(e),
    }
}

/// The byte layout of one player record: the name, a line feed, then the
/// 33-byte little-endian tail.
pub open spec fn spec_encode_tail(p: PlayerStatsView) -> Seq<u8> {
    seq![p.usertype] + vstd::bytes::spec_u64_to_le_bytes(as_unsigned_64(p.userid as int) as u64)
        + vstd::bytes::spec_u32_to_le_bytes(as_unsigned_32(p.score as int) as u32)
        + vstd::bytes::spec_u32_to_le_bytes(as_unsigned_32(p.kills as int) as u32)
        + vstd::bytes::spec_u32_to_le_bytes(as_unsigned_32(p.deaths as int) as u32)
        + vstd::bytes::spec_u32_to_le_bytes(as_unsigned_32(p.assists as int) as u32)
        + vstd::bytes::spec_u32_to_le_bytes(as_unsigned_32(p.mvps as int) as u32)
        + vstd::bytes::spec_u32_to_le_bytes(as_unsigned_32(p.time as int) as u32)
}

/// The byte layout of one player record.
pub open spec fn spec_encode_player(p: PlayerStatsView) -> Seq<u8> {
    p.name + seq![10u8] + spec_encode_tail(p)
}

/// The byte layout of a sequence of player records.
pub open spec fn spec_encode_players(ps: Seq<PlayerStatsView>) -> Seq<u8>
    decreases ps.len(),
{
    if ps.len() == 0 {
        Seq::empty()
    } else {
        spec_encode_player(ps[0]) + spec_encode_players(ps.drop_first())
    }
}

/// The byte layout of a whole player-statistics stream: the header line,
/// then the records.
pub open spec fn spec_encode_userstats(ps: Seq<PlayerStatsView>) -> Seq<u8> {
    player_marker() + seq![10u8] + spec_encode_players(ps)
}

/// Appending one record to a sequence appends its bytes to the layout.
pub proof fn lemma_encode_players_push(ps: Seq<PlayerStatsView>, p: PlayerStatsView)
    ensures
        spec_encode_players(ps.push(p)) == spec_encode_players(ps) + spec_encode_player(p),
    decreases ps.len(),
{
    if ps.len() == 0 {
        assert(ps.push(p)[0] == p);
        assert(ps.push(p).drop_first() =~= Seq::<PlayerStatsView>::empty());
        assert(spec_encode_players(ps.push(p)) == spec_encode_player(p) + spec_encode_players(
            Seq::<PlayerStatsView>::empty(),
        ));
        assert(spec_encode_players(Seq::<PlayerStatsView>::empty()) == Seq::<u8>::empty());
        assert(spec_encode_players(ps) == Seq::<u8>::empty());
        assert(spec_encode_players(ps.push(p)) =~= spec_encode_players(ps) + spec_encode_player(
            p,
        ));
    } else {
        assert(ps.push(p)[0] == ps[0]);
        assert(ps.push(p).drop_first() =~= ps.drop_first().push(p));
        lemma_encode_players_push(ps.drop_first(), p);
        assert(spec_encode_players(ps.push(p)) == spec_encode_player(ps[0]) + (
        spec_encode_players(ps.drop_first()) + spec_encode_player(p)));
        assert(spec_encode_players(ps) == spec_encode_player(ps[0]) + spec_encode_players(
            ps.drop_first(),
        ));
        assert(spec_encode_players(ps.push(p)) =~= spec_encode_players(ps) + spec_encode_player(
            p,
        ));
    }
}

/// Encodes one player record in the exact byte layout the decoder reads.
pub fn encode_player(p: &PlayerStats) -> (r: Vec<u8>)
    ensures
        r@ == spec_encode_player(p@),
{
    let mut r: Vec<u8> = Vec::new();
    r.extend_from_slice(p.name.as_slice());
    r.push(10);
    r.push(p.usertype);
    let mut b = u64_to_le_bytes(u64_from_i64(p.userid));
    r.append(&mut b);
    let mut b = u32_to_le_bytes(u32_from_i32(p.score));
    r.append(&mut b);
    let mut b = u32_to_le_bytes(u32_from_i32(p.kills));
    r.append(&mut b);
    let mut b = u32_to_le_bytes(u32_from_i32(p.deaths));
    r.append(&mut b);
    let mut b = u32_to_le_bytes(u32_from_i32(p.assists));
    r.append(&mut b);
    let mut b = u32_to_le_bytes(u32_from_i32(p.mvps));
    r.append(&mut b);
    let mut b = u32_to_le_bytes(u32_from_i32(p.time));
    r.append(&mut b);
    proof {
        assert(r@ =~= spec_encode_player(p@));
    }
    r
}

/// Encodes a whole player-statistics stream: the header line, then each
/// record in order, in the exact byte layout the decoder reads.
pub fn encode_userstats(players: &Vec<PlayerStats>) -> (r: Vec<u8>)
    ensures
        r@ == spec_encode_userstats(players_view(players@)),
{
    let mut r = player_marker_bytes();
    r.push(10);
    proof {
        assert(players_view(players@.take(0)) =~= Seq::<PlayerStatsView>::empty());
        assert(r@ =~= player_marker() + seq![10u8] + spec_encode_players(
            players_view(players@.take(0)),
        ));
    }
    let n = players.len();
    let mut i: usize = 0;
    while i < n
        invariant
            0 <= i <= n,
            n == players@.len(),
            r@ == player_marker() + seq![10u8] + spec_encode_players(
                players_view(players@.take(i as int)),
            ),
        decreases n - i,
    {
        let mut b = encode_player(&players[i]);
        proof {
            assert(players@.take(i + 1 as int) =~= players@.take(i as int).push(players@[i as int]));
            assert(players_view(players@.take(i as int).push(players@[i as int])) =~= players_view(
                players@.take(i as int),
            ).push(players@[i as int]@));
            lemma_encode_players_push(players_view(players@.take(i as int)), players@[i as int]@);
        }
        r.append(&mut b);
        proof {
            assert(r@ =~= player_marker() + seq![10u8] + spec_encode_players(
                players_view(players@.take(i + 1 as int)),
            ));
        }
        i = i + 1;
    }
    proof {
        assert(players@.take(n as int) =~= players@);
    }
    r
}

} // verus!
