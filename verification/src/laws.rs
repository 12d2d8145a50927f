//! Properties of the player-record codec, stated over the spec functions
//! that the parser's contracts use: a decoded stream gives back exactly the
//! records that were laid out in it, a blank sentinel line ends decoding
//! with the records seen so far whatever follows it, a wrong header always
//! fails, and a truncated tail behaves per the chosen policy.

use vstd::prelude::*;
use vstd::bytes::{
    lemma_auto_spec_u32_to_from_le_bytes, lemma_auto_spec_u64_to_from_le_bytes,
    spec_u32_to_le_bytes, spec_u64_to_le_bytes,
};
use crate::codec::{
    as_unsigned_32, as_unsigned_64, lemma_signed_unsigned_inverse_32,
    lemma_signed_unsigned_inverse_64,
};
use crate::text::{
    blank, find_nl, is_space, lemma_find_nl_at, lemma_strip_cr_id, lemma_trim_end_range, strip_cr,
    trim_end,
};
use crate::parser::{
    body, header_line, header_ok, lemma_with_prefix_empty, lemma_with_prefix_nil, player_marker,
    spec_decode_players, spec_encode_player, spec_encode_players, spec_encode_tail,
    spec_encode_userstats, spec_parse_userstats, spec_player, spec_player_partial, with_prefix,
    DecodeError, PlayerStatsView, TruncationPolicy,
};

verus! {

/// A name that the byte layout can carry faithfully: no line feed (it would
/// end the field early), no carriage return (the decoder drops them), and
/// not blank (a blank name line is the sentinel).
pub open spec fn valid_name(name: Seq<u8>) -> bool {
    &&& forall|i: int| 0 <= i < name.len() ==> name[i] != 10 && name[i] != 13
    &&& !blank(name)
}

/// Every record of the sequence has a name the layout can carry.
pub open spec fn valid_names(ps: Seq<PlayerStatsView>) -> bool {
    forall|i: int| 0 <= i < ps.len() ==> valid_name(#[trigger] ps[i].name)
}

/// Prefixes concatenate: prepending `a` and then `b` is prepending `a + b`.
pub proof fn lemma_with_prefix_concat<T>(a: Seq<T>, b: Seq<T>, r: Result<Seq<T>, DecodeError>)
    ensures
        with_prefix(a, with_prefix(b, r)) == with_prefix(a + b, r),
{
    match r {
        Ok(rest) => {
            assert(a + (b + rest) =~= (a + b) + rest);
        },
        Err(_) => {},
    }
}

/// The individual bytes of the header marker.
proof fn lemma_player_marker_facts()
    ensures
        player_marker().len() == 15,
        forall|j: int| 0 <= j < 15 ==> player_marker()[j] != 10,
        !is_space(player_marker()[14]),
{
    let m = player_marker();
    assert(m[0] == 117);
    assert(m[1] == 115);
    assert(m[2] == 101);
    assert(m[3] == 114);
    assert(m[4] == 115);
    assert(m[5] == 116);
    assert(m[6] == 97);
    assert(m[7] == 116);
    assert(m[8] == 115);
    assert(m[9] == 32);
    assert(m[10] == 115);
    assert(m[11] == 116);
    assert(m[12] == 101);
    assert(m[13] == 97);
    assert(m[14] == 109);
}

/// An encoded tail is 33 bytes, and reading it back gives the record it was
/// made from: the little-endian two's-complement layout preserves every
/// numeric field exactly, negative values included.
pub proof fn lemma_player_of_encoded_tail(p: PlayerStatsView)
    ensures
        spec_encode_tail(p).len() == 33,
        spec_player(p.name, spec_encode_tail(p)) == p,
{
    lemma_auto_spec_u32_to_from_le_bytes();
    lemma_auto_spec_u64_to_from_le_bytes();
    let t = spec_encode_tail(p);
    assert(t.subrange(1, 9) =~= spec_u64_to_le_bytes(as_unsigned_64(p.userid as int) as u64));
    assert(t.subrange(9, 13) =~= spec_u32_to_le_bytes(as_unsigned_32(p.score as int) as u32));
    assert(t.subrange(13, 17) =~= spec_u32_to_le_bytes(as_unsigned_32(p.kills as int) as u32));
    assert(t.subrange(17, 21) =~= spec_u32_to_le_bytes(as_unsigned_32(p.deaths as int) as u32));
    assert(t.subrange(21, 25) =~= spec_u32_to_le_bytes(as_unsigned_32(p.assists as int) as u32));
    assert(t.subrange(25, 29) =~= spec_u32_to_le_bytes(as_unsigned_32(p.mvps as int) as u32));
    assert(t.subrange(29, 33) =~= spec_u32_to_le_bytes(as_unsigned_32(p.time as int) as u32));
    lemma_signed_unsigned_inverse_64(0, p.userid);
    lemma_signed_unsigned_inverse_32(0, p.score);
    lemma_signed_unsigned_inverse_32(0, p.kills);
    lemma_signed_unsigned_inverse_32(0, p.deaths);
    lemma_signed_unsigned_inverse_32(0, p.assists);
    lemma_signed_unsigned_inverse_32(0, p.mvps);
    lemma_signed_unsigned_inverse_32(0, p.time);
    assert(spec_player(p.name, t) =~= p);
}

/// Decoding bytes that start with one encoded record yields that record and
/// then whatever the rest yields.
proof fn lemma_decode_one(p: PlayerStatsView, rest: Seq<u8>, policy: TruncationPolicy)
    requires
        valid_name(p.name),
    ensures
        spec_decode_players(spec_encode_player(p) + rest, policy) == with_prefix(
            seq![p],
            spec_decode_players(rest, policy),
        ),
{
    let s = spec_encode_player(p) + rest;
    lemma_player_of_encoded_tail(p);
    let nlen = p.name.len() as int;
    assert(spec_encode_player(p).len() == nlen + 34);
    assert(forall|j: int| 0 <= j < nlen ==> s[j] == p.name[j]);
    assert(s[nlen] == 10);
    lemma_find_nl_at(s, 0, p.name.len());
    assert(s.take(nlen) =~= p.name);
    lemma_strip_cr_id(p.name);
    assert(s.len() - (nlen + 1) >= 33);
    assert(s.subrange(nlen + 1, nlen + 34) =~= spec_encode_tail(p));
    assert(s.subrange(nlen + 34, s.len() as int) =~= rest);
    assert(spec_decode_players(s, policy) == with_prefix(
        seq![p],
        spec_decode_players(rest, policy),
    ));
}

/// Decoding bytes that start with a sequence of encoded records yields those
/// records and then whatever the remaining bytes yield.
pub proof fn lemma_decode_encoded_players(
    ps: Seq<PlayerStatsView>,
    t: Seq<u8>,
    policy: TruncationPolicy,
)
    requires
        valid_names(ps),
    ensures
        spec_decode_players(spec_encode_players(ps) + t, policy) == with_prefix(
            ps,
            spec_decode_players(t, policy),
        ),
    decreases ps.len(),
{
    let s = spec_encode_players(ps) + t;
    if ps.len() == 0 {
        assert(spec_encode_players(ps) == Seq::<u8>::empty());
        assert(s =~= t);
        lemma_with_prefix_empty(spec_decode_players(t, policy));
        assert(with_prefix(ps, spec_decode_players(t, policy)) == with_prefix(
            Seq::empty(),
            spec_decode_players(t, policy),
        ));
    } else {
        let p = ps[0];
        let rest_ps = ps.drop_first();
        let rest = spec_encode_players(rest_ps) + t;
        assert(valid_name(p.name));
        assert(valid_names(rest_ps));
        assert(s =~= spec_encode_player(p) + rest);
        lemma_decode_one(p, rest, policy);
        lemma_decode_encoded_players(rest_ps, t, policy);
        lemma_with_prefix_concat(seq![p], rest_ps, spec_decode_players(t, policy));
        assert(seq![p] + rest_ps =~= ps);
    }
}

/// A stream laid out as the header line plus encoded records, followed by
/// arbitrary further bytes `t`, passes header validation, and its body is
/// exactly the records plus `t`.
proof fn lemma_encoded_header(ps: Seq<PlayerStatsView>, t: Seq<u8>)
    ensures
        header_ok(spec_encode_userstats(ps) + t, player_marker()),
        body(spec_encode_userstats(ps) + t) == spec_encode_players(ps) + t,
{
    let s = spec_encode_userstats(ps) + t;
    lemma_player_marker_facts();
    assert(forall|j: int| 0 <= j < 15 ==> s[j] == player_marker()[j]);
    assert(s[15] == 10);
    lemma_find_nl_at(s, 0, 15);
    assert(header_line(s) =~= player_marker());
    lemma_trim_end_range(player_marker(), 15);
    assert(player_marker().take(15) =~= player_marker());
    assert(body(s) =~= spec_encode_players(ps) + t);
}

/// Round trip: a stream holding the header and the exact byte layout of a
/// record sequence decodes, under either policy, to exactly those records —
/// every field of every record, negative values included, comes back as it
/// was written.
pub proof fn lemma_userstats_round_trip(ps: Seq<PlayerStatsView>, policy: TruncationPolicy)
    requires
        valid_names(ps),
    ensures
        spec_parse_userstats(spec_encode_userstats(ps), policy) == Ok::<_, DecodeError>(ps),
{
    let s = spec_encode_userstats(ps);
    assert(s =~= spec_encode_userstats(ps) + Seq::<u8>::empty());
    lemma_encoded_header(ps, Seq::empty());
    lemma_decode_encoded_players(ps, Seq::empty(), policy);
    assert(spec_decode_players(Seq::empty(), policy) == Ok::<Seq<PlayerStatsView>, DecodeError>(
        Seq::empty(),
    ));
    lemma_with_prefix_nil::<PlayerStatsView>(ps);
}

/// The sentinel ends decoding: after the encoded records a blank name line
/// stops the decoder successfully, and the bytes beyond it — whatever they
/// hold — change nothing about the result.
pub proof fn lemma_sentinel_ignores_rest(
    ps: Seq<PlayerStatsView>,
    g: Seq<u8>,
    policy: TruncationPolicy,
)
    requires
        valid_names(ps),
    ensures
        spec_parse_userstats(spec_encode_userstats(ps) + (seq![10u8] + g), policy) == Ok::<
            _,
            DecodeError,
        >(ps),
{
    let t = seq![10u8] + g;
    lemma_encoded_header(ps, t);
    lemma_decode_encoded_players(ps, t, policy);
    assert(t[0] == 10);
    lemma_find_nl_at(t, 0, 0);
    assert(t.take(0) =~= Seq::<u8>::empty());
    assert(strip_cr(t.take(0)) =~= Seq::<u8>::empty());
    assert(blank(Seq::<u8>::empty()));
    assert(spec_decode_players(t, policy) == Ok::<Seq<PlayerStatsView>, DecodeError>(
        Seq::empty(),
    ));
    lemma_with_prefix_nil::<PlayerStatsView>(ps);
}

/// A stream whose header line, trailing whitespace trimmed, is not the
/// marker always fails with `InvalidHeader`, under either policy, whatever
/// bytes follow the header line.
pub proof fn lemma_invalid_header(s: Seq<u8>, policy: TruncationPolicy)
    requires
        trim_end(header_line(s)) != player_marker(),
    ensures
        spec_parse_userstats(s, policy) == Err::<Seq<PlayerStatsView>, _>(
            DecodeError::InvalidHeader,
        ),
{
}

/// A final record whose name line is present but whose tail is cut short
/// behaves per the policy: under `Strict` the whole decode fails with
/// `TruncatedStream`; under `Lenient` the record is emitted with every
/// missing field zero, after the complete records before it.
pub proof fn lemma_truncated_tail(ps: Seq<PlayerStatsView>, name: Seq<u8>, partial: Seq<u8>)
    requires
        valid_names(ps),
        valid_name(name),
        partial.len() < 33,
    ensures
        spec_parse_userstats(
            spec_encode_userstats(ps) + (name + seq![10u8] + partial),
            TruncationPolicy::Strict,
        ) == Err::<Seq<PlayerStatsView>, _>(DecodeError::TruncatedStream),
        spec_parse_userstats(
            spec_encode_userstats(ps) + (name + seq![10u8] + partial),
            TruncationPolicy::Lenient,
        ) == Ok::<_, DecodeError>(ps.push(spec_player_partial(name, partial))),
{
    let t = name + seq![10u8] + partial;
    lemma_encoded_header(ps, t);
    let nlen = name.len() as int;
    assert(forall|j: int| 0 <= j < nlen ==> t[j] == name[j]);
    assert(t[nlen] == 10);
    lemma_find_nl_at(t, 0, name.len());
    assert(t.take(nlen) =~= name);
    lemma_strip_cr_id(name);
    assert(t.len() - (nlen + 1) == partial.len());
    assert(t.subrange(nlen + 1, t.len() as int) =~= partial);
    assert(spec_decode_players(t, TruncationPolicy::Strict) == Err::<
        Seq<PlayerStatsView>,
        DecodeError,
    >(DecodeError::TruncatedStream));
    assert(spec_decode_players(t, TruncationPolicy::Lenient) == Ok::<
        Seq<PlayerStatsView>,
        DecodeError,
    >(seq![spec_player_partial(name, partial)]));
    lemma_decode_encoded_players(ps, t, TruncationPolicy::Strict);
    lemma_decode_encoded_players(ps, t, TruncationPolicy::Lenient);
    assert(ps + seq![spec_player_partial(name, partial)] =~= ps.push(
        spec_player_partial(name, partial),
    ));
}

} // verus!
