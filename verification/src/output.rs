//! Pure formatting helpers for report generation: session time as a short
//! human-readable duration, byte counts with binary-prefix units, and HTML
//! escaping of player names.  Each output is defined by a spec function over
//! the input value, and the returned text equals it byte for byte.

use vstd::prelude::*;
use vstd::arithmetic::div_mod::lemma_div_is_ordered_by_denominator;
use crate::text::{byte_is_space, bytes_of_range, is_space, lemma_trim_start_range, trim_end, trim_end_index, trim_start};

verus! {

/// Every byte is ASCII.
pub open spec fn all_ascii(s: Seq<u8>) -> bool {
    forall|i: int| 0 <= i < s.len() ==> s[i] < 128
}

/// The characters that a sequence of ASCII bytes spells.
pub open spec fn ascii_chars(s: Seq<u8>) -> Seq<char> {
    s.map_values(|b: u8| b as char)
}

/// The decimal digits of `n`, most significant first.
pub open spec fn spec_dec_digits(n: nat) -> Seq<u8>
    decreases n,
{
    if n < 10 {
        seq![(48 + n) as u8]
    } else {
        spec_dec_digits(n / 10).push((48 + n % 10) as u8)
    }
}

/// Decimal digits are the ASCII bytes `'0'` through `'9'`, and there is at
/// least one of them.
pub proof fn lemma_dec_digits_ascii(n: nat)
    ensures
        spec_dec_digits(n).len() >= 1,
        forall|i: int|
            0 <= i < spec_dec_digits(n).len() ==> 48 <= #[trigger] spec_dec_digits(n)[i] < 58,
    decreases n,
{
    if n >= 10 {
        lemma_dec_digits_ascii(n / 10);
    }
}

/// Writes `n` in decimal.
pub fn dec_u64(n: u64) -> (r: Vec<u8>)
    ensures
        r@ == spec_dec_digits(n as nat),
        all_ascii(r@),
    decreases n,
{
    proof {
        lemma_dec_digits_ascii(n as nat);
    }
    if n < 10 {
        let mut v: Vec<u8> = Vec::new();
        v.push(48 + (n as u8));
        proof {
            assert(v@ =~= spec_dec_digits(n as nat));
        }
        v
    } else {
        let mut v = dec_u64(n / 10);
        v.push(48 + ((n % 10) as u8));
        proof {
            assert(v@ =~= spec_dec_digits(n as nat));
        }
        v
    }
}

/// The duration text for `s` seconds, the two largest nonzero units only:
/// days and hours, hours and minutes, minutes and seconds, or bare seconds.
/// A negative count shows its remainder of a minute, signed, as seconds.
pub open spec fn spec_format_time(s: int) -> Seq<u8> {
    if s < 0 {
        let r = (-s) % 60;
        if r == 0 {
            seq![48u8, 115]
        } else {
            seq![45u8] + spec_dec_digits(r as nat) + seq![115u8]
        }
    } else {
        let days = s / 86400;
        let hours = (s % 86400) / 3600;
        let minutes = (s % 3600) / 60;
        let seconds = s % 60;
        if days > 0 {
            spec_dec_digits(days as nat) + seq![100u8, 32] + spec_dec_digits(hours as nat)
                + seq![104u8]
        } else if hours > 0 {
            spec_dec_digits(hours as nat) + seq![104u8, 32] + spec_dec_digits(minutes as nat)
                + seq![109u8]
        } else if minutes > 0 {
            spec_dec_digits(minutes as nat) + seq![109u8, 32] + spec_dec_digits(seconds as nat)
                + seq![115u8]
        } else {
            spec_dec_digits(seconds as nat) + seq![115u8]
        }
    }
}

/// The duration text is ASCII.
proof fn lemma_format_time_ascii(s: int)
    ensures
        all_ascii(spec_format_time(s)),
{
    if s < 0 {
        lemma_dec_digits_ascii(((-s) % 60) as nat);
    } else {
        lemma_dec_digits_ascii((s / 86400) as nat);
        lemma_dec_digits_ascii(((s % 86400) / 3600) as nat);
        lemma_dec_digits_ascii(((s % 3600) / 60) as nat);
        lemma_dec_digits_ascii((s % 60) as nat);
    }
}

/// Formats a session-time count of seconds as a short duration.
pub fn format_time(s: i32) -> (r: String)
    ensures
        r@ == ascii_chars(spec_format_time(s as int)),
{
    let mut out: Vec<u8> = Vec::new();
    if s < 0 {
        let mag = (-(s as i64)) as u64;
        let rsec = mag % 60;
        if rsec == 0 {
            out.push(48);
            out.push(115);
        } else {
            out.push(45);
            let mut d = dec_u64(rsec);
            out.append(&mut d);
            out.push(115);
        }
    } else {
        let u = s as u64;
        let days = u / 86400;
        let hours = (u % 86400) / 3600;
        let minutes = (u % 3600) / 60;
        let seconds = u % 60;
        if days > 0 {
            let mut d = dec_u64(days);
            out.append(&mut d);
            out.push(100);
            out.push(32);
            let mut h = dec_u64(hours);
            out.append(&mut h);
            out.push(104);
        } else if hours > 0 {
            let mut d = dec_u64(hours);
            out.append(&mut d);
            out.push(104);
            out.push(32);
            let mut m = dec_u64(minutes);
            out.append(&mut m);
            out.push(109);
        } else if minutes > 0 {
            let mut d = dec_u64(minutes);
            out.append(&mut d);
            out.push(109);
            out.push(32);
            let mut sec = dec_u64(seconds);
            out.append(&mut sec);
            out.push(115);
        } else {
            let mut d = dec_u64(seconds);
            out.append(&mut d);
            out.push(115);
        }
    }
    proof {
        assert(out@ =~= spec_format_time(s as int));
        lemma_format_time_ascii(s as int);
    }
    ascii_to_string(out)
}

/// A count scaled to hundredths of a unit of `div` bytes, rounded to the
/// nearest hundredth with half a hundredth rounding up.
pub open spec fn spec_scaled(b: nat, div: nat) -> nat
    recommends
        div >= 2,
{
    ((b * 100 + div / 2) as int / div as int) as nat
}

/// A count of hundredths written with two decimal places.
pub open spec fn spec_two_dec(h: nat) -> Seq<u8> {
    spec_dec_digits(h / 100) + seq![46u8] + (if h % 100 < 10 {
        seq![48u8] + spec_dec_digits((h % 100) as nat)
    } else {
        spec_dec_digits((h % 100) as nat)
    })
}

/// Two-decimal texts are ASCII.
proof fn lemma_two_dec_ascii(h: nat)
    ensures
        all_ascii(spec_two_dec(h)),
{
    lemma_dec_digits_ascii(h / 100);
    lemma_dec_digits_ascii((h % 100) as nat);
}

/// The byte-count text: two decimals of gibibytes, mebibytes or kibibytes
/// for counts at least one unit, and the bare count below one kibibyte.
pub open spec fn spec_format_bytes(b: nat) -> Seq<u8> {
    if b >= 0x40000000 {
        spec_two_dec(spec_scaled(b, 0x40000000)) + seq![32u8, 71, 66]
    } else if b >= 0x100000 {
        spec_two_dec(spec_scaled(b, 0x100000)) + seq![32u8, 77, 66]
    } else if b >= 1024 {
        spec_two_dec(spec_scaled(b, 1024)) + seq![32u8, 75, 66]
    } else {
        spec_dec_digits(b) + seq![32u8, 98, 121, 116, 101, 115]
    }
}

/// Byte-count texts are ASCII.
proof fn lemma_format_bytes_ascii(b: nat)
    ensures
        all_ascii(spec_format_bytes(b)),
{
    lemma_two_dec_ascii(spec_scaled(b, 0x40000000));
    lemma_two_dec_ascii(spec_scaled(b, 0x100000));
    lemma_two_dec_ascii(spec_scaled(b, 1024));
    lemma_dec_digits_ascii(b);
}

/// Scales a byte count to hundredths of the unit of `div` bytes.
fn scaled_hundredths(b: u64, div: u64) -> (r: u64)
    requires
        1024 <= div,
    ensures
        r as nat == spec_scaled(b as nat, div as nat),
{
    let w: u128 = (b as u128) * 100 + (div as u128) / 2;
    proof {
        lemma_div_is_ordered_by_denominator(w as int, 1024, div as int);
        assert(w as int / 1024 < 0x1_0000_0000_0000_0000);
    }
    (w / (div as u128)) as u64
}

/// Writes a count of hundredths with two decimal places.
fn two_dec_bytes(h: u64) -> (r: Vec<u8>)
    ensures
        r@ == spec_two_dec(h as nat),
{
    let mut out = dec_u64(h / 100);
    out.push(46);
    let frac = h % 100;
    if frac < 10 {
        out.push(48);
    }
    let mut d = dec_u64(frac);
    out.append(&mut d);
    proof {
        assert(out@ =~= spec_two_dec(h as nat));
    }
    out
}

/// Formats a byte count with a binary-prefix unit and two decimal places.
pub fn format_bytes(bytes: u64) -> (r: String)
    ensures
        r@ == ascii_chars(spec_format_bytes(bytes as nat)),
{
    let mut out: Vec<u8> = Vec::new();
    if bytes >= 0x40000000 {
        let mut t = two_dec_bytes(scaled_hundredths(bytes, 0x40000000));
        out.append(&mut t);
        out.push(32);
        out.push(71);
        out.push(66);
    } else if bytes >= 0x100000 {
        let mut t = two_dec_bytes(scaled_hundredths(bytes, 0x100000));
        out.append(&mut t);
        out.push(32);
        out.push(77);
        out.push(66);
    } else if bytes >= 1024 {
        let mut t = two_dec_bytes(scaled_hundredths(bytes, 1024));
        out.append(&mut t);
        out.push(32);
        out.push(75);
        out.push(66);
    } else {
        let mut d = dec_u64(bytes);
        out.append(&mut d);
        out.push(32);
        out.push(98);
        out.push(121);
        out.push(116);
        out.push(101);
        out.push(115);
    }
    proof {
        assert(out@ =~= spec_format_bytes(bytes as nat));
        lemma_format_bytes_ascii(bytes as nat);
    }
    ascii_to_string(out)
}

/// What one byte becomes in HTML text: the five metacharacters become
/// entities, line breaks become spaces, everything else stays.
pub open spec fn escape_byte(b: u8) -> Seq<u8> {
    if b == 38 {
        seq![38u8, 97, 109, 112, 59]
    } else if b == 60 {
        seq![38u8, 108, 116, 59]
    } else if b == 62 {
        seq![38u8, 103, 116, 59]
    } else if b == 34 {
        seq![38u8, 113, 117, 111, 116, 59]
    } else if b == 39 {
        seq![38u8, 35, 120, 50, 55, 59]
    } else if b == 10 || b == 13 {
        seq![32u8]
    } else {
        seq![b]
    }
}

/// Every byte of a text, escaped in order.
pub open spec fn escape_bytes(s: Seq<u8>) -> Seq<u8>
    decreases s.len(),
{
    if s.len() == 0 {
        Seq::empty()
    } else {
        escape_bytes(s.drop_last()) + escape_byte(s.last())
    }
}

/// A text made safe for HTML: every byte escaped, then surrounding
/// whitespace dropped.
pub open spec fn spec_sanitize(s: Seq<u8>) -> Seq<u8> {
    trim_start(trim_end(escape_bytes(s)))
}

/// Escapes a name for embedding in HTML text: `&`, `<`, `>`, `"` and `'`
/// become character entities, line breaks become spaces, and surrounding
/// whitespace is dropped.
pub fn sanitize_html(input: &Vec<u8>) -> (r: Vec<u8>)
    ensures
        r@ == spec_sanitize(input@),
{
    let n = input.len();
    let mut e: Vec<u8> = Vec::new();
    let mut i: usize = 0;
    while i < n
        invariant
            0 <= i <= n,
            n == input@.len(),
            e@ == escape_bytes(input@.take(i as int)),
        decreases n - i,
    {
        let b = input[i];
        proof {
            assert(input@.take(i + 1 as int).drop_last() =~= input@.take(i as int));
            assert(input@.take(i + 1 as int).last() == input@[i as int]);
        }
        if b == 38 {
            e.push(38);
            e.push(97);
            e.push(109);
            e.push(112);
            e.push(59);
        } else if b == 60 {
            e.push(38);
            e.push(108);
            e.push(116);
            e.push(59);
        } else if b == 62 {
            e.push(38);
            e.push(103);
            e.push(116);
            e.push(59);
        } else if b == 34 {
            e.push(38);
            e.push(113);
            e.push(117);
            e.push(111);
            e.push(116);
            e.push(59);
        } else if b == 39 {
            e.push(38);
            e.push(35);
            e.push(120);
            e.push(50);
            e.push(55);
            e.push(59);
        } else if b == 10 || b == 13 {
            e.push(32);
        } else {
            e.push(b);
        }
        proof {
            assert(e@ =~= escape_bytes(input@.take(i + 1 as int)));
        }
        i = i + 1;
    }
    proof {
        assert(input@.take(n as int) =~= input@);
    }
    let j = trim_end_index(e.as_slice(), e.len());
    let mut k: usize = 0;
    while k < j && byte_is_space(e[k])
        invariant
            0 <= k <= j <= e@.len(),
            forall|m: int| 0 <= m < k ==> is_space(e@[m]),
        decreases j - k,
    {
        k = k + 1;
    }
    let r = bytes_of_range(e.as_slice(), k, j);
    proof {
        assert(e@.take(e@.len() as int) =~= e@);
        let t = e@.take(j as int);
        assert(forall|m: int| 0 <= m < k ==> is_space(t[m]));
        if k < j {
            assert(t[k as int] == e@[k as int]);
        }
        lemma_trim_start_range(t, k as int);
        assert(t.skip(k as int) =~= e@.subrange(k as int, j as int));
    }
    r
}

/// Relies on `String::from_utf8`: bytes below 0x80 are valid UTF-8 and
/// decode to the characters with the same code points.
#[verifier::external_body]
fn ascii_to_string(v: Vec<u8>) -> (r: String)
    requires
        all_ascii(v@),
    ensures
        r@ == ascii_chars(v@),
{
    match String::from_utf8(v) {
        Ok(s) => s,
        Err(_) => String::new(),
    }
}

} // verus!
