//! Best score and play count of the maze game, as kept in the browser's
//! local storage: decimal text under fixed keys. The page reads and writes
//! the storage; this module turns stored text into numbers and back.
use vstd::prelude::*;
use vstd::string::StringSliceAdditionalSpecFns;

verus! {

pub open spec fn is_digit(b: u8) -> bool {
    48 <= b <= 57
}

pub open spec fn all_digits(s: Seq<u8>) -> bool {
    forall|i: int| 0 <= i < s.len() ==> is_digit(#[trigger] s[i])
}

/// The number a string of decimal digits denotes.
pub open spec fn digits_value(s: Seq<u8>) -> nat
    decreases s.len(),
{
    if s.len() == 0 {
        0
    } else {
        digits_value(s.drop_last()) * 10 + (s.last() - 48) as nat
    }
}

/// What text parses to as an unsigned 32-bit number: an optional `+`, then
/// one or more decimal digits denoting at most `u32::MAX`.
pub open spec fn parse_decimal(s: Seq<u8>) -> Option<u32> {
    let d = if s.len() > 0 && s[0] == 43u8 {
        s.subrange(1, s.len() as int)
    } else {
        s
    };
    if d.len() > 0 && all_digits(d) && digits_value(d) <= u32::MAX {
        Some(digits_value(d) as u32)
    } else {
        None
    }
}

/// The stored value of `text`, or `default` where nothing or no number is
/// stored.
pub open spec fn stored_or(text: Option<&str>, default: u32) -> u32 {
    match text {
        Some(t) => match parse_decimal(t.spec_bytes()) {
            Some(v) => v,
            None => default,
        },
        None => default,
    }
}

/// The decimal digits of `n`, without leading zeros.
pub open spec fn decimal_digits(n: nat) -> Seq<u8>
    decreases n,
{
    if n < 10 {
        seq![(48 + n) as u8]
    } else {
        decimal_digits(n / 10).push((48 + n % 10) as u8)
    }
}

/// Parses `text` as an unsigned 32-bit decimal number.
pub fn parse_u32(text: &str) -> (r: Option<u32>)
    ensures
        r == parse_decimal(text.spec_bytes()),
{
    let bytes = text.as_bytes();
    let n = bytes.len();
    let start: usize = if n > 0 && bytes[0] == 43u8 {
        1
    } else {
        0
    };
    let ghost d = bytes@.subrange(start as int, n as int);
    proof {
        let sb = text.spec_bytes();
        assert(bytes@ == sb);
        if start == 0 {
            assert(d =~= sb);
        }
        assert(d == (if sb.len() > 0 && sb[0] == 43u8 {
            sb.subrange(1, sb.len() as int)
        } else {
            sb
        }));
    }
    if start >= n {
        return None;
    }
    let mut acc: u64 = 0;
    let mut i: usize = start;
    while i < n
        invariant
            start <= i <= n,
            n == bytes@.len(),
            d == bytes@.subrange(start as int, n as int),
            bytes@ == text.spec_bytes(),
            d == (if bytes@.len() > 0 && bytes@[0] == 43u8 {
                bytes@.subrange(1, bytes@.len() as int)
            } else {
                bytes@
            }),
            all_digits(bytes@.subrange(start as int, i as int)),
            acc == (if digits_value(bytes@.subrange(start as int, i as int)) < 0x1_0000_0000 {
                digits_value(bytes@.subrange(start as int, i as int))
            } else {
                0x1_0000_0000
            }),
        decreases n - i,
    {
        let b = bytes[i];
        if b < 48 || b > 57 {
            proof {
                assert(d[i - start] == b);
            }
            return None;
        }
        proof {
            let p = bytes@.subrange(start as int, i as int + 1);
            assert(p.drop_last() == bytes@.subrange(start as int, i as int));
            assert(p.last() == b);
        }
        let next = acc * 10 + (b - 48) as u64;
        acc = if next < 0x1_0000_0000 {
            next
        } else {
            0x1_0000_0000
        };
        i = i + 1;
    }
    proof {
        assert(bytes@.subrange(start as int, n as int) == d);
    }
    if acc <= 0xffff_ffff {
        Some(acc as u32)
    } else {
        None
    }
}

/// The stored number in `text`, or `default`.
pub fn load_u32(text: Option<&str>, default: u32) -> (r: u32)
    ensures
        r == stored_or(text, default),
{
    match text {
        Some(t) => match parse_u32(t) {
            Some(v) => v,
            None => default,
        },
        None => default,
    }
}

/// The best total of steps and the highest level reached, 0 for what is
/// not stored.
pub fn load_best_score(best_steps: Option<&str>, max_level: Option<&str>) -> (r: (u32, u32))
    ensures
        r == (stored_or(best_steps, 0), stored_or(max_level, 0)),
{
    (load_u32(best_steps, 0), load_u32(max_level, 0))
}

/// How many games were played, 0 if nothing is stored.
pub fn load_play_count(stored: Option<&str>) -> (r: u32)
    ensures
        r == stored_or(stored, 0),
{
    load_u32(stored, 0)
}

/// The play count to store after one more game.
pub fn increment_play_count(stored: Option<&str>) -> (r: u32)
    requires
        stored_or(stored, 0) < u32::MAX,
    ensures
        r == stored_or(stored, 0) + 1,
{
    load_u32(stored, 0) + 1
}

fn push_decimal(n: u32, out: &mut Vec<u8>)
    ensures
        final(out)@ == old(out)@ + decimal_digits(n as nat),
    decreases n,
{
    if n >= 10 {
        push_decimal(n / 10, out);
    }
    out.push(48 + (n % 10) as u8);
    proof {
        if n >= 10 {
            assert(decimal_digits(n as nat) == decimal_digits((n / 10) as nat).push(
                (48 + n % 10) as u8,
            ));
        }
    }
}

/// The decimal text of `n`.
pub fn format_u32(n: u32) -> (r: Vec<u8>)
    ensures
        r@ == decimal_digits(n as nat),
{
    let mut out: Vec<u8> = Vec::new();
    push_decimal(n, &mut out);
    assert(out@ =~= decimal_digits(n as nat));
    out
}

/// The texts to store for a new best score: total steps and level.
pub fn save_best_score(total_steps: u32, level: u32) -> (r: (Vec<u8>, Vec<u8>))
    ensures
        r.0@ == decimal_digits(total_steps as nat),
        r.1@ == decimal_digits(level as nat),
{
    (format_u32(total_steps), format_u32(level))
}

proof fn lemma_decimal_digits(n: nat)
    ensures
        decimal_digits(n).len() > 0,
        all_digits(decimal_digits(n)),
        digits_value(decimal_digits(n)) == n,
        decimal_digits(n)[0] != 43u8,
    decreases n,
{
    if n >= 10 {
        lemma_decimal_digits(n / 10);
        let s = decimal_digits(n);
        assert(s.drop_last() == decimal_digits(n / 10));
        assert(s.last() == (48 + n % 10) as u8);
        assert(n % 10 < 10);
        assert(((48 + n % 10) as u8) as int == 48 + n % 10);
        assert(digits_value(s) == digits_value(decimal_digits(n / 10)) * 10 + (n % 10));
        assert(n == (n / 10) * 10 + n % 10) by (nonlinear_arith);
        assert(s[0] == decimal_digits(n / 10)[0]);
    } else {
        assert(decimal_digits(n).drop_last() =~= Seq::<u8>::empty());
        assert(digits_value(decimal_digits(n)) == digits_value(Seq::<u8>::empty()) * 10 + n);
    }
}

/// What is stored is read back: the text written for `n` parses to `n`.
pub proof fn lemma_format_then_parse(n: u32)
    ensures
        parse_decimal(decimal_digits(n as nat)) == Some(n),
{
    lemma_decimal_digits(n as nat);
}

/// The best score stored is the best score loaded: when the texts under
/// the two keys are the ones `save_best_score` gives, `load_best_score`
/// reads back the total of steps and the level; with nothing stored it
/// reads (0, 0).
pub proof fn lemma_best_score_round_trip(total_steps: u32, level: u32, steps_text: &str, level_text: &str)
    requires
        steps_text.spec_bytes() == decimal_digits(total_steps as nat),
        level_text.spec_bytes() == decimal_digits(level as nat),
    ensures
        (stored_or(Some(steps_text), 0), stored_or(Some(level_text), 0)) == (total_steps, level),
        (stored_or(None, 0), stored_or(None, 0)) == (0u32, 0u32),
{
    lemma_format_then_parse(total_steps);
    lemma_format_then_parse(level);
}

} // verus!
