//! The persistence document: a plain text encoding of the whole storage
//! (results and configurations), with decoding proven to give back exactly
//! what was encoded.
//!
//! Numbers are fixed-width decimal (20 digits, zero padded), strings are
//! length-prefixed, and every record field has a fixed place, so parsing
//! is unambiguous without separators or escaping.
use vstd::prelude::*;
use crate::digits::{char_to_digit, digit_of, digit_to_char, digit_val, is_digit_char};
use crate::result::{details_model, DetailsModel, GameDetails, GameResult, result_model, ResultModel};
use crate::storage::{ConfigSet, GameStorage};
use crate::types::{Difficulty, GameConfig, GameType};

verus! {

pub open spec fn pow10(k: nat) -> nat
    decreases k,
{
    if k == 0 {
        1
    } else {
        10 * pow10((k - 1) as nat)
    }
}

/// The number `n` as exactly `w` decimal digit characters, least
/// significant digit last, zero padded on the left.
pub open spec fn padded_digits(n: nat, w: nat) -> Seq<char>
    decreases w,
{
    if w == 0 {
        Seq::empty()
    } else {
        padded_digits(n / 10, (w - 1) as nat).push(digit_of((n % 10) as int))
    }
}

/// Value of a sequence of digit characters, most significant first.
pub open spec fn digits_val(s: Seq<char>) -> int
    decreases s.len(),
{
    if s.len() == 0 {
        0
    } else {
        digits_val(s.drop_last()) * 10 + digit_val(s.last())
    }
}

/// Width of every encoded number.
pub open spec fn num_width() -> int {
    20
}

/// Encoding of one unsigned number.
pub open spec fn enc_u64(n: int) -> Seq<char> {
    padded_digits(n as nat, num_width() as nat)
}

pub proof fn lemma_pow10_20()
    ensures
        pow10(20) == 100_000_000_000_000_000_000,
{
    reveal_with_fuel(pow10, 21);
}

pub proof fn lemma_pow10_pos(k: nat)
    ensures
        pow10(k) >= 1,
    decreases k,
{
    if k > 0 {
        lemma_pow10_pos((k - 1) as nat);
    }
}

pub proof fn lemma_padded_digits_shape(n: nat, w: nat)
    ensures
        padded_digits(n, w).len() == w,
        forall|i: int| 0 <= i < w ==> is_digit_char(#[trigger] padded_digits(n, w)[i]),
    decreases w,
{
    if w > 0 {
        lemma_padded_digits_shape(n / 10, (w - 1) as nat);
    }
}

pub proof fn lemma_digits_val_padded(n: nat, w: nat)
    ensures
        digits_val(padded_digits(n, w)) == n % pow10(w),
    decreases w,
{
    if w == 0 {
        assert(pow10(0) == 1);
        vstd::arithmetic::div_mod::lemma_small_mod(0, 1);
        assert(n % 1 == 0) by {
            vstd::arithmetic::div_mod::lemma_mod_breakdown(n as int, 1, 1);
        }
    } else {
        lemma_digits_val_padded(n / 10, (w - 1) as nat);
        let s = padded_digits(n, w);
        assert(s.drop_last() =~= padded_digits(n / 10, (w - 1) as nat));
        assert(s.last() == digit_of((n % 10) as int));
        assert(0 <= n % 10 <= 9) by {
            vstd::arithmetic::div_mod::lemma_mod_division_less_than_divisor(n as int, 10);
        }
        crate::digits::lemma_digit_roundtrip((n % 10) as int);
        lemma_pow10_pos((w - 1) as nat);
        assert((n as int) % (10 * pow10((w - 1) as nat) as int) == 10 * (((n as int) / 10) % (
        pow10((w - 1) as nat) as int)) + (n as int) % 10) by {
            vstd::arithmetic::div_mod::lemma_mod_breakdown(
                n as int,
                10,
                pow10((w - 1) as nat) as int,
            );
        }
        assert(pow10(w) == 10 * pow10((w - 1) as nat));
    }
}

/// A run of digit characters reads back as a value below `pow10` of its
/// length.
pub proof fn lemma_digits_val_bounds(s: Seq<char>)
    requires
        forall|i: int| 0 <= i < s.len() ==> is_digit_char(#[trigger] s[i]),
    ensures
        0 <= digits_val(s) < pow10(s.len() as nat),
    decreases s.len(),
{
    if s.len() > 0 {
        assert(forall|i: int|
            0 <= i < s.drop_last().len() ==> is_digit_char(#[trigger] s.drop_last()[i]));
        lemma_digits_val_bounds(s.drop_last());
        assert(is_digit_char(s.last()));
        assert(0 <= digit_val(s.last()) <= 9);
        assert(pow10(s.len() as nat) == 10 * pow10((s.len() - 1) as nat));
    }
}

/// Fixed-width decimal is canonical: a run of digit characters is the
/// padded encoding of its own value.
pub proof fn lemma_padded_canonical(s: Seq<char>)
    requires
        forall|i: int| 0 <= i < s.len() ==> is_digit_char(#[trigger] s[i]),
    ensures
        padded_digits(digits_val(s) as nat, s.len() as nat) == s,
    decreases s.len(),
{
    if s.len() == 0 {
        assert(padded_digits(0, 0) =~= s);
    } else {
        assert(forall|i: int|
            0 <= i < s.drop_last().len() ==> is_digit_char(#[trigger] s.drop_last()[i]));
        lemma_digits_val_bounds(s.drop_last());
        lemma_padded_canonical(s.drop_last());
        let v = digits_val(s);
        let d = digit_val(s.last());
        assert(is_digit_char(s.last()));
        vstd::arithmetic::div_mod::lemma_fundamental_div_mod_converse(
            v,
            10,
            digits_val(s.drop_last()),
            d,
        );
        crate::digits::lemma_digit_char_roundtrip(s.last());
        assert(padded_digits(v as nat, s.len() as nat) == padded_digits(
            (v as nat) / 10,
            (s.len() - 1) as nat,
        ).push(digit_of(((v as nat) % 10) as int)));
        assert(padded_digits(v as nat, s.len() as nat) =~= s);
    }
}

/// A `u64` survives the 20-digit encoding unchanged.
pub proof fn lemma_u64_roundtrip(n: u64)
    ensures
        digits_val(enc_u64(n as int)) == n,
        enc_u64(n as int).len() == num_width(),
        forall|i: int| 0 <= i < num_width() ==> is_digit_char(#[trigger] enc_u64(n as int)[i]),
{
    lemma_padded_digits_shape(n as nat, 20);
    lemma_digits_val_padded(n as nat, 20);
    lemma_pow10_20();
    vstd::arithmetic::div_mod::lemma_small_mod(n as nat, pow10(20));
}

/// Append the 20-digit encoding of `n`.
pub fn push_u64(out: &mut Vec<char>, n: u64)
    ensures
        final(out)@ == old(out)@ + enc_u64(n as int),
{
    push_padded(out, n, 20);
    proof {
        assert(final(out)@ == old(out)@ + padded_digits(n as nat, 20));
    }
}

fn push_padded(out: &mut Vec<char>, n: u64, w: usize)
    ensures
        final(out)@ =~= old(out)@ + padded_digits(n as nat, w as nat),
    decreases w,
{
    if w == 0 {
        proof {
            assert(old(out)@ + padded_digits(n as nat, 0) =~= old(out)@);
        }
        return ;
    }
    push_padded(out, n / 10, w - 1);
    out.push(digit_to_char(n % 10));
}

/// Read one 20-digit number. Whenever the slice at `pos` is the encoding
/// of a value `n`, the result is exactly `Some((n, pos + 20))`.
#[verifier::loop_isolation(false)]
pub fn decode_u64(s: &Vec<char>, pos: usize) -> (r: Option<(u64, usize)>)
    ensures
        forall|n: int|
            (0 <= n <= u64::MAX && pos + num_width() <= s@.len() && s@.subrange(
                pos as int,
                pos as int + num_width(),
            ) == #[trigger] enc_u64(n)) ==> r == Some(((n as u64), (pos + num_width()) as usize)),
        r is Some ==> (r->0).1 == pos + num_width() && pos + num_width() <= s@.len(),
        r is Some ==> s@.subrange(pos as int, pos as int + num_width()) == enc_u64(
            (r->0).0 as int,
        ),
    {
    if s.len() < 20 || pos > s.len() - 20 {
        proof {
            assert forall|n: int|
                (0 <= n <= u64::MAX && pos + num_width() <= s@.len() && s@.subrange(
                    pos as int,
                    pos as int + num_width(),
                ) == #[trigger] enc_u64(n)) implies false by {}
        }
        return None;
    }
    let mut acc: u128 = 0;
    let mut i: usize = 0;
    proof {
        lemma_pow10_20();
        assert(s@.subrange(pos as int, pos as int) =~= Seq::<char>::empty());
    }
    while i < 20
        invariant
            i <= 20,
            pos + 20 <= s@.len(),
            forall|j: int| pos <= j < pos + i ==> is_digit_char(#[trigger] s@[j]),
            acc == digits_val(s@.subrange(pos as int, pos as int + i as int)),
            acc < pow10(i as nat),
            pow10(20) == 100_000_000_000_000_000_000,
        decreases 20 - i,
    {
        let ghost prefix = s@.subrange(pos as int, pos as int + i as int);
        let ghost prefix1 = s@.subrange(pos as int, pos as int + i as int + 1);
        match char_to_digit(s[pos + i]) {
            Some(d) => {
                proof {
                    assert(prefix1.drop_last() =~= prefix);
                    assert(prefix1.last() == s@[pos + i as int]);
                    lemma_pow10_le(20);
                    assert(pow10(i as nat) <= pow10(20));
                    assert(pow10((i + 1) as nat) == 10 * pow10(i as nat));
                }
                acc = acc * 10 + (d as u128);
            },
            None => {
                proof {
                    assert forall|n: int|
                        (0 <= n <= u64::MAX && pos + num_width() <= s@.len() && s@.subrange(
                            pos as int,
                            pos as int + num_width(),
                        ) == #[trigger] enc_u64(n)) implies false by {
                        lemma_padded_digits_shape(n as nat, 20);
                        assert(s@[pos + i as int] == enc_u64(n)[i as int]);
                    }
                }
                return None;
            },
        }
        i = i + 1;
    }
    if acc > u64::MAX as u128 {
        proof {
            assert forall|n: int|
                (0 <= n <= u64::MAX && pos + num_width() <= s@.len() && s@.subrange(
                    pos as int,
                    pos as int + num_width(),
                ) == #[trigger] enc_u64(n)) implies false by {
                lemma_digits_val_padded(n as nat, 20);
                vstd::arithmetic::div_mod::lemma_small_mod(n as nat, pow10(20));
            }
        }
        return None;
    }
    proof {
        assert forall|n: int|
            (0 <= n <= u64::MAX && pos + num_width() <= s@.len() && s@.subrange(
                pos as int,
                pos as int + num_width(),
            ) == #[trigger] enc_u64(n)) implies acc == n by {
            lemma_digits_val_padded(n as nat, 20);
            vstd::arithmetic::div_mod::lemma_small_mod(n as nat, pow10(20));
        }
        let consumed = s@.subrange(pos as int, pos as int + 20);
        lemma_padded_canonical(consumed);
        assert(s@.subrange(pos as int, pos as int + num_width()) == enc_u64(acc as int));
    }
    Some((acc as u64, pos + 20))
}

pub proof fn lemma_pow10_le(k: nat)
    ensures
        forall|j: nat| j <= k ==> #[trigger] pow10(j) <= pow10(k),
    decreases k,
{
    if k > 0 {
        lemma_pow10_le((k - 1) as nat);
        assert(pow10(k) == 10 * pow10((k - 1) as nat));
        assert forall|j: nat| j <= k implies #[trigger] pow10(j) <= pow10(k) by {
            if j <= k - 1 {
                assert(pow10(j) <= pow10((k - 1) as nat));
            }
        }
    } else {
        assert(pow10(0) <= pow10(0));
    }
}

/// Encoding of one character string: its length, then its characters.
pub open spec fn enc_str(w: Seq<char>) -> Seq<char> {
    enc_u64(w.len() as int) + w
}

/// A string length the encoding can carry.
pub open spec fn str_ok(w: Seq<char>) -> bool {
    w.len() <= u64::MAX
}

/// Append the encoding of one string.
#[verifier::loop_isolation(false)]
pub fn push_str_chars(out: &mut Vec<char>, s: &String)
    ensures
        final(out)@ =~= old(out)@ + enc_str(s@),
        str_ok(s@),
{
    let chars = crate::textops::str_to_chars(s.as_str());
    push_u64(out, chars.len() as u64);
    let ghost mid = out@;
    let mut j: usize = 0;
    while j < chars.len()
        invariant
            j <= chars@.len(),
            out@ =~= mid + chars@.subrange(0, j as int),
        decreases chars@.len() - j,
    {
        out.push(chars[j]);
        j = j + 1;
    }
    proof {
        assert(out@ =~= mid + chars@);
    }
}

/// Read one length-prefixed string. Whenever the slice at `pos` is the
/// encoding of a string `w`, the result is exactly that string and the
/// position right after it.
#[verifier::loop_isolation(false)]
pub fn decode_str(s: &Vec<char>, pos: usize) -> (r: Option<(String, usize)>)
    ensures
        forall|w: Seq<char>|
            (str_ok(w) && pos + enc_str(w).len() <= s@.len() && s@.subrange(
                pos as int,
                pos as int + enc_str(w).len(),
            ) == #[trigger] enc_str(w)) ==> (r is Some && (r->0).0@ == w && (r->0).1 == pos
                + enc_str(w).len()),
        r is Some ==> pos <= (r->0).1 <= s@.len(),
        r is Some ==> str_ok((r->0).0@) && (r->0).1 == pos + num_width() + (r->0).0@.len()
            && s@.subrange(pos as int, (r->0).1 as int) == enc_str((r->0).0@),
    {
    proof {
        lemma_enc_str_parts();
    }
    let (len_u64, p2) = match decode_u64(s, pos) {
        Some(x) => x,
        None => {
            proof {
                assert forall|w: Seq<char>|
                    (str_ok(w) && pos + enc_str(w).len() <= s@.len() && s@.subrange(
                        pos as int,
                        pos as int + enc_str(w).len(),
                    ) == #[trigger] enc_str(w)) implies false by {
                    lemma_enc_str_matches(s@, pos as int, w);
                }
            }
            return None;
        },
    };
    if len_u64 > (s.len() - p2) as u64 {
        proof {
            assert forall|w: Seq<char>|
                (str_ok(w) && pos + enc_str(w).len() <= s@.len() && s@.subrange(
                    pos as int,
                    pos as int + enc_str(w).len(),
                ) == #[trigger] enc_str(w)) implies false by {
                lemma_enc_str_matches(s@, pos as int, w);
            }
        }
        return None;
    }
    let len = len_u64 as usize;
    let mut chars: Vec<char> = Vec::new();
    let mut j: usize = 0;
    while j < len
        invariant
            j <= len,
            p2 + len <= s@.len(),
            chars@ =~= s@.subrange(p2 as int, p2 as int + j as int),
        decreases len - j,
    {
        chars.push(s[p2 + j]);
        j = j + 1;
    }
    let text = crate::textops::chars_to_string(&chars);
    proof {
        assert(s@.subrange(pos as int, pos as int + 20) == enc_u64(text@.len() as int));
        assert(s@.subrange(pos as int, (p2 + len) as int) =~= enc_str(text@)) by {
            lemma_padded_digits_shape(text@.len() as nat, 20);
            assert forall|k: int|
                0 <= k < 20 + text@.len() implies s@.subrange(pos as int, (p2 + len) as int)[k]
                == enc_str(text@)[k] by {
                if k < 20 {
                    assert(s@.subrange(pos as int, pos as int + 20)[k] == s@[pos + k]);
                } else {
                    assert(text@[k - 20] == s@[p2 + (k - 20)]);
                }
            }
        }
        assert forall|w: Seq<char>|
            (str_ok(w) && pos + enc_str(w).len() <= s@.len() && s@.subrange(
                pos as int,
                pos as int + enc_str(w).len(),
            ) == #[trigger] enc_str(w)) implies (text@ == w && p2 + len == pos + enc_str(
            w,
        ).len()) by {
            lemma_enc_str_matches(s@, pos as int, w);
            assert(chars@ =~= w);
        }
    }
    Some((text, p2 + len))
}

/// Splitting an encoded string at `pos`: its length prefix stands first
/// and its characters right after.
proof fn lemma_enc_str_matches(s: Seq<char>, pos: int, w: Seq<char>)
    requires
        str_ok(w),
        0 <= pos,
        pos + enc_str(w).len() <= s.len(),
        s.subrange(pos, pos + enc_str(w).len()) == enc_str(w),
    ensures
        s.subrange(pos, pos + num_width()) == enc_u64(w.len() as int),
        s.subrange(pos + num_width(), pos + num_width() + w.len() as int) == w,
{
    lemma_u64_roundtrip(w.len() as u64);
    assert(enc_u64(w.len() as int).len() == num_width());
    let whole = s.subrange(pos, pos + enc_str(w).len());
    assert forall|k: int| 0 <= k < enc_str(w).len() implies s[pos + k] == enc_str(w)[k] by {
        assert(whole[k] == s[pos + k]);
    }
    assert(s.subrange(pos, pos + num_width()) =~= enc_u64(w.len() as int));
    assert forall|k: int| 0 <= k < w.len() implies s[pos + num_width() + k] == w[k] by {
        assert(enc_str(w)[num_width() + k] == w[k]);
        assert(s[pos + (num_width() + k)] == enc_str(w)[num_width() + k]);
    }
    assert(s.subrange(pos + num_width(), pos + num_width() + w.len() as int) =~= w);
}

proof fn lemma_enc_str_parts()
    ensures
        forall|w: Seq<char>| (#[trigger] enc_str(w)).len() == num_width() + w.len(),
{
    assert forall|w: Seq<char>| (#[trigger] enc_str(w)).len() == num_width() + w.len() by {
        lemma_padded_digits_shape(w.len() as nat, 20);
    }
}

/// Encoding of a game type: one tag character.
pub open spec fn enc_game_type(t: GameType) -> Seq<char> {
    match t {
        GameType::ReadingSpeed => seq!['R'],
        GameType::WordMemory => seq!['W'],
        GameType::TextComprehension => seq!['T'],
        GameType::INumbs => seq!['I'],
    }
}

/// Encoding of a difficulty tier: one tag character.
pub open spec fn enc_difficulty(d: Difficulty) -> Seq<char> {
    match d {
        Difficulty::Easy => seq!['E'],
        Difficulty::Medium => seq!['M'],
        Difficulty::Hard => seq!['H'],
    }
}

pub open spec fn enc_bool(b: bool) -> Seq<char> {
    if b {
        seq!['1']
    } else {
        seq!['0']
    }
}

pub fn push_game_type(out: &mut Vec<char>, t: GameType)
    ensures
        final(out)@ =~= old(out)@ + enc_game_type(t),
{
    match t {
        GameType::ReadingSpeed => out.push('R'),
        GameType::WordMemory => out.push('W'),
        GameType::TextComprehension => out.push('T'),
        GameType::INumbs => out.push('I'),
    }
}

pub fn push_difficulty(out: &mut Vec<char>, d: Difficulty)
    ensures
        final(out)@ =~= old(out)@ + enc_difficulty(d),
{
    match d {
        Difficulty::Easy => out.push('E'),
        Difficulty::Medium => out.push('M'),
        Difficulty::Hard => out.push('H'),
    }
}

pub fn push_bool(out: &mut Vec<char>, b: bool)
    ensures
        final(out)@ =~= old(out)@ + enc_bool(b),
{
    if b {
        out.push('1');
    } else {
        out.push('0');
    }
}

pub fn decode_game_type(s: &Vec<char>, pos: usize) -> (r: Option<(GameType, usize)>)
    ensures
        forall|t: GameType|
            (pos + 1 <= s@.len() && s@.subrange(pos as int, pos as int + 1)
                == #[trigger] enc_game_type(t)) ==> r == Some((t, (pos + 1) as usize)),
        r is Some ==> (r->0).1 == pos + 1 && pos + 1 <= s@.len(),
        r is Some ==> s@.subrange(pos as int, pos as int + 1) == enc_game_type((r->0).0),
{
    if pos >= s.len() {
        return None;
    }
    proof {
        assert forall|t: GameType|
            (pos + 1 <= s@.len() && s@.subrange(pos as int, pos as int + 1)
                == #[trigger] enc_game_type(t)) implies s@[pos as int] == enc_game_type(t)[0] by {
            assert(s@.subrange(pos as int, pos as int + 1)[0] == s@[pos as int]);
        }
        assert(s@.subrange(pos as int, pos as int + 1) =~= seq![s@[pos as int]]);
    }
    match s[pos] {
        'R' => Some((GameType::ReadingSpeed, pos + 1)),
        'W' => Some((GameType::WordMemory, pos + 1)),
        'T' => Some((GameType::TextComprehension, pos + 1)),
        'I' => Some((GameType::INumbs, pos + 1)),
        _ => None,
    }
}

pub fn decode_difficulty(s: &Vec<char>, pos: usize) -> (r: Option<(Difficulty, usize)>)
    ensures
        forall|d: Difficulty|
            (pos + 1 <= s@.len() && s@.subrange(pos as int, pos as int + 1)
                == #[trigger] enc_difficulty(d)) ==> r == Some((d, (pos + 1) as usize)),
        r is Some ==> (r->0).1 == pos + 1 && pos + 1 <= s@.len(),
        r is Some ==> s@.subrange(pos as int, pos as int + 1) == enc_difficulty((r->0).0),
{
    if pos >= s.len() {
        return None;
    }
    proof {
        assert forall|d: Difficulty|
            (pos + 1 <= s@.len() && s@.subrange(pos as int, pos as int + 1)
                == #[trigger] enc_difficulty(d)) implies s@[pos as int] == enc_difficulty(d)[0] by {
            assert(s@.subrange(pos as int, pos as int + 1)[0] == s@[pos as int]);
        }
        assert(s@.subrange(pos as int, pos as int + 1) =~= seq![s@[pos as int]]);
    }
    match s[pos] {
        'E' => Some((Difficulty::Easy, pos + 1)),
        'M' => Some((Difficulty::Medium, pos + 1)),
        'H' => Some((Difficulty::Hard, pos + 1)),
        _ => None,
    }
}

pub fn decode_bool(s: &Vec<char>, pos: usize) -> (r: Option<(bool, usize)>)
    ensures
        forall|b: bool|
            (pos + 1 <= s@.len() && s@.subrange(pos as int, pos as int + 1)
                == #[trigger] enc_bool(b)) ==> r == Some((b, (pos + 1) as usize)),
        r is Some ==> (r->0).1 == pos + 1 && pos + 1 <= s@.len(),
        r is Some ==> s@.subrange(pos as int, pos as int + 1) == enc_bool((r->0).0),
{
    if pos >= s.len() {
        return None;
    }
    proof {
        assert forall|b: bool|
            (pos + 1 <= s@.len() && s@.subrange(pos as int, pos as int + 1)
                == #[trigger] enc_bool(b)) implies s@[pos as int] == enc_bool(b)[0] by {
            assert(s@.subrange(pos as int, pos as int + 1)[0] == s@[pos as int]);
        }
        assert(s@.subrange(pos as int, pos as int + 1) =~= seq![s@[pos as int]]);
    }
    match s[pos] {
        '1' => Some((true, pos + 1)),
        '0' => Some((false, pos + 1)),
        _ => None,
    }
}

/// Encoding of one game configuration.
pub open spec fn enc_config(c: GameConfig) -> Seq<char> {
    enc_difficulty(c.difficulty) + enc_u64(c.duration_ms as int) + enc_u64(c.word_count as int)
        + enc_bool(c.fill_boxes)
}

/// Splitting an encoded configuration into its fields.
proof fn lemma_enc_config_parts(s: Seq<char>, pos: int, c: GameConfig)
    requires
        0 <= pos,
        pos + enc_config(c).len() <= s.len(),
        s.subrange(pos, pos + enc_config(c).len()) == enc_config(c),
    ensures
        enc_config(c).len() == 42,
        s.subrange(pos, pos + 1) == enc_difficulty(c.difficulty),
        s.subrange(pos + 1, pos + 21) == enc_u64(c.duration_ms as int),
        s.subrange(pos + 21, pos + 41) == enc_u64(c.word_count as int),
        s.subrange(pos + 41, pos + 42) == enc_bool(c.fill_boxes),
{
    lemma_padded_digits_shape(c.duration_ms as nat, 20);
    lemma_padded_digits_shape(c.word_count as nat, 20);
    let e = enc_config(c);
    let whole = s.subrange(pos, pos + e.len());
    let a = enc_difficulty(c.difficulty);
    let b = enc_u64(c.duration_ms as int);
    let cc = enc_u64(c.word_count as int);
    let dd = enc_bool(c.fill_boxes);
    let ab = a + b;
    let abc = ab + cc;
    assert(s.subrange(pos, pos + 1) =~= a) by {
        assert(whole[0] == s[pos]);
    }
    assert(s.subrange(pos + 1, pos + 21) =~= b) by {
        assert forall|j: int| 0 <= j < 20 implies s.subrange(pos + 1, pos + 21)[j] == b[j] by {
            assert(whole[1 + j] == s[pos + 1 + j]);
            assert(e[1 + j] == abc[1 + j]);
            assert(abc[1 + j] == ab[1 + j]);
            assert(ab[1 + j] == b[j]);
        }
    }
    assert(s.subrange(pos + 21, pos + 41) =~= cc) by {
        assert forall|j: int| 0 <= j < 20 implies s.subrange(pos + 21, pos + 41)[j] == cc[j] by {
            assert(whole[21 + j] == s[pos + 21 + j]);
            assert(e[21 + j] == abc[21 + j]);
            assert(abc[21 + j] == cc[j]);
        }
    }
    assert(s.subrange(pos + 41, pos + 42) =~= dd) by {
        assert(whole[41] == s[pos + 41]);
        assert(e[41] == dd[0]);
    }
}

pub fn push_config(out: &mut Vec<char>, c: &GameConfig)
    ensures
        final(out)@ =~= old(out)@ + enc_config(*c),
{
    push_difficulty(out, c.difficulty);
    push_u64(out, c.duration_ms);
    push_u64(out, c.word_count as u64);
    push_bool(out, c.fill_boxes);
}

pub fn decode_config(s: &Vec<char>, pos: usize) -> (r: Option<(GameConfig, usize)>)
    ensures
        forall|c: GameConfig|
            (pos + enc_config(c).len() <= s@.len() && s@.subrange(
                pos as int,
                pos as int + enc_config(c).len(),
            ) == #[trigger] enc_config(c)) ==> (r is Some && (r->0).0 == c && (r->0).1 == pos
                + enc_config(c).len()),
        r is Some ==> pos <= (r->0).1 <= s@.len(),
        r is Some ==> (r->0).1 == pos + 42 && s@.subrange(pos as int, (r->0).1 as int)
            == enc_config((r->0).0),
{
    let d_res = decode_difficulty(s, pos);
    let (d, p1) = match d_res {
        Some(x) => x,
        None => {
            proof {
                config_hyp_vacuous(s@, pos as int);
            }
            return None;
        },
    };
    let (dur, p2) = match decode_u64(s, p1) {
        Some(x) => x,
        None => {
            proof {
                config_hyp_vacuous(s@, pos as int);
            }
            return None;
        },
    };
    let (wc, p3) = match decode_u64(s, p2) {
        Some(x) => x,
        None => {
            proof {
                config_hyp_vacuous(s@, pos as int);
            }
            return None;
        },
    };
    if wc > usize::MAX as u64 {
        proof {
            config_hyp_vacuous(s@, pos as int);
        }
        return None;
    }
    let (fill, p4) = match decode_bool(s, p3) {
        Some(x) => x,
        None => {
            proof {
                config_hyp_vacuous(s@, pos as int);
            }
            return None;
        },
    };
    proof {
        assert forall|c: GameConfig|
            (pos + enc_config(c).len() <= s@.len() && s@.subrange(
                pos as int,
                pos as int + enc_config(c).len(),
            ) == #[trigger] enc_config(c)) implies (d == c.difficulty && dur == c.duration_ms && wc
            == c.word_count && fill == c.fill_boxes && p4 == pos + enc_config(c).len()) by {
            lemma_enc_config_parts(s@, pos as int, c);
        }
        let built = GameConfig {
            difficulty: d,
            duration_ms: dur,
            word_count: wc as usize,
            fill_boxes: fill,
        };
        lemma_padded_digits_shape(dur as nat, 20);
        lemma_padded_digits_shape(built.word_count as nat, 20);
        assert(s@.subrange(pos as int, p4 as int) =~= enc_config(built)) by {
            assert forall|j: int| 0 <= j < 42 implies s@.subrange(pos as int, p4 as int)[j]
                == enc_config(built)[j] by {
                if j == 0 {
                    assert(s@.subrange(pos as int, (pos + 1) as int)[0] == s@[pos as int]);
                } else if j < 21 {
                    assert(s@.subrange(p1 as int, (p1 + 20) as int)[j - 1] == s@[pos + j]);
                } else if j < 41 {
                    assert(s@.subrange(p2 as int, (p2 + 20) as int)[j - 21] == s@[pos + j]);
                } else {
                    assert(s@.subrange(p3 as int, (p3 + 1) as int)[0] == s@[pos + 41]);
                }
            }
        }
    }
    Some((GameConfig { difficulty: d, duration_ms: dur, word_count: wc as usize, fill_boxes: fill }, p4))
}

/// Under the hypothesis that an encoded configuration stands at `pos`,
/// every field decoder must have succeeded; used to discharge the
/// failure exits.
proof fn config_hyp_vacuous(s: Seq<char>, pos: int)
    requires
        pos >= 0,
    ensures
        forall|c: GameConfig|
            (pos + enc_config(c).len() <= s.len() && s.subrange(pos, pos + enc_config(c).len())
                == #[trigger] enc_config(c)) ==> (s.subrange(pos, pos + 1) == enc_difficulty(
                c.difficulty,
            ) && s.subrange(pos + 1, pos + 21) == enc_u64(c.duration_ms as int) && s.subrange(
                pos + 21,
                pos + 41,
            ) == enc_u64(c.word_count as int) && s.subrange(pos + 41, pos + 42) == enc_bool(
                c.fill_boxes,
            ) && enc_config(c).len() == 42),
{
    assert forall|c: GameConfig|
        (pos >= 0 && pos + enc_config(c).len() <= s.len() && s.subrange(
            pos,
            pos + enc_config(c).len(),
        ) == #[trigger] enc_config(c)) implies (s.subrange(pos, pos + 1) == enc_difficulty(
        c.difficulty,
    ) && s.subrange(pos + 1, pos + 21) == enc_u64(c.duration_ms as int) && s.subrange(
        pos + 21,
        pos + 41,
    ) == enc_u64(c.word_count as int) && s.subrange(pos + 41, pos + 42) == enc_bool(c.fill_boxes)
        && enc_config(c).len() == 42) by {
        lemma_enc_config_parts(s, pos, c);
    }
}

/// Encoding of a list of strings, in order.
pub open spec fn enc_words(ws: Seq<Seq<char>>) -> Seq<char>
    decreases ws.len(),
{
    if ws.len() == 0 {
        Seq::empty()
    } else {
        enc_words(ws.drop_last()) + enc_str(ws.last())
    }
}

/// A word list the encoding can carry.
pub open spec fn words_ok(ws: Seq<Seq<char>>) -> bool {
    ws.len() <= usize::MAX && (forall|i: int| 0 <= i < ws.len() ==> str_ok(#[trigger] ws[i]))
}

/// The encoding of a prefix of a word list is a prefix of the whole
/// list's encoding.
proof fn lemma_enc_words_prefix(ws: Seq<Seq<char>>, m: int)
    requires
        0 <= m <= ws.len(),
    ensures
        enc_words(ws.subrange(0, m)).len() <= enc_words(ws).len(),
        enc_words(ws.subrange(0, m)) == enc_words(ws).subrange(
            0,
            enc_words(ws.subrange(0, m)).len() as int,
        ),
    decreases ws.len() - m,
{
    if m == ws.len() {
        assert(ws.subrange(0, m) =~= ws);
        assert(enc_words(ws).subrange(0, enc_words(ws).len() as int) =~= enc_words(ws));
    } else {
        lemma_enc_words_prefix(ws, m + 1);
        let a = ws.subrange(0, m);
        let b = ws.subrange(0, m + 1);
        assert(b.drop_last() =~= a);
        assert(b.last() == ws[m]);
        assert(enc_words(b) == enc_words(a) + enc_str(ws[m]));
        assert(enc_words(a) =~= enc_words(b).subrange(0, enc_words(a).len() as int));
        assert(enc_words(a) =~= enc_words(ws).subrange(0, enc_words(a).len() as int));
    }
}

/// One step of the word-list encoding.
proof fn lemma_enc_words_step(ws: Seq<Seq<char>>, m: int)
    requires
        0 <= m < ws.len(),
    ensures
        enc_words(ws.subrange(0, m + 1)) == enc_words(ws.subrange(0, m)) + enc_str(ws[m]),
{
    let a = ws.subrange(0, m);
    let b = ws.subrange(0, m + 1);
    assert(b.drop_last() =~= a);
    assert(b.last() == ws[m]);
}

/// Append the encoding of every word, in order.
#[verifier::loop_isolation(false)]
pub fn push_words(out: &mut Vec<char>, words: &Vec<String>)
    ensures
        final(out)@ =~= old(out)@ + enc_words(words@.map_values(|t: String| t@)),
        words_ok(words@.map_values(|t: String| t@)),
{
    let ghost ws = words@.map_values(|t: String| t@);
    let mut k: usize = 0;
    proof {
        assert(out@ =~= old(out)@ + enc_words(ws.subrange(0, 0)));
    }
    while k < words.len()
        invariant
            k <= words@.len(),
            ws == words@.map_values(|t: String| t@),
            out@ =~= old(out)@ + enc_words(ws.subrange(0, k as int)),
            forall|j: int| 0 <= j < k ==> str_ok(#[trigger] ws[j]),
        decreases words@.len() - k,
    {
        push_str_chars(out, &words[k]);
        proof {
            lemma_enc_words_step(ws, k as int);
        }
        k = k + 1;
    }
    proof {
        assert(ws.subrange(0, words@.len() as int) =~= ws);
    }
}

/// Read `count` length-prefixed strings. Whenever the slice at `pos` is
/// the encoding of a list of `count` words, the result is exactly those
/// words and the position right after them.
#[verifier::loop_isolation(false)]
pub fn decode_words(s: &Vec<char>, pos: usize, count: usize) -> (r: Option<(Vec<String>, usize)>)
    ensures
        forall|ws: Seq<Seq<char>>|
            (words_ok(ws) && ws.len() == count && pos + enc_words(ws).len() <= s@.len()
                && s@.subrange(pos as int, pos as int + enc_words(ws).len())
                == #[trigger] enc_words(ws)) ==> (r is Some && (r->0).0@.map_values(|t: String| t@)
                == ws && (r->0).1 == pos + enc_words(ws).len()),
        r is Some ==> pos <= (r->0).1 <= s@.len(),
        r is Some ==> ({
            let views = (r->0).0@.map_values(|t: String| t@);
            &&& words_ok(views)
            &&& views.len() == count
            &&& s@.subrange(pos as int, (r->0).1 as int) == enc_words(views)
        }),
{
    if pos > s.len() {
        proof {
            assert forall|ws: Seq<Seq<char>>|
                (words_ok(ws) && ws.len() == count && pos + enc_words(ws).len() <= s@.len()
                    && s@.subrange(pos as int, pos as int + enc_words(ws).len())
                    == #[trigger] enc_words(ws)) implies false by {}
        }
        return None;
    }
    let mut out: Vec<String> = Vec::new();
    let mut p: usize = pos;
    let mut k: usize = 0;
    proof {
        assert forall|ws: Seq<Seq<char>>|
            (words_ok(ws) && ws.len() == count && pos + enc_words(ws).len() <= s@.len()
                && s@.subrange(pos as int, pos as int + enc_words(ws).len())
                == #[trigger] enc_words(ws)) implies (p == pos + enc_words(
            ws.subrange(0, 0),
        ).len() && out@.map_values(|t: String| t@) =~= ws.subrange(0, 0)) by {}
        assert(out@.map_values(|t: String| t@) =~= Seq::<Seq<char>>::empty());
        assert(s@.subrange(pos as int, p as int) =~= Seq::<char>::empty());
    }
    while k < count
        invariant
            k <= count,
            pos <= p <= s@.len(),
            out@.len() == k,
            words_ok(out@.map_values(|t: String| t@)),
            s@.subrange(pos as int, p as int) == enc_words(out@.map_values(|t: String| t@)),
            forall|ws: Seq<Seq<char>>|
                (words_ok(ws) && ws.len() == count && pos + enc_words(ws).len() <= s@.len()
                    && s@.subrange(pos as int, pos as int + enc_words(ws).len())
                    == #[trigger] enc_words(ws)) ==> (p == pos + enc_words(
                    ws.subrange(0, k as int),
                ).len() && out@.map_values(|t: String| t@) =~= ws.subrange(0, k as int)),
        decreases count - k,
    {
        let step = decode_str(s, p);
        proof {
            assert forall|ws: Seq<Seq<char>>|
                (words_ok(ws) && ws.len() == count && pos + enc_words(ws).len() <= s@.len()
                    && s@.subrange(pos as int, pos as int + enc_words(ws).len())
                    == #[trigger] enc_words(ws)) implies (str_ok(ws[k as int]) && p + enc_str(
                ws[k as int],
            ).len() <= s@.len() && s@.subrange(
                p as int,
                p as int + enc_str(ws[k as int]).len(),
            ) == enc_str(ws[k as int])) by {
                lemma_words_slice(s@, pos as int, ws, k as int, p as int);
            }
        }
        match step {
            Some((w, p2)) => {
                let ghost old_views = out@.map_values(|t: String| t@);
                out.push(w);
                proof {
                    let views = out@.map_values(|t: String| t@);
                    assert(views =~= old_views.push(w@));
                    assert(views.drop_last() =~= old_views);
                    assert(enc_words(views) == enc_words(old_views) + enc_str(w@));
                    assert(s@.subrange(pos as int, p2 as int) =~= enc_words(views)) by {
                        assert forall|j: int|
                            0 <= j < p2 - pos implies s@.subrange(pos as int, p2 as int)[j]
                            == enc_words(views)[j] by {
                            if j < p - pos {
                                assert(s@.subrange(pos as int, p as int)[j] == s@[pos + j]);
                            } else {
                                assert(s@.subrange(p as int, p2 as int)[j - (p - pos)] == s@[pos
                                    + j]);
                            }
                        }
                    }
                    assert forall|ws: Seq<Seq<char>>|
                        (words_ok(ws) && ws.len() == count && pos + enc_words(ws).len() <= s@.len()
                            && s@.subrange(pos as int, pos as int + enc_words(ws).len())
                            == #[trigger] enc_words(ws)) implies (p2 == pos + enc_words(
                        ws.subrange(0, k + 1 as int),
                    ).len() && out@.map_values(|t: String| t@) =~= ws.subrange(
                        0,
                        k + 1 as int,
                    )) by {
                        lemma_words_slice(s@, pos as int, ws, k as int, p as int);
                        lemma_enc_words_step(ws, k as int);
                        assert(w@ == ws[k as int]);
                    }
                }
                p = p2;
            },
            None => {
                proof {
                    assert forall|ws: Seq<Seq<char>>|
                        (words_ok(ws) && ws.len() == count && pos + enc_words(ws).len() <= s@.len()
                            && s@.subrange(pos as int, pos as int + enc_words(ws).len())
                            == #[trigger] enc_words(ws)) implies false by {
                        lemma_words_slice(s@, pos as int, ws, k as int, p as int);
                    }
                }
                return None;
            },
        }
        k = k + 1;
    }
    proof {
        assert forall|ws: Seq<Seq<char>>|
            (words_ok(ws) && ws.len() == count && pos + enc_words(ws).len() <= s@.len()
                && s@.subrange(pos as int, pos as int + enc_words(ws).len())
                == #[trigger] enc_words(ws)) implies (p == pos + enc_words(ws).len()
            && out@.map_values(|t: String| t@) == ws) by {
            assert(ws.subrange(0, count as int) =~= ws);
            assert(out@.map_values(|t: String| t@) =~= ws);
        }
    }
    Some((out, p))
}

/// Where the `k`-th word's encoding stands inside the list's encoding,
/// given that the list's encoding stands at `pos` and the first `k` words
/// take the document up to `p`.
proof fn lemma_words_slice(s: Seq<char>, pos: int, ws: Seq<Seq<char>>, k: int, p: int)
    requires
        0 <= pos,
        0 <= k < ws.len(),
        pos + enc_words(ws).len() <= s.len(),
        s.subrange(pos, pos + enc_words(ws).len()) == enc_words(ws),
        p == pos + enc_words(ws.subrange(0, k)).len(),
    ensures
        p + enc_str(ws[k]).len() <= s.len(),
        s.subrange(p, p + enc_str(ws[k]).len()) == enc_str(ws[k]),
        p + enc_str(ws[k]).len() == pos + enc_words(ws.subrange(0, k + 1)).len(),
{
    lemma_enc_words_prefix(ws, k);
    lemma_enc_words_prefix(ws, k + 1);
    lemma_enc_words_step(ws, k);
    let lk = enc_words(ws.subrange(0, k)).len() as int;
    let e = enc_str(ws[k]);
    let lk1 = enc_words(ws.subrange(0, k + 1)).len() as int;
    assert(lk1 == lk + e.len());
    assert(lk1 <= enc_words(ws).len());
    assert forall|j: int| 0 <= j < e.len() implies s.subrange(p, p + e.len())[j] == e[j] by {
        assert(s.subrange(pos, pos + enc_words(ws).len())[lk + j] == s[pos + lk + j]);
        assert(enc_words(ws)[lk + j] == enc_words(ws).subrange(0, lk1)[lk + j]);
        assert(enc_words(ws).subrange(0, lk1) == enc_words(ws.subrange(0, k + 1)));
        assert(enc_words(ws.subrange(0, k + 1))[lk + j] == e[j]);
        assert(s.subrange(p, p + e.len())[j] == s[p + j]);
    }
    assert(s.subrange(p, p + e.len()) =~= e);
}

/// Encoding of a details payload: a variant tag, then its fields.
pub open spec fn enc_details(dm: DetailsModel) -> Seq<char> {
    match dm {
        DetailsModel::ReadingSpeed { words_correct, total_words, time_taken_ms } => {
            seq!['r'] + enc_u64(words_correct) + enc_u64(total_words) + enc_u64(time_taken_ms)
        },
        DetailsModel::WordMemory { words_correct, original_words } => {
            seq!['w'] + enc_u64(words_correct) + enc_u64(original_words.len() as int) + enc_words(
                original_words,
            )
        },
        DetailsModel::TextComprehension { questions_correct, total_questions } => {
            seq!['t'] + enc_u64(questions_correct) + enc_u64(total_questions)
        },
        DetailsModel::INumbs { correct, total, time_taken_ms } => {
            seq!['i'] + enc_u64(correct) + enc_u64(total) + enc_u64(time_taken_ms)
        },
    }
}

/// A details payload the encoding can carry: counts fit the machine, and
/// times fit the encoded width.
pub open spec fn details_ok(dm: DetailsModel) -> bool {
    match dm {
        DetailsModel::ReadingSpeed { words_correct, total_words, time_taken_ms } => {
            &&& 0 <= words_correct <= usize::MAX
            &&& 0 <= total_words <= usize::MAX
            &&& 0 <= time_taken_ms <= u64::MAX
        },
        DetailsModel::WordMemory { words_correct, original_words } => {
            &&& 0 <= words_correct <= usize::MAX
            &&& words_ok(original_words)
        },
        DetailsModel::TextComprehension { questions_correct, total_questions } => {
            &&& 0 <= questions_correct <= usize::MAX
            &&& 0 <= total_questions <= usize::MAX
        },
        DetailsModel::INumbs { correct, total, time_taken_ms } => {
            &&& 0 <= correct <= usize::MAX
            &&& 0 <= total <= usize::MAX
            &&& 0 <= time_taken_ms <= u64::MAX
        },
    }
}

/// Hypothesis that an encoded details payload with model `dm` stands at
/// `pos`.
pub open spec fn details_at(s: Seq<char>, pos: int, dm: DetailsModel) -> bool {
    &&& details_ok(dm)
    &&& pos + enc_details(dm).len() <= s.len()
    &&& s.subrange(pos, pos + enc_details(dm).len()) == enc_details(dm)
}

/// Where the fields of an encoded details payload stand.
proof fn lemma_details_parts(s: Seq<char>, pos: int, dm: DetailsModel)
    requires
        0 <= pos,
        details_at(s, pos, dm),
    ensures
        ({
            match dm {
                DetailsModel::ReadingSpeed { words_correct, total_words, time_taken_ms } => {
                    &&& enc_details(dm).len() == 61
                    &&& s.subrange(pos, pos + 1) == seq!['r']
                    &&& s.subrange(pos + 1, pos + 21) == enc_u64(words_correct)
                    &&& s.subrange(pos + 21, pos + 41) == enc_u64(total_words)
                    &&& s.subrange(pos + 41, pos + 61) == enc_u64(time_taken_ms)
                },
                DetailsModel::WordMemory { words_correct, original_words } => {
                    &&& enc_details(dm).len() == 41 + enc_words(original_words).len()
                    &&& s.subrange(pos, pos + 1) == seq!['w']
                    &&& s.subrange(pos + 1, pos + 21) == enc_u64(words_correct)
                    &&& s.subrange(pos + 21, pos + 41) == enc_u64(original_words.len() as int)
                    &&& s.subrange(pos + 41, pos + 41 + enc_words(original_words).len())
                        == enc_words(original_words)
                },
                DetailsModel::TextComprehension { questions_correct, total_questions } => {
                    &&& enc_details(dm).len() == 41
                    &&& s.subrange(pos, pos + 1) == seq!['t']
                    &&& s.subrange(pos + 1, pos + 21) == enc_u64(questions_correct)
                    &&& s.subrange(pos + 21, pos + 41) == enc_u64(total_questions)
                },
                DetailsModel::INumbs { correct, total, time_taken_ms } => {
                    &&& enc_details(dm).len() == 61
                    &&& s.subrange(pos, pos + 1) == seq!['i']
                    &&& s.subrange(pos + 1, pos + 21) == enc_u64(correct)
                    &&& s.subrange(pos + 21, pos + 41) == enc_u64(total)
                    &&& s.subrange(pos + 41, pos + 61) == enc_u64(time_taken_ms)
                },
            }
        }),
{
    let e = enc_details(dm);
    let whole = s.subrange(pos, pos + e.len());
    match dm {
        DetailsModel::ReadingSpeed { words_correct, total_words, time_taken_ms } => {
            lemma_padded_digits_shape(words_correct as nat, 20);
            lemma_padded_digits_shape(total_words as nat, 20);
            lemma_padded_digits_shape(time_taken_ms as nat, 20);
            let a = seq!['r'];
            let b = enc_u64(words_correct);
            let c = enc_u64(total_words);
            let d = enc_u64(time_taken_ms);
            let ab = a + b;
            let abc = ab + c;
            assert(s.subrange(pos, pos + 1) =~= a) by {
                assert(whole[0] == s[pos]);
            }
            assert(s.subrange(pos + 1, pos + 21) =~= b) by {
                assert forall|j: int| 0 <= j < 20 implies s.subrange(pos + 1, pos + 21)[j]
                    == b[j] by {
                    assert(whole[1 + j] == s[pos + 1 + j]);
                    assert(e[1 + j] == abc[1 + j]);
                    assert(abc[1 + j] == ab[1 + j]);
                    assert(ab[1 + j] == b[j]);
                }
            }
            assert(s.subrange(pos + 21, pos + 41) =~= c) by {
                assert forall|j: int| 0 <= j < 20 implies s.subrange(pos + 21, pos + 41)[j]
                    == c[j] by {
                    assert(whole[21 + j] == s[pos + 21 + j]);
                    assert(e[21 + j] == abc[21 + j]);
                    assert(abc[21 + j] == c[j]);
                }
            }
            assert(s.subrange(pos + 41, pos + 61) =~= d) by {
                assert forall|j: int| 0 <= j < 20 implies s.subrange(pos + 41, pos + 61)[j]
                    == d[j] by {
                    assert(whole[41 + j] == s[pos + 41 + j]);
                    assert(e[41 + j] == d[j]);
                }
            }
        },
        DetailsModel::WordMemory { words_correct, original_words } => {
            lemma_padded_digits_shape(words_correct as nat, 20);
            lemma_padded_digits_shape(original_words.len() as nat, 20);
            let a = seq!['w'];
            let b = enc_u64(words_correct);
            let c = enc_u64(original_words.len() as int);
            let d = enc_words(original_words);
            let ab = a + b;
            let abc = ab + c;
            assert(s.subrange(pos, pos + 1) =~= a) by {
                assert(whole[0] == s[pos]);
            }
            assert(s.subrange(pos + 1, pos + 21) =~= b) by {
                assert forall|j: int| 0 <= j < 20 implies s.subrange(pos + 1, pos + 21)[j]
                    == b[j] by {
                    assert(whole[1 + j] == s[pos + 1 + j]);
                    assert(e[1 + j] == abc[1 + j]);
                    assert(abc[1 + j] == ab[1 + j]);
                    assert(ab[1 + j] == b[j]);
                }
            }
            assert(s.subrange(pos + 21, pos + 41) =~= c) by {
                assert forall|j: int| 0 <= j < 20 implies s.subrange(pos + 21, pos + 41)[j]
                    == c[j] by {
                    assert(whole[21 + j] == s[pos + 21 + j]);
                    assert(e[21 + j] == abc[21 + j]);
                    assert(abc[21 + j] == c[j]);
                }
            }
            assert(s.subrange(pos + 41, pos + 41 + d.len()) =~= d) by {
                assert forall|j: int| 0 <= j < d.len() implies s.subrange(
                    pos + 41,
                    pos + 41 + d.len(),
                )[j] == d[j] by {
                    assert(whole[41 + j] == s[pos + 41 + j]);
                    assert(e[41 + j] == d[j]);
                }
            }
        },
        DetailsModel::TextComprehension { questions_correct, total_questions } => {
            lemma_padded_digits_shape(questions_correct as nat, 20);
            lemma_padded_digits_shape(total_questions as nat, 20);
            let a = seq!['t'];
            let b = enc_u64(questions_correct);
            let c = enc_u64(total_questions);
            let ab = a + b;
            assert(s.subrange(pos, pos + 1) =~= a) by {
                assert(whole[0] == s[pos]);
            }
            assert(s.subrange(pos + 1, pos + 21) =~= b) by {
                assert forall|j: int| 0 <= j < 20 implies s.subrange(pos + 1, pos + 21)[j]
                    == b[j] by {
                    assert(whole[1 + j] == s[pos + 1 + j]);
                    assert(e[1 + j] == ab[1 + j]);
                    assert(ab[1 + j] == b[j]);
                }
            }
            assert(s.subrange(pos + 21, pos + 41) =~= c) by {
                assert forall|j: int| 0 <= j < 20 implies s.subrange(pos + 21, pos + 41)[j]
                    == c[j] by {
                    assert(whole[21 + j] == s[pos + 21 + j]);
                    assert(e[21 + j] == c[j]);
                }
            }
        },
        DetailsModel::INumbs { correct, total, time_taken_ms } => {
            lemma_padded_digits_shape(correct as nat, 20);
            lemma_padded_digits_shape(total as nat, 20);
            lemma_padded_digits_shape(time_taken_ms as nat, 20);
            let a = seq!['i'];
            let b = enc_u64(correct);
            let c = enc_u64(total);
            let d = enc_u64(time_taken_ms);
            let ab = a + b;
            let abc = ab + c;
            assert(s.subrange(pos, pos + 1) =~= a) by {
                assert(whole[0] == s[pos]);
            }
            assert(s.subrange(pos + 1, pos + 21) =~= b) by {
                assert forall|j: int| 0 <= j < 20 implies s.subrange(pos + 1, pos + 21)[j]
                    == b[j] by {
                    assert(whole[1 + j] == s[pos + 1 + j]);
                    assert(e[1 + j] == abc[1 + j]);
                    assert(abc[1 + j] == ab[1 + j]);
                    assert(ab[1 + j] == b[j]);
                }
            }
            assert(s.subrange(pos + 21, pos + 41) =~= c) by {
                assert forall|j: int| 0 <= j < 20 implies s.subrange(pos + 21, pos + 41)[j]
                    == c[j] by {
                    assert(whole[21 + j] == s[pos + 21 + j]);
                    assert(e[21 + j] == abc[21 + j]);
                    assert(abc[21 + j] == c[j]);
                }
            }
            assert(s.subrange(pos + 41, pos + 61) =~= d) by {
                assert forall|j: int| 0 <= j < 20 implies s.subrange(pos + 41, pos + 61)[j]
                    == d[j] by {
                    assert(whole[41 + j] == s[pos + 41 + j]);
                    assert(e[41 + j] == d[j]);
                }
            }
        },
    }
}

/// Append the encoding of one details payload.
pub fn push_details(out: &mut Vec<char>, d: &GameDetails)
    ensures
        final(out)@ =~= old(out)@ + enc_details(details_model(*d)),
        details_ok(details_model(*d)),
{
    match d {
        GameDetails::ReadingSpeed { words_correct, total_words, time_taken_ms } => {
            out.push('r');
            push_u64(out, *words_correct as u64);
            push_u64(out, *total_words as u64);
            push_u64(out, *time_taken_ms);
        },
        GameDetails::WordMemory { words_correct, original_words } => {
            out.push('w');
            push_u64(out, *words_correct as u64);
            push_u64(out, original_words.len() as u64);
            push_words(out, original_words);
        },
        GameDetails::TextComprehension { questions_correct, total_questions } => {
            out.push('t');
            push_u64(out, *questions_correct as u64);
            push_u64(out, *total_questions as u64);
        },
        GameDetails::INumbs { correct, total, time_taken_ms } => {
            out.push('i');
            push_u64(out, *correct as u64);
            push_u64(out, *total as u64);
            push_u64(out, *time_taken_ms);
        },
    }
}

/// Read one details payload. Whenever the slice at `pos` is the encoding
/// of a payload with model `dm`, the result decodes to exactly `dm`.
pub fn decode_details(s: &Vec<char>, pos: usize) -> (r: Option<(GameDetails, usize)>)
    ensures
        forall|dm: DetailsModel|
            #[trigger] details_at(s@, pos as int, dm) ==> (r is Some && details_model((r->0).0)
                == dm && (r->0).1 == pos + enc_details(dm).len()),
        r is Some ==> pos <= (r->0).1 <= s@.len(),
        r is Some ==> ({
            let built = details_model((r->0).0);
            &&& details_ok(built)
            &&& s@.subrange(pos as int, (r->0).1 as int) == enc_details(built)
        }),
{
    if pos >= s.len() {
        proof {
            assert forall|dm: DetailsModel| #[trigger] details_at(s@, pos as int, dm) implies false by {
                lemma_details_parts(s@, pos as int, dm);
            }
        }
        return None;
    }
    proof {
        assert forall|dm: DetailsModel| #[trigger] details_at(s@, pos as int, dm) implies s@[pos as int]
            == enc_details(dm)[0] by {
            lemma_details_parts(s@, pos as int, dm);
            assert(s@.subrange(pos as int, pos as int + 1)[0] == s@[pos as int]);
        }
    }
    let tag = s[pos];
    match tag {
        'r' => {
            let (wc, p1) = match decode_u64(s, pos + 1) {
                Some(x) => x,
                None => {
                    proof {
                        details_hyp_vacuous(s@, pos as int);
                    }
                    return None;
                },
            };
            let (tw, p2) = match decode_u64(s, p1) {
                Some(x) => x,
                None => {
                    proof {
                        details_hyp_vacuous(s@, pos as int);
                    }
                    return None;
                },
            };
            let (tt, p3) = match decode_u64(s, p2) {
                Some(x) => x,
                None => {
                    proof {
                        details_hyp_vacuous(s@, pos as int);
                    }
                    return None;
                },
            };
            if wc > usize::MAX as u64 || tw > usize::MAX as u64 {
                proof {
                    details_hyp_vacuous(s@, pos as int);
                }
                return None;
            }
            proof {
                details_hyp_vacuous(s@, pos as int);
                let built = details_model(
                    GameDetails::ReadingSpeed {
                        words_correct: wc as usize,
                        total_words: tw as usize,
                        time_taken_ms: tt,
                    },
                );
                lemma_padded_digits_shape(wc as nat, 20);
                lemma_padded_digits_shape(tw as nat, 20);
                lemma_padded_digits_shape(tt as nat, 20);
                assert(s@.subrange(pos as int, p3 as int) =~= enc_details(built)) by {
                    assert forall|j: int| 0 <= j < 61 implies s@.subrange(pos as int, p3 as int)[j]
                        == enc_details(built)[j] by {
                        if j == 0 {
                        } else if j < 21 {
                            assert(s@.subrange((pos + 1) as int, p1 as int)[j - 1] == s@[pos + j]);
                        } else if j < 41 {
                            assert(s@.subrange(p1 as int, p2 as int)[j - 21] == s@[pos + j]);
                        } else {
                            assert(s@.subrange(p2 as int, p3 as int)[j - 41] == s@[pos + j]);
                        }
                    }
                }
            }
            Some(
                (
                    GameDetails::ReadingSpeed {
                        words_correct: wc as usize,
                        total_words: tw as usize,
                        time_taken_ms: tt,
                    },
                    p3,
                ),
            )
        },
        'w' => {
            let (wc, p1) = match decode_u64(s, pos + 1) {
                Some(x) => x,
                None => {
                    proof {
                        details_hyp_vacuous(s@, pos as int);
                    }
                    return None;
                },
            };
            let (cnt, p2) = match decode_u64(s, p1) {
                Some(x) => x,
                None => {
                    proof {
                        details_hyp_vacuous(s@, pos as int);
                    }
                    return None;
                },
            };
            if wc > usize::MAX as u64 || cnt > usize::MAX as u64 {
                proof {
                    details_hyp_vacuous(s@, pos as int);
                }
                return None;
            }
            let words = match decode_words(s, p2, cnt as usize) {
                Some(x) => x,
                None => {
                    proof {
                        details_hyp_vacuous(s@, pos as int);
                    }
                    return None;
                },
            };
            let (ws, p3) = words;
            proof {
                details_hyp_vacuous(s@, pos as int);
                assert forall|dm: DetailsModel|
                    #[trigger] details_at(s@, pos as int, dm) implies (details_model(
                    GameDetails::WordMemory {
                        words_correct: wc as usize,
                        original_words: ws,
                    },
                ) == dm && p3 == pos + enc_details(dm).len()) by {
                    match dm {
                        DetailsModel::WordMemory { words_correct, original_words } => {
                            assert(ws@.map_values(|t: String| t@) == original_words);
                        },
                        _ => {},
                    }
                }
                let views = ws@.map_values(|t: String| t@);
                let built = details_model(
                    GameDetails::WordMemory { words_correct: wc as usize, original_words: ws },
                );
                lemma_padded_digits_shape(wc as nat, 20);
                lemma_padded_digits_shape(views.len() as nat, 20);
                assert(s@.subrange(p2 as int, p3 as int) == enc_words(views));
                assert(s@.subrange(pos as int, p3 as int) =~= enc_details(built)) by {
                    assert forall|j: int|
                        0 <= j < 41 + enc_words(views).len() implies s@.subrange(
                        pos as int,
                        p3 as int,
                    )[j] == enc_details(built)[j] by {
                        if j == 0 {
                        } else if j < 21 {
                            assert(s@.subrange((pos + 1) as int, p1 as int)[j - 1] == s@[pos + j]);
                        } else if j < 41 {
                            assert(s@.subrange(p1 as int, p2 as int)[j - 21] == s@[pos + j]);
                        } else {
                            assert(s@.subrange(p2 as int, p3 as int)[j - 41] == s@[pos + j]);
                        }
                    }
                }
            }
            Some((GameDetails::WordMemory { words_correct: wc as usize, original_words: ws }, p3))
        },
        't' => {
            let (qc, p1) = match decode_u64(s, pos + 1) {
                Some(x) => x,
                None => {
                    proof {
                        details_hyp_vacuous(s@, pos as int);
                    }
                    return None;
                },
            };
            let (tq, p2) = match decode_u64(s, p1) {
                Some(x) => x,
                None => {
                    proof {
                        details_hyp_vacuous(s@, pos as int);
                    }
                    return None;
                },
            };
            if qc > usize::MAX as u64 || tq > usize::MAX as u64 {
                proof {
                    details_hyp_vacuous(s@, pos as int);
                }
                return None;
            }
            proof {
                details_hyp_vacuous(s@, pos as int);
                let built = details_model(
                    GameDetails::TextComprehension {
                        questions_correct: qc as usize,
                        total_questions: tq as usize,
                    },
                );
                lemma_padded_digits_shape(qc as nat, 20);
                lemma_padded_digits_shape(tq as nat, 20);
                assert(s@.subrange(pos as int, p2 as int) =~= enc_details(built)) by {
                    assert forall|j: int| 0 <= j < 41 implies s@.subrange(pos as int, p2 as int)[j]
                        == enc_details(built)[j] by {
                        if j == 0 {
                        } else if j < 21 {
                            assert(s@.subrange((pos + 1) as int, p1 as int)[j - 1] == s@[pos + j]);
                        } else {
                            assert(s@.subrange(p1 as int, p2 as int)[j - 21] == s@[pos + j]);
                        }
                    }
                }
            }
            Some(
                (
                    GameDetails::TextComprehension {
                        questions_correct: qc as usize,
                        total_questions: tq as usize,
                    },
                    p2,
                ),
            )
        },
        'i' => {
            let (c, p1) = match decode_u64(s, pos + 1) {
                Some(x) => x,
                None => {
                    proof {
                        details_hyp_vacuous(s@, pos as int);
                    }
                    return None;
                },
            };
            let (t, p2) = match decode_u64(s, p1) {
                Some(x) => x,
                None => {
                    proof {
                        details_hyp_vacuous(s@, pos as int);
                    }
                    return None;
                },
            };
            let (tt, p3) = match decode_u64(s, p2) {
                Some(x) => x,
                None => {
                    proof {
                        details_hyp_vacuous(s@, pos as int);
                    }
                    return None;
                },
            };
            if c > usize::MAX as u64 || t > usize::MAX as u64 {
                proof {
                    details_hyp_vacuous(s@, pos as int);
                }
                return None;
            }
            proof {
                details_hyp_vacuous(s@, pos as int);
                let built = details_model(
                    GameDetails::INumbs {
                        correct: c as usize,
                        total: t as usize,
                        time_taken_ms: tt,
                    },
                );
                lemma_padded_digits_shape(c as nat, 20);
                lemma_padded_digits_shape(t as nat, 20);
                lemma_padded_digits_shape(tt as nat, 20);
                assert(s@.subrange(pos as int, p3 as int) =~= enc_details(built)) by {
                    assert forall|j: int| 0 <= j < 61 implies s@.subrange(pos as int, p3 as int)[j]
                        == enc_details(built)[j] by {
                        if j == 0 {
                        } else if j < 21 {
                            assert(s@.subrange((pos + 1) as int, p1 as int)[j - 1] == s@[pos + j]);
                        } else if j < 41 {
                            assert(s@.subrange(p1 as int, p2 as int)[j - 21] == s@[pos + j]);
                        } else {
                            assert(s@.subrange(p2 as int, p3 as int)[j - 41] == s@[pos + j]);
                        }
                    }
                }
            }
            Some(
                (
                    GameDetails::INumbs {
                        correct: c as usize,
                        total: t as usize,
                        time_taken_ms: tt,
                    },
                    p3,
                ),
            )
        },
        _ => {
            proof {
                details_hyp_vacuous(s@, pos as int);
            }
            None
        },
    }
}

/// The slice facts of every details payload that could stand at `pos`;
/// used both to discharge the failure exits and to pin the success case.
proof fn details_hyp_vacuous(s: Seq<char>, pos: int)
    requires
        pos >= 0,
    ensures
        forall|dm: DetailsModel|
            #[trigger] details_at(s, pos, dm) ==> ({
                match dm {
                    DetailsModel::ReadingSpeed { words_correct, total_words, time_taken_ms } => {
                        &&& enc_details(dm).len() == 61
                        &&& s.subrange(pos, pos + 1) == seq!['r']
                        &&& s.subrange(pos + 1, pos + 21) == enc_u64(words_correct)
                        &&& s.subrange(pos + 21, pos + 41) == enc_u64(total_words)
                        &&& s.subrange(pos + 41, pos + 61) == enc_u64(time_taken_ms)
                    },
                    DetailsModel::WordMemory { words_correct, original_words } => {
                        &&& enc_details(dm).len() == 41 + enc_words(original_words).len()
                        &&& s.subrange(pos, pos + 1) == seq!['w']
                        &&& s.subrange(pos + 1, pos + 21) == enc_u64(words_correct)
                        &&& s.subrange(pos + 21, pos + 41) == enc_u64(original_words.len() as int)
                        &&& s.subrange(pos + 41, pos + 41 + enc_words(original_words).len())
                            == enc_words(original_words)
                    },
                    DetailsModel::TextComprehension { questions_correct, total_questions } => {
                        &&& enc_details(dm).len() == 41
                        &&& s.subrange(pos, pos + 1) == seq!['t']
                        &&& s.subrange(pos + 1, pos + 21) == enc_u64(questions_correct)
                        &&& s.subrange(pos + 21, pos + 41) == enc_u64(total_questions)
                    },
                    DetailsModel::INumbs { correct, total, time_taken_ms } => {
                        &&& enc_details(dm).len() == 61
                        &&& s.subrange(pos, pos + 1) == seq!['i']
                        &&& s.subrange(pos + 1, pos + 21) == enc_u64(correct)
                        &&& s.subrange(pos + 21, pos + 41) == enc_u64(total)
                        &&& s.subrange(pos + 41, pos + 61) == enc_u64(time_taken_ms)
                    },
                }
            }),
{
    assert forall|dm: DetailsModel| #[trigger] details_at(s, pos, dm) implies ({
        match dm {
            DetailsModel::ReadingSpeed { words_correct, total_words, time_taken_ms } => {
                &&& enc_details(dm).len() == 61
                &&& s.subrange(pos, pos + 1) == seq!['r']
                &&& s.subrange(pos + 1, pos + 21) == enc_u64(words_correct)
                &&& s.subrange(pos + 21, pos + 41) == enc_u64(total_words)
                &&& s.subrange(pos + 41, pos + 61) == enc_u64(time_taken_ms)
            },
            DetailsModel::WordMemory { words_correct, original_words } => {
                &&& enc_details(dm).len() == 41 + enc_words(original_words).len()
                &&& s.subrange(pos, pos + 1) == seq!['w']
                &&& s.subrange(pos + 1, pos + 21) == enc_u64(words_correct)
                &&& s.subrange(pos + 21, pos + 41) == enc_u64(original_words.len() as int)
                &&& s.subrange(pos + 41, pos + 41 + enc_words(original_words).len()) == enc_words(
                    original_words,
                )
            },
            DetailsModel::TextComprehension { questions_correct, total_questions } => {
                &&& enc_details(dm).len() == 41
                &&& s.subrange(pos, pos + 1) == seq!['t']
                &&& s.subrange(pos + 1, pos + 21) == enc_u64(questions_correct)
                &&& s.subrange(pos + 21, pos + 41) == enc_u64(total_questions)
            },
            DetailsModel::INumbs { correct, total, time_taken_ms } => {
                &&& enc_details(dm).len() == 61
                &&& s.subrange(pos, pos + 1) == seq!['i']
                &&& s.subrange(pos + 1, pos + 21) == enc_u64(correct)
                &&& s.subrange(pos + 21, pos + 41) == enc_u64(total)
                &&& s.subrange(pos + 41, pos + 61) == enc_u64(time_taken_ms)
            },
        }
    }) by {
        lemma_details_parts(s, pos, dm);
    }
}

/// Encoding of one completed attempt.
pub open spec fn enc_result(rm: ResultModel) -> Seq<char> {
    enc_game_type(rm.game_type) + enc_u64(rm.score_cp) + enc_details(rm.details) + enc_u64(
        rm.timestamp_ms,
    )
}

/// A result the encoding can carry.
pub open spec fn result_ok(rm: ResultModel) -> bool {
    &&& 0 <= rm.score_cp <= u64::MAX
    &&& 0 <= rm.timestamp_ms <= u64::MAX
    &&& details_ok(rm.details)
}

/// Hypothesis that an encoded result with model `rm` stands at `pos`.
pub open spec fn result_at(s: Seq<char>, pos: int, rm: ResultModel) -> bool {
    &&& result_ok(rm)
    &&& pos + enc_result(rm).len() <= s.len()
    &&& s.subrange(pos, pos + enc_result(rm).len()) == enc_result(rm)
}

/// Where the fields of an encoded result stand.
proof fn lemma_result_parts(s: Seq<char>, pos: int)
    requires
        pos >= 0,
    ensures
        forall|rm: ResultModel|
            #[trigger] result_at(s, pos, rm) ==> ({
                let dlen = enc_details(rm.details).len() as int;
                &&& enc_result(rm).len() == 41 + dlen
                &&& s.subrange(pos, pos + 1) == enc_game_type(rm.game_type)
                &&& s.subrange(pos + 1, pos + 21) == enc_u64(rm.score_cp)
                &&& details_at(s, pos + 21, rm.details)
                &&& s.subrange(pos + 21 + dlen, pos + 41 + dlen) == enc_u64(rm.timestamp_ms)
            }),
{
    assert forall|rm: ResultModel| #[trigger] result_at(s, pos, rm) implies ({
        let dlen = enc_details(rm.details).len() as int;
        &&& enc_result(rm).len() == 41 + dlen
        &&& s.subrange(pos, pos + 1) == enc_game_type(rm.game_type)
        &&& s.subrange(pos + 1, pos + 21) == enc_u64(rm.score_cp)
        &&& details_at(s, pos + 21, rm.details)
        &&& s.subrange(pos + 21 + dlen, pos + 41 + dlen) == enc_u64(rm.timestamp_ms)
    }) by {
        lemma_padded_digits_shape(rm.score_cp as nat, 20);
        lemma_padded_digits_shape(rm.timestamp_ms as nat, 20);
        let e = enc_result(rm);
        let whole = s.subrange(pos, pos + e.len());
        let a = enc_game_type(rm.game_type);
        let b = enc_u64(rm.score_cp);
        let c = enc_details(rm.details);
        let d = enc_u64(rm.timestamp_ms);
        let dlen = c.len() as int;
        let ab = a + b;
        let abc = ab + c;
        assert(s.subrange(pos, pos + 1) =~= a) by {
            assert(whole[0] == s[pos]);
        }
        assert(s.subrange(pos + 1, pos + 21) =~= b) by {
            assert forall|j: int| 0 <= j < 20 implies s.subrange(pos + 1, pos + 21)[j] == b[j] by {
                assert(whole[1 + j] == s[pos + 1 + j]);
                assert(e[1 + j] == abc[1 + j]);
                assert(abc[1 + j] == ab[1 + j]);
                assert(ab[1 + j] == b[j]);
            }
        }
        assert(s.subrange(pos + 21, pos + 21 + dlen) =~= c) by {
            assert forall|j: int| 0 <= j < dlen implies s.subrange(pos + 21, pos + 21 + dlen)[j]
                == c[j] by {
                assert(whole[21 + j] == s[pos + 21 + j]);
                assert(e[21 + j] == abc[21 + j]);
                assert(abc[21 + j] == c[j]);
            }
        }
        assert(s.subrange(pos + 21 + dlen, pos + 41 + dlen) =~= d) by {
            assert forall|j: int| 0 <= j < 20 implies s.subrange(
                pos + 21 + dlen,
                pos + 41 + dlen,
            )[j] == d[j] by {
                assert(whole[21 + dlen + j] == s[pos + 21 + dlen + j]);
                assert(e[21 + dlen + j] == d[j]);
            }
        }
    }
}

/// Append the encoding of one result.
pub fn push_result(out: &mut Vec<char>, r: &GameResult)
    ensures
        final(out)@ =~= old(out)@ + enc_result(result_model(*r)),
        result_ok(result_model(*r)),
{
    push_game_type(out, r.game_type);
    push_u64(out, r.score_cp);
    push_details(out, &r.details);
    push_u64(out, r.timestamp_ms);
}

/// Read one result. Whenever the slice at `pos` is the encoding of a
/// result with model `rm`, the result decodes to exactly `rm`.
pub fn decode_result(s: &Vec<char>, pos: usize) -> (r: Option<(GameResult, usize)>)
    ensures
        forall|rm: ResultModel|
            #[trigger] result_at(s@, pos as int, rm) ==> (r is Some && result_model((r->0).0) == rm
                && (r->0).1 == pos + enc_result(rm).len()),
        r is Some ==> pos <= (r->0).1 <= s@.len(),
        r is Some ==> ({
            let built = result_model((r->0).0);
            &&& result_ok(built)
            &&& s@.subrange(pos as int, (r->0).1 as int) == enc_result(built)
        }),
{
    proof {
        lemma_result_parts(s@, pos as int);
    }
    let (gt, p1) = match decode_game_type(s, pos) {
        Some(x) => x,
        None => {
            return None;
        },
    };
    let (score, p2) = match decode_u64(s, p1) {
        Some(x) => x,
        None => {
            return None;
        },
    };
    let (details, p3) = match decode_details(s, p2) {
        Some(x) => x,
        None => {
            return None;
        },
    };
    let (ts, p4) = match decode_u64(s, p3) {
        Some(x) => x,
        None => {
            return None;
        },
    };
    let out = GameResult { game_type: gt, score_cp: score, details, timestamp_ms: ts };
    proof {
        assert forall|rm: ResultModel| #[trigger] result_at(s@, pos as int, rm) implies (
        result_model(out) == rm && p4 == pos + enc_result(rm).len()) by {}
        let built = result_model(out);
        let dlen = enc_details(built.details).len() as int;
        lemma_padded_digits_shape(score as nat, 20);
        lemma_padded_digits_shape(ts as nat, 20);
        assert(s@.subrange(p2 as int, p3 as int) == enc_details(built.details));
        assert(s@.subrange(pos as int, p4 as int) =~= enc_result(built)) by {
            assert forall|j: int|
                0 <= j < 41 + dlen implies s@.subrange(pos as int, p4 as int)[j] == enc_result(
                built,
            )[j] by {
                if j == 0 {
                    assert(s@.subrange(pos as int, p1 as int)[0] == s@[pos as int]);
                } else if j < 21 {
                    assert(s@.subrange(p1 as int, p2 as int)[j - 1] == s@[pos + j]);
                } else if j < 21 + dlen {
                    assert(s@.subrange(p2 as int, p3 as int)[j - 21] == s@[pos + j]);
                } else {
                    assert(s@.subrange(p3 as int, p4 as int)[j - 21 - dlen] == s@[pos + j]);
                }
            }
        }
    }
    Some((out, p4))
}

/// Encoding of a sequence of results, in order.
pub open spec fn enc_results(rs: Seq<ResultModel>) -> Seq<char>
    decreases rs.len(),
{
    if rs.len() == 0 {
        Seq::empty()
    } else {
        enc_results(rs.drop_last()) + enc_result(rs.last())
    }
}

/// A result collection the encoding can carry.
pub open spec fn results_ok(rs: Seq<ResultModel>) -> bool {
    rs.len() <= usize::MAX && (forall|i: int| 0 <= i < rs.len() ==> result_ok(#[trigger] rs[i]))
}

proof fn lemma_enc_results_prefix(rs: Seq<ResultModel>, m: int)
    requires
        0 <= m <= rs.len(),
    ensures
        enc_results(rs.subrange(0, m)).len() <= enc_results(rs).len(),
        enc_results(rs.subrange(0, m)) == enc_results(rs).subrange(
            0,
            enc_results(rs.subrange(0, m)).len() as int,
        ),
    decreases rs.len() - m,
{
    if m == rs.len() {
        assert(rs.subrange(0, m) =~= rs);
        assert(enc_results(rs).subrange(0, enc_results(rs).len() as int) =~= enc_results(rs));
    } else {
        lemma_enc_results_prefix(rs, m + 1);
        let a = rs.subrange(0, m);
        let b = rs.subrange(0, m + 1);
        assert(b.drop_last() =~= a);
        assert(b.last() == rs[m]);
        assert(enc_results(b) == enc_results(a) + enc_result(rs[m]));
        assert(enc_results(a) =~= enc_results(b).subrange(0, enc_results(a).len() as int));
        assert(enc_results(a) =~= enc_results(rs).subrange(0, enc_results(a).len() as int));
    }
}

proof fn lemma_enc_results_step(rs: Seq<ResultModel>, m: int)
    requires
        0 <= m < rs.len(),
    ensures
        enc_results(rs.subrange(0, m + 1)) == enc_results(rs.subrange(0, m)) + enc_result(rs[m]),
{
    let a = rs.subrange(0, m);
    let b = rs.subrange(0, m + 1);
    assert(b.drop_last() =~= a);
    assert(b.last() == rs[m]);
}

/// Where the `k`-th result's encoding stands inside the collection's
/// encoding.
proof fn lemma_results_slice(s: Seq<char>, pos: int, rs: Seq<ResultModel>, k: int, p: int)
    requires
        0 <= pos,
        0 <= k < rs.len(),
        pos + enc_results(rs).len() <= s.len(),
        s.subrange(pos, pos + enc_results(rs).len()) == enc_results(rs),
        p == pos + enc_results(rs.subrange(0, k)).len(),
        result_ok(rs[k]),
    ensures
        result_at(s, p, rs[k]),
        p + enc_result(rs[k]).len() == pos + enc_results(rs.subrange(0, k + 1)).len(),
{
    lemma_enc_results_prefix(rs, k);
    lemma_enc_results_prefix(rs, k + 1);
    lemma_enc_results_step(rs, k);
    let lk = enc_results(rs.subrange(0, k)).len() as int;
    let e = enc_result(rs[k]);
    let lk1 = enc_results(rs.subrange(0, k + 1)).len() as int;
    assert(lk1 == lk + e.len());
    assert(lk1 <= enc_results(rs).len());
    assert forall|j: int| 0 <= j < e.len() implies s.subrange(p, p + e.len())[j] == e[j] by {
        assert(s.subrange(pos, pos + enc_results(rs).len())[lk + j] == s[pos + lk + j]);
        assert(enc_results(rs)[lk + j] == enc_results(rs).subrange(0, lk1)[lk + j]);
        assert(enc_results(rs).subrange(0, lk1) == enc_results(rs.subrange(0, k + 1)));
        assert(enc_results(rs.subrange(0, k + 1))[lk + j] == e[j]);
        assert(s.subrange(p, p + e.len())[j] == s[p + j]);
    }
    assert(s.subrange(p, p + e.len()) =~= e);
}

/// Append the encoding of every stored result, in order.
#[verifier::loop_isolation(false)]
pub fn push_results(out: &mut Vec<char>, results: &Vec<GameResult>)
    ensures
        final(out)@ =~= old(out)@ + enc_results(
            results@.map_values(|x: GameResult| result_model(x)),
        ),
        results_ok(results@.map_values(|x: GameResult| result_model(x))),
{
    let ghost rs = results@.map_values(|x: GameResult| result_model(x));
    let mut k: usize = 0;
    proof {
        assert(out@ =~= old(out)@ + enc_results(rs.subrange(0, 0)));
    }
    while k < results.len()
        invariant
            k <= results@.len(),
            rs == results@.map_values(|x: GameResult| result_model(x)),
            out@ =~= old(out)@ + enc_results(rs.subrange(0, k as int)),
            forall|j: int| 0 <= j < k ==> result_ok(#[trigger] rs[j]),
        decreases results@.len() - k,
    {
        push_result(out, &results[k]);
        proof {
            lemma_enc_results_step(rs, k as int);
        }
        k = k + 1;
    }
    proof {
        assert(rs.subrange(0, results@.len() as int) =~= rs);
    }
}

/// Read `count` results.
#[verifier::loop_isolation(false)]
pub fn decode_results(s: &Vec<char>, pos: usize, count: usize) -> (r: Option<(Vec<GameResult>, usize)>)
    ensures
        forall|rs: Seq<ResultModel>|
            (results_ok(rs) && rs.len() == count && pos + enc_results(rs).len() <= s@.len()
                && s@.subrange(pos as int, pos as int + enc_results(rs).len())
                == #[trigger] enc_results(rs)) ==> (r is Some && (r->0).0@.map_values(
                |x: GameResult| result_model(x),
            ) == rs && (r->0).1 == pos + enc_results(rs).len()),
        r is Some ==> pos <= (r->0).1 <= s@.len(),
        r is Some ==> ({
            let models = (r->0).0@.map_values(|x: GameResult| result_model(x));
            &&& results_ok(models)
            &&& models.len() == count
            &&& s@.subrange(pos as int, (r->0).1 as int) == enc_results(models)
        }),
{
    if pos > s.len() {
        proof {
            assert forall|rs: Seq<ResultModel>|
                (results_ok(rs) && rs.len() == count && pos + enc_results(rs).len() <= s@.len()
                    && s@.subrange(pos as int, pos as int + enc_results(rs).len())
                    == #[trigger] enc_results(rs)) implies false by {}
        }
        return None;
    }
    let mut out: Vec<GameResult> = Vec::new();
    let mut p: usize = pos;
    let mut k: usize = 0;
    proof {
        assert forall|rs: Seq<ResultModel>|
            (results_ok(rs) && rs.len() == count && pos + enc_results(rs).len() <= s@.len()
                && s@.subrange(pos as int, pos as int + enc_results(rs).len())
                == #[trigger] enc_results(rs)) implies (p == pos + enc_results(
            rs.subrange(0, 0),
        ).len() && out@.map_values(|x: GameResult| result_model(x)) =~= rs.subrange(0, 0)) by {}
        assert(out@.map_values(|x: GameResult| result_model(x)) =~= Seq::<ResultModel>::empty());
        assert(s@.subrange(pos as int, p as int) =~= Seq::<char>::empty());
    }
    while k < count
        invariant
            k <= count,
            pos <= p <= s@.len(),
            out@.len() == k,
            results_ok(out@.map_values(|x: GameResult| result_model(x))),
            s@.subrange(pos as int, p as int) == enc_results(
                out@.map_values(|x: GameResult| result_model(x)),
            ),
            forall|rs: Seq<ResultModel>|
                (results_ok(rs) && rs.len() == count && pos + enc_results(rs).len() <= s@.len()
                    && s@.subrange(pos as int, pos as int + enc_results(rs).len())
                    == #[trigger] enc_results(rs)) ==> (p == pos + enc_results(
                    rs.subrange(0, k as int),
                ).len() && out@.map_values(|x: GameResult| result_model(x)) =~= rs.subrange(
                    0,
                    k as int,
                )),
        decreases count - k,
    {
        let step = decode_result(s, p);
        proof {
            assert forall|rs: Seq<ResultModel>|
                (results_ok(rs) && rs.len() == count && pos + enc_results(rs).len() <= s@.len()
                    && s@.subrange(pos as int, pos as int + enc_results(rs).len())
                    == #[trigger] enc_results(rs)) implies result_at(s@, p as int, rs[k as int]) by {
                lemma_results_slice(s@, pos as int, rs, k as int, p as int);
            }
        }
        match step {
            Some((x, p2)) => {
                let ghost old_models = out@.map_values(|y: GameResult| result_model(y));
                out.push(x);
                proof {
                    let models = out@.map_values(|y: GameResult| result_model(y));
                    assert(models =~= old_models.push(result_model(x)));
                    assert(models.drop_last() =~= old_models);
                    assert(enc_results(models) == enc_results(old_models) + enc_result(
                        result_model(x),
                    ));
                    assert(s@.subrange(pos as int, p2 as int) =~= enc_results(models)) by {
                        assert forall|j: int|
                            0 <= j < p2 - pos implies s@.subrange(pos as int, p2 as int)[j]
                            == enc_results(models)[j] by {
                            if j < p - pos {
                                assert(s@.subrange(pos as int, p as int)[j] == s@[pos + j]);
                            } else {
                                assert(s@.subrange(p as int, p2 as int)[j - (p - pos)] == s@[pos
                                    + j]);
                            }
                        }
                    }
                    assert forall|rs: Seq<ResultModel>|
                        (results_ok(rs) && rs.len() == count && pos + enc_results(rs).len()
                            <= s@.len() && s@.subrange(
                            pos as int,
                            pos as int + enc_results(rs).len(),
                        ) == #[trigger] enc_results(rs)) implies (p2 == pos + enc_results(
                        rs.subrange(0, k + 1 as int),
                    ).len() && out@.map_values(|x: GameResult| result_model(x)) =~= rs.subrange(
                        0,
                        k + 1 as int,
                    )) by {
                        lemma_results_slice(s@, pos as int, rs, k as int, p as int);
                        assert(result_model(x) == rs[k as int]);
                    }
                }
                p = p2;
            },
            None => {
                proof {
                    assert forall|rs: Seq<ResultModel>|
                        (results_ok(rs) && rs.len() == count && pos + enc_results(rs).len()
                            <= s@.len() && s@.subrange(
                            pos as int,
                            pos as int + enc_results(rs).len(),
                        ) == #[trigger] enc_results(rs)) implies false by {
                        lemma_results_slice(s@, pos as int, rs, k as int, p as int);
                    }
                }
                return None;
            },
        }
        k = k + 1;
    }
    proof {
        assert forall|rs: Seq<ResultModel>|
            (results_ok(rs) && rs.len() == count && pos + enc_results(rs).len() <= s@.len()
                && s@.subrange(pos as int, pos as int + enc_results(rs).len())
                == #[trigger] enc_results(rs)) implies (p == pos + enc_results(rs).len()
            && out@.map_values(|x: GameResult| result_model(x)) == rs) by {
            assert(rs.subrange(0, count as int) =~= rs);
            assert(out@.map_values(|x: GameResult| result_model(x)) =~= rs);
        }
    }
    Some((out, p))
}

/// Encoding of the whole storage: the result count, each result in
/// stored order, then the four configurations in a fixed order.
pub open spec fn enc_storage(rs: Seq<ResultModel>, cs: ConfigSet) -> Seq<char> {
    enc_u64(rs.len() as int) + enc_results(rs) + enc_config(cs.reading_speed) + enc_config(
        cs.word_memory,
    ) + enc_config(cs.text_comprehension) + enc_config(cs.inumbs)
}

/// Where the pieces of an encoded storage stand.
proof fn lemma_storage_parts(s: Seq<char>, rs: Seq<ResultModel>, cs: ConfigSet)
    requires
        results_ok(rs),
        s == enc_storage(rs, cs),
    ensures
        ({
            let rlen = enc_results(rs).len() as int;
            &&& s.len() == 20 + rlen + 168
            &&& s.subrange(0, 20) == enc_u64(rs.len() as int)
            &&& s.subrange(20, 20 + rlen) == enc_results(rs)
            &&& s.subrange(20 + rlen, 62 + rlen) == enc_config(cs.reading_speed)
            &&& s.subrange(62 + rlen, 104 + rlen) == enc_config(cs.word_memory)
            &&& s.subrange(104 + rlen, 146 + rlen) == enc_config(cs.text_comprehension)
            &&& s.subrange(146 + rlen, 188 + rlen) == enc_config(cs.inumbs)
        }),
{
    lemma_padded_digits_shape(rs.len() as nat, 20);
    lemma_padded_digits_shape(cs.reading_speed.duration_ms as nat, 20);
    lemma_padded_digits_shape(cs.reading_speed.word_count as nat, 20);
    lemma_padded_digits_shape(cs.word_memory.duration_ms as nat, 20);
    lemma_padded_digits_shape(cs.word_memory.word_count as nat, 20);
    lemma_padded_digits_shape(cs.text_comprehension.duration_ms as nat, 20);
    lemma_padded_digits_shape(cs.text_comprehension.word_count as nat, 20);
    lemma_padded_digits_shape(cs.inumbs.duration_ms as nat, 20);
    lemma_padded_digits_shape(cs.inumbs.word_count as nat, 20);
    let a = enc_u64(rs.len() as int);
    let b = enc_results(rs);
    let c1 = enc_config(cs.reading_speed);
    let c2 = enc_config(cs.word_memory);
    let c3 = enc_config(cs.text_comprehension);
    let c4 = enc_config(cs.inumbs);
    let rlen = b.len() as int;
    let ab = a + b;
    let abc1 = ab + c1;
    let abc2 = abc1 + c2;
    let abc3 = abc2 + c3;
    assert(c1.len() == 42);
    assert(c2.len() == 42);
    assert(c3.len() == 42);
    assert(c4.len() == 42);
    assert(s.subrange(0, 20) =~= a) by {
        assert forall|j: int| 0 <= j < 20 implies s.subrange(0, 20)[j] == a[j] by {
            assert(s[j] == ab[j]);
        }
    }
    assert(s.subrange(20, 20 + rlen) =~= b) by {
        assert forall|j: int| 0 <= j < rlen implies s.subrange(20, 20 + rlen)[j] == b[j] by {
            assert(s[20 + j] == ab[20 + j]);
        }
    }
    assert(s.subrange(20 + rlen, 62 + rlen) =~= c1) by {
        assert forall|j: int| 0 <= j < 42 implies s.subrange(20 + rlen, 62 + rlen)[j] == c1[j] by {
            assert(s[20 + rlen + j] == abc1[20 + rlen + j]);
            assert(abc1[20 + rlen + j] == c1[j]);
        }
    }
    assert(s.subrange(62 + rlen, 104 + rlen) =~= c2) by {
        assert forall|j: int| 0 <= j < 42 implies s.subrange(62 + rlen, 104 + rlen)[j] == c2[j] by {
            assert(s[62 + rlen + j] == abc2[62 + rlen + j]);
            assert(abc2[62 + rlen + j] == c2[j]);
        }
    }
    assert(s.subrange(104 + rlen, 146 + rlen) =~= c3) by {
        assert forall|j: int| 0 <= j < 42 implies s.subrange(104 + rlen, 146 + rlen)[j]
            == c3[j] by {
            assert(s[104 + rlen + j] == abc3[104 + rlen + j]);
            assert(abc3[104 + rlen + j] == c3[j]);
        }
    }
    assert(s.subrange(146 + rlen, 188 + rlen) =~= c4) by {
        assert forall|j: int| 0 <= j < 42 implies s.subrange(146 + rlen, 188 + rlen)[j]
            == c4[j] by {
            assert(s[146 + rlen + j] == c4[j]);
        }
    }
}

/// Encode the whole storage into one text document.
pub fn encode_storage(st: &GameStorage) -> (r: Vec<char>)
    ensures
        r@ == enc_storage(st.results_model(), st.configs),
        results_ok(st.results_model()),
{
    let mut out: Vec<char> = Vec::new();
    push_u64(&mut out, st.results.len() as u64);
    push_results(&mut out, &st.results);
    push_config(&mut out, &st.configs.reading_speed);
    push_config(&mut out, &st.configs.word_memory);
    push_config(&mut out, &st.configs.text_comprehension);
    push_config(&mut out, &st.configs.inumbs);
    proof {
        assert(out@ =~= enc_storage(st.results_model(), st.configs));
    }
    out
}

/// Decode a whole storage document. Whenever the document is the
/// encoding of a collection `rs` and configurations `cs`, the result is
/// a storage holding exactly those.
#[verifier::rlimit(80)]
pub fn decode_storage(s: &Vec<char>) -> (r: Option<GameStorage>)
    ensures
        forall|rs: Seq<ResultModel>, cs: ConfigSet|
            (results_ok(rs) && s@ == #[trigger] enc_storage(rs, cs)) ==> (r is Some
                && (r->0).results_model() == rs && (r->0).configs == cs),
        r is Some ==> results_ok((r->0).results_model()) && s@ == enc_storage(
            (r->0).results_model(),
            (r->0).configs,
        ),
{
    proof {
        assert forall|rs: Seq<ResultModel>, cs: ConfigSet|
            (results_ok(rs) && s@ == #[trigger] enc_storage(rs, cs)) implies ({
            let rlen = enc_results(rs).len() as int;
            &&& s@.len() == 20 + rlen + 168
            &&& s@.subrange(0, 20) == enc_u64(rs.len() as int)
            &&& s@.subrange(20, 20 + rlen) == enc_results(rs)
            &&& s@.subrange(20 + rlen, 62 + rlen) == enc_config(cs.reading_speed)
            &&& s@.subrange(62 + rlen, 104 + rlen) == enc_config(cs.word_memory)
            &&& s@.subrange(104 + rlen, 146 + rlen) == enc_config(cs.text_comprehension)
            &&& s@.subrange(146 + rlen, 188 + rlen) == enc_config(cs.inumbs)
        }) by {
            lemma_storage_parts(s@, rs, cs);
        }
    }
    let (count, p1) = match decode_u64(s, 0) {
        Some(x) => x,
        None => {
            return None;
        },
    };
    if count > usize::MAX as u64 {
        return None;
    }
    let (results, p2) = match decode_results(s, p1, count as usize) {
        Some(x) => x,
        None => {
            return None;
        },
    };
    let (c1, p3) = match decode_config(s, p2) {
        Some(x) => x,
        None => {
            return None;
        },
    };
    let (c2, p4) = match decode_config(s, p3) {
        Some(x) => x,
        None => {
            return None;
        },
    };
    let (c3, p5) = match decode_config(s, p4) {
        Some(x) => x,
        None => {
            return None;
        },
    };
    let (c4, p6) = match decode_config(s, p5) {
        Some(x) => x,
        None => {
            return None;
        },
    };
    if p6 != s.len() {
        return None;
    }
    let built = GameStorage {
        results,
        configs: ConfigSet {
            reading_speed: c1,
            word_memory: c2,
            text_comprehension: c3,
            inumbs: c4,
        },
    };
    proof {
        let models = built.results_model();
        let rlen = enc_results(models).len() as int;
        lemma_padded_digits_shape(count as nat, 20);
        assert(s@.subrange(0, 20) == enc_u64(models.len() as int));
        assert(s@.subrange(p1 as int, p2 as int) == enc_results(models));
        assert(s@ =~= enc_storage(models, built.configs)) by {
            assert forall|j: int| 0 <= j < s@.len() implies s@[j] == enc_storage(
                models,
                built.configs,
            )[j] by {
                if j < 20 {
                    assert(s@.subrange(0, 20)[j] == s@[j]);
                } else if j < 20 + rlen {
                    assert(s@.subrange(p1 as int, p2 as int)[j - 20] == s@[j]);
                } else if j < 62 + rlen {
                    assert(s@.subrange(p2 as int, p3 as int)[j - 20 - rlen] == s@[j]);
                } else if j < 104 + rlen {
                    assert(s@.subrange(p3 as int, p4 as int)[j - 62 - rlen] == s@[j]);
                } else if j < 146 + rlen {
                    assert(s@.subrange(p4 as int, p5 as int)[j - 104 - rlen] == s@[j]);
                } else {
                    assert(s@.subrange(p5 as int, p6 as int)[j - 146 - rlen] == s@[j]);
                }
            }
        }
    }
    Some(built)
}

/// The persistence round trip: encoding a storage and decoding the
/// resulting document gives back a storage with the same results, value
/// for value and in the same order, and the same configurations.
pub fn reload_storage(st: &GameStorage) -> (r: GameStorage)
    ensures
        r.results_model() == st.results_model(),
        r.configs == st.configs,
{
    let doc = encode_storage(st);
    let decoded = decode_storage(&doc);
    proof {
        assert(decoded is Some);
    }
    match decoded {
        Some(out) => out,
        None => GameStorage::new(),
    }
}

} // verus!
