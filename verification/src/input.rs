//! The rewind key buffer and its decoder. A rewind command is the key `C`,
//! then up to eight digit keys, then `Enter`; the digits are read least
//! significant first, in typed order — the convention of the on-screen key
//! buffer, preserved deliberately.

use vstd::prelude::*;

verus! {

/// A key the rewind buffer can capture. Other keys are dropped before they
/// reach the buffer.
#[derive(Debug, Clone, Copy, PartialEq, Eq, Structural)]
pub enum Key {
    Digit0,
    Digit1,
    Digit2,
    Digit3,
    Digit4,
    Digit5,
    Digit6,
    Digit7,
    Digit8,
    Digit9,
    KeyC,
    KeyW,
    KeyU,
    Enter,
}

/// Whether `k` is a digit key.
pub open spec fn is_digit_key(k: Key) -> bool {
    match k {
        Key::Digit0 | Key::Digit1 | Key::Digit2 | Key::Digit3 | Key::Digit4 | Key::Digit5
            | Key::Digit6 | Key::Digit7 | Key::Digit8 | Key::Digit9 => true,
        _ => false,
    }
}

/// The digit value of a digit key; 0 for any other key.
pub open spec fn spec_key_digit(k: Key) -> u8 {
    match k {
        Key::Digit0 => 0,
        Key::Digit1 => 1,
        Key::Digit2 => 2,
        Key::Digit3 => 3,
        Key::Digit4 => 4,
        Key::Digit5 => 5,
        Key::Digit6 => 6,
        Key::Digit7 => 7,
        Key::Digit8 => 8,
        Key::Digit9 => 9,
        _ => 0,
    }
}

/// The character a key shows as in the on-screen buffer display.
pub open spec fn spec_key_char(k: Key) -> char {
    match k {
        Key::Digit0 => '0',
        Key::Digit1 => '1',
        Key::Digit2 => '2',
        Key::Digit3 => '3',
        Key::Digit4 => '4',
        Key::Digit5 => '5',
        Key::Digit6 => '6',
        Key::Digit7 => '7',
        Key::Digit8 => '8',
        Key::Digit9 => '9',
        Key::KeyC => 'c',
        Key::KeyW => 'w',
        Key::KeyU => 'u',
        Key::Enter => ' ',
    }
}

/// The character a key shows as in the on-screen buffer display.
pub fn map_key_buffer(key: Key) -> (r: char)
    ensures
        r == spec_key_char(key),
{
    match key {
        Key::Digit0 => '0',
        Key::Digit1 => '1',
        Key::Digit2 => '2',
        Key::Digit3 => '3',
        Key::Digit4 => '4',
        Key::Digit5 => '5',
        Key::Digit6 => '6',
        Key::Digit7 => '7',
        Key::Digit8 => '8',
        Key::Digit9 => '9',
        Key::KeyC => 'c',
        Key::KeyW => 'w',
        Key::KeyU => 'u',
        Key::Enter => ' ',
    }
}

/// The number a digit sequence denotes when its first digit is the least
/// significant: the convention in which the typed buffer is decoded.
pub open spec fn spec_decode_digits(digits: Seq<u8>) -> nat
    decreases digits.len(),
{
    if digits.len() == 0 {
        0
    } else {
        (digits[0] + 10 * spec_decode_digits(digits.drop_first())) as nat
    }
}

/// Ten to the `n`.
pub open spec fn pow10(n: nat) -> nat
    decreases n,
{
    if n == 0 {
        1
    } else {
        10 * pow10((n - 1) as nat)
    }
}

/// Appending a digit adds it at the most significant place.
pub proof fn lemma_decode_push(digits: Seq<u8>, d: u8)
    ensures
        spec_decode_digits(digits.push(d)) == spec_decode_digits(digits) + d * pow10(
            digits.len(),
        ),
    decreases digits.len(),
{
    if digits.len() == 0 {
        assert(digits.push(d).len() == 1);
        assert(digits.push(d)[0] == d);
        assert(digits.push(d).drop_first() =~= Seq::<u8>::empty());
        assert(spec_decode_digits(Seq::<u8>::empty()) == 0);
        assert(pow10(0) == 1);
        assert(digits =~= Seq::<u8>::empty());
        assert(spec_decode_digits(digits.push(d)) == d + 10 * 0);
        assert(d * pow10(digits.len()) == d) by (nonlinear_arith)
            requires
                pow10(digits.len()) == 1,
        ;
    } else {
        let rest = digits.drop_first();
        assert(digits.push(d)[0] == digits[0]);
        assert(digits.push(d).drop_first() =~= rest.push(d));
        lemma_decode_push(rest, d);
        assert(spec_decode_digits(digits.push(d)) == digits[0] + 10 * spec_decode_digits(
            rest.push(d),
        ));
        assert(spec_decode_digits(rest.push(d)) == spec_decode_digits(rest) + d * pow10(
            rest.len(),
        ));
        assert(pow10(digits.len()) == 10 * pow10(rest.len()));
        assert(spec_decode_digits(digits) == digits[0] + 10 * spec_decode_digits(rest));
        assert(10 * (spec_decode_digits(rest) + d * pow10(rest.len())) == 10 * spec_decode_digits(
            rest,
        ) + d * (10 * pow10(rest.len()))) by (nonlinear_arith);
    }
}

/// A digit sequence of bounded length decodes below the matching power of
/// ten.
pub proof fn lemma_decode_bound(digits: Seq<u8>)
    requires
        forall|i: int| 0 <= i < digits.len() ==> #[trigger] digits[i] < 10,
    ensures
        spec_decode_digits(digits) < pow10(digits.len()),
    decreases digits.len(),
{
    if digits.len() > 0 {
        lemma_decode_bound(digits.drop_first());
        assert(10 * spec_decode_digits(digits.drop_first()) <= 10 * (pow10(
            (digits.len() - 1) as nat,
        ) - 1)) by (nonlinear_arith)
            requires
                spec_decode_digits(digits.drop_first()) <= pow10((digits.len() - 1) as nat) - 1,
        ;
    }
}

/// Powers of ten grow with the exponent.
pub proof fn lemma_pow10_le(m: nat, n: nat)
    requires
        m <= n,
    ensures
        pow10(m) <= pow10(n),
    decreases n,
{
    if m < n {
        lemma_pow10_le(m, (n - 1) as nat);
        assert(pow10((n - 1) as nat) <= 10 * pow10((n - 1) as nat)) by (nonlinear_arith)
            requires
                pow10((n - 1) as nat) >= 0,
        ;
    }
}

/// Whether a captured buffer is a complete, valid rewind command: the key
/// `C`, at most eight digit keys, then `Enter`.
pub open spec fn command_valid(buffer: Seq<Key>) -> bool {
    &&& 2 <= buffer.len() <= 10
    &&& buffer[0] == Key::KeyC
    &&& buffer.last() == Key::Enter
    &&& forall|i: int| 1 <= i < buffer.len() - 1 ==> is_digit_key(#[trigger] buffer[i])
}

/// The digit values of a valid command's digit keys, in typed order.
pub open spec fn command_digits(buffer: Seq<Key>) -> Seq<u8> {
    buffer.subrange(1, buffer.len() - 1).map_values(|k: Key| spec_key_digit(k))
}

/// The step count a valid command decodes to.
pub open spec fn spec_decode_command(buffer: Seq<Key>) -> nat {
    spec_decode_digits(command_digits(buffer))
}

/// Decodes a captured key buffer into a rewind step count. Exactly the
/// buffers of the form `C`, zero to eight digits, `Enter` decode; the first
/// digit typed is the least significant. Any other buffer — too long,
/// missing markers, or holding a non-digit between them — yields `None`,
/// and the caller discards it with no effect on the game.
pub fn decode_rewind_command(buffer: &Vec<Key>) -> (r: Option<usize>)
    ensures
        r is Some <==> command_valid(buffer@),
        command_valid(buffer@) ==> r->0 == spec_decode_command(buffer@),
        r is Some ==> r->0 < 100000000,
{
    let len = buffer.len();
    if len < 2 || len > 10 {
        return Option::None;
    }
    if !matches!(buffer[0], Key::KeyC) {
        return Option::None;
    }
    if !matches!(buffer[len - 1], Key::Enter) {
        return Option::None;
    }
    let ghost digits = command_digits(buffer@);
    let mut value: usize = 0;
    let mut place: usize = 1;
    let mut i: usize = 1;
    while i < len - 1
        invariant
            2 <= len <= 10,
            len == buffer@.len(),
            1 <= i <= len - 1,
            digits == command_digits(buffer@),
            digits.len() == len - 2,
            forall|j: int| 1 <= j < i ==> is_digit_key(#[trigger] buffer@[j]),
            forall|j: int| 0 <= j < digits.len() ==> #[trigger] digits[j] < 10,
            place == pow10((i - 1) as nat),
            value == spec_decode_digits(digits.take(i - 1)),
            value < place,
        decreases len - i,
    {
        let d: u8 = match buffer[i] {
            Key::Digit0 => 0,
            Key::Digit1 => 1,
            Key::Digit2 => 2,
            Key::Digit3 => 3,
            Key::Digit4 => 4,
            Key::Digit5 => 5,
            Key::Digit6 => 6,
            Key::Digit7 => 7,
            Key::Digit8 => 8,
            Key::Digit9 => 9,
            _ => {
                return Option::None;
            },
        };
        proof {
            assert(d == spec_key_digit(buffer@[i as int]));
            assert(digits[i - 1] == d);
            assert(digits.take(i as int).drop_last() =~= digits.take(i - 1));
            assert(digits.take(i as int) =~= digits.take(i - 1).push(d));
            lemma_decode_push(digits.take(i - 1), d);
            lemma_pow10_le((i - 1) as nat, 7);
            assert(pow10(7) == 10000000) by {
                reveal_with_fuel(pow10, 9);
            }
            assert(d * pow10((i - 1) as nat) <= 9 * pow10((i - 1) as nat)) by (nonlinear_arith)
                requires
                    d <= 9,
                    pow10((i - 1) as nat) >= 0,
            ;
        }
        value = value + d as usize * place;
        place = place * 10;
        proof {
            assert(value == spec_decode_digits(digits.take(i as int)));
            lemma_decode_bound(digits.take(i as int));
        }
        i += 1;
    }
    proof {
        assert(digits.take(digits.len() as int) =~= digits);
        lemma_decode_bound(digits);
        lemma_pow10_le(digits.len(), 8);
        assert(pow10(8) == 100000000) by {
            reveal_with_fuel(pow10, 10);
        }
    }
    Option::Some(value)
}

} // verus!
