//! Dice specifications: how many dice, how many sides, and a modifier.

use crate::command::{is_whitespace, is_whitespace_char};
use crate::text::{
    ascii_string, chars_of, dec_digits, has_at, int_text, lemma_dec_digits, lemma_has_at_concat,
    lemma_has_at_index, write_int, write_nat,
};
use vstd::prelude::*;
use vstd::string::StrSliceExecFns;

verus! {

/// Largest number of dice in one roll.
pub const MAX_DICE: u32 = 500;

/// Smallest number of sides of a die.
pub const MIN_SIDES: u32 = 2;

/// Largest number of sides of a die.
pub const MAX_SIDES: u32 = 1000;

/// Why a dice specification was refused.
#[derive(Clone, Copy, Debug, PartialEq, Eq)]
pub enum DiceError {
    /// More than 500 dice were asked for.
    TooManyDice,
    /// The number of sides is not between 2 and 1000.
    InvalidSides,
    /// The text is not of the form `<count>d<sides>[+-<modifier>]`.
    InvalidFormat,
    /// A number in the text does not fit its integer type.
    NumberTooLarge,
}

/// A dice specification such as `3d6+2`.
#[derive(Clone, Copy, Debug, PartialEq, Eq)]
pub struct Dice {
    count: u32,
    sides: u32,
    modifier: i32,
}

/// The mathematical content of a [`Dice`].
pub struct DiceView {
    pub count: int,
    pub sides: int,
    pub modifier: int,
}

impl View for Dice {
    type V = DiceView;

    closed spec fn view(&self) -> DiceView {
        DiceView { count: self.count as int, sides: self.sides as int, modifier: self.modifier as int }
    }
}

impl DiceView {
    /// A specification that can be rolled: at most 500 dice of 2 to 1000 sides.
    pub open spec fn rollable(self) -> bool {
        &&& 0 <= self.count <= MAX_DICE
        &&& MIN_SIDES <= self.sides <= MAX_SIDES
        &&& i32::MIN <= self.modifier <= i32::MAX
    }
}

/// Sum of the rolls.
pub open spec fn sum_rolls(rolls: Seq<u32>) -> int
    decreases rolls.len(),
{
    if rolls.len() == 0 {
        0
    } else {
        sum_rolls(rolls.drop_last()) + rolls.last() as int
    }
}

/// The result of a roll: the sum of the dice plus the modifier, kept within
/// the range of a `u32`.
pub open spec fn roll_total(rolls: Seq<u32>, modifier: int) -> int {
    let raw = sum_rolls(rolls) + modifier;
    if raw < 0 {
        0
    } else if raw > u32::MAX {
        u32::MAX as int
    } else {
        raw
    }
}

/// Whether every roll shows a face of a die with `sides` sides.
pub open spec fn rolls_in_range(rolls: Seq<u32>, sides: int) -> bool {
    forall|i: int| 0 <= i < rolls.len() ==> 1 <= #[trigger] rolls[i] <= sides
}

/// One throw of a fair die with `sides` sides, drawn from
/// `rand::distr::Uniform::new_inclusive(1, sides)` with the thread's
/// generator: some face between 1 and `sides`.
#[verifier::external_body]
fn throw_die(sides: u32) -> (face: u32)
    requires
        sides >= 1,
    ensures
        1 <= face <= sides,
{
    let uniform = rand::distr::Uniform::new_inclusive(1u32, sides)
        .expect("a die has at least one side");
    rand::distr::Distribution::sample(&uniform, &mut rand::rng())
}

impl Dice {
    /// A specification of `count` dice with `sides` sides each and a
    /// modifier added to their sum.
    pub fn new(count: u32, sides: u32, modifier: i32) -> (r: Result<Dice, DiceError>)
        ensures
            count > MAX_DICE ==> r == Err::<Dice, DiceError>(DiceError::TooManyDice),
            count <= MAX_DICE && !(MIN_SIDES <= sides <= MAX_SIDES) ==> r == Err::<Dice, DiceError>(
                DiceError::InvalidSides,
            ),
            count <= MAX_DICE && MIN_SIDES <= sides <= MAX_SIDES ==> r is Ok && r->Ok_0@ == (DiceView {
                count: count as int,
                sides: sides as int,
                modifier: modifier as int,
            }) && r->Ok_0@.rollable(),
    {
        if count > MAX_DICE {
            return Err(DiceError::TooManyDice);
        }
        if sides < MIN_SIDES || sides > MAX_SIDES {
            return Err(DiceError::InvalidSides);
        }
        Ok(Dice { count, sides, modifier })
    }

    /// A specification with the given fields, valid or not, as a message may
    /// carry it.
    pub fn from_parts(count: u32, sides: u32, modifier: i32) -> (dice: Dice)
        ensures
            dice@ == (DiceView { count: count as int, sides: sides as int, modifier: modifier as int }),
    {
        Dice { count, sides, modifier }
    }

    /// Number of dice.
    pub fn count(&self) -> (n: u32)
        ensures
            n == self@.count,
    {
        self.count
    }

    /// Number of sides of each die.
    pub fn sides(&self) -> (n: u32)
        ensures
            n == self@.sides,
    {
        self.sides
    }

    /// The modifier added to the sum of the dice.
    pub fn modifier(&self) -> (n: i32)
        ensures
            n == self@.modifier,
    {
        self.modifier
    }

    /// Whether the specification can be rolled.
    pub fn is_rollable(&self) -> (b: bool)
        ensures
            b == self@.rollable(),
    {
        self.count <= MAX_DICE && MIN_SIDES <= self.sides && self.sides <= MAX_SIDES
    }

    /// The fields of a view are within their integer types.
    pub proof fn lemma_view_bounds(&self)
        ensures
            0 <= self@.count <= u32::MAX,
            0 <= self@.sides <= u32::MAX,
            i32::MIN <= self@.modifier <= i32::MAX,
    {
    }

    /// The result of the given rolls under this specification.
    pub fn total(&self, rolls: &Vec<u32>) -> (result: u32)
        ensures
            result == roll_total(rolls@, self@.modifier),
    {
        let cap: u64 = 0x2_0000_0000;
        let mut acc: u64 = 0;
        let mut i: usize = 0;
        while i < rolls.len()
            invariant
                i <= rolls@.len(),
                cap == 0x2_0000_0000,
                acc <= cap,
                sum_rolls(rolls@.take(i as int)) >= 0,
                acc == if sum_rolls(rolls@.take(i as int)) <= cap {
                    sum_rolls(rolls@.take(i as int))
                } else {
                    cap as int
                },
            decreases rolls@.len() - i,
        {
            proof {
                assert(rolls@.take(i as int + 1).drop_last() =~= rolls@.take(i as int));
            }
            acc = acc + rolls[i] as u64;
            if acc > cap {
                acc = cap;
            }
            i += 1;
        }
        proof {
            assert(rolls@.take(i as int) =~= rolls@);
        }
        let raw: i64 = acc as i64 + self.modifier as i64;
        if raw < 0 {
            0
        } else if raw > u32::MAX as i64 {
            u32::MAX
        } else {
            raw as u32
        }
    }

    /// Rolls the dice: one throw per die, and the result of the throws. A
    /// die needs a side to show.
    pub fn roll(&self) -> (r: (u32, Vec<u32>))
        requires
            self@.sides >= 1,
        ensures
            r.1@.len() == self@.count,
            rolls_in_range(r.1@, self@.sides),
            r.0 == roll_total(r.1@, self@.modifier),
    {
        let mut rolls: Vec<u32> = Vec::new();
        let mut i: u32 = 0;
        while i < self.count
            invariant
                i <= self.count,
                self.sides >= 1,
                rolls@.len() == i,
                rolls_in_range(rolls@, self.sides as int),
            decreases self.count - i,
        {
            let face = throw_die(self.sides);
            rolls.push(face);
            i += 1;
        }
        let result = self.total(&rolls);
        (result, rolls)
    }
}

/// The text that describes an error.
pub open spec fn dice_error_text(e: DiceError) -> Seq<char> {
    match e {
        DiceError::TooManyDice => "Too many dice rolls! Please roll 500 dice or fewer."@,
        DiceError::InvalidSides => "Invalid number of sides for the dice."@,
        DiceError::InvalidFormat => "Invalid dice format"@,
        DiceError::NumberTooLarge => "number too large to fit in target type"@,
    }
}

impl DiceError {
    /// The text that describes the error.
    pub fn message(&self) -> (text: String)
        ensures
            text@ == dice_error_text(*self),
    {
        match self {
            DiceError::TooManyDice => "Too many dice rolls! Please roll 500 dice or fewer.".to_owned(),
            DiceError::InvalidSides => "Invalid number of sides for the dice.".to_owned(),
            DiceError::InvalidFormat => "Invalid dice format".to_owned(),
            DiceError::NumberTooLarge => "number too large to fit in target type".to_owned(),
        }
    }
}

/// The text of a dice specification: the count, a `d`, the sides, and a
/// modifier other than zero with its sign.
pub open spec fn dice_text(dice: DiceView) -> Seq<char> {
    chars_of(
        dec_digits(dice.count as nat) + seq![100u8] + dec_digits(dice.sides as nat) + (if dice.modifier
            == 0 {
            Seq::<u8>::empty()
        } else if dice.modifier > 0 {
            seq![43u8] + dec_digits(dice.modifier as nat)
        } else {
            int_text(dice.modifier)
        }),
    )
}

/// Whether a character is a decimal digit.
pub open spec fn is_digit_char(c: char) -> bool {
    48 <= c as u32 <= 57
}

/// The first position at or after `from` that holds no digit.
pub open spec fn digits_end(s: Seq<char>, from: int) -> int
    decreases s.len() - from,
{
    if from < 0 || from >= s.len() {
        s.len() as int
    } else if is_digit_char(s[from]) {
        digits_end(s, from + 1)
    } else {
        from
    }
}

/// The first position at or after `from` that holds no white space.
pub open spec fn whitespace_end(s: Seq<char>, from: int) -> int
    decreases s.len() - from,
{
    if from < 0 || from >= s.len() {
        s.len() as int
    } else if is_whitespace(s[from]) {
        whitespace_end(s, from + 1)
    } else {
        from
    }
}

/// The number that the digits from `from` up to `to` stand for.
pub open spec fn digits_value(s: Seq<char>, from: int, to: int) -> nat
    decreases to - from,
{
    if to <= from {
        0
    } else {
        digits_value(s, from, to - 1) * 10 + (s[to - 1] as u32 - 48) as nat
    }
}

/// The parts of a dice text: where the digits of the count end, where
/// those of the sides end, and, where there is a modifier, whether it is
/// negative and where its digits start. The text has the count, which may
/// be left out, a `d` in either case, the sides, and then white space or
/// nothing; or, after white space or none, a sign, white space or none,
/// and the digits of the modifier up to the end.
pub struct DiceParts {
    pub count_end: int,
    pub sides_end: int,
    pub modifier: Option<(bool, int)>,
}

/// The parts of a dice text, or nothing where the text has not that form.
pub open spec fn dice_parts(s: Seq<char>) -> Option<DiceParts> {
    let count_end = digits_end(s, 0);
    if !(count_end < s.len() && (s[count_end] == 'd' || s[count_end] == 'D')) {
        None
    } else {
        let sides_end = digits_end(s, count_end + 1);
        if sides_end == count_end + 1 {
            None
        } else {
            let sign_at = whitespace_end(s, sides_end);
            if sign_at == s.len() {
                Some(DiceParts { count_end, sides_end, modifier: None })
            } else if s[sign_at] == '+' || s[sign_at] == '-' {
                let digits_at = whitespace_end(s, sign_at + 1);
                let end = digits_end(s, digits_at);
                if end == digits_at || end != s.len() {
                    None
                } else {
                    Some(
                        DiceParts {
                            count_end,
                            sides_end,
                            modifier: Some((s[sign_at] == '-', digits_at)),
                        },
                    )
                }
            } else {
                None
            }
        }
    }
}

/// What a dice text specifies. A text of another form is refused first,
/// then a number that does not fit its type, the count before the sides
/// before the modifier, then too many dice, then sides out of range.
pub open spec fn dice_of_text(s: Seq<char>) -> Result<DiceView, DiceError> {
    match dice_parts(s) {
        None => Err(DiceError::InvalidFormat),
        Some(parts) => {
            let count = if parts.count_end == 0 {
                1nat
            } else {
                digits_value(s, 0, parts.count_end)
            };
            let sides = digits_value(s, parts.count_end + 1, parts.sides_end);
            let magnitude = match parts.modifier {
                Some((_, digits_at)) => digits_value(s, digits_at, s.len() as int),
                None => 0nat,
            };
            let modifier = match parts.modifier {
                Some((true, _)) => -(magnitude as int),
                _ => magnitude as int,
            };
            if count > u32::MAX || sides > u32::MAX || magnitude > i32::MAX {
                Err(DiceError::NumberTooLarge)
            } else if count > MAX_DICE {
                Err(DiceError::TooManyDice)
            } else if !(MIN_SIDES <= sides <= MAX_SIDES) {
                Err(DiceError::InvalidSides)
            } else {
                Ok(DiceView { count: count as int, sides: sides as int, modifier })
            }
        },
    }
}

/// The view of the result of reading a dice text.
pub open spec fn dice_result_view(r: Result<Dice, DiceError>) -> Result<DiceView, DiceError> {
    match r {
        Ok(dice) => Ok(dice@),
        Err(e) => Err(e),
    }
}

proof fn lemma_digits_end_of_run(s: Seq<char>, from: int, to: int)
    requires
        0 <= from <= to <= s.len(),
        forall|i: int| from <= i < to ==> is_digit_char(#[trigger] s[i]),
        to == s.len() || !is_digit_char(s[to]),
    ensures
        digits_end(s, from) == to,
    decreases to - from,
{
    if from < to {
        assert(is_digit_char(s[from]));
        lemma_digits_end_of_run(s, from + 1, to);
    }
}

proof fn lemma_digits_value_of_number(bytes: Seq<u8>, pos: int, n: nat)
    requires
        has_at(bytes, pos, dec_digits(n)),
    ensures
        digits_value(chars_of(bytes), pos, pos + dec_digits(n).len()) == n,
        forall|i: int|
            pos <= i < pos + dec_digits(n).len() ==> is_digit_char(#[trigger] chars_of(bytes)[i]),
    decreases n,
{
    let s = chars_of(bytes);
    let digits = dec_digits(n);
    lemma_dec_digits(n);
    assert forall|i: int| pos <= i < pos + digits.len() implies is_digit_char(#[trigger] s[i]) by {
        lemma_has_at_index(bytes, pos, digits, i - pos);
        assert(crate::text::is_digit(digits[i - pos]));
    }
    if n < 10 {
        lemma_has_at_index(bytes, pos, digits, 0);
        assert(digits_value(s, pos, pos) == 0);
    } else {
        let head = dec_digits(n / 10);
        let last = (48 + n % 10) as u8;
        assert(digits =~= head + seq![last]);
        lemma_has_at_concat(bytes, pos, head, seq![last]);
        lemma_has_at_index(bytes, pos + head.len(), seq![last], 0);
        lemma_digits_value_of_number(bytes, pos, n / 10);
    }
}

/// Reading the text of a dice specification gives the specification back,
/// for every specification that can be rolled and whose modifier has a
/// magnitude that fits a signed 32-bit number.
pub proof fn lemma_dice_text_round_trip(dice: DiceView)
    requires
        dice.rollable(),
        dice.modifier > i32::MIN,
    ensures
        dice_of_text(dice_text(dice)) == Ok::<DiceView, DiceError>(dice),
{
    let count = dec_digits(dice.count as nat);
    let sides = dec_digits(dice.sides as nat);
    let magnitude: nat = if dice.modifier < 0 {
        (-dice.modifier) as nat
    } else {
        dice.modifier as nat
    };
    let digits = dec_digits(magnitude);
    let tail: Seq<u8> = if dice.modifier == 0 {
        Seq::<u8>::empty()
    } else if dice.modifier > 0 {
        seq![43u8] + digits
    } else {
        seq![45u8] + digits
    };
    let head = count + seq![100u8] + sides;
    let bytes = head + tail;
    let s = chars_of(bytes);
    assert(dice_text(dice) == s);
    lemma_dec_digits(dice.count as nat);
    lemma_dec_digits(dice.sides as nat);
    lemma_dec_digits(magnitude);
    assert(bytes.subrange(0, bytes.len() as int) =~= bytes);
    lemma_has_at_concat(bytes, 0, head, tail);
    lemma_has_at_concat(bytes, 0, count + seq![100u8], sides);
    lemma_has_at_concat(bytes, 0, count, seq![100u8]);
    let c = count.len() as int;
    let e = c + 1 + sides.len();
    lemma_has_at_index(bytes, c, seq![100u8], 0);
    assert(s[c] == 'd');
    lemma_digits_value_of_number(bytes, 0, dice.count as nat);
    lemma_digits_value_of_number(bytes, c + 1, dice.sides as nat);
    lemma_digits_end_of_run(s, 0, c);
    if dice.modifier == 0 {
        assert(e == s.len());
        lemma_digits_end_of_run(s, c + 1, e);
    } else {
        lemma_has_at_concat(bytes, e, seq![bytes[e]], digits);
        lemma_has_at_index(bytes, e, tail, 0);
        assert(s[e] == '+' || s[e] == '-');
        assert(s[e] == '-' <==> dice.modifier < 0);
        lemma_digits_end_of_run(s, c + 1, e);
        lemma_digits_value_of_number(bytes, e + 1, magnitude);
        lemma_has_at_index(bytes, e + 1, digits, 0);
        lemma_digits_end_of_run(s, e + 1, s.len() as int);
    }
}

fn is_digit(c: char) -> (b: bool)
    ensures
        b == is_digit_char(c),
{
    let u = c as u32;
    48 <= u && u <= 57
}

fn scan_digits(s: &str, n: usize, from: usize) -> (end: usize)
    requires
        n == s@.len(),
        from <= n,
    ensures
        end == digits_end(s@, from as int),
        from <= end <= n,
{
    let mut at: usize = from;
    while at < n && is_digit(s.get_char(at))
        invariant
            from <= at <= n,
            n == s@.len(),
            digits_end(s@, from as int) == digits_end(s@, at as int),
        decreases n - at,
    {
        at += 1;
    }
    at
}

fn scan_whitespace(s: &str, n: usize, from: usize) -> (end: usize)
    requires
        n == s@.len(),
        from <= n,
    ensures
        end == whitespace_end(s@, from as int),
        from <= end <= n,
{
    let mut at: usize = from;
    while at < n && is_whitespace_char(s.get_char(at))
        invariant
            from <= at <= n,
            n == s@.len(),
            whitespace_end(s@, from as int) == whitespace_end(s@, at as int),
        decreases n - at,
    {
        at += 1;
    }
    at
}

/// Largest value that [`read_digits`] tells apart from larger ones.
const DIGITS_CAP: u64 = 0x100_0000_0000;

proof fn lemma_digits_all(s: Seq<char>, from: int, end: int, i: int)
    requires
        0 <= from <= i < end,
        end == digits_end(s, from),
    ensures
        is_digit_char(s[i]),
        i < s.len(),
    decreases i - from,
{
    if i > from {
        lemma_digits_all(s, from + 1, end, i);
    }
}

fn read_digits(s: &str, from: usize, to: usize) -> (value: u64)
    requires
        from <= to <= s@.len(),
        to == digits_end(s@, from as int),
    ensures
        value == if digits_value(s@, from as int, to as int) <= DIGITS_CAP {
            digits_value(s@, from as int, to as int)
        } else {
            DIGITS_CAP as nat
        },
{
    let mut acc: u64 = 0;
    let mut at: usize = from;
    while at < to
        invariant
            from <= at <= to <= s@.len(),
            to == digits_end(s@, from as int),
            acc == if digits_value(s@, from as int, at as int) <= DIGITS_CAP {
                digits_value(s@, from as int, at as int)
            } else {
                DIGITS_CAP as nat
            },
        decreases to - at,
    {
        proof {
            lemma_digits_all(s@, from as int, to as int, at as int);
        }
        let c = s.get_char(at);
        let d: u64 = (c as u32 - 48) as u64;
        acc = acc * 10 + d;
        if acc > DIGITS_CAP {
            acc = DIGITS_CAP;
        }
        at += 1;
    }
    acc
}

impl Dice {
    /// Reads a dice specification such as `3d6+2`, `d20` or `2D8 - 1`.
    pub fn from_str(s: &str) -> (r: Result<Dice, DiceError>)
        ensures
            dice_result_view(r) == dice_of_text(s@),
            r matches Ok(dice) ==> dice@.rollable(),
    {
        let n = s.unicode_len();
        let count_end = scan_digits(s, n, 0);
        if count_end >= n {
            return Err(DiceError::InvalidFormat);
        }
        let letter = s.get_char(count_end);
        if letter != 'd' && letter != 'D' {
            return Err(DiceError::InvalidFormat);
        }
        let sides_end = scan_digits(s, n, count_end + 1);
        if sides_end == count_end + 1 {
            return Err(DiceError::InvalidFormat);
        }
        let sign_at = scan_whitespace(s, n, sides_end);
        let mut negative = false;
        let mut magnitude: u64 = 0;
        if sign_at < n {
            let sign = s.get_char(sign_at);
            if sign != '+' && sign != '-' {
                return Err(DiceError::InvalidFormat);
            }
            negative = sign == '-';
            let digits_at = scan_whitespace(s, n, sign_at + 1);
            let end = scan_digits(s, n, digits_at);
            if end == digits_at || end != n {
                return Err(DiceError::InvalidFormat);
            }
            magnitude = read_digits(s, digits_at, n);
        }
        let count: u64 = if count_end == 0 {
            1
        } else {
            read_digits(s, 0, count_end)
        };
        let sides = read_digits(s, count_end + 1, sides_end);
        if count > u32::MAX as u64 || sides > u32::MAX as u64 || magnitude > i32::MAX as u64 {
            return Err(DiceError::NumberTooLarge);
        }
        let modifier: i32 = if negative {
            -(magnitude as i32)
        } else {
            magnitude as i32
        };
        Dice::new(count as u32, sides as u32, modifier)
    }

    /// The text of the specification, such as `3d6+2`.
    pub fn to_string(&self) -> (text: String)
        ensures
            text@ == dice_text(self@),
    {
        let mut out: Vec<u8> = Vec::new();
        write_nat(&mut out, self.count as u64);
        out.push(100);
        write_nat(&mut out, self.sides as u64);
        if self.modifier > 0 {
            out.push(43);
            write_nat(&mut out, self.modifier as u64);
        } else if self.modifier < 0 {
            write_int(&mut out, self.modifier as i64);
        }
        let text = ascii_string(out.as_slice());
        proof {
            assert(out@ =~= dec_digits(self@.count as nat) + seq![100u8] + dec_digits(
                self@.sides as nat,
            ) + (if self@.modifier == 0 {
                Seq::<u8>::empty()
            } else if self@.modifier > 0 {
                seq![43u8] + dec_digits(self@.modifier as nat)
            } else {
                int_text(self@.modifier)
            }));
        }
        text
    }
}

} // verus!
