//! Integers of every primitive type: the model of their extraction, what holds
//! of it, and the extraction itself.

use crate::cursor::{input_of, Cursor, Step};
use crate::extract::{lemma_reading_passes_blanks, reading, Extract};
use crate::fixed::FixedInt;
use crate::reader::Rio;
use crate::stream::Fetch;
use crate::utils::{
    checked_add, checked_mul, is_blank, is_digit, small_value_to_num, to_digit, zero,
};
use num_traits::{CheckedAdd, CheckedMul, FromPrimitive, Zero};
use std::io::Read;
use vstd::prelude::*;

verus! {

/// What an integer is read as: the range of the target type, and whether a
/// leading `-` is taken.
pub struct IntKind {
    pub lowest: int,
    pub highest: int,
    pub signed: bool,
}

/// How far the reading of an integer has come.
pub struct IntScan {
    /// The value of the digits taken so far, with the sign.
    pub value: int,
    /// Whether a digit has been taken.
    pub started: bool,
    /// Whether a leading `-` has been taken.
    pub negative: bool,
}

impl IntScan {
    /// Nothing taken yet.
    pub open spec fn start() -> IntScan {
        IntScan { value: 0, started: false, negative: false }
    }

    /// The value once the digit `byte` is taken as well.
    pub open spec fn grown(self, byte: u8) -> int {
        self.value * 10 + if self.negative {
            0x30 - byte
        } else {
            byte - 0x30
        }
    }

    /// Whether `byte` is taken as the sign.
    pub open spec fn takes_sign(self, kind: IntKind, byte: u8) -> bool {
        kind.signed && !self.started && !self.negative && byte == 0x2d
    }

    /// Whether `byte` is taken as a digit: it is one, and the value with it
    /// stays within the range.
    pub open spec fn takes_digit(self, kind: IntKind, byte: u8) -> bool {
        is_digit(byte) && kind.lowest <= self.grown(byte) <= kind.highest
    }

    /// The end of the reading: the value, where a digit was taken. Where
    /// none was, nothing is found, and a sign that was taken is pushed back.
    pub open spec fn finish(self, cursor: Cursor, rest: Seq<Fetch>) -> Step<Option<int>> {
        if self.started {
            Step { out: Some(self.value), cursor, rest }
        } else if self.negative {
            Step { out: None, cursor: cursor.push_back(0x2d), rest }
        } else {
            Step { out: None, cursor, rest }
        }
    }

    /// The reading continued from here: bytes are requested one by one. A
    /// `-` before any digit is taken once, where the kind is signed; digits
    /// are taken as long as the value stays within the range; the first byte
    /// that is not taken is pushed back and ends the reading, as does a
    /// request that yields no byte.
    pub open spec fn run(self, kind: IntKind, cursor: Cursor, input: Seq<Fetch>) -> Step<
        Option<int>,
    >
        decreases cursor.supply(input),
    {
        let step = cursor.getch(input);
        match step.out {
            None => self.finish(step.cursor, step.rest),
            Some(byte) => {
                if self.takes_sign(kind, byte) {
                    proof {
                        cursor.lemma_getch_supply(input);
                    }
                    IntScan { negative: true, ..self }.run(kind, step.cursor, step.rest)
                } else if self.takes_digit(kind, byte) {
                    proof {
                        cursor.lemma_getch_supply(input);
                    }
                    IntScan { value: self.grown(byte), started: true, ..self }.run(
                        kind,
                        step.cursor,
                        step.rest,
                    )
                } else {
                    self.finish(step.cursor.push_back(byte), step.rest)
                }
            },
        }
    }
}

/// What the extraction of an integer of the given kind comes to.
pub open spec fn int_extraction(kind: IntKind, cursor: Cursor, input: Seq<Fetch>) -> Step<
    Option<int>,
> {
    IntScan::start().run(kind, cursor, input)
}

/// Whether every byte of `bytes` is a digit.
pub open spec fn all_digits(bytes: Seq<u8>) -> bool {
    forall|i: int| 0 <= i < bytes.len() ==> is_digit(#[trigger] bytes[i])
}

/// The number that `digits` write in decimal notation.
pub open spec fn decimal(digits: Seq<u8>) -> int
    decreases digits.len(),
{
    if digits.len() == 0 {
        0
    } else {
        decimal(digits.drop_last()) * 10 + (digits.last() - 0x30)
    }
}

/// The number that `digits` write behind a sign.
pub open spec fn signed_decimal(negative: bool, digits: Seq<u8>) -> int {
    if negative {
        -decimal(digits)
    } else {
        decimal(digits)
    }
}

/// A number does not get smaller when a digit is written behind it.
pub proof fn lemma_decimal_grows(digits: Seq<u8>)
    requires
        all_digits(digits),
    ensures
        0 <= decimal(digits),
        digits.len() > 0 ==> decimal(digits.drop_last()) <= decimal(digits),
    decreases digits.len(),
{
    if digits.len() > 0 {
        lemma_decimal_grows(digits.drop_last());
    }
}

impl IntScan {
    /// A byte pushed back onto an idle reader is read as if it were still to
    /// come from the source.
    pub proof fn lemma_run_pushed_back(
        self,
        kind: IntKind,
        cursor: Cursor,
        byte: u8,
        rest: Seq<Fetch>,
    )
        requires
            cursor.idle(),
        ensures
            self.run(kind, cursor.push_back(byte), rest) == self.run(
                kind,
                cursor,
                seq![Fetch::Byte(byte)] + rest,
            ),
    {
        cursor.lemma_push_back_is_unread(byte, rest);
    }

    /// Digits that keep the value within the range are all taken: behind a
    /// sign or at the start, an idle reader comes through them to the number
    /// that they write.
    pub proof fn lemma_takes_digits(
        kind: IntKind,
        negative: bool,
        cursor: Cursor,
        digits: Seq<u8>,
        tail: Seq<Fetch>,
    )
        requires
            cursor.idle(),
            all_digits(digits),
            kind.lowest <= 0 <= kind.highest,
            kind.lowest <= signed_decimal(negative, digits) <= kind.highest,
        ensures
            (IntScan { value: 0, started: false, negative }).run(
                kind,
                cursor,
                input_of(digits) + tail,
            ) == (IntScan {
                value: signed_decimal(negative, digits),
                started: digits.len() > 0,
                negative,
            }).run(kind, cursor, tail),
        decreases digits.len(),
    {
        if digits.len() > 0 {
            let earlier = digits.drop_last();
            let later = seq![Fetch::Byte(digits.last())] + tail;
            lemma_decimal_grows(digits);
            lemma_decimal_grows(earlier);
            assert(input_of(digits) + tail =~= input_of(earlier) + later);
            Self::lemma_takes_digits(kind, negative, cursor, earlier, later);
            cursor.lemma_idle_takes_byte(digits.last(), tail);
        }
    }
}

/// An idle reader reads digits as the number that they write, for as long as
/// that number fits the range, and pushes back the byte at which it stops: a
/// byte that is no digit, or a digit with which the number would leave the
/// range.
pub proof fn lemma_number_stops_at(
    kind: IntKind,
    cursor: Cursor,
    digits: Seq<u8>,
    after: u8,
    tail: Seq<Fetch>,
)
    requires
        cursor.idle(),
        all_digits(digits),
        digits.len() > 0,
        kind.lowest <= 0,
        decimal(digits) <= kind.highest,
        !is_digit(after) || decimal(digits.push(after)) > kind.highest,
    ensures
        int_extraction(kind, cursor, input_of(digits.push(after)) + tail) == (Step {
            out: Some(decimal(digits)),
            cursor: cursor.push_back(after),
            rest: tail,
        }),
{
    let later = seq![Fetch::Byte(after)] + tail;
    lemma_decimal_grows(digits);
    assert(input_of(digits.push(after)) + tail =~= input_of(digits) + later);
    IntScan::lemma_takes_digits(kind, false, cursor, digits, later);
    cursor.lemma_idle_takes_byte(after, tail);
    assert(digits.push(after).drop_last() =~= digits);
}

/// An idle reader whose source ends or fails behind digits that fit the range
/// reads them as the number that they write; nothing is found where there is
/// no digit.
pub proof fn lemma_number_stops_at_end(
    kind: IntKind,
    cursor: Cursor,
    digits: Seq<u8>,
    tail: Seq<Fetch>,
)
    requires
        cursor.idle(),
        all_digits(digits),
        kind.lowest <= 0,
        decimal(digits) <= kind.highest,
        tail.len() > 0 ==> !(tail[0] is Byte),
    ensures
        int_extraction(kind, cursor, input_of(digits) + tail) == (Step {
            out: if digits.len() > 0 {
                Some(decimal(digits))
            } else {
                None
            },
            cursor: cursor.getch(tail).cursor,
            rest: cursor.getch(tail).rest,
        }),
{
    lemma_decimal_grows(digits);
    IntScan::lemma_takes_digits(kind, false, cursor, digits, tail);
    cursor.lemma_idle_takes_end(tail);
}

/// Where the digits go beyond the greatest value of the range, reading stops
/// before the first digit with which the number would exceed it: the number
/// up to there is read, unchanged, and that digit is pushed back.
pub proof fn lemma_overflow_boundary(
    kind: IntKind,
    cursor: Cursor,
    digits: Seq<u8>,
    excess: u8,
    tail: Seq<Fetch>,
)
    requires
        cursor.idle(),
        all_digits(digits.push(excess)),
        digits.len() > 0,
        kind.lowest <= 0,
        decimal(digits) <= kind.highest < decimal(digits.push(excess)),
    ensures
        int_extraction(kind, cursor, input_of(digits.push(excess)) + tail) == (Step {
            out: Some(decimal(digits)),
            cursor: cursor.push_back(excess),
            rest: tail,
        }),
{
    assert forall|i: int| 0 <= i < digits.len() implies is_digit(#[trigger] digits[i]) by {
        assert(digits[i] == digits.push(excess)[i]);
    }
    lemma_number_stops_at(kind, cursor, digits, excess, tail);
}

/// An idle reader of a signed kind reads `-` and digits as the negative
/// number that they write, for as long as that number fits the range, and
/// pushes back the byte at which it stops.
pub proof fn lemma_negative_number_stops_at(
    kind: IntKind,
    cursor: Cursor,
    digits: Seq<u8>,
    after: u8,
    tail: Seq<Fetch>,
)
    requires
        cursor.idle(),
        kind.signed,
        all_digits(digits),
        digits.len() > 0,
        0 <= kind.highest,
        kind.lowest <= -decimal(digits),
        !is_digit(after) || -decimal(digits.push(after)) < kind.lowest,
    ensures
        int_extraction(
            kind,
            cursor,
            seq![Fetch::Byte(0x2d)] + input_of(digits.push(after)) + tail,
        ) == (Step { out: Some(-decimal(digits)), cursor: cursor.push_back(after), rest: tail }),
{
    let later = seq![Fetch::Byte(after)] + tail;
    let signless = input_of(digits.push(after)) + tail;
    lemma_decimal_grows(digits);
    assert(seq![Fetch::Byte(0x2d)] + input_of(digits.push(after)) + tail =~= seq![
        Fetch::Byte(0x2d),
    ] + signless);
    cursor.lemma_idle_takes_byte(0x2d, signless);
    assert(signless =~= input_of(digits) + later);
    IntScan::lemma_takes_digits(kind, true, cursor, digits, later);
    cursor.lemma_idle_takes_byte(after, tail);
    assert(digits.push(after).drop_last() =~= digits);
}

/// A `-` with no digit behind it is no number: nothing is found, and the
/// sign is pushed back, in place of the byte that came after it.
pub proof fn lemma_lone_sign(kind: IntKind, cursor: Cursor, after: u8, tail: Seq<Fetch>)
    requires
        cursor.idle(),
        kind.signed,
        !is_digit(after),
    ensures
        int_extraction(kind, cursor, seq![Fetch::Byte(0x2d), Fetch::Byte(after)] + tail) == (Step {
            out: None::<int>,
            cursor: cursor.push_back(0x2d),
            rest: tail,
        }),
{
    let later = seq![Fetch::Byte(after)] + tail;
    assert(seq![Fetch::Byte(0x2d), Fetch::Byte(after)] + tail =~= seq![Fetch::Byte(0x2d)] + later);
    cursor.lemma_idle_takes_byte(0x2d, later);
    cursor.lemma_idle_takes_byte(after, tail);
    let signed = IntScan { negative: true, ..IntScan::start() };
    assert(signed.run(kind, cursor, later) == signed.finish(cursor.push_back(after), tail));
}

/// A byte that starts no number is pushed back, and nothing is found.
pub proof fn lemma_no_number(kind: IntKind, cursor: Cursor, first: u8, tail: Seq<Fetch>)
    requires
        cursor.idle(),
        !is_digit(first),
        !(kind.signed && first == 0x2d),
    ensures
        int_extraction(kind, cursor, seq![Fetch::Byte(first)] + tail) == (Step {
            out: None::<int>,
            cursor: cursor.push_back(first),
            rest: tail,
        }),
{
    cursor.lemma_idle_takes_byte(first, tail);
}

/// A blocked reader with no byte pending finds no number and takes nothing
/// from its source.
pub proof fn lemma_blocked_finds_nothing(kind: IntKind, cursor: Cursor, input: Seq<Fetch>)
    requires
        cursor.blocked(),
        cursor.pending is None,
    ensures
        int_extraction(kind, cursor, input) == (Step {
            out: None::<int>,
            cursor: Cursor { skip_count: 0, ..cursor },
            rest: input,
        }),
{
    cursor.lemma_blocked_takes_nothing(input);
}

/// Whatever the input, a number that is found lies within the range.
pub proof fn lemma_found_within(scan: IntScan, kind: IntKind, cursor: Cursor, input: Seq<Fetch>)
    requires
        kind.lowest <= scan.value <= kind.highest,
    ensures
        scan.run(kind, cursor, input).out is Some ==> kind.lowest <= scan.run(
            kind,
            cursor,
            input,
        ).out->0 <= kind.highest,
    decreases cursor.supply(input),
{
    let step = cursor.getch(input);
    cursor.lemma_getch_supply(input);
    match step.out {
        None => {},
        Some(byte) => {
            if scan.takes_sign(kind, byte) {
                lemma_found_within(
                    IntScan { negative: true, ..scan },
                    kind,
                    step.cursor,
                    step.rest,
                );
            } else if scan.takes_digit(kind, byte) {
                lemma_found_within(
                    IntScan { value: scan.grown(byte), started: true, ..scan },
                    kind,
                    step.cursor,
                    step.rest,
                );
            }
        },
    }
}

/// Whether the values of `T` are extracted as integers of the given kind.
pub open spec fn extracts_as<T: Extract<Value = int>>(kind: IntKind) -> bool {
    forall|cursor: Cursor, input: Seq<Fetch>| #[trigger]
        T::extraction(cursor, input) == int_extraction(kind, cursor, input)
}

/// A read of an integer by an idle reader passes over the separators, reads
/// the digits as the number that they write, for as long as that number fits
/// the range, and leaves the byte at which it stops for the next read.
pub proof fn lemma_reading_number<T: Extract<Value = int>>(
    kind: IntKind,
    cursor: Cursor,
    blanks: Seq<u8>,
    digits: Seq<u8>,
    after: u8,
    tail: Seq<Fetch>,
)
    requires
        extracts_as::<T>(kind),
        cursor.idle(),
        forall|i: int| 0 <= i < blanks.len() ==> is_blank(#[trigger] blanks[i]),
        all_digits(digits),
        digits.len() > 0,
        kind.lowest <= 0,
        decimal(digits) <= kind.highest,
        !is_digit(after) || decimal(digits.push(after)) > kind.highest,
    ensures
        reading::<T>(cursor, input_of(blanks + digits.push(after)) + tail) == (Step {
            out: Some(decimal(digits)),
            cursor: cursor.push_back(after),
            rest: tail,
        }),
{
    let first = digits[0];
    let later = input_of(digits.drop_first().push(after)) + tail;
    assert(input_of(blanks + digits.push(after)) + tail =~= input_of(blanks.push(first)) + later);
    lemma_reading_passes_blanks::<T>(cursor, blanks, first, later);
    IntScan::start().lemma_run_pushed_back(kind, cursor, first, later);
    assert(seq![Fetch::Byte(first)] + later =~= input_of(digits.push(after)) + tail);
    lemma_number_stops_at(kind, cursor, digits, after, tail);
}

/// A read of a signed integer by an idle reader that comes upon a `-` with no
/// digit behind it finds nothing and sets the extraction error; the sign is
/// left for the next read, the byte behind it is lost.
pub proof fn lemma_reading_lone_sign<T: Extract<Value = int>>(
    kind: IntKind,
    cursor: Cursor,
    blanks: Seq<u8>,
    after: u8,
    tail: Seq<Fetch>,
)
    requires
        extracts_as::<T>(kind),
        cursor.idle(),
        forall|i: int| 0 <= i < blanks.len() ==> is_blank(#[trigger] blanks[i]),
        kind.signed,
        !is_digit(after),
    ensures
        reading::<T>(cursor, input_of(blanks.push(0x2d).push(after)) + tail) == (Step {
            out: None::<int>,
            cursor: cursor.push_back(0x2d).failed(),
            rest: tail,
        }),
{
    let later = seq![Fetch::Byte(after)] + tail;
    assert(input_of(blanks.push(0x2d).push(after)) + tail =~= input_of(blanks.push(0x2d)) + later);
    lemma_reading_passes_blanks::<T>(cursor, blanks, 0x2d, later);
    IntScan::start().lemma_run_pushed_back(kind, cursor, 0x2d, later);
    assert(seq![Fetch::Byte(0x2d)] + later =~= seq![Fetch::Byte(0x2d), Fetch::Byte(after)] + tail);
    lemma_lone_sign(kind, cursor, after, tail);
}

/// Reads an integer of type `T` at the current position: an optional `-`
/// where `is_signed`, then digits, for as long as the value fits the type.
pub fn extract_int<T, R>(rio: &mut Rio<R>, is_signed: bool) -> (found: Option<T>) where
    T: FixedInt + Zero + FromPrimitive + CheckedAdd + CheckedMul,
    R: Read,

    requires
        is_signed ==> T::lowest() < 0,
    ensures
        final(rio).extends(old(rio)),
        forall|rest: Seq<Fetch>| #[trigger]
            int_extraction(
                IntKind { lowest: T::lowest(), highest: T::highest(), signed: is_signed },
                old(rio)@,
                final(rio).fetched_since(old(rio)) + rest,
            ) == (Step {
                out: match found {
                    Some(v) => Some(v.as_int()),
                    None => None,
                },
                cursor: final(rio)@,
                rest,
            }),
{
    let ghost kind = IntKind { lowest: T::lowest(), highest: T::highest(), signed: is_signed };
    proof {
        T::lemma_range();
    }
    let mut val: T = zero();
    let ten: T = small_value_to_num(10);

    let mut started = false;

    let mut sign: i8 = 1;
    let mut sign_consumed = false;

    loop
        invariant_except_break
            forall|rest: Seq<Fetch>| #[trigger]
                int_extraction(kind, old(rio)@, rio.fetched_since(old(rio)) + rest) == (IntScan {
                    value: val.as_int(),
                    started,
                    negative: sign_consumed,
                }).run(kind, rio@, rest),
        invariant
            rio.extends(old(rio)),
            kind == (IntKind { lowest: T::lowest(), highest: T::highest(), signed: is_signed }),
            T::lowest() == 0 || T::lowest() <= -128,
            127 <= T::highest(),
            is_signed ==> T::lowest() < 0,
            ten.as_int() == 10,
            sign == if sign_consumed { -1i8 } else { 1i8 },
            sign_consumed ==> is_signed && val.as_int() <= 0,
            !sign_consumed ==> val.as_int() >= 0,
            !started ==> val.as_int() == 0,
        ensures
            forall|rest: Seq<Fetch>| #[trigger]
                int_extraction(kind, old(rio)@, rio.fetched_since(old(rio)) + rest) == (IntScan {
                    value: val.as_int(),
                    started,
                    negative: sign_consumed,
                }).finish(rio@, rest),
        decreases rio.supply(),
    {
        let ghost before = *rio;
        let current = rio.getch();
        let ghost got = *rio;
        let mut goes_on = false;
        match current {
            None => {},
            Some(current) => {
                let as_digit = to_digit(current);
                if is_signed && !started && !sign_consumed && current == 0x2d {
                    sign = -1;
                    sign_consumed = true;
                    goes_on = true;
                } else {
                    let updated = match as_digit {
                        Some(x) => {
                            let x: T = small_value_to_num(x * sign);
                            match checked_mul(&val, &ten) {
                                Some(val) => checked_add(&val, &x),
                                None => None,
                            }
                        },
                        None => None,
                    };
                    match updated {
                        Some(updated) => {
                            val = updated;
                            started = true;
                            goes_on = true;
                        },
                        None => {
                            rio.ungetch(current);
                        },
                    }
                }
            },
        }
        proof {
            let sofar = before.fetched_since(old(rio));
            let fresh = got.fetched_since(&before);
            let next = IntScan { value: val.as_int(), started, negative: sign_consumed };
            assert forall|rest: Seq<Fetch>|
                int_extraction(
                    kind,
                    old(rio)@,
                    #[trigger] (rio.fetched_since(old(rio)) + rest),
                ) == (if goes_on {
                    next.run(kind, rio@, rest)
                } else {
                    next.finish(rio@, rest)
                }) by {
                assert(rio.fetched_since(old(rio)) + rest =~= sofar + (fresh + rest));
            }
        }
        if !goes_on {
            break;
        }
    }

    if started {
        Some(val)
    } else {
        if sign_consumed {
            rio.ungetch(0x2d);
        }
        None
    }
}

impl Extract for u8 {
    type Value = int;

    open spec fn value(&self) -> int {
        *self as int
    }

    open spec fn extraction(cursor: Cursor, input: Seq<Fetch>) -> Step<Option<int>> {
        int_extraction(
            IntKind { lowest: u8::MIN as int, highest: u8::MAX as int, signed: false },
            cursor,
            input,
        )
    }

    fn extract<R: Read>(rio: &mut Rio<R>) -> (found: Option<Self>) {
        extract_int(rio, false)
    }
}

impl Extract for u16 {
    type Value = int;

    open spec fn value(&self) -> int {
        *self as int
    }

    open spec fn extraction(cursor: Cursor, input: Seq<Fetch>) -> Step<Option<int>> {
        int_extraction(
            IntKind { lowest: u16::MIN as int, highest: u16::MAX as int, signed: false },
            cursor,
            input,
        )
    }

    fn extract<R: Read>(rio: &mut Rio<R>) -> (found: Option<Self>) {
        extract_int(rio, false)
    }
}

impl Extract for u32 {
    type Value = int;

    open spec fn value(&self) -> int {
        *self as int
    }

    open spec fn extraction(cursor: Cursor, input: Seq<Fetch>) -> Step<Option<int>> {
        int_extraction(
            IntKind { lowest: u32::MIN as int, highest: u32::MAX as int, signed: false },
            cursor,
            input,
        )
    }

    fn extract<R: Read>(rio: &mut Rio<R>) -> (found: Option<Self>) {
        extract_int(rio, false)
    }
}

impl Extract for u64 {
    type Value = int;

    open spec fn value(&self) -> int {
        *self as int
    }

    open spec fn extraction(cursor: Cursor, input: Seq<Fetch>) -> Step<Option<int>> {
        int_extraction(
            IntKind { lowest: u64::MIN as int, highest: u64::MAX as int, signed: false },
            cursor,
            input,
        )
    }

    fn extract<R: Read>(rio: &mut Rio<R>) -> (found: Option<Self>) {
        extract_int(rio, false)
    }
}

impl Extract for u128 {
    type Value = int;

    open spec fn value(&self) -> int {
        *self as int
    }

    open spec fn extraction(cursor: Cursor, input: Seq<Fetch>) -> Step<Option<int>> {
        int_extraction(
            IntKind { lowest: u128::MIN as int, highest: u128::MAX as int, signed: false },
            cursor,
            input,
        )
    }

    fn extract<R: Read>(rio: &mut Rio<R>) -> (found: Option<Self>) {
        extract_int(rio, false)
    }
}

impl Extract for usize {
    type Value = int;

    open spec fn value(&self) -> int {
        *self as int
    }

    open spec fn extraction(cursor: Cursor, input: Seq<Fetch>) -> Step<Option<int>> {
        int_extraction(
            IntKind { lowest: usize::MIN as int, highest: usize::MAX as int, signed: false },
            cursor,
            input,
        )
    }

    fn extract<R: Read>(rio: &mut Rio<R>) -> (found: Option<Self>) {
        extract_int(rio, false)
    }
}

impl Extract for i8 {
    type Value = int;

    open spec fn value(&self) -> int {
        *self as int
    }

    open spec fn extraction(cursor: Cursor, input: Seq<Fetch>) -> Step<Option<int>> {
        int_extraction(
            IntKind { lowest: i8::MIN as int, highest: i8::MAX as int, signed: true },
            cursor,
            input,
        )
    }

    fn extract<R: Read>(rio: &mut Rio<R>) -> (found: Option<Self>) {
        extract_int(rio, true)
    }
}

impl Extract for i16 {
    type Value = int;

    open spec fn value(&self) -> int {
        *self as int
    }

    open spec fn extraction(cursor: Cursor, input: Seq<Fetch>) -> Step<Option<int>> {
        int_extraction(
            IntKind { lowest: i16::MIN as int, highest: i16::MAX as int, signed: true },
            cursor,
            input,
        )
    }

    fn extract<R: Read>(rio: &mut Rio<R>) -> (found: Option<Self>) {
        extract_int(rio, true)
    }
}

impl Extract for i32 {
    type Value = int;

    open spec fn value(&self) -> int {
        *self as int
    }

    open spec fn extraction(cursor: Cursor, input: Seq<Fetch>) -> Step<Option<int>> {
        int_extraction(
            IntKind { lowest: i32::MIN as int, highest: i32::MAX as int, signed: true },
            cursor,
            input,
        )
    }

    fn extract<R: Read>(rio: &mut Rio<R>) -> (found: Option<Self>) {
        extract_int(rio, true)
    }
}

impl Extract for i64 {
    type Value = int;

    open spec fn value(&self) -> int {
        *self as int
    }

    open spec fn extraction(cursor: Cursor, input: Seq<Fetch>) -> Step<Option<int>> {
        int_extraction(
            IntKind { lowest: i64::MIN as int, highest: i64::MAX as int, signed: true },
            cursor,
            input,
        )
    }

    fn extract<R: Read>(rio: &mut Rio<R>) -> (found: Option<Self>) {
        extract_int(rio, true)
    }
}

impl Extract for i128 {
    type Value = int;

    open spec fn value(&self) -> int {
        *self as int
    }

    open spec fn extraction(cursor: Cursor, input: Seq<Fetch>) -> Step<Option<int>> {
        int_extraction(
            IntKind { lowest: i128::MIN as int, highest: i128::MAX as int, signed: true },
            cursor,
            input,
        )
    }

    fn extract<R: Read>(rio: &mut Rio<R>) -> (found: Option<Self>) {
        extract_int(rio, true)
    }
}

impl Extract for isize {
    type Value = int;

    open spec fn value(&self) -> int {
        *self as int
    }

    open spec fn extraction(cursor: Cursor, input: Seq<Fetch>) -> Step<Option<int>> {
        int_extraction(
            IntKind { lowest: isize::MIN as int, highest: isize::MAX as int, signed: true },
            cursor,
            input,
        )
    }

    fn extract<R: Read>(rio: &mut Rio<R>) -> (found: Option<Self>) {
        extract_int(rio, true)
    }
}

} // verus!
