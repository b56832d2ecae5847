//! Decimal numbers: a sign, digits, a point and more digits, kept as they were
//! written.

use crate::cursor::{input_of, Cursor, Step};
use crate::extract::Extract;
use crate::integer::all_digits;
use crate::reader::Rio;
use crate::stream::Fetch;
use crate::utils::{is_digit, to_digit};
use std::io::Read;
use vstd::prelude::*;

verus! {

/// A decimal number as it was written: a sign, the digits before the point
/// and the digits after it, each digit as its value. The library adds nothing
/// up: what number the digits make in a given floating-point type is for the
/// caller to compute.
#[derive(Debug, Clone, PartialEq, Eq)]
pub struct Decimal {
    pub negative: bool,
    pub whole: Vec<u8>,
    pub fraction: Vec<u8>,
}

/// What a `Decimal` stands for.
pub struct DecimalValue {
    pub negative: bool,
    pub whole: Seq<u8>,
    pub fraction: Seq<u8>,
}

/// Whether every one of `digits` is at most nine.
pub open spec fn digits_wf(digits: Seq<u8>) -> bool {
    forall|i: int| 0 <= i < digits.len() ==> #[trigger] digits[i] <= 9
}

impl DecimalValue {
    /// Whether every digit is at most nine.
    pub open spec fn wf(self) -> bool {
        digits_wf(self.whole) && digits_wf(self.fraction)
    }
}

impl View for Decimal {
    type V = DecimalValue;

    open spec fn view(&self) -> DecimalValue {
        DecimalValue { negative: self.negative, whole: self.whole@, fraction: self.fraction@ }
    }
}

impl Default for Decimal {
    /// No sign and no digits.
    fn default() -> (decimal: Decimal)
        ensures
            decimal@ == (DecimalValue {
                negative: false,
                whole: Seq::empty(),
                fraction: Seq::empty(),
            }),
    {
        Decimal { negative: false, whole: Vec::new(), fraction: Vec::new() }
    }
}

/// How far the reading of a decimal number has come.
pub struct DecimalScan {
    /// What has been taken so far.
    pub taken: DecimalValue,
    /// Whether the point has been taken.
    pub in_fraction: bool,
}

impl DecimalScan {
    /// Nothing taken yet.
    pub open spec fn start() -> DecimalScan {
        DecimalScan {
            taken: DecimalValue { negative: false, whole: Seq::empty(), fraction: Seq::empty() },
            in_fraction: false,
        }
    }

    /// Whether a digit has been taken.
    pub open spec fn started(self) -> bool {
        self.taken.whole.len() + self.taken.fraction.len() > 0
    }

    /// Whether `byte` is taken as the sign: a `-` before the point, before
    /// any digit and before any other sign.
    pub open spec fn takes_sign(self, byte: u8) -> bool {
        !self.in_fraction && !self.started() && !self.taken.negative && byte == 0x2d
    }

    /// Whether `byte` is taken as the point: the first `.`.
    pub open spec fn takes_point(self, byte: u8) -> bool {
        !self.in_fraction && byte == 0x2e
    }

    /// The state once the digit `byte` is taken.
    pub open spec fn with_digit(self, byte: u8) -> DecimalScan {
        let digit = (byte - 0x30) as u8;
        if self.in_fraction {
            DecimalScan {
                taken: DecimalValue { fraction: self.taken.fraction.push(digit), ..self.taken },
                ..self
            }
        } else {
            DecimalScan {
                taken: DecimalValue { whole: self.taken.whole.push(digit), ..self.taken },
                ..self
            }
        }
    }

    /// The end of the reading: what was taken, where a digit was. Where none
    /// was, nothing is found; a point that was taken is pushed back then, a
    /// sign that was taken is not.
    pub open spec fn finish(self, cursor: Cursor, rest: Seq<Fetch>) -> Step<Option<DecimalValue>> {
        if self.started() {
            Step { out: Some(self.taken), cursor, rest }
        } else if self.in_fraction {
            Step { out: None, cursor: cursor.push_back(0x2e), rest }
        } else {
            Step { out: None, cursor, rest }
        }
    }

    /// The reading continued from here: bytes are requested one by one and
    /// taken as the sign, the point or a digit; the first byte that is none
    /// of these is pushed back and ends the reading, as does a request that
    /// yields no byte.
    pub open spec fn run(self, cursor: Cursor, input: Seq<Fetch>) -> Step<Option<DecimalValue>>
        decreases cursor.supply(input),
    {
        let step = cursor.getch(input);
        match step.out {
            None => self.finish(step.cursor, step.rest),
            Some(byte) => {
                if self.takes_sign(byte) {
                    proof {
                        cursor.lemma_getch_supply(input);
                    }
                    DecimalScan {
                        taken: DecimalValue { negative: true, ..self.taken },
                        ..self
                    }.run(step.cursor, step.rest)
                } else if self.takes_point(byte) {
                    proof {
                        cursor.lemma_getch_supply(input);
                    }
                    DecimalScan { in_fraction: true, ..self }.run(step.cursor, step.rest)
                } else if is_digit(byte) {
                    proof {
                        cursor.lemma_getch_supply(input);
                    }
                    self.with_digit(byte).run(step.cursor, step.rest)
                } else {
                    self.finish(step.cursor.push_back(byte), step.rest)
                }
            },
        }
    }
}

/// What the extraction of a decimal number comes to.
pub open spec fn decimal_extraction(cursor: Cursor, input: Seq<Fetch>) -> Step<
    Option<DecimalValue>,
> {
    DecimalScan::start().run(cursor, input)
}

/// The values of the digits `bytes`.
pub open spec fn digits_of(bytes: Seq<u8>) -> Seq<u8> {
    Seq::new(bytes.len(), |i: int| (bytes[i] - 0x30) as u8)
}

/// The input that writes a number: `-` where it is negative, the digits
/// before the point, and, where there is a point, the point and the digits
/// behind it.
pub open spec fn written(negative: bool, whole: Seq<u8>, point: bool, fraction: Seq<u8>) -> Seq<
    Fetch,
> {
    let sign = if negative {
        seq![Fetch::Byte(0x2d)]
    } else {
        Seq::empty()
    };
    let behind = if point {
        seq![Fetch::Byte(0x2e)] + input_of(fraction)
    } else {
        Seq::empty()
    };
    sign + input_of(whole) + behind
}

impl DecimalScan {
    /// The state once the digits `bytes` are taken.
    pub open spec fn with_digits(self, bytes: Seq<u8>) -> DecimalScan {
        if self.in_fraction {
            DecimalScan {
                taken: DecimalValue {
                    fraction: self.taken.fraction + digits_of(bytes),
                    ..self.taken
                },
                ..self
            }
        } else {
            DecimalScan {
                taken: DecimalValue { whole: self.taken.whole + digits_of(bytes), ..self.taken },
                ..self
            }
        }
    }

    /// An idle reader takes every digit of a run of digits.
    pub proof fn lemma_takes_digits(self, cursor: Cursor, digits: Seq<u8>, tail: Seq<Fetch>)
        requires
            cursor.idle(),
            all_digits(digits),
        ensures
            self.run(cursor, input_of(digits) + tail) == self.with_digits(digits).run(cursor, tail),
        decreases digits.len(),
    {
        if digits.len() > 0 {
            let earlier = digits.drop_last();
            let later = seq![Fetch::Byte(digits.last())] + tail;
            assert(input_of(digits) + tail =~= input_of(earlier) + later);
            self.lemma_takes_digits(cursor, earlier, later);
            cursor.lemma_idle_takes_byte(digits.last(), tail);
            let before = self.with_digits(earlier);
            assert((self.taken.whole + digits_of(earlier)).push((digits.last() - 0x30) as u8)
                =~= self.taken.whole + digits_of(digits));
            assert((self.taken.fraction + digits_of(earlier)).push((digits.last() - 0x30) as u8)
                =~= self.taken.fraction + digits_of(digits));
        }
    }

    /// A byte pushed back onto an idle reader is read as if it were still to
    /// come from the source.
    pub proof fn lemma_run_pushed_back(self, cursor: Cursor, byte: u8, rest: Seq<Fetch>)
        requires
            cursor.idle(),
        ensures
            self.run(cursor.push_back(byte), rest) == self.run(
                cursor,
                seq![Fetch::Byte(byte)] + rest,
            ),
    {
        cursor.lemma_push_back_is_unread(byte, rest);
    }

    /// Whatever the input, every digit of a number that is found is at most
    /// nine.
    pub proof fn lemma_found_wf(self, cursor: Cursor, input: Seq<Fetch>)
        requires
            self.taken.wf(),
        ensures
            self.run(cursor, input).out is Some ==> self.run(cursor, input).out->0.wf(),
        decreases cursor.supply(input),
    {
        let step = cursor.getch(input);
        cursor.lemma_getch_supply(input);
        match step.out {
            None => {},
            Some(byte) => {
                if self.takes_sign(byte) {
                    DecimalScan {
                        taken: DecimalValue { negative: true, ..self.taken },
                        ..self
                    }.lemma_found_wf(step.cursor, step.rest);
                } else if self.takes_point(byte) {
                    DecimalScan { in_fraction: true, ..self }.lemma_found_wf(
                        step.cursor,
                        step.rest,
                    );
                } else if is_digit(byte) {
                    self.with_digit(byte).lemma_found_wf(step.cursor, step.rest);
                }
            },
        }
    }
}

/// An idle reader reads a written number as its sign and its digits, and
/// pushes back the byte at which it stops: any byte that is no digit, but for
/// a first point.
pub proof fn lemma_number_stops_at(
    cursor: Cursor,
    negative: bool,
    whole: Seq<u8>,
    point: bool,
    fraction: Seq<u8>,
    after: u8,
    tail: Seq<Fetch>,
)
    requires
        cursor.idle(),
        all_digits(whole),
        all_digits(fraction),
        whole.len() + fraction.len() > 0,
        !point ==> fraction.len() == 0 && after != 0x2e,
        !is_digit(after),
    ensures
        decimal_extraction(
            cursor,
            written(negative, whole, point, fraction) + seq![Fetch::Byte(after)] + tail,
        ) == (Step {
            out: Some(
                DecimalValue {
                    negative,
                    whole: digits_of(whole),
                    fraction: digits_of(fraction),
                },
            ),
            cursor: cursor.push_back(after),
            rest: tail,
        }),
{
    let end = seq![Fetch::Byte(after)] + tail;
    let behind = if point {
        seq![Fetch::Byte(0x2e)] + (input_of(fraction) + end)
    } else {
        end
    };
    let unsigned = input_of(whole) + behind;
    let input = written(negative, whole, point, fraction) + seq![Fetch::Byte(after)] + tail;
    let start = DecimalScan::start();
    let signed = DecimalScan { taken: DecimalValue { negative, ..start.taken }, ..start };
    if negative {
        assert(input =~= seq![Fetch::Byte(0x2d)] + unsigned);
        cursor.lemma_idle_takes_byte(0x2d, unsigned);
    } else {
        assert(input =~= unsigned);
    }
    signed.lemma_takes_digits(cursor, whole, behind);
    let wholly = signed.with_digits(whole);
    if point {
        cursor.lemma_idle_takes_byte(0x2e, input_of(fraction) + end);
        let pointed = DecimalScan { in_fraction: true, ..wholly };
        pointed.lemma_takes_digits(cursor, fraction, end);
        cursor.lemma_idle_takes_byte(after, tail);
    } else {
        cursor.lemma_idle_takes_byte(after, tail);
        assert(digits_of(fraction) =~= Seq::<u8>::empty());
    }
}

/// A point with no digit before or behind it is no number: nothing is found,
/// and the point is pushed back, in place of the byte that came after it.
pub proof fn lemma_lone_point(cursor: Cursor, after: u8, tail: Seq<Fetch>)
    requires
        cursor.idle(),
        !is_digit(after),
    ensures
        decimal_extraction(cursor, seq![Fetch::Byte(0x2e), Fetch::Byte(after)] + tail) == (Step {
            out: None::<DecimalValue>,
            cursor: cursor.push_back(0x2e),
            rest: tail,
        }),
{
    let later = seq![Fetch::Byte(after)] + tail;
    assert(seq![Fetch::Byte(0x2e), Fetch::Byte(after)] + tail =~= seq![Fetch::Byte(0x2e)] + later);
    cursor.lemma_idle_takes_byte(0x2e, later);
    cursor.lemma_idle_takes_byte(after, tail);
    let pointed = DecimalScan { in_fraction: true, ..DecimalScan::start() };
    assert(pointed.run(cursor, later) == pointed.finish(cursor.push_back(after), tail));
}

/// A `-` with neither digit nor point behind it is no number: nothing is
/// found. The sign is dropped, and the byte that came after it is pushed
/// back.
pub proof fn lemma_lone_sign(cursor: Cursor, after: u8, tail: Seq<Fetch>)
    requires
        cursor.idle(),
        !is_digit(after),
        after != 0x2e,
    ensures
        decimal_extraction(cursor, seq![Fetch::Byte(0x2d), Fetch::Byte(after)] + tail) == (Step {
            out: None::<DecimalValue>,
            cursor: cursor.push_back(after),
            rest: tail,
        }),
{
    let later = seq![Fetch::Byte(after)] + tail;
    assert(seq![Fetch::Byte(0x2d), Fetch::Byte(after)] + tail =~= seq![Fetch::Byte(0x2d)] + later);
    cursor.lemma_idle_takes_byte(0x2d, later);
    cursor.lemma_idle_takes_byte(after, tail);
    let start = DecimalScan::start();
    let signed = DecimalScan { taken: DecimalValue { negative: true, ..start.taken }, ..start };
    assert(signed.run(cursor, later) == signed.finish(cursor.push_back(after), tail));
}

/// A blocked reader with no byte pending finds no number and takes nothing
/// from its source.
pub proof fn lemma_blocked_finds_nothing(cursor: Cursor, input: Seq<Fetch>)
    requires
        cursor.blocked(),
        cursor.pending is None,
    ensures
        decimal_extraction(cursor, input) == (Step {
            out: None::<DecimalValue>,
            cursor: Cursor { skip_count: 0, ..cursor },
            rest: input,
        }),
{
    cursor.lemma_blocked_takes_nothing(input);
}

impl Extract for Decimal {
    type Value = DecimalValue;

    open spec fn value(&self) -> DecimalValue {
        self@
    }

    open spec fn extraction(cursor: Cursor, input: Seq<Fetch>) -> Step<Option<DecimalValue>> {
        decimal_extraction(cursor, input)
    }

    /// Reads a decimal number: an optional `-`, digits, and an optional point
    /// with more digits behind it. At least one digit must be there.
    fn extract<R: Read>(rio: &mut Rio<R>) -> (found: Option<Self>)
        ensures
            found is Some ==> found->0@.wf(),
    {
        let mut whole: Vec<u8> = Vec::new();
        let mut fraction: Vec<u8> = Vec::new();

        let mut started = false;

        let mut sign_consumed = false;

        let mut left_side = true;

        loop
            invariant_except_break
                forall|rest: Seq<Fetch>| #[trigger]
                    decimal_extraction(old(rio)@, rio.fetched_since(old(rio)) + rest)
                        == (DecimalScan {
                        taken: DecimalValue {
                            negative: sign_consumed,
                            whole: whole@,
                            fraction: fraction@,
                        },
                        in_fraction: !left_side,
                    }).run(rio@, rest),
            invariant
                rio.extends(old(rio)),
                started == (whole@.len() + fraction@.len() > 0),
                digits_wf(whole@),
                digits_wf(fraction@),
            ensures
                forall|rest: Seq<Fetch>| #[trigger]
                    decimal_extraction(old(rio)@, rio.fetched_since(old(rio)) + rest)
                        == (DecimalScan {
                        taken: DecimalValue {
                            negative: sign_consumed,
                            whole: whole@,
                            fraction: fraction@,
                        },
                        in_fraction: !left_side,
                    }).finish(rio@, rest),
            decreases rio.supply(),
        {
            let ghost before = *rio;
            let current = rio.getch();
            let ghost got = *rio;
            let mut goes_on = false;
            match current {
                None => {},
                Some(current) => {
                    if left_side && !started && !sign_consumed && current == 0x2d {
                        sign_consumed = true;
                        goes_on = true;
                    } else if left_side && current == 0x2e {
                        left_side = false;
                        goes_on = true;
                    } else {
                        match to_digit(current) {
                            Some(digit) => {
                                if left_side {
                                    whole.push(digit as u8);
                                } else {
                                    fraction.push(digit as u8);
                                }
                                started = true;
                                goes_on = true;
                            },
                            None => {
                                rio.ungetch(current);
                            },
                        }
                    }
                },
            }
            proof {
                let sofar = before.fetched_since(old(rio));
                let fresh = got.fetched_since(&before);
                let next = DecimalScan {
                    taken: DecimalValue {
                        negative: sign_consumed,
                        whole: whole@,
                        fraction: fraction@,
                    },
                    in_fraction: !left_side,
                };
                assert forall|rest: Seq<Fetch>|
                    decimal_extraction(
                        old(rio)@,
                        #[trigger] (rio.fetched_since(old(rio)) + rest),
                    ) == (if goes_on {
                        next.run(rio@, rest)
                    } else {
                        next.finish(rio@, rest)
                    }) by {
                    assert(rio.fetched_since(old(rio)) + rest =~= sofar + (fresh + rest));
                }
            }
            if !goes_on {
                break;
            }
        }

        let ghost stopped = *rio;
        let found = if started {
            Some(Decimal { negative: sign_consumed, whole, fraction })
        } else {
            if !left_side {
                rio.ungetch(0x2e);
            }
            None
        };
        proof {
            assert(rio.fetched_since(old(rio)) == stopped.fetched_since(old(rio)));
        }
        found
    }
}

} // verus!
