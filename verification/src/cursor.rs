//! The cursor of a reader: its state apart from the source, the model of a
//! request for a byte, and what holds of both.

use crate::error::InputError;
use crate::stream::Fetch;
use crate::utils::is_blank;
use vstd::prelude::*;

verus! {

/// The state of a reader, apart from its byte source.
pub struct Cursor {
    /// The byte that was pushed back, to be returned before the source is asked again.
    pub pending: Option<u8>,
    /// Whether the source has reported that it is exhausted.
    pub ended: bool,
    /// The sticky error, if one is set.
    pub error: Option<InputError>,
    /// How many bytes the skip directive may still discard.
    pub skip_count: u32,
    /// The byte at which the skip directive stops early.
    pub skip_stop: Option<u8>,
}

/// What an operation of a reader comes to on a given input: what it returns,
/// the state it leaves, and the part of the input that it has not asked for.
pub struct Step<T> {
    pub out: T,
    pub cursor: Cursor,
    pub rest: Seq<Fetch>,
}

/// The input that delivers `bytes` one by one.
pub open spec fn input_of(bytes: Seq<u8>) -> Seq<Fetch> {
    Seq::new(bytes.len(), |i: int| Fetch::Byte(bytes[i]))
}

impl Cursor {
    /// The state of a new reader.
    pub open spec fn fresh() -> Cursor {
        Cursor { pending: None, ended: false, error: None, skip_count: 0, skip_stop: None }
    }

    /// Whether the source may no longer be asked for a byte.
    pub open spec fn blocked(self) -> bool {
        self.ended || self.error is Some
    }

    /// Whether the next request goes straight to the source: no byte is
    /// pending, no skip directive is set, and the reader is not blocked.
    pub open spec fn idle(self) -> bool {
        self.pending is None && self.skip_count == 0 && !self.blocked()
    }

    /// The state after `byte` is pushed back: it takes the one slot there is.
    pub open spec fn push_back(self, byte: u8) -> Cursor {
        Cursor { pending: Some(byte), ..self }
    }

    /// The state after a skip directive is set.
    pub open spec fn armed(self, count: u32, stop: Option<u8>) -> Cursor {
        Cursor { skip_count: count, skip_stop: stop, ..self }
    }

    /// The state after the sticky error is taken away.
    pub open spec fn cleared(self) -> Cursor {
        Cursor { error: None, ..self }
    }

    /// The state after an extraction has found no value.
    pub open spec fn failed(self) -> Cursor {
        Cursor { error: Some(InputError::Extraction), ..self }
    }

    /// How many bytes the reader can still hand out at most: the pending byte
    /// and what the input holds.
    pub open spec fn supply(self, input: Seq<Fetch>) -> nat {
        input.len() + if self.pending is Some { 1nat } else { 0nat }
    }

    /// One request for a byte, without the skip directive. A pending byte
    /// comes first. Without one, a blocked reader gives nothing and leaves the
    /// input alone; any other reader takes the next outcome of the source. An
    /// input that has run out counts as a source that has ended.
    pub open spec fn next_byte(self, input: Seq<Fetch>) -> Step<Option<u8>> {
        if self.pending is Some {
            Step { out: self.pending, cursor: Cursor { pending: None, ..self }, rest: input }
        } else if self.blocked() {
            Step { out: None, cursor: self, rest: input }
        } else if input.len() == 0 {
            Step { out: None, cursor: Cursor { ended: true, ..self }, rest: input }
        } else {
            match input[0] {
                Fetch::Byte(byte) => Step { out: Some(byte), cursor: self, rest: input.skip(1) },
                Fetch::Error(error) => Step {
                    out: None,
                    cursor: Cursor { error: Some(InputError::IO(error)), ..self },
                    rest: input.skip(1),
                },
                Fetch::Ended => Step {
                    out: None,
                    cursor: Cursor { ended: true, ..self },
                    rest: input.skip(1),
                },
            }
        }
    }

    /// The skip directive carried out: up to `skip_count` requests whose
    /// results are thrown away, stopping early after one whose result equals
    /// `skip_stop`. The count is zero afterwards.
    pub open spec fn skip(self, input: Seq<Fetch>) -> Step<()>
        decreases self.skip_count,
    {
        if self.skip_count == 0 {
            Step { out: (), cursor: self, rest: input }
        } else {
            let step = Cursor { skip_count: (self.skip_count - 1) as u32, ..self }.next_byte(input);
            if step.out == self.skip_stop {
                Step { out: (), cursor: Cursor { skip_count: 0, ..step.cursor }, rest: step.rest }
            } else {
                step.cursor.skip(step.rest)
            }
        }
    }

    /// One request for a byte: the skip directive first, if one is set, then
    /// the request itself.
    pub open spec fn getch(self, input: Seq<Fetch>) -> Step<Option<u8>> {
        let skipped = self.skip(input);
        skipped.cursor.next_byte(skipped.rest)
    }

    /// Leading separators passed over: bytes are requested until one is no
    /// separator, which is pushed back, or until no byte comes.
    pub open spec fn skip_blanks(self, input: Seq<Fetch>) -> Step<()>
        decreases self.supply(input),
    {
        let step = self.getch(input);
        match step.out {
            Some(byte) => if is_blank(byte) {
                proof {
                    self.lemma_getch_supply(input);
                }
                step.cursor.skip_blanks(step.rest)
            } else {
                Step { out: (), cursor: step.cursor.push_back(byte), rest: step.rest }
            },
            None => Step { out: (), cursor: step.cursor, rest: step.rest },
        }
    }

    /// Carrying out the skip directive hands out no byte that was not there,
    /// and leaves no directive behind.
    pub proof fn lemma_skip_supply(self, input: Seq<Fetch>)
        ensures
            self.skip(input).cursor.supply(self.skip(input).rest) <= self.supply(input),
            self.skip(input).cursor.skip_count == 0,
        decreases self.skip_count,
    {
        if self.skip_count != 0 {
            let step = Cursor { skip_count: (self.skip_count - 1) as u32, ..self }.next_byte(input);
            if step.out != self.skip_stop {
                step.cursor.lemma_skip_supply(step.rest);
            }
        }
    }

    /// A request that yields a byte uses up one of those that the reader could
    /// hand out; no request adds to them; and after any request no skip
    /// directive is left.
    pub proof fn lemma_getch_supply(self, input: Seq<Fetch>)
        ensures
            self.getch(input).cursor.supply(self.getch(input).rest) <= self.supply(input),
            self.getch(input).out is Some ==> self.getch(input).cursor.supply(
                self.getch(input).rest,
            ) < self.supply(input),
            self.getch(input).cursor.skip_count == 0,
    {
        self.lemma_skip_supply(input);
    }

    /// Clearing twice is clearing once, and clearing a reader that has no
    /// error changes nothing.
    pub proof fn lemma_clear_idempotent(self)
        ensures
            self.cleared().error is None,
            self.cleared().cleared() == self.cleared(),
            self.error is None ==> self.cleared() == self,
    {
    }

    /// There is one slot for a byte pushed back: a second byte takes the place
    /// of the first. The byte in the slot is handed out by the next request,
    /// without a pull on the source, and the slot is empty after that.
    pub proof fn lemma_push_back_holds_one(self, first: u8, second: u8, input: Seq<Fetch>)
        ensures
            self.push_back(first).push_back(second) == self.push_back(second),
            self.push_back(second).next_byte(input) == (Step {
                out: Some(second),
                cursor: Cursor { pending: None, ..self },
                rest: input,
            }),
    {
    }

    /// A blocked reader with no byte pending gives no byte and takes nothing
    /// from its source, whether or not a skip directive is set.
    pub proof fn lemma_blocked_takes_nothing(self, input: Seq<Fetch>)
        requires
            self.blocked(),
            self.pending is None,
        ensures
            self.next_byte(input) == (Step { out: None::<u8>, cursor: self, rest: input }),
            self.getch(input) == (Step {
                out: None::<u8>,
                cursor: Cursor { skip_count: 0, ..self },
                rest: input,
            }),
        decreases self.skip_count,
    {
        if self.skip_count != 0 {
            let lowered = Cursor { skip_count: (self.skip_count - 1) as u32, ..self };
            if self.skip_stop is Some {
                lowered.lemma_blocked_takes_nothing(input);
            }
        }
    }

    /// An idle reader hands out the byte that its source delivers next, and
    /// stays idle.
    pub proof fn lemma_idle_takes_byte(self, byte: u8, rest: Seq<Fetch>)
        requires
            self.idle(),
        ensures
            self.getch(seq![Fetch::Byte(byte)] + rest) == (Step {
                out: Some(byte),
                cursor: self,
                rest,
            }),
    {
        assert((seq![Fetch::Byte(byte)] + rest).skip(1) =~= rest);
    }

    /// A skip directive discards as many bytes as it counts, where none of
    /// them is the byte at which it stops.
    pub proof fn lemma_skip_discards(self, bytes: Seq<u8>, tail: Seq<Fetch>)
        requires
            self.pending is None,
            !self.blocked(),
            self.skip_count == bytes.len(),
            forall|i: int| 0 <= i < bytes.len() ==> Some(#[trigger] bytes[i]) != self.skip_stop,
        ensures
            self.skip(input_of(bytes) + tail) == (Step {
                out: (),
                cursor: Cursor { skip_count: 0, ..self },
                rest: tail,
            }),
        decreases bytes.len(),
    {
        if bytes.len() > 0 {
            let lowered = Cursor { skip_count: (self.skip_count - 1) as u32, ..self };
            let later = input_of(bytes.drop_first()) + tail;
            assert(input_of(bytes) + tail =~= seq![Fetch::Byte(bytes[0])] + later);
            assert((seq![Fetch::Byte(bytes[0])] + later).skip(1) =~= later);
            lowered.lemma_skip_discards(bytes.drop_first(), tail);
        }
    }

    /// A skip directive that comes upon the byte at which it stops, before it
    /// has discarded as many bytes as it counts, discards that byte and no
    /// more.
    pub proof fn lemma_skip_stops(self, bytes: Seq<u8>, stop: u8, tail: Seq<Fetch>)
        requires
            self.pending is None,
            !self.blocked(),
            self.skip_stop == Some(stop),
            bytes.len() < self.skip_count,
            forall|i: int| 0 <= i < bytes.len() ==> #[trigger] bytes[i] != stop,
        ensures
            self.skip(input_of(bytes.push(stop)) + tail) == (Step {
                out: (),
                cursor: Cursor { skip_count: 0, ..self },
                rest: tail,
            }),
        decreases bytes.len(),
    {
        let lowered = Cursor { skip_count: (self.skip_count - 1) as u32, ..self };
        let input = input_of(bytes.push(stop)) + tail;
        if bytes.len() == 0 {
            assert(input =~= seq![Fetch::Byte(stop)] + tail);
            assert((seq![Fetch::Byte(stop)] + tail).skip(1) =~= tail);
        } else {
            let later = input_of(bytes.drop_first().push(stop)) + tail;
            assert(input =~= seq![Fetch::Byte(bytes[0])] + later);
            assert((seq![Fetch::Byte(bytes[0])] + later).skip(1) =~= later);
            lowered.lemma_skip_stops(bytes.drop_first(), stop, tail);
        }
    }

    /// An idle reader passes over a run of separators and pushes back the
    /// byte that follows them.
    pub proof fn lemma_skips_blanks(self, blanks: Seq<u8>, after: u8, rest: Seq<Fetch>)
        requires
            self.idle(),
            forall|i: int| 0 <= i < blanks.len() ==> is_blank(#[trigger] blanks[i]),
            !is_blank(after),
        ensures
            self.skip_blanks(input_of(blanks.push(after)) + rest) == (Step {
                out: (),
                cursor: self.push_back(after),
                rest,
            }),
        decreases blanks.len(),
    {
        let input = input_of(blanks.push(after)) + rest;
        if blanks.len() == 0 {
            assert(input =~= seq![Fetch::Byte(after)] + rest);
            self.lemma_idle_takes_byte(after, rest);
        } else {
            let later = input_of(blanks.drop_first().push(after)) + rest;
            assert(input =~= seq![Fetch::Byte(blanks[0])] + later);
            self.lemma_idle_takes_byte(blanks[0], later);
            self.lemma_skips_blanks(blanks.drop_first(), after, rest);
        }
    }

    /// For an idle reader a byte pushed back is as good as unread: the next
    /// request goes as if the source were still to deliver that byte.
    pub proof fn lemma_push_back_is_unread(self, byte: u8, rest: Seq<Fetch>)
        requires
            self.idle(),
        ensures
            self.push_back(byte).getch(rest) == self.getch(seq![Fetch::Byte(byte)] + rest),
    {
        self.lemma_idle_takes_byte(byte, rest);
    }

    /// Separators are passed over from a byte pushed back onto an idle reader
    /// as if that byte were still to come from the source.
    pub proof fn lemma_skip_blanks_pushed_back(self, byte: u8, rest: Seq<Fetch>)
        requires
            self.idle(),
        ensures
            self.push_back(byte).skip_blanks(rest) == self.skip_blanks(
                seq![Fetch::Byte(byte)] + rest,
            ),
    {
        self.lemma_push_back_is_unread(byte, rest);
    }

    /// An idle reader whose source fails or ends, or whose input has run out,
    /// gives no byte and is blocked from then on.
    pub proof fn lemma_idle_takes_end(self, input: Seq<Fetch>)
        requires
            self.idle(),
            input.len() > 0 ==> !(input[0] is Byte),
        ensures
            self.getch(input).out is None,
            self.getch(input).cursor.blocked(),
            self.getch(input).cursor.pending is None,
            self.getch(input).rest == if input.len() > 0 {
                input.skip(1)
            } else {
                input
            },
            input.len() == 0 || input[0] is Ended ==> self.getch(input).cursor == (Cursor {
                ended: true,
                ..self
            }),
            input.len() > 0 && input[0] is Error ==> self.getch(input).cursor == (Cursor {
                error: Some(InputError::IO(input[0]->Error_0)),
                ..self
            }),
    {
    }

    /// A blocked reader with no byte pending passes over nothing and takes
    /// nothing from its source.
    pub proof fn lemma_blocked_skips_nothing(self, input: Seq<Fetch>)
        requires
            self.blocked(),
            self.pending is None,
        ensures
            self.skip_blanks(input) == (Step {
                out: (),
                cursor: Cursor { skip_count: 0, ..self },
                rest: input,
            }),
    {
        self.lemma_blocked_takes_nothing(input);
    }
}

} // verus!
