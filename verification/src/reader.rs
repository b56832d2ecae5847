//! The reader.

use crate::cursor::{Cursor, Step};
use crate::error::InputError;
use crate::extract::{
    defaulted, reading, reading_each, reading_each_from, reading_n, reading_n_from, value_of,
    values_of, Extract,
};
use crate::fixed::FixedInt;
use crate::stream::{Fetch, RioStream};
use crate::text::{line_reading, line_run};
use crate::utils::{is_whitespace, to_usize};
use num_traits::{ToPrimitive, Unsigned};
use std::io::Read;
use vstd::prelude::*;

verus! {

/// A reader of typed, whitespace-separated values over a byte source.
///
/// The view of a reader is its [`Cursor`]: the pending byte, the two sticky
/// flags and the skip directive. What the source will deliver is not part of
/// it, for nobody knows that before the source is asked. So each operation is
/// specified in two clauses. The first says that the operation has only added
/// to what the source has delivered; call what it added the fresh part. The
/// second says that the model of the operation, started in the old state on
/// the fresh part followed by any input `rest` whatever, returns what the
/// operation returned, ends in the new state, and leaves exactly `rest`: the
/// operation has asked the source for what the model needs, no less and no
/// more.
#[verifier::reject_recursive_types(R)]
pub struct Rio<R> {
    stream: RioStream<R>,
    ended: bool,
    ungetted: Option<u8>,
    error: Option<InputError>,
    ignore_count: u32,
    ignore_stop: Option<u8>,
}

impl<R> View for Rio<R> {
    type V = Cursor;

    closed spec fn view(&self) -> Cursor {
        Cursor {
            pending: self.ungetted,
            ended: self.ended,
            error: self.error,
            skip_count: self.ignore_count,
            skip_stop: self.ignore_stop,
        }
    }
}

impl<R> Rio<R> {
    /// Everything that the source has delivered to this reader, oldest first.
    pub closed spec fn delivered(&self) -> Seq<Fetch> {
        self.stream.delivered()
    }

    /// What the source has delivered since the reader was as `before`.
    pub open spec fn fetched_since(&self, before: &Self) -> Seq<Fetch> {
        self.delivered().skip(before.delivered().len() as int)
    }

    /// Whether the reader has only added to what `before` had been delivered.
    pub open spec fn extends(&self, before: &Self) -> bool {
        before.delivered().is_prefix_of(self.delivered())
    }

    /// How many bytes the reader can still hand out at most: the pending byte
    /// and what its stream has room for.
    pub closed spec fn supply(&self) -> nat {
        self.stream.room() + if self.ungetted is Some { 1nat } else { 0nat }
    }
}

impl<R: Read> Rio<R> {
    /// A reader over the bytes of `reader`, with nothing pending, no error
    /// and no skip directive.
    pub fn new(reader: R) -> (rio: Self)
        ensures
            rio@ == Cursor::fresh(),
            rio.delivered() == Seq::<Fetch>::empty(),
            rio.supply() == u64::MAX,
    {
        Self {
            stream: RioStream::new(reader),
            ended: false,
            ungetted: None,
            error: None,
            ignore_count: 0,
            ignore_stop: None,
        }
    }

    /// Pushes `byte` back, in place of any byte that was pending.
    pub fn ungetch(&mut self, byte: u8)
        ensures
            final(self)@ == old(self)@.push_back(byte),
            final(self).delivered() == old(self).delivered(),
            final(self).supply() == old(self).supply() + if old(self)@.pending is Some {
                0int
            } else {
                1int
            },
    {
        self.ungetted = Some(byte);
    }

    /// Requests one byte, leaving the skip directive aside. A pending byte is
    /// handed out first, by a blocked reader too. With none pending, a reader
    /// that has ended or has an error gives nothing and does not ask its
    /// source; any other reader asks it once, and keeps a failure as its
    /// error and the end as its end.
    pub fn getch_impl(&mut self) -> (byte: Option<u8>)
        ensures
            final(self).extends(old(self)),
            forall|rest: Seq<Fetch>| #[trigger]
                old(self)@.next_byte(final(self).fetched_since(old(self)) + rest) == (Step {
                    out: byte,
                    cursor: final(self)@,
                    rest,
                }),
            final(self).supply() == old(self).supply() - if byte is Some { 1int } else { 0int },
    {
        let byte = match self.ungetted {
            Some(_) => self.ungetted.take(),
            None => {
                if self.ended || self.error.is_some() {
                    None
                } else {
                    match self.stream.getch() {
                        Fetch::Byte(byte) => Some(byte),
                        Fetch::Error(error) => {
                            self.error = Some(InputError::IO(error));
                            None
                        },
                        Fetch::Ended => {
                            self.ended = true;
                            None
                        },
                    }
                }
            },
        };
        proof {
            let fresh = self.fetched_since(old(self));
            assert forall|rest: Seq<Fetch>| #[trigger]
                old(self)@.next_byte(fresh + rest) == (Step { out: byte, cursor: self@, rest }) by {
                if fresh.len() > 0 {
                    assert((fresh + rest).skip(1) =~= rest);
                }
            }
        }
        byte
    }

    /// Requests one byte: carries out the skip directive, if one is set, and
    /// then asks for the byte.
    pub fn getch(&mut self) -> (byte: Option<u8>)
        ensures
            final(self).extends(old(self)),
            forall|rest: Seq<Fetch>| #[trigger]
                old(self)@.getch(final(self).fetched_since(old(self)) + rest) == (Step {
                    out: byte,
                    cursor: final(self)@,
                    rest,
                }),
            final(self).supply() <= old(self).supply(),
            byte is Some ==> final(self).supply() < old(self).supply(),
    {
        while self.ignore_count > 0
            invariant
                self.extends(old(self)),
                forall|rest: Seq<Fetch>| #[trigger]
                    old(self)@.skip(self.fetched_since(old(self)) + rest) == self@.skip(rest),
                self.supply() <= old(self).supply(),
            decreases self.ignore_count,
        {
            let ghost before = *self;
            self.ignore_count -= 1;
            let ghost lowered = *self;
            let c = self.getch_impl();
            if self.ignore_stop == c {
                self.ignore_count = 0;
            }
            proof {
                let sofar = before.fetched_since(old(self));
                let fresh = self.fetched_since(&lowered);
                assert forall|rest: Seq<Fetch>| #[trigger]
                    old(self)@.skip(self.fetched_since(old(self)) + rest) == self@.skip(rest) by {
                    assert(self.fetched_since(old(self)) + rest =~= sofar + (fresh + rest));
                }
            }
        }
        let ghost skipped = *self;
        let byte = self.getch_impl();
        proof {
            let sofar = skipped.fetched_since(old(self));
            let fresh = self.fetched_since(&skipped);
            assert forall|rest: Seq<Fetch>| #[trigger]
                old(self)@.getch(self.fetched_since(old(self)) + rest) == (Step {
                    out: byte,
                    cursor: self@,
                    rest,
                }) by {
                assert(self.fetched_since(old(self)) + rest =~= sofar + (fresh + rest));
            }
        }
        byte
    }

    /// Sets the skip directive: the next request for a byte first discards up
    /// to `count` bytes, stopping early after one that equals `stop`. A
    /// directive that was set and not yet carried out is replaced.
    pub fn ignore(&mut self, count: u32, stop: Option<u8>)
        ensures
            final(self)@ == old(self)@.armed(count, stop),
            final(self).delivered() == old(self).delivered(),
            final(self).supply() == old(self).supply(),
    {
        self.ignore_count = count;
        self.ignore_stop = stop;
    }

    /// Takes the sticky error away and returns it. That the source has ended
    /// stays as it is.
    pub fn clear(&mut self) -> (error: Option<InputError>)
        ensures
            error == old(self)@.error,
            final(self)@ == old(self)@.cleared(),
            old(self)@.error is None ==> final(self)@ == old(self)@,
            final(self).delivered() == old(self).delivered(),
            final(self).supply() == old(self).supply(),
    {
        self.error.take()
    }

    /// Passes over separators, pushing back the first byte that is none.
    fn skip_blanks(&mut self)
        ensures
            final(self).extends(old(self)),
            forall|rest: Seq<Fetch>| #[trigger]
                old(self)@.skip_blanks(final(self).fetched_since(old(self)) + rest) == (Step {
                    out: (),
                    cursor: final(self)@,
                    rest,
                }),
    {
        loop
            invariant_except_break
                forall|rest: Seq<Fetch>| #[trigger]
                    old(self)@.skip_blanks(self.fetched_since(old(self)) + rest)
                        == self@.skip_blanks(rest),
            invariant
                self.extends(old(self)),
            ensures
                forall|rest: Seq<Fetch>| #[trigger]
                    old(self)@.skip_blanks(self.fetched_since(old(self)) + rest) == (Step {
                        out: (),
                        cursor: self@,
                        rest,
                    }),
            decreases self.supply(),
        {
            let ghost before = *self;
            let current = self.getch();
            let ghost got = *self;
            let blank = match current {
                Some(byte) => {
                    if is_whitespace(byte) {
                        true
                    } else {
                        self.ungetch(byte);
                        false
                    }
                },
                None => false,
            };
            proof {
                let sofar = before.fetched_since(old(self));
                let fresh = got.fetched_since(&before);
                assert forall|rest: Seq<Fetch>|
                    old(self)@.skip_blanks(#[trigger] (self.fetched_since(old(self)) + rest)) == (
                    if blank {
                        self@.skip_blanks(rest)
                    } else {
                        Step { out: (), cursor: self@, rest }
                    }) by {
                    assert(self.fetched_since(old(self)) + rest =~= sofar + (fresh + rest));
                }
            }
            if !blank {
                break;
            }
        }
    }

    /// Reads the next value of type `T`: passes over separators, then
    /// extracts. Where no value is found, the extraction error is set.
    pub fn read<T: Extract>(&mut self) -> (found: Option<T>)
        ensures
            final(self).extends(old(self)),
            forall|rest: Seq<Fetch>| #[trigger]
                reading::<T>(old(self)@, final(self).fetched_since(old(self)) + rest) == (Step {
                    out: value_of(found),
                    cursor: final(self)@,
                    rest,
                }),
    {
        self.skip_blanks();
        let ghost ready = *self;
        let result = T::extract(self);
        let ghost extracted = *self;
        if result.is_none() {
            self.error = Some(InputError::Extraction);
        }
        proof {
            let sofar = ready.fetched_since(old(self));
            let fresh = extracted.fetched_since(&ready);
            assert forall|rest: Seq<Fetch>| #[trigger]
                reading::<T>(old(self)@, self.fetched_since(old(self)) + rest) == (Step {
                    out: value_of(result),
                    cursor: self@,
                    rest,
                }) by {
                assert(self.fetched_since(old(self)) + rest =~= sofar + (fresh + rest));
            }
        }
        result
    }

    /// Reads the rest of the current line, without its line feed and without
    /// passing over separators. Nothing is found only where no byte came at
    /// all.
    pub fn readline(&mut self) -> (line: Option<String>)
        ensures
            final(self).extends(old(self)),
            forall|rest: Seq<Fetch>| #[trigger]
                line_reading(old(self)@, final(self).fetched_since(old(self)) + rest) == (Step {
                    out: match line {
                        Some(text) => Some(text@),
                        None => None,
                    },
                    cursor: final(self)@,
                    rest,
                }),
    {
        let mut result = String::new();

        let mut started = false;

        loop
            invariant_except_break
                forall|rest: Seq<Fetch>| #[trigger]
                    line_reading(old(self)@, self.fetched_since(old(self)) + rest) == line_run(
                        result@,
                        self@,
                        rest,
                    ),
                started == (result@.len() > 0),
            invariant
                self.extends(old(self)),
            ensures
                forall|rest: Seq<Fetch>| #[trigger]
                    line_reading(old(self)@, self.fetched_since(old(self)) + rest) == (Step {
                        out: if started {
                            Some(result@)
                        } else {
                            None
                        },
                        cursor: self@,
                        rest,
                    }),
            decreases self.supply(),
        {
            let ghost before = *self;
            let current = self.getch();
            let ghost got = *self;
            let mut goes_on = false;
            match current {
                None => {},
                Some(current) => {
                    started = true;
                    if current != 0x0a {
                        result.push(current as char);
                        goes_on = true;
                    }
                },
            }
            proof {
                let sofar = before.fetched_since(old(self));
                let fresh = got.fetched_since(&before);
                assert forall|rest: Seq<Fetch>|
                    line_reading(
                        old(self)@,
                        #[trigger] (self.fetched_since(old(self)) + rest),
                    ) == (if goes_on {
                        line_run(result@, self@, rest)
                    } else {
                        Step {
                            out: if started {
                                Some(result@)
                            } else {
                                None
                            },
                            cursor: self@,
                            rest,
                        }
                    }) by {
                    assert(self.fetched_since(old(self)) + rest =~= sofar + (fresh + rest));
                }
            }
            if !goes_on {
                break;
            }
        }

        if started {
            Some(result)
        } else {
            None
        }
    }

    /// Reads `n` values of type `T`, in order. The first read that finds no
    /// value ends the reading, and nothing is returned.
    pub fn read_n<T, N>(&mut self, n: N) -> (found: Option<Vec<T>>) where
        T: Extract,
        N: FixedInt + Unsigned + ToPrimitive,

        requires
            0 <= n.as_int() <= usize::MAX,
        ensures
            final(self).extends(old(self)),
            forall|rest: Seq<Fetch>| #[trigger]
                reading_n::<T>(
                    n.as_int() as nat,
                    old(self)@,
                    final(self).fetched_since(old(self)) + rest,
                ) == (Step {
                    out: match found {
                        Some(values) => Some(values_of(values@)),
                        None => None,
                    },
                    cursor: final(self)@,
                    rest,
                }),
    {
        let count = to_usize(&n).unwrap();
        let mut result: Vec<T> = Vec::new();
        let mut failed = false;

        proof {
            assert(values_of(result@) =~= Seq::<T::Value>::empty());
        }

        while result.len() < count && !failed
            invariant
                self.extends(old(self)),
                result.len() <= count,
                forall|rest: Seq<Fetch>| #[trigger]
                    reading_n::<T>(count as nat, old(self)@, self.fetched_since(old(self)) + rest)
                        == (if failed {
                        Step { out: None, cursor: self@, rest }
                    } else {
                        reading_n_from::<T>(
                            values_of(result@),
                            (count - result.len()) as nat,
                            self@,
                            rest,
                        )
                    }),
            decreases count - result.len() + if failed { 0int } else { 1int },
        {
            let ghost before = *self;
            let ghost taken = values_of(result@);
            match self.read::<T>() {
                Some(value) => {
                    result.push(value);
                    proof {
                        assert(values_of(result@) =~= taken.push(value.value()));
                    }
                },
                None => {
                    failed = true;
                },
            }
            proof {
                let sofar = before.fetched_since(old(self));
                let fresh = self.fetched_since(&before);
                assert forall|rest: Seq<Fetch>| #[trigger]
                    reading_n::<T>(count as nat, old(self)@, self.fetched_since(old(self)) + rest)
                        == (if failed {
                        Step { out: None, cursor: self@, rest }
                    } else {
                        reading_n_from::<T>(
                            values_of(result@),
                            (count - result.len()) as nat,
                            self@,
                            rest,
                        )
                    }) by {
                    assert(self.fetched_since(old(self)) + rest =~= sofar + (fresh + rest));
                }
            }
        }

        if failed {
            None
        } else {
            Some(result)
        }
    }

    /// Reads the next value of type `T`, giving the default of `T` where no
    /// value is found. The extraction error is set all the same.
    pub fn read_or_default<T>(&mut self) -> (value: T) where T: Extract + Default
        ensures
            final(self).extends(old(self)),
            forall|rest: Seq<Fetch>| #[trigger]
                reading::<T>(old(self)@, final(self).fetched_since(old(self)) + rest) == (Step {
                    out: reading::<T>(old(self)@, final(self).fetched_since(old(self))).out,
                    cursor: final(self)@,
                    rest,
                }),
            defaulted(
                reading::<T>(old(self)@, final(self).fetched_since(old(self))).out,
                value,
            ),
    {
        let found = self.read::<T>();
        proof {
            let fresh = self.fetched_since(old(self));
            assert(reading::<T>(old(self)@, fresh + Seq::<Fetch>::empty()).out == value_of(found));
        }
        found.unwrap_or_default()
    }

    /// Reads `n` times, giving the default of `T` for each read that finds no
    /// value: there are always `n` values.
    pub fn read_n_or_default<T, N>(&mut self, n: N) -> (values: Vec<T>) where
        T: Extract + Default,
        N: FixedInt + Unsigned + ToPrimitive,

        requires
            0 <= n.as_int() <= usize::MAX,
        ensures
            final(self).extends(old(self)),
            forall|rest: Seq<Fetch>| #[trigger]
                reading_each::<T>(
                    n.as_int() as nat,
                    old(self)@,
                    final(self).fetched_since(old(self)) + rest,
                ) == (Step {
                    out: reading_each::<T>(
                        n.as_int() as nat,
                        old(self)@,
                        final(self).fetched_since(old(self)),
                    ).out,
                    cursor: final(self)@,
                    rest,
                }),
            values@.len() == n.as_int(),
            forall|i: int|
                0 <= i < values@.len() ==> defaulted(
                    reading_each::<T>(
                        n.as_int() as nat,
                        old(self)@,
                        final(self).fetched_since(old(self)),
                    ).out[i],
                    #[trigger] values@[i],
                ),
    {
        let count = to_usize(&n).unwrap();
        let mut result: Vec<T> = Vec::new();
        let ghost outs = Seq::<Option<T::Value>>::empty();

        while result.len() < count
            invariant
                self.extends(old(self)),
                result.len() <= count,
                outs.len() == result.len(),
                forall|i: int| 0 <= i < result@.len() ==> defaulted(outs[i], #[trigger] result@[i]),
                forall|rest: Seq<Fetch>| #[trigger]
                    reading_each::<T>(
                        count as nat,
                        old(self)@,
                        self.fetched_since(old(self)) + rest,
                    ) == reading_each_from::<T>(
                        outs,
                        (count - result.len()) as nat,
                        self@,
                        rest,
                    ),
            decreases count - result.len(),
        {
            let ghost before = *self;
            let value = self.read_or_default::<T>();
            result.push(value);
            proof {
                let sofar = before.fetched_since(old(self));
                let fresh = self.fetched_since(&before);
                outs = outs.push(reading::<T>(before@, fresh).out);
                assert forall|rest: Seq<Fetch>| #[trigger]
                    reading_each::<T>(
                        count as nat,
                        old(self)@,
                        self.fetched_since(old(self)) + rest,
                    ) == reading_each_from::<T>(
                        outs,
                        (count - result.len()) as nat,
                        self@,
                        rest,
                    ) by {
                    assert(self.fetched_since(old(self)) + rest =~= sofar + (fresh + rest));
                }
            }
        }

        proof {
            let fresh = self.fetched_since(old(self));
            assert(reading_each::<T>(count as nat, old(self)@, fresh + Seq::<Fetch>::empty()).out
                == outs);
        }
        result
    }
}

} // verus!
