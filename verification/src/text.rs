//! Words and lines.

use crate::cursor::{input_of, Cursor, Step};
use crate::extract::{lemma_reading_passes_blanks, reading, Extract};
use crate::reader::Rio;
use crate::stream::Fetch;
use crate::utils::{is_blank, is_whitespace};
use std::io::Read;
use vstd::prelude::*;

verus! {

/// `String::push` of the standard library appends the character to the end of
/// the string.
pub assume_specification[ String::push ](text: &mut String, ch: char)
    ensures
        final(text)@ == old(text)@.push(ch),
;

/// The end of the reading of a word: the characters taken, where there is at
/// least one.
pub open spec fn word_finish(taken: Seq<char>, cursor: Cursor, rest: Seq<Fetch>) -> Step<
    Option<Seq<char>>,
> {
    Step { out: if taken.len() > 0 { Some(taken) } else { None }, cursor, rest }
}

/// The reading of a word continued after `taken`: bytes are requested and
/// taken, each as the character with its number, until one is a separator,
/// which is pushed back, or until no byte comes.
pub open spec fn word_run(taken: Seq<char>, cursor: Cursor, input: Seq<Fetch>) -> Step<
    Option<Seq<char>>,
>
    decreases cursor.supply(input),
{
    let step = cursor.getch(input);
    match step.out {
        None => word_finish(taken, step.cursor, step.rest),
        Some(byte) => {
            if is_blank(byte) {
                word_finish(taken, step.cursor.push_back(byte), step.rest)
            } else {
                proof {
                    cursor.lemma_getch_supply(input);
                }
                word_run(taken.push(byte as char), step.cursor, step.rest)
            }
        },
    }
}

/// The reading of a line continued after `taken`: bytes are requested and
/// taken until one is a line feed, which is dropped, or until no byte comes.
/// A line is found where at least one byte came, the line feed counting as
/// one.
pub open spec fn line_run(taken: Seq<char>, cursor: Cursor, input: Seq<Fetch>) -> Step<
    Option<Seq<char>>,
>
    decreases cursor.supply(input),
{
    let step = cursor.getch(input);
    match step.out {
        None => Step {
            out: if taken.len() > 0 { Some(taken) } else { None },
            cursor: step.cursor,
            rest: step.rest,
        },
        Some(byte) => {
            if byte == 0x0a {
                Step { out: Some(taken), cursor: step.cursor, rest: step.rest }
            } else {
                proof {
                    cursor.lemma_getch_supply(input);
                }
                line_run(taken.push(byte as char), step.cursor, step.rest)
            }
        },
    }
}

/// What the extraction of a word comes to.
pub open spec fn word_extraction(cursor: Cursor, input: Seq<Fetch>) -> Step<Option<Seq<char>>> {
    word_run(Seq::empty(), cursor, input)
}

/// What the reading of a line comes to.
pub open spec fn line_reading(cursor: Cursor, input: Seq<Fetch>) -> Step<Option<Seq<char>>> {
    line_run(Seq::empty(), cursor, input)
}

/// The characters that `bytes` are read as: each byte as the character with
/// its number.
pub open spec fn chars_of(bytes: Seq<u8>) -> Seq<char> {
    Seq::new(bytes.len(), |i: int| bytes[i] as char)
}

/// Whether no byte of `bytes` is a separator.
pub open spec fn no_blank(bytes: Seq<u8>) -> bool {
    forall|i: int| 0 <= i < bytes.len() ==> !is_blank(#[trigger] bytes[i])
}

/// Whether no byte of `bytes` is a line feed.
pub open spec fn no_feed(bytes: Seq<u8>) -> bool {
    forall|i: int| 0 <= i < bytes.len() ==> #[trigger] bytes[i] != 0x0a
}

/// An idle reader takes every byte of a run without separators into the word.
pub proof fn lemma_word_takes_bytes(
    taken: Seq<char>,
    cursor: Cursor,
    bytes: Seq<u8>,
    tail: Seq<Fetch>,
)
    requires
        cursor.idle(),
        no_blank(bytes),
    ensures
        word_run(taken, cursor, input_of(bytes) + tail) == word_run(
            taken + chars_of(bytes),
            cursor,
            tail,
        ),
    decreases bytes.len(),
{
    if bytes.len() > 0 {
        let earlier = bytes.drop_last();
        let later = seq![Fetch::Byte(bytes.last())] + tail;
        assert(input_of(bytes) + tail =~= input_of(earlier) + later);
        lemma_word_takes_bytes(taken, cursor, earlier, later);
        cursor.lemma_idle_takes_byte(bytes.last(), tail);
        assert((taken + chars_of(earlier)).push(bytes.last() as char) =~= taken + chars_of(bytes));
    }
}

/// An idle reader reads the bytes before a separator as a word, and pushes
/// the separator back.
pub proof fn lemma_word_stops_at_blank(cursor: Cursor, bytes: Seq<u8>, blank: u8, tail: Seq<Fetch>)
    requires
        cursor.idle(),
        no_blank(bytes),
        bytes.len() > 0,
        is_blank(blank),
    ensures
        word_extraction(cursor, input_of(bytes.push(blank)) + tail) == (Step {
            out: Some(chars_of(bytes)),
            cursor: cursor.push_back(blank),
            rest: tail,
        }),
{
    let later = seq![Fetch::Byte(blank)] + tail;
    assert(input_of(bytes.push(blank)) + tail =~= input_of(bytes) + later);
    lemma_word_takes_bytes(Seq::empty(), cursor, bytes, later);
    cursor.lemma_idle_takes_byte(blank, tail);
}

/// An idle reader whose source ends or fails behind a run without separators
/// reads the run as a word; nothing is found where the run is empty.
pub proof fn lemma_word_stops_at_end(cursor: Cursor, bytes: Seq<u8>, tail: Seq<Fetch>)
    requires
        cursor.idle(),
        no_blank(bytes),
        tail.len() > 0 ==> !(tail[0] is Byte),
    ensures
        word_extraction(cursor, input_of(bytes) + tail) == (Step {
            out: if bytes.len() > 0 {
                Some(chars_of(bytes))
            } else {
                None
            },
            cursor: cursor.getch(tail).cursor,
            rest: cursor.getch(tail).rest,
        }),
{
    lemma_word_takes_bytes(Seq::empty(), cursor, bytes, tail);
    cursor.lemma_idle_takes_end(tail);
}

/// A byte pushed back onto an idle reader is read into a word as if it were
/// still to come from the source.
pub proof fn lemma_word_pushed_back(taken: Seq<char>, cursor: Cursor, byte: u8, rest: Seq<Fetch>)
    requires
        cursor.idle(),
    ensures
        word_run(taken, cursor.push_back(byte), rest) == word_run(
            taken,
            cursor,
            seq![Fetch::Byte(byte)] + rest,
        ),
{
    cursor.lemma_push_back_is_unread(byte, rest);
}

/// A byte pushed back onto an idle reader is read into a line as if it were
/// still to come from the source.
pub proof fn lemma_line_pushed_back(taken: Seq<char>, cursor: Cursor, byte: u8, rest: Seq<Fetch>)
    requires
        cursor.idle(),
    ensures
        line_run(taken, cursor.push_back(byte), rest) == line_run(
            taken,
            cursor,
            seq![Fetch::Byte(byte)] + rest,
        ),
{
    cursor.lemma_push_back_is_unread(byte, rest);
}

/// An idle reader takes every byte of a run without line feeds into the
/// line.
pub proof fn lemma_line_takes_bytes(
    taken: Seq<char>,
    cursor: Cursor,
    bytes: Seq<u8>,
    tail: Seq<Fetch>,
)
    requires
        cursor.idle(),
        no_feed(bytes),
    ensures
        line_run(taken, cursor, input_of(bytes) + tail) == line_run(
            taken + chars_of(bytes),
            cursor,
            tail,
        ),
    decreases bytes.len(),
{
    if bytes.len() > 0 {
        let earlier = bytes.drop_last();
        let later = seq![Fetch::Byte(bytes.last())] + tail;
        assert(input_of(bytes) + tail =~= input_of(earlier) + later);
        lemma_line_takes_bytes(taken, cursor, earlier, later);
        cursor.lemma_idle_takes_byte(bytes.last(), tail);
        assert((taken + chars_of(earlier)).push(bytes.last() as char) =~= taken + chars_of(bytes));
    }
}

/// An idle reader reads the bytes before a line feed as a line, an empty one
/// where there are none, and drops the line feed.
pub proof fn lemma_line_ends_at_feed(cursor: Cursor, bytes: Seq<u8>, tail: Seq<Fetch>)
    requires
        cursor.idle(),
        no_feed(bytes),
    ensures
        line_reading(cursor, input_of(bytes.push(0x0a)) + tail) == (Step {
            out: Some(chars_of(bytes)),
            cursor,
            rest: tail,
        }),
{
    let later = seq![Fetch::Byte(0x0a)] + tail;
    assert(input_of(bytes.push(0x0a)) + tail =~= input_of(bytes) + later);
    lemma_line_takes_bytes(Seq::empty(), cursor, bytes, later);
    cursor.lemma_idle_takes_byte(0x0a, tail);
}

/// An idle reader whose source ends or fails behind a run without line feeds
/// reads the run as a line; nothing is found where the run is empty.
pub proof fn lemma_line_ends_at_end(cursor: Cursor, bytes: Seq<u8>, tail: Seq<Fetch>)
    requires
        cursor.idle(),
        no_feed(bytes),
        tail.len() > 0 ==> !(tail[0] is Byte),
    ensures
        line_reading(cursor, input_of(bytes) + tail) == (Step {
            out: if bytes.len() > 0 {
                Some(chars_of(bytes))
            } else {
                None
            },
            cursor: cursor.getch(tail).cursor,
            rest: cursor.getch(tail).rest,
        }),
{
    lemma_line_takes_bytes(Seq::empty(), cursor, bytes, tail);
    cursor.lemma_idle_takes_end(tail);
}

/// A read of a word by an idle reader passes over the separators before the
/// word, reads the bytes up to the next separator, and leaves that separator
/// for the next read.
pub proof fn lemma_reading_word(
    cursor: Cursor,
    blanks: Seq<u8>,
    bytes: Seq<u8>,
    blank: u8,
    tail: Seq<Fetch>,
)
    requires
        cursor.idle(),
        forall|i: int| 0 <= i < blanks.len() ==> is_blank(#[trigger] blanks[i]),
        no_blank(bytes),
        bytes.len() > 0,
        is_blank(blank),
    ensures
        reading::<String>(cursor, input_of(blanks + bytes.push(blank)) + tail) == (Step {
            out: Some(chars_of(bytes)),
            cursor: cursor.push_back(blank),
            rest: tail,
        }),
{
    let first = bytes[0];
    let later = input_of(bytes.drop_first().push(blank)) + tail;
    assert(input_of(blanks + bytes.push(blank)) + tail =~= input_of(blanks.push(first)) + later);
    lemma_reading_passes_blanks::<String>(cursor, blanks, first, later);
    lemma_word_pushed_back(Seq::empty(), cursor, first, later);
    assert(seq![Fetch::Byte(first)] + later =~= input_of(bytes.push(blank)) + tail);
    lemma_word_stops_at_blank(cursor, bytes, blank, tail);
}

/// A blocked reader with no byte pending finds neither word nor line and
/// takes nothing from its source.
pub proof fn lemma_blocked_finds_nothing(cursor: Cursor, input: Seq<Fetch>)
    requires
        cursor.blocked(),
        cursor.pending is None,
    ensures
        word_extraction(cursor, input) == (Step {
            out: None::<Seq<char>>,
            cursor: Cursor { skip_count: 0, ..cursor },
            rest: input,
        }),
        line_reading(cursor, input) == (Step {
            out: None::<Seq<char>>,
            cursor: Cursor { skip_count: 0, ..cursor },
            rest: input,
        }),
{
    cursor.lemma_blocked_takes_nothing(input);
}

impl Extract for String {
    type Value = Seq<char>;

    open spec fn value(&self) -> Seq<char> {
        self@
    }

    open spec fn extraction(cursor: Cursor, input: Seq<Fetch>) -> Step<Option<Seq<char>>> {
        word_extraction(cursor, input)
    }

    /// Reads a word: the bytes up to the next separator or to the point where
    /// no byte comes.
    fn extract<R: Read>(rio: &mut Rio<R>) -> (found: Option<Self>) {
        let mut result = String::new();

        let mut started = false;

        loop
            invariant_except_break
                forall|rest: Seq<Fetch>| #[trigger]
                    word_extraction(old(rio)@, rio.fetched_since(old(rio)) + rest)
                        == word_run(result@, rio@, rest),
            invariant
                rio.extends(old(rio)),
                started == (result@.len() > 0),
            ensures
                forall|rest: Seq<Fetch>| #[trigger]
                    word_extraction(old(rio)@, rio.fetched_since(old(rio)) + rest)
                        == word_finish(result@, rio@, rest),
            decreases rio.supply(),
        {
            let ghost before = *rio;
            let current = rio.getch();
            let ghost got = *rio;
            let mut goes_on = false;
            match current {
                None => {},
                Some(current) => {
                    if is_whitespace(current) {
                        rio.ungetch(current);
                    } else {
                        result.push(current as char);
                        started = true;
                        goes_on = true;
                    }
                },
            }
            proof {
                let sofar = before.fetched_since(old(rio));
                let fresh = got.fetched_since(&before);
                assert forall|rest: Seq<Fetch>|
                    word_extraction(
                        old(rio)@,
                        #[trigger] (rio.fetched_since(old(rio)) + rest),
                    ) == (if goes_on {
                        word_run(result@, rio@, rest)
                    } else {
                        word_finish(result@, rio@, rest)
                    }) by {
                    assert(rio.fetched_since(old(rio)) + rest =~= sofar + (fresh + rest));
                }
            }
            if !goes_on {
                break;
            }
        }

        if started {
            Some(result)
        } else {
            None
        }
    }
}

} // verus!
