//! Types that can be read, and the model of a read.

use crate::cursor::{input_of, Cursor, Step};
use crate::reader::Rio;
use crate::stream::Fetch;
use crate::utils::is_blank;
use std::io::Read;
use vstd::prelude::*;

verus! {

/// A type whose values can be read from a reader.
///
/// An implementation says in `extraction` what its `extract` does, and in
/// `value` what its values stand for; without these two nothing is known of
/// it.
pub trait Extract: Sized {
    /// The kind of thing that a value of the type stands for.
    type Value;

    /// What this value stands for.
    open spec fn value(&self) -> Self::Value {
        arbitrary()
    }

    /// What extraction comes to for a reader in state `cursor` whose source
    /// goes on to deliver `input`: the value found, if any, the state left
    /// behind, and the input not asked for.
    open spec fn extraction(cursor: Cursor, input: Seq<Fetch>) -> Step<Option<Self::Value>> {
        arbitrary()
    }

    /// Reads one value at the current position, without passing over
    /// separators first. A byte looked at and not taken is pushed back.
    fn extract<R: Read>(rio: &mut Rio<R>) -> (found: Option<Self>)
        ensures
            final(rio).extends(old(rio)),
            forall|rest: Seq<Fetch>| #[trigger]
                Self::extraction(old(rio)@, final(rio).fetched_since(old(rio)) + rest) == (Step {
                    out: match found {
                        Some(v) => Some(v.value()),
                        None => None,
                    },
                    cursor: final(rio)@,
                    rest,
                }),
    ;
}

/// What `found` stands for.
pub open spec fn value_of<T: Extract>(found: Option<T>) -> Option<T::Value> {
    match found {
        Some(v) => Some(v.value()),
        None => None,
    }
}

/// What a read comes to: separators are passed over, then a value is
/// extracted; where none is found, the extraction error is set.
pub open spec fn reading<T: Extract>(cursor: Cursor, input: Seq<Fetch>) -> Step<Option<T::Value>> {
    let ready = cursor.skip_blanks(input);
    let step = T::extraction(ready.cursor, ready.rest);
    if step.out is None {
        Step { out: None, cursor: step.cursor.failed(), rest: step.rest }
    } else {
        step
    }
}

/// What each of `found` stands for.
pub open spec fn values_of<T: Extract>(found: Seq<T>) -> Seq<T::Value> {
    Seq::new(found.len(), |i: int| found[i].value())
}

/// Whether `value` is what a read that came to `out` gives where a default
/// stands in for a value not found: the value found, or else one that
/// `T::default` returns.
pub open spec fn defaulted<T: Extract + Default>(out: Option<T::Value>, value: T) -> bool {
    match out {
        Some(v) => value.value() == v,
        None => call_ensures(T::default, (), value),
    }
}

/// `count` more reads after those that found `taken`, all of which must find
/// a value: the first that finds none ends the reading, and nothing is found
/// as a whole.
pub open spec fn reading_n_from<T: Extract>(
    taken: Seq<T::Value>,
    count: nat,
    cursor: Cursor,
    input: Seq<Fetch>,
) -> Step<Option<Seq<T::Value>>>
    decreases count,
{
    if count == 0 {
        Step { out: Some(taken), cursor, rest: input }
    } else {
        let first = reading::<T>(cursor, input);
        match first.out {
            Some(v) => reading_n_from::<T>(
                taken.push(v),
                (count - 1) as nat,
                first.cursor,
                first.rest,
            ),
            None => Step { out: None, cursor: first.cursor, rest: first.rest },
        }
    }
}

/// What `count` reads come to where each must find a value.
pub open spec fn reading_n<T: Extract>(count: nat, cursor: Cursor, input: Seq<Fetch>) -> Step<
    Option<Seq<T::Value>>,
> {
    reading_n_from::<T>(Seq::empty(), count, cursor, input)
}

/// `count` more reads after those that came to `taken`, each made whatever
/// the one before it found.
pub open spec fn reading_each_from<T: Extract>(
    taken: Seq<Option<T::Value>>,
    count: nat,
    cursor: Cursor,
    input: Seq<Fetch>,
) -> Step<Seq<Option<T::Value>>>
    decreases count,
{
    if count == 0 {
        Step { out: taken, cursor, rest: input }
    } else {
        let first = reading::<T>(cursor, input);
        reading_each_from::<T>(taken.push(first.out), (count - 1) as nat, first.cursor, first.rest)
    }
}

/// What `count` reads come to, one after the other.
pub open spec fn reading_each<T: Extract>(count: nat, cursor: Cursor, input: Seq<Fetch>) -> Step<
    Seq<Option<T::Value>>,
> {
    reading_each_from::<T>(Seq::empty(), count, cursor, input)
}

/// A read by an idle reader passes over the separators before a value, and
/// extracts from the first byte that is none as if that byte were still to
/// come.
pub proof fn lemma_reading_passes_blanks<T: Extract>(
    cursor: Cursor,
    blanks: Seq<u8>,
    first: u8,
    rest: Seq<Fetch>,
)
    requires
        cursor.idle(),
        forall|i: int| 0 <= i < blanks.len() ==> is_blank(#[trigger] blanks[i]),
        !is_blank(first),
    ensures
        reading::<T>(cursor, input_of(blanks.push(first)) + rest) == ({
            let step = T::extraction(cursor.push_back(first), rest);
            if step.out is None {
                Step { out: None, cursor: step.cursor.failed(), rest: step.rest }
            } else {
                step
            }
        }),
{
    cursor.lemma_skips_blanks(blanks, first, rest);
}

/// A read from a byte pushed back onto an idle reader goes as if that byte
/// were still to come from the source.
pub proof fn lemma_reading_pushed_back<T: Extract>(cursor: Cursor, byte: u8, rest: Seq<Fetch>)
    requires
        cursor.idle(),
    ensures
        reading::<T>(cursor.push_back(byte), rest) == reading::<T>(
            cursor,
            seq![Fetch::Byte(byte)] + rest,
        ),
{
    cursor.lemma_skip_blanks_pushed_back(byte, rest);
}

} // verus!
