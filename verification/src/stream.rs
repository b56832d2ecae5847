//! The byte source under a reader.

use std::io::{Bytes, Read};
use vstd::prelude::*;

verus! {

/// `std::io::Error` of the standard library. The library hands such an error
/// on from the source to the caller and never looks into it.
#[verifier::external_type_specification]
#[verifier::external_body]
pub struct ExIoError(std::io::Error);

/// `std::io::Bytes` of the standard library, the iterator over the bytes of a
/// `Read`. The library holds one and asks it for its next item.
#[verifier::external_type_specification]
#[verifier::external_body]
#[verifier::reject_recursive_types(R)]
pub struct ExBytes<R>(std::io::Bytes<R>);

/// What one pull on a byte source gives.
#[derive(Debug)]
pub enum Fetch {
    /// The next byte of the input.
    Byte(u8),
    /// The source failed to read.
    Error(std::io::Error),
    /// The source has no more bytes.
    Ended,
}

impl Fetch {
    /// What an item of the iterator over a source's bytes stands for: no item
    /// for the end, a failed read for a failure, a byte for itself.
    pub open spec fn of_item(item: Option<Result<u8, std::io::Error>>) -> Fetch {
        match item {
            None => Fetch::Ended,
            Some(Err(error)) => Fetch::Error(error),
            Some(Ok(byte)) => Fetch::Byte(byte),
        }
    }

    /// Says what an item of the iterator over a source's bytes stands for.
    pub fn from_item(item: Option<Result<u8, std::io::Error>>) -> (fetch: Fetch)
        ensures
            fetch == Fetch::of_item(item),
    {
        match item {
            None => Fetch::Ended,
            Some(Err(err)) => Fetch::Error(err),
            Some(Ok(byte)) => Fetch::Byte(byte),
        }
    }
}

/// A byte source over any `Read`, pulled one byte at a time.
///
/// The stream keeps, as ghost state, the list of everything it has returned;
/// the contracts of a reader speak of that list. A stream hands out at most
/// `u64::MAX` bytes and reports its end after that, so that every loop over
/// it comes to an end.
#[verifier::reject_recursive_types(R)]
pub struct RioStream<R> {
    bytes: Bytes<R>,
    room: u64,
    delivered: Ghost<Seq<Fetch>>,
}

/// `Read::bytes` of the standard library: the iterator over the bytes of
/// `reader`. Nothing is claimed of it.
#[verifier::external_body]
fn bytes_of<R: Read>(reader: R) -> Bytes<R> {
    reader.bytes()
}

/// `Iterator::next` on the standard library's `Bytes`: one read of the
/// underlying source. What comes back depends on the source alone, so nothing
/// is claimed of it.
#[verifier::external_body]
fn next_of<R: Read>(bytes: &mut Bytes<R>) -> Option<Result<u8, std::io::Error>> {
    bytes.next()
}

impl<R> RioStream<R> {
    /// Everything that `getch` has returned so far, oldest first.
    pub closed spec fn delivered(&self) -> Seq<Fetch> {
        self.delivered@
    }

    /// How many bytes the stream may still hand out.
    pub closed spec fn room(&self) -> nat {
        self.room as nat
    }
}

impl<R: Read> RioStream<R> {
    /// A stream over the bytes of `reader`, from which nothing has been
    /// pulled yet.
    pub fn new(reader: R) -> (stream: Self)
        ensures
            stream.delivered() == Seq::<Fetch>::empty(),
            stream.room() == u64::MAX,
    {
        Self { bytes: bytes_of(reader), room: u64::MAX, delivered: Ghost(Seq::empty()) }
    }

    /// Pulls once on the source and says what came: a byte, a failure, or the
    /// end. A stream with no room left reports the end without asking the
    /// source.
    pub fn getch(&mut self) -> (fetch: Fetch)
        ensures
            final(self).delivered() == old(self).delivered().push(fetch),
            old(self).room() == 0 ==> fetch is Ended,
            final(self).room() == old(self).room() - if fetch is Byte { 1int } else { 0int },
    {
        let fetch = if self.room == 0 {
            Fetch::Ended
        } else {
            let fetch = Fetch::from_item(next_of(&mut self.bytes));
            if let Fetch::Byte(_) = fetch {
                self.room = self.room - 1;
            }
            fetch
        };
        proof {
            self.delivered@ = self.delivered@.push(fetch);
        }
        fetch
    }
}

} // verus!
