//! Small helpers shared by the sources and the pool: expanding a
//! `Result` of a collection into a stream of per-item `Result`s, and an
//! I/O error that is equal by message and cheap to share.

use vstd::prelude::*;

verus! {

/// `transpose` swaps the nesting of `Result` and `Option`: a present value
/// or error becomes a yielded item, an absent one ends the stream.
pub fn transpose<T, E>(result: Result<Option<T>, Option<E>>) -> (r: Option<Result<T, E>>)
    ensures
        r == (match result {
            Ok(Some(x)) => Some(Ok::<T, E>(x)),
            Err(Some(e)) => Some(Err::<T, E>(e)),
            Ok(None) => None::<Result<T, E>>,
            Err(None) => None::<Result<T, E>>,
        }),
{
    match result {
        Ok(Some(x)) => Some(Ok(x)),
        Err(Some(e)) => Some(Err(e)),
        Ok(None) | Err(None) => None,
    }
}

/// Wraps a fallible collection so that it can be walked as a stream of
/// fallible items: `Ok(items)` yields each item as `Ok`, `Err(e)` yields
/// exactly one `Err(e)` and then ends.
pub struct ResultExpand<A, E>(pub Result<Vec<A>, E>);

impl<A, E> ResultExpand<A, E> {
    /// Begin walking the wrapped result.
    pub fn into_iter(self) -> (r: ResultExpandIter<A, E>)
        ensures
            r.remaining() == (match self.0 {
                Ok(items) => Ok::<Seq<A>, Option<E>>(items@),
                Err(e) => Err::<Seq<A>, Option<E>>(Some(e)),
            }),
    {
        match self.0 {
            Ok(items) => ResultExpandIter(Ok(items)),
            Err(e) => ResultExpandIter(Err(Some(e))),
        }
    }
}

/// The walking state of a [`ResultExpand`]: the items not yet yielded, or
/// the error if it has not been yielded yet.
pub struct ResultExpandIter<A, E>(pub Result<Vec<A>, Option<E>>);

impl<A, E> ResultExpandIter<A, E> {
    /// What is still to come: the items not yet yielded, or the error if
    /// it has not been yielded yet.
    pub open spec fn remaining(&self) -> Result<Seq<A>, Option<E>> {
        match self.0 {
            Ok(items) => Ok(items@),
            Err(e) => Err(e),
        }
    }

    /// Yield the next item of the stream, if any.
    pub fn next(&mut self) -> (r: Option<Result<A, E>>)
        ensures
            match old(self).remaining() {
                Ok(items) => if items.len() > 0 {
                    r == Some(Ok::<A, E>(items[0])) && final(self).remaining() == Ok::<
                        Seq<A>,
                        Option<E>,
                    >(items.skip(1))
                } else {
                    r is None && final(self).remaining() == old(self).remaining()
                },
                Err(e) => match e {
                    Some(err) => r == Some(Err::<A, E>(err)) && final(self).remaining() == Err::<
                        Seq<A>,
                        Option<E>,
                    >(None),
                    None => r is None && final(self).remaining() == old(self).remaining(),
                },
            },
    {
        let step: Result<Option<A>, Option<E>> = match &mut self.0 {
            Ok(items) => if items.len() > 0 {
                let a = items.remove(0);
                proof {
                    assert(self.0->Ok_0@ =~= old(self).0->Ok_0@.skip(1));
                }
                Ok(Some(a))
            } else {
                Ok(None)
            },
            Err(e) => Err(e.take()),
        };
        transpose(step)
    }
}

/// An opaque underlying I/O failure, carried as its message: two values
/// compare equal exactly when their messages agree, and cloning shares
/// the message.
#[derive(Clone, Debug)]
pub struct IoError {
    pub message: String,
}

impl IoError {
    pub fn from_message(message: String) -> (r: IoError)
        ensures
            r.message == message,
    {
        IoError { message }
    }
}

impl PartialEq for IoError {
    fn eq(&self, other: &Self) -> (r: bool) {
        self.message.eq(&other.message)
    }
}

impl vstd::std_specs::cmp::PartialEqSpecImpl for IoError {
    open spec fn obeys_eq_spec() -> bool {
        true
    }

    open spec fn eq_spec(&self, other: &Self) -> bool {
        self.message@ == other.message@
    }
}

} // verus!
