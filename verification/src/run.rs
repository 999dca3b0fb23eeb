//! Futures which perform a computation upon polling.
use vstd::prelude::*;

verus! {

/// What polling a future that has not failed gives.
#[derive(Debug, PartialEq, Eq)]
pub enum Async<T> {
    /// The value is there.
    Ready(T),
    /// The value is not there yet.
    NotReady,
}

/// A simple future which performs a computation upon polling which cannot fail.
#[verifier::reject_recursive_types(O)]
pub struct Run<O, F: FnOnce() -> O> {
    work: Option<F>,
}

impl<O, F: FnOnce() -> O> Run<O, F> {
    /// The computation, until it is performed.
    pub closed spec fn work(&self) -> Option<F> {
        self.work
    }

    /// Perform the computation. A future can only be polled to completion once.
    pub fn poll(&mut self) -> (r: Result<Async<O>, ()>)
        requires
            old(self).work() is Some,
            old(self).work()->0.requires(()),
        ensures
            final(self).work() is None,
            r matches Ok(Async::Ready(item)) && old(self).work()->0.ensures((), item),
    {
        let work = self.work.take().unwrap();
        Ok(Async::Ready(work()))
    }
}

pub fn run<O, F: FnOnce() -> O>(work: F) -> (future: Run<O, F>)
    ensures
        future.work() == Some(work),
{
    Run { work: Some(work) }
}

/// A simple future which performs a computation upon polling which can fail.
#[verifier::reject_recursive_types(O)]
#[verifier::reject_recursive_types(E)]
pub struct TryRun<O, E, F: FnOnce() -> Result<O, E>> {
    work: Option<F>,
}

impl<O, E, F: FnOnce() -> Result<O, E>> TryRun<O, E, F> {
    /// The computation, until it is performed.
    pub closed spec fn work(&self) -> Option<F> {
        self.work
    }

    /// Perform the computation. A future can only be polled to completion once.
    pub fn poll(&mut self) -> (r: Result<Async<O>, E>)
        requires
            old(self).work() is Some,
            old(self).work()->0.requires(()),
        ensures
            final(self).work() is None,
            match r {
                Ok(Async::Ready(item)) => old(self).work()->0.ensures((), Ok(item)),
                Ok(Async::NotReady) => false,
                Err(error) => old(self).work()->0.ensures((), Err(error)),
            },
    {
        let work = self.work.take().unwrap();
        match work() {
            Ok(item) => Ok(Async::Ready(item)),
            Err(error) => Err(error),
        }
    }
}

pub fn try_run<O, E, F: FnOnce() -> Result<O, E>>(work: F) -> (future: TryRun<O, E, F>)
    ensures
        future.work() == Some(work),
{
    TryRun { work: Some(work) }
}

} // verus!
