//! Non-blocking reads from the channels that background work writes into.
use vstd::prelude::*;

verus! {

#[verifier::external_type_specification]
#[verifier::external_body]
#[verifier::reject_recursive_types(T)]
pub struct ExStdReceiver<T>(std::sync::mpsc::Receiver<T>);

#[verifier::external_type_specification]
#[verifier::external_body]
#[verifier::reject_recursive_types(T)]
pub struct ExTokioReceiver<T>(tokio::sync::mpsc::Receiver<T>);

/// What one non-blocking read of a channel found.
pub enum Received<T> {
    /// A value that the sender wrote.
    Item(T),
    /// Nothing yet; the sender is still there.
    Empty,
    /// Nothing, and the sender is gone.
    Closed,
}

/// Relies on `std::sync::mpsc::Receiver::try_recv`, which never blocks.
#[verifier::external_body]
pub(crate) fn receive_now<T>(rx: &std::sync::mpsc::Receiver<T>) -> (r: Received<T>) {
    match rx.try_recv() {
        Ok(v) => Received::Item(v),
        Err(std::sync::mpsc::TryRecvError::Empty) => Received::Empty,
        Err(std::sync::mpsc::TryRecvError::Disconnected) => Received::Closed,
    }
}

/// Relies on `tokio::sync::mpsc::Receiver::try_recv`, which never blocks.
#[verifier::external_body]
pub(crate) fn receive_async_now<T>(rx: &mut tokio::sync::mpsc::Receiver<T>) -> (r: Received<T>) {
    match rx.try_recv() {
        Ok(v) => Received::Item(v),
        Err(tokio::sync::mpsc::error::TryRecvError::Empty) => Received::Empty,
        Err(tokio::sync::mpsc::error::TryRecvError::Disconnected) => Received::Closed,
    }
}

} // verus!
