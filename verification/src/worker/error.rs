//! What can go wrong with the worker.
use vstd::prelude::*;

use crate::time::SystemTimeError;
use crate::worker::message::WorkerMessage;

verus! {

/// An error of the worker.
#[derive(Debug)]
pub enum WorkerError {
    /// The worker is dead and could not take the message.
    ChannelClosed(WorkerMessage),
}

impl Clone for WorkerError {
    fn clone(&self) -> (r: Self)
        ensures
            r->ChannelClosed_0@ == self->ChannelClosed_0@,
    {
        match self {
            WorkerError::ChannelClosed(message) => WorkerError::ChannelClosed(message.clone()),
        }
    }
}

/// What can go wrong when the watched directories are looked through.
#[derive(Debug)]
pub enum RescanError {
    /// The file system failed.
    IO(std::io::Error),
    /// A time lies before the Unix epoch.
    SystemTime(SystemTimeError),
}

} // verus!
