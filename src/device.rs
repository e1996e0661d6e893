//! The device: one shared session state behind a lock that is only ever
//! tried, never waited for. A caller that finds it held gets
//! `DeviceError::Unavailable` and retries on its own.

use vstd::prelude::*;
use try_lock::{Locked, TryLock};
use crate::session::{
    command_bytes, consumed, consumed_len, decode_chunk, push_spec, read_spec, Data, DeviceError,
};
use crate::text::utf8_text;

verus! {

#[verifier::external_type_specification]
#[verifier::external_body]
#[verifier::reject_recursive_types(T)]
pub struct ExTryLock<T>(TryLock<T>);

#[verifier::external_type_specification]
#[verifier::external_body]
#[verifier::reject_recursive_types(T)]
pub struct ExLocked<'a, T: 'a>(Locked<'a, T>);

/// Relies on `TryLock::new`: a lock, not held, around `value`.
#[verifier::external_body]
fn new_lock(value: Option<Data>) -> TryLock<Option<Data>> {
    TryLock::new(value)
}

/// Relies on `TryLock::try_lock`: the guard where no one held the lock,
/// `None` otherwise, without waiting. Dropping the guard releases the lock.
#[verifier::external_body]
fn try_acquire<'a>(lock: &'a TryLock<Option<Data>>) -> Option<Locked<'a, Option<Data>>> {
    lock.try_lock()
}

/// Relies on `DerefMut` of `Locked`: puts `value` into the held lock and
/// returns what it held.
#[verifier::external_body]
fn exchange(guard: &mut Locked<'_, Option<Data>>, value: Option<Data>) -> Option<Data> {
    core::mem::replace(&mut **guard, value)
}

/// Carries out a write on the state taken out of the lock: appends `text`
/// to its pending command (running the command where `complete`), or fails
/// with `NotInitialized` where there is no state. Returns the state to put
/// back.
pub fn write_state(state: Option<Data>, text: &str, complete: bool)
    -> (r: (Option<Data>, Result<(), DeviceError>))
    ensures
        state is None ==> r.0 is None && r.1 == Err::<(), DeviceError>(DeviceError::NotInitialized),
        state matches Some(d) ==> (r.1 is Ok && (r.0 matches Some(d2) && d2@ == push_spec(d@, text@, complete))),
{
    match state {
        Some(mut data) => {
            data.push_text(text, complete);
            (Some(data), Ok(()))
        },
        None => (None, Err(DeviceError::NotInitialized)),
    }
}

/// Carries out a read on the state taken out of the lock: the bytes that
/// `read_spec` gives for its response, or `NotInitialized` where there is
/// no state.
pub fn read_state(state: &Option<Data>, offset: u64, capacity: usize) -> (r: Result<Vec<u8>, DeviceError>)
    ensures
        state is None ==> r == Err::<Vec<u8>, DeviceError>(DeviceError::NotInitialized),
        state matches Some(d) ==> (r matches Ok(v) && v@ == read_spec(d@.response, offset as nat, capacity as nat)),
{
    match state {
        Some(data) => Ok(data.read_response(offset, capacity)),
        None => Err(DeviceError::NotInitialized),
    }
}

/// The device: the one session state that every open handle shares.
pub struct PhoneBook {
    state: TryLock<Option<Data>>,
}

impl PhoneBook {
    /// A device whose state has not been created yet.
    pub fn new() -> PhoneBook {
        PhoneBook { state: new_lock(None) }
    }

    /// Creates a fresh state, replacing any state held before.
    pub fn install(&self) -> (r: Result<(), DeviceError>)
        ensures
            r is Ok || r == Err::<(), DeviceError>(DeviceError::Unavailable),
    {
        match try_acquire(&self.state) {
            Some(mut guard) => {
                let _ = exchange(&mut guard, Some(Data::new()));
                Ok(())
            },
            None => Err(DeviceError::Unavailable),
        }
    }

    /// Destroys the state; later calls fail with `NotInitialized` until
    /// `install` is called again.
    pub fn teardown(&self) -> (r: Result<(), DeviceError>)
        ensures
            r is Ok || r == Err::<(), DeviceError>(DeviceError::Unavailable),
    {
        match try_acquire(&self.state) {
            Some(mut guard) => {
                let _ = exchange(&mut guard, None);
                Ok(())
            },
            None => Err(DeviceError::Unavailable),
        }
    }

    /// Writes a chunk of a command. The chunk is decoded before the state is
    /// touched: where its command bytes are not valid UTF-8 the call fails
    /// with `InvalidEncoding`, whoever holds the state. Otherwise the chunk
    /// is taken through its first zero byte (see `write_state`), unless the
    /// state is held by another caller.
    pub fn write(&self, bytes: &[u8]) -> (r: Result<usize, DeviceError>)
        ensures
            utf8_text(command_bytes(bytes@)) is None <==> r == Err::<usize, DeviceError>(DeviceError::InvalidEncoding),
            r matches Ok(n) ==> n == consumed(bytes@),
            r is Ok || r matches Err(DeviceError::InvalidEncoding) || r matches Err(DeviceError::Unavailable)
                || r matches Err(DeviceError::NotInitialized),
    {
        let (text, is_complete) = match decode_chunk(bytes) {
            Some(decoded) => decoded,
            None => return Err(DeviceError::InvalidEncoding),
        };
        let mut guard = match try_acquire(&self.state) {
            Some(g) => g,
            None => return Err(DeviceError::Unavailable),
        };
        let taken = exchange(&mut guard, None);
        let (state, result) = write_state(taken, text.as_str(), is_complete);
        let _ = exchange(&mut guard, state);
        match result {
            Ok(()) => Ok(consumed_len(bytes)),
            Err(e) => Err(e),
        }
    }

    /// Reads the current response from `offset`, with room for `capacity`
    /// bytes (see `read_state`), unless the state is held by another caller.
    pub fn read(&self, offset: u64, capacity: usize) -> (r: Result<Vec<u8>, DeviceError>)
        ensures
            r matches Ok(v) ==> exists|response: Seq<char>| v@ == read_spec(response, offset as nat, capacity as nat),
            r is Ok || r matches Err(DeviceError::Unavailable) || r matches Err(DeviceError::NotInitialized),
    {
        let mut guard = match try_acquire(&self.state) {
            Some(g) => g,
            None => return Err(DeviceError::Unavailable),
        };
        let taken = exchange(&mut guard, None);
        let result = read_state(&taken, offset, capacity);
        let _ = exchange(&mut guard, taken);
        result
    }
}

} // verus!
