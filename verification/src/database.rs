//! A store that holds at most one root value.
//!
//! The store is filled once, from a snapshot or from a fallback, and after that
//! it hands its root out for exclusive use. It does not know how a root is
//! encoded: callers pass the encoder or decoder to the operation that needs one.
//!
//! There is no lock inside. Whatever changes the store takes it by `&mut`, so
//! one caller at a time has it, and a task that runs on the root cannot reach
//! the store again. A host that shares one store among callers has to hand it
//! out to one of them at a time.

use vstd::prelude::*;

verus! {

/// Why an operation on the store could not run.
#[derive(Clone, Copy, Debug, PartialEq, Eq, Structural)]
pub enum DatabaseError {
    Uninitialized,
}

/// What an export hands back.
#[derive(Clone, Debug, PartialEq, Eq)]
pub enum DatabaseResponse {
    JSON(String),
    Snapshot(Vec<u8>),
    Uninitialized,
    SerializationError,
    UnknownQueryError,
    UnknownSaveError,
}

/// A slot for one root value of type `T`.
pub struct Database<T> {
    root: Option<T>,
}

impl<T> View for Database<T> {
    type V = Option<T>;

    /// The root, if the store has one.
    closed spec fn view(&self) -> Option<T> {
        self.root
    }
}

/// `root` is what an empty store takes in: the root that `decode` read from
/// `snapshot`, or, where `decode` failed, the root that `fallback` made.
pub open spec fn installs<T, E, D: FnOnce(&Vec<u8>) -> Result<T, E>, U: FnOnce() -> T>(
    decode: D,
    fallback: U,
    snapshot: &Vec<u8>,
    root: T,
) -> bool {
    ||| decode.ensures((snapshot,), Ok::<T, E>(root))
    ||| (exists|e: E| decode.ensures((snapshot,), Err::<T, E>(e))) && fallback.ensures((), root)
}

/// The response for an attempt to encode the root as text.
pub open spec fn json_response<E>(encoded: Result<String, E>) -> DatabaseResponse {
    match encoded {
        Ok(text) => DatabaseResponse::JSON(text),
        Err(_) => DatabaseResponse::SerializationError,
    }
}

/// The response for an attempt to encode the root as bytes.
pub open spec fn snapshot_response<E>(encoded: Result<Vec<u8>, E>) -> DatabaseResponse {
    match encoded {
        Ok(bytes) => DatabaseResponse::Snapshot(bytes),
        Err(_) => DatabaseResponse::SerializationError,
    }
}

impl<T> Database<T> {
    /// A store without a root.
    pub fn new() -> (db: Database<T>)
        ensures
            db@ is None,
    {
        Database { root: None }
    }

    /// Runs `task` on the root, with exclusive access to it. Without a root the
    /// task does not run and the call fails with `Uninitialized`.
    pub fn exec_with_db<U>(&mut self, task: U) -> (done: Result<(), DatabaseError>) where
        U: FnOnce(&mut T),

        requires
            old(self)@ matches Some(before) ==> forall|root: &mut T|
                *root == before ==> task.requires((root,)),
        ensures
            old(self)@ is None ==> final(self)@ is None && done == Err::<(), DatabaseError>(
                DatabaseError::Uninitialized,
            ),
            old(self)@ matches Some(before) ==> done is Ok && exists|root: &mut T|
                *root == before && task.ensures((root,), ()) && final(self)@ == Some(*final(root)),
    {
        match &mut self.root {
            Some(root) => {
                task(root);
                Ok(())
            },
            None => Err(DatabaseError::Uninitialized),
        }
    }

    /// Fills an empty store: with the root that `decode` reads from `snapshot`,
    /// or, where it reads none, with the root that `fallback` makes. A store
    /// that already has a root keeps it.
    pub fn initialize<D, E, U>(&mut self, snapshot: &Vec<u8>, decode: D, fallback: U) where
        D: FnOnce(&Vec<u8>) -> Result<T, E>,
        U: FnOnce() -> T,

        requires
            decode.requires((snapshot,)),
            fallback.requires(()),
        ensures
            old(self)@ is Some ==> final(self)@ == old(self)@,
            old(self)@ is None ==> final(self)@ is Some && installs(
                decode,
                fallback,
                snapshot,
                final(self)@->0,
            ),
    {
        let root = match decode(snapshot) {
            Ok(root) => root,
            Err(_) => fallback(),
        };
        if self.root.is_none() {
            self.root = Some(root);
        }
    }

    /// The root as text: `JSON` with what `encode` makes of the root,
    /// `SerializationError` where it fails, `Uninitialized` without a root.
    pub fn fullJSON<F, E>(&self, encode: F) -> (response: DatabaseResponse) where
        F: FnOnce(&T) -> Result<String, E>,

        requires
            self@ matches Some(root) ==> encode.requires((&root,)),
        ensures
            self@ is None ==> response == DatabaseResponse::Uninitialized,
            self@ matches Some(root) ==> exists|encoded: Result<String, E>|
                encode.ensures((&root,), encoded) && response == json_response(encoded),
    {
        match &self.root {
            Some(root) => {
                let encoded = encode(root);
                let ghost witness = encoded;
                let response = match encoded {
                    Ok(text) => DatabaseResponse::JSON(text),
                    Err(_) => DatabaseResponse::SerializationError,
                };
                assert(response == json_response(witness));
                response
            },
            None => DatabaseResponse::Uninitialized,
        }
    }

    /// The root as bytes: `Snapshot` with what `encode` makes of the root,
    /// `SerializationError` where it fails, `Uninitialized` without a root.
    pub fn persist<F, E>(&self, encode: F) -> (response: DatabaseResponse) where
        F: FnOnce(&T) -> Result<Vec<u8>, E>,

        requires
            self@ matches Some(root) ==> encode.requires((&root,)),
        ensures
            self@ is None ==> response == DatabaseResponse::Uninitialized,
            self@ matches Some(root) ==> exists|encoded: Result<Vec<u8>, E>|
                encode.ensures((&root,), encoded) && response == snapshot_response(encoded),
    {
        match &self.root {
            Some(root) => {
                let encoded = encode(root);
                let ghost witness = encoded;
                let response = match encoded {
                    Ok(bytes) => DatabaseResponse::Snapshot(bytes),
                    Err(_) => DatabaseResponse::SerializationError,
                };
                assert(response == snapshot_response(witness));
                response
            },
            None => DatabaseResponse::Uninitialized,
        }
    }
}

} // verus!
