//! Envelopes in which the backend reports a value or an error text: an empty
//! error text means success.
use vstd::prelude::*;
use crate::instruction::Instruction;

verus! {

/// Bytes, or an error text.
pub struct ByteResult {
    pub ok: Vec<u8>,
    pub error: String,
}

/// Instructions, or an error text.
pub struct InstructionResult {
    pub ok: Vec<Instruction>,
    pub error: String,
}

/// A text, or an error text.
pub struct StringResult {
    pub ok: String,
    pub error: String,
}

/// A session handle, or an error text.
pub struct NyxstoneResult<T> {
    pub ok: T,
    pub error: String,
}

/// Whether the error text `error` reports a failure.
fn is_failure(error: &String) -> (r: bool)
    ensures
        r == (error@.len() > 0),
{
    !error.as_str().is_empty()
}

impl ByteResult {
    /// The bytes if the error text is empty, the error text otherwise.
    pub fn into_result(self) -> (r: Result<Vec<u8>, String>)
        ensures
            self.error@.len() == 0 ==> r is Ok && r->Ok_0@ == self.ok@,
            self.error@.len() > 0 ==> r is Err && r->Err_0@ == self.error@,
    {
        if is_failure(&self.error) {
            Err(self.error)
        } else {
            Ok(self.ok)
        }
    }
}

impl InstructionResult {
    /// The instructions if the error text is empty, the error text otherwise.
    pub fn into_result(self) -> (r: Result<Vec<Instruction>, String>)
        ensures
            self.error@.len() == 0 ==> r is Ok && r->Ok_0@ == self.ok@,
            self.error@.len() > 0 ==> r is Err && r->Err_0@ == self.error@,
    {
        if is_failure(&self.error) {
            Err(self.error)
        } else {
            Ok(self.ok)
        }
    }
}

impl StringResult {
    /// The text if the error text is empty, the error text otherwise.
    pub fn into_result(self) -> (r: Result<String, String>)
        ensures
            self.error@.len() == 0 ==> r is Ok && r->Ok_0@ == self.ok@,
            self.error@.len() > 0 ==> r is Err && r->Err_0@ == self.error@,
    {
        if is_failure(&self.error) {
            Err(self.error)
        } else {
            Ok(self.ok)
        }
    }
}

impl<T> NyxstoneResult<T> {
    /// The handle if the error text is empty, the error text otherwise.
    pub fn into_result(self) -> (r: Result<T, String>)
        ensures
            self.error@.len() == 0 ==> r == Ok::<T, String>(self.ok),
            self.error@.len() > 0 ==> r is Err && r->Err_0@ == self.error@,
    {
        if is_failure(&self.error) {
            Err(self.error)
        } else {
            Ok(self.ok)
        }
    }
}

} // verus!
