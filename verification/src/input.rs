use vstd::prelude::*;
use std::io::Read;

verus! {

#[verifier::external_type_specification]
#[verifier::external_body]
pub struct ExStdin(std::io::Stdin);

/// Relies on `std::io::stdin`: a handle to the process's standard input.
#[verifier::external_body]
fn console_handle() -> std::io::Stdin {
    std::io::stdin()
}

/// A byte source over the process's console input. Reads are sequential
/// and buffered by the handle; a read of zero bytes signals the end of
/// the stream.
pub struct Input {
    console: std::io::Stdin,
}

impl Input {
    /// The byte source over the console input stream. Always succeeds;
    /// a failing stream surfaces only on the first read.
    pub fn stdin() -> Input {
        Input { console: console_handle() }
    }

    /// Relies on `std::io::Read::read` on the locked handle: up to `max`
    /// bytes from the stream, an empty read only at its end, or no bytes
    /// on an operating-system read failure.
    #[verifier::external_body]
    pub fn read_chunk(&mut self, max: usize) -> (r: Option<Vec<u8>>)
        ensures
            r matches Option::Some(chunk) ==> chunk@.len() <= max,
    {
        let mut buf = vec![0u8; max];
        match self.console.lock().read(&mut buf) {
            Ok(n) => {
                buf.truncate(n);
                Some(buf)
            },
            Err(_) => None,
        }
    }
}

} // verus!
