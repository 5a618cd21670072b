//! The plain settings a command-line front-end hands to the library.
//! Argument parsing itself lives outside: this type only carries the
//! values it produces.

use vstd::prelude::*;

verus! {

/// One invocation's settings: the verb to run, the file to read, the
/// chunk type and message for encoding, and the file to write.
pub struct Args {
    pub cmd: String,
    pub file: String,
    pub chunk_type: String,
    pub message: String,
    pub output: String,
}

} // verus!
