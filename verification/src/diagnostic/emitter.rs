//! Where diagnostics go.
use vstd::prelude::*;

use crate::diagnostic::Diagnostic;

verus! {

/// A sink for diagnostics.
pub trait Emitter {
    fn emit(&mut self, diagnostic: Diagnostic);
}

/// Collecting diagnostics keeps them in the order they were emitted.
impl Emitter for Vec<Diagnostic> {
    fn emit(&mut self, diagnostic: Diagnostic)
        ensures
            final(self)@ == old(self)@.push(diagnostic),
    {
        self.push(diagnostic);
    }
}

} // verus!
