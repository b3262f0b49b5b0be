//! What the program that agents run is called.
use vstd::prelude::*;

verus! {

/// The names of the agents' program and of the service behind it. What is said to people names them.
#[derive(Debug)]
pub struct Product {
    /// The service.
    pub service: String,
    /// The program.
    pub program: String,
    /// The command that starts the program.
    pub command: String,
}

/// The names, as values.
pub struct ProductView {
    pub service: Seq<char>,
    pub program: Seq<char>,
    pub command: Seq<char>,
}

impl View for Product {
    type V = ProductView;

    open spec fn view(&self) -> ProductView {
        ProductView {
            service: self.service@,
            program: self.program@,
            command: self.command@,
        }
    }
}

} // verus!
