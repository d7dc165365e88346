use vstd::prelude::*;

verus! {

#[verifier::external_type_specification]
#[verifier::external_body]
#[verifier::reject_recursive_types(T)]
pub struct ExReceiver<T>(std::sync::mpsc::Receiver<T>);

/// Relies on std::sync::mpsc::Receiver::recv: blocks until the sending side
/// delivers a value or is dropped; `None` stands for a closed channel.
/// Nothing is promised of the value: the caller clamps it to a valid gain.
#[verifier::external_body]
pub fn recv_gain(rx: &std::sync::mpsc::Receiver<i64>) -> (r: Option<i64>) {
    rx.recv().ok()
}

} // verus!
