//! The pending construction request: the consumer half of a one-shot
//! completion slot, polled without blocking by the navigation pump.

use vstd::prelude::*;

verus! {

/// futures' one-shot `Receiver`, declared so that a pending construction
/// request can stand in fields and signatures.
#[verifier::external_type_specification]
#[verifier::external_body]
#[verifier::reject_recursive_types(T)]
pub struct ExReceiver<T>(futures::channel::oneshot::Receiver<T>);

/// futures' `Canceled`: the error a one-shot receiver reports when its
/// sender was dropped without answering.
#[verifier::external_type_specification]
#[verifier::external_body]
pub struct ExCanceled(futures::channel::oneshot::Canceled);

/// Relies on futures' one-shot `Receiver::try_recv`: a non-blocking poll
/// that reports the sent value, that nothing was sent yet, or that the
/// sender was dropped. Which of the three comes back depends on the
/// producer's progress, so nothing more is promised of the outcome.
pub assume_specification<T>[ futures::channel::oneshot::Receiver::<T>::try_recv ](
    r: &mut futures::channel::oneshot::Receiver<T>,
) -> Result<Option<T>, futures::channel::oneshot::Canceled>;

} // verus!
