use vstd::prelude::*;

use std::sync::mpsc::{Receiver, Sender};

verus! {

/// The sending end of a channel of std.
#[verifier::external_type_specification]
#[verifier::external_body]
#[verifier::reject_recursive_types(T)]
pub struct ExSender<T>(Sender<T>);

/// The receiving end of a channel of std.
#[verifier::external_type_specification]
#[verifier::external_body]
#[verifier::reject_recursive_types(T)]
pub struct ExReceiver<T>(Receiver<T>);

/// The two ends a node talks through: it sends `TX` and receives `RX`.
#[verifier::reject_recursive_types(TX)]
#[verifier::reject_recursive_types(RX)]
pub struct ChannelCom<TX, RX> {
    tx: Sender<TX>,
    rx: Receiver<RX>,
}

impl<TX, RX> ChannelCom<TX, RX> {
    pub closed spec fn sender(&self) -> Sender<TX> {
        self.tx
    }

    pub closed spec fn receiver(&self) -> Receiver<RX> {
        self.rx
    }

    pub fn new(tx: Sender<TX>, rx: Receiver<RX>) -> (c: Self)
        ensures
            c.sender() == tx,
            c.receiver() == rx,
    {
        ChannelCom { tx, rx }
    }
}

} // verus!
