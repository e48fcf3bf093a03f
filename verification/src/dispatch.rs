//! What a device asks to have sent for it.

use vstd::prelude::*;

use crate::address::Address;
use crate::message::Message;

verus! {

/// A message to be sent to the device at an address. The library decides
/// what is sent and where; sending is left to the program around it.
#[derive(Debug, PartialEq)]
pub struct Dispatch {
    pub address: Address,
    pub message: Message,
}

} // verus!
