//! Calls between processes.

use crate::ir::ids::FnId;
use vstd::prelude::*;

verus! {

/// A method that sends a request to another process, and the one that
/// handles it there.
#[derive(Debug)]
pub struct IpcBridge {
    /// The method that sends.
    pub proxy_method: FnId,
    /// The method that handles.
    pub stub_handler: FnId,
    /// The interface's descriptor. Empty where bridges are found by name.
    pub descriptor: String,
}

/// The mathematical form of an [`IpcBridge`].
pub struct BridgeV {
    pub proxy_method: FnId,
    pub stub_handler: FnId,
    pub descriptor: Seq<char>,
}

impl View for IpcBridge {
    type V = BridgeV;

    open spec fn view(&self) -> BridgeV {
        BridgeV {
            proxy_method: self.proxy_method,
            stub_handler: self.stub_handler,
            descriptor: self.descriptor@,
        }
    }
}

pub open spec fn bridges_view(s: Seq<IpcBridge>) -> Seq<BridgeV> {
    Seq::new(s.len(), |i: int| s[i]@)
}

} // verus!
