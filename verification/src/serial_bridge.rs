//! Protocol side of the serial bridge: one step of the receive loop, from a
//! receive buffer to a dispatch outcome.  The transport itself (the
//! pseudo-terminal and its timeouts) lives outside the library; this module
//! decides what the loop does with the bytes it has.

use vstd::prelude::*;

use crate::bill_emulator::{handle_state_rel, spec_response_data, spec_status, DeviceState};
use crate::essp_protocol::{
    build_response, spec_decode, spec_encode, spec_stuff, stuff_bytes, DecodeError, EsspPacket, STX,
};

verus! {

/// What the receive loop should do with its buffer after one decode attempt.
#[derive(Debug)]
pub enum BridgeAction {
    /// Keep the buffer as it is and wait for more bytes.
    Wait,
    /// Drop `consumed` bytes from the front of the buffer and, when a
    /// response was produced, write it to the transport.
    Advance { consumed: usize, response: Option<Vec<u8>> },
}

/// `skip` is the resynchronisation distance after a framing or CRC error:
/// at least one byte is dropped, then everything up to the next STX, so
/// that one corrupted byte can never stall the link.
pub open spec fn is_resync_skip(b: Seq<u8>, skip: int) -> bool {
    &&& 1 <= skip <= b.len()
    &&& skip == b.len() || b[skip] == STX
    &&& forall|k: int| 1 <= k < skip ==> b[k] != STX
}

/// One step of the receive loop: try to decode a frame from the front of
/// the buffer; on success dispatch it to the device and encode the response.
pub fn bridge_step(device: &mut DeviceState, buffer: &[u8]) -> (action: BridgeAction)
    requires
        old(device).wf(),
    ensures
        final(device).wf(),
        match spec_decode(buffer@) {
            Err(e) => {
                if e == DecodeError::TooShort || e == DecodeError::Incomplete {
                    // Recoverable by waiting: nothing moves.
                    &&& action is Wait
                    &&& *final(device) == *old(device)
                } else {
                    // FramingError or CrcMismatch: resynchronise.
                    &&& *final(device) == *old(device)
                    &&& action matches BridgeAction::Advance { consumed, response } && ({
                        &&& is_resync_skip(buffer@, consumed as int)
                        &&& response is None
                    })
                }
            },
            Ok(t) => {
                if t.1.len() == 0 {
                    // A frame with an empty payload is consumed unanswered.
                    &&& *final(device) == *old(device)
                    &&& action matches BridgeAction::Advance { consumed, response } && ({
                        &&& consumed as int == t.2
                        &&& response is None
                    })
                } else {
                    &&& handle_state_rel(*old(device), *final(device), t.1)
                    &&& action matches BridgeAction::Advance { consumed, response } && ({
                        let rp = seq![spec_status(t.1)] + spec_response_data(*old(device), t.1);
                        &&& consumed as int == t.2
                        &&& if spec_stuff(rp).len() <= 255 {
                            response matches Some(v) && v@ == spec_encode(t.0, rp)
                        } else {
                            // A response too large for the one-byte length
                            // field cannot be framed; the frame is still
                            // consumed.
                            response is None
                        }
                    })
                }
            },
        },
        action matches BridgeAction::Advance { consumed, .. } ==> 1 <= consumed
            <= buffer@.len(),
{
    match EsspPacket::from_bytes(buffer) {
        Err(DecodeError::TooShort) => BridgeAction::Wait,
        Err(DecodeError::Incomplete) => BridgeAction::Wait,
        Err(_) => {
            // Discard at least one byte, then rescan for the next start
            // marker.
            let mut j: usize = 1;
            while j < buffer.len() && buffer[j] != STX
                invariant
                    1 <= j <= buffer@.len(),
                    forall|k: int| 1 <= k < j ==> buffer@[k] != STX,
                decreases buffer@.len() - j,
            {
                j = j + 1;
            }
            BridgeAction::Advance { consumed: j, response: None }
        },
        Ok((packet, consumed)) => {
            if packet.data.len() == 0 {
                return BridgeAction::Advance { consumed, response: None };
            }
            let (status, response_data) = device.handle_command(packet.data.as_slice());
            let response = build_response(packet.sequence, status, response_data.as_slice());
            let stuffed = stuff_bytes(response.data.as_slice());
            if stuffed.len() <= 255 {
                let bytes = response.to_bytes();
                BridgeAction::Advance { consumed, response: Some(bytes) }
            } else {
                BridgeAction::Advance { consumed, response: None }
            }
        },
    }
}

} // verus!
