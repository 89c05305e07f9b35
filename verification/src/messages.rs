//! The frame message model: immutable-after-construction records for the
//! request and response payloads, together with their spec-level views.

use vstd::prelude::*;

verus! {

/// Which camera on the sending device produced an image. The decoder
/// classifies images by this tag, never by their position in the list.
#[derive(Clone, Copy, PartialEq, Eq, Structural, Debug)]
pub enum CameraDirection {
    Frontcam,
    Rearcam,
}

/// One captured sensor frame: a compressed image together with the
/// direction tag that says which slot of the request it belongs to.
#[derive(Debug)]
pub struct CameraImage {
    pub direction: CameraDirection,
    pub jpeg_bytes: Vec<u8>,
}

/// Spec-level value of a `CameraImage`.
#[verifier::ext_equal]
pub ghost struct ImageView {
    pub direction: CameraDirection,
    pub jpeg_bytes: Seq<u8>,
}

impl View for CameraImage {
    type V = ImageView;

    open spec fn view(&self) -> ImageView {
        ImageView { direction: self.direction, jpeg_bytes: self.jpeg_bytes@ }
    }
}

/// Request payload: wall-clock send time, opaque device and correlation
/// identifiers, and one image slot per camera direction.
#[derive(Debug)]
pub struct VmecRequestFields {
    pub timestamp_ms: u64,
    pub device_hash: String,
    pub request_hash: String,
    pub image_front: Vec<u8>,
    pub image_rear: Vec<u8>,
}

/// Spec-level value of a `VmecRequestFields`.
#[verifier::ext_equal]
pub ghost struct ReqView {
    pub timestamp_ms: u64,
    pub device_hash: Seq<char>,
    pub request_hash: Seq<char>,
    pub image_front: Seq<u8>,
    pub image_rear: Seq<u8>,
}

impl View for VmecRequestFields {
    type V = ReqView;

    open spec fn view(&self) -> ReqView {
        ReqView {
            timestamp_ms: self.timestamp_ms,
            device_hash: self.device_hash@,
            request_hash: self.request_hash@,
            image_front: self.image_front@,
            image_rear: self.image_rear@,
        }
    }
}

/// The request record with every field unset: what a decoder starts
/// from, so an absent tag leaves its slot as an empty byte sequence.
pub open spec fn req_unset() -> ReqView {
    ReqView {
        timestamp_ms: 0,
        device_hash: Seq::empty(),
        request_hash: Seq::empty(),
        image_front: Seq::empty(),
        image_rear: Seq::empty(),
    }
}

/// Response payload: server wall-clock time, opaque server identity,
/// the correlation string meant to echo the request's, and a string
/// placeholder for a future inference result.
#[derive(Debug)]
pub struct VmecResponseFields {
    pub timestamp_ms: u64,
    pub server_hash: String,
    pub response_hash: String,
    pub neural_output: String,
}

/// Spec-level value of a `VmecResponseFields`.
#[verifier::ext_equal]
pub ghost struct RespView {
    pub timestamp_ms: u64,
    pub server_hash: Seq<char>,
    pub response_hash: Seq<char>,
    pub neural_output: Seq<char>,
}

impl View for VmecResponseFields {
    type V = RespView;

    open spec fn view(&self) -> RespView {
        RespView {
            timestamp_ms: self.timestamp_ms,
            server_hash: self.server_hash@,
            response_hash: self.response_hash@,
            neural_output: self.neural_output@,
        }
    }
}

/// The response record with every field unset.
pub open spec fn resp_unset() -> RespView {
    RespView {
        timestamp_ms: 0,
        server_hash: Seq::empty(),
        response_hash: Seq::empty(),
        neural_output: Seq::empty(),
    }
}

} // verus!
