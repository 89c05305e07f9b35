//! The codec: a deterministic, compact binary serialization of the two
//! wire records, with a bit-exact round trip.
//!
//! `encode_request` accepts an image list of any length; a conformant
//! caller supplies exactly two images, one per direction. The decoder
//! fills each direction slot only from images whose tag names that
//! direction, and when several images share a tag the last one wins —
//! `wire::classify_front` and `wire::classify_rear` are that policy,
//! stated once and proved of every decode of an encode.

use vstd::prelude::*;

use crate::messages::CameraDirection;
use crate::messages::CameraImage;
use crate::messages::ImageView;
use crate::messages::ReqView;
use crate::messages::RespView;
use crate::messages::VmecRequestFields;
use crate::messages::VmecResponseFields;
use crate::wire::KIND_REQUEST;
use crate::wire::KIND_RESPONSE;
use crate::wire::classify_front;
use crate::wire::classify_rear;
use crate::wire::dec_request;
use crate::wire::dec_response;
use crate::wire::enc_images;
use crate::wire::enc_image;
use crate::wire::enc_request;
use crate::wire::enc_response;
use crate::wire::lemma_parse_request_msg_enc;
use crate::wire::lemma_parse_response_msg_enc;
use crate::wire::parse_images;
use crate::wire::parse_req_frames;
use crate::wire::parse_resp_frames;
use crate::wire::push_chunk;
use crate::wire::push_str;
use crate::wire::push_u64;
use crate::wire::read_image;
use crate::wire::read_str;
use crate::wire::read_u64;
use crate::wire::read_u8;
use crate::wire::req_encodable;
use crate::wire::resp_encodable;

verus! {

/// Why a decode failed. Decoding never panics and never aborts the
/// process: every malformed input comes back as one of these.
#[derive(Clone, Copy, PartialEq, Eq, Structural, Debug)]
pub enum DecodeError {
    /// The input ended inside a field, a length prefix claimed more
    /// bytes than remain, a direction tag byte named no direction, or
    /// a string chunk held no valid UTF-8.
    Malformed,
    /// The kind byte named the other message, or no message at all.
    WrongMessageKind,
    /// A whole message was read but input bytes remained after it.
    TrailingBytes,
}

/// The views of an image list.
pub open spec fn views_of_images(imgs: Seq<CameraImage>) -> Seq<ImageView> {
    imgs.map_values(|img: CameraImage| img@)
}

/// The two-image list a request record travels as: its front slot
/// under the front tag, then its rear slot under the rear tag.
pub open spec fn req_images_of(r: ReqView) -> Seq<ImageView> {
    seq![
        ImageView { direction: CameraDirection::Frontcam, jpeg_bytes: r.image_front },
        ImageView { direction: CameraDirection::Rearcam, jpeg_bytes: r.image_rear },
    ]
}

/// The bytes `encode_request` produces for a request record.
pub open spec fn enc_request_fields(r: ReqView) -> Seq<u8> {
    enc_request(r.timestamp_ms, r.device_hash, r.request_hash, req_images_of(r))
}

/// Every length the request-record encoder writes fits its prefix.
/// Machine limits alone: every in-memory record satisfies this.
pub open spec fn req_fields_encodable(r: ReqView) -> bool {
    req_encodable(r.device_hash, r.request_hash, req_images_of(r))
}

/// Serialize a request with an explicit tagged image list.
pub fn encode_request_images(
    timestamp_ms: u64,
    device_hash: &str,
    request_hash: &str,
    images: &Vec<CameraImage>,
) -> (out: Vec<u8>)
    ensures
        out@ == enc_request(timestamp_ms, device_hash@, request_hash@, views_of_images(images@)),
        req_encodable(device_hash@, request_hash@, views_of_images(images@)),
{
    let ghost imgviews = views_of_images(images@);
    let mut out: Vec<u8> = Vec::new();
    out.push(KIND_REQUEST);
    push_u64(&mut out, 1);
    push_u64(&mut out, timestamp_ms);
    push_str(&mut out, device_hash);
    push_str(&mut out, request_hash);
    push_u64(&mut out, images.len() as u64);
    let ghost head = out@;
    let mut k: usize = 0;
    while k < images.len()
        invariant
            k <= images.len(),
            out@ == head + enc_images(imgviews.subrange(0, k as int)),
            imgviews == views_of_images(images@),
            forall|j: int|
                0 <= j < k ==> (#[trigger] imgviews[j].jpeg_bytes).len() <= u64::MAX,
        decreases images.len() - k,
    {
        let img = &images[k];
        match img.direction {
            CameraDirection::Frontcam => out.push(0u8),
            CameraDirection::Rearcam => out.push(1u8),
        }
        push_chunk(&mut out, &img.jpeg_bytes);
        proof {
            crate::wire::lemma_enc_images_push(
                imgviews.subrange(0, k as int),
                imgviews[k as int],
            );
            assert(imgviews.subrange(0, (k + 1) as int) =~= imgviews.subrange(0, k as int).push(
                imgviews[k as int],
            ));
            assert(seq![crate::wire::dir_byte(imgviews[k as int].direction)] + crate::wire::enc_chunk(
                imgviews[k as int].jpeg_bytes,
            ) =~= enc_image(imgviews[k as int]));
            assert(out@ =~= head + enc_images(imgviews.subrange(0, (k + 1) as int)));
        }
        k = k + 1;
    }
    proof {
        assert(imgviews.subrange(0, imgviews.len() as int) =~= imgviews);
        assert(out@ =~= enc_request(timestamp_ms, device_hash@, request_hash@, imgviews));
    }
    out
}

/// Serialize a request record: its two slots travel as a two-image
/// list, front tag first.
pub fn encode_request(fields: VmecRequestFields) -> (out: Vec<u8>)
    ensures
        out@ == enc_request_fields(fields@),
        req_fields_encodable(fields@),
{
    let ghost v = fields@;
    let mut images: Vec<CameraImage> = Vec::new();
    images.push(
        CameraImage { direction: CameraDirection::Frontcam, jpeg_bytes: fields.image_front },
    );
    images.push(CameraImage { direction: CameraDirection::Rearcam, jpeg_bytes: fields.image_rear });
    proof {
        assert(views_of_images(images@) =~= req_images_of(v));
    }
    encode_request_images(
        fields.timestamp_ms,
        fields.device_hash.as_str(),
        fields.request_hash.as_str(),
        &images,
    )
}

/// Serialize a response record.
pub fn encode_response(fields: VmecResponseFields) -> (out: Vec<u8>)
    ensures
        out@ == enc_response(fields@),
        resp_encodable(fields@),
{
    let mut out: Vec<u8> = Vec::new();
    out.push(KIND_RESPONSE);
    push_u64(&mut out, 1);
    push_u64(&mut out, fields.timestamp_ms);
    push_str(&mut out, fields.server_hash.as_str());
    push_str(&mut out, fields.response_hash.as_str());
    push_str(&mut out, fields.neural_output.as_str());
    proof {
        assert(out@ =~= enc_response(fields@));
    }
    out
}

/// Read one request frame: header scalars and strings, then the image
/// list, classified into the two slots with the last tag winning.
#[verifier::loop_isolation(false)]
fn read_req_frame(s: &[u8], i: usize) -> (r: Option<(VmecRequestFields, usize)>)
    ensures
        match r {
            Some((f, j)) => crate::wire::parse_req_frame(s@, i as int) == Some((f@, j as int)) && j
                <= s@.len(),
            None => crate::wire::parse_req_frame(s@, i as int) is None,
        },
{
    let (ts, p1) = match read_u64(s, i) {
        Some(p) => p,
        None => {
            return None;
        },
    };
    let (dh, p2) = match read_str(s, p1) {
        Some(p) => p,
        None => {
            return None;
        },
    };
    let (rh, p3) = match read_str(s, p2) {
        Some(p) => p,
        None => {
            return None;
        },
    };
    let (icnt, p4) = match read_u64(s, p3) {
        Some(p) => p,
        None => {
            return None;
        },
    };
    let mut front: Vec<u8> = Vec::new();
    let mut rear: Vec<u8> = Vec::new();
    let mut ipos = p4;
    let mut idone: u64 = 0;
    while idone < icnt
        invariant
            idone <= icnt,
            ipos <= s@.len(),
            parse_images(s@, p4 as int, icnt as int, Seq::empty(), Seq::empty()) == parse_images(
                s@,
                ipos as int,
                (icnt - idone) as int,
                front@,
                rear@,
            ),
        decreases icnt - idone,
    {
        let (d, b, inext) = match read_image(s, ipos) {
            Some(p) => p,
            None => {
                return None;
            },
        };
        match d {
            CameraDirection::Frontcam => front = b,
            CameraDirection::Rearcam => rear = b,
        }
        ipos = inext;
        idone = idone + 1;
    }
    let f = VmecRequestFields {
        timestamp_ms: ts,
        device_hash: dh,
        request_hash: rh,
        image_front: front,
        image_rear: rear,
    };
    proof {
        assert(crate::wire::parse_req_frame(s@, i as int) matches Some((got, j)) && got =~= f@ && j
            == ipos as int);
    }
    Some((f, ipos))
}

/// Read one response frame: the timestamp, then the three strings.
fn read_resp_frame(s: &[u8], i: usize) -> (r: Option<(VmecResponseFields, usize)>)
    ensures
        match r {
            Some((f, j)) => crate::wire::parse_resp_frame(s@, i as int) == Some((f@, j as int))
                && j <= s@.len(),
            None => crate::wire::parse_resp_frame(s@, i as int) is None,
        },
{
    let (ts, p1) = match read_u64(s, i) {
        Some(p) => p,
        None => {
            return None;
        },
    };
    let (sh, p2) = match read_str(s, p1) {
        Some(p) => p,
        None => {
            return None;
        },
    };
    let (rh, p3) = match read_str(s, p2) {
        Some(p) => p,
        None => {
            return None;
        },
    };
    let (no, p4) = match read_str(s, p3) {
        Some(p) => p,
        None => {
            return None;
        },
    };
    let f = VmecResponseFields {
        timestamp_ms: ts,
        server_hash: sh,
        response_hash: rh,
        neural_output: no,
    };
    proof {
        assert(crate::wire::parse_resp_frame(s@, i as int) matches Some((got, j)) && got =~= f@ && j
            == p4 as int);
    }
    Some((f, p4))
}

/// Deserialize a request message, reporting exactly the malformed
/// inputs: the result is the record `wire::dec_request` names, and an
/// error comes back if and only if that decode names none.
#[verifier::loop_isolation(false)]
pub fn decode_request(bytes_to_decode: &[u8]) -> (r: Result<VmecRequestFields, DecodeError>)
    ensures
        match r {
            Ok(f) => dec_request(bytes_to_decode@) == Some(f@),
            Err(_) => dec_request(bytes_to_decode@) is None,
        },
{
    let s = bytes_to_decode;
    let (kind, i) = match read_u8(s, 0) {
        Some(p) => p,
        None => {
            return Err(DecodeError::WrongMessageKind);
        },
    };
    if kind != KIND_REQUEST {
        return Err(DecodeError::WrongMessageKind);
    }
    let (cnt, start) = match read_u64(s, i) {
        Some(p) => p,
        None => {
            return Err(DecodeError::Malformed);
        },
    };
    let mut fields = VmecRequestFields {
        timestamp_ms: 0,
        device_hash: String::new(),
        request_hash: String::new(),
        image_front: Vec::new(),
        image_rear: Vec::new(),
    };
    let mut pos = start;
    let mut done: u64 = 0;
    while done < cnt
        invariant
            done <= cnt,
            pos <= s@.len(),
            parse_req_frames(s@, start as int, cnt as int, crate::messages::req_unset())
                == parse_req_frames(s@, pos as int, (cnt - done) as int, fields@),
        decreases cnt - done,
    {
        match read_req_frame(s, pos) {
            Some((f, j)) => {
                fields = f;
                pos = j;
                done = done + 1;
            },
            None => {
                return Err(DecodeError::Malformed);
            },
        }
    }
    if pos == s.len() {
        Ok(fields)
    } else {
        Err(DecodeError::TrailingBytes)
    }
}

/// Deserialize a response message; errors exactly as `decode_request`.
#[verifier::loop_isolation(false)]
pub fn decode_response(bytes_to_decode: &[u8]) -> (r: Result<VmecResponseFields, DecodeError>)
    ensures
        match r {
            Ok(f) => dec_response(bytes_to_decode@) == Some(f@),
            Err(_) => dec_response(bytes_to_decode@) is None,
        },
{
    let s = bytes_to_decode;
    let (kind, i) = match read_u8(s, 0) {
        Some(p) => p,
        None => {
            return Err(DecodeError::WrongMessageKind);
        },
    };
    if kind != KIND_RESPONSE {
        return Err(DecodeError::WrongMessageKind);
    }
    let (cnt, start) = match read_u64(s, i) {
        Some(p) => p,
        None => {
            return Err(DecodeError::Malformed);
        },
    };
    let mut fields = VmecResponseFields {
        timestamp_ms: 0,
        server_hash: String::new(),
        response_hash: String::new(),
        neural_output: String::new(),
    };
    let mut pos = start;
    let mut done: u64 = 0;
    while done < cnt
        invariant
            done <= cnt,
            pos <= s@.len(),
            parse_resp_frames(s@, start as int, cnt as int, crate::messages::resp_unset())
                == parse_resp_frames(s@, pos as int, (cnt - done) as int, fields@),
        decreases cnt - done,
    {
        match read_resp_frame(s, pos) {
            Some((f, j)) => {
                fields = f;
                pos = j;
                done = done + 1;
            },
            None => {
                return Err(DecodeError::Malformed);
            },
        }
    }
    if pos == s.len() {
        Ok(fields)
    } else {
        Err(DecodeError::TrailingBytes)
    }
}

// ---------------------------------------------------------------------
// The codec's laws.
// ---------------------------------------------------------------------

/// Round trip for requests: decoding an encoding gives back the record,
/// field for field, for every request record — zero-length hashes and
/// image byte sequences included. The hypothesis asks only that every
/// length the encoder writes fits its 64-bit prefix, which holds of
/// every record a machine can hold in memory.
pub proof fn lemma_request_round_trip(r: ReqView)
    requires
        req_fields_encodable(r),
    ensures
        dec_request(enc_request_fields(r)) == Some(r),
{
    lemma_parse_request_msg_enc(r.timestamp_ms, r.device_hash, r.request_hash, req_images_of(r));
    let imgs = req_images_of(r);
    let e = Seq::<u8>::empty();
    let rest = imgs.drop_first();
    assert(rest.drop_first().len() == 0);
    assert(classify_front(imgs, e) == classify_front(rest, r.image_front));
    assert(classify_front(rest, r.image_front) == classify_front(
        rest.drop_first(),
        r.image_front,
    ));
    assert(classify_rear(imgs, e) == classify_rear(rest, e));
    assert(classify_rear(rest, e) == classify_rear(rest.drop_first(), r.image_rear));
}

/// Round trip for responses: decoding an encoding gives back the
/// record, field for field, for every response record.
pub proof fn lemma_response_round_trip(r: RespView)
    requires
        resp_encodable(r),
    ensures
        dec_response(enc_response(r)) == Some(r),
{
    lemma_parse_response_msg_enc(r);
}

/// Tag classification: decoding an encoding made from any image list —
/// however long, whatever its tags — fills each direction slot from
/// the images tagged with that direction under the policy
/// `classify_front` / `classify_rear` spell out: the last image under
/// a tag wins, and a tag no image carries leaves its slot empty.
pub proof fn lemma_tag_classification(ts: u64, dh: Seq<char>, rh: Seq<char>, imgs: Seq<ImageView>)
    requires
        req_encodable(dh, rh, imgs),
    ensures
        dec_request(enc_request(ts, dh, rh, imgs)) == Some(
            ReqView {
                timestamp_ms: ts,
                device_hash: dh,
                request_hash: rh,
                image_front: classify_front(imgs, Seq::empty()),
                image_rear: classify_rear(imgs, Seq::empty()),
            },
        ),
{
    lemma_parse_request_msg_enc(ts, dh, rh, imgs);
}

/// The classification policy spelled out pointwise: one more image at
/// the end of the list overrides exactly the slot its own tag names —
/// the last tag wins.
pub proof fn lemma_classify_last_tag_wins(
    imgs: Seq<ImageView>,
    img: ImageView,
    front: Seq<u8>,
    rear: Seq<u8>,
)
    ensures
        classify_front(imgs.push(img), front) == if img.direction is Frontcam {
            img.jpeg_bytes
        } else {
            classify_front(imgs, front)
        },
        classify_rear(imgs.push(img), rear) == if img.direction is Rearcam {
            img.jpeg_bytes
        } else {
            classify_rear(imgs, rear)
        },
    decreases imgs.len(),
{
    let p = imgs.push(img);
    if imgs.len() == 0 {
        let acc_front = if img.direction is Frontcam {
            img.jpeg_bytes
        } else {
            front
        };
        let acc_rear = if img.direction is Rearcam {
            img.jpeg_bytes
        } else {
            rear
        };
        assert(p[0] == img);
        assert(p.drop_first() =~= Seq::<ImageView>::empty());
        assert(classify_front(p, front) == classify_front(p.drop_first(), acc_front));
        assert(classify_front(p.drop_first(), acc_front) == acc_front);
        assert(classify_rear(p, rear) == classify_rear(p.drop_first(), acc_rear));
        assert(classify_rear(p.drop_first(), acc_rear) == acc_rear);
        assert(classify_front(imgs, front) == front);
        assert(classify_rear(imgs, rear) == rear);
    } else {
        let acc_front = if imgs[0].direction is Frontcam {
            imgs[0].jpeg_bytes
        } else {
            front
        };
        let acc_rear = if imgs[0].direction is Rearcam {
            imgs[0].jpeg_bytes
        } else {
            rear
        };
        assert(p[0] == imgs[0]);
        assert(p.drop_first() =~= imgs.drop_first().push(img));
        assert(classify_front(p, front) == classify_front(
            imgs.drop_first().push(img),
            acc_front,
        ));
        assert(classify_rear(p, rear) == classify_rear(imgs.drop_first().push(img), acc_rear));
        assert(classify_front(imgs, front) == classify_front(imgs.drop_first(), acc_front));
        assert(classify_rear(imgs, rear) == classify_rear(imgs.drop_first(), acc_rear));
        lemma_classify_last_tag_wins(imgs.drop_first(), img, acc_front, acc_rear);
    }
}

/// A direction that no image in the list is tagged with keeps the slot
/// the decoder started from — the empty byte sequence at the top level.
pub proof fn lemma_classify_absent_tag(imgs: Seq<ImageView>, front: Seq<u8>, rear: Seq<u8>)
    ensures
        (forall|k: int|
            0 <= k < imgs.len() ==> !((#[trigger] imgs[k]).direction is Frontcam))
            ==> classify_front(imgs, front) == front,
        (forall|k: int|
            0 <= k < imgs.len() ==> !((#[trigger] imgs[k]).direction is Rearcam))
            ==> classify_rear(imgs, rear) == rear,
    decreases imgs.len(),
{
    if imgs.len() == 0 {
    } else {
        let rest = imgs.drop_first();
        assert(forall|k: int| 0 <= k < rest.len() ==> #[trigger] rest[k] == imgs[k + 1]);
        lemma_classify_absent_tag(rest, front, rear);
    }
}

/// Malformed input: no strict prefix of a valid request encoding
/// decodes. A truncated message always comes back as an error — and a
/// decode error is an ordinary return value, never a panic.
pub proof fn lemma_request_truncation_rejected(s: Seq<u8>, n: int)
    requires
        dec_request(s) is Some,
        0 <= n < s.len(),
    ensures
        dec_request(s.subrange(0, n)) is None,
{
    let p = s.subrange(0, n);
    assert(p == s.subrange(0, p.len() as int));
    if crate::wire::parse_request_msg(p) is Some {
        crate::wire::lemma_parse_request_msg_ext(p, s);
    }
}

/// Malformed input: no strict prefix of a valid response encoding
/// decodes.
pub proof fn lemma_response_truncation_rejected(s: Seq<u8>, n: int)
    requires
        dec_response(s) is Some,
        0 <= n < s.len(),
    ensures
        dec_response(s.subrange(0, n)) is None,
{
    let p = s.subrange(0, n);
    assert(p == s.subrange(0, p.len() as int));
    if crate::wire::parse_response_msg(p) is Some {
        crate::wire::lemma_parse_response_msg_ext(p, s);
    }
}

} // verus!
