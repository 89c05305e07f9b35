//! Byte-level building blocks of the wire format.
//!
//! Every scalar is little-endian. A byte chunk travels as an 8-byte
//! length followed by the bytes themselves; a string travels as the
//! chunk of its UTF-8 encoding. A message is a kind byte, a frame
//! count, and that many frames; a request frame carries a tagged image
//! list of any length. The spec functions `enc_*` say exactly which
//! bytes an encoder produces, and the `parse_*` functions say exactly
//! how a decoder reads them back; the codec's contracts are stated over
//! these functions.

use vstd::bytes::*;
use vstd::prelude::*;
use vstd::utf8::*;

use crate::messages::CameraDirection;
use crate::messages::ImageView;
use crate::messages::ReqView;
use crate::messages::RespView;
use crate::messages::req_unset;

verus! {

/// First byte of every encoded request message.
pub const KIND_REQUEST: u8 = 1;

/// First byte of every encoded response message.
pub const KIND_RESPONSE: u8 = 2;

/// Tag byte under which an image direction travels.
pub open spec fn dir_byte(d: CameraDirection) -> u8 {
    match d {
        CameraDirection::Frontcam => 0,
        CameraDirection::Rearcam => 1,
    }
}

/// Little-endian bytes of a scalar.
pub open spec fn enc_u64(v: u64) -> Seq<u8> {
    spec_u64_to_le_bytes(v)
}

/// A length-prefixed byte chunk.
pub open spec fn enc_chunk(b: Seq<u8>) -> Seq<u8>
    recommends
        b.len() <= u64::MAX,
{
    enc_u64(b.len() as u64) + b
}

/// A string as the chunk of its UTF-8 encoding.
pub open spec fn enc_str(s: Seq<char>) -> Seq<u8>
    recommends
        encode_utf8(s).len() <= u64::MAX,
{
    enc_chunk(encode_utf8(s))
}

/// One tagged image: its direction byte, then its bytes as a chunk.
pub open spec fn enc_image(img: ImageView) -> Seq<u8> {
    seq![dir_byte(img.direction)] + enc_chunk(img.jpeg_bytes)
}

/// A tagged image list, in order.
pub open spec fn enc_images(imgs: Seq<ImageView>) -> Seq<u8>
    decreases imgs.len(),
{
    if imgs.len() == 0 {
        Seq::empty()
    } else {
        enc_image(imgs[0]) + enc_images(imgs.drop_first())
    }
}

/// One request frame: timestamp, device hash, request hash, then the
/// image count and the images.
pub open spec fn enc_req_frame(
    ts: u64,
    dh: Seq<char>,
    rh: Seq<char>,
    imgs: Seq<ImageView>,
) -> Seq<u8>
    recommends
        imgs.len() <= u64::MAX,
{
    enc_u64(ts) + enc_str(dh) + enc_str(rh) + enc_u64(imgs.len() as u64) + enc_images(imgs)
}

/// A whole request message: the request kind byte and a frame list
/// holding exactly one frame.
pub open spec fn enc_request(ts: u64, dh: Seq<char>, rh: Seq<char>, imgs: Seq<ImageView>) -> Seq<
    u8,
> {
    seq![KIND_REQUEST] + enc_u64(1) + enc_req_frame(ts, dh, rh, imgs)
}

/// One response frame: timestamp, then the three strings.
pub open spec fn enc_resp_frame(r: RespView) -> Seq<u8> {
    enc_u64(r.timestamp_ms) + enc_str(r.server_hash) + enc_str(r.response_hash) + enc_str(
        r.neural_output,
    )
}

/// A whole response message: the response kind byte and a frame list
/// holding exactly one frame.
pub open spec fn enc_response(r: RespView) -> Seq<u8> {
    seq![KIND_RESPONSE] + enc_u64(1) + enc_resp_frame(r)
}

// ---------------------------------------------------------------------
// Parsers. Each takes the whole input and a position, and returns the
// parsed value with the position just past it, or nothing when the
// input is too short or malformed there.
// ---------------------------------------------------------------------

/// Read one byte.
pub open spec fn parse_u8(s: Seq<u8>, i: int) -> Option<(u8, int)> {
    if 0 <= i && i + 1 <= s.len() {
        Some((s[i], i + 1))
    } else {
        None
    }
}

/// Read a little-endian scalar.
pub open spec fn parse_u64(s: Seq<u8>, i: int) -> Option<(u64, int)> {
    if 0 <= i && i + 8 <= s.len() {
        Some((spec_u64_from_le_bytes(s.subrange(i, i + 8)), i + 8))
    } else {
        None
    }
}

/// Read a length-prefixed byte chunk.
pub open spec fn parse_chunk(s: Seq<u8>, i: int) -> Option<(Seq<u8>, int)> {
    match parse_u64(s, i) {
        Some((n, j)) => if j + n as int <= s.len() {
            Some((s.subrange(j, j + n as int), j + n as int))
        } else {
            None
        },
        None => None,
    }
}

/// Read a chunk and require it to be valid UTF-8.
pub open spec fn parse_str(s: Seq<u8>, i: int) -> Option<(Seq<char>, int)> {
    match parse_chunk(s, i) {
        Some((b, j)) => if valid_utf8(b) {
            Some((decode_utf8(b), j))
        } else {
            None
        },
        None => None,
    }
}

/// Read a direction tag byte.
pub open spec fn parse_dir(s: Seq<u8>, i: int) -> Option<(CameraDirection, int)> {
    match parse_u8(s, i) {
        Some((b, j)) => if b == dir_byte(CameraDirection::Frontcam) {
            Some((CameraDirection::Frontcam, j))
        } else if b == dir_byte(CameraDirection::Rearcam) {
            Some((CameraDirection::Rearcam, j))
        } else {
            None
        },
        None => None,
    }
}

/// Read one tagged image.
pub open spec fn parse_image(s: Seq<u8>, i: int) -> Option<(ImageView, int)> {
    match parse_dir(s, i) {
        Some((d, j)) => match parse_chunk(s, j) {
            Some((b, k)) => Some((ImageView { direction: d, jpeg_bytes: b }, k)),
            None => None,
        },
        None => None,
    }
}

/// Read `n` tagged images, classifying each into the slot its tag
/// names. A later image under the same tag replaces an earlier one
/// (last tag wins), and a tag that never occurs leaves its slot as the
/// accumulator it started from.
pub open spec fn parse_images(s: Seq<u8>, i: int, n: int, front: Seq<u8>, rear: Seq<u8>) -> Option<
    ((Seq<u8>, Seq<u8>), int),
>
    decreases n,
{
    if n <= 0 {
        Some(((front, rear), i))
    } else {
        match parse_image(s, i) {
            Some((img, j)) => if img.direction is Frontcam {
                parse_images(s, j, n - 1, img.jpeg_bytes, rear)
            } else {
                parse_images(s, j, n - 1, front, img.jpeg_bytes)
            },
            None => None,
        }
    }
}

/// Read one request frame.
pub open spec fn parse_req_frame(s: Seq<u8>, i: int) -> Option<(ReqView, int)> {
    match parse_u64(s, i) {
        Some((ts, i1)) => match parse_str(s, i1) {
            Some((dh, i2)) => match parse_str(s, i2) {
                Some((rh, i3)) => match parse_u64(s, i3) {
                    Some((cnt, i4)) => match parse_images(
                        s,
                        i4,
                        cnt as int,
                        Seq::empty(),
                        Seq::empty(),
                    ) {
                        Some(((front, rear), i5)) => Some(
                            (
                                ReqView {
                                    timestamp_ms: ts,
                                    device_hash: dh,
                                    request_hash: rh,
                                    image_front: front,
                                    image_rear: rear,
                                },
                                i5,
                            ),
                        ),
                        None => None,
                    },
                    None => None,
                },
                None => None,
            },
            None => None,
        },
        None => None,
    }
}

/// Read `n` request frames. The fields of a later frame replace those
/// of an earlier one, and zero frames leave the accumulator untouched.
pub open spec fn parse_req_frames(s: Seq<u8>, i: int, n: int, acc: ReqView) -> Option<
    (ReqView, int),
>
    decreases n,
{
    if n <= 0 {
        Some((acc, i))
    } else {
        match parse_req_frame(s, i) {
            Some((f, j)) => parse_req_frames(s, j, n - 1, f),
            None => None,
        }
    }
}

/// Read a whole request message from the start of the input, without
/// the trailing-byte check.
pub open spec fn parse_request_msg(s: Seq<u8>) -> Option<(ReqView, int)> {
    match parse_u8(s, 0) {
        Some((k, i)) => if k == KIND_REQUEST {
            match parse_u64(s, i) {
                Some((cnt, j)) => parse_req_frames(s, j, cnt as int, req_unset()),
                None => None,
            }
        } else {
            None
        },
        None => None,
    }
}

/// What decoding a request means: a whole message that consumes every
/// input byte.
pub open spec fn dec_request(s: Seq<u8>) -> Option<ReqView> {
    match parse_request_msg(s) {
        Some((r, j)) => if j == s.len() {
            Some(r)
        } else {
            None
        },
        None => None,
    }
}

/// Read one response frame.
pub open spec fn parse_resp_frame(s: Seq<u8>, i: int) -> Option<(RespView, int)> {
    match parse_u64(s, i) {
        Some((ts, i1)) => match parse_str(s, i1) {
            Some((sh, i2)) => match parse_str(s, i2) {
                Some((rh, i3)) => match parse_str(s, i3) {
                    Some((no, i4)) => Some(
                        (
                            RespView {
                                timestamp_ms: ts,
                                server_hash: sh,
                                response_hash: rh,
                                neural_output: no,
                            },
                            i4,
                        ),
                    ),
                    None => None,
                },
                None => None,
            },
            None => None,
        },
        None => None,
    }
}

/// Read `n` response frames, a later frame replacing an earlier one.
pub open spec fn parse_resp_frames(s: Seq<u8>, i: int, n: int, acc: RespView) -> Option<
    (RespView, int),
>
    decreases n,
{
    if n <= 0 {
        Some((acc, i))
    } else {
        match parse_resp_frame(s, i) {
            Some((f, j)) => parse_resp_frames(s, j, n - 1, f),
            None => None,
        }
    }
}

/// Read a whole response message, without the trailing-byte check.
pub open spec fn parse_response_msg(s: Seq<u8>) -> Option<(RespView, int)> {
    match parse_u8(s, 0) {
        Some((k, i)) => if k == KIND_RESPONSE {
            match parse_u64(s, i) {
                Some((cnt, j)) => parse_resp_frames(s, j, cnt as int, crate::messages::resp_unset()),
                None => None,
            }
        } else {
            None
        },
        None => None,
    }
}

/// What decoding a response means.
pub open spec fn dec_response(s: Seq<u8>) -> Option<RespView> {
    match parse_response_msg(s) {
        Some((r, j)) => if j == s.len() {
            Some(r)
        } else {
            None
        },
        None => None,
    }
}

// ---------------------------------------------------------------------
// Classification of a tagged image list into the two direction slots.
// ---------------------------------------------------------------------

/// The front slot a decoder is left with after walking `imgs` from the
/// start with `dflt` in hand: the bytes of the last front-tagged image,
/// or `dflt` when no image carries the front tag.
pub open spec fn classify_front(imgs: Seq<ImageView>, dflt: Seq<u8>) -> Seq<u8>
    decreases imgs.len(),
{
    if imgs.len() == 0 {
        dflt
    } else {
        classify_front(
            imgs.drop_first(),
            if imgs[0].direction is Frontcam {
                imgs[0].jpeg_bytes
            } else {
                dflt
            },
        )
    }
}

/// The rear slot, likewise.
pub open spec fn classify_rear(imgs: Seq<ImageView>, dflt: Seq<u8>) -> Seq<u8>
    decreases imgs.len(),
{
    if imgs.len() == 0 {
        dflt
    } else {
        classify_rear(
            imgs.drop_first(),
            if imgs[0].direction is Rearcam {
                imgs[0].jpeg_bytes
            } else {
                dflt
            },
        )
    }
}

/// Every image body short enough for its length prefix.
pub open spec fn images_encodable(imgs: Seq<ImageView>) -> bool {
    forall|k: int| 0 <= k < imgs.len() ==> (#[trigger] imgs[k].jpeg_bytes).len() <= u64::MAX
}

/// Every length that the request encoder writes fits its prefix.
pub open spec fn req_encodable(dh: Seq<char>, rh: Seq<char>, imgs: Seq<ImageView>) -> bool {
    &&& encode_utf8(dh).len() <= u64::MAX
    &&& encode_utf8(rh).len() <= u64::MAX
    &&& imgs.len() <= u64::MAX
    &&& images_encodable(imgs)
}

/// Every length that the response encoder writes fits its prefix.
pub open spec fn resp_encodable(r: RespView) -> bool {
    &&& encode_utf8(r.server_hash).len() <= u64::MAX
    &&& encode_utf8(r.response_hash).len() <= u64::MAX
    &&& encode_utf8(r.neural_output).len() <= u64::MAX
}

// ---------------------------------------------------------------------
// Each parser reads back what the matching encoder wrote, wherever the
// encoding stands in a larger message.
// ---------------------------------------------------------------------

/// The little-endian encoding of a scalar is 8 bytes long.
pub proof fn lemma_enc_u64_len()
    ensures
        forall|v: u64| (#[trigger] enc_u64(v)).len() == 8,
{
    lemma_auto_spec_u64_to_from_le_bytes();
}

/// A single byte is read back.
pub proof fn lemma_parse_u8_enc(pre: Seq<u8>, b: u8, post: Seq<u8>)
    ensures
        parse_u8(pre + seq![b] + post, pre.len() as int) == Some((b, (pre.len() + 1) as int)),
{
    let s = pre + seq![b] + post;
    assert(s[pre.len() as int] == b);
}

/// A scalar is read back.
pub proof fn lemma_parse_u64_enc(pre: Seq<u8>, v: u64, post: Seq<u8>)
    ensures
        parse_u64(pre + enc_u64(v) + post, pre.len() as int) == Some((v, (pre.len() + 8) as int)),
{
    lemma_auto_spec_u64_to_from_le_bytes();
    let s = pre + enc_u64(v) + post;
    assert(s.subrange(pre.len() as int, (pre.len() + 8) as int) =~= enc_u64(v));
}

/// A chunk is read back.
pub proof fn lemma_parse_chunk_enc(pre: Seq<u8>, b: Seq<u8>, post: Seq<u8>)
    requires
        b.len() <= u64::MAX,
    ensures
        parse_chunk(pre + enc_chunk(b) + post, pre.len() as int) == Some(
            (b, (pre.len() + 8 + b.len()) as int),
        ),
{
    lemma_enc_u64_len();
    let n: u64 = b.len() as u64;
    let s = pre + enc_chunk(b) + post;
    assert(s =~= pre + enc_u64(n) + (b + post));
    lemma_parse_u64_enc(pre, n, b + post);
    let j = (pre.len() + 8) as int;
    assert(parse_u64(s, pre.len() as int) == Some((n, j)));
    assert(s.subrange(j, j + n as int) =~= b);
}

/// A string is read back.
pub proof fn lemma_parse_str_enc(pre: Seq<u8>, c: Seq<char>, post: Seq<u8>)
    requires
        encode_utf8(c).len() <= u64::MAX,
    ensures
        parse_str(pre + enc_str(c) + post, pre.len() as int) == Some(
            (c, (pre.len() + 8 + encode_utf8(c).len()) as int),
        ),
{
    encode_utf8_valid_utf8(c);
    encode_utf8_decode_utf8(c);
    lemma_parse_chunk_enc(pre, encode_utf8(c), post);
}

/// A tagged image is read back.
pub proof fn lemma_parse_image_enc(pre: Seq<u8>, img: ImageView, post: Seq<u8>)
    requires
        img.jpeg_bytes.len() <= u64::MAX,
    ensures
        parse_image(pre + enc_image(img) + post, pre.len() as int) == Some(
            (img, (pre.len() + enc_image(img).len()) as int),
        ),
{
    lemma_enc_u64_len();
    let s = pre + enc_image(img) + post;
    let pre2 = pre + seq![dir_byte(img.direction)];
    assert(s =~= pre + seq![dir_byte(img.direction)] + (enc_chunk(img.jpeg_bytes) + post));
    lemma_parse_u8_enc(pre, dir_byte(img.direction), enc_chunk(img.jpeg_bytes) + post);
    assert(s =~= pre2 + enc_chunk(img.jpeg_bytes) + post);
    lemma_parse_chunk_enc(pre2, img.jpeg_bytes, post);
    match img.direction {
        CameraDirection::Frontcam => {
            assert(parse_dir(s, pre.len() as int) == Some(
                (img.direction, (pre.len() + 1) as int),
            ));
        },
        CameraDirection::Rearcam => {
            assert(parse_dir(s, pre.len() as int) == Some(
                (img.direction, (pre.len() + 1) as int),
            ));
        },
    }
    assert(parse_image(s, pre.len() as int) matches Some((got, _)) && got =~= img);
}

/// An image list is read back, classified slot by slot.
pub proof fn lemma_parse_images_enc(
    pre: Seq<u8>,
    imgs: Seq<ImageView>,
    post: Seq<u8>,
    front: Seq<u8>,
    rear: Seq<u8>,
)
    requires
        images_encodable(imgs),
    ensures
        parse_images(
            pre + enc_images(imgs) + post,
            pre.len() as int,
            imgs.len() as int,
            front,
            rear,
        ) == Some(
            (
                (classify_front(imgs, front), classify_rear(imgs, rear)),
                (pre.len() + enc_images(imgs).len()) as int,
            ),
        ),
    decreases imgs.len(),
{
    lemma_enc_u64_len();
    let s = pre + enc_images(imgs) + post;
    if imgs.len() == 0 {
        assert(enc_images(imgs).len() == 0);
    } else {
        let img = imgs[0];
        let rest = imgs.drop_first();
        assert forall|k: int| 0 <= k < rest.len() implies (#[trigger] rest[k].jpeg_bytes).len()
            <= u64::MAX by {
            assert(rest[k] == imgs[k + 1]);
        }
        let pre2 = pre + enc_image(img);
        assert(s =~= pre + enc_image(img) + (enc_images(rest) + post));
        lemma_parse_image_enc(pre, img, enc_images(rest) + post);
        assert(s =~= pre2 + enc_images(rest) + post);
        if img.direction is Frontcam {
            lemma_parse_images_enc(pre2, rest, post, img.jpeg_bytes, rear);
        } else {
            lemma_parse_images_enc(pre2, rest, post, front, img.jpeg_bytes);
        }
    }
}

/// Encoding an image list distributes over appending one image.
pub proof fn lemma_enc_images_push(imgs: Seq<ImageView>, img: ImageView)
    ensures
        enc_images(imgs.push(img)) == enc_images(imgs) + enc_image(img),
    decreases imgs.len(),
{
    if imgs.len() == 0 {
        let p = imgs.push(img);
        assert(p[0] == img);
        assert(p.drop_first() =~= Seq::<ImageView>::empty());
        assert(enc_images(p.drop_first()) == Seq::<u8>::empty());
        assert(enc_images(p) == enc_image(img) + enc_images(p.drop_first()));
        assert(enc_images(imgs) == Seq::<u8>::empty());
        assert(enc_images(p) =~= enc_images(imgs) + enc_image(img));
    } else {
        assert(imgs.push(img).drop_first() =~= imgs.drop_first().push(img));
        lemma_enc_images_push(imgs.drop_first(), img);
        assert(enc_images(imgs.push(img)) =~= enc_images(imgs) + enc_image(img));
    }
}

/// A request frame is read back.
#[verifier::rlimit(60)]
pub proof fn lemma_parse_req_frame_enc(
    pre: Seq<u8>,
    ts: u64,
    dh: Seq<char>,
    rh: Seq<char>,
    imgs: Seq<ImageView>,
    post: Seq<u8>,
)
    requires
        req_encodable(dh, rh, imgs),
    ensures
        parse_req_frame(pre + enc_req_frame(ts, dh, rh, imgs) + post, pre.len() as int) == Some(
            (
                ReqView {
                    timestamp_ms: ts,
                    device_hash: dh,
                    request_hash: rh,
                    image_front: classify_front(imgs, Seq::empty()),
                    image_rear: classify_rear(imgs, Seq::empty()),
                },
                (pre.len() + enc_req_frame(ts, dh, rh, imgs).len()) as int,
            ),
        ),
{
    lemma_enc_u64_len();
    let s = pre + enc_req_frame(ts, dh, rh, imgs) + post;
    let p1 = pre + enc_u64(ts);
    let p2 = p1 + enc_str(dh);
    let p3 = p2 + enc_str(rh);
    let p4 = p3 + enc_u64(imgs.len() as u64);
    assert(s =~= pre + enc_u64(ts) + (enc_str(dh) + enc_str(rh) + enc_u64(imgs.len() as u64)
        + enc_images(imgs) + post));
    lemma_parse_u64_enc(
        pre,
        ts,
        enc_str(dh) + enc_str(rh) + enc_u64(imgs.len() as u64) + enc_images(imgs) + post,
    );
    assert(s =~= p1 + enc_str(dh) + (enc_str(rh) + enc_u64(imgs.len() as u64) + enc_images(imgs)
        + post));
    lemma_parse_str_enc(p1, dh, enc_str(rh) + enc_u64(imgs.len() as u64) + enc_images(imgs) + post);
    assert(s =~= p2 + enc_str(rh) + (enc_u64(imgs.len() as u64) + enc_images(imgs) + post));
    lemma_parse_str_enc(p2, rh, enc_u64(imgs.len() as u64) + enc_images(imgs) + post);
    assert(s =~= p3 + enc_u64(imgs.len() as u64) + (enc_images(imgs) + post));
    lemma_parse_u64_enc(p3, imgs.len() as u64, enc_images(imgs) + post);
    assert(s =~= p4 + enc_images(imgs) + post);
    lemma_parse_images_enc(p4, imgs, post, Seq::empty(), Seq::empty());
    assert((imgs.len() as u64) as int == imgs.len() as int);
}

/// A whole request message is read back, and decoding it consumes the
/// input exactly.
pub proof fn lemma_parse_request_msg_enc(ts: u64, dh: Seq<char>, rh: Seq<char>, imgs: Seq<
    ImageView,
>)
    requires
        req_encodable(dh, rh, imgs),
    ensures
        dec_request(enc_request(ts, dh, rh, imgs)) == Some(
            ReqView {
                timestamp_ms: ts,
                device_hash: dh,
                request_hash: rh,
                image_front: classify_front(imgs, Seq::empty()),
                image_rear: classify_rear(imgs, Seq::empty()),
            },
        ),
{
    lemma_enc_u64_len();
    let s = enc_request(ts, dh, rh, imgs);
    let pre0 = Seq::<u8>::empty();
    let p1 = pre0 + seq![KIND_REQUEST];
    let p2 = p1 + enc_u64(1);
    assert(s =~= pre0 + seq![KIND_REQUEST] + (enc_u64(1) + enc_req_frame(ts, dh, rh, imgs)));
    lemma_parse_u8_enc(pre0, KIND_REQUEST, enc_u64(1) + enc_req_frame(ts, dh, rh, imgs));
    assert(s =~= p1 + enc_u64(1) + enc_req_frame(ts, dh, rh, imgs));
    lemma_parse_u64_enc(p1, 1, enc_req_frame(ts, dh, rh, imgs));
    assert(s =~= p2 + enc_req_frame(ts, dh, rh, imgs) + Seq::<u8>::empty());
    lemma_parse_req_frame_enc(p2, ts, dh, rh, imgs, Seq::<u8>::empty());
    let f = ReqView {
        timestamp_ms: ts,
        device_hash: dh,
        request_hash: rh,
        image_front: classify_front(imgs, Seq::empty()),
        image_rear: classify_rear(imgs, Seq::empty()),
    };
    let end = (p2.len() + enc_req_frame(ts, dh, rh, imgs).len()) as int;
    assert(parse_req_frames(s, p2.len() as int, 1, req_unset()) == parse_req_frames(
        s,
        end,
        0,
        f,
    ));
    assert(end == s.len());
}

/// A response frame is read back.
pub proof fn lemma_parse_resp_frame_enc(pre: Seq<u8>, r: RespView, post: Seq<u8>)
    requires
        resp_encodable(r),
    ensures
        parse_resp_frame(pre + enc_resp_frame(r) + post, pre.len() as int) == Some(
            (r, (pre.len() + enc_resp_frame(r).len()) as int),
        ),
{
    lemma_enc_u64_len();
    let s = pre + enc_resp_frame(r) + post;
    let p1 = pre + enc_u64(r.timestamp_ms);
    let p2 = p1 + enc_str(r.server_hash);
    let p3 = p2 + enc_str(r.response_hash);
    assert(s =~= pre + enc_u64(r.timestamp_ms) + (enc_str(r.server_hash) + enc_str(
        r.response_hash,
    ) + enc_str(r.neural_output) + post));
    lemma_parse_u64_enc(
        pre,
        r.timestamp_ms,
        enc_str(r.server_hash) + enc_str(r.response_hash) + enc_str(r.neural_output) + post,
    );
    assert(s =~= p1 + enc_str(r.server_hash) + (enc_str(r.response_hash) + enc_str(r.neural_output)
        + post));
    lemma_parse_str_enc(p1, r.server_hash, enc_str(r.response_hash) + enc_str(r.neural_output)
        + post);
    assert(s =~= p2 + enc_str(r.response_hash) + (enc_str(r.neural_output) + post));
    lemma_parse_str_enc(p2, r.response_hash, enc_str(r.neural_output) + post);
    assert(s =~= p3 + enc_str(r.neural_output) + post);
    lemma_parse_str_enc(p3, r.neural_output, post);
    assert(parse_resp_frame(s, pre.len() as int) matches Some((got, _)) && got =~= r);
}

/// A whole response message is read back, and decoding it consumes the
/// input exactly.
pub proof fn lemma_parse_response_msg_enc(r: RespView)
    requires
        resp_encodable(r),
    ensures
        dec_response(enc_response(r)) == Some(r),
{
    lemma_enc_u64_len();
    let s = enc_response(r);
    let pre0 = Seq::<u8>::empty();
    let p1 = pre0 + seq![KIND_RESPONSE];
    let p2 = p1 + enc_u64(1);
    assert(s =~= pre0 + seq![KIND_RESPONSE] + (enc_u64(1) + enc_resp_frame(r)));
    lemma_parse_u8_enc(pre0, KIND_RESPONSE, enc_u64(1) + enc_resp_frame(r));
    assert(s =~= p1 + enc_u64(1) + enc_resp_frame(r));
    lemma_parse_u64_enc(p1, 1, enc_resp_frame(r));
    assert(s =~= p2 + enc_resp_frame(r) + Seq::<u8>::empty());
    lemma_parse_resp_frame_enc(p2, r, Seq::<u8>::empty());
    let end = (p2.len() + enc_resp_frame(r).len()) as int;
    assert(parse_resp_frames(s, p2.len() as int, 1, crate::messages::resp_unset())
        == parse_resp_frames(s, end, 0, r));
    assert(end == s.len());
}

// ---------------------------------------------------------------------
// A parse that succeeds on a prefix of some input parses the whole
// input the same way: no parser looks past what it consumes. These
// lemmas carry the codec's law that a truncated encoding never
// decodes.
// ---------------------------------------------------------------------

/// `s` is `t` cut off after `s.len()` bytes.
pub open spec fn seq_prefix_of(s: Seq<u8>, t: Seq<u8>) -> bool {
    s.len() <= t.len() && s == t.subrange(0, s.len() as int)
}

/// A byte parses the same on the whole input.
pub proof fn lemma_parse_u8_ext(s: Seq<u8>, t: Seq<u8>, i: int)
    requires
        seq_prefix_of(s, t),
        parse_u8(s, i) is Some,
    ensures
        parse_u8(t, i) == parse_u8(s, i),
{
    assert(t.subrange(0, s.len() as int)[i] == t[i]);
}

/// A scalar parses the same on the whole input.
pub proof fn lemma_parse_u64_ext(s: Seq<u8>, t: Seq<u8>, i: int)
    requires
        seq_prefix_of(s, t),
        parse_u64(s, i) is Some,
    ensures
        parse_u64(t, i) == parse_u64(s, i),
{
    assert(s.subrange(i, i + 8) =~= t.subrange(i, i + 8));
}

/// A chunk parses the same on the whole input.
pub proof fn lemma_parse_chunk_ext(s: Seq<u8>, t: Seq<u8>, i: int)
    requires
        seq_prefix_of(s, t),
        parse_chunk(s, i) is Some,
    ensures
        parse_chunk(t, i) == parse_chunk(s, i),
{
    lemma_parse_u64_ext(s, t, i);
    let (n, j) = parse_u64(s, i)->0;
    assert(s.subrange(j, j + n as int) =~= t.subrange(j, j + n as int));
}

/// A string parses the same on the whole input.
pub proof fn lemma_parse_str_ext(s: Seq<u8>, t: Seq<u8>, i: int)
    requires
        seq_prefix_of(s, t),
        parse_str(s, i) is Some,
    ensures
        parse_str(t, i) == parse_str(s, i),
{
    lemma_parse_chunk_ext(s, t, i);
}

/// A direction tag parses the same on the whole input.
pub proof fn lemma_parse_dir_ext(s: Seq<u8>, t: Seq<u8>, i: int)
    requires
        seq_prefix_of(s, t),
        parse_dir(s, i) is Some,
    ensures
        parse_dir(t, i) == parse_dir(s, i),
{
    lemma_parse_u8_ext(s, t, i);
}

/// A tagged image parses the same on the whole input.
pub proof fn lemma_parse_image_ext(s: Seq<u8>, t: Seq<u8>, i: int)
    requires
        seq_prefix_of(s, t),
        parse_image(s, i) is Some,
    ensures
        parse_image(t, i) == parse_image(s, i),
{
    lemma_parse_dir_ext(s, t, i);
    let (d, j) = parse_dir(s, i)->0;
    lemma_parse_chunk_ext(s, t, j);
}

/// An image list parses the same on the whole input.
pub proof fn lemma_parse_images_ext(
    s: Seq<u8>,
    t: Seq<u8>,
    i: int,
    n: int,
    front: Seq<u8>,
    rear: Seq<u8>,
)
    requires
        seq_prefix_of(s, t),
        parse_images(s, i, n, front, rear) is Some,
    ensures
        parse_images(t, i, n, front, rear) == parse_images(s, i, n, front, rear),
    decreases n,
{
    if n <= 0 {
    } else {
        lemma_parse_image_ext(s, t, i);
        let (img, j) = parse_image(s, i)->0;
        if img.direction is Frontcam {
            lemma_parse_images_ext(s, t, j, n - 1, img.jpeg_bytes, rear);
        } else {
            lemma_parse_images_ext(s, t, j, n - 1, front, img.jpeg_bytes);
        }
    }
}

/// A request frame parses the same on the whole input.
pub proof fn lemma_parse_req_frame_ext(s: Seq<u8>, t: Seq<u8>, i: int)
    requires
        seq_prefix_of(s, t),
        parse_req_frame(s, i) is Some,
    ensures
        parse_req_frame(t, i) == parse_req_frame(s, i),
{
    lemma_parse_u64_ext(s, t, i);
    let (ts, i1) = parse_u64(s, i)->0;
    lemma_parse_str_ext(s, t, i1);
    let (dh, i2) = parse_str(s, i1)->0;
    lemma_parse_str_ext(s, t, i2);
    let (rh, i3) = parse_str(s, i2)->0;
    lemma_parse_u64_ext(s, t, i3);
    let (cnt, i4) = parse_u64(s, i3)->0;
    lemma_parse_images_ext(s, t, i4, cnt as int, Seq::empty(), Seq::empty());
}

/// A request frame list parses the same on the whole input.
pub proof fn lemma_parse_req_frames_ext(s: Seq<u8>, t: Seq<u8>, i: int, n: int, acc: ReqView)
    requires
        seq_prefix_of(s, t),
        parse_req_frames(s, i, n, acc) is Some,
    ensures
        parse_req_frames(t, i, n, acc) == parse_req_frames(s, i, n, acc),
    decreases n,
{
    if n <= 0 {
    } else {
        lemma_parse_req_frame_ext(s, t, i);
        let (f, j) = parse_req_frame(s, i)->0;
        lemma_parse_req_frames_ext(s, t, j, n - 1, f);
    }
}

/// A whole request message parses the same on the whole input.
pub proof fn lemma_parse_request_msg_ext(s: Seq<u8>, t: Seq<u8>)
    requires
        seq_prefix_of(s, t),
        parse_request_msg(s) is Some,
    ensures
        parse_request_msg(t) == parse_request_msg(s),
{
    lemma_parse_u8_ext(s, t, 0);
    let (k, i) = parse_u8(s, 0)->0;
    lemma_parse_u64_ext(s, t, i);
    let (cnt, j) = parse_u64(s, i)->0;
    lemma_parse_req_frames_ext(s, t, j, cnt as int, req_unset());
}

/// A response frame parses the same on the whole input.
pub proof fn lemma_parse_resp_frame_ext(s: Seq<u8>, t: Seq<u8>, i: int)
    requires
        seq_prefix_of(s, t),
        parse_resp_frame(s, i) is Some,
    ensures
        parse_resp_frame(t, i) == parse_resp_frame(s, i),
{
    lemma_parse_u64_ext(s, t, i);
    let (ts, i1) = parse_u64(s, i)->0;
    lemma_parse_str_ext(s, t, i1);
    let (sh, i2) = parse_str(s, i1)->0;
    lemma_parse_str_ext(s, t, i2);
    let (rh, i3) = parse_str(s, i2)->0;
    lemma_parse_str_ext(s, t, i3);
}

/// A response frame list parses the same on the whole input.
pub proof fn lemma_parse_resp_frames_ext(s: Seq<u8>, t: Seq<u8>, i: int, n: int, acc: RespView)
    requires
        seq_prefix_of(s, t),
        parse_resp_frames(s, i, n, acc) is Some,
    ensures
        parse_resp_frames(t, i, n, acc) == parse_resp_frames(s, i, n, acc),
    decreases n,
{
    if n <= 0 {
    } else {
        lemma_parse_resp_frame_ext(s, t, i);
        let (f, j) = parse_resp_frame(s, i)->0;
        lemma_parse_resp_frames_ext(s, t, j, n - 1, f);
    }
}

/// A whole response message parses the same on the whole input.
pub proof fn lemma_parse_response_msg_ext(s: Seq<u8>, t: Seq<u8>)
    requires
        seq_prefix_of(s, t),
        parse_response_msg(s) is Some,
    ensures
        parse_response_msg(t) == parse_response_msg(s),
{
    lemma_parse_u8_ext(s, t, 0);
    let (k, i) = parse_u8(s, 0)->0;
    lemma_parse_u64_ext(s, t, i);
    let (cnt, j) = parse_u64(s, i)->0;
    lemma_parse_resp_frames_ext(s, t, j, cnt as int, crate::messages::resp_unset());
}

// ---------------------------------------------------------------------
// Executable writers, one per `enc_*` building block.
// ---------------------------------------------------------------------

/// Append every byte of `data` to `out`.
pub fn push_bytes(out: &mut Vec<u8>, data: &Vec<u8>)
    ensures
        final(out)@ == old(out)@ + data@,
{
    let mut k: usize = 0;
    while k < data.len()
        invariant
            k <= data.len(),
            out@ == old(out)@ + data@.subrange(0, k as int),
        decreases data.len() - k,
    {
        let b = data[k];
        out.push(b);
        proof {
            assert(out@ =~= old(out)@ + data@.subrange(0, (k + 1) as int));
        }
        k = k + 1;
    }
    proof {
        assert(out@ =~= old(out)@ + data@);
    }
}

/// Append the little-endian bytes of `v` to `out`.
pub fn push_u64(out: &mut Vec<u8>, v: u64)
    ensures
        final(out)@ == old(out)@ + enc_u64(v),
{
    let mut b = u64_to_le_bytes(v);
    out.append(&mut b);
}

/// Append `data` as a length-prefixed chunk.
pub fn push_chunk(out: &mut Vec<u8>, data: &Vec<u8>)
    ensures
        final(out)@ == old(out)@ + enc_chunk(data@),
        data@.len() <= u64::MAX,
{
    push_u64(out, data.len() as u64);
    push_bytes(out, data);
    proof {
        assert(out@ =~= old(out)@ + enc_chunk(data@));
    }
}

/// Append `s` as a length-prefixed UTF-8 chunk.
pub fn push_str(out: &mut Vec<u8>, s: &str)
    ensures
        final(out)@ == old(out)@ + enc_str(s@),
        encode_utf8(s@).len() <= u64::MAX,
{
    let b = s.as_bytes_vec();
    push_chunk(out, &b);
}

// ---------------------------------------------------------------------
// Executable readers, one per parser.
// ---------------------------------------------------------------------

/// Relies on `String::from_utf8`: it succeeds exactly on input that is
/// valid UTF-8, and then returns the string those bytes encode.
#[verifier::external_body]
fn utf8_to_string(bytes: Vec<u8>) -> (r: Option<String>)
    ensures
        r is Some <==> valid_utf8(bytes@),
        r matches Some(s) ==> s@ == decode_utf8(bytes@),
{
    String::from_utf8(bytes).ok()
}

/// Read one byte.
pub fn read_u8(s: &[u8], i: usize) -> (r: Option<(u8, usize)>)
    ensures
        match r {
            Some((v, j)) => parse_u8(s@, i as int) == Some((v, j as int)) && j <= s@.len(),
            None => parse_u8(s@, i as int) is None,
        },
{
    if i < s.len() {
        let v = *vstd::slice::slice_index_get(s, i);
        Some((v, i + 1))
    } else {
        None
    }
}

/// Read a little-endian scalar.
pub fn read_u64(s: &[u8], i: usize) -> (r: Option<(u64, usize)>)
    ensures
        match r {
            Some((v, j)) => parse_u64(s@, i as int) == Some((v, j as int)) && j <= s@.len(),
            None => parse_u64(s@, i as int) is None,
        },
{
    if s.len() >= 8 && i <= s.len() - 8 {
        let sub = vstd::slice::slice_subrange(s, i, i + 8);
        let v = u64_from_le_bytes(sub);
        Some((v, i + 8))
    } else {
        None
    }
}

/// Read a length-prefixed chunk.
pub fn read_chunk(s: &[u8], i: usize) -> (r: Option<(Vec<u8>, usize)>)
    ensures
        match r {
            Some((b, j)) => parse_chunk(s@, i as int) == Some((b@, j as int)) && j <= s@.len(),
            None => parse_chunk(s@, i as int) is None,
        },
{
    match read_u64(s, i) {
        Some((n, j)) => {
            let rem = s.len() - j;
            if n <= rem as u64 {
                let n_us = n as usize;
                let sub = vstd::slice::slice_subrange(s, j, j + n_us);
                let b = vstd::slice::slice_to_vec(sub);
                Some((b, j + n_us))
            } else {
                None
            }
        },
        None => None,
    }
}

/// Read a chunk that must be valid UTF-8.
pub fn read_str(s: &[u8], i: usize) -> (r: Option<(String, usize)>)
    ensures
        match r {
            Some((st, j)) => parse_str(s@, i as int) == Some((st@, j as int)) && j <= s@.len(),
            None => parse_str(s@, i as int) is None,
        },
{
    match read_chunk(s, i) {
        Some((b, j)) => match utf8_to_string(b) {
            Some(st) => Some((st, j)),
            None => None,
        },
        None => None,
    }
}

/// Read a direction tag byte.
pub fn read_dir(s: &[u8], i: usize) -> (r: Option<(CameraDirection, usize)>)
    ensures
        match r {
            Some((d, j)) => parse_dir(s@, i as int) == Some((d, j as int)) && j <= s@.len(),
            None => parse_dir(s@, i as int) is None,
        },
{
    match read_u8(s, i) {
        Some((b, j)) => if b == 0 {
            Some((CameraDirection::Frontcam, j))
        } else if b == 1 {
            Some((CameraDirection::Rearcam, j))
        } else {
            None
        },
        None => None,
    }
}

/// Read one tagged image.
pub fn read_image(s: &[u8], i: usize) -> (r: Option<(CameraDirection, Vec<u8>, usize)>)
    ensures
        match r {
            Some((d, b, j)) => parse_image(s@, i as int) == Some(
                (ImageView { direction: d, jpeg_bytes: b@ }, j as int),
            ) && j <= s@.len(),
            None => parse_image(s@, i as int) is None,
        },
{
    match read_dir(s, i) {
        Some((d, j)) => match read_chunk(s, j) {
            Some((b, k)) => Some((d, b, k)),
            None => None,
        },
        None => None,
    }
}

} // verus!
