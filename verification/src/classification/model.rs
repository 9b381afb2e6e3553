use image::imageops::{self, FilterType};
use image::GrayImage;
use vstd::prelude::*;

verus! {

/// Application classes the CNN model distinguishes, in the order of its outputs.
#[derive(Clone, Copy, Debug, PartialEq, Eq, Hash, Structural)]
pub enum TrafficType {
    GoogleMeet,
    Instagram,
    TikTok,
    Twitter,
    Youtube,
}

/// Number of classes the model scores.
pub const TRAFFIC_TYPE_COUNT: usize = 5;

/// The model output index of each traffic class.
pub open spec fn spec_class_index(t: TrafficType) -> nat {
    match t {
        TrafficType::GoogleMeet => 0,
        TrafficType::Instagram => 1,
        TrafficType::TikTok => 2,
        TrafficType::Twitter => 3,
        TrafficType::Youtube => 4,
    }
}

/// The traffic class at a model output index, if the index names one.
pub open spec fn spec_class_at(index: int) -> Option<TrafficType> {
    if index == 0 {
        Some(TrafficType::GoogleMeet)
    } else if index == 1 {
        Some(TrafficType::Instagram)
    } else if index == 2 {
        Some(TrafficType::TikTok)
    } else if index == 3 {
        Some(TrafficType::Twitter)
    } else if index == 4 {
        Some(TrafficType::Youtube)
    } else {
        None
    }
}

/// The human-readable name of each traffic class.
pub open spec fn spec_display_name(t: TrafficType) -> Seq<char> {
    match t {
        TrafficType::GoogleMeet => "Google Meet"@,
        TrafficType::Instagram => "Instagram"@,
        TrafficType::TikTok => "TikTok"@,
        TrafficType::Twitter => "Twitter"@,
        TrafficType::Youtube => "YouTube"@,
    }
}

impl TrafficType {
    /// The model output index of this class.
    pub fn index(self) -> (i: usize)
        ensures
            i == spec_class_index(self),
            i < TRAFFIC_TYPE_COUNT,
    {
        match self {
            TrafficType::GoogleMeet => 0,
            TrafficType::Instagram => 1,
            TrafficType::TikTok => 2,
            TrafficType::Twitter => 3,
            TrafficType::Youtube => 4,
        }
    }

    /// The class at a model output index; `Err(())` for an index that names no class.
    pub fn try_from(value: usize) -> (r: Result<TrafficType, ()>)
        ensures
            r is Ok <==> value < TRAFFIC_TYPE_COUNT,
            r is Ok ==> spec_class_at(value as int) == Some(r->Ok_0),
            r is Ok ==> spec_class_index(r->Ok_0) == value,
    {
        if value == 0 {
            Ok(TrafficType::GoogleMeet)
        } else if value == 1 {
            Ok(TrafficType::Instagram)
        } else if value == 2 {
            Ok(TrafficType::TikTok)
        } else if value == 3 {
            Ok(TrafficType::Twitter)
        } else if value == 4 {
            Ok(TrafficType::Youtube)
        } else {
            Err(())
        }
    }

    /// The name under which this class is shown in logs and metrics.
    pub fn to_string(&self) -> (s: String)
        ensures
            s@ == spec_display_name(*self),
    {
        let name: &str = match self {
            TrafficType::GoogleMeet => "Google Meet",
            TrafficType::Instagram => "Instagram",
            TrafficType::TikTok => "TikTok",
            TrafficType::Twitter => "Twitter",
            TrafficType::Youtube => "YouTube",
        };
        name.to_owned()
    }
}

/// Converting a class to its index and back gives the class again.
pub proof fn lemma_class_index_roundtrip(t: TrafficType)
    ensures
        spec_class_at(spec_class_index(t) as int) == Some(t),
        spec_class_index(t) < TRAFFIC_TYPE_COUNT,
{
}

/// The model scores the classes in this order: Google Meet, Instagram, TikTok, Twitter,
/// YouTube; no other index names a class.
pub proof fn lemma_model_output_order(index: int)
    ensures
        spec_class_at(0) == Some(TrafficType::GoogleMeet),
        spec_class_at(1) == Some(TrafficType::Instagram),
        spec_class_at(2) == Some(TrafficType::TikTok),
        spec_class_at(3) == Some(TrafficType::Twitter),
        spec_class_at(4) == Some(TrafficType::Youtube),
        spec_class_at(index) is Some <==> 0 <= index < TRAFFIC_TYPE_COUNT,
        spec_class_at(index) matches Some(t) ==> spec_class_index(t) == index,
{
}

/// Distinct classes have distinct indices.
pub proof fn lemma_class_index_injective(a: TrafficType, b: TrafficType)
    ensures
        spec_class_index(a) == spec_class_index(b) ==> a == b,
{
}

/// The outcome of classifying a payload.
pub struct Classification {
    pub traffic_type: TrafficType,
}

/// The position of an IEEE-754 single given by its bit pattern in the total order that
/// `f32::total_cmp` uses: negative values (sign bit set) have their other bits inverted.
pub open spec fn spec_total_order_key(bits: u32) -> int {
    if bits < 0x8000_0000 {
        bits as int
    } else {
        0x7fff_ffff - bits as int
    }
}

/// The index `Iterator::max_by` picks under that order: the last of the greatest scores.
pub open spec fn spec_last_max_index(scores: Seq<u32>) -> int
    decreases scores.len(),
{
    if scores.len() <= 1 {
        0
    } else {
        let prev = spec_last_max_index(scores.drop_last());
        if spec_total_order_key(scores.last()) >= spec_total_order_key(scores[prev]) {
            scores.len() - 1
        } else {
            prev
        }
    }
}

/// The key of a score, computed from its bit pattern.
pub fn total_order_key(bits: u32) -> (key: i64)
    ensures
        key == spec_total_order_key(bits),
{
    if bits < 0x8000_0000 {
        bits as i64
    } else {
        0x7fff_ffff - bits as i64
    }
}

/// Scores with different bit patterns have different keys, so the order is total.
pub proof fn lemma_total_order_key_injective(a: u32, b: u32)
    ensures
        spec_total_order_key(a) == spec_total_order_key(b) ==> a == b,
{
}

/// The key `f32::total_cmp` compares, as its source computes it from a bit pattern: the
/// pattern read as a signed integer, with the bits below the sign flipped when the sign
/// bit is set.
pub open spec fn spec_std_order_bits(bits: u32) -> i32 {
    (bits as i32) ^ (((((bits as i32) >> 31u32) as u32) >> 1u32) as i32)
}

/// Keys order scores as `f32::total_cmp` does: one score's key is below another's exactly
/// when `total_cmp` finds it `Less`. So among non-negative scores a larger pattern (a
/// larger float) has a larger key, among negative ones a larger pattern (a more negative
/// float) has a smaller key, and every negative score ranks below every non-negative one.
pub proof fn lemma_total_order_key_matches_std_order(a: u32, b: u32)
    ensures
        spec_total_order_key(a) == spec_std_order_bits(a) as int,
        spec_total_order_key(a) < spec_total_order_key(b) <==> spec_std_order_bits(a) < spec_std_order_bits(b),
        a < 0x8000_0000 && b < 0x8000_0000 ==> (spec_total_order_key(a) < spec_total_order_key(b) <==> a < b),
        a >= 0x8000_0000 && b >= 0x8000_0000 ==> (spec_total_order_key(a) < spec_total_order_key(b) <==> a > b),
        a >= 0x8000_0000 && b < 0x8000_0000 ==> spec_total_order_key(a) < spec_total_order_key(b),
{
    lemma_std_order_bits_value(a);
    lemma_std_order_bits_value(b);
}

proof fn lemma_std_order_bits_value(x: u32)
    ensures
        spec_total_order_key(x) == spec_std_order_bits(x) as int,
{
    if x < 0x8000_0000 {
        assert(x < 0x8000_0000u32 ==> ((x as i32) ^ (((((x as i32) >> 31u32) as u32) >> 1u32) as i32)) == x as i32
            && x as i32 >= 0) by (bit_vector);
        assert(x as i32 == x as int);
    } else {
        assert(x >= 0x8000_0000u32 ==> ((x as i32) ^ (((((x as i32) >> 31u32) as u32) >> 1u32) as i32))
            == (0x7fff_ffffu32 - (x - 0x8000_0000u32)) as i32 - 0x8000_0000i64) by (bit_vector);
    }
}

/// The chosen index holds a greatest score, and every later score is strictly smaller.
pub proof fn lemma_last_max_index_is_last_maximum(scores: Seq<u32>)
    requires
        scores.len() > 0,
    ensures
        0 <= spec_last_max_index(scores) < scores.len(),
        forall|j: int|
            0 <= j < scores.len() ==> spec_total_order_key(#[trigger] scores[j])
                <= spec_total_order_key(scores[spec_last_max_index(scores)]),
        forall|j: int|
            spec_last_max_index(scores) < j < scores.len() ==> spec_total_order_key(
                #[trigger] scores[j],
            ) < spec_total_order_key(scores[spec_last_max_index(scores)]),
    decreases scores.len(),
{
    if scores.len() > 1 {
        let init = scores.drop_last();
        lemma_last_max_index_is_last_maximum(init);
        let prev = spec_last_max_index(init);
        let best = spec_last_max_index(scores);
        assert forall|j: int| 0 <= j < scores.len() implies spec_total_order_key(
            #[trigger] scores[j],
        ) <= spec_total_order_key(scores[best]) by {
            if j < init.len() {
                assert(init[j] == scores[j]);
            }
            assert(init[prev] == scores[prev]);
        }
        assert forall|j: int| best < j < scores.len() implies spec_total_order_key(
            #[trigger] scores[j],
        ) < spec_total_order_key(scores[best]) by {
            if j < init.len() {
                assert(init[j] == scores[j]);
            }
            assert(init[prev] == scores[prev]);
        }
    }
}

/// The winning index holds a greatest score in the order `f32::total_cmp` gives, and every
/// later score is strictly smaller in that order (`max_by` keeps the last of equal
/// maxima). For non-negative scores, such as a softmax output, that is the largest float.
pub proof fn lemma_winning_score_is_greatest(scores: Seq<u32>)
    requires
        scores.len() > 0,
    ensures
        0 <= spec_last_max_index(scores) < scores.len(),
        forall|j: int|
            0 <= j < scores.len() ==> spec_std_order_bits(#[trigger] scores[j]) <= spec_std_order_bits(
                scores[spec_last_max_index(scores)],
            ),
        forall|j: int|
            spec_last_max_index(scores) < j < scores.len() ==> spec_std_order_bits(#[trigger] scores[j])
                < spec_std_order_bits(scores[spec_last_max_index(scores)]),
        forall|j: int|
            0 <= j < scores.len() && #[trigger] scores[j] < 0x8000_0000 && scores[spec_last_max_index(scores)]
                < 0x8000_0000 ==> scores[j] <= scores[spec_last_max_index(scores)],
{
    lemma_last_max_index_is_last_maximum(scores);
    let best = spec_last_max_index(scores);
    assert forall|j: int| 0 <= j < scores.len() implies spec_std_order_bits(#[trigger] scores[j])
        <= spec_std_order_bits(scores[best]) && (best < j ==> spec_std_order_bits(scores[j]) < spec_std_order_bits(
        scores[best],
    )) && (scores[j] < 0x8000_0000 && scores[best] < 0x8000_0000 ==> scores[j] <= scores[best]) by {
        lemma_total_order_key_matches_std_order(scores[j], scores[best]);
        lemma_total_order_key_matches_std_order(scores[best], scores[j]);
    }
}

/// The index of the winning score, scores given by their `f32::to_bits` patterns;
/// `None` when there are no scores.
pub fn predicted_index(score_bits: &[u32]) -> (index: Option<usize>)
    ensures
        index is None <==> score_bits@.len() == 0,
        index matches Some(i) ==> i == spec_last_max_index(score_bits@),
        index matches Some(i) ==> forall|j: int|
            0 <= j < score_bits@.len() ==> spec_std_order_bits(#[trigger] score_bits@[j]) <= spec_std_order_bits(
                score_bits@[i as int],
            ),
        index matches Some(i) ==> forall|j: int|
            i < j < score_bits@.len() ==> spec_std_order_bits(#[trigger] score_bits@[j]) < spec_std_order_bits(
                score_bits@[i as int],
            ),
{
    if score_bits.len() == 0 {
        return None;
    }
    let mut best: usize = 0;
    let mut best_key: i64 = total_order_key(score_bits[0]);
    let mut i: usize = 1;
    while i < score_bits.len()
        invariant
            1 <= i <= score_bits@.len(),
            best < i,
            best == spec_last_max_index(score_bits@.take(i as int)),
            best_key == spec_total_order_key(score_bits@[best as int]),
        decreases score_bits@.len() - i,
    {
        let key = total_order_key(score_bits[i]);
        proof {
            let prefix = score_bits@.take(i as int + 1);
            assert(prefix.drop_last() =~= score_bits@.take(i as int));
            assert(prefix[best as int] == score_bits@[best as int]);
        }
        if key >= best_key {
            best = i;
            best_key = key;
        }
        i = i + 1;
    }
    assert(score_bits@.take(score_bits@.len() as int) =~= score_bits@);
    proof {
        lemma_winning_score_is_greatest(score_bits@);
    }
    Some(best)
}

/// The class of the highest-scoring model output, scores given by their bit patterns.
/// The scores must not be empty and the winning index must name a class.
pub fn predicted_traffic_type(score_bits: &[u32]) -> (t: TrafficType)
    requires
        score_bits@.len() > 0,
        spec_last_max_index(score_bits@) < TRAFFIC_TYPE_COUNT,
    ensures
        spec_class_at(spec_last_max_index(score_bits@)) == Some(t),
        spec_class_index(t) == spec_last_max_index(score_bits@),
        forall|j: int|
            0 <= j < score_bits@.len() ==> spec_std_order_bits(#[trigger] score_bits@[j]) <= spec_std_order_bits(
                score_bits@[spec_class_index(t) as int],
            ),
{
    let index = predicted_index(score_bits).unwrap();
    let t = TrafficType::try_from(index);
    proof {
        lemma_winning_score_is_greatest(score_bits@);
    }
    match t {
        Ok(t) => t,
        Err(()) => {
            proof { assert(false); }
            TrafficType::GoogleMeet
        }
    }
}

/// Channels of the model input tensor; the grayscale payload image fills each of them.
pub const INPUT_CHANNELS: usize = 3;
/// Height of the model input image.
pub const INPUT_HEIGHT: u32 = 224;
/// Width of the model input image.
pub const INPUT_WIDTH: u32 = 224;
/// Side of the square grayscale image that a payload is laid out on.
pub const SESSION_IMAGE_SIDE: u32 = 28;
/// Payload bytes that fit on that image, one per pixel.
pub const SESSION_IMAGE_BYTES: usize = 784;
/// Side the payload image is scaled to before cropping (256 pixels, as in training).
pub const RESIZED_SIDE: u32 = 256;
/// Offset of the centred model input window inside the scaled image.
pub const CROP_OFFSET: u32 = 16;

/// The payload laid out on the session image: zero-padded when short, truncated when long.
pub open spec fn spec_session_pixels(bytes: Seq<u8>) -> Seq<u8> {
    Seq::new(
        SESSION_IMAGE_BYTES as nat,
        |i: int|
            if i < bytes.len() {
                bytes[i]
            } else {
                0u8
            },
    )
}

/// The session image is the payload in order, then zeros: a short payload is its first
/// pixels, byte for byte, followed by nothing but zero pixels; a long payload's first
/// `SESSION_IMAGE_BYTES` bytes are the whole image; and bytes past the image change
/// nothing.
pub proof fn lemma_session_pixels_layout(bytes: Seq<u8>, extra: Seq<u8>)
    ensures
        spec_session_pixels(bytes).len() == SESSION_IMAGE_BYTES,
        bytes.len() <= SESSION_IMAGE_BYTES ==> spec_session_pixels(bytes).take(bytes.len() as int) == bytes,
        forall|i: int|
            bytes.len() <= i < SESSION_IMAGE_BYTES ==> #[trigger] spec_session_pixels(bytes)[i] == 0,
        bytes.len() >= SESSION_IMAGE_BYTES ==> spec_session_pixels(bytes) == bytes.take(
            SESSION_IMAGE_BYTES as int,
        ),
        bytes.len() >= SESSION_IMAGE_BYTES ==> spec_session_pixels(bytes + extra) == spec_session_pixels(bytes),
{
    let pixels = spec_session_pixels(bytes);
    if bytes.len() <= SESSION_IMAGE_BYTES {
        assert(pixels.take(bytes.len() as int) =~= bytes);
    }
    if bytes.len() >= SESSION_IMAGE_BYTES {
        assert(pixels =~= bytes.take(SESSION_IMAGE_BYTES as int));
        assert(spec_session_pixels(bytes + extra) =~= pixels);
    }
}

/// Where output pixel `k` of the centred crop is taken from in the scaled image (row-major).
pub open spec fn spec_crop_source(k: int) -> int {
    (k / INPUT_WIDTH as int + CROP_OFFSET as int) * RESIZED_SIDE as int + (k % INPUT_WIDTH as int)
        + CROP_OFFSET as int
}

/// The centred `INPUT_WIDTH` x `INPUT_HEIGHT` window of a scaled image.
pub open spec fn spec_center_crop(scaled: Seq<u8>) -> Seq<u8> {
    Seq::new((INPUT_WIDTH * INPUT_HEIGHT) as nat, |k: int| scaled[spec_crop_source(k)])
}

/// What `image::imageops::resize` with the triangle filter gives for a square grayscale
/// image of side `side`, scaled to side `new_side`, both given as row-major pixel bytes.
pub uninterp spec fn triangle_resized(pixels: Seq<u8>, side: u32, new_side: u32) -> Seq<u8>;

/// Scales the square grayscale session image up to the model's working size with
/// `image::imageops::resize` and the triangle filter. Trusted: the pixels are those
/// `triangle_resized` names, and there are `new_side` squared of them (`resize` allocates
/// its output with `ImageBuffer::new(nwidth, nheight)`). Only the sizes the model uses are
/// admitted.
#[verifier::external_body]
fn resize_triangle(pixels: Vec<u8>, side: u32, new_side: u32) -> (scaled: Vec<u8>)
    requires
        side == SESSION_IMAGE_SIDE,
        new_side == RESIZED_SIDE,
        pixels@.len() == side * side,
    ensures
        scaled@ == triangle_resized(pixels@, side, new_side),
        scaled@.len() == new_side * new_side,
{
    let image = GrayImage::from_raw(side, side, pixels).unwrap();
    imageops::resize(&image, new_side, new_side, FilterType::Triangle).into_raw()
}

/// Lays a payload out on the session image: its first bytes, zero-padded to
/// `SESSION_IMAGE_BYTES`.
pub fn session_pixels(bytes: &[u8]) -> (pixels: Vec<u8>)
    ensures
        pixels@ == spec_session_pixels(bytes@),
{
    let mut pixels: Vec<u8> = Vec::with_capacity(SESSION_IMAGE_BYTES);
    let mut i: usize = 0;
    while i < SESSION_IMAGE_BYTES
        invariant
            i <= SESSION_IMAGE_BYTES,
            pixels@.len() == i,
            forall|k: int| 0 <= k < i ==> pixels@[k] == spec_session_pixels(bytes@)[k],
        decreases SESSION_IMAGE_BYTES - i,
    {
        if i < bytes.len() {
            pixels.push(bytes[i]);
        } else {
            pixels.push(0u8);
        }
        i = i + 1;
    }
    assert(pixels@ =~= spec_session_pixels(bytes@));
    pixels
}

/// Cuts the centred model input window out of a scaled image of side `RESIZED_SIDE`.
pub fn center_crop(scaled: &[u8]) -> (window: Vec<u8>)
    requires
        scaled@.len() == RESIZED_SIDE * RESIZED_SIDE,
    ensures
        window@ == spec_center_crop(scaled@),
{
    let mut window: Vec<u8> = Vec::with_capacity(50176);
    let mut y: usize = 0;
    while y < 224
        invariant
            y <= 224,
            scaled@.len() == RESIZED_SIDE * RESIZED_SIDE,
            window@.len() == y * 224,
            forall|k: int| 0 <= k < window@.len() ==> window@[k] == scaled@[spec_crop_source(k)],
        decreases 224 - y,
    {
        let mut x: usize = 0;
        while x < 224
            invariant
                y < 224,
                x <= 224,
                scaled@.len() == RESIZED_SIDE * RESIZED_SIDE,
                window@.len() == y * 224 + x,
                forall|k: int|
                    0 <= k < window@.len() ==> window@[k] == scaled@[spec_crop_source(k)],
            decreases 224 - x,
        {
            proof {
                vstd::arithmetic::div_mod::lemma_fundamental_div_mod_converse(
                    (y * 224 + x) as int,
                    224,
                    y as int,
                    x as int,
                );
            }
            window.push(scaled[(y + 16) * 256 + x + 16]);
            x = x + 1;
        }
        y = y + 1;
    }
    assert(window@ =~= spec_center_crop(scaled@));
    window
}

/// The model input window for a payload: the payload laid out on the session image,
/// scaled to `RESIZED_SIDE` with the triangle filter, and cropped to its centre.
pub open spec fn spec_payload_pixels(bytes: Seq<u8>) -> Seq<u8> {
    spec_center_crop(
        triangle_resized(spec_session_pixels(bytes), SESSION_IMAGE_SIDE, RESIZED_SIDE),
    )
}

/// The grayscale model input window for a payload, row-major, `INPUT_WIDTH` pixels per row.
pub fn payload_to_pixels(bytes: &[u8]) -> (window: Vec<u8>)
    ensures
        window@ == spec_payload_pixels(bytes@),
        window@.len() == INPUT_WIDTH * INPUT_HEIGHT,
{
    let pixels = session_pixels(bytes);
    let scaled = resize_triangle(pixels, SESSION_IMAGE_SIDE, RESIZED_SIDE);
    center_crop(&scaled)
}

/// Bytes past the model input window do not change the model input: long payloads are
/// truncated.
pub proof fn lemma_long_payload_truncated(payload: Seq<u8>, extra: Seq<u8>)
    requires
        payload.len() >= SESSION_IMAGE_BYTES,
    ensures
        spec_session_pixels(payload + extra) == spec_session_pixels(payload),
        spec_payload_pixels(payload + extra) == spec_payload_pixels(payload),
{
    assert(spec_session_pixels(payload + extra) =~= spec_session_pixels(payload));
}

/// Zero bytes appended within the window do not change the model input: short payloads are
/// zero-padded.
pub proof fn lemma_short_payload_zero_padded(payload: Seq<u8>, padding: nat)
    requires
        payload.len() + padding <= SESSION_IMAGE_BYTES,
    ensures
        spec_session_pixels(payload + Seq::new(padding, |i: int| 0u8)) == spec_session_pixels(payload),
        spec_payload_pixels(payload + Seq::new(padding, |i: int| 0u8)) == spec_payload_pixels(payload),
{
    assert(spec_session_pixels(payload + Seq::new(padding, |i: int| 0u8)) =~= spec_session_pixels(payload));
}

} // verus!
