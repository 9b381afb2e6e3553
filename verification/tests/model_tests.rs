use packet_forwarding_service::classification::model::{
    center_crop, payload_to_pixels, predicted_index, predicted_traffic_type, session_pixels,
    total_order_key, Classification, TrafficType, INPUT_HEIGHT, INPUT_WIDTH, RESIZED_SIDE,
    SESSION_IMAGE_BYTES,
};

fn bits(scores: &[f32]) -> Vec<u32> {
    scores.iter().map(|s| s.to_bits()).collect()
}

#[test]
fn try_from_maps_every_index() {
    assert_eq!(TrafficType::try_from(0), Ok(TrafficType::GoogleMeet));
    assert_eq!(TrafficType::try_from(1), Ok(TrafficType::Instagram));
    assert_eq!(TrafficType::try_from(2), Ok(TrafficType::TikTok));
    assert_eq!(TrafficType::try_from(3), Ok(TrafficType::Twitter));
    assert_eq!(TrafficType::try_from(4), Ok(TrafficType::Youtube));
    assert_eq!(TrafficType::try_from(5), Err(()));
    assert_eq!(TrafficType::try_from(usize::MAX), Err(()));
}

#[test]
fn index_and_try_from_round_trip() {
    for t in [
        TrafficType::GoogleMeet,
        TrafficType::Instagram,
        TrafficType::TikTok,
        TrafficType::Twitter,
        TrafficType::Youtube,
    ] {
        assert_eq!(TrafficType::try_from(t.index()), Ok(t));
    }
}

#[test]
fn display_names() {
    assert_eq!(TrafficType::GoogleMeet.to_string(), "Google Meet");
    assert_eq!(TrafficType::Instagram.to_string(), "Instagram");
    assert_eq!(TrafficType::TikTok.to_string(), "TikTok");
    assert_eq!(TrafficType::Twitter.to_string(), "Twitter");
    assert_eq!(TrafficType::Youtube.to_string(), "YouTube");
}

#[test]
fn classification_holds_traffic_type() {
    let c = Classification { traffic_type: TrafficType::TikTok };
    assert_eq!(c.traffic_type, TrafficType::TikTok);
}

#[test]
fn total_order_key_follows_total_cmp() {
    let values = [f32::NEG_INFINITY, -2.5, -1.0, -0.0, 0.0, 1.0e-30, 1.0, 3.5, f32::INFINITY, f32::NAN];
    for a in values {
        for b in values {
            let by_key = total_order_key(a.to_bits()).cmp(&total_order_key(b.to_bits()));
            assert_eq!(by_key, a.total_cmp(&b), "{a} vs {b}");
        }
    }
    assert_eq!(total_order_key(0.0f32.to_bits()), 0);
    assert_eq!(total_order_key((-0.0f32).to_bits()), -1);
}

#[test]
fn predicted_index_picks_highest_score() {
    assert_eq!(predicted_index(&bits(&[0.1, 0.7, 0.2])), Some(1));
    assert_eq!(predicted_index(&bits(&[-3.0, -1.0, -2.0])), Some(1));
    assert_eq!(predicted_index(&[]), None);
}

#[test]
fn predicted_index_takes_last_of_equal_scores() {
    assert_eq!(predicted_index(&bits(&[0.5, 0.2, 0.5, 0.1])), Some(2));
    let scores = [0.5f32, 0.2, 0.5, 0.1];
    let expected = scores
        .iter()
        .enumerate()
        .max_by(|(_, a), (_, b)| a.total_cmp(b))
        .map(|(i, _)| i);
    assert_eq!(predicted_index(&bits(&scores)), expected);
}

#[test]
fn predicted_index_orders_nan_highest() {
    assert_eq!(predicted_index(&bits(&[1.0, f32::NAN, 2.0])), Some(1));
}

#[test]
fn predicted_traffic_type_maps_winner() {
    assert_eq!(predicted_traffic_type(&bits(&[0.0, 0.0, 0.0, 9.0, 1.0])), TrafficType::Twitter);
    assert_eq!(predicted_traffic_type(&bits(&[5.0, 0.0, 0.0, 0.0, 1.0])), TrafficType::GoogleMeet);
    assert_eq!(predicted_traffic_type(&bits(&[0.0, 0.0, 0.0, 0.0, 1.0])), TrafficType::Youtube);
}

#[test]
fn session_pixels_pads_short_payloads() {
    let pixels = session_pixels(&[1, 2, 3]);
    assert_eq!(pixels.len(), SESSION_IMAGE_BYTES);
    assert_eq!(&pixels[..3], &[1, 2, 3]);
    assert!(pixels[3..].iter().all(|&p| p == 0));
}

#[test]
fn session_pixels_truncates_long_payloads() {
    let payload: Vec<u8> = (0..1000u32).map(|i| (i % 251) as u8).collect();
    let pixels = session_pixels(&payload);
    assert_eq!(pixels, payload[..SESSION_IMAGE_BYTES].to_vec());
}

#[test]
fn center_crop_takes_middle_window() {
    let side = RESIZED_SIDE as usize;
    let scaled: Vec<u8> = (0..side * side).map(|i| ((i / side) * 7 + (i % side)) as u8).collect();
    let window = center_crop(&scaled);
    let width = INPUT_WIDTH as usize;
    assert_eq!(window.len(), width * INPUT_HEIGHT as usize);
    for (k, &p) in window.iter().enumerate() {
        let (y, x) = (k / width, k % width);
        assert_eq!(p, scaled[(y + 16) * side + x + 16]);
    }
}

#[test]
fn payload_to_pixels_of_uniform_payload_is_uniform() {
    let window = payload_to_pixels(&[200u8; 784]);
    assert_eq!(window.len(), (INPUT_WIDTH * INPUT_HEIGHT) as usize);
    assert!(window.iter().all(|&p| p == 200));
}

#[test]
fn payload_to_pixels_of_empty_payload_is_black() {
    let window = payload_to_pixels(&[]);
    assert_eq!(window.len(), 50176);
    assert!(window.iter().all(|&p| p == 0));
}

#[test]
fn payload_to_pixels_ignores_bytes_past_the_window() {
    let mut long = vec![9u8; 784];
    let short = long.clone();
    long.extend_from_slice(&[255u8; 100]);
    assert_eq!(payload_to_pixels(&long), payload_to_pixels(&short));
}

#[test]
fn payload_to_pixels_scales_a_bright_top_half() {
    let mut payload = vec![0u8; 784];
    for b in payload.iter_mut().take(14 * 28) {
        *b = 255;
    }
    let window = payload_to_pixels(&payload);
    // Top rows of the window stay bright, bottom rows stay dark.
    assert_eq!(window[0], 255);
    assert_eq!(window[window.len() - 1], 0);
}
