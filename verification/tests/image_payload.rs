use tui_components::geometry::LayoutSize;
use tui_components::image::{
    image_from_bytes, image_from_payload, kitty_chunks, payload, payload_bytes, plan_encode, should_request_kitty,
    EncodePlan, EncodeState, ImageLoadError, ImageProtocol,
};

const TEST_PNG: &str = "iVBORw0KGgoAAAANSUhEUgAAAGAAAAAwCAIAAABhdOiYAAAAf0lEQVR42u3RMRGAQBADwBdBTU1NjTDkvAhcffMSMJFrbjYTA9mM47wjvd4v0j2fSFcoAxAgQIAAAQIECBAgQIAKgLoOSx0PCBAgQIAAAQIECBAgQBVAXYeljgcECBAgQIAAAQIECBCgCqCuw1LHAwIECBAgQIAAAQIECFAB0A/Lrzglvf/PRwAAAABJRU5ErkJggg==";

fn dimensions(encoded: &str) -> (u32, u32) {
    let decoded = image_from_payload(encoded).expect("valid PNG data");
    (decoded.width, decoded.height)
}

#[test]
fn decodes_raw_base64_image_data() {
    assert_eq!(dimensions(TEST_PNG), (96, 48));
}

#[test]
fn decodes_data_url_base64_image_data() {
    let url = format!("data:image/png;base64,{TEST_PNG}");
    assert_eq!(payload(&url), TEST_PNG);
    assert_eq!(dimensions(&url), (96, 48));
}

#[test]
fn invalid_base64_is_an_error() {
    assert!(payload_bytes("not base64!").is_err());
    assert_eq!(payload_bytes("aGk=").unwrap(), b"hi".to_vec());
}

#[test]
fn payloads_that_are_no_image_fail_to_decode() {
    assert!(matches!(image_from_payload("not base64!"), Err(ImageLoadError::Base64(_))));
    assert!(matches!(image_from_payload("aGk="), Err(ImageLoadError::Decode(_))));
    assert!(matches!(image_from_bytes(b"hi"), Err(ImageLoadError::Decode(_))));
    let bytes = payload_bytes(TEST_PNG).expect("valid base64");
    let decoded = image_from_bytes(&bytes).expect("valid PNG data");
    assert_eq!((decoded.width, decoded.height), (96, 48));
    assert_eq!((decoded.image.width(), decoded.image.height()), (96, 48));
}

#[test]
fn does_not_reencode_when_only_the_layout_position_changes() {
    let mut state = EncodeState { encoded_size: None, pending_size: None };
    let plan = plan_encode(ImageProtocol::Auto, state, 32, 16);
    assert_eq!(plan, EncodePlan::Encode { width: 32, height: 16 });
    state.encoded_size = Some(LayoutSize::new(32, 16));

    assert_eq!(plan_encode(ImageProtocol::Auto, state, 32, 16), EncodePlan::Keep);
    assert_eq!(plan_encode(ImageProtocol::Auto, state, 0, 16), EncodePlan::Clear);
}

#[test]
fn kitty_encodes_in_the_background_once_per_size() {
    let state = EncodeState { encoded_size: None, pending_size: Some(LayoutSize::new(4, 2)) };
    assert_eq!(
        plan_encode(ImageProtocol::Kitty, state, 4, 2),
        EncodePlan::RequestKitty { width: 4, height: 2 }
    );
    assert!(!should_request_kitty(state, LayoutSize::new(4, 2)));
    assert!(should_request_kitty(state, LayoutSize::new(5, 2)));
}

#[test]
fn kitty_transfers_are_cut_into_chunks() {
    assert_eq!(kitty_chunks(0), vec![]);
    assert_eq!(kitty_chunks(10), vec![(0, 10, false)]);
    assert_eq!(
        kitty_chunks(9000),
        vec![(0, 4096, true), (4096, 8192, true), (8192, 9000, false)]
    );
    assert_eq!(kitty_chunks(8192), vec![(0, 4096, true), (4096, 8192, false)]);
}

use tui_components::image::{kitty_placement, kitty_transfer, KittyImage};

#[test]
fn direct_kitty_payload_uses_cursor_placement_without_placeholders() {
    let kitty = KittyImage::new(TEST_PNG, 7, 1, 2, 1);

    assert!(kitty.data.starts_with("\x1b_Ga=T,t=d,f=100,"));
    assert!(kitty.data.contains("c=2,r=1,C=1,q=2,"));
    assert!(!kitty.data.contains('\u{10eeee}'));
}

#[test]
fn direct_kitty_can_remove_an_existing_placement() {
    let kitty = KittyImage::new(TEST_PNG, 7, 1, 2, 1);

    assert!(kitty.cleanup_command().starts_with("\x1b_Ga=d,d=i,i="));
    assert!(kitty.cleanup_command().ends_with(",p=1,q=2\x1b\\"));
    assert_eq!(kitty.cleanup_command(), "\x1b_Ga=d,d=i,i=7,p=1,q=2\x1b\\");
}

#[test]
fn direct_kitty_replaces_its_full_transfer_with_a_placement_command() {
    let mut kitty = KittyImage::new(TEST_PNG, 7, 1, 2, 1);

    assert!(kitty.replace_transfer_with_placement());
    assert!(kitty.data.starts_with("\x1b_Ga=p,i="));
    assert!(!kitty.replace_transfer_with_placement());
    assert_eq!(kitty.data, kitty_placement(7, 1, 2, 1));
}

#[test]
fn kitty_transfers_send_each_chunk_behind_its_header() {
    let encoded = "A".repeat(5000);
    let transfer = kitty_transfer(&encoded, 3, 1, 4, 2);
    let expected = format!(
        "\x1b_Ga=T,t=d,f=100,i=3,p=1,c=4,r=2,C=1,q=2,m=1;{}\x1b\\\x1b_Gm=0;{}\x1b\\",
        "A".repeat(4096),
        "A".repeat(904)
    );
    assert_eq!(transfer, expected);
    assert_eq!(kitty_transfer("", 3, 1, 4, 2), "");
    assert_eq!(kitty_placement(3, 1, 4, 2), "\x1b_Ga=p,i=3,p=1,c=4,r=2,C=1,q=2\x1b\\");
}
