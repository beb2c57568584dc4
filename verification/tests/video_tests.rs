//! The video path: access-unit splitting on start codes, the accumulator,
//! draining with non-picture units, and the recorded stream headers.

use xcap::cancel::CancelToken;
use xcap::vehicle::Model;
use xcap::video::{split_units, VideoState};

#[test]
fn units_split_at_start_codes() {
    let stream: Vec<u8> = vec![0, 0, 1, 9, 9, 0, 0, 0, 1, 7, 7];
    let units = split_units(&stream);
    assert_eq!(units.len(), 2);
    assert_eq!(units[0], vec![0, 0, 1, 9, 9, 0]);
    assert_eq!(units[1], vec![0, 0, 1, 7, 7]);
}

#[test]
fn bytes_before_the_first_start_code_are_dropped() {
    let stream: Vec<u8> = vec![9, 9, 0, 0, 1, 5];
    let units = split_units(&stream);
    assert_eq!(units.len(), 1);
    assert_eq!(units[0], vec![0, 0, 1, 5]);
}

#[test]
fn a_stream_without_start_codes_has_no_units() {
    let stream: Vec<u8> = vec![1, 2, 3, 4];
    assert!(split_units(&stream).is_empty());
    let empty: Vec<u8> = Vec::new();
    assert!(split_units(&empty).is_empty());
}

#[test]
fn draining_junk_units_produces_no_frames_and_no_error() {
    let vs = VideoState {
        cache: vec![0, 0, 1, 0x41, 0x12, 0x34, 0, 0, 1, 0x41, 0x56],
        stamps: vec![100, 200],
    };
    let token = CancelToken::new();
    let frames = vs.drain(&token).unwrap();
    assert!(frames.is_empty());
}

#[test]
fn draining_while_cancelled_interrupts() {
    let vs = VideoState { cache: vec![0, 0, 1, 0x41], stamps: vec![1] };
    let token = CancelToken::new();
    token.cancel();
    assert_eq!(vs.drain(&token).unwrap_err(), xcap::errors::Error::Interrupted);
}

#[test]
fn model_headers_match_the_recorded_cameras() {
    let h720 = Model::DR1.h264_header();
    assert_eq!(h720.len(), 35);
    assert_eq!(&h720[..6], &[0x00, 0x00, 0x00, 0x01, 0x67, 0x64]);
    assert_eq!(Model::DR2.h264_header(), h720);
    let h960 = Model::PT1.h264_header();
    assert_eq!(h960.len(), 32);
    assert_eq!(&h960[..6], &[0x00, 0x00, 0x00, 0x01, 0x67, 0x64]);
}
