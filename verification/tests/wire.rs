use plotpath::args::Args;
use plotpath::instruction::{Instrcution, Point, HANDSHAKE};
use std::path::PathBuf;

#[test]
fn end_of_stream_record_is_all_zero() {
    assert_eq!(Instrcution::EOF.to_bytes(), [0, 0, 0]);
}

#[test]
fn move_record_carries_the_point() {
    assert_eq!(Instrcution::MoveTo(Point(7, 9)).to_bytes(), [1, 7, 9]);
}

#[test]
fn line_record_carries_the_point() {
    assert_eq!(Instrcution::DrawLine(Point(255, 0)).to_bytes(), [2, 255, 0]);
}

#[test]
fn a_transmission_opens_with_the_letter_d() {
    assert_eq!(HANDSHAKE, b'd');
}

#[test]
fn args_hold_the_file_and_the_speed() {
    let args = Args {
        filename: PathBuf::from("drawing.svg"),
        baud_rate: Some(9600),
    };
    assert_eq!(args.filename, PathBuf::from("drawing.svg"));
    assert_eq!(args.baud_rate, Some(9600));
}
