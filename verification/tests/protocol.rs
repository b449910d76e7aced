use capsule_box::error::AppError;
use capsule_box::ipc::protocol::{default_timeout, recv_json, send_json, Reception};

#[test]
fn a_frame_is_a_length_and_a_body() {
    assert_eq!(send_json(vec![]), vec![0, 0, 0, 0]);
    assert_eq!(send_json(vec![7, 8, 9]), vec![0, 0, 0, 3, 7, 8, 9]);
    let long = send_json(vec![1; 66051]);
    assert_eq!(long[..4], [0x00, 0x01, 0x02, 0x03]);
    assert_eq!(long.len(), 66055);
}

#[test]
fn a_sent_body_is_received() {
    for n in [0usize, 1, 255, 256, 70000, 1_000_000] {
        let body: Vec<u8> = (0..n).map(|i| (i % 251) as u8).collect();
        let sent = send_json(body.clone());
        match recv_json(&sent) {
            Ok(Reception::Body(received)) => assert_eq!(received, body),
            _ => panic!("not received"),
        }
    }
}

#[test]
fn reading_what_is_wanted_reads_one_frame_and_no_more() {
    let mut wire = send_json(b"first".to_vec());
    wire.extend(send_json(b"second".to_vec()));
    let mut received: Vec<u8> = vec![];
    let body = loop {
        match recv_json(&received) {
            Ok(Reception::Wants(n)) => {
                assert!(n > 0);
                let at = received.len();
                received.extend_from_slice(&wire[at..at + n]);
            }
            Ok(Reception::Body(body)) => break body,
            Err(_) => panic!("refused"),
        }
    };
    assert_eq!(body, b"first".to_vec());
    assert_eq!(received.len(), 9);
}

#[test]
fn part_of_a_frame_wants_the_rest() {
    assert!(matches!(recv_json(&vec![]), Ok(Reception::Wants(4))));
    assert!(matches!(recv_json(&vec![0, 0]), Ok(Reception::Wants(2))));
    assert!(matches!(recv_json(&vec![0, 0, 0, 5]), Ok(Reception::Wants(5))));
    assert!(matches!(recv_json(&vec![0, 0, 0, 5, 1, 2]), Ok(Reception::Wants(3))));
}

#[test]
fn a_body_over_the_limit_is_refused_at_once() {
    let header = (1_000_001u32).to_be_bytes().to_vec();
    assert!(matches!(recv_json(&header), Err(AppError::MessageTooLarge(1_000_001))));
    assert!(matches!(
        recv_json(&vec![0xff, 0xff, 0xff, 0xff]),
        Err(AppError::MessageTooLarge(u32::MAX))
    ));
    let header = (1_000_000u32).to_be_bytes().to_vec();
    assert!(matches!(recv_json(&header), Ok(Reception::Wants(1_000_000))));
}

#[test]
fn a_stop_request_waits_ten_seconds_by_default() {
    assert_eq!(default_timeout(), 10);
}
