use twinleaf::firmware::{FirmwareUpload, UploadAction, UploadError, UploadEvent};
use twinleaf::payload::{Payload, RpcError, RpcErrorCode, RpcMethod, RpcReply};

fn sent(action: UploadAction) -> (u16, Vec<u8>) {
    match action {
        UploadAction::Send(packet) => {
            assert!(packet.routing.is_root());
            assert_eq!(packet.ttl, 0);
            match packet.payload {
                Payload::RpcRequest(r) => {
                    assert!(matches!(r.method, RpcMethod::Name(ref n) if n == "dev.firmware.upload"));
                    (r.id, r.arg)
                }
                _ => panic!("not a request"),
            }
        }
        other => panic!("expected a send, got {:?}", other),
    }
}

#[test]
fn upload_of_721_bytes_takes_three_chunks() {
    let image: Vec<u8> = (0..721u32).map(|i| (i % 251) as u8).collect();
    let mut upload = FirmwareUpload::new(image.clone()).unwrap();
    assert_eq!(upload.chunks(), 3);
    assert_eq!(upload.total_bytes(), 721);

    let (id, chunk) = sent(upload.next());
    assert_eq!(id, 0);
    assert_eq!(chunk, image[0..288]);
    // One chunk is on its way and another may follow: look for a reply without waiting.
    assert!(matches!(upload.next(), UploadAction::Poll));
    upload.on_event(UploadEvent::WouldBlock).unwrap();

    let (id, chunk) = sent(upload.next());
    assert_eq!(id, 1);
    assert_eq!(chunk, image[288..576]);
    // The window is full.
    assert!(matches!(upload.next(), UploadAction::Wait));
    assert!(matches!(upload.next(), UploadAction::Wait));
    upload.on_event(UploadEvent::Reply(0)).unwrap();
    assert_eq!(upload.acknowledged_bytes(), 288);

    let (id, chunk) = sent(upload.next());
    assert_eq!(id, 2);
    assert_eq!(chunk, image[576..721]);
    assert_eq!(chunk.len(), 145);
    assert!(matches!(upload.next(), UploadAction::Wait));
    upload.on_event(UploadEvent::Reply(1)).unwrap();
    assert!(!upload.is_done());

    assert!(matches!(upload.next(), UploadAction::Wait));
    upload.on_event(UploadEvent::Reply(2)).unwrap();
    assert!(upload.is_done());
    assert_eq!(upload.acknowledged_bytes(), 721);
    assert!(matches!(upload.next(), UploadAction::Upgrade));
    assert!(matches!(upload.next(), UploadAction::Upgrade));
}

#[test]
fn replies_that_arrive_early_keep_the_window_moving() {
    let mut upload = FirmwareUpload::new(vec![7; 288 * 4]).unwrap();
    assert_eq!(upload.chunks(), 4);
    let mut ids = Vec::new();
    let mut acked: u16 = 0;
    loop {
        match upload.next() {
            UploadAction::Send(p) => match p.payload {
                Payload::RpcRequest(r) => {
                    assert_eq!(r.arg.len(), 288);
                    ids.push(r.id);
                }
                _ => panic!("not a request"),
            },
            UploadAction::Poll | UploadAction::Wait => {
                upload.on_event(UploadEvent::Reply(acked)).unwrap();
                acked += 1;
            }
            UploadAction::Upgrade => break,
        }
        assert!(ids.len() as u16 - acked <= 2);
    }
    assert_eq!(ids, vec![0, 1, 2, 3]);
    assert_eq!(acked, 4);
}

#[test]
fn empty_image_sends_nothing_and_upgrades_at_once() {
    let mut upload = FirmwareUpload::new(vec![]).unwrap();
    assert_eq!(upload.chunks(), 0);
    assert_eq!(upload.total_bytes(), 0);
    assert!(upload.is_done());
    assert!(!upload.is_receiving());
    assert!(matches!(upload.next(), UploadAction::Upgrade));
    assert!(matches!(upload.next(), UploadAction::Upgrade));
    assert_eq!(upload.on_event(UploadEvent::Reply(0)).unwrap_err(), UploadError::NotReceiving);
}

#[test]
fn image_of_one_byte_is_one_chunk() {
    let mut upload = FirmwareUpload::new(vec![9]).unwrap();
    assert_eq!(upload.chunks(), 1);
    let (id, chunk) = sent(upload.next());
    assert_eq!((id, chunk), (0, vec![9]));
    assert!(matches!(upload.next(), UploadAction::Wait));
    upload.on_event(UploadEvent::Reply(0)).unwrap();
    assert!(matches!(upload.next(), UploadAction::Upgrade));
}

#[test]
fn image_of_whole_chunks_has_no_short_chunk() {
    let mut upload = FirmwareUpload::new(vec![1; 576]).unwrap();
    assert_eq!(upload.chunks(), 2);
    assert_eq!(sent(upload.next()).1.len(), 288);
    assert!(matches!(upload.next(), UploadAction::Poll));
    upload.on_event(UploadEvent::Other).unwrap();
    assert_eq!(sent(upload.next()).1.len(), 288);
    assert!(matches!(upload.next(), UploadAction::Wait));
}

#[test]
fn out_of_order_reply_is_fatal() {
    let mut upload = FirmwareUpload::new(vec![0; 1000]).unwrap();
    sent(upload.next());
    upload.next();
    upload.on_event(UploadEvent::WouldBlock).unwrap();
    sent(upload.next());
    assert!(matches!(upload.next(), UploadAction::Wait));
    assert_eq!(upload.on_event(UploadEvent::Reply(1)).unwrap_err(), UploadError::OutOfOrder);
    // The upload stays where it was.
    assert!(upload.is_receiving());
    assert_eq!(upload.acknowledged_bytes(), 0);
}

#[test]
fn error_reply_aborts() {
    let mut upload = FirmwareUpload::new(vec![0; 10]).unwrap();
    sent(upload.next());
    let refusal = Payload::RpcError(RpcError {
        id: 0,
        error: RpcErrorCode::InvalidArgs,
        message: String::new(),
    });
    assert_eq!(upload.on_packet(&refusal).unwrap_err(), UploadError::Rejected);
}

#[test]
fn packets_map_to_events() {
    let mut upload = FirmwareUpload::new(vec![0; 10]).unwrap();
    sent(upload.next());
    // A packet of another kind is passed over.
    upload.on_packet(&Payload::Heartbeat(vec![])).unwrap();
    assert!(!upload.is_receiving());
    assert!(matches!(upload.next(), UploadAction::Wait));
    upload.on_packet(&Payload::RpcReply(RpcReply { id: 0, reply: vec![] })).unwrap();
    assert!(upload.is_done());
}

#[test]
fn reports_are_refused_while_not_receiving() {
    let mut upload = FirmwareUpload::new(vec![0; 10]).unwrap();
    assert_eq!(upload.on_event(UploadEvent::Reply(0)).unwrap_err(), UploadError::NotReceiving);
    assert_eq!(upload.on_event(UploadEvent::WouldBlock).unwrap_err(), UploadError::NotReceiving);
}

#[test]
fn image_with_too_many_chunks_is_refused() {
    assert!(FirmwareUpload::new(vec![0; 65535 * 288]).is_ok());
    assert_eq!(
        FirmwareUpload::new(vec![0; 65535 * 288 + 1]).err().unwrap(),
        UploadError::TooLarge
    );
}
