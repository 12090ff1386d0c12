use glide_core::codec::MAX_FRAME_LENGTH;
use glide_core::errors::ProtocolError;
use glide_core::rotating_buffer::RotatingBuffer;

fn frame(payload: &[u8]) -> Vec<u8> {
    let mut out = (payload.len() as u32).to_le_bytes().to_vec();
    out.extend_from_slice(payload);
    out
}

#[test]
fn empty_buffer_has_no_frame() {
    let mut buffer = RotatingBuffer::new();
    assert_eq!(buffer.next_frame(), Ok(None));
}

#[test]
fn frame_split_across_three_reads() {
    let payload = b"hello frame".to_vec();
    let bytes = frame(&payload);
    let mut buffer = RotatingBuffer::new();
    buffer.feed(&bytes[0..2].to_vec());
    assert_eq!(buffer.next_frame(), Ok(None));
    buffer.feed(&bytes[2..7].to_vec());
    assert_eq!(buffer.next_frame(), Ok(None));
    buffer.feed(&bytes[7..].to_vec());
    assert_eq!(buffer.next_frame(), Ok(Some(payload)));
    assert_eq!(buffer.next_frame(), Ok(None));
}

#[test]
fn frames_cross_read_boundaries_without_loss_or_duplication() {
    let payloads: Vec<Vec<u8>> = vec![
        b"first".to_vec(),
        vec![],
        b"third frame, somewhat longer".to_vec(),
        vec![0, 255, 7],
    ];
    let mut stream: Vec<u8> = Vec::new();
    for p in &payloads {
        stream.extend_from_slice(&frame(p));
    }
    // feed in chunks that align with no frame boundary
    let mut buffer = RotatingBuffer::new();
    let mut collected: Vec<Vec<u8>> = Vec::new();
    let mut pos = 0usize;
    let chunks = [3usize, 1, 9, 2, 11, 6, stream.len()];
    for chunk in chunks {
        let end = (pos + chunk).min(stream.len());
        buffer.feed(&stream[pos..end].to_vec());
        pos = end;
        while let Ok(Some(p)) = buffer.next_frame() {
            collected.push(p);
        }
    }
    assert_eq!(collected, payloads);
    assert_eq!(buffer.next_frame(), Ok(None));
}

#[test]
fn drain_yields_all_complete_frames_in_order() {
    let mut stream = frame(b"one");
    stream.extend_from_slice(&frame(b"two"));
    stream.extend_from_slice(&frame(b"three")[..5]);
    let mut buffer = RotatingBuffer::new();
    buffer.feed(&stream);
    let frames = buffer.drain_frames().unwrap();
    assert_eq!(frames, vec![b"one".to_vec(), b"two".to_vec()]);
    // the partial tail is retained for the next read
    buffer.feed(&frame(b"three")[5..].to_vec());
    assert_eq!(buffer.next_frame(), Ok(Some(b"three".to_vec())));
}

#[test]
fn oversized_frame_is_fatal() {
    let mut buffer = RotatingBuffer::new();
    let declared = (MAX_FRAME_LENGTH + 1).to_le_bytes().to_vec();
    buffer.feed(&declared);
    assert_eq!(buffer.next_frame(), Err(ProtocolError::FrameTooLarge));
}
