use openprot::loopback::{PacketBuffer, MAX_BUFFERED_PACKETS, MAX_PACKET_SIZE};

#[test]
fn test_packet_buffer() {
    let mut buffer = PacketBuffer::new();
    assert_eq!(buffer.len(), 0);
    assert!(buffer.is_empty());

    // Add packets
    buffer.push(b"packet1").unwrap();
    buffer.push(b"packet2").unwrap();
    assert_eq!(buffer.len(), 2);
    assert!(!buffer.is_empty());

    // Iterate
    let mut count = 0;
    let mut iter = buffer.iter();

    let pkt0 = iter.next().unwrap();
    assert_eq!(pkt0, b"packet1");
    count += 1;

    let pkt1 = iter.next().unwrap();
    assert_eq!(pkt1, b"packet2");
    count += 1;

    assert!(iter.next().is_none());
    assert_eq!(count, 2);

    // Clear
    buffer.clear();
    assert_eq!(buffer.len(), 0);
    assert!(buffer.is_empty());
}

#[test]
fn a_full_buffer_refuses_more_packets() {
    let mut buffer = PacketBuffer::default();
    for i in 0..MAX_BUFFERED_PACKETS {
        buffer.push(&[i as u8 + 1]).unwrap();
    }
    assert_eq!(buffer.push(b"one too many"), Err(()));
    assert_eq!(buffer.len(), MAX_BUFFERED_PACKETS);
    let mut iter = buffer.iter();
    for i in 0..MAX_BUFFERED_PACKETS {
        assert_eq!(iter.next().unwrap(), &[i as u8 + 1]);
    }
    assert!(iter.next().is_none());
}

#[test]
fn an_oversized_packet_is_refused() {
    let mut buffer = PacketBuffer::new();
    assert_eq!(buffer.push(&[0u8; MAX_PACKET_SIZE + 1]), Err(()));
    assert!(buffer.is_empty());
    assert_eq!(buffer.push(&[7u8; MAX_PACKET_SIZE]), Ok(()));
    assert_eq!(buffer.iter().next().unwrap().len(), MAX_PACKET_SIZE);
}

#[test]
fn an_empty_packet_is_buffered_like_any_other() {
    let mut buffer = PacketBuffer::new();
    assert_eq!(buffer.push(b""), Ok(()));
    buffer.push(b"x").unwrap();
    assert_eq!(buffer.len(), 2);
    let mut iter = buffer.iter();
    assert_eq!(iter.next().unwrap(), b"");
    assert_eq!(iter.next().unwrap(), b"x");
    assert!(iter.next().is_none());
}

#[test]
fn clearing_frees_every_slot() {
    let mut buffer = PacketBuffer::new();
    for _ in 0..MAX_BUFFERED_PACKETS {
        buffer.push(b"p").unwrap();
    }
    buffer.clear();
    assert!(buffer.iter().next().is_none());
    buffer.push(b"again").unwrap();
    assert_eq!(buffer.iter().next().unwrap(), b"again");
}
