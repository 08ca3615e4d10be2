use screencast::client::DELIVERY_CAPACITY;
use screencast::codec::decode_record;
use screencast::codec::frame_record;
use screencast::screen::Frame;
use screencast::server::ClientRegistry;
use tokio::io::AsyncReadExt;
use tokio::io::AsyncWriteExt;

fn red_frame(width: u32, height: u32) -> Frame {
    let mut data = Vec::new();
    for _ in 0..(width as usize * height as usize) {
        data.extend_from_slice(&[255, 0, 0, 255]);
    }
    Frame { data, width, height }
}

#[test]
fn broadcast_reaches_every_live_client_and_prunes_the_dead_one() {
    let runtime = tokio::runtime::Runtime::new().unwrap();
    runtime.block_on(async {
        let mut registry = ClientRegistry::new();
        let mut write_handles = Vec::new();
        let mut read_handles = Vec::new();
        let mut ids = Vec::new();
        for _ in 0..3 {
            let (server_side, client_side) = tokio::io::duplex(1 << 16);
            ids.push(registry.register());
            write_handles.push(server_side);
            read_handles.push(Some(client_side));
        }
        assert_eq!(registry.len(), 3);

        // Client 2's connection is gone before the broadcast.
        drop(read_handles[1].take());

        let frame = red_frame(8, 8);
        let record = frame_record(&frame);
        let mut delivered = Vec::new();
        for handle in write_handles.iter_mut() {
            delivered.push(handle.write_all(&record).await.is_ok());
        }
        assert_eq!(delivered, vec![true, false, true]);

        // The failed client is removed; no error reaches the broadcaster.
        registry.retain_delivered(&delivered);
        assert_eq!(registry.len(), 2);
        assert_eq!(registry.id_at(0), ids[0]);
        assert_eq!(registry.id_at(1), ids[2]);

        // Clients 1 and 3 both receive the identical frame.
        for i in [0usize, 2] {
            let mut buf = vec![0u8; record.len()];
            read_handles[i].as_mut().unwrap().read_exact(&mut buf).await.unwrap();
            let (decoded, used) = decode_record(&buf).unwrap();
            assert_eq!(used, record.len());
            assert_eq!(decoded.width, 8);
            assert_eq!(decoded.height, 8);
            assert_eq!(decoded.data, frame.data);
        }
    });
}

#[test]
fn delivery_channel_blocks_at_its_capacity_until_drained() {
    // The read loop forwards frames through a channel of capacity 10: the
    // eleventh undelivered frame must wait, not drop and not error.
    let runtime = tokio::runtime::Runtime::new().unwrap();
    runtime.block_on(async {
        let (tx, mut rx) = tokio::sync::mpsc::channel(DELIVERY_CAPACITY);
        for i in 0..DELIVERY_CAPACITY {
            tx.try_send(Some(red_frame(1, 1))).unwrap_or_else(|_| {
                panic!("send {} of {} must be accepted", i + 1, DELIVERY_CAPACITY)
            });
        }
        // The channel is full: one more send has to suspend.
        assert!(tx.try_send(Some(red_frame(1, 1))).is_err());

        // Draining a single entry lets the waiting send proceed.
        let drained = rx.recv().await.unwrap();
        assert!(drained.is_some());
        assert!(tx.try_send(Some(red_frame(1, 1))).is_ok());
    });
}
