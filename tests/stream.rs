use boosterpack::stream::{
    count_command, get_num_images, tile_command, to_u16, to_u16_msb, to_u8, Action,
    ImageContainer, LinkError, StreamError, TileFormat, TileLoader, BUF_SIZE, READY,
    SQUARE_HEIGHT, SQUARE_WIDTH,
};

fn expect_exchange(a: &Action) -> (Vec<u8>, usize) {
    match a {
        Action::Exchange { send, receive } => (send.clone(), *receive),
        other => panic!("expected an exchange, got {:?}", other),
    }
}

/// A payload whose bytes all differ from their neighbours.
fn payload(len: usize, seed: u8) -> Vec<u8> {
    (0..len).map(|i| (i as u8).wrapping_mul(7).wrapping_add(seed)).collect()
}

/// Plays a peer that answers with `origin` and `data`, pulling chunks the
/// way the loader asks; returns every action the loader produced.
fn run_request(loader: &mut TileLoader, index: u16, origin: [u8; 2], data: &[u8]) -> Vec<Action> {
    let mut actions = Vec::new();
    let mut action = loader.begin(index);
    let mut sent = 0usize;
    let mut first = true;
    loop {
        let next = match &action {
            Action::Exchange { receive, .. } => {
                if first {
                    first = false;
                    loader.on_bytes(&origin)
                } else {
                    let chunk = data[sent..sent + *receive].to_vec();
                    sent += *receive;
                    loader.on_bytes(&chunk)
                }
            }
            Action::Draw { .. } => loader.on_drawn(true),
            Action::Finish(_) => {
                actions.push(action);
                return actions;
            }
        };
        actions.push(action);
        action = next;
    }
}

#[test]
fn index_round_trip() {
    for i in [0u16, 1, 3, 0x00FF, 0x0100, 0x1234, 0xFFFE, 0xFFFF] {
        let b = to_u8(i);
        assert_eq!(to_u16(&b), i);
    }
    assert_eq!(to_u8(0x1234), [0x34, 0x12]);
    assert_eq!(to_u16(&[0x34, 0x12]), 0x1234);
    assert_eq!(to_u16_msb(&[0x12, 0x34]), 0x1234);
}

#[test]
fn tile_request_frame() {
    assert_eq!(tile_command(0x0003), [0xFF, 0x02, 0x03, 0x00]);
    assert_eq!(tile_command(0x1234), [0xFF, 0x02, 0x34, 0x12]);
    let mut loader = TileLoader::new(TileFormat { width: 8, height: 8, chunk: 32 });
    let (send, receive) = expect_exchange(&loader.begin(0x0003));
    assert_eq!(send, vec![0xFF, 0x02, 0x03, 0x00]);
    assert_eq!(receive, 2);
}

#[test]
fn count_query() {
    assert_eq!(count_command(), [0xFF, 0x01]);
    assert_eq!(get_num_images(Ok([0x05, 0x00])), Ok(5));
    assert_eq!(get_num_images(Ok([0x34, 0x12])), Ok(0x1234));
    assert_eq!(
        get_num_images(Err(LinkError::Parity)),
        Err(StreamError::TransferAborted)
    );
}

#[test]
fn scripted_tile_lands_at_its_origin() {
    let format = TileFormat { width: 8, height: 8, chunk: 32 };
    let mut loader = TileLoader::new(format);
    let data = payload(128, 3);
    let actions = run_request(&mut loader, 7, [5, 10], &data);
    // command, four ready-gated chunks, draw, finish
    assert_eq!(actions.len(), 7);
    for a in &actions[1..5] {
        assert_eq!(expect_exchange(a), (vec![READY], 32));
    }
    assert!(matches!(
        actions[5],
        Action::Draw { left: 5, top: 10, right: 12, bottom: 17 }
    ));
    assert!(matches!(
        actions[6],
        Action::Finish(Ok(ImageContainer { x: 5, y: 10 }))
    ));
    let pixels = loader.pixels();
    assert_eq!(pixels.len(), 64);
    for r in 0..8 {
        for c in 0..8 {
            let i = 2 * (r * 8 + c);
            assert_eq!(pixels[r * 8 + c], u16::from_le_bytes([data[i], data[i + 1]]));
        }
    }
}

#[test]
fn last_chunk_is_shorter() {
    let format = TileFormat { width: 8, height: 8, chunk: 48 };
    let mut loader = TileLoader::new(format);
    let data = payload(128, 1);
    let actions = run_request(&mut loader, 1, [0, 0], &data);
    let sizes: Vec<usize> = actions[1..4].iter().map(|a| expect_exchange(a).1).collect();
    assert_eq!(sizes, vec![48, 48, 32]);
    assert!(matches!(actions[4], Action::Draw { left: 0, top: 0, right: 7, bottom: 7 }));
    assert_eq!(loader.pixels()[63], u16::from_le_bytes([data[126], data[127]]));
}

#[test]
fn link_error_mid_transfer_aborts_without_drawing() {
    let format = TileFormat { width: 8, height: 8, chunk: 32 };
    let mut loader = TileLoader::new(format);
    let data = payload(128, 9);
    let a = loader.begin(2);
    assert_eq!(expect_exchange(&a).1, 2);
    let a = loader.on_bytes(&[1, 2]);
    assert_eq!(expect_exchange(&a), (vec![READY], 32));
    let a = loader.on_bytes(&data[0..32]);
    assert_eq!(expect_exchange(&a), (vec![READY], 32));
    let a = loader.on_bytes(&data[32..64]);
    assert_eq!(expect_exchange(&a), (vec![READY], 32));
    // the third of four chunks fails
    let a = loader.on_link_error(LinkError::Framing);
    assert!(matches!(a, Action::Finish(Err(StreamError::TransferAborted))));
}

#[test]
fn link_error_on_origin_aborts() {
    let mut loader = TileLoader::new(TileFormat { width: 2, height: 2, chunk: 8 });
    loader.begin(0);
    let a = loader.on_link_error(LinkError::Overrun);
    assert!(matches!(a, Action::Finish(Err(StreamError::TransferAborted))));
}

#[test]
fn short_reply_aborts() {
    let mut loader = TileLoader::new(TileFormat { width: 2, height: 2, chunk: 8 });
    loader.begin(0);
    let a = loader.on_bytes(&[1]);
    assert!(matches!(a, Action::Finish(Err(StreamError::TransferAborted))));
    loader.begin(0);
    loader.on_bytes(&[1, 1]);
    let a = loader.on_bytes(&[0, 1, 2]);
    assert!(matches!(a, Action::Finish(Err(StreamError::TransferAborted))));
}

#[test]
fn refused_draw_is_reported() {
    let mut loader = TileLoader::new(TileFormat { width: 2, height: 1, chunk: 4 });
    loader.begin(9);
    loader.on_bytes(&[3, 4]);
    let a = loader.on_bytes(&[0x34, 0x12, 0xCD, 0xAB]);
    assert!(matches!(a, Action::Draw { left: 3, top: 4, right: 4, bottom: 4 }));
    assert_eq!(loader.pixels(), &[0x1234, 0xABCD]);
    let a = loader.on_drawn(false);
    assert!(matches!(a, Action::Finish(Err(StreamError::DisplayWriteError))));
}

#[test]
fn same_request_twice_gives_same_pixels() {
    let format = TileFormat { width: 8, height: 8, chunk: 32 };
    let data = payload(128, 5);
    let mut loader = TileLoader::new(format);
    run_request(&mut loader, 4, [1, 1], &data);
    let first = loader.pixels().to_vec();
    // a different tile in between leaves other contents in the buffer
    run_request(&mut loader, 5, [2, 2], &payload(128, 77));
    assert_ne!(loader.pixels(), &first[..]);
    run_request(&mut loader, 4, [1, 1], &data);
    assert_eq!(loader.pixels(), &first[..]);
    let mut fresh = TileLoader::new(format);
    run_request(&mut fresh, 4, [1, 1], &data);
    assert_eq!(fresh.pixels(), &first[..]);
}

#[test]
fn standard_format() {
    let f = TileFormat::standard();
    assert_eq!(f.width as usize, SQUARE_WIDTH);
    assert_eq!(f.height as usize, SQUARE_HEIGHT);
    assert_eq!(f.chunk, BUF_SIZE);
    let mut loader = TileLoader::new(f);
    loader.begin(0);
    let a = loader.on_bytes(&[0, 0]);
    assert_eq!(expect_exchange(&a), (vec![READY], 1024));
    assert_eq!(loader.pixels().len(), 128 * 128);
}
