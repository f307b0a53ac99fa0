use triple_osc::blocks::{BlockSplitter, EventAction, MAX_BLOCK_SIZE};

fn blocks_without_events(n: usize) -> Vec<(usize, usize)> {
    let mut b = BlockSplitter::new(n);
    let mut out = Vec::new();
    while b.has_block() {
        out.push((b.block_start(), b.block_end()));
        b.next_block();
    }
    out
}

#[test]
fn empty_buffer_has_no_block() {
    assert!(blocks_without_events(0).is_empty());
}

#[test]
fn blocks_tile_the_buffer() {
    assert_eq!(blocks_without_events(150), vec![(0, 64), (64, 128), (128, 150)]);
    assert_eq!(blocks_without_events(64), vec![(0, 64)]);
    assert_eq!(blocks_without_events(10), vec![(0, 10)]);
    assert_eq!(MAX_BLOCK_SIZE, 64);
}

#[test]
fn events_cut_blocks() {
    let mut b = BlockSplitter::new(100);
    assert_eq!(b.on_event(0), EventAction::Handle);
    assert_eq!(b.on_event(30), EventAction::CutBlock);
    assert_eq!((b.block_start(), b.block_end()), (0, 30));
    assert_eq!(b.on_event(30), EventAction::Wait);
    b.next_block();
    assert_eq!((b.block_start(), b.block_end()), (30, 94));
    assert_eq!(b.on_event(30), EventAction::Handle);
    assert_eq!(b.on_event(12), EventAction::Handle);
    assert_eq!(b.on_event(200), EventAction::Wait);
    b.next_block();
    assert_eq!((b.block_start(), b.block_end()), (94, 100));
    b.next_block();
    assert!(!b.has_block());
}
