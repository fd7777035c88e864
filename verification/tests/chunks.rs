use megadown::chunks::{
    build_chunk_queue, checked_completed_bytes, choose_manifest, completed_bytes, mega_mac_chunks,
    Chunk, ManifestState, ResumeManifest,
};
use std::collections::BTreeSet;

fn set(starts: &[u64]) -> BTreeSet<u64> {
    starts.iter().copied().collect()
}

fn queue(total: u64, size: u64, completed: &[u64]) -> Vec<(u64, u64)> {
    build_chunk_queue(total, size, &set(completed))
        .iter()
        .map(|chunk| (chunk.start, chunk.end))
        .collect()
}

fn manifest(completed: &[u64]) -> ResumeManifest {
    ResumeManifest {
        manifest_id: "file:id:key".to_string(),
        file_name: "name".to_string(),
        total_bytes: 100,
        chunk_size: 16,
        completed: set(completed),
    }
}

#[test]
fn queue_holds_every_missing_chunk() {
    assert_eq!(queue(100, 40, &[]), vec![(0, 39), (40, 79), (80, 99)]);
    assert_eq!(queue(80, 40, &[]), vec![(0, 39), (40, 79)]);
    assert_eq!(queue(100, 40, &[40]), vec![(0, 39), (80, 99)]);
    assert_eq!(queue(100, 40, &[0, 40, 80]), vec![]);
    assert_eq!(queue(0, 40, &[]), vec![]);
    assert_eq!(queue(0, 0, &[]), vec![]);
    assert_eq!(queue(1, 40, &[]), vec![(0, 0)]);
    assert_eq!(
        queue(u64::MAX, 1 << 63, &[]),
        vec![(0, (1 << 63) - 1), (1 << 63, u64::MAX - 1)]
    );
}

#[test]
fn chunk_length_counts_both_ends() {
    assert_eq!(Chunk { start: 5, end: 5 }.len(), 1);
    assert_eq!(Chunk { start: 0, end: 39 }.len(), 40);
}

#[test]
fn completed_bytes_are_added_up() {
    assert_eq!(completed_bytes(&set(&[]), 100, 40), 0);
    assert_eq!(completed_bytes(&set(&[0, 80]), 100, 40), 60);
    assert_eq!(completed_bytes(&set(&[80, 120, 100]), 100, 40), 20);
    assert_eq!(checked_completed_bytes(&set(&[0, 1]), u64::MAX, u64::MAX), None);
    assert_eq!(checked_completed_bytes(&set(&[0]), u64::MAX, u64::MAX), Some(u64::MAX));
}

#[test]
fn finished_and_missing_bytes_add_up_to_the_file() {
    for done in [&[][..], &[0][..], &[32, 96][..], &[0, 16, 32, 48, 64, 80, 96][..]] {
        let completed = set(done);
        let missing: u64 =
            build_chunk_queue(100, 16, &completed).iter().map(|chunk| chunk.len()).sum();
        assert_eq!(completed_bytes(&completed, 100, 16) + missing, 100);
    }
}

#[test]
fn every_byte_is_in_one_chunk() {
    let chunks = build_chunk_queue(100, 16, &set(&[]));
    for byte in 0..100u64 {
        let holding = chunks.iter().filter(|chunk| chunk.start <= byte && byte <= chunk.end);
        assert_eq!(holding.count(), 1);
    }
    assert!(chunks.iter().all(|chunk| chunk.start % 16 == 0));
}

#[test]
fn mac_pieces_grow_to_one_mebibyte() {
    assert_eq!(mega_mac_chunks(0), vec![]);
    assert_eq!(mega_mac_chunks(1), vec![(0, 1)]);
    assert_eq!(mega_mac_chunks(0x20000), vec![(0, 0x20000)]);
    assert_eq!(mega_mac_chunks(0x20001), vec![(0, 0x20000), (0x20000, 1)]);
    let size = 8 * 1024 * 1024;
    let pieces = mega_mac_chunks(size);
    assert_eq!(pieces[7], (0x20000 * 28, 0x100000));
    assert_eq!(pieces[8], (0x20000 * 36, 0x100000));
    assert_eq!(pieces[11], (0x20000 * 60, 0x80000));
    assert_eq!(pieces.len(), 12);
    for pair in pieces.windows(2) {
        assert_eq!(pair[0].0 + pair[0].1, pair[1].0);
    }
    assert_eq!(pieces[11].0 + pieces[11].1, size);
}

#[test]
fn manifest_is_saved_every_eight_chunks() {
    let mut state = ManifestState::new(manifest(&[]), 1_000);
    for chunk in 0..7u64 {
        assert!(state.mark_completed(chunk * 16, 1_000).is_none());
    }
    let saved = state.mark_completed(112, 1_000).expect("the eighth chunk saves");
    assert_eq!(saved.completed.len(), 8);
    assert_eq!(state.dirty_chunks, 0);
    assert!(state.mark_completed(128, 1_000).is_none());
}

#[test]
fn manifest_is_saved_after_some_time() {
    let mut state = ManifestState::new(manifest(&[]), 1_000);
    assert!(state.mark_completed(0, 2_499).is_none());
    assert!(state.mark_completed(16, 2_500).is_some());
    assert!(state.mark_completed(32, 3_999).is_none());
    assert!(state.mark_completed(48, 900).is_none());
    assert_eq!(state.snapshot().completed, set(&[0, 16, 32, 48]));
}

#[test]
fn a_chunk_is_marked_once() {
    let mut state = ManifestState::new(manifest(&[16]), 0);
    assert!(state.mark_completed(16, 9_000).is_none());
    assert_eq!(state.dirty_chunks, 0);
    assert_eq!(state.last_saved_at, 0);
}

#[test]
fn saved_progress_is_resumed_if_it_fits() {
    let resumed = choose_manifest(Some(manifest(&[16])), "file:id:key".to_string(), "n", 100, 16);
    assert_eq!(resumed.completed, set(&[16]));
    assert_eq!(resumed.file_name, "name");
    for (id, total, size) in [("other", 100, 16), ("file:id:key", 101, 16), ("file:id:key", 100, 32)] {
        let fresh = choose_manifest(Some(manifest(&[16])), id.to_string(), "n", total, size);
        assert!(fresh.completed.is_empty());
        assert_eq!(fresh.manifest_id, id);
        assert_eq!(fresh.file_name, "n");
        assert_eq!((fresh.total_bytes, fresh.chunk_size), (total, size));
    }
}

#[test]
fn resumed_queue_skips_what_was_marked() {
    let mut state = ManifestState::new(manifest(&[]), 0);
    state.mark_completed(32, 0);
    let left = build_chunk_queue(100, 16, &state.snapshot().completed);
    assert!(left.iter().all(|chunk| chunk.start != 32));
    assert_eq!(left.len(), 6);
}
