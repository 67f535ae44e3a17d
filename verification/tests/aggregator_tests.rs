use image_dedup::aggregator::{Aggregator, Message};
use image_dedup::phash::{PHash, HASH_BYTES};
use image_dedup::record::{ErrorKind, Failure, Image, Pixels};

fn image(path: &str, bits: Vec<u8>) -> Image {
    assert_eq!(bits.len(), HASH_BYTES);
    Image {
        path: path.to_string(),
        hash: PHash::from_bytes(bits),
        pixels: Pixels { width: 1, height: 1, data: vec![0; 4] },
    }
}

fn zero_hash() -> Vec<u8> {
    vec![0x00; HASH_BYTES]
}

/// A hash at Hamming distance 10 from the zero hash.
fn ten_bits() -> Vec<u8> {
    let mut bits = zero_hash();
    bits[0] = 0xFF;
    bits[1] = 0x03;
    bits
}

/// A hash at Hamming distance 40 from both the zero hash and `ten_bits`.
fn forty_bits() -> Vec<u8> {
    let mut bits = zero_hash();
    bits[0] = 0xE0;
    bits[1] = 0xFF;
    bits[2] = 0xFF;
    bits[3] = 0xFF;
    bits[4] = 0xFF;
    bits[5] = 0x1F;
    bits
}

#[test]
fn fresh_aggregator_is_empty() {
    let agg = Aggregator::new(40);
    assert!(agg.picked_path.is_none());
    assert!(agg.images.is_empty());
    assert!(agg.similar_images.is_empty());
    assert!(agg.errors.is_empty());
    assert_eq!(agg.found_paths, None);
    assert_eq!(agg.analyzed_bytes, 0);
    assert_eq!(agg.similarity_threshold, 40);
    assert_eq!(agg.generation, 0);
}

#[test]
fn threshold_splits_pairs() {
    // Three records: distances d(0,1) = 10, d(0,2) = 40, d(1,2) = 40.
    // With threshold 25 only (1, 0) is similar.
    let mut agg = Aggregator::new(25);
    agg.accept(image("a", zero_hash()), 0);
    agg.accept(image("b", ten_bits()), 0);
    agg.accept(image("c", forty_bits()), 0);
    assert_eq!(agg.similar_images, vec![(1, 0)]);
}

#[test]
fn removing_one_member_drops_the_pair() {
    // Accept A (id 0) and a similar B (id 1), then remove id 0: the pair
    // set empties, the total drops by one, id 1 stays queryable.
    let mut agg = Aggregator::new(40);
    agg.accept(image("a", zero_hash()), 0);
    agg.accept(image("b", zero_hash()), 0);
    agg.set_total(2);
    assert_eq!(agg.similar_images, vec![(1, 0)]);
    agg.remove(0);
    assert!(agg.similar_images.is_empty());
    assert_eq!(agg.found_paths, Some(1));
    assert!(agg.images[0].is_none());
    assert!(agg.images[1].is_some());
    assert_eq!(agg.images[1].as_ref().unwrap().path, "b");
}

#[test]
fn removal_keeps_unrelated_pairs() {
    // Three mutually similar records give pairs (1,0), (2,0), (2,1).
    // Removing id 1 keeps exactly (2,0).
    let mut agg = Aggregator::new(1);
    agg.accept(image("a", zero_hash()), 0);
    agg.accept(image("b", zero_hash()), 0);
    agg.accept(image("c", zero_hash()), 0);
    assert_eq!(agg.similar_images, vec![(1, 0), (2, 0), (2, 1)]);
    agg.remove(1);
    assert_eq!(agg.similar_images, vec![(2, 0)]);
    for p in &agg.similar_images {
        assert!(p.0 != 1 && p.1 != 1);
    }
}

#[test]
fn removal_is_idempotent() {
    let mut agg = Aggregator::new(40);
    agg.accept(image("a", zero_hash()), 10);
    agg.accept(image("b", zero_hash()), 10);
    agg.set_total(2);
    agg.remove(0);
    let images_once: Vec<bool> = agg.images.iter().map(|s| s.is_some()).collect();
    let pairs_once = agg.similar_images.clone();
    let errors_once = agg.errors.len();
    let total_once = agg.found_paths;
    let bytes_once = agg.analyzed_bytes;
    agg.remove(0);
    let images_twice: Vec<bool> = agg.images.iter().map(|s| s.is_some()).collect();
    assert_eq!(images_once, images_twice);
    assert_eq!(pairs_once, agg.similar_images);
    assert_eq!(errors_once, agg.errors.len());
    assert_eq!(total_once, agg.found_paths);
    assert_eq!(bytes_once, agg.analyzed_bytes);
}

#[test]
fn processed_tracks_the_total() {
    let mut agg = Aggregator::new(40);
    agg.prep_for_analyze("root".to_string());
    let generation = agg.generation;
    let processed = |agg: &Aggregator| {
        agg.images.iter().filter(|s| s.is_some()).count() + agg.errors.len()
    };
    agg.handle_message(Message::AddImage {
        generation,
        byte_count: 100,
        result: Ok(image("a", zero_hash())),
    });
    agg.handle_message(Message::AddImage {
        generation,
        byte_count: 50,
        result: Err(Failure { path: "bad".to_string(), kind: ErrorKind::Io("unreadable".to_string()) }),
    });
    agg.handle_message(Message::WalkDirFinished { generation, total: 2 });
    // All workers have finished: processed equals the reported total.
    assert_eq!(agg.found_paths, Some(2));
    assert_eq!(processed(&agg), 2);
    assert_eq!(agg.analyzed_bytes, 150);
    // A removal lowers both sides together.
    agg.handle_message(Message::RemoveImage { generation, id: 0 });
    assert_eq!(agg.found_paths, Some(1));
    assert_eq!(processed(&agg), 1);
}

#[test]
fn stale_messages_are_discarded() {
    let mut agg = Aggregator::new(40);
    agg.prep_for_analyze("first".to_string());
    let old_generation = agg.generation;
    agg.prep_for_analyze("second".to_string());
    assert_ne!(agg.generation, old_generation);
    agg.handle_message(Message::AddImage {
        generation: old_generation,
        byte_count: 100,
        result: Ok(image("late", zero_hash())),
    });
    agg.handle_message(Message::WalkDirFinished { generation: old_generation, total: 7 });
    agg.handle_message(Message::RemoveImage { generation: old_generation, id: 3 });
    assert!(agg.images.is_empty());
    assert_eq!(agg.found_paths, None);
    assert_eq!(agg.analyzed_bytes, 0);
}

#[test]
fn new_run_resets_state() {
    let mut agg = Aggregator::new(40);
    agg.accept(image("a", zero_hash()), 10);
    agg.accept(image("b", zero_hash()), 10);
    agg.set_total(2);
    agg.prep_for_analyze("root".to_string());
    assert_eq!(agg.picked_path.as_deref(), Some("root"));
    assert!(agg.images.is_empty());
    assert!(agg.similar_images.is_empty());
    assert!(agg.errors.is_empty());
    assert_eq!(agg.found_paths, None);
    assert_eq!(agg.analyzed_bytes, 0);
    assert_eq!(agg.generation, 1);
    assert_eq!(agg.similarity_threshold, 40);
}

#[test]
fn rejected_files_do_not_get_ids() {
    let mut agg = Aggregator::new(40);
    agg.accept(image("a", zero_hash()), 10);
    agg.reject(
        Failure { path: "bad".to_string(), kind: ErrorKind::Decode("truncated".to_string()) },
        20,
    );
    agg.accept(image("b", zero_hash()), 10);
    // The failure occupies no arena slot: ids 0 and 1 are the two images.
    assert_eq!(agg.images.len(), 2);
    assert_eq!(agg.errors.len(), 1);
    assert_eq!(agg.errors[0].path, "bad");
    assert!(matches!(agg.errors[0].kind, ErrorKind::Decode(_)));
    assert_eq!(agg.similar_images, vec![(1, 0)]);
}

#[test]
fn pair_set_is_order_independent() {
    // The same three hashes in two arrival orders: the pair sets agree up
    // to the id relabeling (0,1,2) -> (2,1,0).
    let mut one = Aggregator::new(25);
    one.accept(image("a", zero_hash()), 0);
    one.accept(image("b", ten_bits()), 0);
    one.accept(image("c", forty_bits()), 0);
    let mut other = Aggregator::new(25);
    other.accept(image("c", forty_bits()), 0);
    other.accept(image("b", ten_bits()), 0);
    other.accept(image("a", zero_hash()), 0);
    let relabel = |id: usize| 2 - id;
    let normalize = |pairs: &Vec<(usize, usize)>, map: &dyn Fn(usize) -> usize| {
        let mut set: Vec<(usize, usize)> = pairs
            .iter()
            .map(|&(a, b)| {
                let (x, y) = (map(a), map(b));
                if x < y { (x, y) } else { (y, x) }
            })
            .collect();
        set.sort();
        set
    };
    assert_eq!(
        normalize(&one.similar_images, &relabel),
        normalize(&other.similar_images, &|id| id),
    );
}
