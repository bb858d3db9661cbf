use macroquad::batch::{build_textures_atlas, Batcher, SpriteBatcher};

#[test]
fn sprites_are_grouped_by_texture_in_order() {
    let mut b: SpriteBatcher<&str, u32> = SpriteBatcher::new();
    b.add_sprite(7, "seven", 1);
    b.add_sprite(9, "nine", 2);
    b.add_sprite(7, "seven-again", 3);
    b.add_sprite(7, "seven", 4);
    let mut batches = b.flush();
    batches.sort_by_key(|x| x.key);
    assert_eq!(batches.len(), 2);
    assert_eq!(batches[0].key, 7);
    assert_eq!(batches[0].texture, "seven");
    assert_eq!(batches[0].sprites, vec![1, 3, 4]);
    assert_eq!(batches[1].key, 9);
    assert_eq!(batches[1].texture, "nine");
    assert_eq!(batches[1].sprites, vec![2]);
}

#[test]
fn flush_empties_the_batcher() {
    let mut b: SpriteBatcher<u8, u8> = SpriteBatcher::new();
    b.add_sprite(1, 0, 0);
    assert_eq!(b.flush().len(), 1);
    assert!(b.flush().is_empty());
}

#[test]
fn flush_of_new_batcher_is_empty() {
    let mut b: SpriteBatcher<u8, u8> = SpriteBatcher::new();
    assert!(b.flush().is_empty());
}

#[test]
fn quad_indices_for_two_sprites() {
    let mut b: SpriteBatcher<u8, u8> = SpriteBatcher::new();
    b.add_sprite(3, 0, 10);
    b.add_sprite(3, 0, 11);
    let batches = b.flush();
    assert_eq!(batches[0].indices, vec![0, 1, 2, 0, 2, 3, 4, 5, 6, 4, 6, 7]);
}

#[test]
fn quad_indices_wrap_at_16_bits() {
    let mut b: SpriteBatcher<u8, u32> = SpriteBatcher::new();
    for i in 0..16385u32 {
        b.add_sprite(0, 0, i);
    }
    let batches = b.flush();
    let idx = &batches[0].indices;
    assert_eq!(idx.len(), 16385 * 6);
    assert_eq!(&idx[16383 * 6..16384 * 6], &[65532, 65533, 65534, 65532, 65534, 65535]);
    assert_eq!(&idx[16384 * 6..], &[0, 1, 2, 0, 2, 3]);
}

#[test]
fn batcher_records_placements() {
    let mut b: Batcher<u32, (), (i32, i32)> = Batcher::new(());
    b.add_unbatched(11);
    b.add_unbatched(12);
    assert_eq!(b.queued(), &vec![11, 12]);
    assert_eq!(b.get(11), None);
    build_textures_atlas(&mut b, vec![(11, (0, 0)), (12, (5, 0))]);
    assert!(b.queued().is_empty());
    assert_eq!(b.get(11), Some((0, 0)));
    assert_eq!(b.get(12), Some((5, 0)));
    assert_eq!(b.get(13), None);
}

#[test]
fn later_placement_of_a_texture_wins() {
    let mut b: Batcher<u32, (), u8> = Batcher::new(());
    build_textures_atlas(&mut b, vec![(1, 10), (2, 20), (1, 30)]);
    assert_eq!(b.get(1), Some(30));
    assert_eq!(b.get(2), Some(20));
}

#[test]
fn atlas_is_kept() {
    let mut b: Batcher<u8, &str, u8> = Batcher::new("atlas");
    b.add_unbatched(1);
    build_textures_atlas(&mut b, vec![]);
    assert_eq!(b.atlas, "atlas");
}

#[test]
fn packing_an_empty_queue_changes_nothing() {
    let mut b: Batcher<u32, (), u8> = Batcher::new(());
    b.add_unbatched(4);
    build_textures_atlas(&mut b, vec![(4, 9)]);
    build_textures_atlas(&mut b, vec![]);
    assert!(b.queued().is_empty());
    assert_eq!(b.get(4), Some(9));
}
