use category_nn::augment::cutout;
use category_nn::dataset::DataSet;
use category_nn::idx::{
    is_valid_image_file, is_valid_label_file, parse_image_file, parse_label_file, read_u32_be,
    IMAGE_MAGIC, LABEL_MAGIC,
};
use category_nn::pairs::{PairAction, PairSampler};

fn word(n: u32) -> [u8; 4] {
    n.to_be_bytes()
}

fn label_file(labels: &[u8]) -> Vec<u8> {
    let mut out = Vec::new();
    out.extend(word(LABEL_MAGIC));
    out.extend(word(labels.len() as u32));
    out.extend(labels);
    out
}

fn image_file(n: u32, rows: u32, cols: u32, pixels: &[u8]) -> Vec<u8> {
    let mut out = Vec::new();
    out.extend(word(IMAGE_MAGIC));
    out.extend(word(n));
    out.extend(word(rows));
    out.extend(word(cols));
    out.extend(pixels);
    out
}

/// Three 2x2 images whose pixels all equal `10 * label + item`.
fn small_set() -> DataSet {
    let labels = [1u8, 0, 1];
    let mut pixels = Vec::new();
    for (i, l) in labels.iter().enumerate() {
        for _ in 0..4 {
            pixels.push(10 * l + i as u8);
        }
    }
    DataSet::from_idx_bytes(&image_file(3, 2, 2, &pixels), &label_file(&labels))
}

/// `n` items of two classes; every pixel of item `i` is `i`.
fn two_class_set(n: usize) -> DataSet {
    let labels: Vec<u8> = (0..n).map(|i| (i % 2) as u8).collect();
    let mut pixels = Vec::new();
    for i in 0..n {
        for _ in 0..4 {
            pixels.push(i as u8);
        }
    }
    DataSet::from_idx_bytes(&image_file(n as u32, 2, 2, &pixels), &label_file(&labels))
}

#[test]
fn big_endian_words() {
    assert_eq!(read_u32_be(&[0, 0, 8, 1]), 2049);
    assert_eq!(read_u32_be(&[0x12, 0x34, 0x56, 0x78]), 0x1234_5678);
    assert_eq!(read_u32_be(&[0xff, 0xff, 0xff, 0xff]), u32::MAX);
}

#[test]
fn label_file_checks() {
    let good = label_file(&[3, 1, 4]);
    assert!(is_valid_label_file(&good));
    assert_eq!(parse_label_file(&good), vec![3, 1, 4]);
    let mut bad_magic = good.clone();
    bad_magic[3] = 0;
    assert!(!is_valid_label_file(&bad_magic));
    assert!(!is_valid_label_file(&good[..7].to_vec()));
    assert!(!is_valid_label_file(&good[..10].to_vec()));
    let mut longer = good.clone();
    longer.push(9);
    assert!(is_valid_label_file(&longer));
    assert_eq!(parse_label_file(&longer), vec![3, 1, 4]);
}

#[test]
fn image_file_checks() {
    let pixels: Vec<u8> = (0..12).collect();
    let good = image_file(3, 2, 2, &pixels);
    assert!(is_valid_image_file(&good));
    let (data, n, rows, cols) = parse_image_file(&good);
    assert_eq!(data, pixels);
    assert_eq!((n, rows, cols), (3, 2, 2));
    assert!(!is_valid_image_file(&image_file(3, 2, 2, &pixels[..11])));
    let mut bad_magic = good.clone();
    bad_magic[3] = 1;
    assert!(!is_valid_image_file(&bad_magic));
    assert!(!is_valid_image_file(&good[..15].to_vec()));
    let huge = image_file(u32::MAX, u32::MAX, u32::MAX, &pixels);
    assert!(!is_valid_image_file(&huge));
}

#[test]
fn data_set_from_bytes() {
    let d = small_set();
    assert_eq!(d.len(), 3);
    assert_eq!(d.image_shape, (2, 2));
    assert_eq!(d.label_at(0), 1);
    assert_eq!(d.label_at(1), 0);
    assert_eq!(d.label_at(2), 1);
    assert_eq!(d.copy_images(1, 2), vec![1, 1, 1, 1]);
    assert_eq!(d.positions(1), Some(vec![0, 2]));
    assert_eq!(d.positions(0), Some(vec![1]));
    assert_eq!(d.positions(7), None);
    assert_eq!(d.by_label.len(), 2);
    assert_eq!(d.copy_labels(1, 3), vec![0, 1]);
    assert_eq!(d.copy_images(0, 2), vec![10, 10, 10, 10, 1, 1, 1, 1]);
    assert_eq!(d.copy_images(2, 2), Vec::<u8>::new());
}

#[test]
fn batches_cover_the_first_items() {
    let d = small_set();
    let batches = d.batch_view_iter(2, 100);
    assert_eq!(batches.len(), 2);
    assert_eq!(batches[0].labels, vec![1, 0]);
    assert_eq!(batches[0].images, vec![10, 10, 10, 10, 1, 1, 1, 1]);
    assert_eq!(batches[0].image_size, 4);
    assert_eq!(batches[1].labels, vec![1]);
    assert_eq!(batches[1].images, vec![12, 12, 12, 12]);
    let limited = d.batch_view_iter(2, 2);
    assert_eq!(limited.len(), 1);
    assert_eq!(limited[0].labels, vec![1, 0]);
    let single = d.batch_view_iter(5, 100);
    assert_eq!(single.len(), 1);
    assert_eq!(single[0].labels, vec![1, 0, 1]);
    assert!(d.batch_view_iter(2, 0).is_empty());
}

#[test]
fn one_hot_positions_and_wide_labels() {
    let d = small_set();
    let batch = &d.batch_view_iter(3, 3)[0];
    assert_eq!(batch.label_one_hot_positions(), vec![1, 10, 21]);
    assert_eq!(batch.labels_u32(), vec![1u32, 0, 1]);
}

#[test]
fn reorder_moves_images_with_labels() {
    let mut d = small_set();
    d.reorder(vec![2, 0, 1]);
    assert_eq!(d.copy_labels(0, 3), vec![1, 1, 0]);
    assert_eq!(
        d.copy_images(0, 3),
        vec![12, 12, 12, 12, 10, 10, 10, 10, 1, 1, 1, 1]
    );
    assert_eq!(d.positions(1), Some(vec![0, 1]));
    assert_eq!(d.positions(0), Some(vec![2]));
    d.reorder(vec![0, 0, 0]);
    assert_eq!(d.copy_labels(0, 3), vec![1, 1, 1]);
    assert_eq!(d.positions(0), None);
}

fn check_shuffled(d: &DataSet, n: usize) {
    assert_eq!(d.len(), n);
    let mut seen = vec![false; n];
    let images = d.copy_images(0, n);
    for k in 0..n {
        let item = images[k * 4] as usize;
        assert!(images[k * 4..k * 4 + 4].iter().all(|p| *p as usize == item));
        assert_eq!(d.label_at(k) as usize, item % 2);
        assert!(!seen[item]);
        seen[item] = true;
    }
    assert!(seen.iter().all(|s| *s));
}

#[test]
fn shuffle_keeps_every_image_with_its_label() {
    let original = two_class_set(20).copy_images(0, 20);
    let mut d = two_class_set(20);
    d.shuffle_with_seed(7);
    check_shuffled(&d, 20);
    assert_ne!(d.copy_images(0, 20), original);
    let mut e = two_class_set(20);
    e.shuffle_with_seed(7);
    assert_eq!(d.copy_labels(0, 20), e.copy_labels(0, 20));
    assert_eq!(d.copy_images(0, 20), e.copy_images(0, 20));
    let mut f = two_class_set(20);
    f.shuffle();
    check_shuffled(&f, 20);
    assert_ne!(f.copy_images(0, 20), original);
}

#[test]
fn cutout_clears_the_rectangle() {
    let mut img: Vec<u8> = (1..=9).collect();
    cutout(&mut img, 3, 3, 2, 2, 1, 1);
    assert_eq!(img, vec![1, 2, 3, 4, 0, 0, 7, 0, 0]);
    let mut img2: Vec<u8> = (1..=6).collect();
    cutout(&mut img2, 2, 3, 1, 3, 0, 0);
    assert_eq!(img2, vec![0, 0, 0, 4, 5, 6]);
    let mut img3: Vec<u8> = (1..=4).collect();
    cutout(&mut img3, 2, 2, 0, 2, 1, 0);
    assert_eq!(img3, vec![1, 2, 3, 4]);
}

#[test]
fn cutout_images_by_index_cuts_each_image() {
    let labels = [0u8, 1];
    let pixels: Vec<u8> = vec![1, 2, 3, 4, 5, 6, 7, 8];
    let d = DataSet::from_idx_bytes(&image_file(2, 2, 2, &pixels), &label_file(&labels));
    assert_eq!(d.cutout_images_by_index(&[1, 0], (0, 0)), vec![5, 6, 7, 8, 1, 2, 3, 4]);
    assert_eq!(d.cutout_images_by_index(&[1, 1], (2, 2)), vec![0; 8]);
    let rows = d.cutout_images_by_index(&[0, 1, 0], (1, 2));
    assert_eq!(rows.len(), 12);
    let originals = [vec![1u8, 2, 3, 4], vec![5, 6, 7, 8], vec![1, 2, 3, 4]];
    for (k, orig) in originals.iter().enumerate() {
        let block = &rows[k * 4..k * 4 + 4];
        let top_cut = block == [0, 0, orig[2], orig[3]];
        let bottom_cut = block == [orig[0], orig[1], 0, 0];
        assert!(top_cut || bottom_cut);
    }
    assert!(d.cutout_images_by_index(&[], (1, 1)).is_empty());
}

#[test]
fn cutout_places_the_rectangle_at_random() {
    let labels = [0u8];
    let d = DataSet::from_idx_bytes(&image_file(1, 2, 2, &[1, 2, 3, 4]), &label_file(&labels));
    let indices = vec![0usize; 64];
    let cut = d.cutout_images_by_index(&indices, (1, 2));
    let blocks: Vec<&[u8]> = cut.chunks(4).collect();
    assert!(blocks.iter().any(|b| *b == [0, 0, 3, 4]));
    assert!(blocks.iter().any(|b| *b == [1, 2, 0, 0]));
}

/// Runs a sampler with draws from a small linear congruential generator.
fn run_sampler(d: &DataSet, batch: usize, mut seed: u64) -> (Vec<usize>, Vec<usize>, Vec<bool>) {
    let mut s = PairSampler::new(d, batch);
    let mut steps = 0;
    loop {
        match s.next_action() {
            PairAction::Draw(n) => {
                seed = seed.wrapping_mul(6364136223846793005).wrapping_add(1442695040888963407);
                s.step(((seed >> 33) % n as u64) as usize);
            }
            PairAction::Done => break,
        }
        steps += 1;
        assert!(steps < 100_000);
    }
    s.into_pairs()
}

#[test]
fn pair_sampler_alternates_same_and_different() {
    let d = two_class_set(10);
    for seed in 0..20 {
        let (left, right, same) = run_sampler(&d, 6, seed);
        assert_eq!(left.len(), 6);
        assert_eq!(right.len(), 6);
        for k in 0..6 {
            assert_eq!(same[k], k % 2 == 0);
            let (a, b) = (left[k], right[k]);
            assert!(a < 10 && b < 10);
            if same[k] {
                assert_eq!(d.label_at(a), d.label_at(b));
                assert_ne!(a, b);
            } else {
                assert_ne!(d.label_at(a), d.label_at(b));
            }
        }
    }
}

#[test]
fn pair_sampler_single_item_class_pairs_with_itself() {
    let labels = [4u8, 9, 9];
    let pixels = vec![0u8; 12];
    let d = DataSet::from_idx_bytes(&image_file(3, 2, 2, &pixels), &label_file(&labels));
    for seed in 0..10 {
        let (left, right, same) = run_sampler(&d, 4, seed);
        for k in 0..4 {
            if same[k] && d.label_at(left[k]) == 4 {
                assert_eq!(left[k], 0);
                assert_eq!(right[k], 0);
            }
            if same[k] && d.label_at(left[k]) == 9 {
                assert_ne!(left[k], right[k]);
            }
        }
    }
}

#[test]
fn pair_sampler_without_pairs_is_done() {
    let d = two_class_set(4);
    let s = PairSampler::new(&d, 0);
    assert!(matches!(s.next_action(), PairAction::Done));
    let (l, r, same) = s.into_pairs();
    assert!(l.is_empty() && r.is_empty() && same.is_empty());
}

#[test]
fn pair_sampler_asks_for_a_class_first() {
    let d = two_class_set(6);
    let mut s = PairSampler::new(&d, 2);
    assert!(matches!(s.next_action(), PairAction::Draw(2)));
    s.step(1);
    assert!(matches!(s.next_action(), PairAction::Draw(3)));
    s.step(0);
    assert!(matches!(s.next_action(), PairAction::Draw(3)));
    s.step(0);
    assert!(matches!(s.next_action(), PairAction::Draw(3)));
    s.step(2);
    assert!(matches!(s.next_action(), PairAction::Draw(2)));
}
