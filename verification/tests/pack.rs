use wgui_ttf::pack::{ceil_pow2, pack_shelves, seed_width, Rectangle};

fn overlap(a: &Rectangle, b: &Rectangle) -> bool {
    a.x < b.x + b.width && b.x < a.x + a.width && a.y < b.y + b.height && b.y < a.y + a.height
}

fn corner(r: &Rectangle) -> (u64, u64) {
    (r.x, r.y)
}

#[test]
fn empty_input_gives_empty_packing() {
    let packing = pack_shelves(Vec::new());
    assert_eq!(packing.width, 0);
    assert_eq!(packing.height, 0);
    assert!(packing.positions.is_empty());
}

#[test]
fn single_box_sits_at_the_origin() {
    let packing = pack_shelves(vec![vec![10, 20]]);
    assert_eq!(packing.positions.len(), 1);
    assert_eq!(corner(&packing.positions[0]), (0, 0));
    assert_eq!(packing.positions[0].width, 10);
    assert_eq!(packing.positions[0].height, 20);
    assert_eq!(packing.width, 32);
    assert_eq!(packing.height, 32);
}

#[test]
fn three_boxes_fill_the_first_shelf() {
    let packing = pack_shelves(vec![vec![10, 20], vec![5, 30], vec![5, 5]]);
    assert_eq!(corner(&packing.positions[0]), (5, 0));
    assert_eq!(corner(&packing.positions[1]), (0, 0));
    assert_eq!(corner(&packing.positions[2]), (15, 0));
    assert_eq!(packing.width, 32);
    assert_eq!(packing.height, 32);
}

#[test]
fn equal_heights_keep_input_order() {
    let packing = pack_shelves(vec![vec![51, 80], vec![70, 80]]);
    assert_eq!(corner(&packing.positions[0]), (0, 0));
    assert_eq!(corner(&packing.positions[1]), (0, 80));
    assert_eq!(packing.width, 256);
    assert_eq!(packing.height, 256);
}

#[test]
fn exact_fit_closes_a_region() {
    // The strip is 4 wide. The 2x2 box opens a 2x2 region beside it, which
    // the second 2x2 box fills exactly; the third starts the next shelf.
    let packing = pack_shelves(vec![vec![2, 2], vec![2, 2], vec![2, 2]]);
    assert_eq!(corner(&packing.positions[0]), (0, 0));
    assert_eq!(corner(&packing.positions[1]), (2, 0));
    assert_eq!(corner(&packing.positions[2]), (0, 2));
    assert_eq!(packing.width, 4);
    assert_eq!(packing.height, 4);
}

#[test]
fn exact_height_shrinks_a_region_from_the_left() {
    // Strip width 6: 3x4 opens a 3x4 region; 1x4 matches its height only,
    // so the next 1x4 goes right beside it. The 2x4 box no longer fits
    // there and starts the next shelf.
    let packing = pack_shelves(vec![vec![3, 4], vec![1, 4], vec![1, 4], vec![2, 4]]);
    assert_eq!(corner(&packing.positions[0]), (0, 0));
    assert_eq!(corner(&packing.positions[1]), (3, 0));
    assert_eq!(corner(&packing.positions[2]), (4, 0));
    assert_eq!(corner(&packing.positions[3]), (0, 4));
    assert_eq!(packing.width, 8);
}

#[test]
fn boxes_keep_ids_and_sizes_in_input_order() {
    let sizes = vec![vec![7, 3], vec![2, 9], vec![4, 4], vec![1, 1], vec![6, 2]];
    let packing = pack_shelves(sizes.clone());
    assert_eq!(packing.positions.len(), sizes.len());
    for (i, r) in packing.positions.iter().enumerate() {
        assert_eq!(r.id, i);
        assert_eq!(r.width, sizes[i][0] as u64);
        assert_eq!(r.height, sizes[i][1] as u64);
    }
}

#[test]
fn boxes_do_not_overlap_and_stay_inside() {
    let mut sizes = Vec::new();
    let mut seed: u32 = 12345;
    for _ in 0..200 {
        seed = seed.wrapping_mul(1103515245).wrapping_add(12345);
        let w = 1 + (seed >> 16) % 40;
        seed = seed.wrapping_mul(1103515245).wrapping_add(12345);
        let h = 1 + (seed >> 16) % 40;
        sizes.push(vec![w, h]);
    }
    let packing = pack_shelves(sizes);
    assert_eq!(packing.width, packing.height);
    assert!(packing.width.is_power_of_two());
    let mut right = 0;
    let mut bottom = 0;
    for (i, a) in packing.positions.iter().enumerate() {
        assert!(a.x + a.width <= packing.width);
        assert!(a.y + a.height <= packing.height);
        right = right.max(a.x + a.width);
        bottom = bottom.max(a.y + a.height);
        for b in packing.positions.iter().skip(i + 1) {
            assert!(!overlap(a, b));
        }
    }
    assert_eq!(packing.width, right.next_power_of_two().max(bottom.next_power_of_two()));
}

#[test]
fn ceil_pow2_rounds_up_to_a_power_of_two() {
    assert_eq!(ceil_pow2(0), 0);
    assert_eq!(ceil_pow2(1), 1);
    assert_eq!(ceil_pow2(2), 2);
    assert_eq!(ceil_pow2(3), 4);
    assert_eq!(ceil_pow2(64), 64);
    assert_eq!(ceil_pow2(65), 128);
    assert_eq!(ceil_pow2(1 << 63), 1 << 63);
}

#[test]
fn seed_width_is_the_rounded_up_root() {
    assert_eq!(seed_width(0), 0);
    assert_eq!(seed_width(1), 2);
    assert_eq!(seed_width(200), 15);
    assert_eq!(seed_width(375), 20);
    assert_eq!(seed_width(9680), 101);
    assert_eq!(seed_width(95), 10);
    assert_eq!(seed_width(96), 11);
}

// The same steps in floating point, with a stable sort from the standard
// library and the strip width from `sqrt`.
fn pack_in_floats(sizes: &[(f32, f32)]) -> (Vec<(f32, f32)>, f32) {
    let mut area = 0.0f32;
    let mut max_width = 0.0f32;
    for (w, h) in sizes {
        area += w * h;
        max_width = max_width.max(*w);
    }
    let mut order: Vec<usize> = (0..sizes.len()).collect();
    order.sort_by(|a, b| sizes[*b].1.partial_cmp(&sizes[*a].1).unwrap());
    let start = (area / 0.95).sqrt().ceil().max(max_width);
    let mut regions = vec![(0.0f32, 0.0f32, start, f32::INFINITY)];
    let mut corners = vec![(0.0f32, 0.0f32); sizes.len()];
    let (mut right, mut bottom) = (0.0f32, 0.0f32);
    for id in order {
        let (w, h) = sizes[id];
        for i in (0..regions.len()).rev() {
            let (x, y, rw, rh) = regions[i];
            if w > rw || h > rh {
                continue;
            }
            corners[id] = (x, y);
            right = right.max(x + w);
            bottom = bottom.max(y + h);
            if w == rw && h == rh {
                let last = regions.pop().unwrap();
                if i < regions.len() {
                    regions[i] = last;
                }
            } else if h == rh {
                regions[i] = (x + w, y, rw - w, rh);
            } else if w == rw {
                regions[i] = (x, y + h, rw, rh - h);
            } else {
                regions[i] = (x, y + h, rw, rh - h);
                regions.push((x + w, y, rw - w, h));
            }
            break;
        }
    }
    let side = (right as u32).next_power_of_two().max((bottom as u32).next_power_of_two());
    (corners, side as f32)
}

#[test]
fn layout_agrees_with_floating_point_packing() {
    let mut seed: u32 = 2024;
    for round in 0..20 {
        let mut sizes = Vec::new();
        let mut floats = Vec::new();
        for _ in 0..(10 + 15 * round) {
            seed = seed.wrapping_mul(1103515245).wrapping_add(12345);
            let w = 1 + (seed >> 16) % 30;
            seed = seed.wrapping_mul(1103515245).wrapping_add(12345);
            let h = 1 + (seed >> 16) % 12;
            sizes.push(vec![w, h]);
            floats.push((w as f32, h as f32));
        }
        let packing = pack_shelves(sizes);
        let (corners, side) = pack_in_floats(&floats);
        assert_eq!(packing.width as f32, side);
        for (r, c) in packing.positions.iter().zip(&corners) {
            assert_eq!((r.x as f32, r.y as f32), *c);
        }
    }
}
