use qr_multi_scan::integral::compute_integral;
use qr_multi_scan::raster::GrayImage;

fn gray(width: usize, height: usize, samples: Vec<u8>) -> GrayImage {
    GrayImage::from_raw(width, height, samples).unwrap()
}

fn brute_window_sum(img: &GrayImage, y0: usize, y1: usize, x0: usize, x1: usize) -> u64 {
    // sum over rows [y0, y1) and columns [x0, x1)
    let mut sum: u64 = 0;
    for y in y0..y1 {
        for x in x0..x1 {
            sum += u64::from(img.samples[y * img.width + x]);
        }
    }
    sum
}

#[test]
fn integral_small_exact() {
    let img = gray(2, 2, vec![1, 2, 3, 4]);
    let t = compute_integral(&img);
    assert_eq!(t.sums.len(), 3);
    for row in &t.sums {
        assert_eq!(row.len(), 3);
    }
    assert_eq!(t.sums[0], vec![0, 0, 0]);
    assert_eq!(t.sums[1], vec![0, 1, 3]);
    assert_eq!(t.sums[2], vec![0, 4, 10]);
}

#[test]
fn integral_zero_size() {
    let img = gray(0, 0, Vec::new());
    let t = compute_integral(&img);
    assert_eq!(t.sums.len(), 1);
    assert_eq!(t.sums[0], vec![0]);
}

#[test]
fn integral_matches_brute_force_windows() {
    // pseudo-random 64x64 image; every table-derived window sum must equal
    // the brute-force sum
    let mut samples = Vec::new();
    let mut state: u32 = 42;
    for _ in 0..64 * 64 {
        state = state.wrapping_mul(1103515245).wrapping_add(12345);
        samples.push((state >> 16) as u8);
    }
    let img = gray(64, 64, samples);
    let t = compute_integral(&img);
    let starts = [0usize, 1, 7, 31, 63];
    let ends = [0usize, 1, 8, 32, 64];
    for &y0 in &starts {
        for &y1 in &ends {
            if y1 < y0 {
                continue;
            }
            for &x0 in &starts {
                for &x1 in &ends {
                    if x1 < x0 {
                        continue;
                    }
                    let via_table =
                        t.sums[y1][x1] + t.sums[y0][x0] - t.sums[y0][x1] - t.sums[y1][x0];
                    assert_eq!(via_table, brute_window_sum(&img, y0, y1, x0, x1));
                }
            }
        }
    }
}
