use hookrunner::mipmaps::{append_srgb_mips, pack_atlas, unpack};

#[test]
fn unpack_reads_levels_from_atlas_rows() {
    // A 4x2 texture with 3 levels: 4x2, 2x1, 1x1 stored in a 4-texel-wide atlas of 4 rows.
    let width = 4u32;
    let mut atlas = vec![0u8; 4 * 4 * 4];
    for (i, b) in atlas.iter_mut().enumerate() {
        *b = i as u8;
    }
    let data = unpack(&atlas, width, 2, 3);
    let mut expected = Vec::new();
    expected.extend_from_slice(&atlas[0..16]);
    expected.extend_from_slice(&atlas[16..32]);
    expected.extend_from_slice(&atlas[32..40]);
    expected.extend_from_slice(&atlas[48..52]);
    assert_eq!(data, expected);
}

#[test]
fn pack_then_unpack_round_trip() {
    // 3x5 texture: levels 3x5, 1x2, 1x1.
    let len = 3 * 5 * 4 + 1 * 2 * 4 + 4;
    let data: Vec<u8> = (0..len).map(|i| (i * 7 + 3) as u8).collect();
    let atlas = pack_atlas(&data, 3, 5, 3);
    assert_eq!(atlas.len(), (5 + 2 + 1) * 3 * 4);
    // Padding bytes to the right of narrower levels are zero.
    assert_eq!(&atlas[5 * 12 + 4..5 * 12 + 12], &[0u8; 8]);
    assert_eq!(unpack(&atlas, 3, 5, 3), data);
}

#[test]
fn unpack_of_single_level_copies_rows() {
    let atlas: Vec<u8> = (0..24).collect();
    assert_eq!(unpack(&atlas, 3, 2, 1), atlas);
    assert_eq!(unpack(&[], 0, 0, 0), Vec::<u8>::new());
}

fn average(level: &[u8], w: usize, h: usize, x: usize, y: usize) -> [u8; 4] {
    let nw = (w / 2).max(1);
    let nh = (h / 2).max(1);
    let x0 = x * w / nw;
    let x1 = ((x + 1) * w).div_ceil(nw);
    let y0 = y * h / nh;
    let y1 = ((y + 1) * h).div_ceil(nh);
    let mut sum = [0u32; 4];
    let mut n = 0;
    for sy in y0..y1 {
        for sx in x0..x1 {
            for c in 0..4 {
                sum[c] += level[(sy * w + sx) * 4 + c] as u32;
            }
            n += 1;
        }
    }
    [(sum[0] / n) as u8, (sum[1] / n) as u8, (sum[2] / n) as u8, (sum[3] / n) as u8]
}

#[test]
fn append_mips_counts_levels_and_filters() {
    let mut data = vec![10u8, 20, 30, 255, 30, 40, 50, 255, 50, 60, 70, 255, 70, 80, 90, 255];
    let levels = append_srgb_mips(&mut data, 2, 2, average);
    assert_eq!(levels, 2);
    assert_eq!(data.len(), 16 + 4);
    assert_eq!(&data[16..], &[40, 50, 60, 255]);
}

#[test]
fn append_mips_odd_sizes() {
    let mut data = vec![100u8; 5 * 3 * 4];
    let levels = append_srgb_mips(&mut data, 5, 3, average);
    assert_eq!(levels, 3);
    assert_eq!(data.len(), 60 + 2 * 1 * 4 + 4);
    assert!(data.iter().all(|&b| b == 100));
    let mut one = vec![1u8, 2, 3, 4];
    assert_eq!(append_srgb_mips(&mut one, 1, 1, average), 1);
    assert_eq!(one, vec![1, 2, 3, 4]);
}
