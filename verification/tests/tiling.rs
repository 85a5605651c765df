use voxel_world::tiling::{phase_of, TilingPlan, PHASES, PHASE_LEN};

const EVEN_EVEN: [u8; 64] = [
    0, 2, 4, 6, 8, 10, 12, 14, 32, 34, 36, 38, 40, 42, 44, 46, 64, 66, 68, 70, 72, 74, 76, 78, 96,
    98, 100, 102, 104, 106, 108, 110, 128, 130, 132, 134, 136, 138, 140, 142, 160, 162, 164, 166,
    168, 170, 172, 174, 192, 194, 196, 198, 200, 202, 204, 206, 224, 226, 228, 230, 232, 234, 236,
    238,
];

const ODD_EVEN: [u8; 64] = [
    1, 3, 5, 7, 9, 11, 13, 15, 33, 35, 37, 39, 41, 43, 45, 47, 65, 67, 69, 71, 73, 75, 77, 79, 97,
    99, 101, 103, 105, 107, 109, 111, 129, 131, 133, 135, 137, 139, 141, 143, 161, 163, 165, 167,
    169, 171, 173, 175, 193, 195, 197, 199, 201, 203, 205, 207, 225, 227, 229, 231, 233, 235, 237,
    239,
];

const EVEN_ODD: [u8; 64] = [
    16, 18, 20, 22, 24, 26, 28, 30, 48, 50, 52, 54, 56, 58, 60, 62, 80, 82, 84, 86, 88, 90, 92,
    94, 112, 114, 116, 118, 120, 122, 124, 126, 144, 146, 148, 150, 152, 154, 156, 158, 176, 178,
    180, 182, 184, 186, 188, 190, 208, 210, 212, 214, 216, 218, 220, 222, 240, 242, 244, 246, 248,
    250, 252, 254,
];

const ODD_ODD: [u8; 64] = [
    17, 19, 21, 23, 25, 27, 29, 31, 49, 51, 53, 55, 57, 59, 61, 63, 81, 83, 85, 87, 89, 91, 93,
    95, 113, 115, 117, 119, 121, 123, 125, 127, 145, 147, 149, 151, 153, 155, 157, 159, 177, 179,
    181, 183, 185, 187, 189, 191, 209, 211, 213, 215, 217, 219, 221, 223, 241, 243, 245, 247, 249,
    251, 253, 255,
];

#[test]
fn phase_of_is_the_parity_of_the_macro_coordinates() {
    assert_eq!(phase_of(0), 0);
    assert_eq!(phase_of(1), 1);
    assert_eq!(phase_of(2), 0);
    assert_eq!(phase_of(15), 1);
    assert_eq!(phase_of(16), 2);
    assert_eq!(phase_of(17), 3);
    assert_eq!(phase_of(32), 0);
    assert_eq!(phase_of(240), 2);
    assert_eq!(phase_of(255), 3);
    for c in 0..=255u8 {
        assert_eq!(phase_of(c), (c % 16) % 2 + 2 * ((c / 16) % 2));
    }
}

#[test]
fn the_plan_lists_the_chunks_of_each_phase_in_ascending_order() {
    let plan = TilingPlan::new();
    assert_eq!(plan.chunks_in_phase(0).as_slice(), &EVEN_EVEN[..]);
    assert_eq!(plan.chunks_in_phase(1).as_slice(), &ODD_EVEN[..]);
    assert_eq!(plan.chunks_in_phase(2).as_slice(), &EVEN_ODD[..]);
    assert_eq!(plan.chunks_in_phase(3).as_slice(), &ODD_ODD[..]);
}

#[test]
fn phases_and_chunks_in_phase_agree() {
    let plan = TilingPlan::new();
    assert_eq!(PHASES, 4);
    assert_eq!(PHASE_LEN, 64);
    assert_eq!(plan.phases().len(), PHASES);
    for k in 0..PHASES {
        assert_eq!(&plan.phases()[k], plan.chunks_in_phase(k));
        assert_eq!(plan.chunks_in_phase(k).len(), PHASE_LEN);
    }
}

#[test]
fn the_phases_partition_the_chunks() {
    let plan = TilingPlan::new();
    let mut seen = [0usize; 256];
    for k in 0..4 {
        let chunks = plan.chunks_in_phase(k);
        assert_eq!(chunks.len(), 64);
        for &c in chunks.iter() {
            assert_eq!(phase_of(c) as usize, k);
            seen[c as usize] += 1;
        }
    }
    for c in 0..256 {
        assert_eq!(seen[c], 1);
    }
}

#[test]
fn chunks_of_one_phase_are_never_adjacent() {
    let plan = TilingPlan::new();
    for k in 0..4 {
        let chunks = plan.chunks_in_phase(k);
        for &a in chunks.iter() {
            for &b in chunks.iter() {
                if a == b {
                    continue;
                }
                let dx = ((a % 16) as i32 - (b % 16) as i32).abs();
                let dz = ((a / 16) as i32 - (b / 16) as i32).abs();
                assert!(dx.max(dz) >= 2);
                // also across the borders, where the world wraps around
                let wx = dx.min(16 - dx);
                let wz = dz.min(16 - dz);
                assert!(wx.max(wz) >= 2);
            }
        }
    }
}

#[test]
fn two_plans_are_the_same() {
    let a = TilingPlan::new();
    let b = TilingPlan::new();
    assert_eq!(a.phases(), b.phases());
}
