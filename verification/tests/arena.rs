//! The per-frame instance arena.

use byard_core::encoder::instance_arena::{
    ArenaUpload, INITIAL_CAPACITY, InstanceArena, Region, align_padding,
};

#[test]
fn a_storage_region_returns_an_exact_element_index() {
    let mut arena = InstanceArena::new(256);
    arena.begin_frame();
    // Twelve bytes first, so that the region cannot land at zero by luck.
    let _ = arena.push_vertex(&[1.0f32, 2.0, 3.0].map(f32::to_bits));
    let mut records = vec![7.0f32.to_bits(); 20];
    records.extend(vec![9.0f32.to_bits(); 20]);
    let base = arena
        .push_storage(&records, 20)
        .expect("a non-empty slice has a base");
    let stride = 80u64;
    let offset = u64::from(base) * stride;
    assert_eq!(offset % stride, 0, "the index must be exact, not rounded");
    let staged = &arena.staged()[offset as usize..offset as usize + 80];
    assert_eq!(
        staged[0..4],
        7.0f32.to_ne_bytes(),
        "element {base} is not where the region was written"
    );
    assert_eq!(base, 1);
    assert_eq!(arena.push_storage(&[], 20), None, "nothing to index");
}

#[test]
fn padding_takes_an_offset_up_to_the_next_multiple() {
    assert_eq!(align_padding(0, 256), 0);
    assert_eq!(align_padding(1, 256), 255);
    assert_eq!(align_padding(256, 256), 0);
    assert_eq!(align_padding(257, 256), 255);
    assert_eq!(align_padding(6, 4), 2);
}

#[test]
fn appended_regions_are_contiguous_and_aligned() {
    let mut arena = InstanceArena::new(256);
    arena.begin_frame();

    let a = arena.push_vertex(&[1u32, 2, 3]);
    let b = arena.push_vertex(&[4u32]);
    assert_eq!(a.offset, 0);
    assert_eq!(a.len, 12);
    assert_eq!(b.offset, 12, "4-byte data needs no padding between regions");
    assert_eq!(b.len, 4);
    assert_eq!(arena.staged_len(), 16);
}

#[test]
fn a_uniform_region_is_padded_to_the_devices_own_alignment() {
    // 256 is a value this limit takes, not the value.
    for device_alignment in [32u32, 64, 256] {
        let mut arena = InstanceArena::new(device_alignment);
        let alignment = arena.uniform_alignment();
        assert_eq!(
            alignment,
            u64::from(device_alignment),
            "the alignment must come from the device, not from a constant"
        );

        arena.begin_frame();
        let _vertex = arena.push_vertex(&[1u32]);
        let uniform = arena.push_uniform(&[0.5f32.to_bits(); 4]);
        assert_eq!(
            uniform.offset % alignment,
            0,
            "a uniform region must start on the device's alignment"
        );
        assert!(uniform.offset >= 4, "and after the vertex region before it");
        assert_eq!(
            uniform.len % alignment,
            0,
            "and its length must be a multiple of it too"
        );
        assert!(
            arena.staged_len() >= uniform.offset + uniform.len,
            "the padded length must actually be reserved, not merely reported"
        );
    }
}

#[test]
fn a_reserved_uniform_is_alignment_sized_and_fits_inside_the_staging() {
    let mut arena = InstanceArena::new(256);
    let alignment = arena.uniform_alignment();
    arena.begin_frame();
    let _ = arena.push_vertex(&[1u32, 2, 3]);
    let region = arena.reserve_uniform(32);
    arena.upload();

    assert_eq!(region.offset % alignment, 0);
    assert_eq!(region.len % alignment, 0);
    assert!(region.offset + region.len <= arena.capacity());
    // And the region is writable.
    assert_eq!(
        arena.write_region(region, &[0u8; 32]),
        Some(region.offset)
    );
}

#[test]
fn an_empty_push_costs_nothing_and_returns_an_empty_region() {
    let mut arena = InstanceArena::new(256);
    arena.begin_frame();
    let region = arena.push_vertex(&[]);
    assert!(region.is_empty());
    assert_eq!(arena.staged_len(), 0, "an empty batch must not pad");
}

#[test]
fn growth_doubles_and_never_shrinks() {
    let mut arena = InstanceArena::new(256);
    let initial = arena.capacity();

    // One frame that overflows the initial capacity.
    arena.begin_frame();
    let big = vec![0u32; INITIAL_CAPACITY as usize / 4 + 16];
    let _ = arena.push_vertex(&big);
    arena.upload();
    assert!(arena.capacity() > initial);
    assert_eq!(arena.grows_this_session(), 1);
    let grown = arena.capacity();
    assert_eq!(grown, initial * 2, "growth doubles");

    // A tiny frame afterwards must not give the memory back.
    arena.begin_frame();
    let _ = arena.push_vertex(&[1u32]);
    arena.upload();
    assert_eq!(arena.capacity(), grown);
    assert_eq!(arena.grows_this_session(), 1);
}

#[test]
fn a_steady_state_frame_creates_no_buffers_and_reallocates_no_staging() {
    let mut arena = InstanceArena::new(256);
    let data = vec![7u32; 4096];

    for _ in 0..3 {
        arena.begin_frame();
        let _ = arena.push_vertex(&data);
        arena.upload();
    }
    let creations = arena.buffer_creations();
    let staging = arena.staged().as_ptr();

    for _ in 0..20 {
        arena.begin_frame();
        let _ = arena.push_vertex(&data);
        arena.upload();
    }

    assert_eq!(
        arena.buffer_creations(),
        creations,
        "a steady-state frame must create no GPU buffers"
    );
    assert_eq!(arena.grows_this_session(), 0, "and must not grow the arena");
    assert_eq!(
        arena.staged().as_ptr(),
        staging,
        "and the CPU-side staging vector must not reallocate either"
    );
}

#[test]
fn an_upload_writes_the_staged_bytes_and_grows_only_when_it_must() {
    let mut arena = InstanceArena::new(256);
    arena.begin_frame();
    assert_eq!(
        arena.upload(),
        ArenaUpload {
            grow_to: None,
            write_len: 0
        }
    );
    let _ = arena.push_index(&[1, 2, 3]);
    assert_eq!(
        arena.upload(),
        ArenaUpload {
            grow_to: None,
            write_len: 12
        }
    );
    assert_eq!(arena.slice(Region { offset: 0, len: 12 }), (0, 12));
    let _ = arena.push_vertex(&vec![0u32; 40_000]);
    let plan = arena.upload();
    assert_eq!(plan.grow_to, Some(4 * INITIAL_CAPACITY));
    assert_eq!(plan.write_len, 160_012);
}

#[test]
fn staged_lanes_are_the_bytes_of_this_machine() {
    let mut arena = InstanceArena::new(64);
    arena.begin_frame();
    let r = arena.push_vertex(&[0x0102_0304, 0xa0b0_c0d0]);
    assert_eq!(r, Region { offset: 0, len: 8 });
    assert_eq!(arena.staged()[0..4], 0x0102_0304u32.to_ne_bytes());
    assert_eq!(arena.staged()[4..8], 0xa0b0_c0d0u32.to_ne_bytes());
}

#[test]
fn a_reserved_region_is_zero_and_writing_nothing_writes_nowhere() {
    let mut arena = InstanceArena::new(64);
    arena.begin_frame();
    let r = arena.reserve_vertex(10);
    assert_eq!(r, Region { offset: 0, len: 10 });
    assert!(arena.staged().iter().all(|b| *b == 0));
    assert_eq!(arena.write_region(r, &[]), None);
    assert_eq!(Region::default(), Region { offset: 0, len: 0 });
}

#[test]
fn a_reserved_region_is_fresh_aligned_and_zeroed() {
    let mut arena = InstanceArena::new(256);
    arena.begin_frame();
    arena.push_vertex(&[u32::MAX; 3]);
    let plain = arena.reserve_at(10, 8, false);
    assert_eq!(plain, Region { offset: 16, len: 10 });
    assert_eq!(arena.staged_len(), 26);
    let padded = arena.reserve_at(10, 8, true);
    assert_eq!(padded, Region { offset: 32, len: 16 });
    assert_eq!(arena.staged_len(), 48);
    assert_eq!(arena.staged()[..12], [0xff; 12]);
    assert_eq!(arena.staged()[12..], [0; 36]);
    assert_eq!(arena.reserve_at(0, 8, true), Region::default());
    assert_eq!(arena.staged_len(), 48);
}
