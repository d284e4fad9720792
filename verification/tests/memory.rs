use rbpf_runtime::runtime::errors::SyscallError;
use rbpf_runtime::runtime::syscalls::{
    syscall_memcmp, syscall_memcpy, syscall_memmove, syscall_memset, translate_string,
};
use rbpf_runtime::runtime::memory::{
    address_is_aligned, is_nonoverlapping, iter_memory_pair_chunks, memcmp, memcmp_non_contiguous,
    memmove_non_contiguous, memset_non_contiguous, region, vm_to_host, AccessType, ChunkPair,
    GuestMemory, MemoryChunk, MemoryChunkIterator, MemoryError, MemoryRegion,
};

fn sample_memory() -> GuestMemory {
    let regions = vec![
        MemoryRegion { vm_addr: 0x1000, len: 16, host_offset: 0, writable: true },
        MemoryRegion { vm_addr: 0x1010, len: 16, host_offset: 16, writable: false },
        MemoryRegion { vm_addr: 0x2000, len: 32, host_offset: 32, writable: true },
    ];
    let host: Vec<u8> = (0..64u8).collect();
    GuestMemory { regions, host }
}

#[test]
fn region_lookup_respects_access() {
    let mem = sample_memory();
    assert_eq!(region(&mem, AccessType::Load, 0x1005), Ok(0));
    assert_eq!(region(&mem, AccessType::Load, 0x1015), Ok(1));
    assert_eq!(
        region(&mem, AccessType::Store, 0x1015),
        Err(MemoryError::AccessViolation(AccessType::Store, 0x1015, 0))
    );
    assert_eq!(
        region(&mem, AccessType::Load, 0x1020),
        Err(MemoryError::AccessViolation(AccessType::Load, 0x1020, 0))
    );
}

#[test]
fn vm_to_host_checks_the_region_bounds() {
    let r = MemoryRegion { vm_addr: 0x1000, len: 16, host_offset: 100, writable: true };
    assert_eq!(vm_to_host(r, 0x1004, 12), Ok(104));
    assert_eq!(vm_to_host(r, 0x1004, 13), Err(MemoryError::InvalidVirtualAddress(0x1004)));
    assert_eq!(vm_to_host(r, 0x0fff, 1), Err(MemoryError::InvalidVirtualAddress(0x0fff)));
}

#[test]
fn chunk_iterator_splits_at_region_ends() {
    let mem = sample_memory();
    let mut it = MemoryChunkIterator::new(AccessType::Load, 0x1008, 16).unwrap();
    assert_eq!(it.next(&mem), Some(Ok(MemoryChunk { region: 0, vm_addr: 0x1008, len: 8 })));
    assert_eq!(it.next(&mem), Some(Ok(MemoryChunk { region: 1, vm_addr: 0x1010, len: 8 })));
    assert_eq!(it.next(&mem), None);
    let mut back = MemoryChunkIterator::new(AccessType::Load, 0x1008, 16).unwrap();
    assert_eq!(back.next_back(&mem), Some(Ok(MemoryChunk { region: 1, vm_addr: 0x1010, len: 8 })));
    assert_eq!(back.next_back(&mem), Some(Ok(MemoryChunk { region: 0, vm_addr: 0x1008, len: 8 })));
    assert_eq!(back.next_back(&mem), None);
}

#[test]
fn chunk_iterator_reports_the_whole_range() {
    let mem = sample_memory();
    let mut it = MemoryChunkIterator::new(AccessType::Store, 0x1008, 16).unwrap();
    assert_eq!(it.next(&mem), Some(Ok(MemoryChunk { region: 0, vm_addr: 0x1008, len: 8 })));
    assert_eq!(
        it.next(&mem),
        Some(Err(MemoryError::AccessViolation(AccessType::Store, 0x1008, 16)))
    );
    assert_eq!(it.next(&mem), None);
    assert_eq!(
        MemoryChunkIterator::new(AccessType::Load, u64::MAX, 1),
        Err(MemoryError::AccessViolation(AccessType::Load, u64::MAX, 1))
    );
}

#[test]
fn pair_walk_takes_the_shorter_chunk() {
    let mem = sample_memory();
    let (steps, outcome) =
        iter_memory_pair_chunks(&mem, AccessType::Load, 0x1004, AccessType::Store, 0x2000, 20, false);
    assert_eq!(outcome, Ok(()));
    assert_eq!(
        steps,
        vec![
            ChunkPair { src_region: 0, src_addr: 0x1004, dst_region: 2, dst_addr: 0x2000, len: 12 },
            ChunkPair { src_region: 1, src_addr: 0x1010, dst_region: 2, dst_addr: 0x200c, len: 8 },
        ]
    );
    let (back, outcome) =
        iter_memory_pair_chunks(&mem, AccessType::Load, 0x1004, AccessType::Store, 0x2000, 20, true);
    assert_eq!(outcome, Ok(()));
    assert_eq!(
        back,
        vec![
            ChunkPair { src_region: 1, src_addr: 0x1010, dst_region: 2, dst_addr: 0x200c, len: 8 },
            ChunkPair { src_region: 0, src_addr: 0x1004, dst_region: 2, dst_addr: 0x2000, len: 12 },
        ]
    );
}

#[test]
fn memmove_copies_overlapping_ranges_as_one_move() {
    let mut mem = sample_memory();
    let src: Vec<u8> = mem.host[32..40].to_vec();
    assert_eq!(memmove_non_contiguous(0x2004, 0x2000, 8, &mut mem), Ok(0));
    assert_eq!(&mem.host[36..44], src.as_slice());
    let mut mem = sample_memory();
    let src: Vec<u8> = mem.host[36..44].to_vec();
    assert_eq!(memmove_non_contiguous(0x2000, 0x2004, 8, &mut mem), Ok(0));
    assert_eq!(&mem.host[32..40], src.as_slice());
}

#[test]
fn memmove_across_regions_and_into_read_only_memory() {
    let mut mem = sample_memory();
    assert_eq!(memmove_non_contiguous(0x2000, 0x100c, 8, &mut mem), Ok(0));
    assert_eq!(&mem.host[32..40], &[12, 13, 14, 15, 16, 17, 18, 19]);
    let mut mem = sample_memory();
    assert_eq!(
        memmove_non_contiguous(0x1010, 0x2000, 4, &mut mem),
        Err(MemoryError::AccessViolation(AccessType::Store, 0x1010, 4))
    );
    assert_eq!(mem.host, sample_memory().host);
}

#[test]
fn memcmp_gives_the_first_difference() {
    assert_eq!(memcmp(&[1, 2, 3], &[1, 2, 5], 3), -2);
    assert_eq!(memcmp(&[1, 9, 3], &[1, 2, 5], 3), 7);
    assert_eq!(memcmp(&[1, 2, 3], &[1, 2, 5], 2), 0);
    assert_eq!(memcmp(&[255], &[0], 1), 255);
}

#[test]
fn memcmp_over_guest_ranges() {
    let mut mem = sample_memory();
    assert_eq!(memcmp_non_contiguous(0x1000, 0x2000, 8, &mem), Ok(-32));
    for k in 0..8 {
        mem.host[32 + k] = k as u8;
    }
    assert_eq!(memcmp_non_contiguous(0x1000, 0x2000, 8, &mem), Ok(0));
    mem.host[32 + 5] = 200;
    assert_eq!(memcmp_non_contiguous(0x1000, 0x2000, 8, &mem), Ok(5 - 200));
    assert_eq!(
        memcmp_non_contiguous(0x1000, 0x3000, 8, &mem),
        Err(MemoryError::AccessViolation(AccessType::Load, 0x3000, 8))
    );
}

#[test]
fn memset_fills_up_to_the_first_unwritable_address() {
    let mut mem = sample_memory();
    assert_eq!(memset_non_contiguous(0x2004, 0xaa, 8, &mut mem), Ok(0));
    assert_eq!(&mem.host[36..44], &[0xaa; 8]);
    assert_eq!(mem.host[35], 35);
    assert_eq!(mem.host[44], 44);
    let mut mem = sample_memory();
    assert_eq!(
        memset_non_contiguous(0x1008, 7, 16, &mut mem),
        Err(MemoryError::AccessViolation(AccessType::Store, 0x1008, 16))
    );
    assert_eq!(&mem.host[8..16], &[7; 8]);
    assert_eq!(mem.host[16], 16);
}

#[test]
fn overlap_and_alignment_checks() {
    assert!(is_nonoverlapping(0, 4, 4, 4));
    assert!(!is_nonoverlapping(0, 5, 4, 4));
    assert!(is_nonoverlapping(10, 2, 4, 6));
    assert!(!is_nonoverlapping(10, 2, 4, 7));
    assert!(address_is_aligned(24, 8));
    assert!(!address_is_aligned(20, 8));
    assert!(address_is_aligned(7, 1));
}

#[test]
fn memory_syscalls() {
    let mut mem = sample_memory();
    assert_eq!(syscall_memcpy(&mut mem, 0x2004, 0x2000, 8), Err(SyscallError::CopyOverlapping));
    assert_eq!(mem.host, sample_memory().host);
    assert_eq!(syscall_memcpy(&mut mem, 0x2010, 0x2000, 8), Ok(0));
    assert_eq!(&mem.host[48..56], &[32, 33, 34, 35, 36, 37, 38, 39]);
    assert_eq!(syscall_memmove(&mut mem, 0x2001, 0x2000, 4), Ok(0));
    assert_eq!(&mem.host[32..37], &[32, 32, 33, 34, 35]);
    assert_eq!(syscall_memset(&mut mem, 0x1000, 0x1ff, 2), Ok(0));
    assert_eq!(&mem.host[0..3], &[0xff, 0xff, 2]);
    assert_eq!(syscall_memcmp(&mut mem, 0x1002, 0x2002, 1, 0x2018), Ok(0));
    assert_eq!(&mem.host[56..60], &(2i32 - 33).to_le_bytes());
    assert_eq!(syscall_memcmp(&mut mem, 0x1002, 0x2002, 1, 0x2019), Err(SyscallError::UnalignedPointer));
    assert_eq!(
        syscall_memcmp(&mut mem, 0x1002, 0x2002, 1, 0x1010),
        Err(SyscallError::Memory(MemoryError::AccessViolation(AccessType::Store, 0x1010, 4)))
    );
}

#[test]
fn guest_text_is_read_as_utf8() {
    let mut host = b"hello".to_vec();
    host.extend_from_slice(&[0xC3, 0xA9, 0xFF, 0x00]);
    let mem = GuestMemory {
        regions: vec![MemoryRegion { vm_addr: 0x1000, len: 9, host_offset: 0, writable: false }],
        host,
    };
    assert_eq!(translate_string(&mem, 0x1000, 5), Ok(String::from("hello")));
    assert_eq!(translate_string(&mem, 0x1003, 4), Ok(String::from("lo\u{e9}")));
    assert_eq!(translate_string(&mem, 0x1000, 0), Ok(String::new()));
    assert_eq!(translate_string(&mem, 0x1005, 1), Err(SyscallError::InvalidString));
    assert_eq!(translate_string(&mem, 0x1000, 8), Err(SyscallError::InvalidString));
    assert_eq!(
        translate_string(&mem, 0x1006, 4),
        Err(SyscallError::Memory(MemoryError::AccessViolation(AccessType::Load, 0x1006, 4)))
    );
}

#[test]
fn well_formed_memory_has_regions_apart() {
    assert!(sample_memory().is_well_formed());
    let overlapping_guest = GuestMemory {
        regions: vec![
            MemoryRegion { vm_addr: 0x1000, len: 16, host_offset: 0, writable: true },
            MemoryRegion { vm_addr: 0x1008, len: 16, host_offset: 16, writable: true },
        ],
        host: vec![0; 32],
    };
    assert!(!overlapping_guest.is_well_formed());
    let shared_host = GuestMemory {
        regions: vec![
            MemoryRegion { vm_addr: 0x1000, len: 16, host_offset: 0, writable: true },
            MemoryRegion { vm_addr: 0x2000, len: 16, host_offset: 8, writable: true },
        ],
        host: vec![0; 32],
    };
    assert!(!shared_host.is_well_formed());
    let past_host = GuestMemory {
        regions: vec![MemoryRegion { vm_addr: 0x1000, len: 16, host_offset: 8, writable: true }],
        host: vec![0; 16],
    };
    assert!(!past_host.is_well_formed());
    let past_address_space = GuestMemory {
        regions: vec![MemoryRegion { vm_addr: u64::MAX - 4, len: 8, host_offset: 0, writable: true }],
        host: vec![0; 8],
    };
    assert!(!past_address_space.is_well_formed());
}
