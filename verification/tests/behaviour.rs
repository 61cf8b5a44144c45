use cache_sim::address::{extract, low_bits, num_bits, type_bits};
use cache_sim::associative::associative_geometry_valid;
use cache_sim::direct::direct_geometry_valid;
use cache_sim::{Accessable, CacheAssociative, CacheDirect, Memory, MemoryError, RAM};

#[test]
fn bit_helpers_give_exact_values() {
    assert_eq!(type_bits(), 32);
    assert_eq!(num_bits(0), 0);
    assert_eq!(num_bits(1), 1);
    assert_eq!(num_bits(3), 2);
    assert_eq!(num_bits(4), 3);
    assert_eq!(num_bits(0xFFFF_FFFF), 32);
    assert_eq!(low_bits(0), 0);
    assert_eq!(low_bits(2), 0b11);
    assert_eq!(low_bits(24), 0x00FF_FFFF);
    assert_eq!(low_bits(32), 0xFFFF_FFFF);
}

#[test]
fn extract_moves_the_field_down() {
    assert_eq!(extract(0xABCD, 0x0FF0), 0xBC);
    assert_eq!(extract(0xABCD, 0xF000), 0xA);
    assert_eq!(extract(0xABCD, 0x000F), 0xD);
    assert_eq!(extract(0xABCD, 0), 0);
    assert_eq!(extract(0x00AB_CDEF, 0x00FF_0000), 0xAB);
}

#[test]
fn direct_new_starts_with_tag_zero_slots() {
    let mut cache: CacheDirect<u32> = CacheDirect::new(16, 1, 2, 9).unwrap();
    assert_eq!(cache.internal_memory.len(), 2);
    assert_eq!(cache.cache_positions(), 2);
    // Addresses whose tag is 0 hit the initial slots, the others miss.
    assert_eq!(cache.get(0b00), Some(9));
    assert_eq!(cache.get(0b01), Some(9));
    assert_eq!(cache.get(0b10), None);
    assert_eq!(cache.get(0b11), None);
}

#[test]
fn direct_round_trip_after_new() {
    let mut cache: CacheDirect<u32> = CacheDirect::new(16, 1, 2, 0).unwrap();
    assert_eq!(cache.set(0b10, 1), Ok(()));
    assert_eq!(cache.set(0b01, 2), Ok(()));
    assert_eq!(cache.get(0b10), Some(1));
    assert_eq!(cache.get(0b01), Some(2));
    assert_eq!(cache.get(0b00), None);
    assert_eq!(cache.get(0b11), None);
}

#[test]
fn direct_conflict_evicts_the_first_address() {
    let mut cache: CacheDirect<u32> = CacheDirect::new(16, 1, 2, 0).unwrap();
    assert_eq!(cache.slot_index(0b01), cache.slot_index(0b11));
    cache.set(0b01, 7).unwrap();
    assert_eq!(cache.get(0b01), Some(7));
    cache.set(0b11, 9).unwrap();
    assert_eq!(cache.get(0b01), None);
    assert_eq!(cache.get(0b11), Some(9));
}

#[test]
fn direct_slot_combines_line_and_word() {
    // 8 slots in 4 lines of 2 words, 5 address bits.
    let mut cache: CacheDirect<u32> = CacheDirect::new(64, 2, 5, 0).unwrap();
    assert_eq!(cache.calc_word_mask(), 0b1);
    assert_eq!(cache.calc_line_mask(), 0b110);
    assert_eq!(cache.calc_tag_mask(), 0b11000);
    assert_eq!(cache.slot_index(0b10111), 7);
    assert_eq!(cache.slot_index(0b10110), 6);
    assert_eq!(cache.slot_index(0b01000), 0);
    assert_eq!(cache.slot_index(0b00101), 5);
    cache.set(0b10111, 41).unwrap();
    cache.set(0b10110, 42).unwrap();
    assert_eq!(cache.internal_memory[7].data, 41);
    assert_eq!(cache.internal_memory[7].tag, 0b10);
    assert_eq!(cache.internal_memory[6].data, 42);
    assert_eq!(cache.get(0b10111), Some(41));
    assert_eq!(cache.get(0b10110), Some(42));
    assert_eq!(cache.get(0b01111), None);
}

#[test]
fn direct_single_line_and_full_coverage() {
    // One line of one word: the line field is empty.
    let mut one: CacheDirect<u32> = CacheDirect::new(8, 1, 4, 0).unwrap();
    assert_eq!(one.calc_line_mask(), 0);
    assert_eq!(one.calc_tag_mask(), 0b1111);
    one.set(0b1010, 5).unwrap();
    assert_eq!(one.get(0b1010), Some(5));
    assert_eq!(one.get(0b1011), None);
    // As many slots as addresses: the tag field is empty and every read hits.
    let mut full: CacheDirect<u32> = CacheDirect::new(32, 1, 2, 3).unwrap();
    assert_eq!(full.calc_tag_mask(), 0);
    full.set(0b11, 8).unwrap();
    assert_eq!(full.get(0b11), Some(8));
    assert_eq!(full.get(0b10), Some(3));
}

#[test]
fn direct_rejects_bad_geometry() {
    assert!(direct_geometry_valid(524288, 4, 24));
    assert!(direct_geometry_valid(16, 1, 2));
    // line size not a power of two
    assert!(!direct_geometry_valid(48, 3, 8));
    assert!(!direct_geometry_valid(48, 0, 8));
    // slots not a whole number of lines
    assert!(!direct_geometry_valid(24, 2, 8));
    // no slot at all
    assert!(!direct_geometry_valid(0, 1, 8));
    // address wider than the machine word
    assert!(!direct_geometry_valid(16, 1, 33));
    // more slots than addresses
    assert!(!direct_geometry_valid(64, 1, 2));
    let refused: Result<CacheDirect<u32>, MemoryError> = CacheDirect::new(48, 3, 8, 0);
    assert!(matches!(refused, Err(MemoryError::ConfigurationInvalid)));
}

#[test]
fn associative_masks() {
    let cache: CacheAssociative<u32> = CacheAssociative::new(524288, 4, 24, 0, 1).unwrap();
    assert_eq!(cache.calc_word_mask(), 0x3);
    assert_eq!(cache.calc_tag_mask(), 0xFFFFFC);
    assert_eq!(cache.cache_positions(), 65536);
}

#[test]
fn associative_rejects_bad_geometry() {
    assert!(associative_geometry_valid(32, 1, 4));
    assert!(!associative_geometry_valid(8, 1, 4));
    assert!(!associative_geometry_valid(32, 3, 4));
    assert!(!associative_geometry_valid(32, 1, 33));
    assert!(!associative_geometry_valid(32, 4, 1));
    let refused: Result<CacheAssociative<u32>, MemoryError> = CacheAssociative::new(8, 1, 4, 0, 1);
    assert!(matches!(refused, Err(MemoryError::ConfigurationInvalid)));
}

#[test]
fn associative_get_returns_first_match() {
    let mut cache: CacheAssociative<u32> = CacheAssociative::new(32, 1, 4, 0, 1).unwrap();
    cache.place(2, 0b0101, 11);
    cache.place(1, 0b0101, 22);
    cache.place(3, 0b0110, 33);
    assert_eq!(cache.get(0b0101), Some(22));
    assert_eq!(cache.get(0b0110), Some(33));
    assert_eq!(cache.get(0b0111), None);
    // Slot 0 still holds the initial value under tag 0.
    assert_eq!(cache.get(0), Some(0));
}

#[test]
fn associative_get_never_answers_under_a_foreign_tag() {
    let mut cache: CacheAssociative<u32> = CacheAssociative::new(64, 1, 6, 0, 7).unwrap();
    let mut pos: u32 = 1;
    while pos < 40 {
        cache.set(pos, pos + 100).unwrap();
        pos += 1;
    }
    let mut probe: u32 = 0;
    while probe < 64 {
        let tag = extract(probe, cache.calc_tag_mask());
        match cache.get(probe) {
            Some(value) => {
                let first = cache.internal_memory.iter().find(|slot| slot.tag == tag).unwrap();
                assert_eq!(first.data, value);
            }
            None => {
                assert!(cache.internal_memory.iter().all(|slot| slot.tag != tag));
            }
        }
        probe += 1;
    }
}

#[test]
fn associative_set_spares_the_last_slot() {
    let mut cache: CacheAssociative<u32> = CacheAssociative::new(64, 1, 6, 0, 3).unwrap();
    let mut pos: u32 = 1;
    while pos < 64 {
        cache.set(pos, pos).unwrap();
        pos += 1;
    }
    assert_eq!(cache.internal_memory[7].tag, 0);
    assert_eq!(cache.internal_memory[7].data, 0);
    assert!(cache.internal_memory[..7].iter().any(|slot| slot.tag != 0));
}

#[test]
fn associative_set_with_two_slots_always_takes_the_first() {
    let mut cache: CacheAssociative<u32> = CacheAssociative::new(16, 1, 4, 0, 99).unwrap();
    assert_eq!(cache.set(0b1001, 5), Ok(()));
    assert_eq!(cache.internal_memory[0].tag, 0b1001);
    assert_eq!(cache.internal_memory[0].data, 5);
    assert_eq!(cache.internal_memory[1].tag, 0);
    assert_eq!(cache.get(0b1001), Some(5));
    assert_eq!(cache.set(0b1010, 6), Ok(()));
    assert_eq!(cache.get(0b1001), None);
    assert_eq!(cache.get(0b1010), Some(6));
}

#[test]
fn associative_same_seed_same_choices() {
    let mut a: CacheAssociative<u32> = CacheAssociative::new(128, 1, 8, 0, 42).unwrap();
    let mut b: CacheAssociative<u32> = CacheAssociative::new(128, 1, 8, 0, 42).unwrap();
    let mut pos: u32 = 1;
    while pos < 50 {
        a.set(pos, pos).unwrap();
        b.set(pos, pos).unwrap();
        pos += 1;
    }
    let tags_a: Vec<u32> = a.internal_memory.iter().map(|slot| slot.tag).collect();
    let tags_b: Vec<u32> = b.internal_memory.iter().map(|slot| slot.tag).collect();
    assert_eq!(tags_a, tags_b);
}

#[test]
fn ram_reads_and_writes_in_range() {
    let mut ram: RAM<u32> = RAM::new(4, 7);
    assert_eq!(ram.size(), 4);
    assert_eq!(ram.get(0), Some(7));
    assert_eq!(ram.get(3), Some(7));
    assert_eq!(ram.set(3, 1), Ok(()));
    assert_eq!(ram.get(3), Some(1));
    assert_eq!(ram.get(2), Some(7));
    assert_eq!(ram.fetch(3), Ok(1));
}

#[test]
fn ram_out_of_range_is_an_error() {
    let mut ram: RAM<u32> = RAM::new(4, 7);
    assert_eq!(ram.fetch(4), Err(MemoryError::OutOfRange));
    assert_eq!(ram.get(4), None);
    assert_eq!(ram.set(4, 1), Err(MemoryError::OutOfRange));
    assert_eq!(ram.set(u32::MAX, 1), Err(MemoryError::OutOfRange));
    assert_eq!(ram.get(3), Some(7));
    let mut empty: RAM<u32> = RAM::new(0, 0);
    assert_eq!(empty.get(0), None);
    assert_eq!(empty.set(0, 1), Err(MemoryError::OutOfRange));
}

#[test]
fn tiered_read_allocates_on_miss() {
    let mut ram: RAM<u32> = RAM::new(4, 0);
    ram.set(0b10, 10).unwrap();
    let cache: CacheDirect<u32> = CacheDirect::new(16, 1, 2, 0).unwrap();
    let mut memory = Memory::new(ram, cache);
    assert_eq!(memory.cache.get(0b10), None);
    assert_eq!(memory.get(0b10), Some(10));
    assert_eq!(memory.cache.get(0b10), Some(10));
}

#[test]
fn tiered_write_leaves_a_stale_cached_value() {
    let ram: RAM<u32> = RAM::new(4, 0);
    let cache: CacheDirect<u32> = CacheDirect::new(16, 1, 2, 0).unwrap();
    let mut memory = Memory::new(ram, cache);
    assert_eq!(memory.set(0b10, 10), Ok(()));
    assert_eq!(memory.get(0b10), Some(10));
    assert_eq!(memory.set(0b10, 20), Ok(()));
    assert_eq!(memory.get(0b10), Some(10));
    assert_eq!(memory.internal_memory.get(0b10), Some(20));
    // A conflicting read evicts the stale value; the next read sees the store.
    assert_eq!(memory.get(0b00), Some(0));
    assert_eq!(memory.get(0b10), Some(20));
}

#[test]
fn tiered_write_leaves_a_stale_value_behind_an_associative_cache() {
    let ram: RAM<u32> = RAM::new(64, 0);
    let cache: CacheAssociative<u32> = CacheAssociative::new(32, 1, 6, 0, 5).unwrap();
    let mut memory = Memory::new(ram, cache);
    assert_eq!(memory.set(33, 10), Ok(()));
    assert_eq!(memory.get(33), Some(10));
    assert_eq!(memory.set(33, 20), Ok(()));
    assert_eq!(memory.get(33), Some(10));
}

#[test]
fn tiered_out_of_range_comes_from_the_store() {
    let ram: RAM<u32> = RAM::new(2, 0);
    let cache: CacheDirect<u32> = CacheDirect::new(16, 1, 2, 0).unwrap();
    let mut memory = Memory::new(ram, cache);
    assert_eq!(memory.set(0b10, 1), Err(MemoryError::OutOfRange));
    assert_eq!(memory.get(0b10), None);
    assert_eq!(memory.get(0b11), None);
    assert_eq!(memory.set(0b01, 4), Ok(()));
}

#[test]
fn error_messages() {
    assert_eq!(MemoryError::OutOfRange.message(), "address out of range");
    assert_eq!(MemoryError::ConfigurationInvalid.message(), "invalid cache configuration");
    assert_ne!(MemoryError::OutOfRange, MemoryError::ConfigurationInvalid);
}

#[test]
fn direct_masks_part_the_address() {
    let cache: CacheDirect<u32> = CacheDirect::new(524288, 4, 24, 0).unwrap();
    let word = cache.calc_word_mask();
    let line = cache.calc_line_mask();
    let tag = cache.calc_tag_mask();
    assert_eq!(word & line, 0);
    assert_eq!(word | line, cache.cache_positions() - 1);
    assert_eq!(tag & (word | line), 0);
    assert_eq!(tag | word | line, low_bits(24));
}

#[test]
fn direct_slot_and_tag_name_the_address() {
    // 12 slots in 3 lines of 4 words: the number of lines is no power of two.
    let cache: CacheDirect<u32> = CacheDirect::new(96, 4, 6, 0).unwrap();
    let tag_mask = cache.calc_tag_mask();
    let mut seen: Vec<(usize, u32)> = Vec::new();
    let mut pos: u32 = 0;
    while pos < 64 {
        let key = (cache.slot_index(pos), extract(pos, tag_mask));
        assert!(key.0 < 12);
        assert!(!seen.contains(&key));
        seen.push(key);
        pos += 1;
    }
}

#[test]
fn associative_masks_part_the_address() {
    let cache: CacheAssociative<u32> = CacheAssociative::new(64, 4, 6, 0, 1).unwrap();
    let word = cache.calc_word_mask();
    let tag = cache.calc_tag_mask();
    assert_eq!(word, 0b11);
    assert_eq!(tag, 0b111100);
    assert_eq!(tag & word, 0);
    assert_eq!(tag | word, low_bits(6));
}

#[test]
fn associative_words_of_a_line_share_a_tag() {
    let mut cache: CacheAssociative<u32> = CacheAssociative::new(64, 4, 6, 0, 1).unwrap();
    cache.place(3, 0b101001, 77);
    assert_eq!(cache.get(0b101001), Some(77));
    assert_eq!(cache.get(0b101010), Some(77));
    assert_eq!(cache.get(0b100001), None);
}
