use flow_mem::address::Address;
use flow_mem::page_chunks::{PageChunks, PageChunksMut};

const PAGE_SIZE: usize = 97;
const OFF: usize = 26;
const ADDEND: usize = 17;

#[test]
fn pc_check_all_aligned_zero() {
    let arr = [0_u8; 0x1000];

    let mut it = PageChunks::create_from(&arr, 0.into(), PAGE_SIZE.into());
    while let Some((addr, _chunk)) = it.next() {
        assert_eq!(addr.as_page_aligned(PAGE_SIZE.into()), addr);
    }
}

#[test]
fn pc_check_all_chunks_equal() {
    let arr = [0_u8; 100 * PAGE_SIZE];

    let mut it = PageChunks::create_from(&arr, 0.into(), PAGE_SIZE.into());
    while let Some((_addr, chunk)) = it.next() {
        println!("{:x} {:x}", _addr.as_u64(), chunk.len());
        assert_eq!(chunk.len(), PAGE_SIZE);
    }
}

#[test]
fn pc_check_all_chunks_equal_first_not() {
    const OFF: usize = 26;
    let arr = [0_u8; 100 * PAGE_SIZE + (PAGE_SIZE - OFF)];

    let mut page_iter = PageChunks::create_from(&arr, OFF.into(), PAGE_SIZE.into());

    {
        let (addr, chunk) = page_iter.next().unwrap();
        assert_eq!(addr, OFF.into());
        assert_eq!(chunk.len(), PAGE_SIZE - OFF);
    }

    while let Some((_addr, chunk)) = page_iter.next() {
        assert_eq!(chunk.len(), PAGE_SIZE);
    }
}

#[test]
fn pc_check_everything() {
    const TOTAL_LEN: usize = 100 * PAGE_SIZE + ADDEND - OFF;
    let arr = [0_u8; TOTAL_LEN];

    let mut cur_len = 0;
    let mut prev_len = 0;

    let mut page_iter = PageChunks::create_from(&arr, OFF.into(), PAGE_SIZE.into());

    {
        let (addr, chunk) = page_iter.next().unwrap();
        assert_eq!(addr, OFF.into());
        assert_eq!(chunk.len(), PAGE_SIZE - OFF);
        cur_len += chunk.len();
    }

    while let Some((_addr, chunk)) = page_iter.next() {
        if chunk.len() != ADDEND {
            assert_eq!(chunk.len(), PAGE_SIZE);
        }
        prev_len = chunk.len();
        cur_len += prev_len;
    }

    assert_eq!(prev_len, ADDEND);
    assert_eq!(cur_len, TOTAL_LEN);
}

#[test]
fn pc_check_size_hint() {
    const PAGE_COUNT: usize = 5;
    let arr = [0_u8; PAGE_SIZE * PAGE_COUNT];
    assert_eq!(
        PageChunks::create_from(&arr, 0.into(), PAGE_SIZE.into())
            .size_hint()
            .0,
        PAGE_COUNT
    );
    assert_eq!(
        PageChunks::create_from(&arr, 1.into(), PAGE_SIZE.into())
            .size_hint()
            .0,
        PAGE_COUNT + 1
    );
    assert_eq!(
        PageChunks::create_from(&arr, (PAGE_SIZE - 1).into(), PAGE_SIZE.into())
            .size_hint()
            .0,
        PAGE_COUNT + 1
    );
    assert_eq!(
        PageChunks::create_from(&arr, PAGE_SIZE.into(), PAGE_SIZE.into())
            .size_hint()
            .0,
        PAGE_COUNT
    );
}

#[test]
fn pc_mut_check_all_aligned_zero() {
    let mut arr = [0_u8; 0x1000];

    let mut it = PageChunksMut::create_from(&mut arr, 0.into(), PAGE_SIZE.into());
    while let Some((addr, _chunk)) = it.next() {
        assert_eq!(addr.as_page_aligned(PAGE_SIZE.into()), addr);
    }
}

#[test]
fn pc_mut_check_all_chunks_equal() {
    let mut arr = [0_u8; 100 * PAGE_SIZE];

    let mut it = PageChunksMut::create_from(&mut arr, 0.into(), PAGE_SIZE.into());
    while let Some((_addr, chunk)) = it.next() {
        println!("{:x} {:x}", _addr.as_u64(), chunk.len());
        assert_eq!(chunk.len(), PAGE_SIZE);
    }
}

#[test]
fn pc_mut_check_all_chunks_equal_first_not() {
    const OFF: usize = 26;
    let mut arr = [0_u8; 100 * PAGE_SIZE + (PAGE_SIZE - OFF)];

    let mut page_iter = PageChunksMut::create_from(&mut arr, OFF.into(), PAGE_SIZE.into());

    {
        let (addr, chunk) = page_iter.next().unwrap();
        assert_eq!(addr, OFF.into());
        assert_eq!(chunk.len(), PAGE_SIZE - OFF);
    }

    while let Some((_addr, chunk)) = page_iter.next() {
        assert_eq!(chunk.len(), PAGE_SIZE);
    }
}

#[test]
fn pc_mut_check_everything() {
    const TOTAL_LEN: usize = 100 * PAGE_SIZE + ADDEND - OFF;
    let mut arr = [0_u8; TOTAL_LEN];

    let mut cur_len = 0;
    let mut prev_len = 0;

    let mut page_iter = PageChunksMut::create_from(&mut arr, OFF.into(), PAGE_SIZE.into());

    {
        let (addr, chunk) = page_iter.next().unwrap();
        assert_eq!(addr, OFF.into());
        assert_eq!(chunk.len(), PAGE_SIZE - OFF);
        cur_len += chunk.len();
    }

    while let Some((_addr, chunk)) = page_iter.next() {
        if chunk.len() != ADDEND {
            assert_eq!(chunk.len(), PAGE_SIZE);
        }
        prev_len = chunk.len();
        cur_len += prev_len;
    }

    assert_eq!(prev_len, ADDEND);
    assert_eq!(cur_len, TOTAL_LEN);
}

#[test]
fn chunks_of_example_range() {
    let arr = [0_u8; 0x2010];
    let mut it = PageChunks::create_from(&arr, 0x1a.into(), 0x1000.into());
    assert_eq!(it.size_hint(), (3, Some(3)));
    let mut got = Vec::new();
    while let Some((addr, chunk)) = it.next() {
        got.push((addr.as_u64(), chunk.len()));
    }
    assert_eq!(
        got,
        vec![(0x1a, 0xfe6), (0x1000, 0x1000), (0x2000, 0x2a)]
    );
    assert_eq!(got.iter().map(|c| c.1).sum::<usize>(), 0x2010);
}

#[test]
fn chunks_of_empty_range() {
    let arr: [u8; 0] = [];
    let mut it = PageChunks::create_from(&arr, 0x1234.into(), 0x1000.into());
    assert_eq!(it.size_hint().0, 0);
    assert!(it.next().is_none());
}

#[test]
fn chunks_cover_the_buffer_in_order() {
    let arr: Vec<u8> = (0..250).map(|i| i as u8).collect();
    let mut it = PageChunks::create_from(&arr, 90.into(), 100.into());
    let mut joined = Vec::new();
    let mut next_addr = 90u64;
    let mut n = 0;
    while let Some((addr, chunk)) = it.next() {
        assert_eq!(addr.as_u64(), next_addr);
        assert!(chunk.len() <= 100);
        if n > 0 {
            assert_eq!(addr.as_u64() % 100, 0);
        }
        next_addr += chunk.len() as u64;
        joined.extend_from_slice(chunk);
        n += 1;
    }
    assert_eq!(joined, arr);
    assert_eq!(n, 4);
}

#[test]
fn size_hint_shrinks_as_chunks_come() {
    let arr = [0_u8; 300];
    let mut it = PageChunks::create_from(&arr, 99.into(), 100.into());
    let mut left = it.size_hint().0;
    assert_eq!(left, 4);
    while it.next().is_some() {
        left -= 1;
        assert_eq!(it.size_hint().0, left);
    }
    assert_eq!(left, 0);
}

#[test]
fn mut_chunks_are_disjoint_parts_of_the_buffer() {
    let mut arr = [0_u8; 250];
    {
        let mut it = PageChunksMut::create_from(&mut arr, 90.into(), 100.into());
        let mut n = 1u8;
        while let Some((_addr, chunk)) = it.next() {
            for b in chunk.iter_mut() {
                *b = n;
            }
            n += 1;
        }
    }
    assert!(arr[..10].iter().all(|b| *b == 1));
    assert!(arr[10..110].iter().all(|b| *b == 2));
    assert!(arr[110..210].iter().all(|b| *b == 3));
    assert!(arr[210..].iter().all(|b| *b == 4));
}
