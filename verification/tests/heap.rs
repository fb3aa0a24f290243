use kcore::block::{Block, HEADER_SIZE, MAGIC, USED};
use kcore::zone::{Stat, Zone};

#[test]
fn empty_block() {
    let b0 = Block::new(0);
    assert!(b0.next == None);
    assert!(b0.prev == None);
    assert!(b0.magic == MAGIC);
    assert!(b0.magic & USED == 0);
    assert!(b0.size == 0);
}

#[test]
fn single_link() {
    let mut blocks: Vec<Block> = Vec::new();
    blocks.push(Block::new(0));
    blocks.push(Block::new(0));

    Block::insert(&mut blocks, 0, 1);
    assert!(blocks[0].prev == None);
    assert!(blocks[0].next == Some(1));
    assert!(blocks[1].prev == Some(0));
    assert!(blocks[1].next == None);
}

#[test]
fn insert_before_next() {
    let mut blocks: Vec<Block> = Vec::new();
    blocks.push(Block::new(0));
    blocks.push(Block::new(0));
    blocks.push(Block::new(0));

    Block::insert(&mut blocks, 0, 2);
    Block::insert(&mut blocks, 0, 1);

    assert!(blocks[0].prev == None);
    assert!(blocks[0].next == Some(1));
    assert!(blocks[1].prev == Some(0));
    assert!(blocks[1].next == Some(2));
    assert!(blocks[2].prev == Some(1));
    assert!(blocks[2].next == None);
}

#[test]
fn single_merge() {
    let mut blocks: Vec<Block> = Vec::new();
    blocks.push(Block::new(32));
    blocks.push(Block::new(16));

    Block::insert(&mut blocks, 0, 1);
    assert!(Block::merge(&mut blocks, 0));
    assert!(blocks[0].is_valid());
    assert!(!blocks[1].is_valid());
    assert!(blocks[0].next == None);
    assert!(blocks[0].size == 32 + 16 + HEADER_SIZE as u32);
}

#[test]
fn merge_before_next() {
    let mut blocks: Vec<Block> = Vec::new();
    blocks.push(Block::new(24));
    blocks.push(Block::new(32));
    blocks.push(Block::new(16));

    Block::insert(&mut blocks, 0, 2);
    Block::insert(&mut blocks, 0, 1);
    assert!(Block::merge(&mut blocks, 0));
    assert!(blocks[0].is_valid());
    assert!(!blocks[1].is_valid());
    assert!(blocks[2].is_valid());
    assert!(blocks[0].next == Some(2));
    assert!(blocks[2].prev == Some(0));
    assert!(blocks[0].size == 24 + 32 + HEADER_SIZE as u32);
    assert!(Block::merge(&mut blocks, 0));
    assert!(blocks[0].is_valid());
    assert!(!blocks[1].is_valid());
    assert!(!blocks[2].is_valid());
    assert!(blocks[0].next == None);
    assert!(blocks[0].size == 24 + 32 + 16 + 2 * HEADER_SIZE as u32);
}

#[test]
fn no_merge() {
    let mut blocks: Vec<Block> = Vec::new();
    blocks.push(Block::new(24));
    assert!(!Block::merge(&mut blocks, 0));
}

#[test]
fn data_ptr() {
    let b0 = Block::new(24);
    let data = b0.data();

    let addr0 = b0.addr;
    let addr1 = data;

    assert!(addr0 + HEADER_SIZE == addr1);
}

#[test]
fn block_place() {
    let ptr0: u64 = 0x1000;
    let block = Block::place(ptr0, 32);
    let ptr1 = block.addr;
    assert!(ptr0 == ptr1);
}

#[test]
fn alloc_no_split() {
    let buf_ptr: u64 = 0x1000;

    let mut blocks: Vec<Block> = Vec::new();
    blocks.push(Block::place(buf_ptr, 32));
    let res = Block::allocate(&mut blocks, 0, 24);

    assert!(res.is_some());
    assert!(res.unwrap() == blocks[0].data());
    assert!(blocks[0].is_used());
    assert!(blocks[0].next == None);
    assert!(blocks[0].size == 32);
}

#[test]
fn alloc_split() {
    let buf_ptr: u64 = 0x1000;

    let mut blocks: Vec<Block> = Vec::new();
    blocks.push(Block::place(buf_ptr, 128));
    let res = Block::allocate(&mut blocks, 0, 64);

    assert!(res.is_some());
    assert!(res.unwrap() == blocks[0].data());
    assert!(blocks[0].is_used());
    assert!(blocks[0].next != None);
    assert!(blocks[0].size == 64);

    let b1 = &blocks[1];

    assert!(b1.is_valid());
    assert!(b1.next == None);
    assert!(b1.prev == Some(0));
    assert!(b1.size() == 128 - 64 - HEADER_SIZE as usize);
}

#[test]
fn no_alloc() {
    let buf_ptr: u64 = 0x1000;

    let mut blocks: Vec<Block> = Vec::new();
    blocks.push(Block::place(buf_ptr, 128));
    assert!(Block::allocate(&mut blocks, 0, 65536).is_none());
    assert!(blocks[0].is_valid());
    assert!(!blocks[0].is_used());
    assert!(blocks[0].size == 128);
}

#[test]
fn zone_place() {
    let buf_ptr: u64 = 0x1000;

    let zone = Zone::place(buf_ptr, 32768);

    assert!(zone.head == Some(0));
    let block = &zone.blocks[0];
    assert!(block.addr == buf_ptr);
    assert!(block.size() == 32768 - HEADER_SIZE as usize);
    assert!(block.is_valid());
}

#[test]
fn zone_alloc() {
    let buf_ptr: u64 = 0x1000;

    let mut zone = Zone::place(buf_ptr, 32768);
    let res = zone.allocate(256);
    let block = &zone.blocks[0];
    assert!(res.is_some());
    assert!(res.unwrap() == block.data());
    assert!(block.is_used());
    assert!(block.size() == 256);
}

#[test]
fn empty_stat() {
    let buf_ptr: u64 = 0x1000;

    let zone = Zone::place(buf_ptr, 32768);
    let mut st0 = Stat::new();

    zone.stat(&mut st0);
    assert!(st0.blocks == 1);
    assert!(st0.alloc == 0);
    assert!(st0.bytes_free == 32768 - HEADER_SIZE as usize);
    assert!(st0.bytes_alloc == 0);
}

#[test]
fn stat() {
    let buf_ptr: u64 = 0x1000;

    let mut zone = Zone::place(buf_ptr, 32768);
    zone.allocate(16);
    zone.allocate(24);
    zone.allocate(32);
    let mut st0 = Stat::new();

    zone.stat(&mut st0);
    assert!(st0.blocks == 4);
    assert!(st0.alloc == 3);
    assert!(st0.bytes_free == 32768 - 4 * HEADER_SIZE as usize - 16 - 24 - 32);
    assert!(st0.bytes_alloc == 16 + 24 + 32);
}
