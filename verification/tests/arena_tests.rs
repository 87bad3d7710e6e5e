use arenas::arenas::bump_allocator::BumpAlloc;
use arenas::arenas::stack_allocator::StackAlloc;
use arenas::layout::Layout;

const LENGTH: usize = 1000;

fn i16s_to_bytes(values: &[i16]) -> Vec<u8> {
    let mut bytes = Vec::new();
    for v in values {
        bytes.extend_from_slice(&v.to_le_bytes());
    }
    bytes
}

fn i64s_to_bytes(values: &[i64]) -> Vec<u8> {
    let mut bytes = Vec::new();
    for v in values {
        bytes.extend_from_slice(&v.to_le_bytes());
    }
    bytes
}

// bump allocator tests

#[test]
fn arena_size() {
    let bumb_alloc = BumpAlloc::build(LENGTH);

    assert_eq!(bumb_alloc.arena.layout.size(), LENGTH);
}

#[test]
fn not_enough_space_to_allocate() {
    let mut bumb_alloc = BumpAlloc::build(0);
    let layout = Layout::new::<i32>();
    let ptr = bumb_alloc.push(&layout); // no remaining space
    assert_eq!(bumb_alloc.arena.used_bytes, 0); // used_bytes does not change
    assert!(ptr.is_none());
}

#[test]
fn bumb_alloc() {
    let mut bumb_alloc = BumpAlloc::build(LENGTH);

    let layout = Layout::new::<i32>();
    let _ = bumb_alloc.push(&layout);

    bumb_alloc.clear();

    assert_eq!(bumb_alloc.arena.layout.size(), 0);
    // an alignment of 0 bytes is not a layout
    assert_eq!(bumb_alloc.arena.layout.align(), 1);
    assert_eq!(bumb_alloc.arena.used_bytes, 0);
    assert_eq!(bumb_alloc.arena.tracker, 0);
    assert_eq!(bumb_alloc.arena.start, 0);
    assert!(bumb_alloc.arena.memory.is_empty());
}

#[test]
fn arena_push_primitives() {
    let mut bumb_alloc = BumpAlloc::build(LENGTH);

    let layout = Layout::new::<[i16; 2]>();
    let ptr_1 = bumb_alloc.push(&layout).unwrap();
    assert_eq!(bumb_alloc.arena.used_bytes, 4);

    let layout = Layout::new::<[i64; 3]>();
    let ptr_2 = bumb_alloc.push(&layout).unwrap();
    let padding = 4;
    let prev_area_used_bytes = 4;
    assert_eq!(
        bumb_alloc.arena.used_bytes,
        prev_area_used_bytes + layout.size() + padding
    );

    // the data lands where the allocations start
    bumb_alloc.arena.write(ptr_1, &i16s_to_bytes(&[1, 2]));
    bumb_alloc.arena.write(ptr_2, &i64s_to_bytes(&[3, 4, 5]));
    assert_eq!(bumb_alloc.arena.read(ptr_1, 4), i16s_to_bytes(&[1, 2]));
    assert_eq!(bumb_alloc.arena.read(ptr_2, 24), i64s_to_bytes(&[3, 4, 5]));

    bumb_alloc.clear();
}

#[test]
fn arena_push_struct() {
    #[allow(dead_code)]
    #[derive(Debug)]
    struct Foo {
        data: bool,
        more_data: u64,
    }
    #[allow(dead_code)]
    #[derive(Debug)]
    struct Boo {
        some_data: u8,
        more_more_data: char,
    }

    let foo_layout = Layout::new::<Foo>();
    let boo_layout = Layout::new::<Boo>();
    let mut bumb_alloc = BumpAlloc::build(LENGTH);

    let ptr_1 = bumb_alloc.push(&foo_layout).unwrap();
    assert_eq!(bumb_alloc.arena.used_bytes, foo_layout.size());

    let ptr_2 = bumb_alloc.push(&boo_layout).unwrap();
    let prev_area_used_bytes = 16;
    assert_eq!(
        bumb_alloc.arena.used_bytes,
        prev_area_used_bytes + boo_layout.size()
    );

    // store the fields of `Foo { data: true, more_data: 2837 }` and
    // `Boo { some_data: 255, more_more_data: '1' }`
    bumb_alloc.arena.write(ptr_1, &2837u64.to_le_bytes());
    bumb_alloc.arena.write(ptr_1 + 8, &[1u8]);
    bumb_alloc.arena.write(ptr_2, &('1' as u32).to_le_bytes());
    bumb_alloc.arena.write(ptr_2 + 4, &[255u8]);

    let more_data = bumb_alloc.arena.read(ptr_1, 8);
    let data = bumb_alloc.arena.read(ptr_1 + 8, 1);
    let more_more_data = bumb_alloc.arena.read(ptr_2, 4);
    let some_data = bumb_alloc.arena.read(ptr_2 + 4, 1);
    println!("{:?} {:?} {:?} {:?}", ptr_1, data, ptr_2, some_data);
    assert_eq!(more_data, 2837u64.to_le_bytes().to_vec());
    assert_eq!(data, vec![1u8]);
    assert_eq!(more_more_data, ('1' as u32).to_le_bytes().to_vec());
    assert_eq!(some_data, vec![255u8]);

    bumb_alloc.clear();
}

// Stack allocator tests

#[test]
fn arena_pop() {
    let mut stack_alloc = StackAlloc::build(100);

    // with primitives
    let layout = Layout::new::<i32>();
    let _ptr_1 = stack_alloc.push(&layout);
    let layout = Layout::new::<i128>();
    let _ptr_2 = stack_alloc.push(&layout);
    let layout = Layout::new::<i8>();
    let _ptr_3 = stack_alloc.push(&layout);
    stack_alloc.pop();
    stack_alloc.pop();
    stack_alloc.pop();
    stack_alloc.pop(); // pop when used_bytes == 0 changes nothing
    assert_eq!(stack_alloc.arena.used_bytes, 0);
}
