use oso::parser::stream::IO;

struct Bytes;

impl IO for Bytes {}

#[test]
fn io_sizes_are_the_sizes_of_the_types() {
    assert_eq!(Bytes::size::<u8>(), 1);
    assert_eq!(Bytes::size::<u32>(), 4);
    assert_eq!(Bytes::size::<u64>(), 8);
    assert_eq!(Bytes::size::<[u16; 3]>(), 6);
}
