use elrond_wasm::arena::Arena;
use elrond_wasm::boxed_bytes::BoxedBytes;
use elrond_wasm::codec::output::NestedEncodeOutput;
use elrond_wasm::managed_buffer::ManagedBuffer;

#[test]
fn new_empty_has_no_content() {
    let mut api = Arena::new();
    let buffer = ManagedBuffer::new_empty(&mut api);
    assert_eq!(buffer.len(&api), 0);
    assert_eq!(buffer.to_boxed_bytes(&api).as_slice(), &[] as &[u8]);
}

#[test]
fn new_from_bytes_holds_the_bytes() {
    let mut api = Arena::new();
    let buffer = ManagedBuffer::new_from_bytes(&mut api, b"abc");
    assert_eq!(buffer.len(&api), 3);
    assert_eq!(buffer.to_boxed_bytes(&api).as_slice(), b"abc");
}

#[test]
fn overwrite_replaces_the_whole_content() {
    let mut api = Arena::new();
    let buffer = ManagedBuffer::new_from_bytes(&mut api, b"abcdef");
    buffer.overwrite(&mut api, b"xy");
    assert_eq!(buffer.len(&api), 2);
    assert_eq!(buffer.to_boxed_bytes(&api).as_slice(), b"xy");
}

#[test]
fn append_and_append_bytes_agree() {
    let mut api = Arena::new();
    let mut fast = ManagedBuffer::new_from_bytes(&mut api, b"ab");
    let tail = ManagedBuffer::new_from_bytes(&mut api, b"xy");
    assert!(fast.push_specialized(&mut api, &tail));
    let mut slow = ManagedBuffer::new_from_bytes(&mut api, b"ab");
    slow.append_bytes(&mut api, b"xy");
    assert_eq!(fast.to_boxed_bytes(&api).as_slice(), b"abxy");
    assert_eq!(
        fast.to_boxed_bytes(&api).as_slice(),
        slow.to_boxed_bytes(&api).as_slice()
    );
    assert_eq!(tail.to_boxed_bytes(&api).as_slice(), b"xy");
}

#[test]
fn clone_does_not_share_the_handle() {
    let mut api = Arena::new();
    let source = ManagedBuffer::new_from_bytes(&mut api, b"ab");
    let mut copy = source.clone(&mut api);
    assert_ne!(source.get_raw_handle(), copy.get_raw_handle());
    copy.append_bytes(&mut api, b"cd");
    assert_eq!(source.to_boxed_bytes(&api).as_slice(), b"ab");
    assert_eq!(copy.to_boxed_bytes(&api).as_slice(), b"abcd");
}

#[test]
fn write_appends_raw_bytes() {
    let mut api = Arena::new();
    let mut buffer = ManagedBuffer::new_from_bytes(&mut api, b"ab");
    buffer.write(&mut api, b"cd");
    buffer.write(&mut api, b"");
    assert_eq!(buffer.to_boxed_bytes(&api).as_slice(), b"abcd");
    assert_eq!(buffer.len(&api), 4);
}

#[test]
fn push_specialized_leaves_other_types_to_the_caller() {
    let mut api = Arena::new();
    let mut buffer = ManagedBuffer::new_from_bytes(&mut api, b"ab");
    let local = BoxedBytes::from_slice(b"xy");
    assert!(!buffer.push_specialized(&mut api, &local));
    assert_eq!(buffer.to_boxed_bytes(&api).as_slice(), b"ab");
    let mut plain: Vec<u8> = vec![1];
    let managed = ManagedBuffer::new_from_bytes(&mut api, b"xy");
    assert!(!plain.push_specialized(&mut api, &managed));
    assert_eq!(plain, vec![1]);
}

#[test]
fn append_of_an_alias_doubles_the_content() {
    let mut api = Arena::new();
    let mut buffer = ManagedBuffer::new_from_bytes(&mut api, b"ab");
    let alias = ManagedBuffer::new_from_raw_handle(buffer.get_raw_handle());
    buffer.append(&mut api, &alias);
    assert_eq!(buffer.to_boxed_bytes(&api).as_slice(), b"abab");
    assert_eq!(alias.to_boxed_bytes(&api).as_slice(), b"abab");
}
