use guest_abi::arena::{allocate, deallocate, Arena};
use guest_abi::capability::{greeting, reversed, workspace_files};
use guest_abi::host::callback_text;
use guest_abi::{bytes_from_ptr, ptr_from_bytes, ptr_from_string, string_from_ptr};
use guest_abi::{callback, get_string_size, hello, reverse, sum, workspace_write};

#[test]
fn it_works() {
    let mut arena = Arena::new();
    let mut buffer: Vec<u8> = Vec::with_capacity(2);
    buffer.push(1);
    buffer.push(42);

    let pointer = ptr_from_bytes(&mut arena, buffer);

    reverse(&mut arena, pointer);
}

#[test]
fn reverse_turns_a_length_prefixed_payload_around() {
    let mut arena = Arena::new();
    let pointer = allocate(&mut arena, 6);
    arena.write(pointer, 0, &[0x02, 0x00, 0x00, 0x00, 0x01, 0x2A]);
    let result = reverse(&mut arena, pointer);
    assert_ne!(result, 0);
    assert!(!arena.is_live(pointer));
    assert_eq!(arena.peek(result), &[2u8, 0, 0, 0, 42, 1][..]);
    assert_eq!(bytes_from_ptr(&mut arena, result), vec![42, 1]);
    assert!(!arena.is_live(result));
}

#[test]
fn reverse_of_an_encoded_payload() {
    let mut arena = Arena::new();
    let pointer = ptr_from_bytes(&mut arena, vec![1, 42]);
    let result = reverse(&mut arena, pointer);
    assert_eq!(bytes_from_ptr(&mut arena, result), vec![42, 1]);
}

#[test]
fn reverse_twice_gives_the_payload_back() {
    let payloads: Vec<Vec<u8>> =
        vec![vec![], vec![7], vec![1, 42], vec![1, 2, 3], (0..=255).collect()];
    for payload in payloads {
        let mut arena = Arena::new();
        let pointer = ptr_from_bytes(&mut arena, payload.clone());
        let once = reverse(&mut arena, pointer);
        let twice = reverse(&mut arena, once);
        assert_eq!(bytes_from_ptr(&mut arena, twice), payload);
        assert_eq!(reversed(reversed(payload.clone())), payload);
    }
}

#[test]
fn reversed_turns_bytes_around() {
    assert_eq!(reversed(vec![]), Vec::<u8>::new());
    assert_eq!(reversed(vec![5]), vec![5]);
    assert_eq!(reversed(vec![1, 2, 3]), vec![3, 2, 1]);
    assert_eq!(reversed(vec![1, 42]), vec![42, 1]);
}

#[test]
fn hello_greets_by_name() {
    let mut arena = Arena::new();
    let name = ptr_from_string(&mut arena, "World".to_string());
    let result = hello(&mut arena, name);
    assert_ne!(result, 0);
    assert!(!arena.is_live(name));
    assert_eq!(get_string_size(&arena, result), 11);
    assert_eq!(string_from_ptr(&mut arena, result), "Hello World");
    assert!(!arena.is_live(result));
}

#[test]
fn hello_greets_nobody_and_names_of_many_bytes() {
    let mut arena = Arena::new();
    let name = ptr_from_string(&mut arena, String::new());
    let result = hello(&mut arena, name);
    assert_eq!(arena.peek(result), &[b'H', b'e', b'l', b'l', b'o', b' ', 0][..]);
    assert_eq!(string_from_ptr(&mut arena, result), "Hello ");

    let name = ptr_from_string(&mut arena, "日本".to_string());
    let result = hello(&mut arena, name);
    assert_eq!(get_string_size(&arena, result), 12);
    assert_eq!(string_from_ptr(&mut arena, result), "Hello 日本");
}

#[test]
fn greeting_puts_the_word_before_the_name() {
    assert_eq!(greeting("World"), "Hello World");
    assert_eq!(greeting(""), "Hello ");
}

#[test]
fn sum_adds_and_allocates_nothing() {
    assert_eq!(sum(2, 3), 5);
    assert_eq!(sum(-2, 2), 0);
    assert_eq!(sum(i32::MAX, 0), i32::MAX);
    assert_eq!(sum(i32::MAX, i32::MIN), -1);
    assert_eq!(sum(i32::MIN + 1, -1), i32::MIN);
}

#[test]
fn callback_sends_the_name_as_text() {
    let mut arena = Arena::new();
    assert_eq!(callback_text(), "World");
    let name = callback(&mut arena);
    assert_ne!(name, 0);
    assert!(arena.is_live(name));
    assert_eq!(arena.peek(name), &[b'W', b'o', b'r', b'l', b'd', 0][..]);
}

#[test]
fn callback_answered_by_a_host_leaves_only_the_result() {
    let mut arena = Arena::new();
    let name = callback(&mut arena);
    // The host: uses the argument up and answers with a region of its own.
    let text = string_from_ptr(&mut arena, name);
    let result = ptr_from_string(&mut arena, format!("Called back by {}", text));
    assert!(!arena.is_live(name));
    // The guest's caller: owns the result.
    let size = get_string_size(&arena, result);
    assert_eq!(arena.read(result, 0, size), b"Called back by World".to_vec());
    deallocate(&mut arena, result, size + 1);
    assert!(!arena.is_live(result));
}

#[test]
fn workspace_files_are_named_after_the_directory() {
    let files = workspace_files("/tmp/ws".to_string());
    assert_eq!(files.input, "/tmp/ws/in.txt");
    assert_eq!(files.announced, "/tmp/ws/hello.txt");
    assert_eq!(files.target, "/tmp/ws");
    assert_eq!(files.contents, "blah");
}

#[test]
fn workspace_write_uses_the_directory_region_up() {
    let mut arena = Arena::new();
    let dir = ptr_from_string(&mut arena, "work".to_string());
    let files = workspace_write(&mut arena, dir);
    assert!(!arena.is_live(dir));
    assert_eq!(files.input, "work/in.txt");
    assert_eq!(files.announced, "work/hello.txt");
    assert_eq!(files.target, "work");
    assert_eq!(files.contents, "blah");
}
