use repomap::walk::is_binary;

#[test]
fn test_is_binary() {
    let text = "This is just some text\n";
    assert!(!is_binary(text.as_bytes()));

    let bin: [u8; 5] = [0, 155, 20, 0, 255];
    assert!(is_binary(&bin));
}

use repomap::walk::SNIFF_LEN;

#[test]
fn empty_content_is_not_binary() {
    assert!(!is_binary(&[]));
}

#[test]
fn zero_is_looked_for_in_the_first_bytes_only() {
    assert_eq!(SNIFF_LEN, 1024);
    let mut bytes = vec![b'a'; 2048];
    bytes[1024] = 0;
    assert!(!is_binary(&bytes));
    bytes[1023] = 0;
    assert!(is_binary(&bytes));
}

#[test]
fn zero_at_the_end_of_a_short_file_is_found() {
    assert!(is_binary(b"abc\0"));
    assert!(!is_binary("héllo wörld".as_bytes()));
}
