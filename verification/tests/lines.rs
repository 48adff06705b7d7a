use uniqr::lines::copy_bytes;
use uniqr::lines::key_len;
use uniqr::lines::keys_equal;

#[test]
fn key_len_strips_trailing_terminators_only() {
    assert_eq!(key_len(&b"a\n".to_vec()), 1);
    assert_eq!(key_len(&b"a\r\n".to_vec()), 1);
    assert_eq!(key_len(&b"a".to_vec()), 1);
    assert_eq!(key_len(&b"a \n".to_vec()), 2);
    assert_eq!(key_len(&b"\n".to_vec()), 0);
    assert_eq!(key_len(&b"".to_vec()), 0);
    assert_eq!(key_len(&b"a\nb\n".to_vec()), 3);
}

#[test]
fn keys_equal_ignores_terminators_not_spaces() {
    assert!(keys_equal(&b"x\n".to_vec(), &b"x".to_vec()));
    assert!(keys_equal(&b"x\r\n".to_vec(), &b"x\n".to_vec()));
    assert!(!keys_equal(&b"x\n".to_vec(), &b"x ".to_vec()));
    assert!(!keys_equal(&b"x\n".to_vec(), &b"y\n".to_vec()));
    assert!(keys_equal(&b"\r\n".to_vec(), &b"\n".to_vec()));
}

#[test]
fn copy_bytes_is_exact() {
    let bytes = b"abc\r\n".to_vec();
    assert_eq!(copy_bytes(&bytes), bytes);
}
