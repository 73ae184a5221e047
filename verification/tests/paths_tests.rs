use fcomm::paths::path_successor;

#[test]
fn path_without_extension_gets_index_one() {
    assert_eq!(path_successor(b"function"), b"function.1".to_vec());
}

#[test]
fn numeric_extension_is_incremented() {
    assert_eq!(path_successor(b"function.1"), b"function.2".to_vec());
    assert_eq!(path_successor(b"function.9"), b"function.10".to_vec());
    assert_eq!(path_successor(b"function.0"), b"function.1".to_vec());
}

#[test]
fn non_numeric_extension_counts_as_zero() {
    assert_eq!(path_successor(b"function.txt"), b"function.1".to_vec());
    assert_eq!(path_successor(b"function.2x"), b"function.1".to_vec());
}

#[test]
fn only_the_file_name_carries_the_extension() {
    assert_eq!(path_successor(b"dir.3/function"), b"dir.3/function.1".to_vec());
    assert_eq!(path_successor(b"dir/function.4"), b"dir/function.5".to_vec());
}

#[test]
fn leading_dot_names_have_no_extension() {
    assert_eq!(path_successor(b".hidden"), b".hidden.1".to_vec());
    assert_eq!(path_successor(b"d/.hidden"), b"d/.hidden.1".to_vec());
}

#[test]
fn oversized_numeric_extensions_count_as_zero() {
    assert_eq!(
        path_successor(b"f.99999999999999999999999999999999"),
        b"f.1".to_vec()
    );
}

#[test]
fn empty_extension_counts_as_zero() {
    assert_eq!(path_successor(b"function."), b"function.1".to_vec());
}
