use nyansync::{PathTable, PathTableError};

#[test]
fn path_table_test_single_path() {
    let paths: [&[u8]; 1] = [b"/a"];
    let ft = PathTable::new(&paths).unwrap();

    assert_eq!(ft.offsets().len(), 1);
    assert_eq!(ft.get(0).unwrap(), b"/a");
}

#[test]
fn path_table_test_multiple_paths() {
    let paths: [&[u8]; 3] = [b"/a", b"/b", b"/c"];
    let ft = PathTable::new(&paths).unwrap();

    assert_eq!(ft.offsets().len(), 3);

    assert_eq!(ft.get(0).unwrap(), b"/a");
    assert_eq!(ft.get(1).unwrap(), b"/b");
    assert_eq!(ft.get(2).unwrap(), b"/c");
}

#[test]
fn path_table_test_long_paths() {
    let paths: [&[u8]; 3] = [b"/aaa", b"/bbbb", b"/ccccc"];
    let ft = PathTable::new(&paths).unwrap();

    assert_eq!(ft.get(0).unwrap(), b"/aaa");
    assert_eq!(ft.get(1).unwrap(), b"/bbbb");
    assert_eq!(ft.get(2).unwrap(), b"/ccccc");
}

#[test]
fn path_table_test_invalid_relative_path() {
    let paths: [&[u8]; 1] = [b"a"];
    let err = PathTable::new(&paths).err().unwrap();
    // the error of kind `InvalidInput`
    assert_eq!(err, PathTableError::NotAbsolute);
}

#[test]
fn path_table_test_out_of_bounds() {
    let paths: [&[u8]; 2] = [b"/a", b"/b"];
    let ft = PathTable::new(&paths).unwrap();

    assert!(ft.get(2).is_none());
    assert!(ft.get(100).is_none());
}

#[test]
fn path_table_test_empty() {
    let paths: [&[u8]; 0] = [];
    let ft = PathTable::new(&paths).unwrap();

    assert_eq!(ft.offsets().len(), 0);
    assert!(ft.get(0).is_none());
}

#[test]
fn path_table_test_internal_layout() {
    let paths: [&[u8]; 2] = [b"/a", b"/b"];
    let ft = PathTable::new(&paths).unwrap();

    // "/a\0/b"
    assert_eq!(ft.inner(), b"/a\0/b");

    // offsets: [0, 3]
    assert_eq!(ft.offsets(), &[0, 3]);
}

#[test]
fn path_table_test_iter_equivalence() {
    let paths: [&[u8]; 3] = [b"/a", b"/b", b"/c"];
    let ft = PathTable::new(&paths).unwrap();

    let collected: Vec<&[u8]> = (0..ft.offsets().len()).map(|i| ft.get(i).unwrap()).collect();

    let expected: Vec<&[u8]> = paths.to_vec();

    assert_eq!(collected, expected);
}

#[test]
fn path_table_rejects_nul_byte() {
    let paths: [&[u8]; 2] = [b"/a", b"/b\0c"];
    let err = PathTable::new(&paths).err().unwrap();
    assert_eq!(err, PathTableError::ContainsNul);
}

#[test]
fn path_table_first_bad_path_decides_the_error() {
    let paths: [&[u8]; 3] = [b"/a", b"/b\0", b"c"];
    assert_eq!(PathTable::new(&paths).err().unwrap(), PathTableError::ContainsNul);
    let paths: [&[u8]; 3] = [b"/a", b"", b"/b\0"];
    assert_eq!(PathTable::new(&paths).err().unwrap(), PathTableError::NotAbsolute);
}

#[test]
fn path_table_empty_path_is_not_absolute() {
    let paths: [&[u8]; 1] = [b""];
    assert_eq!(PathTable::new(&paths).err().unwrap(), PathTableError::NotAbsolute);
}

#[test]
fn path_table_root_and_long_layout() {
    let paths: [&[u8]; 3] = [b"/", b"/x/yz", b"/q"];
    let ft = PathTable::new(&paths).unwrap();
    assert_eq!(ft.inner(), b"/\0/x/yz\0/q");
    assert_eq!(ft.offsets(), &[0, 2, 8]);
    assert_eq!(ft.get(0).unwrap(), b"/");
    assert_eq!(ft.get(1).unwrap(), b"/x/yz");
    assert_eq!(ft.get(2).unwrap(), b"/q");
}
