use muon::{name_cmp, split};

#[test]
fn test_name_cmp() {
    assert_eq!(name_cmp(b"test", b"test"), true);
    assert_eq!(name_cmp(b"test", b"test1"), false);
    assert_eq!(name_cmp(b"test", b"tes"), false);
}

#[test]
fn test_split() {
    let (dir, file) = split("/home/user/file.txt").unwrap();
    assert_eq!(dir, "/home/user");
    assert_eq!(file, "file.txt");

    let (dir, file) = split("/file.txt").unwrap();
    assert_eq!(dir, "/");
    assert_eq!(file, "file.txt");

    let (dir, file) = split("/").unwrap();
    assert_eq!(dir, "/");
    assert_eq!(file, "");
}

#[test]
fn test_split_2() {
    let (dir, file) = split("/home/user//file.txt").unwrap();
    assert_eq!(dir, "/home/user");
    assert_eq!(file, "file.txt");

    let (dir, file) = split("//file.txt").unwrap();
    assert_eq!(dir, "/");
    assert_eq!(file, "file.txt");

    let (dir, file) = split("///").unwrap();
    assert_eq!(dir, "/");
    assert_eq!(file, "");
}
