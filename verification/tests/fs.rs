use arceos::fs::FileSystemList;
use arceos::vfs::SeekFrom;

#[test]
fn registry_keeps_first() {
    let mut l: FileSystemList<&str> = FileSystemList::new();
    assert_eq!(l.first(), None);
    l.add("fat32");
    l.add("ramfs");
    assert_eq!(l.first(), Some(&"fat32"));
}

#[test]
fn seek_origins() {
    assert_eq!(SeekFrom::Start(3), SeekFrom::Start(3));
    assert_ne!(SeekFrom::Current(-1), SeekFrom::End(-1));
}
