use tifflin::vfs::{
    Any, CacheHandle, Dir, DirIterStep, Error, File, FileOpenMode, MemoryMapMode, NodeKind,
    NodeOpens, NodeRead, ProtectionMode, PAGE_SIZE,
};

fn node(kind: NodeKind) -> CacheHandle {
    CacheHandle { inode: 7, kind, valid_size: 0x3000, executable: true }
}

fn open(mode: FileOpenMode) -> File {
    File::open(Ok(node(NodeKind::File)), mode, &mut NodeOpens::new()).unwrap()
}

#[test]
fn any_open_and_to_dir() {
    let a = Any::open(Ok(node(NodeKind::Dir))).unwrap();
    let d = a.to_dir().unwrap();
    assert_eq!(d.node().inode, 7);
    let a = Any::open(Ok(node(NodeKind::File))).unwrap();
    assert!(matches!(a.to_dir(), Err(Error::TypeMismatch)));
    assert!(matches!(Any::open(Err(Error::NotFound)), Err(Error::NotFound)));
}

#[test]
fn dir_open() {
    assert!(Dir::open(Ok(node(NodeKind::Dir))).is_ok());
    assert!(matches!(Dir::open(Ok(node(NodeKind::Symlink))), Err(Error::TypeMismatch)));
    assert!(matches!(Dir::open(Err(Error::IoError)), Err(Error::IoError)));
}

#[test]
fn file_open_checks_type() {
    let mut opens = NodeOpens::new();
    let f = File::open(Ok(node(NodeKind::File)), FileOpenMode::SharedRO, &mut opens).unwrap();
    assert_eq!(f.size(&node(NodeKind::File)), 0x3000);
    let grown = CacheHandle { valid_size: 0x5000, ..node(NodeKind::File) };
    assert_eq!(f.size(&grown), 0x5000);
    assert_eq!(f.mode(), FileOpenMode::SharedRO);
    assert_eq!(opens.count(FileOpenMode::SharedRO), 1);
    assert!(matches!(
        File::open(Ok(node(NodeKind::Dir)), FileOpenMode::Execute, &mut opens),
        Err(Error::TypeMismatch)
    ));
    assert!(matches!(
        File::open(Err(Error::NotFound), FileOpenMode::SharedRO, &mut opens),
        Err(Error::NotFound)
    ));
    assert_eq!(opens.count(FileOpenMode::SharedRO), 1);
    f.close(&mut opens);
    assert_eq!(opens, NodeOpens::new());
}

#[test]
fn execute_needs_executable_file() {
    let mut opens = NodeOpens::new();
    let plain = CacheHandle { inode: 3, kind: NodeKind::File, valid_size: 10, executable: false };
    assert!(matches!(
        File::open(Ok(plain), FileOpenMode::Execute, &mut opens),
        Err(Error::PermissionDenied)
    ));
    assert!(File::open(Ok(plain), FileOpenMode::SharedRO, &mut opens).is_ok());
    assert!(File::open(Ok(node(NodeKind::File)), FileOpenMode::Execute, &mut opens).is_ok());
}

#[test]
fn exclusive_open_denies_others_but_append() {
    let mut opens = NodeOpens::new();
    let f = File::open(Ok(node(NodeKind::File)), FileOpenMode::ExclRW, &mut opens).unwrap();
    for m in [
        FileOpenMode::SharedRO,
        FileOpenMode::Execute,
        FileOpenMode::ExclRW,
        FileOpenMode::UniqueRW,
        FileOpenMode::Unsynch,
    ] {
        assert!(matches!(File::open(Ok(node(NodeKind::File)), m, &mut opens), Err(Error::Locked)));
    }
    let a = File::open(Ok(node(NodeKind::File)), FileOpenMode::Append, &mut opens).unwrap();
    f.close(&mut opens);
    assert!(File::open(Ok(node(NodeKind::File)), FileOpenMode::SharedRO, &mut opens).is_ok());
    // With a shared reader live, an exclusive open is refused.
    assert!(matches!(
        File::open(Ok(node(NodeKind::File)), FileOpenMode::ExclRW, &mut opens),
        Err(Error::Locked)
    ));
    a.close(&mut opens);
}

#[test]
fn unsynchronised_open_needs_no_other_mode() {
    let mut opens = NodeOpens::new();
    let _r = File::open(Ok(node(NodeKind::File)), FileOpenMode::SharedRO, &mut opens).unwrap();
    assert!(matches!(
        File::open(Ok(node(NodeKind::File)), FileOpenMode::Unsynch, &mut opens),
        Err(Error::Locked)
    ));
    let mut opens = NodeOpens::new();
    let _u = File::open(Ok(node(NodeKind::File)), FileOpenMode::Unsynch, &mut opens).unwrap();
    let _u2 = File::open(Ok(node(NodeKind::File)), FileOpenMode::Unsynch, &mut opens).unwrap();
    assert_eq!(opens.count(FileOpenMode::Unsynch), 2);
    assert!(matches!(
        File::open(Ok(node(NodeKind::File)), FileOpenMode::Append, &mut opens),
        Err(Error::Locked)
    ));
}

#[test]
fn file_read_checks_mode() {
    let f = open(FileOpenMode::SharedRO);
    assert_eq!(f.read(10, 4), Ok(NodeRead { inode: 7, ofs: 10, len: 4 }));
    let a = open(FileOpenMode::Append);
    assert_eq!(a.read(0, 4), Err(Error::PermissionDenied));
}

#[test]
fn memory_map_permissions() {
    let ro = open(FileOpenMode::SharedRO);
    let ex = open(FileOpenMode::Execute);
    assert!(ro.memory_map(0x10000, 0, 0x2000, MemoryMapMode::ReadOnly).is_ok());
    assert_eq!(
        ro.memory_map(0x10000, 0, 0x2000, MemoryMapMode::Execute),
        Err(Error::PermissionDenied)
    );
    assert_eq!(ro.memory_map(0x10000, 0, 0x2000, MemoryMapMode::COW), Err(Error::PermissionDenied));
    assert_eq!(
        ex.memory_map(0x10000, 0, 0x2000, MemoryMapMode::WriteBack),
        Err(Error::PermissionDenied)
    );
    // Unaligned requests are refused with a permission error before the
    // alignment is looked at.
    assert_eq!(ro.memory_map(0x10001, 0, 3, MemoryMapMode::WriteBack), Err(Error::PermissionDenied));
}

#[test]
fn memory_map_plan() {
    let ex = open(FileOpenMode::Execute);
    let plan = ex.memory_map(0x40_0000, 0x3000, 0x2000, MemoryMapMode::Execute).unwrap();
    assert_eq!(plan.address, 0x40_0000);
    assert_eq!(plan.first_page, 3);
    assert_eq!(plan.page_count, 2);
    assert_eq!(plan.protection, ProtectionMode::UserRX);
    assert_eq!(plan.page_offset(0), 0x3000);
    assert_eq!(plan.page_offset(1), 0x4000);
    let mut job = plan.reserved(&ex, true).ok().unwrap();
    let mut offsets = Vec::new();
    while let Some((i, ofs)) = job.next_page() {
        offsets.push((i, ofs));
        job = job.page_read(Ok(())).ok().unwrap();
    }
    assert_eq!(offsets, vec![(0, 0x3000), (1, 0x4000)]);
    let (prot, h) = job.finish();
    assert_eq!(prot, ProtectionMode::UserRX);
    assert_eq!(h.base_address(), 0x40_0000);
    assert_eq!(h.mapped_len(), 2 * PAGE_SIZE);
    let cow = ex.memory_map(0, 0, 0x1000, MemoryMapMode::COW).unwrap();
    assert_eq!(cow.protection, ProtectionMode::UserCOW);
    let ro = ex.memory_map(0, 0, 0, MemoryMapMode::ReadOnly).unwrap();
    assert_eq!(ro.protection, ProtectionMode::UserRO);
    assert_eq!(ro.page_count, 0);
}

#[test]
fn memory_map_failures_stop_the_mapping() {
    let ex = open(FileOpenMode::Execute);
    let plan = ex.memory_map(0x40_0000, 0, 0x3000, MemoryMapMode::Execute).unwrap();
    assert!(matches!(plan.reserved(&ex, false), Err(Error::Locked)));
    let job = plan.reserved(&ex, true).ok().unwrap();
    let job = job.page_read(Ok(())).ok().unwrap();
    assert_eq!(job.next_page(), Some((1, 0x1000)));
    assert!(matches!(job.page_read(Err(Error::IoError)), Err(Error::IoError)));
}

#[test]
fn memory_map_alignment_mismatch() {
    let ex = open(FileOpenMode::Execute);
    assert_eq!(
        ex.memory_map(0x1000, 0x1234, 0x1000, MemoryMapMode::ReadOnly),
        Err(Error::MapAlignmentMismatch)
    );
}

#[test]
fn dir_mkdir_and_symlink() {
    let d = Dir::open(Ok(node(NodeKind::Dir))).unwrap();
    let sub = d.mkdir(Ok(CacheHandle { inode: 9, kind: NodeKind::Dir, valid_size: 0, executable: false })).unwrap();
    assert_eq!(sub.node().inode, 9);
    assert!(matches!(d.mkdir(Err(Error::IoError)), Err(Error::IoError)));
    assert!(d.symlink(Ok(node(NodeKind::Symlink))).is_ok());
    assert!(matches!(d.symlink(Err(Error::PermissionDenied)), Err(Error::PermissionDenied)));
}

fn slots(names: &[&str]) -> Vec<(u64, Vec<u8>)> {
    let mut v: Vec<(u64, Vec<u8>)> = names
        .iter()
        .enumerate()
        .map(|(i, n)| (i as u64 + 1, n.as_bytes().to_vec()))
        .collect();
    while v.len() < 4 {
        v.push((0, Vec::new()));
    }
    v
}

#[test]
fn dir_iter_walks_batches() {
    let d = Dir::open(Ok(node(NodeKind::Dir))).unwrap();
    let mut it = d.iter();
    let mut names: Vec<String> = Vec::new();
    let batches = vec![
        (Ok((4usize, 4usize)), slots(&["a", "b", "c", "d"])),
        (Ok((6, 2)), slots(&["e", "f"])),
        (Ok((6, 0)), slots(&[])),
    ];
    let mut batches = batches.into_iter();
    let mut reads = Vec::new();
    loop {
        match it.next() {
            DirIterStep::Item(n) => names.push(String::from_utf8(n).unwrap()),
            DirIterStep::Read { pos } => {
                reads.push(pos);
                let (res, ents) = batches.next().unwrap();
                match it.refill(res, ents) {
                    Some(n) => names.push(String::from_utf8(n).unwrap()),
                    None => break,
                }
            }
        }
    }
    assert_eq!(names, vec!["a", "b", "c", "d", "e", "f"]);
    assert_eq!(reads, vec![0, 4, 6]);
}

#[test]
fn dir_iter_read_error_ends() {
    let d = Dir::open(Ok(node(NodeKind::Dir))).unwrap();
    let mut it = d.iter();
    assert!(matches!(it.next(), DirIterStep::Read { pos: 0 }));
    assert!(it.refill(Err(Error::IoError), slots(&[])).is_none());
    assert!(matches!(it.next(), DirIterStep::Read { pos: 0 }));
}
