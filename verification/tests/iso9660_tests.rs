use tifflin::iso9660::{
    parse_primary_descriptor, Dir, DirNext, Driver, Instance, IoError, MountError, MountScan,
    ScanStep, VolumeInfo,
};

fn descriptor(kind: u8) -> Vec<u8> {
    let mut b = vec![0u8; 2048];
    b[0] = kind;
    b[1..6].copy_from_slice(b"CD001");
    b
}

fn primary(lb: u16, root_lba: u32, root_size: u32) -> Vec<u8> {
    let mut b = descriptor(1);
    b[128..130].copy_from_slice(&lb.to_le_bytes());
    b[130..132].copy_from_slice(&lb.to_be_bytes());
    b[158..162].copy_from_slice(&root_lba.to_le_bytes());
    b[162..166].copy_from_slice(&root_lba.to_be_bytes());
    b[166..170].copy_from_slice(&root_size.to_le_bytes());
    b[170..174].copy_from_slice(&root_size.to_be_bytes());
    b
}

#[test]
fn detect_signature() {
    let d = Driver;
    assert_eq!(d.detect_block(512), 64);
    assert_eq!(d.detect_block(2048), 16);
    assert_eq!(d.detect_block(65536), 0);
    assert_eq!(d.detect(&descriptor(1)), 1);
    assert_eq!(d.detect(&descriptor(255)), 1);
    let mut b = descriptor(1);
    b[3] = b'X';
    assert_eq!(d.detect(&b), 0);
    assert_eq!(d.detect(&[0, 0, 0, 0, 0, 0]), 0);
}

#[test]
fn mount_rejects_bad_sector_size() {
    assert_eq!(MountScan::start(1000).err(), Some(MountError::SectorSizeNotFactor));
    assert_eq!(MountScan::start(4096).err(), Some(MountError::SectorSizeNotFactor));
    let s = MountScan::start(512).unwrap();
    assert_eq!((s.scale, s.sector), (4, 16));
    assert_eq!(s.block_to_read(), 64);
}

/// Drives a mount scan over an in-memory image made of 2048-byte sectors.
fn mount(image: &[Vec<u8>], block_size: usize) -> Result<VolumeInfo, MountError> {
    let mut scan = MountScan::start(block_size)?;
    loop {
        let block = scan.block_to_read() as usize;
        let byte = block * block_size;
        let sector = &image[byte / 2048];
        match scan.feed(sector) {
            ScanStep::Next => {}
            ScanStep::Found(info) => return Ok(info),
            ScanStep::Failed(e) => return Err(e),
        }
    }
}

fn image(descs: Vec<Vec<u8>>) -> Vec<Vec<u8>> {
    let mut img = vec![vec![0u8; 2048]; 16];
    img.extend(descs);
    img
}

#[test]
fn mount_finds_primary_after_others() {
    let img = image(vec![descriptor(0), descriptor(2), primary(2048, 20, 4096), descriptor(255)]);
    let info = mount(&img, 2048).unwrap();
    assert_eq!(info, VolumeInfo { lb_size: 2048, root_lba: 20, root_size: 4096 });
    let info = mount(&img, 512).unwrap();
    assert_eq!(info.root_lba, 20);
}

#[test]
fn mount_errors() {
    let img = image(vec![descriptor(0), descriptor(255)]);
    assert_eq!(mount(&img, 2048), Err(MountError::NoPrimaryDescriptor));
    let mut bad = descriptor(1);
    bad[5] = b'2';
    let img = image(vec![bad]);
    assert_eq!(mount(&img, 2048), Err(MountError::InvalidDescriptor));
}

#[test]
fn parse_primary_fields() {
    let info = parse_primary_descriptor(&primary(0x0800, 0x1234_5678, 0xAABB_CCDD));
    assert_eq!(info.lb_size, 0x800);
    assert_eq!(info.root_lba, 0x1234_5678);
    assert_eq!(info.root_size, 0xAABB_CCDD);
}

#[test]
fn instance_root_and_sectors() {
    let inst = Instance::new(VolumeInfo { lb_size: 2048, root_lba: 20, root_size: 4096 }, 512);
    assert_eq!(inst.root_inode(), 20);
    assert_eq!(inst.get_node_by_inode(20), Some(Dir { first_lba: 20, size: 4096 }));
    assert_eq!(inst.sector_block(21), 84);
    assert_eq!(inst.sector_buffer(), vec![0u8; 2048]);
    assert_eq!(inst.lb_size(), 2048);
}

#[test]
fn dir_is_read_only() {
    let d = Dir { first_lba: 1, size: 10 };
    assert_eq!(d.create(b"x"), Err(IoError::ReadOnly));
    assert_eq!(d.link(b"x", 3), Err(IoError::ReadOnly));
    assert_eq!(d.unlink(b"x"), Err(IoError::ReadOnly));
}

fn record(extent: u32, name: &[u8]) -> Vec<u8> {
    let len = 33 + name.len() + (name.len() + 1) % 2;
    let mut r = vec![0u8; len];
    r[0] = len as u8;
    r[2..6].copy_from_slice(&extent.to_le_bytes());
    r[32] = name.len() as u8;
    r[33..33 + name.len()].copy_from_slice(name);
    r
}

/// Reads a directory whose sectors (relative to its extent) are `sectors`,
/// from `ofs`, into `cap` slots; returns (entries, pos, count, sectors read).
fn read_dir(
    dir: &Dir,
    sectors: &[Vec<u8>],
    lb: usize,
    ofs: usize,
    cap: usize,
) -> (Vec<(u64, Vec<u8>)>, usize, usize, Vec<u32>) {
    let mut rd = dir.read(lb, ofs, cap);
    let mut loaded = Vec::new();
    let mut lba = rd.sector_lba();
    loaded.push(lba);
    let mut data = sectors[(lba - dir.first_lba) as usize].clone();
    let mut items = Vec::new();
    loop {
        assert!(rd.can_step(&data));
        let step = rd.step(&data);
        if let Some(e) = step.entry {
            items.push(e);
        }
        match step.next {
            DirNext::Continue => {}
            DirNext::ReadSector => {
                lba = rd.sector_lba();
                loaded.push(lba);
                data = sectors
                    .get((lba - dir.first_lba) as usize)
                    .cloned()
                    .unwrap_or_else(|| vec![0u8; lb]);
            }
            DirNext::Finished { pos, count } => return (items, pos, count, loaded),
        }
    }
}

fn dir_sectors() -> Vec<Vec<u8>> {
    let mut s0 = Vec::new();
    s0.extend(record(30, &[0]));
    s0.extend(record(20, &[1]));
    s0.extend(record(31, b"README.TXT;1"));
    s0.resize(2048, 0);
    let mut s1 = Vec::new();
    s1.extend(record(32, b"BOOT"));
    s1.resize(2048, 0);
    vec![s0, s1]
}

#[test]
fn dir_read_all_entries() {
    let dir = Dir { first_lba: 30, size: 2048 + 38 };
    let (items, pos, count, loaded) = read_dir(&dir, &dir_sectors(), 2048, 0, 8);
    let names: Vec<Vec<u8>> = items.iter().map(|e| e.1.clone()).collect();
    assert_eq!(names, vec![vec![0u8], vec![1u8], b"README.TXT;1".to_vec(), b"BOOT".to_vec()]);
    assert_eq!(items[2].0, 31);
    assert_eq!(items[3].0, 32);
    assert_eq!(count, 4);
    assert_eq!(pos, 2048 + 38);
    assert_eq!(loaded, vec![30, 31]);
}

#[test]
fn dir_read_stops_when_full_and_resumes() {
    let dir = Dir { first_lba: 30, size: 2048 + 38 };
    let sectors = dir_sectors();
    let (items, pos, count, _) = read_dir(&dir, &sectors, 2048, 0, 2);
    assert_eq!(count, 2);
    assert_eq!(items.len(), 2);
    assert_eq!(pos, 68);
    let (items, pos, count, _) = read_dir(&dir, &sectors, 2048, pos, 2);
    assert_eq!(count, 2);
    assert_eq!(items[0].1, b"README.TXT;1".to_vec());
    assert_eq!(items[1].1, b"BOOT".to_vec());
    assert_eq!(pos, 2048 + 38);
    let (items, pos2, count, _) = read_dir(&dir, &sectors, 2048, pos, 2);
    assert_eq!((items.len(), count, pos2), (0, 0, pos));
}

#[test]
fn dir_read_split_equals_whole() {
    let dir = Dir { first_lba: 30, size: 2048 + 38 };
    let sectors = dir_sectors();
    for a in 1..4usize {
        let (first, n1, c1, _) = read_dir(&dir, &sectors, 2048, 0, a);
        assert_eq!(c1, a);
        let (second, n2, c2, _) = read_dir(&dir, &sectors, 2048, n1, 4 - a);
        let (whole, n3, c3, _) = read_dir(&dir, &sectors, 2048, 0, 4);
        let mut joined = first.clone();
        joined.extend(second);
        assert_eq!(joined, whole);
        assert_eq!((n3, c3), (n2, c1 + c2));
    }
}

#[test]
fn dir_read_rejects_malformed_record() {
    let dir = Dir { first_lba: 30, size: 2048 };
    let mut s0 = vec![0u8; 2048];
    s0[0] = 20; // too short to hold the fixed fields
    let rd = dir.read(2048, 0, 4);
    assert!(!rd.can_step(&s0));
    let rd = dir.read(2048, 0, 0);
    assert!(!rd.can_step(&dir_sectors()[0]));
}

#[test]
fn mountable_image_is_detected() {
    let img = image(vec![descriptor(0), primary(2048, 20, 4096), descriptor(255)]);
    let bytes: Vec<u8> = img.concat();
    for bs in [512usize, 1024, 2048] {
        assert!(mount(&img, bs).is_ok());
        let d = Driver;
        let blk = d.detect_block(bs) as usize;
        let block = &bytes[blk * bs..blk * bs + bs];
        assert_eq!(d.detect(block), 1);
        assert_eq!(MountScan::start(bs).unwrap().block_to_read(), blk as u64);
    }
}
