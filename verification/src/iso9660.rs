//! ISO9660 filesystem driver: volume detection, the volume descriptor scan
//! that mounting does, and the walk over directory records.
//!
//! The volume's block reads are the storage layer's work; the driver's
//! decisions are written here as functions of the bytes read, and the scans
//! that read as they go are state machines that say which block to read
//! next.
use vstd::prelude::*;

verus! {

/// Identifier of a node within the filesystem (here: its first LBA).
pub type InodeId = u64;

/// Size of an ISO9660 sector in bytes.
pub const ISO_SECTOR_SIZE: usize = 2048;

/// Byte offset of the first volume descriptor on the volume.
pub const DESCRIPTOR_AREA_OFFSET: u64 = 32768;

/// Sector holding the first volume descriptor.
pub const FIRST_DESCRIPTOR_SECTOR: usize = 16;

/// The little-endian 16-bit value at `at`.
pub open spec fn le_u16(b: Seq<u8>, at: int) -> u16 {
    (b[at] as int + b[at + 1] as int * 0x100) as u16
}

/// The little-endian 32-bit value at `at`.
pub open spec fn le_u32(b: Seq<u8>, at: int) -> u32 {
    (b[at] as int + b[at + 1] as int * 0x100 + b[at + 2] as int * 0x10000 + b[at + 3] as int
        * 0x1000000) as u32
}

/// Reads a little-endian 16-bit value.
fn read_le_u16(b: &[u8], at: usize) -> (r: u16)
    requires
        at + 2 <= b@.len(),
    ensures
        r == le_u16(b@, at as int),
{
    b[at] as u16 + b[at + 1] as u16 * 0x100
}

/// Reads a little-endian 32-bit value.
fn read_le_u32(b: &[u8], at: usize) -> (r: u32)
    requires
        at + 4 <= b@.len(),
    ensures
        r == le_u32(b@, at as int),
{
    b[at] as u32 + b[at + 1] as u32 * 0x100 + b[at + 2] as u32 * 0x10000 + b[at + 3] as u32
        * 0x1000000
}

/// Whether bytes 1 to 5 of a descriptor hold the standard identifier "CD001".
pub open spec fn has_standard_identifier(b: Seq<u8>) -> bool {
    &&& b.len() >= 6
    &&& b[1] == 0x43u8
    &&& b[2] == 0x44u8
    &&& b[3] == 0x30u8
    &&& b[4] == 0x30u8
    &&& b[5] == 0x31u8
}

fn check_standard_identifier(b: &[u8]) -> (r: bool)
    requires
        b@.len() >= 6,
    ensures
        r == has_standard_identifier(b@),
{
    b[1] == 0x43 && b[2] == 0x44 && b[3] == 0x30 && b[4] == 0x30 && b[5] == 0x31
}

/// Why a volume cannot be mounted as ISO9660.
#[derive(Clone, Copy, Debug, PartialEq, Eq, Structural)]
pub enum MountError {
    /// Can't mount ISO9660 with sector size not a factor of 2048
    SectorSizeNotFactor,
    /// Invalid volume descriptor present
    InvalidDescriptor,
    /// Can't find ISO9660 primary volume descriptor
    NoPrimaryDescriptor,
}

/// Errors of directory operations on the (read-only) filesystem.
#[derive(Clone, Copy, Debug, PartialEq, Eq, Structural)]
pub enum IoError {
    /// The filesystem cannot be modified.
    ReadOnly,
}

/// The filesystem driver.
pub struct Driver;

impl Driver {
    /// The volume block that detection reads: the one holding byte 32768,
    /// the start of the volume descriptor area.
    pub fn detect_block(&self, block_size: usize) -> (r: u64)
        requires
            block_size > 0,
        ensures
            r == DESCRIPTOR_AREA_OFFSET / (block_size as u64),
    {
        let bs = block_size as u64;
        32 * 1024 / bs
    }

    /// Detect an ISO9660 volume from the block that `detect_block` names:
    /// 1 when it starts a volume descriptor ("CD001" at bytes 1..6), else 0.
    pub fn detect(&self, block: &[u8]) -> (r: usize)
        requires
            block@.len() >= 6,
        ensures
            r == (if has_standard_identifier(block@) { 1usize } else { 0usize }),
    {
        if check_standard_identifier(block) {
            1
        } else {
            0
        }
    }
}

/// What mounting learns from the primary volume descriptor.
#[derive(Clone, Copy, Debug, PartialEq, Eq, Structural)]
pub struct VolumeInfo {
    /// Logical block size (different from medium sector size).
    pub lb_size: usize,
    /// LBA of the root directory's extent.
    pub root_lba: u32,
    /// Byte length of the root directory.
    pub root_size: u32,
}

/// The fields of a primary volume descriptor: the logical block size at
/// byte 128, and the root directory record at byte 156, whose extent LBA is
/// at +2 and data length at +10 (little-endian halves).
pub open spec fn primary_descriptor_info(b: Seq<u8>) -> VolumeInfo {
    VolumeInfo {
        lb_size: le_u16(b, 128) as usize,
        root_lba: le_u32(b, 158),
        root_size: le_u32(b, 166),
    }
}

/// Read the fields mounting needs from a primary volume descriptor.
pub fn parse_primary_descriptor(block: &[u8]) -> (r: VolumeInfo)
    requires
        block@.len() >= 170,
    ensures
        r == primary_descriptor_info(block@),
{
    let lb_size = read_le_u16(block, 128);
    let root_lba = read_le_u32(block, 156 + 2);
    let root_size = read_le_u32(block, 156 + 10);
    VolumeInfo { lb_size: lb_size as usize, root_lba: root_lba, root_size: root_size }
}

/// The outcome of examining one volume descriptor during the mount scan.
#[derive(Clone, Copy, Debug, PartialEq, Eq, Structural)]
pub enum ScanStep {
    /// Not the primary descriptor: read the next one.
    Next,
    /// The primary descriptor, and what it says.
    Found(VolumeInfo),
    /// The volume cannot be mounted.
    Failed(MountError),
}

/// The mount scan over the volume descriptor set, starting at sector 16.
pub struct MountScan {
    /// Medium blocks per 2048-byte sector.
    pub scale: usize,
    /// The descriptor sector to examine next.
    pub sector: usize,
}

/// What the mount scan does with one descriptor.
pub open spec fn classify_descriptor(b: Seq<u8>) -> ScanStep {
    if !has_standard_identifier(b) {
        ScanStep::Failed(MountError::InvalidDescriptor)
    } else if b[0] == 255 {
        ScanStep::Failed(MountError::NoPrimaryDescriptor)
    } else if b[0] == 0x01 {
        ScanStep::Found(primary_descriptor_info(b))
    } else {
        ScanStep::Next
    }
}

impl MountScan {
    /// Begin mounting a volume with the given medium block size.
    pub fn start(block_size: usize) -> (r: Result<MountScan, MountError>)
        requires
            block_size > 0,
        ensures
            ISO_SECTOR_SIZE % block_size != 0 ==> r == Err::<MountScan, MountError>(
                MountError::SectorSizeNotFactor,
            ),
            ISO_SECTOR_SIZE % block_size == 0 ==> (r matches Ok(s) && s.scale == ISO_SECTOR_SIZE
                / block_size && s.sector == FIRST_DESCRIPTOR_SECTOR),
    {
        if 2048 % block_size != 0 {
            return Err(MountError::SectorSizeNotFactor);
        }
        Ok(MountScan { scale: 2048 / block_size, sector: 16 })
    }

    /// The medium block to read (2048 bytes' worth) for the next descriptor.
    pub fn block_to_read(&self) -> (r: u64)
        requires
            self.sector * self.scale <= usize::MAX,
        ensures
            r == self.sector * self.scale,
    {
        (self.sector * self.scale) as u64
    }

    /// Examine the 2048-byte descriptor read from `block_to_read`.
    pub fn feed(&mut self, block: &[u8]) -> (r: ScanStep)
        requires
            block@.len() == ISO_SECTOR_SIZE,
            old(self).sector < usize::MAX,
        ensures
            r == classify_descriptor(block@),
            final(self).scale == old(self).scale,
            final(self).sector == if r == ScanStep::Next {
                old(self).sector + 1
            } else {
                old(self).sector as int
            },
    {
        if !check_standard_identifier(block) {
            ScanStep::Failed(MountError::InvalidDescriptor)
        } else if block[0] == 255 {
            ScanStep::Failed(MountError::NoPrimaryDescriptor)
        } else if block[0] == 0x01 {
            ScanStep::Found(parse_primary_descriptor(block))
        } else {
            self.sector = self.sector + 1;
            ScanStep::Next
        }
    }
}

/// A mounted ISO9660 volume.
pub struct Instance {
    block_size: usize,
    lb_size: usize,
    root_lba: u32,
    root_size: u32,
}

impl Instance {
    pub closed spec fn spec_block_size(&self) -> usize {
        self.block_size
    }

    pub closed spec fn spec_info(&self) -> VolumeInfo {
        VolumeInfo { lb_size: self.lb_size, root_lba: self.root_lba, root_size: self.root_size }
    }

    /// The mounted volume described by `info`, on a medium with blocks of
    /// `block_size` bytes.
    pub fn new(info: VolumeInfo, block_size: usize) -> (r: Instance)
        ensures
            r.spec_info() == info,
            r.spec_block_size() == block_size,
    {
        Instance {
            block_size: block_size,
            lb_size: info.lb_size,
            root_lba: info.root_lba,
            root_size: info.root_size,
        }
    }

    /// The logical block size.
    pub fn lb_size(&self) -> (r: usize)
        ensures
            r == self.spec_info().lb_size,
    {
        self.lb_size
    }

    /// The root directory's inode: the LBA of its extent.
    pub fn root_inode(&self) -> (r: InodeId)
        ensures
            r == self.spec_info().root_lba as InodeId,
    {
        self.root_lba as InodeId
    }

    /// The node for an inode number; only the root directory is known so
    /// far.
    pub fn get_node_by_inode(&self, id: InodeId) -> (r: Option<Dir>)
        requires
            id == self.spec_info().root_lba as InodeId,
        ensures
            r == Some(Dir { first_lba: self.spec_info().root_lba, size: self.spec_info().root_size }),
    {
        if id == self.root_lba as InodeId {
            Some(Dir { first_lba: self.root_lba, size: self.root_size })
        } else {
            proof {
                assert(false);
            }
            None
        }
    }

    /// The medium block that holds the start of logical sector `sector`.
    pub fn sector_block(&self, sector: u32) -> (r: u64)
        requires
            self.spec_block_size() > 0,
            sector * self.spec_info().lb_size <= usize::MAX,
        ensures
            r == (sector * self.spec_info().lb_size) / (self.spec_block_size() as int),
    {
        let byte = sector as usize * self.lb_size;
        (byte / self.block_size) as u64
    }

    /// A zeroed buffer the size of one logical sector, to read a sector
    /// into.
    pub fn sector_buffer(&self) -> (r: Vec<u8>)
        ensures
            r@ == Seq::new(self.spec_info().lb_size as nat, |_i: int| 0u8),
    {
        let mut v: Vec<u8> = Vec::new();
        let mut i: usize = 0;
        while i < self.lb_size
            invariant
                i <= self.lb_size,
                v@ == Seq::new(i as nat, |_i: int| 0u8),
            decreases self.lb_size - i,
        {
            v.push(0);
            i = i + 1;
            assert(v@ =~= Seq::new(i as nat, |_i: int| 0u8));
        }
        v
    }
}

/// A directory of the volume: its extent's first LBA and its byte length.
#[derive(Clone, Copy, Debug, PartialEq, Eq, Structural)]
pub struct Dir {
    pub first_lba: u32,
    pub size: u32,
}

/// The length byte of the directory record at `ofs`; 0 marks padding to
/// the end of the sector.
pub open spec fn record_len(data: Seq<u8>, ofs: int) -> int {
    data[ofs] as int
}

/// Whether the directory record at `ofs` can be read: it lies within the
/// sector, is long enough to hold the fixed fields, and holds its name.
pub open spec fn record_well_formed(data: Seq<u8>, ofs: int) -> bool {
    &&& ofs + record_len(data, ofs) <= data.len()
    &&& record_len(data, ofs) > 32
    &&& 33 + data[ofs + 32] <= record_len(data, ofs)
}

/// The extent LBA of the record at `ofs`.
pub open spec fn record_extent(data: Seq<u8>, ofs: int) -> u32 {
    le_u32(data, ofs + 2)
}

/// The file identifier (name) of the record at `ofs`.
pub open spec fn record_name(data: Seq<u8>, ofs: int) -> Seq<u8> {
    data.subrange(ofs + 33, ofs + 33 + data[ofs + 32])
}

/// Where a directory read goes after one step.
#[derive(Clone, Copy, Debug, PartialEq, Eq, Structural)]
pub enum DirNext {
    /// Step again over the same sector data.
    Continue,
    /// Load the sector `DirRead::sector_lba` names, then step again.
    ReadSector,
    /// The read is over: resume at byte position `pos`; `count` entries
    /// were produced.
    Finished { pos: usize, count: usize },
}

/// One step of a directory read: maybe an entry, and what comes next.
#[derive(Debug)]
pub struct DirStep {
    pub entry: Option<(InodeId, Vec<u8>)>,
    pub next: DirNext,
}

/// An in-progress read of directory records into `capacity` slots.
///
/// The position is `sector` (relative to the extent) and byte `ofs` within
/// it; the read ends at the directory's end (`end_sect`, `end_ofs`) or when
/// the slots are full.
#[derive(Clone, Copy, Debug, PartialEq, Eq, Structural)]
pub struct DirRead {
    pub lb_size: usize,
    pub first_lba: u32,
    pub end_sect: usize,
    pub end_ofs: usize,
    pub sector: usize,
    pub ofs: usize,
    pub count: usize,
    pub capacity: usize,
}

/// The state a directory read starts in: at the sector and offset of byte
/// position `ofs`, with no slots filled.
pub open spec fn read_start(dir: Dir, lb_size: usize, ofs: usize, capacity: usize) -> DirRead {
    DirRead {
        lb_size: lb_size,
        first_lba: dir.first_lba,
        end_sect: (dir.size as int / lb_size as int) as usize,
        end_ofs: (dir.size as int % lb_size as int) as usize,
        sector: (ofs / lb_size) as usize,
        ofs: (ofs % lb_size) as usize,
        count: 0,
        capacity: capacity,
    }
}

/// A read started at the position where another read of the same
/// directory finished carries on from the same byte: at the same sector and
/// offset when the finished read was inside a sector, and at the start of
/// the next sector when it had reached a sector's end.
pub proof fn law_read_resumes_where_it_finished(dir: Dir, r: DirRead, capacity: usize)
    requires
        r.lb_size > 0,
        r.ofs <= r.lb_size,
        r.position() <= usize::MAX,
    ensures
        ({
            let s = read_start(dir, r.lb_size, r.position() as usize, capacity);
            &&& s.position() == r.position()
            &&& r.ofs < r.lb_size ==> s.sector == r.sector && s.ofs == r.ofs
            &&& r.ofs == r.lb_size ==> s.sector == r.sector + 1 && s.ofs == 0
        }),
{
    let d = r.lb_size as int;
    let x = r.position();
    if r.ofs < r.lb_size {
        vstd::arithmetic::div_mod::lemma_fundamental_div_mod_converse(x, d, r.sector as int, r.ofs as int);
    } else {
        assert(x == (r.sector + 1) * d + 0) by (nonlinear_arith)
            requires
                x == r.sector * d + r.ofs,
                r.ofs == d,
        ;
        vstd::arithmetic::div_mod::lemma_fundamental_div_mod_converse(x, d, r.sector + 1, 0);
    }
    let s = read_start(dir, r.lb_size, x as usize, capacity);
    vstd::arithmetic::div_mod::lemma_fundamental_div_mod(x, d);
    assert(s.position() == x) by (nonlinear_arith)
        requires
            s.position() == (x / d) * d + x % d,
            x == d * (x / d) + x % d,
    ;
}

impl Dir {
    /// Start reading the directory's records from byte position `ofs`,
    /// into `capacity` slots, on a volume with logical blocks of `lb_size`
    /// bytes. The sector `sector_lba` names must be loaded before the first
    /// step.
    pub fn read(&self, lb_size: usize, ofs: usize, capacity: usize) -> (r: DirRead)
        requires
            lb_size > 0,
        ensures
            r == read_start(*self, lb_size, ofs, capacity),
    {
        let size = self.size as usize;
        DirRead {
            lb_size: lb_size,
            first_lba: self.first_lba,
            end_sect: size / lb_size,
            end_ofs: size % lb_size,
            sector: ofs / lb_size,
            ofs: ofs % lb_size,
            count: 0,
            capacity: capacity,
        }
    }

    /// Creating entries is refused: the filesystem is read-only.
    pub fn create(&self, _name: &[u8]) -> (r: Result<InodeId, IoError>)
        ensures
            r == Err::<InodeId, IoError>(IoError::ReadOnly),
    {
        Err(IoError::ReadOnly)
    }

    /// Linking is refused: the filesystem is read-only.
    pub fn link(&self, _name: &[u8], _inode: InodeId) -> (r: Result<(), IoError>)
        ensures
            r == Err::<(), IoError>(IoError::ReadOnly),
    {
        Err(IoError::ReadOnly)
    }

    /// Unlinking is refused: the filesystem is read-only.
    pub fn unlink(&self, _name: &[u8]) -> (r: Result<(), IoError>)
        ensures
            r == Err::<(), IoError>(IoError::ReadOnly),
    {
        Err(IoError::ReadOnly)
    }
}

/// An entry with its name as a byte sequence.
pub open spec fn entry_view(e: Option<(InodeId, Vec<u8>)>) -> Option<(InodeId, Seq<u8>)> {
    match e {
        Some((i, n)) => Some((i, n@)),
        None => None,
    }
}

/// One pass of the directory read loop over the sector `data` the read is
/// in: the new state, the entry read (if the pass met a record), and what
/// comes next.
pub open spec fn dir_step(st: DirRead, data: Seq<u8>) -> (DirRead, Option<(InodeId, Seq<u8>)>, DirNext) {
    if st.at_end() {
        (st, None, DirNext::Finished { pos: st.position() as usize, count: st.count })
    } else {
        let o = st.ofs as int;
        let len = record_len(data, o);
        let ofs1 = if len == 0 { o + 1 } else { o + len };
        let count1 = if len == 0 { st.count as int } else { st.count + 1 };
        let entry = if len == 0 {
            None
        } else {
            Some((record_extent(data, o) as InodeId, record_name(data, o)))
        };
        if len != 0 && count1 == st.capacity {
            (
                DirRead { ofs: ofs1 as usize, count: count1 as usize, ..st },
                entry,
                DirNext::Finished { pos: (st.sector * st.lb_size + ofs1) as usize, count: count1 as usize },
            )
        } else if ofs1 >= st.lb_size {
            (DirRead { sector: (st.sector + 1) as usize, ofs: 0, count: count1 as usize, ..st }, entry, DirNext::ReadSector)
        } else {
            (DirRead { ofs: ofs1 as usize, count: count1 as usize, ..st }, entry, DirNext::Continue)
        }
    }
}

/// A whole directory read from state `st`, on a directory whose sectors
/// (counted from its extent) hold `data`: the entries read, the position
/// where the read finished and the number of entries; `None` when a pass
/// would fail or the read takes more than `fuel` passes.
pub open spec fn dir_run(st: DirRead, data: spec_fn(usize) -> Seq<u8>, fuel: nat) -> Option<(Seq<(InodeId, Seq<u8>)>, usize, usize)>
    decreases fuel,
{
    if fuel == 0 || !st.step_ok(data(st.sector)) {
        None
    } else {
        let (st2, entry, next) = dir_step(st, data(st.sector));
        let es = match entry {
            Some(e) => seq![e],
            None => Seq::empty(),
        };
        match next {
            DirNext::Finished { pos, count } => Some((es, pos, count)),
            _ => match dir_run(st2, data, (fuel - 1) as nat) {
                Some((rest, pos, count)) => Some((es + rest, pos, count)),
                None => None,
            },
        }
    }
}

/// A read that finishes with some fuel finishes the same with more.
pub proof fn lemma_dir_run_fuel(st: DirRead, data: spec_fn(usize) -> Seq<u8>, f: nat, g: nat)
    requires
        dir_run(st, data, f) is Some,
        f <= g,
    ensures
        dir_run(st, data, g) == dir_run(st, data, f),
    decreases f,
{
    let (st2, entry, next) = dir_step(st, data(st.sector));
    match next {
        DirNext::Finished { .. } => {},
        _ => {
            lemma_dir_run_fuel(st2, data, (f - 1) as nat, (g - 1) as nat);
        },
    }
}

/// Two reads whose states differ only in that the second has filled `a`
/// more slots and has `a` more of them run alike: the same entries and
/// end, with `a` more in the count.
proof fn lemma_dir_run_shifted(r: DirRead, t: DirRead, data: spec_fn(usize) -> Seq<u8>, f: nat, a: usize)
    requires
        t == (DirRead { count: (r.count + a) as usize, capacity: (r.capacity + a) as usize, ..r }),
        r.capacity + a <= usize::MAX,
        dir_run(r, data, f) is Some,
    ensures
        ({
            let (e, n, c) = dir_run(r, data, f)->0;
            dir_run(t, data, f) == Some((e, n, (c + a) as usize))
        }),
    decreases f,
{
    let d = data(r.sector);
    assert(t.step_ok(d) == r.step_ok(d));
    let (r2, e, nx) = dir_step(r, d);
    let (t2, et, nxt) = dir_step(t, d);
    assert(et == e);
    match nx {
        DirNext::Finished { .. } => {},
        _ => {
            assert(t2 == (DirRead { count: (r2.count + a) as usize, capacity: (r2.capacity + a) as usize, ..r2 }));
            lemma_dir_run_shifted(r2, t2, data, (f - 1) as nat, a);
        },
    }
}

/// A read into `a + b` slots goes as a read into `a` slots that filled
/// them all, followed by a read into `b` slots from where it finished.
proof fn lemma_dir_run_split(
    dir: Dir,
    s: DirRead,
    t: DirRead,
    data: spec_fn(usize) -> Seq<u8>,
    f1: nat,
    f2: nat,
    b: usize,
)
    requires
        s.lb_size > 0,
        s.ofs < s.lb_size,
        s.first_lba == dir.first_lba,
        s.end_sect == (dir.size as int / s.lb_size as int) as usize,
        s.end_ofs == (dir.size as int % s.lb_size as int) as usize,
        b > 0,
        s.capacity + b <= usize::MAX,
        t == (DirRead { capacity: (s.capacity + b) as usize, ..s }),
        dir_run(s, data, f1) matches Some((_, _, c1)) && c1 == s.capacity,
        dir_run(read_start(dir, s.lb_size, dir_run(s, data, f1).unwrap().1, b), data, f2) is Some,
    ensures
        ({
            let (e1, n1, c1) = dir_run(s, data, f1)->0;
            let (e2, n2, c2) = dir_run(read_start(dir, s.lb_size, n1, b), data, f2)->0;
            dir_run(t, data, f1 + f2) == Some((e1 + e2, n2, (c1 + c2) as usize))
        }),
    decreases f1,
{
    let d = data(s.sector);
    let (e1, n1, c1) = dir_run(s, data, f1)->0;
    let rs = read_start(dir, s.lb_size, n1, b);
    let (e2, n2, c2) = dir_run(rs, data, f2)->0;
    assert(t.step_ok(d) == s.step_ok(d));
    let (s2, e, nx) = dir_step(s, d);
    let (t2, et, nxt) = dir_step(t, d);
    assert(et == e);
    let es = match e {
        Some(x) => seq![x],
        None => Seq::<(InodeId, Seq<u8>)>::empty(),
    };
    if s.at_end() {
        // The first read ended at the directory's end: the second starts
        // there and ends at once.
        law_read_resumes_where_it_finished(dir, s, b);
        assert(rs.sector == s.sector && rs.ofs == s.ofs);
        assert(rs.at_end());
        assert(dir_run(rs, data, f2) == Some((Seq::<(InodeId, Seq<u8>)>::empty(), rs.position() as usize, 0usize)));
        assert(e1 + e2 =~= e1);
    } else {
        match nx {
            DirNext::Finished { pos, count } => {
                // The first read stopped with its slots full; the larger one
                // goes on, and from there it runs as the second read does.
                assert(count == s.capacity);
                assert(s2.ofs <= s2.lb_size);
                law_read_resumes_where_it_finished(dir, s2, b);
                assert(n1 == s2.position());
                let shifted = DirRead { count: (rs.count + s.capacity) as usize, capacity: (rs.capacity + s.capacity) as usize, ..rs };
                if s2.ofs < s2.lb_size {
                    assert(nxt == DirNext::Continue);
                    assert(t2 == shifted);
                } else {
                    assert(nxt == DirNext::ReadSector);
                    assert(t2 == shifted);
                }
                lemma_dir_run_shifted(rs, shifted, data, f2, s.capacity);
                lemma_dir_run_fuel(t2, data, f2, (f1 + f2 - 1) as nat);
                assert(e1 == es);
                assert(dir_run(t, data, f1 + f2) == Some((es + e2, n2, (c2 + s.capacity) as usize)));
            },
            _ => {
                assert(t2 == DirRead { capacity: (s2.capacity + b) as usize, ..s2 });
                assert(s2.ofs < s2.lb_size);
                let (e1r, n1r, c1r) = dir_run(s2, data, (f1 - 1) as nat)->0;
                assert(e1 == es + e1r && n1 == n1r && c1 == c1r);
                assert(s2.capacity == s.capacity);
                lemma_dir_run_split(dir, s2, t2, data, (f1 - 1) as nat, f2, b);
                assert((f1 - 1) as nat + f2 == (f1 + f2 - 1) as nat);
                assert(es + (e1r + e2) =~= (es + e1r) + e2);
            },
        }
    }
}

/// Reading a directory into `a` slots, which the read fills, and then
/// reading on from the position it returned into `b > 0` slots gives the
/// same entries, in the same order, and finishes at the same position as a
/// single read into `a + b` slots from the first position: no entry is lost
/// or read twice.
pub proof fn law_dir_read_continues(
    dir: Dir,
    lb_size: usize,
    ofs: usize,
    a: usize,
    b: usize,
    data: spec_fn(usize) -> Seq<u8>,
    f1: nat,
    f2: nat,
)
    requires
        lb_size > 0,
        b > 0,
        a + b <= usize::MAX,
        dir_run(read_start(dir, lb_size, ofs, a), data, f1) matches Some((_, _, c1)) && c1 == a,
        dir_run(read_start(dir, lb_size, dir_run(read_start(dir, lb_size, ofs, a), data, f1).unwrap().1, b), data, f2) is Some,
    ensures
        ({
            let (e1, n1, c1) = dir_run(read_start(dir, lb_size, ofs, a), data, f1)->0;
            let (e2, n2, c2) = dir_run(read_start(dir, lb_size, n1, b), data, f2)->0;
            dir_run(read_start(dir, lb_size, ofs, (a + b) as usize), data, f1 + f2) == Some((e1 + e2, n2, (c1 + c2) as usize))
        }),
{
    let s = read_start(dir, lb_size, ofs, a);
    let t = read_start(dir, lb_size, ofs, (a + b) as usize);
    assert(s.ofs < s.lb_size);
    assert(t == DirRead { capacity: (s.capacity + b) as usize, ..s });
    lemma_dir_run_split(dir, s, t, data, f1, f2, b);
}

impl DirRead {
    /// Whether the read has reached the end of the directory.
    pub open spec fn at_end(&self) -> bool {
        self.sector == self.end_sect && self.ofs >= self.end_ofs
    }

    /// The byte position the read is at.
    pub open spec fn position(&self) -> int {
        self.sector * self.lb_size + self.ofs
    }

    /// What a step over `data` needs so as not to fail: the current sector
    /// loaded, a record (or padding) in range, a free slot for a record,
    /// and positions that fit in a `usize`.
    pub open spec fn step_ok(&self, data: Seq<u8>) -> bool {
        if self.at_end() {
            self.position() <= usize::MAX
        } else {
            &&& data.len() == self.lb_size
            &&& self.ofs < data.len()
            &&& record_len(data, self.ofs as int) != 0 ==> {
                &&& record_well_formed(data, self.ofs as int)
                &&& self.count < self.capacity
                &&& self.sector * self.lb_size + self.ofs + record_len(data, self.ofs as int)
                    <= usize::MAX
            }
            &&& self.sector < usize::MAX
        }
    }

    /// The extent LBA of the sector the read is in.
    pub fn sector_lba(&self) -> (r: u32)
        requires
            self.first_lba + (self.sector as u32) <= u32::MAX,
        ensures
            r == self.first_lba + (self.sector as u32),
    {
        #[verifier::truncate]
        let s = self.sector as u32;
        self.first_lba + s
    }

    /// Whether a step over `data` can be taken (see `step_ok`).
    pub fn can_step(&self, data: &[u8]) -> (r: bool)
        ensures
            r == self.step_ok(data@),
    {
        let at_end = self.sector == self.end_sect && self.ofs >= self.end_ofs;
        let mut pos_fits = true;
        if self.lb_size > 0 {
            let q = (usize::MAX - self.ofs) / self.lb_size;
            proof {
                let m = usize::MAX - self.ofs;
                let l = self.lb_size as int;
                let s = self.sector as int;
                assert(q as int * l <= m < (q as int + 1) * l) by (nonlinear_arith)
                    requires
                        l > 0,
                        m >= 0,
                        q as int == m / l,
                ;
                if s > q {
                    assert(s * l >= (q as int + 1) * l) by (nonlinear_arith)
                        requires
                            s > q as int,
                            l > 0,
                    ;
                } else {
                    assert(s * l <= q as int * l) by (nonlinear_arith)
                        requires
                            s <= q as int,
                            l > 0,
                    ;
                }
            }
            pos_fits = self.sector <= q;
        } else {
            assert(self.sector * self.lb_size == 0) by (nonlinear_arith)
                requires
                    self.lb_size == 0,
            ;
        }
        if at_end {
            return pos_fits;
        }
        if data.len() != self.lb_size || self.ofs >= data.len() || self.sector == usize::MAX {
            return false;
        }
        let len = data[self.ofs] as usize;
        if len == 0 {
            return true;
        }
        if !pos_fits || len > data.len() - self.ofs || len <= 32 || self.count >= self.capacity {
            return false;
        }
        let pos = self.sector * self.lb_size + self.ofs;
        33 + data[self.ofs + 32] as usize <= len && pos <= usize::MAX - len
    }

    /// One pass of the read loop over the loaded sector `data`.
    pub fn step(&mut self, data: &[u8]) -> (r: DirStep)
        requires
            old(self).step_ok(data@),
        ensures
            final(self).lb_size == old(self).lb_size,
            final(self).first_lba == old(self).first_lba,
            final(self).end_sect == old(self).end_sect,
            final(self).end_ofs == old(self).end_ofs,
            final(self).capacity == old(self).capacity,
            ({
                let (st, entry, next) = dir_step(*old(self), data@);
                &&& *final(self) == st
                &&& r.next == next
                &&& entry_view(r.entry) == entry
            }),
            old(self).at_end() ==> {
                &&& *final(self) == *old(self)
                &&& r.entry is None
                &&& r.next == DirNext::Finished { pos: old(self).position() as usize, count: old(self).count }
            },
            !old(self).at_end() ==> ({
                let o = old(self).ofs as int;
                let len = record_len(data@, o);
                let ofs1 = if len == 0 { o + 1 } else { o + len };
                let count1 = if len == 0 { old(self).count as int } else { old(self).count + 1 };
                &&& len == 0 ==> r.entry is None
                &&& len != 0 ==> (r.entry matches Some((inode, name)) && inode == record_extent(data@, o) as InodeId && name@ == record_name(data@, o))
                &&& final(self).count == count1
                &&& if len != 0 && count1 == old(self).capacity {
                    &&& final(self).sector == old(self).sector
                    &&& final(self).ofs == ofs1
                    &&& r.next == DirNext::Finished { pos: (old(self).sector * old(self).lb_size + ofs1) as usize, count: count1 as usize }
                } else if ofs1 >= old(self).lb_size {
                    &&& final(self).sector == old(self).sector + 1
                    &&& final(self).ofs == 0
                    &&& r.next == DirNext::ReadSector
                } else {
                    &&& final(self).sector == old(self).sector
                    &&& final(self).ofs == ofs1
                    &&& r.next == DirNext::Continue
                }
            }),
    {
        if self.sector == self.end_sect && self.ofs >= self.end_ofs {
            let pos = self.sector * self.lb_size + self.ofs;
            return DirStep { entry: None, next: DirNext::Finished { pos: pos, count: self.count } };
        }
        let len = data[self.ofs] as usize;
        let mut entry: Option<(InodeId, Vec<u8>)> = None;
        if len == 0 {
            self.ofs = self.ofs + 1;
        } else {
            let at = self.ofs;
            let namelen = data[at + 32] as usize;
            let mut name: Vec<u8> = Vec::new();
            let mut k: usize = 0;
            while k < namelen
                invariant
                    k <= namelen,
                    namelen == data@[at + 32],
                    at + 33 + namelen <= data.len(),
                    name@ == data@.subrange(at + 33, at + 33 + k),
                decreases namelen - k,
            {
                name.push(data[at + 33 + k]);
                k = k + 1;
                assert(name@ =~= data@.subrange(at + 33, at + 33 + k));
            }
            let start = read_le_u32(data, at + 2);
            self.ofs = at + len;
            entry = Some((start as InodeId, name));
            self.count = self.count + 1;
            if self.count == self.capacity {
                let pos = self.sector * self.lb_size + self.ofs;
                return DirStep { entry: entry, next: DirNext::Finished { pos: pos, count: self.count } };
            }
        }
        if self.ofs >= self.lb_size {
            self.sector = self.sector + 1;
            self.ofs = 0;
            DirStep { entry: entry, next: DirNext::ReadSector }
        } else {
            DirStep { entry: entry, next: DirNext::Continue }
        }
    }
}

/// Detection and mounting look at the same place: on a medium whose block
/// size divides 2048, the block detection reads is the first block of
/// sector 16, the first one the mount scan reads. So a volume that mounts
/// (its first descriptor is neither invalid nor missing the identifier) is
/// detected: the first `block_size` bytes of that descriptor, which are
/// what detection sees when blocks hold at least 6 bytes, carry "CD001".
pub proof fn law_mountable_volume_is_detected(block_size: usize, descriptor: Seq<u8>, block: Seq<u8>)
    requires
        block_size >= 6,
        ISO_SECTOR_SIZE % block_size == 0,
        descriptor.len() == ISO_SECTOR_SIZE,
        block == descriptor.take(block_size as int),
        classify_descriptor(descriptor) != ScanStep::Failed(MountError::InvalidDescriptor),
    ensures
        DESCRIPTOR_AREA_OFFSET / (block_size as u64) == FIRST_DESCRIPTOR_SECTOR * (ISO_SECTOR_SIZE / block_size),
        has_standard_identifier(block),
{
    let q: int = 2048int / (block_size as int);
    vstd::arithmetic::div_mod::lemma_fundamental_div_mod(2048int, block_size as int);
    assert(2048 == block_size * q);
    assert(32768 == block_size * (16 * q)) by (nonlinear_arith)
        requires
            2048 == block_size * q,
    ;
    vstd::arithmetic::div_mod::lemma_div_multiples_vanish(16 * q, block_size as int);
    assert(has_standard_identifier(descriptor));
    if block_size > 2048 {
        vstd::arithmetic::div_mod::lemma_small_mod(2048nat, block_size as nat);
    }
    assert(block.len() == block_size);
    assert forall|i: int| 0 <= i < 6 implies block[i] == descriptor[i] by {}
}

/// When a directory read can take a step over the loaded sector `data`,
/// and what the step does. At the directory's end it can always step (and
/// finishes) if its position fits a `usize`. Elsewhere it can step exactly
/// when `data` is the whole sector, the offset lies in it, the sector index
/// can still advance, and the byte at the offset is either padding (0) or
/// the length of a record that lies within the sector, is longer than the
/// 33 bytes of fixed fields less one, holds its name (33 bytes plus the name
/// length at byte 32), has a free slot to go in, and ends at a position
/// that fits. Other bytes of the record (such as a system-use area after
/// the name) do not matter. Such a step moves the position on by the
/// record's length (one byte over padding), fills one more slot for a
/// record, and reads the record's extent from bytes 2..6 (little-endian)
/// and its name from bytes 33 onwards.
pub proof fn law_dir_step(st: DirRead, data: Seq<u8>)
    ensures
        st.at_end() ==> (st.step_ok(data) <==> st.sector * st.lb_size + st.ofs <= usize::MAX),
        !st.at_end() ==> (st.step_ok(data) <==> {
            &&& data.len() == st.lb_size
            &&& st.ofs < st.lb_size
            &&& st.sector < usize::MAX
            &&& data[st.ofs as int] != 0 ==> {
                &&& st.ofs + data[st.ofs as int] <= data.len()
                &&& data[st.ofs as int] > 32
                &&& 33 + data[st.ofs + 32] <= data[st.ofs as int]
                &&& st.count < st.capacity
                &&& st.sector * st.lb_size + st.ofs + data[st.ofs as int] <= usize::MAX
            }
        }),
        !st.at_end() && st.step_ok(data) ==> ({
            let o = st.ofs as int;
            let (st2, entry, _) = dir_step(st, data);
            let advance: int = if data[o] == 0 { 1 } else { data[o] as int };
            &&& st2.sector * st2.lb_size + st2.ofs == st.sector * st.lb_size + st.ofs + advance
            &&& data[o] == 0 ==> entry is None && st2.count == st.count
            &&& data[o] != 0 ==> entry == Some((
                (data[o + 2] + data[o + 3] * 0x100 + data[o + 4] * 0x10000 + data[o + 5] * 0x1000000) as InodeId,
                data.subrange(o + 33, o + 33 + data[o + 32]),
            )) && st2.count == st.count + 1
        }),
{
    if !st.at_end() && st.step_ok(data) {
        let o = st.ofs as int;
        let (st2, entry, _) = dir_step(st, data);
        let advance: int = if data[o] == 0 { 1 } else { data[o] as int };
        let ofs1 = o + advance;
        assert(ofs1 <= st.lb_size);
        if ofs1 >= st.lb_size && !(data[o] != 0 && st.count + 1 == st.capacity) {
            assert(st2.sector * st2.lb_size + st2.ofs == st.sector * st.lb_size + st.ofs + advance) by (nonlinear_arith)
                requires
                    st2.sector == st.sector + 1,
                    st2.ofs == 0,
                    st2.lb_size == st.lb_size,
                    ofs1 == st.lb_size,
                    ofs1 == st.ofs + advance,
            ;
        }
    }
}

/// What the mount scan makes of a 2048-byte volume descriptor: byte 0 is
/// the descriptor type and bytes 1..6 must read "CD001"; without them the
/// volume is refused as invalid; type 255 (the set terminator) ends the scan
/// without a primary descriptor; type 1 is the primary descriptor, whose
/// logical block size is the little-endian 16-bit value at byte 128 and
/// whose root directory record (at byte 156) gives the root's extent as the
/// little-endian 32-bit value at byte 158 and its length as the one at byte
/// 166; any other type is skipped. Detection accepts a block exactly when
/// its bytes 1..6 read "CD001".
pub proof fn law_descriptor_fields(b: Seq<u8>)
    requires
        b.len() == ISO_SECTOR_SIZE,
    ensures
        ({
            let cd001 = b.subrange(1, 6) == seq![0x43u8, 0x44u8, 0x30u8, 0x30u8, 0x31u8];
            &&& has_standard_identifier(b) <==> cd001
            &&& !cd001 ==> classify_descriptor(b) == ScanStep::Failed(MountError::InvalidDescriptor)
            &&& cd001 && b[0] == 255 ==> classify_descriptor(b) == ScanStep::Failed(MountError::NoPrimaryDescriptor)
            &&& cd001 && b[0] != 255 && b[0] != 1 ==> classify_descriptor(b) == ScanStep::Next
            &&& cd001 && b[0] == 1 ==> classify_descriptor(b) == ScanStep::Found(VolumeInfo {
                lb_size: (b[128] + b[129] * 0x100) as usize,
                root_lba: (b[158] + b[159] * 0x100 + b[160] * 0x10000 + b[161] * 0x1000000) as u32,
                root_size: (b[166] + b[167] * 0x100 + b[168] * 0x10000 + b[169] * 0x1000000) as u32,
            })
        }),
{
    let id = seq![0x43u8, 0x44u8, 0x30u8, 0x30u8, 0x31u8];
    if has_standard_identifier(b) {
        assert(b.subrange(1, 6) =~= id);
    }
    if b.subrange(1, 6) == id {
        assert(b[1] == b.subrange(1, 6)[0]);
        assert(b[2] == b.subrange(1, 6)[1]);
        assert(b[3] == b.subrange(1, 6)[2]);
        assert(b[4] == b.subrange(1, 6)[3]);
        assert(b[5] == b.subrange(1, 6)[4]);
    }
}

} // verus!
