//! Opened file interface: the handle types of the VFS and the rules that
//! decide what an open, an upgrade, a memory map or a directory walk does.
//!
//! The node cache and the page mapper are the kernel's; a node is seen here
//! through the plain values that these rules read, and the results of the
//! kernel's lookups and reads are handed in as values.
use vstd::prelude::*;

verus! {

/// Size of a virtual memory page.
pub const PAGE_SIZE: usize = 0x1000;

/// Identifier of a node within its filesystem.
pub type InodeId = u64;

/// What kind of object a node is.
#[derive(Clone, Copy, Debug, PartialEq, Eq, Structural)]
pub enum NodeKind {
    File,
    Dir,
    Symlink,
    Special,
}

/// A reference to a cached VFS node, as the handle rules see it.
#[derive(Clone, Copy, Debug)]
pub struct CacheHandle {
    /// The node's inode number.
    pub inode: InodeId,
    /// The node's type.
    pub kind: NodeKind,
    /// The number of valid bytes in the node (files only).
    pub valid_size: u64,
    /// Whether the node may be executed (files only).
    pub executable: bool,
}

impl CacheHandle {
    pub open spec fn spec_is_dir(&self) -> bool {
        self.kind == NodeKind::Dir
    }

    pub open spec fn spec_is_file(&self) -> bool {
        self.kind == NodeKind::File
    }

    /// Whether the node is a directory.
    pub fn is_dir(&self) -> (r: bool)
        ensures
            r == self.spec_is_dir(),
    {
        match self.kind {
            NodeKind::Dir => true,
            _ => false,
        }
    }

    /// Whether the node is a normal file.
    pub fn is_file(&self) -> (r: bool)
        ensures
            r == self.spec_is_file(),
    {
        match self.kind {
            NodeKind::File => true,
            _ => false,
        }
    }
}

/// Errors of the VFS handle layer.
#[derive(Clone, Copy, Debug, PartialEq, Eq, Structural)]
pub enum Error {
    /// The path does not exist.
    NotFound,
    /// The node is not of the requested type.
    TypeMismatch,
    /// The handle was not opened in a mode that allows the operation.
    PermissionDenied,
    /// The address range could not be reserved.
    Locked,
    /// A memory map's address and file offset differ within a page.
    MapAlignmentMismatch,
    /// The underlying storage failed.
    IoError,
}

/// How a file is opened.
#[derive(Clone, Copy, Debug, PartialEq, Eq, Structural)]
pub enum FileOpenMode {
    /// Shared read-only, multiple readers but no writers visible
    ///
    /// When opened in this manner, the file contents cannot change, but it might extend
    SharedRO,
    /// Open for execution (multiple readers)
    ///
    /// No file changes visible to handles, must be an executable file
    Execute,
    /// Eclusive read-write, denies any other opens while held (except Append)
    ///
    /// No changes to the file will be visible to the user (as the file is locked)
    ExclRW,
    /// Unique read-write, does Copy-on-write to create a new file
    ///
    /// No changes to the file will be visible to the user (as it has its own copy)
    UniqueRW,
    /// Append only (allows multiple readers/writers)
    ///
    /// Cannot read, all writes go to the end of the file (a write call is atomic)
    Append,
    /// Unsynchronised read-write
    ///
    /// No synchronisation at all, fails if any other open type is active.
    Unsynch,
}

/// How a file is mapped into memory.
#[derive(Clone, Copy, Debug, PartialEq, Eq, Structural)]
pub enum MemoryMapMode {
    /// Read-only mapping of a file
    ReadOnly,
    /// Executable mapping of a file
    Execute,
    /// Copy-on-write (used for executable files)
    COW,
    /// Allows writing to the backing file
    WriteBack,
}

/// Page protection applied to a finished mapping.
#[derive(Clone, Copy, Debug, PartialEq, Eq, Structural)]
pub enum ProtectionMode {
    UserRO,
    UserRX,
    UserCOW,
    UserRW,
}

/// The open modes under which the file's contents cannot change under the
/// handle (shared read-only and execute).
pub open spec fn reads_stable_contents(mode: FileOpenMode) -> bool {
    mode == FileOpenMode::SharedRO || mode == FileOpenMode::Execute
}

/// The opens that are live on one file node, counted per open mode.
#[derive(Clone, Copy, Debug, PartialEq, Eq, Structural)]
pub struct NodeOpens {
    pub shared_ro: usize,
    pub execute: usize,
    pub excl_rw: usize,
    pub unique_rw: usize,
    pub append: usize,
    pub unsynch: usize,
}

/// The number of live opens of `o` in mode `m`.
pub open spec fn open_count(o: NodeOpens, m: FileOpenMode) -> usize {
    match m {
        FileOpenMode::SharedRO => o.shared_ro,
        FileOpenMode::Execute => o.execute,
        FileOpenMode::ExclRW => o.excl_rw,
        FileOpenMode::UniqueRW => o.unique_rw,
        FileOpenMode::Append => o.append,
        FileOpenMode::Unsynch => o.unsynch,
    }
}

/// `o` with the count of mode `m` changed to `n`.
pub open spec fn with_open_count(o: NodeOpens, m: FileOpenMode, n: usize) -> NodeOpens {
    match m {
        FileOpenMode::SharedRO => NodeOpens { shared_ro: n, ..o },
        FileOpenMode::Execute => NodeOpens { execute: n, ..o },
        FileOpenMode::ExclRW => NodeOpens { excl_rw: n, ..o },
        FileOpenMode::UniqueRW => NodeOpens { unique_rw: n, ..o },
        FileOpenMode::Append => NodeOpens { append: n, ..o },
        FileOpenMode::Unsynch => NodeOpens { unsynch: n, ..o },
    }
}

/// Whether a new open in `mode` may join the live opens `o`:
/// - exclusive read-write denies any other open while held, except append,
///   and needs no other open but append to be live;
/// - unsynchronised fails while an open of any other mode is live, and
///   while it is live only further unsynchronised opens are accepted;
/// - the others (shared read-only, execute, unique read-write, append) may
///   share the file, except as the two rules above deny.
pub open spec fn open_allowed(o: NodeOpens, mode: FileOpenMode) -> bool {
    match mode {
        FileOpenMode::ExclRW => o.shared_ro == 0 && o.execute == 0 && o.excl_rw == 0 && o.unique_rw
            == 0 && o.unsynch == 0,
        FileOpenMode::Unsynch => o.shared_ro == 0 && o.execute == 0 && o.excl_rw == 0 && o.unique_rw
            == 0 && o.append == 0,
        FileOpenMode::Append => o.unsynch == 0,
        _ => o.excl_rw == 0 && o.unsynch == 0,
    }
}

impl NodeOpens {
    /// A node with no live opens.
    pub fn new() -> (r: NodeOpens)
        ensures
            r == (NodeOpens { shared_ro: 0, execute: 0, excl_rw: 0, unique_rw: 0, append: 0, unsynch: 0 }),
    {
        NodeOpens { shared_ro: 0, execute: 0, excl_rw: 0, unique_rw: 0, append: 0, unsynch: 0 }
    }

    /// The number of live opens in mode `m`.
    pub fn count(&self, m: FileOpenMode) -> (r: usize)
        ensures
            r == open_count(*self, m),
    {
        match m {
            FileOpenMode::SharedRO => self.shared_ro,
            FileOpenMode::Execute => self.execute,
            FileOpenMode::ExclRW => self.excl_rw,
            FileOpenMode::UniqueRW => self.unique_rw,
            FileOpenMode::Append => self.append,
            FileOpenMode::Unsynch => self.unsynch,
        }
    }

    fn set_count(&mut self, m: FileOpenMode, n: usize)
        ensures
            *final(self) == with_open_count(*old(self), m, n),
    {
        match m {
            FileOpenMode::SharedRO => self.shared_ro = n,
            FileOpenMode::Execute => self.execute = n,
            FileOpenMode::ExclRW => self.excl_rw = n,
            FileOpenMode::UniqueRW => self.unique_rw = n,
            FileOpenMode::Append => self.append = n,
            FileOpenMode::Unsynch => self.unsynch = n,
        }
    }

    /// Whether a new open in `mode` may join the live ones.
    pub fn allows(&self, mode: FileOpenMode) -> (r: bool)
        ensures
            r == open_allowed(*self, mode),
    {
        match mode {
            FileOpenMode::ExclRW => self.shared_ro == 0 && self.execute == 0 && self.excl_rw == 0
                && self.unique_rw == 0 && self.unsynch == 0,
            FileOpenMode::Unsynch => self.shared_ro == 0 && self.execute == 0 && self.excl_rw == 0
                && self.unique_rw == 0 && self.append == 0,
            FileOpenMode::Append => self.unsynch == 0,
            _ => self.excl_rw == 0 && self.unsynch == 0,
        }
    }
}

/// Which opens are accepted, in terms of the opens already live: a shared
/// read-only, execute or unique read-write open is accepted exactly when no
/// exclusive read-write and no unsynchronised open is live, so any number
/// of readers share a file; an append open exactly when no unsynchronised
/// open is live; an exclusive read-write open exactly when every live open
/// is an append; an unsynchronised open exactly when every live open is
/// unsynchronised. In particular, a reader that was let in leaves room for
/// another reader of the same mode.
pub proof fn law_open_acceptance(o: NodeOpens, m: FileOpenMode)
    ensures
        open_allowed(o, FileOpenMode::SharedRO) <==> o.excl_rw == 0 && o.unsynch == 0,
        open_allowed(o, FileOpenMode::Execute) <==> o.excl_rw == 0 && o.unsynch == 0,
        open_allowed(o, FileOpenMode::UniqueRW) <==> o.excl_rw == 0 && o.unsynch == 0,
        open_allowed(o, FileOpenMode::Append) <==> o.unsynch == 0,
        open_allowed(o, FileOpenMode::ExclRW) <==> o.shared_ro == 0 && o.execute == 0 && o.excl_rw == 0
            && o.unique_rw == 0 && o.unsynch == 0,
        open_allowed(o, FileOpenMode::Unsynch) <==> o.shared_ro == 0 && o.execute == 0 && o.excl_rw == 0
            && o.unique_rw == 0 && o.append == 0,
        (m == FileOpenMode::SharedRO || m == FileOpenMode::Execute) && open_allowed(o, m) && open_count(o, m) < usize::MAX
            ==> open_allowed(with_open_count(o, m, (open_count(o, m) + 1) as usize), m),
{
}

/// The sharing rules of the open modes: while an exclusive read-write open
/// is live only append opens are accepted; an unsynchronised open is
/// accepted only when no open of another mode is live, and while one is
/// live no open of another mode is accepted; any two live opens of which
/// one is exclusive read-write are that one and appends.
pub proof fn law_open_sharing(o: NodeOpens, m: FileOpenMode)
    ensures
        o.excl_rw > 0 && m != FileOpenMode::Append ==> !open_allowed(o, m),
        open_allowed(o, FileOpenMode::Unsynch) ==> (forall|m2: FileOpenMode| m2 != FileOpenMode::Unsynch ==> open_count(o, m2) == 0),
        o.unsynch > 0 && m != FileOpenMode::Unsynch ==> !open_allowed(o, m),
        open_allowed(o, FileOpenMode::ExclRW) ==> (forall|m2: FileOpenMode| m2 != FileOpenMode::Append ==> open_count(o, m2) == 0),
{
}

/// Whether a file opened in `open` may be mapped in `map` mode.
pub open spec fn map_permitted(open: FileOpenMode, map: MemoryMapMode) -> bool {
    match map {
        MemoryMapMode::ReadOnly => open == FileOpenMode::Execute || open == FileOpenMode::SharedRO,
        MemoryMapMode::Execute => open == FileOpenMode::Execute,
        MemoryMapMode::COW => open == FileOpenMode::Execute,
        MemoryMapMode::WriteBack => false,
    }
}

/// The page protection that a mapping mode finishes with.
pub open spec fn protection_for(map: MemoryMapMode) -> ProtectionMode {
    match map {
        MemoryMapMode::ReadOnly => ProtectionMode::UserRO,
        MemoryMapMode::Execute => ProtectionMode::UserRX,
        MemoryMapMode::COW => ProtectionMode::UserCOW,
        MemoryMapMode::WriteBack => ProtectionMode::UserRW,
    }
}

/// The protection a finished mapping gets from its mode: read-only pages
/// for a read-only mapping, read-execute for an executable one,
/// copy-on-write for a copy-on-write one, read-write for write-back.
pub proof fn law_map_protection()
    ensures
        protection_for(MemoryMapMode::ReadOnly) == ProtectionMode::UserRO,
        protection_for(MemoryMapMode::Execute) == ProtectionMode::UserRX,
        protection_for(MemoryMapMode::COW) == ProtectionMode::UserCOW,
        protection_for(MemoryMapMode::WriteBack) == ProtectionMode::UserRW,
{
}

/// Which mappings each open mode grants: a write-back mapping is never
/// granted (it would need the aliasing checks of the exclusive modes), executable
/// and copy-on-write mappings need a file opened for execution, and a
/// read-only mapping needs a file opened for reading (shared or execute);
/// so whatever a shared read-only handle may map, an execute handle may too.
pub proof fn law_map_permissions(open: FileOpenMode, map: MemoryMapMode)
    ensures
        !map_permitted(open, MemoryMapMode::WriteBack),
        map_permitted(open, MemoryMapMode::Execute) <==> open == FileOpenMode::Execute,
        map_permitted(open, MemoryMapMode::COW) <==> open == FileOpenMode::Execute,
        map_permitted(open, MemoryMapMode::ReadOnly) <==> reads_stable_contents(open),
        map_permitted(FileOpenMode::SharedRO, map) ==> map_permitted(FileOpenMode::Execute, map),
        map_permitted(open, map) ==> reads_stable_contents(open),
{
}

/// A read the node is to perform: up to `len` bytes from byte `ofs` of the
/// file `inode`; the node returns the number of bytes read, which may be
/// less than `len`.
#[derive(Clone, Copy, Debug, PartialEq, Eq, Structural)]
pub struct NodeRead {
    pub inode: InodeId,
    pub ofs: u64,
    pub len: usize,
}

/// Open without caring what the file type is (e.g. enumeration)
#[derive(Debug)]
pub struct Any {
    node: CacheHandle,
}

/// Normal file
#[derive(Debug)]
pub struct File {
    node: CacheHandle,
    mode: FileOpenMode,
}

/// Directory (for enumeration)
#[derive(Debug)]
pub struct Dir {
    node: CacheHandle,
}

/// Symbolic link (allows reading the link contents)
#[derive(Debug)]
pub struct Symlink {
    node: CacheHandle,
}

/// Special file (?API exposed)
#[derive(Debug)]
pub struct Special {
    node: CacheHandle,
}

impl Any {
    /// The node this handle refers to.
    pub closed spec fn spec_node(&self) -> CacheHandle {
        self.node
    }

    /// Open a path (not caring what the actual type is), given the result
    /// of looking the path up in the node cache.
    pub fn open(lookup: Result<CacheHandle, Error>) -> (r: Result<Any, Error>)
        ensures
            match lookup {
                Ok(n) => (r matches Ok(a) && a.spec_node() == n),
                Err(e) => r == Err::<Any, Error>(e),
            },
    {
        match lookup {
            Ok(node) => Ok(Any { node: node }),
            Err(e) => Err(e),
        }
    }

    /// The node this handle refers to.
    pub fn node(&self) -> (r: CacheHandle)
        ensures
            r == self.spec_node(),
    {
        self.node
    }

    /// Upgrade the handle to a directory handle
    pub fn to_dir(self) -> (r: Result<Dir, Error>)
        ensures
            self.spec_node().spec_is_dir() ==> (r matches Ok(d) && d.spec_node() == self.spec_node()),
            !self.spec_node().spec_is_dir() ==> r == Err::<Dir, Error>(Error::TypeMismatch),
    {
        if self.node.is_dir() {
            Ok(Dir { node: self.node })
        } else {
            Err(Error::TypeMismatch)
        }
    }
}

impl File {
    /// The node this handle refers to.
    pub closed spec fn spec_node(&self) -> CacheHandle {
        self.node
    }

    /// The mode the file was opened in.
    pub closed spec fn spec_mode(&self) -> FileOpenMode {
        self.mode
    }

    /// Open a path as a file, given the result of looking the path up and
    /// the opens live on its node, which a successful open joins.
    ///
    /// Execute mode needs an executable file; a mode that the live opens
    /// do not allow is refused as `Locked`.
    pub fn open(lookup: Result<CacheHandle, Error>, mode: FileOpenMode, opens: &mut NodeOpens) -> (r: Result<File, Error>)
        requires
            open_count(*old(opens), mode) < usize::MAX,
        ensures
            match lookup {
                Ok(n) => if !n.spec_is_file() {
                    r == Err::<File, Error>(Error::TypeMismatch)
                } else if mode == FileOpenMode::Execute && !n.executable {
                    r == Err::<File, Error>(Error::PermissionDenied)
                } else if !open_allowed(*old(opens), mode) {
                    r == Err::<File, Error>(Error::Locked)
                } else {
                    r matches Ok(f) && f.spec_node() == n && f.spec_mode() == mode
                },
                Err(e) => r == Err::<File, Error>(e),
            },
            r is Ok ==> *final(opens) == with_open_count(*old(opens), mode, (open_count(*old(opens), mode) + 1) as usize),
            r is Err ==> *final(opens) == *old(opens),
    {
        let node = match lookup {
            Ok(n) => n,
            Err(e) => return Err(e),
        };
        if !node.is_file() {
            return Err(Error::TypeMismatch);
        }
        match mode {
            FileOpenMode::Execute => {
                if !node.executable {
                    return Err(Error::PermissionDenied);
                }
            },
            _ => {},
        }
        if !opens.allows(mode) {
            return Err(Error::Locked);
        }
        let n = opens.count(mode);
        opens.set_count(mode, n + 1);
        Ok(File { node: node, mode: mode })
    }

    /// Close the file, releasing its open on the node's live opens.
    pub fn close(self, opens: &mut NodeOpens)
        requires
            open_count(*old(opens), self.spec_mode()) > 0,
        ensures
            *final(opens) == with_open_count(*old(opens), self.spec_mode(), (open_count(*old(opens), self.spec_mode()) - 1) as usize),
    {
        let n = opens.count(self.mode);
        opens.set_count(self.mode, n - 1);
    }

    /// Check a read of `len` bytes at `ofs`: a file opened for appending
    /// cannot be read; otherwise this is the read the node performs.
    pub fn read(&self, ofs: u64, len: usize) -> (r: Result<NodeRead, Error>)
        ensures
            self.spec_mode() == FileOpenMode::Append ==> r == Err::<NodeRead, Error>(Error::PermissionDenied),
            self.spec_mode() != FileOpenMode::Append ==> r == Ok::<NodeRead, Error>(NodeRead { inode: self.spec_node().inode, ofs: ofs, len: len }),
    {
        match self.mode {
            FileOpenMode::Append => Err(Error::PermissionDenied),
            _ => Ok(NodeRead { inode: self.node.inode, ofs: ofs, len: len }),
        }
    }

    /// The mode the file was opened in.
    pub fn mode(&self) -> (r: FileOpenMode)
        ensures
            r == self.spec_mode(),
    {
        self.mode
    }

    /// The number of valid bytes in the file, as the node cache's current
    /// record `node` of the file says (the file may have grown since it was
    /// opened).
    pub fn size(&self, node: &CacheHandle) -> (r: u64)
        requires
            node.inode == self.spec_node().inode,
        ensures
            r == node.valid_size,
    {
        node.valid_size
    }

    /// Check a request to map `size` bytes of the file, starting at file
    /// offset `ofs`, at virtual `address`, and plan it.
    ///
    /// Only page-aligned addresses and sizes are handled.
    pub fn memory_map(&self, address: usize, ofs: u64, size: usize, mode: MemoryMapMode) -> (r: Result<MapPlan, Error>)
        requires
            map_permitted(self.spec_mode(), mode) ==> address % PAGE_SIZE == 0 && size % PAGE_SIZE == 0,
        ensures
            !map_permitted(self.spec_mode(), mode) ==> r == Err::<MapPlan, Error>(Error::PermissionDenied),
            map_permitted(self.spec_mode(), mode) && ofs % (PAGE_SIZE as u64) != 0
                ==> r == Err::<MapPlan, Error>(Error::MapAlignmentMismatch),
            map_permitted(self.spec_mode(), mode) && ofs % (PAGE_SIZE as u64) == 0 ==> r == Ok::<MapPlan, Error>(MapPlan {
                address: address,
                first_page: ofs / (PAGE_SIZE as u64),
                page_count: size / PAGE_SIZE,
                protection: protection_for(mode),
            }),
    {
        // - Check that this file is opened in a sufficent mode to allow this form of mapping
        match mode {
            MemoryMapMode::ReadOnly => match self.mode {
                FileOpenMode::Execute => {},
                FileOpenMode::SharedRO => {},
                _ => return Err(Error::PermissionDenied),
            },
            MemoryMapMode::Execute => match self.mode {
                FileOpenMode::Execute => {},
                _ => return Err(Error::PermissionDenied),
            },
            MemoryMapMode::COW => match self.mode {
                FileOpenMode::Execute => {},
                _ => return Err(Error::PermissionDenied),
            },
            MemoryMapMode::WriteBack => {
                return Err(Error::PermissionDenied);
            },
        }
        let page: u64 = 0x1000;
        if address % PAGE_SIZE != (ofs % page) as usize {
            return Err(Error::MapAlignmentMismatch);
        }
        let protection = match mode {
            MemoryMapMode::ReadOnly => ProtectionMode::UserRO,
            MemoryMapMode::Execute => ProtectionMode::UserRX,
            MemoryMapMode::COW => ProtectionMode::UserCOW,
            MemoryMapMode::WriteBack => ProtectionMode::UserRW,
        };
        Ok(MapPlan { address: address, first_page: ofs / page, page_count: size / PAGE_SIZE, protection: protection })
    }
}

/// A checked memory-map request: the pages of the file to read into a
/// reservation at `address`, and the protection the reservation ends with.
#[derive(Clone, Copy, Debug, PartialEq, Eq, Structural)]
pub struct MapPlan {
    /// Virtual address of the first page.
    pub address: usize,
    /// Index of the file page mapped at `address`.
    pub first_page: u64,
    /// Number of pages mapped.
    pub page_count: usize,
    /// Protection of the finished mapping.
    pub protection: ProtectionMode,
}

impl MapPlan {
    /// The file offset of the data for the `i`th page of the mapping.
    pub fn page_offset(&self, i: usize) -> (r: u64)
        requires
            i < self.page_count,
            (self.first_page + i) * PAGE_SIZE <= u64::MAX,
        ensures
            r == (self.first_page + i) * PAGE_SIZE,
    {
        let page: u64 = self.first_page + i as u64;
        page * 0x1000
    }

    /// Take the outcome of reserving the mapping's address range: a
    /// reservation that failed ends the mapping with `Locked` before any
    /// file data is read; otherwise reading the pages begins.
    pub fn reserved<'a>(self, file: &'a File, ok: bool) -> (r: Result<MapJob<'a>, Error>)
        ensures
            !ok ==> r == Err::<MapJob<'a>, Error>(Error::Locked),
            ok ==> (r matches Ok(j) && j.plan() == self && j.pages_read() == 0 && *j.file() == *file),
    {
        if ok {
            Ok(MapJob { file: file, plan: self, pages_read: 0 })
        } else {
            Err(Error::Locked)
        }
    }
}

/// A mapping whose range is reserved and whose pages are being read, in
/// order, from the file.
pub struct MapJob<'a> {
    file: &'a File,
    plan: MapPlan,
    pages_read: usize,
}

impl<'a> MapJob<'a> {
    pub closed spec fn plan(&self) -> MapPlan {
        self.plan
    }

    /// How many pages have been read into the reservation.
    pub closed spec fn pages_read(&self) -> usize {
        self.pages_read
    }

    pub closed spec fn file(&self) -> &'a File {
        self.file
    }

    /// The next page to read: its index in the mapping and its file offset;
    /// `None` once every page has been read.
    pub fn next_page(&self) -> (r: Option<(usize, u64)>)
        requires
            (self.plan().first_page + self.plan().page_count) * PAGE_SIZE <= u64::MAX,
        ensures
            self.pages_read() < self.plan().page_count ==> r == Some((self.pages_read(), ((self.plan().first_page + self.pages_read()) * PAGE_SIZE) as u64)),
            self.pages_read() >= self.plan().page_count ==> r is None,
    {
        if self.pages_read < self.plan.page_count {
            proof {
                assert((self.plan.first_page + self.pages_read) * PAGE_SIZE <= (self.plan.first_page + self.plan.page_count) * PAGE_SIZE) by (nonlinear_arith)
                    requires
                        self.pages_read < self.plan.page_count,
                ;
            }
            let ofs = self.plan.page_offset(self.pages_read);
            Some((self.pages_read, ofs))
        } else {
            None
        }
    }

    /// Take the outcome of reading the next page: a failed read ends the
    /// mapping with its error (no later page is read and the reservation is
    /// not finalised); a successful one moves on to the following page.
    pub fn page_read(self, result: Result<(), Error>) -> (r: Result<MapJob<'a>, Error>)
        requires
            self.pages_read() < self.plan().page_count,
        ensures
            match result {
                Err(e) => r == Err::<MapJob<'a>, Error>(e),
                Ok(_) => (r matches Ok(j) && j.plan() == self.plan() && j.pages_read() == self.pages_read() + 1 && j.file() == self.file()),
            },
    {
        match result {
            Err(e) => Err(e),
            Ok(_) => Ok(MapJob { file: self.file, plan: self.plan, pages_read: self.pages_read + 1 }),
        }
    }

    /// Once every page is read: the protection to finalise the reservation
    /// with, and the handle of the finished mapping.
    pub fn finish(self) -> (r: (ProtectionMode, MemoryMapHandle<'a>))
        requires
            self.pages_read() == self.plan().page_count,
            self.plan().page_count * PAGE_SIZE <= usize::MAX,
        ensures
            r.0 == self.plan().protection,
            r.1.base() == self.plan().address,
            r.1.len() == self.plan().page_count * PAGE_SIZE,
            r.1.file() == self.file(),
    {
        let handle = MemoryMapHandle { handle: self.file, base: self.plan.address, len: self.plan.page_count * PAGE_SIZE };
        (self.plan.protection, handle)
    }
}

/// A mapping of part of a file into the address space.
pub struct MemoryMapHandle<'a> {
    handle: &'a File,
    base: usize,
    len: usize,
}

impl<'a> MemoryMapHandle<'a> {
    pub closed spec fn base(&self) -> usize {
        self.base
    }

    pub closed spec fn len(&self) -> usize {
        self.len
    }

    pub closed spec fn file(&self) -> &'a File {
        self.handle
    }

    /// The address of the first mapped byte.
    pub fn base_address(&self) -> (r: usize)
        ensures
            r == self.base(),
    {
        self.base
    }

    /// The number of mapped bytes.
    pub fn mapped_len(&self) -> (r: usize)
        ensures
            r == self.len(),
    {
        self.len
    }
}

impl Dir {
    /// The node this handle refers to.
    pub closed spec fn spec_node(&self) -> CacheHandle {
        self.node
    }

    /// Open a path as a directory, given the result of looking it up.
    pub fn open(lookup: Result<CacheHandle, Error>) -> (r: Result<Dir, Error>)
        ensures
            match lookup {
                Ok(n) => if n.spec_is_dir() {
                    (r matches Ok(d) && d.spec_node() == n)
                } else {
                    r == Err::<Dir, Error>(Error::TypeMismatch)
                },
                Err(e) => r == Err::<Dir, Error>(e),
            },
    {
        let any = Any::open(lookup)?;
        any.to_dir()
    }

    /// The node this handle refers to.
    pub fn node(&self) -> (r: CacheHandle)
        ensures
            r == self.spec_node(),
    {
        self.node
    }

    /// Start enumerating the directory's entries.
    pub fn iter(&self) -> (r: DirIter<'_>)
        ensures
            r.pos() == 0,
            r.offset() == 0,
            r.count() == 0,
            r.entries() == Seq::new(DIR_ITER_SLOTS as nat, |_i: int| (0u64, Seq::<u8>::empty())),
            *r.dir() == *self,
    {
        let mut ents: Vec<(InodeId, Vec<u8>)> = Vec::new();
        ents.push((0, Vec::new()));
        ents.push((0, Vec::new()));
        ents.push((0, Vec::new()));
        ents.push((0, Vec::new()));
        let r = DirIter { handle: self, ents: ents, pos: 0, ofs: 0, count: 0 };
        assert(r.entries() =~= Seq::new(DIR_ITER_SLOTS as nat, |_i: int| (0u64, Seq::<u8>::empty())));
        r
    }

    /// Finish creating a sub-directory, given the result of asking the node
    /// to create it. The node a successful create returns must be a
    /// directory.
    pub fn mkdir(&self, created: Result<CacheHandle, Error>) -> (r: Result<Dir, Error>)
        requires
            created matches Ok(n) ==> n.spec_is_dir(),
        ensures
            match created {
                Ok(n) => (r matches Ok(d) && d.spec_node() == n),
                Err(e) => r == Err::<Dir, Error>(e),
            },
    {
        let node = created?;
        Ok(Dir { node: node })
    }

    /// Finish creating a symbolic link, given the result of asking the node
    /// to create it.
    pub fn symlink(&self, created: Result<CacheHandle, Error>) -> (r: Result<(), Error>)
        ensures
            match created {
                Ok(_) => r is Ok,
                Err(e) => r == Err::<(), Error>(e),
            },
    {
        created?;
        Ok(())
    }
}

/// The number of entries a directory iterator fetches per read.
pub const DIR_ITER_SLOTS: usize = 4;

/// A directory iterator's state: the position the next read starts from,
/// how many slots the last read filled, how many have been handed out, and
/// the slots (inode and name).
pub type IterState = (usize, usize, usize, Seq<(InodeId, Seq<u8>)>);

/// Hand out the next filled slot: its name, leaving the slot's name empty.
pub open spec fn iter_take(st: IterState) -> (IterState, Seq<u8>) {
    let (pos, count, ofs, ents) = st;
    ((pos, count, (ofs + 1) as usize, ents.update(ofs as int, (ents[ofs as int].0, Seq::<u8>::empty()))), ents[ofs as int].1)
}

/// Take in a read that returned position `next` and `count` filled slots
/// `ents`; when it filled any, the first is handed out at once.
pub open spec fn iter_fill(st: IterState, next: usize, count: usize, ents: Seq<(InodeId, Seq<u8>)>) -> IterState {
    if count == 0 {
        (next, count, st.2, ents)
    } else {
        (next, count, 1, ents.update(0, (ents[0].0, Seq::<u8>::empty())))
    }
}

/// The names that successive calls hand out, from state `st`, when each
/// read it asks for is answered by the next of `batches` (new position,
/// filled slots, slots), until a read fills none or the batches run out.
pub open spec fn iter_walk(st: IterState, batches: Seq<(usize, usize, Seq<(InodeId, Seq<u8>)>)>) -> Seq<Seq<u8>>
    decreases batches.len(), st.1 - st.2,
{
    if st.2 < st.1 && st.2 < DIR_ITER_SLOTS && st.3.len() == DIR_ITER_SLOTS {
        let (st2, name) = iter_take(st);
        seq![name] + iter_walk(st2, batches)
    } else if st.2 == st.1 && batches.len() > 0 {
        let (next, count, ents) = batches[0];
        if count == 0 {
            Seq::empty()
        } else {
            seq![ents[0].1] + iter_walk(iter_fill(st, next, count, ents), batches.drop_first())
        }
    } else {
        Seq::empty()
    }
}

/// The names of the filled slots of each batch, in order, up to the first
/// batch that fills none.
pub open spec fn batch_names(batches: Seq<(usize, usize, Seq<(InodeId, Seq<u8>)>)>) -> Seq<Seq<u8>>
    decreases batches.len(),
{
    if batches.len() == 0 {
        Seq::empty()
    } else {
        let (_, count, ents) = batches[0];
        if count == 0 {
            Seq::empty()
        } else {
            ents.subrange(0, count as int).map_values(|e: (InodeId, Seq<u8>)| e.1) + batch_names(batches.drop_first())
        }
    }
}

proof fn lemma_iter_walk(st: IterState, batches: Seq<(usize, usize, Seq<(InodeId, Seq<u8>)>)>)
    requires
        st.2 <= st.1 <= DIR_ITER_SLOTS,
        st.3.len() == DIR_ITER_SLOTS,
        forall|i: int| 0 <= i < batches.len() ==> (#[trigger] batches[i]).1 <= DIR_ITER_SLOTS && batches[i].2.len() == DIR_ITER_SLOTS,
    ensures
        iter_walk(st, batches) == st.3.subrange(st.2 as int, st.1 as int).map_values(|e: (InodeId, Seq<u8>)| e.1) + batch_names(batches),
    decreases batches.len(), st.1 - st.2,
{
    let (pos, count, ofs, ents) = st;
    let names = ents.subrange(ofs as int, count as int).map_values(|e: (InodeId, Seq<u8>)| e.1);
    if ofs < count {
        let (st2, name) = iter_take(st);
        lemma_iter_walk(st2, batches);
        let names2 = st2.3.subrange(st2.2 as int, st2.1 as int).map_values(|e: (InodeId, Seq<u8>)| e.1);
        assert(names =~= seq![name] + names2);
        assert(iter_walk(st, batches) == seq![name] + iter_walk(st2, batches));
        assert(seq![name] + (names2 + batch_names(batches)) =~= names + batch_names(batches));
    } else {
        assert(names =~= Seq::<Seq<u8>>::empty());
        if batches.len() == 0 {
            assert(names + batch_names(batches) =~= Seq::<Seq<u8>>::empty());
        } else {
            let (next, c, e) = batches[0];
            assert(batches[0].1 <= DIR_ITER_SLOTS && batches[0].2.len() == DIR_ITER_SLOTS);
            let rest = batches.drop_first();
            assert forall|i: int| 0 <= i < rest.len() implies (#[trigger] rest[i]).1 <= DIR_ITER_SLOTS && rest[i].2.len() == DIR_ITER_SLOTS by {
                assert(rest[i] == batches[i + 1]);
            }
            if c == 0 {
                assert(names + batch_names(batches) =~= Seq::<Seq<u8>>::empty());
            } else {
                let st2 = iter_fill(st, next, c, e);
                lemma_iter_walk(st2, rest);
                let names2 = st2.3.subrange(1, c as int).map_values(|x: (InodeId, Seq<u8>)| x.1);
                let all = e.subrange(0, c as int).map_values(|x: (InodeId, Seq<u8>)| x.1);
                assert(all =~= seq![e[0].1] + names2);
                assert(iter_walk(st, batches) == seq![e[0].1] + iter_walk(st2, rest));
                assert(batch_names(batches) == all + batch_names(rest));
                assert(seq![e[0].1] + (names2 + batch_names(rest)) =~= names + (all + batch_names(rest)));
            }
        }
    }
}

/// Walking a new iterator hands out every name of every read batch exactly
/// once, batch after batch in slot order, and stops at the first read that
/// fills no slot: a read is asked for only when the names of the last one
/// are used up.
pub proof fn law_dir_iter_yields_batches(batches: Seq<(usize, usize, Seq<(InodeId, Seq<u8>)>)>)
    requires
        forall|i: int| 0 <= i < batches.len() ==> (#[trigger] batches[i]).1 <= DIR_ITER_SLOTS && batches[i].2.len() == DIR_ITER_SLOTS,
    ensures
        iter_walk((0, 0, 0, Seq::new(DIR_ITER_SLOTS as nat, |_i: int| (0u64, Seq::<u8>::empty()))), batches) == batch_names(batches),
{
    let st: IterState = (0, 0, 0, Seq::new(DIR_ITER_SLOTS as nat, |_i: int| (0u64, Seq::<u8>::empty())));
    lemma_iter_walk(st, batches);
    assert(st.3.subrange(0, 0).map_values(|e: (InodeId, Seq<u8>)| e.1) + batch_names(batches) =~= batch_names(batches));
}

/// What a directory iterator needs next.
#[derive(Debug)]
pub enum DirIterStep {
    /// Read the directory from position `pos` into the iterator's slots,
    /// then hand the result to `DirIter::refill`.
    Read { pos: usize },
    /// The next entry's name.
    Item(Vec<u8>),
}

/// Iterator over the names in a directory.
pub struct DirIter<'a> {
    handle: &'a Dir,
    count: usize,
    ofs: usize,
    pos: usize,
    ents: Vec<(InodeId, Vec<u8>)>,
}

impl<'a> DirIter<'a> {
    pub closed spec fn dir(&self) -> &'a Dir {
        self.handle
    }

    /// The directory position that the next read starts from.
    pub closed spec fn pos(&self) -> usize {
        self.pos
    }

    /// How many of the slots the last read filled.
    pub closed spec fn count(&self) -> usize {
        self.count
    }

    /// How many slots have been handed out since the last read.
    pub closed spec fn offset(&self) -> usize {
        self.ofs
    }

    /// The slots: inode and name of each fetched entry.
    pub closed spec fn entries(&self) -> Seq<(InodeId, Seq<u8>)> {
        self.ents@.map_values(|e: (InodeId, Vec<u8>)| (e.0, e.1@))
    }

    /// The iterator's state: position, filled slots, slots handed out, and
    /// the slots.
    pub open spec fn state(&self) -> IterState {
        (self.pos(), self.count(), self.offset(), self.entries())
    }

    /// Take the next name, or ask for the next batch to be read.
    pub fn next(&mut self) -> (r: DirIterStep)
        requires
            old(self).entries().len() == DIR_ITER_SLOTS,
            old(self).offset() != old(self).count() ==> old(self).offset() < DIR_ITER_SLOTS,
        ensures
            final(self).dir() == old(self).dir(),
            final(self).pos() == old(self).pos(),
            final(self).count() == old(self).count(),
            final(self).entries().len() == DIR_ITER_SLOTS,
            old(self).offset() == old(self).count() ==> (r == DirIterStep::Read { pos: old(self).pos() }
                && final(self).offset() == old(self).offset()
                && final(self).entries() == old(self).entries()),
            old(self).offset() != old(self).count() ==> (r matches DirIterStep::Item(name) && (final(self).state(), name@) == iter_take(old(self).state())),
            old(self).offset() != old(self).count() ==> ({
                let k = old(self).offset() as int;
                &&& r matches DirIterStep::Item(name) && name@ == old(self).entries()[k].1
                &&& final(self).offset() == old(self).offset() + 1
                &&& final(self).entries() == old(self).entries().update(k, (old(self).entries()[k].0, Seq::<u8>::empty()))
            }),
    {
        if self.ofs == self.count {
            DirIterStep::Read { pos: self.pos }
        } else {
            self.ofs = self.ofs + 1;
            let name = self.take_name(self.ofs - 1);
            DirIterStep::Item(name)
        }
    }

    /// Take the name out of slot `i`, leaving an empty one.
    fn take_name(&mut self, i: usize) -> (r: Vec<u8>)
        requires
            i < old(self).ents@.len(),
        ensures
            final(self).handle == old(self).handle,
            final(self).pos == old(self).pos,
            final(self).count == old(self).count,
            final(self).ofs == old(self).ofs,
            r@ == old(self).entries()[i as int].1,
            final(self).entries() == old(self).entries().update(i as int, (old(self).entries()[i as int].0, Seq::<u8>::empty())),
    {
        let ghost before = self.entries();
        let mut ents: Vec<(InodeId, Vec<u8>)> = Vec::new();
        core::mem::swap(&mut ents, &mut self.ents);
        let mut entry = ents.remove(i);
        let mut name: Vec<u8> = Vec::new();
        core::mem::swap(&mut name, &mut entry.1);
        ents.insert(i, entry);
        self.ents = ents;
        assert(self.entries() =~= before.update(i as int, (before[i as int].0, Seq::<u8>::empty())));
        name
    }

    /// Take in the result of the read that `next` asked for: the new
    /// position and number of filled slots, and the slots as the read left
    /// them. Returns the first new name, or `None` when the read failed or
    /// found nothing more.
    pub fn refill(&mut self, result: Result<(usize, usize), Error>, ents: Vec<(InodeId, Vec<u8>)>) -> (r: Option<Vec<u8>>)
        requires
            ents@.len() == DIR_ITER_SLOTS,
        ensures
            final(self).dir() == old(self).dir(),
            final(self).entries().len() == DIR_ITER_SLOTS,
            result matches Ok((next, count)) ==> final(self).state() == iter_fill(old(self).state(), next, count, ents@.map_values(|e: (InodeId, Vec<u8>)| (e.0, e.1@))),
            match result {
                Err(_) => {
                    &&& r is None
                    &&& final(self).entries() == ents@.map_values(|e: (InodeId, Vec<u8>)| (e.0, e.1@))
                    &&& final(self).pos() == old(self).pos()
                    &&& final(self).count() == old(self).count()
                    &&& final(self).offset() == old(self).offset()
                },
                Ok((next, count)) => {
                    &&& final(self).pos() == next
                    &&& final(self).count() == count
                    &&& if count == 0 {
                        &&& r is None
                        &&& final(self).offset() == old(self).offset()
                        &&& final(self).entries() == ents@.map_values(|e: (InodeId, Vec<u8>)| (e.0, e.1@))
                    } else {
                        &&& r matches Some(name) && name@ == ents@[0].1@
                        &&& final(self).offset() == 1
                        &&& final(self).entries() == ents@.map_values(|e: (InodeId, Vec<u8>)| (e.0, e.1@)).update(0, (ents@[0].0, Seq::<u8>::empty()))
                    }
                },
            },
    {
        self.ents = ents;
        match result {
            Err(_) => {
                return None;
            },
            Ok((next, count)) => {
                self.pos = next;
                self.count = count;
            },
        }
        if self.count == 0 {
            return None;
        }
        self.ofs = 1;
        let name = self.take_name(0);
        Some(name)
    }
}

} // verus!
