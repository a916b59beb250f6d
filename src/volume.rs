//! A FAT32 volume over an owned image: listing, lookup, reading and creating files.
use vstd::prelude::*;
use vstd::string::StringSliceAdditionalSpecFns;

use crate::boot::{boot_sector_of, has_boot_signature, BootSector, BOOT_FIELDS_END, BOOT_SECTOR_SIZE};
use crate::bytes::{
    le16_bytes, le32, le32_bytes, read_u32_le, splice, u16_le_bytes, u32_le_bytes, write_bytes,
};
use crate::dirent::{
    directory_offsets, find_named, first_named, lists, record_cluster, record_fits,
    record_is_directory, scan_records, DirectoryEntry, ATTR_ARCHIVE, DELETED_MARKER, END_MARKER,
    RECORD_SIZE,
};
use crate::error::FsError;
use crate::name::{short_name, short_name_field};
use crate::path::{is_absolute, segments, split_path};
use crate::text::{info_summary, info_text};

verus! {

/// Whether `r` is a `NotFound` error that names `name`.
pub open spec fn is_not_found<T>(r: Result<T, FsError>, name: Seq<char>) -> bool {
    r matches Err(FsError::NotFound(s)) && s@ == name
}

/// A directory entry's cluster, where 0 stands for the root directory.
pub open spec fn directory_cluster(c: nat, root: u32) -> u32 {
    if c == 0 { root } else { c as u32 }
}

/// The name ".", which leaves the current directory where it is.
pub open spec fn is_dot(name: Seq<char>) -> bool {
    name.len() == 1 && name[0] == '.'
}

/// The value that marks a cluster as the last of its chain.
pub const END_OF_CHAIN: u32 = 0x0FFF_FFFF;

/// The first FAT index that the allocator considers.
pub const FIRST_ALLOCATABLE: u64 = 3;

/// Directory slots that the entry writer searches.
pub const MAX_SLOTS: usize = 64;

/// Entries in the first FAT: its bytes over four, capped at the count of
/// 32-bit cluster numbers.
pub open spec fn fat_entry_count(g: BootSector) -> nat {
    let n = (g.sectors_per_fat_32 * g.bytes_per_sector) as nat / 4;
    if n > 0x1_0000_0000 { 0x1_0000_0000 } else { n }
}

/// The first free FAT entry at index `i` or later: its index, or
/// `OutOfRange` when the image ends first, or `OutOfSpace`.
pub open spec fn free_cluster_from(d: Seq<u8>, g: BootSector, i: nat) -> Result<u32, FsError>
    decreases fat_entry_count(g) - i,
{
    if i >= fat_entry_count(g) {
        Err(FsError::OutOfSpace)
    } else if g.fat_offset() + 4 * i + 4 > d.len() {
        Err(FsError::OutOfRange)
    } else if le32(d, (g.fat_offset() + 4 * i) as int) == 0 {
        Ok(i as u32)
    } else {
        free_cluster_from(d, g, i + 1)
    }
}

/// What the allocator gives on the image `d`.
pub open spec fn free_cluster(d: Seq<u8>, g: BootSector) -> Result<u32, FsError> {
    free_cluster_from(d, g, FIRST_ALLOCATABLE as nat)
}

/// `d` with the FAT entry of cluster `c` marked as the end of a chain.
pub open spec fn claim(d: Seq<u8>, g: BootSector, c: u32) -> Seq<u8> {
    splice(d, (g.fat_offset() + 4 * c) as int, le32_bytes(END_OF_CHAIN as nat))
}

/// The first free directory slot from slot `k` on of the directory at `o`:
/// one whose first byte is the end marker or the deleted marker.
pub open spec fn free_slot_from(d: Seq<u8>, o: int, k: nat) -> Result<int, FsError>
    decreases MAX_SLOTS - k,
{
    if k >= MAX_SLOTS {
        Err(FsError::DirectoryFull)
    } else if !record_fits(d, o + RECORD_SIZE * k) {
        Err(FsError::OutOfRange)
    } else if d[o + RECORD_SIZE * k] == END_MARKER || d[o + RECORD_SIZE * k] == DELETED_MARKER {
        Ok(o + RECORD_SIZE * k)
    } else {
        free_slot_from(d, o, k + 1)
    }
}

/// `d` with a file entry written at `s`: the name field, the archive
/// attribute, the two halves of the cluster and the size.  The other bytes
/// of the record are kept.
pub open spec fn entry_written(d: Seq<u8>, s: int, field: Seq<u8>, cluster: nat, size: nat) -> Seq<u8> {
    let d1 = splice(d, s, field.push(ATTR_ARCHIVE));
    let d2 = splice(d1, s + 20, le16_bytes(cluster / 65536));
    let d3 = splice(d2, s + 26, le16_bytes(cluster % 65536));
    splice(d3, s + 28, le32_bytes(size))
}

/// What writing an entry for `name` into the directory at offset `o` gives:
/// the result and the image after it.
pub open spec fn write_entry_outcome(d: Seq<u8>, o: int, name: Seq<u8>, cluster: nat, size: nat) -> (Result<(), FsError>, Seq<u8>) {
    match free_slot_from(d, o, 0) {
        Ok(s) => (Ok(()), entry_written(d, s, short_name_field(name), cluster, size)),
        Err(e) => (Err(e), d),
    }
}

/// What creating a file gives: the result and the image after it.  A free
/// cluster is looked for first; the content must fit in it; the cluster is
/// claimed, the content copied to it, and an entry written in the directory
/// at `dir`.
pub open spec fn create_outcome(d: Seq<u8>, g: BootSector, dir: u32, name: Seq<u8>, content: Seq<u8>) -> (Result<(), FsError>, Seq<u8>) {
    match free_cluster(d, g) {
        Err(e) => (Err(e), d),
        Ok(c) => if content.len() > g.cluster_bytes() {
            (Err(FsError::FileTooLarge), d)
        } else {
            let d1 = claim(d, g, c);
            let off = g.offset_of(c);
            if off + content.len() > d1.len() {
                (Err(FsError::OutOfRange), d1)
            } else {
                let d2 = splice(d1, off as int, content);
                write_entry_outcome(d2, g.offset_of(dir) as int, name, c as nat, content.len())
            }
        },
    }
}

/// A FAT32 volume: the image it owns, the geometry read from its boot sector
/// when it was opened, and the cluster of the current directory.
pub struct Fat32Volume {
    data: Vec<u8>,
    pub boot_sector: BootSector,
    pub current_cluster: u32,
}

/// A FAT32 image opened as a volume.
pub type Fat32Image = Fat32Volume;

impl Fat32Volume {
    /// The bytes of the image.
    pub closed spec fn image(&self) -> Seq<u8> {
        self.data@
    }

    /// The geometry read when the volume was opened.
    pub closed spec fn geometry(&self) -> BootSector {
        self.boot_sector
    }

    /// The cluster of the current directory.
    pub closed spec fn cwd(&self) -> u32 {
        self.current_cluster
    }

    /// The offsets of the records that the directory at `cluster` lists.
    pub open spec fn listed_in(&self, cluster: u32) -> Seq<int> {
        directory_offsets(self.image(), self.geometry().offset_of(cluster) as int)
    }

    /// The offset of the first listed record of the directory at `cluster`
    /// whose name answers to `q`.
    pub open spec fn lookup(&self, cluster: u32, q: Seq<char>) -> Option<int> {
        first_named(self.image(), self.listed_in(cluster), q)
    }

    /// The directory that `q` names inside the directory at `cluster`, if it is one.
    pub open spec fn sub_directory(&self, cluster: u32, q: Seq<char>) -> Option<u32> {
        match self.lookup(cluster, q) {
            Some(o) => if record_is_directory(self.image(), o) {
                Some(directory_cluster(record_cluster(self.image(), o), self.geometry().root_dir_cluster))
            } else {
                None
            },
            None => None,
        }
    }

    /// Whether `r` is what looking up the directory `q` inside `cluster` gives.
    pub open spec fn sub_directory_outcome(&self, cluster: u32, q: Seq<char>, r: Result<u32, FsError>) -> bool {
        match self.lookup(cluster, q) {
            None => is_not_found(r, q),
            Some(o) => if record_is_directory(self.image(), o) {
                r == Ok::<u32, FsError>(
                    directory_cluster(record_cluster(self.image(), o), self.geometry().root_dir_cluster),
                )
            } else {
                r == Err::<u32, FsError>(FsError::NotADirectory)
            },
        }
    }

    /// Whether `r` is what reading the file `q` of the directory at `cluster` gives.
    pub open spec fn file_outcome(&self, cluster: u32, q: Seq<char>, r: Result<Vec<u8>, FsError>) -> bool {
        let d = self.image();
        match self.lookup(cluster, q) {
            None => is_not_found(r, q),
            Some(o) => if record_is_directory(d, o) {
                r == Err::<Vec<u8>, FsError>(FsError::IsADirectory)
            } else {
                let off = self.geometry().offset_of(record_cluster(d, o) as u32);
                let size = le32(d, o + 28);
                if off + size > d.len() {
                    r == Err::<Vec<u8>, FsError>(FsError::OutOfRange)
                } else {
                    r matches Ok(v) && v@ == d.subrange(off as int, (off + size) as int)
                }
            },
        }
    }

    /// Where walking down the directories `names` from `cluster` leads, or
    /// the first name that is not a directory there.
    pub open spec fn walk(&self, cluster: u32, names: Seq<Seq<char>>) -> Result<u32, Seq<char>>
        decreases names.len(),
    {
        if names.len() == 0 {
            Ok(cluster)
        } else {
            match self.sub_directory(cluster, names[0]) {
                Some(c) => self.walk(c, names.drop_first()),
                None => Err(names[0]),
            }
        }
    }

    /// The directory that a path is read from: the root for an absolute path.
    pub open spec fn path_base(&self, start_cluster: u32, p: Seq<char>) -> u32 {
        if is_absolute(p) { self.geometry().root_dir_cluster } else { start_cluster }
    }

    /// Whether `r` is what resolving the path `p` from `start_cluster` gives.
    pub open spec fn resolve_outcome(
        &self,
        start_cluster: u32,
        p: Seq<char>,
        r: Result<(u32, Option<String>), FsError>,
    ) -> bool {
        let segs = segments(p);
        let base = self.path_base(start_cluster, p);
        if segs.len() == 0 {
            r == Ok::<(u32, Option<String>), FsError>((base, None))
        } else {
            match self.walk(base, segs.drop_last()) {
                Ok(c) => r matches Ok((c2, Some(leaf))) && c2 == c && leaf@ == segs.last(),
                Err(n) => is_not_found(r, n),
            }
        }
    }

    /// Opens an image without checking its boot signature.
    pub fn new(data: Vec<u8>) -> (r: Fat32Volume)
        requires
            data@.len() >= BOOT_FIELDS_END,
        ensures
            r.image() == data@,
            r.geometry() == boot_sector_of(data@),
            r.cwd() == r.geometry().root_dir_cluster,
    {
        let boot_sector = BootSector::parse(data.as_slice());
        let root = boot_sector.root_dir_cluster;
        Fat32Volume { data, boot_sector, current_cluster: root }
    }

    /// Opens an image whose first sector carries the boot signature; fails
    /// with `FormatError` otherwise.
    pub fn open(data: Vec<u8>) -> (r: Result<Fat32Volume, FsError>)
        ensures
            r is Ok <==> has_boot_signature(data@),
            r matches Ok(v) ==> v.image() == data@ && v.geometry() == boot_sector_of(data@)
                && v.cwd() == v.geometry().root_dir_cluster,
            r matches Err(e) ==> e == FsError::FormatError,
    {
        if data.len() < BOOT_SECTOR_SIZE || data[510] != 0x55 || data[511] != 0xAA {
            return Err(FsError::FormatError);
        }
        Ok(Fat32Volume::new(data))
    }

    /// The geometry read when the volume was opened.
    pub fn get_boot_sector(&self) -> (r: BootSector)
        ensures
            r == self.geometry(),
    {
        self.boot_sector
    }

    /// The cluster of the current directory.
    pub fn get_current_cluster(&self) -> (r: u32)
        ensures
            r == self.cwd(),
    {
        self.current_cluster
    }

    /// Makes the directory at `cluster` the current one.
    pub fn set_current_cluster(&mut self, cluster: u32)
        ensures
            final(self).cwd() == cluster,
            final(self).image() == old(self).image(),
            final(self).geometry() == old(self).geometry(),
    {
        self.current_cluster = cluster;
    }

    /// The bytes of the image, with every change made so far.
    pub fn image_bytes(&self) -> (r: &[u8])
        ensures
            r@ == self.image(),
    {
        self.data.as_slice()
    }

    /// Gives the image back, with every change made so far.
    pub fn into_image(self) -> (r: Vec<u8>)
        ensures
            r@ == self.image(),
    {
        self.data
    }

    /// A summary of the geometry and of the current directory.
    pub fn get_info(&self) -> (r: String)
        ensures
            r@ == info_summary(
                self.geometry().bytes_per_sector as nat,
                self.geometry().sectors_per_cluster as nat,
                self.geometry().root_dir_cluster as nat,
                self.cwd() as nat,
            ),
    {
        info_text(
            self.boot_sector.bytes_per_sector,
            self.boot_sector.sectors_per_cluster,
            self.boot_sector.root_dir_cluster,
            self.current_cluster,
        )
    }

    /// Byte offset of the first byte of `cluster`; clusters below 2 count as 2.
    pub fn offset_from_cluster(&self, cluster: u32) -> (r: u64)
        ensures
            r as nat == self.geometry().offset_of(cluster),
    {
        self.boot_sector.offset_from_cluster(cluster)
    }

    /// The entries that the directory at `cluster` lists.
    pub fn list_directory(&self, cluster: u32) -> (r: Vec<DirectoryEntry>)
        ensures
            lists(r@, self.image(), self.listed_in(cluster)),
    {
        let start = self.offset_from_cluster(cluster);
        scan_records(self.data.as_slice(), start)
    }

    /// The entries that the current directory lists.
    pub fn list_current(&self) -> (r: Vec<DirectoryEntry>)
        ensures
            lists(r@, self.image(), self.listed_in(self.cwd())),
    {
        self.list_directory(self.current_cluster)
    }

    /// The first listed entry of the directory at `cluster` named `name`.
    fn find_entry(&self, cluster: u32, name: &str) -> (r: Option<DirectoryEntry>)
        ensures
            r is None <==> self.lookup(cluster, name@) is None,
            r matches Some(e) ==> describes_at(e, self.image(), self.lookup(cluster, name@)),
    {
        let entries = self.list_directory(cluster);
        match find_named(&entries, name, Ghost(self.image()), Ghost(self.listed_in(cluster))) {
            Some(i) => Some(entries[i]),
            None => None,
        }
    }

    /// The cluster of the directory `name` inside the directory at `cluster`.
    /// Fails with `NotFound` when no listed entry has that name, and with
    /// `NotADirectory` when the first one that has it is a file.
    pub fn find_sub_directory(&self, cluster: u32, name: &str) -> (r: Result<u32, FsError>)
        ensures
            self.sub_directory_outcome(cluster, name@, r),
    {
        match self.find_entry(cluster, name) {
            None => Err(FsError::NotFound(name.to_owned())),
            Some(e) => {
                if e.is_directory() {
                    let c = e.start_cluster();
                    if c == 0 {
                        Ok(self.boot_sector.root_dir_cluster)
                    } else {
                        Ok(c)
                    }
                } else {
                    Err(FsError::NotADirectory)
                }
            },
        }
    }

    /// The content of the file `filename` in the directory at `cluster`: the
    /// bytes of its entry's size from the start of its first cluster.  Fails
    /// with `NotFound` when no listed entry has that name, with `IsADirectory`
    /// when the first one that has it is a directory, and with `OutOfRange`
    /// when the content would reach past the end of the image.
    pub fn cat_file(&self, cluster: u32, filename: &str) -> (r: Result<Vec<u8>, FsError>)
        ensures
            self.file_outcome(cluster, filename@, r),
    {
        let e = match self.find_entry(cluster, filename) {
            None => {
                return Err(FsError::NotFound(filename.to_owned()));
            },
            Some(e) => e,
        };
        if e.is_directory() {
            return Err(FsError::IsADirectory);
        }
        let off = self.offset_from_cluster(e.start_cluster());
        let size = e.size as u64;
        let len = self.data.len() as u64;
        if off > len || size > len - off {
            return Err(FsError::OutOfRange);
        }
        let start = off as usize;
        let end = (off + size) as usize;
        let mut content: Vec<u8> = Vec::new();
        let mut i: usize = start;
        while i < end
            invariant
                start <= i <= end <= self.data@.len(),
                content@ == self.data@.subrange(start as int, i as int),
            decreases end - i,
        {
            content.push(self.data[i]);
            i = i + 1;
        }
        Ok(content)
    }

    /// The content of the file `filename` in the current directory.
    pub fn read_file(&self, filename: &str) -> (r: Result<Vec<u8>, FsError>)
        ensures
            self.file_outcome(self.cwd(), filename@, r),
    {
        self.cat_file(self.current_cluster, filename)
    }

    /// Resolves `path` from the directory at `start_cluster` (from the root
    /// when it starts with a slash) into the directory that holds its last
    /// segment, and that segment.  A path without segments is the directory
    /// itself.  Fails with `NotFound`, naming the segment, at the first
    /// segment before the last that is not a directory.
    pub fn resolve_path(&self, start_cluster: u32, path: &str) -> (r: Result<(u32, Option<String>), FsError>)
        ensures
            self.resolve_outcome(start_cluster, path@, r),
    {
        let base = if path.unicode_len() > 0 && path.get_char(0) == '/' {
            self.boot_sector.root_dir_cluster
        } else {
            start_cluster
        };
        assert(base == self.path_base(start_cluster, path@));
        let parts = split_path(path);
        let ghost segs = segments(path@);
        if parts.len() == 0 {
            return Ok((base, None));
        }
        let last = parts.len() - 1;
        let ghost dirs = segs.drop_last();
        let mut cluster = base;
        let mut i: usize = 0;
        assert(dirs.subrange(0, dirs.len() as int) =~= dirs);
        while i < last
            invariant
                i <= last,
                last + 1 == parts@.len(),
                parts@.len() == segs.len(),
                segs == segments(path@),
                base == self.path_base(start_cluster, path@),
                dirs == segs.drop_last(),
                forall|j: int| 0 <= j < parts@.len() ==> (#[trigger] parts@[j])@ == segs[j],
                self.walk(base, dirs) == self.walk(cluster, dirs.subrange(i as int, dirs.len() as int)),
            decreases last - i,
        {
            let ghost rest = dirs.subrange(i as int, dirs.len() as int);
            assert(rest[0] == parts@[i as int]@);
            match self.find_sub_directory(cluster, parts[i]) {
                Ok(c) => {
                    assert(rest.drop_first() =~= dirs.subrange(i + 1, dirs.len() as int));
                    cluster = c;
                },
                Err(_) => {
                    assert(self.sub_directory(cluster, rest[0]) is None);
                    assert(self.walk(cluster, rest) == Err::<u32, Seq<char>>(rest[0]));
                    let missing = parts[i].to_owned();
                    return Err(FsError::NotFound(missing));
                },
            }
            i = i + 1;
        }
        assert(dirs.subrange(last as int, dirs.len() as int) =~= Seq::<Seq<char>>::empty());
        Ok((cluster, Some(parts[last].to_owned())))
    }

    /// The first free entry of the first FAT from index 3 on, without
    /// claiming it.  Fails with `OutOfSpace` when the FAT has no free entry
    /// and with `OutOfRange` when the image ends before one is found.
    pub fn find_free_cluster(&self) -> (r: Result<u32, FsError>)
        ensures
            r == free_cluster(self.image(), self.geometry()),
            r matches Ok(c) ==> self.geometry().fat_offset() + 4 * c + 4 <= self.image().len(),
    {
        let n: usize = self.data.len();
        let len = n as u64;
        let reserved = self.boot_sector.reserved_sectors as u64;
        let spf = self.boot_sector.sectors_per_fat_32 as u64;
        let bps = self.boot_sector.bytes_per_sector as u64;
        assert(reserved * bps <= 0xffff * 0xffff) by (nonlinear_arith)
            requires reserved <= 0xffff, bps <= 0xffff;
        assert(spf * bps <= 0xffff_ffff * 0xffff) by (nonlinear_arith)
            requires spf <= 0xffff_ffff, bps <= 0xffff;
        let fat_start = reserved * bps;
        let fat_bytes = spf * bps;
        let count: u64 = if fat_bytes / 4 > 0x1_0000_0000 { 0x1_0000_0000 } else { fat_bytes / 4 };
        let ghost g = self.boot_sector;
        let mut i: u64 = FIRST_ALLOCATABLE;
        while i < count
            invariant
                FIRST_ALLOCATABLE <= i,
                i <= count || count < FIRST_ALLOCATABLE,
                count == fat_entry_count(g),
                count <= 0x1_0000_0000,
                fat_start == g.fat_offset(),
                fat_start <= 0xffff * 0xffff,
                g == self.boot_sector,
                len == n,
                n == self.data@.len(),
                free_cluster(self.data@, g) == free_cluster_from(self.data@, g, i as nat),
            decreases count - i,
        {
            let off = fat_start + 4 * i;
            if off > len || len - off < 4 {
                return Err(FsError::OutOfRange);
            }
            let entry = read_u32_le(self.data.as_slice(), off as usize);
            assert(i < fat_entry_count(g));
            if entry == 0 {
                return Ok(i as u32);
            }
            i = i + 1;
        }
        Err(FsError::OutOfSpace)
    }

    /// Marks the FAT entry of `c` as the end of a chain.
    fn claim_cluster(&mut self, c: u32)
        requires
            old(self).geometry().fat_offset() + 4 * c + 4 <= old(self).image().len(),
        ensures
            final(self).image() == claim(old(self).image(), old(self).geometry(), c),
            final(self).geometry() == old(self).geometry(),
            final(self).cwd() == old(self).cwd(),
    {
        let reserved = self.boot_sector.reserved_sectors as u64;
        let bps = self.boot_sector.bytes_per_sector as u64;
        assert(reserved * bps <= 0xffff * 0xffff) by (nonlinear_arith)
            requires reserved <= 0xffff, bps <= 0xffff;
        let off = reserved * bps + 4 * (c as u64);
        let len = self.data.len() as u64;
        assert(off + 4 <= len);
        let mark = u32_le_bytes(END_OF_CHAIN);
        write_bytes(&mut self.data, off as usize, mark.as_slice());
    }

    /// Claims the first free entry of the first FAT from index 3 on, marks it
    /// as the end of a chain and returns its index.  Fails with `OutOfSpace`
    /// when the FAT has no free entry and with `OutOfRange` when the image
    /// ends before one is found; then nothing changes.
    pub fn allocate_cluster(&mut self) -> (r: Result<u32, FsError>)
        ensures
            r == free_cluster(old(self).image(), old(self).geometry()),
            r matches Ok(c) ==> final(self).image() == claim(old(self).image(), old(self).geometry(), c),
            r is Err ==> final(self).image() == old(self).image(),
            final(self).geometry() == old(self).geometry(),
            final(self).cwd() == old(self).cwd(),
    {
        let found = self.find_free_cluster();
        if let Ok(c) = found {
            self.claim_cluster(c);
        }
        found
    }

    /// Writes an entry for the file `filename` (its 8.3 name field, the
    /// archive attribute, `cluster` and `size`) into the first free slot
    /// among the first 64 of the directory at `directory_cluster`.  Fails
    /// with `DirectoryFull` when none is free and with `OutOfRange` when the
    /// image ends first; then nothing changes.  Names already there are not
    /// looked at.
    pub fn write_dir_entry(&mut self, directory_cluster: u32, filename: &str, cluster: u32, size: u32) -> (r: Result<(), FsError>)
        ensures
            (r, final(self).image()) == write_entry_outcome(
                old(self).image(),
                old(self).geometry().offset_of(directory_cluster) as int,
                filename.spec_bytes(),
                cluster as nat,
                size as nat,
            ),
            final(self).geometry() == old(self).geometry(),
            final(self).cwd() == old(self).cwd(),
    {
        let dir_offset = self.offset_from_cluster(directory_cluster);
        let n: usize = self.data.len();
        let len = n as u64;
        let ghost o = dir_offset as int;
        if dir_offset > len {
            return Err(FsError::OutOfRange);
        }
        let mut k: usize = 0;
        while k < MAX_SLOTS
            invariant
                k <= MAX_SLOTS,
                len == n,
                n == self.data@.len(),
                dir_offset <= len,
                self.data@ == old(self).data@,
                self.boot_sector == old(self).boot_sector,
                self.current_cluster == old(self).current_cluster,
                o == dir_offset,
                dir_offset as nat == old(self).geometry().offset_of(directory_cluster),
                free_slot_from(self.data@, o, 0) == free_slot_from(self.data@, o, k as nat),
            decreases MAX_SLOTS - k,
        {
            let rel = 32 * (k as u64);
            if len - dir_offset < rel + 32 {
                return Err(FsError::OutOfRange);
            }
            let cursor = dir_offset + rel;
            let at = cursor as usize;
            let marker = self.data[at];
            if marker == END_MARKER || marker == DELETED_MARKER {
                let mut field = short_name(filename.as_bytes());
                field.push(ATTR_ARCHIVE);
                write_bytes(&mut self.data, at, field.as_slice());
                let high = u16_le_bytes((cluster / 65536) as u16);
                write_bytes(&mut self.data, at + 20, high.as_slice());
                let low = u16_le_bytes((cluster % 65536) as u16);
                write_bytes(&mut self.data, at + 26, low.as_slice());
                let sz = u32_le_bytes(size);
                write_bytes(&mut self.data, at + 28, sz.as_slice());
                return Ok(());
            }
            k = k + 1;
        }
        Err(FsError::DirectoryFull)
    }

    /// Creates the file `filename` with `content` in the directory at
    /// `cluster`: finds a free cluster, claims it, copies the content to it
    /// and writes the entry.  Fails, before any change, with what the search
    /// for a free cluster fails with, then with `FileTooLarge` when the
    /// content does not fit in one cluster; after the claim, with `OutOfRange`
    /// when the cluster lies past the end of the image or with what the entry
    /// writer fails with, and the cluster stays claimed.
    pub fn create_file_in(&mut self, cluster: u32, filename: &str, content: &[u8]) -> (r: Result<(), FsError>)
        ensures
            (r, final(self).image()) == create_outcome(
                old(self).image(),
                old(self).geometry(),
                cluster,
                filename.spec_bytes(),
                content@,
            ),
            final(self).geometry() == old(self).geometry(),
            final(self).cwd() == old(self).cwd(),
    {
        let free_cluster = match self.find_free_cluster() {
            Ok(c) => c,
            Err(e) => {
                return Err(e);
            },
        };
        let spc = self.boot_sector.sectors_per_cluster as u64;
        let bps = self.boot_sector.bytes_per_sector as u64;
        assert(spc * bps <= 0xff * 0xffff) by (nonlinear_arith)
            requires spc <= 0xff, bps <= 0xffff;
        let cluster_bytes = spc * bps;
        if content.len() as u64 > cluster_bytes {
            return Err(FsError::FileTooLarge);
        }
        self.claim_cluster(free_cluster);
        let data_offset = self.offset_from_cluster(free_cluster);
        let len = self.data.len() as u64;
        if data_offset > len || (content.len() as u64) > len - data_offset {
            return Err(FsError::OutOfRange);
        }
        write_bytes(&mut self.data, data_offset as usize, content);
        let size = content.len() as u32;
        self.write_dir_entry(cluster, filename, free_cluster, size)
    }

    /// Creates the file `filename` with `content` in the current directory,
    /// as `create_file_in` does.
    pub fn create_file(&mut self, filename: &str, content: &[u8]) -> (r: Result<(), FsError>)
        ensures
            (r, final(self).image()) == create_outcome(
                old(self).image(),
                old(self).geometry(),
                old(self).cwd(),
                filename.spec_bytes(),
                content@,
            ),
            final(self).geometry() == old(self).geometry(),
            final(self).cwd() == old(self).cwd(),
    {
        let cluster = self.current_cluster;
        self.create_file_in(cluster, filename, content)
    }

    /// Enters the directory `dirname` of the current directory; "." stays.
    /// On failure nothing changes.
    pub fn change_directory(&mut self, dirname: &str) -> (r: Result<(), FsError>)
        ensures
            final(self).image() == old(self).image(),
            final(self).geometry() == old(self).geometry(),
            is_dot(dirname@) ==> r is Ok && final(self).cwd() == old(self).cwd(),
            !is_dot(dirname@) ==> {
                let found = old(self).sub_directory(old(self).cwd(), dirname@);
                &&& (r is Ok <==> found is Some)
                &&& (found matches Some(c) ==> final(self).cwd() == c)
                &&& (found is None ==> final(self).cwd() == old(self).cwd())
                &&& (r matches Err(e) ==> old(self).sub_directory_outcome(
                    old(self).cwd(),
                    dirname@,
                    Err(e),
                ))
            },
    {
        if dirname.unicode_len() == 1 && dirname.get_char(0) == '.' {
            return Ok(());
        }
        match self.find_sub_directory(self.current_cluster, dirname) {
            Ok(c) => {
                self.current_cluster = c;
                Ok(())
            },
            Err(e) => Err(e),
        }
    }
}

/// Whether `e` describes the record at the offset that `o` holds.
pub open spec fn describes_at(e: DirectoryEntry, d: Seq<u8>, o: Option<int>) -> bool {
    o matches Some(off) && crate::dirent::describes(e, d, off)
}

} // verus!
