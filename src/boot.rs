//! The boot sector and the volume geometry it gives.
use vstd::prelude::*;

use crate::bytes::{le16, le32, read_u16_le, read_u32_le};
use crate::error::FsError;

verus! {

/// Size of the boot sector in bytes.
pub const BOOT_SECTOR_SIZE: usize = 512;

/// Bytes of the boot sector that the geometry is read from.
pub const BOOT_FIELDS_END: usize = 48;

/// The fields of a FAT32 boot sector up to the root directory cluster.
#[derive(Debug, Clone, Copy, PartialEq, Eq, Structural)]
pub struct BootSector {
    pub bytes_per_sector: u16,
    pub sectors_per_cluster: u8,
    pub reserved_sectors: u16,
    pub number_of_fats: u8,
    pub root_entries: u16,
    pub total_sectors_16: u16,
    pub media_descriptor: u8,
    pub sectors_per_fat_16: u16,
    pub sectors_per_track: u16,
    pub heads: u16,
    pub hidden_sectors: u32,
    pub total_sectors_32: u32,
    pub sectors_per_fat_32: u32,
    pub ext_flags: u16,
    pub fs_version: u16,
    pub root_dir_cluster: u32,
}

/// The boot sector that the first bytes of `d` describe.
pub open spec fn boot_sector_of(d: Seq<u8>) -> BootSector {
    BootSector {
        bytes_per_sector: le16(d, 11) as u16,
        sectors_per_cluster: d[13],
        reserved_sectors: le16(d, 14) as u16,
        number_of_fats: d[16],
        root_entries: le16(d, 17) as u16,
        total_sectors_16: le16(d, 19) as u16,
        media_descriptor: d[21],
        sectors_per_fat_16: le16(d, 22) as u16,
        sectors_per_track: le16(d, 24) as u16,
        heads: le16(d, 26) as u16,
        hidden_sectors: le32(d, 28) as u32,
        total_sectors_32: le32(d, 32) as u32,
        sectors_per_fat_32: le32(d, 36) as u32,
        ext_flags: le16(d, 40) as u16,
        fs_version: le16(d, 42) as u16,
        root_dir_cluster: le32(d, 44) as u32,
    }
}

/// Whether bytes 510 and 511 hold the boot signature 0x55, 0xAA.
pub open spec fn has_boot_signature(d: Seq<u8>) -> bool {
    d.len() >= 512 && d[510] == 0x55 && d[511] == 0xAA
}

impl BootSector {
    /// Whether the geometry can address data: sectors and clusters are not empty.
    pub open spec fn is_valid(self) -> bool {
        self.bytes_per_sector != 0 && self.sectors_per_cluster != 0
    }

    /// The first sector of the data region.
    pub open spec fn first_data_sector(self) -> nat {
        (self.reserved_sectors + self.number_of_fats * self.sectors_per_fat_32) as nat
    }

    /// The cluster actually addressed: 0 and 1 stand for cluster 2.
    pub open spec fn effective_cluster(cluster: u32) -> nat {
        if cluster < 2 { 2 } else { cluster as nat }
    }

    /// Byte offset of the first byte of `cluster`.
    pub open spec fn offset_of(self, cluster: u32) -> nat {
        ((self.first_data_sector() + (Self::effective_cluster(cluster) - 2)
            * self.sectors_per_cluster) * self.bytes_per_sector) as nat
    }

    /// Bytes in one cluster.
    pub open spec fn cluster_bytes(self) -> nat {
        (self.sectors_per_cluster * self.bytes_per_sector) as nat
    }

    /// Byte offset of the first File Allocation Table.
    pub open spec fn fat_offset(self) -> nat {
        (self.reserved_sectors * self.bytes_per_sector) as nat
    }

    /// Decodes the geometry fields at their fixed offsets.
    pub fn parse(d: &[u8]) -> (r: BootSector)
        requires
            d@.len() >= BOOT_FIELDS_END,
        ensures
            r == boot_sector_of(d@),
    {
        BootSector {
            bytes_per_sector: read_u16_le(d, 11),
            sectors_per_cluster: d[13],
            reserved_sectors: read_u16_le(d, 14),
            number_of_fats: d[16],
            root_entries: read_u16_le(d, 17),
            total_sectors_16: read_u16_le(d, 19),
            media_descriptor: d[21],
            sectors_per_fat_16: read_u16_le(d, 22),
            sectors_per_track: read_u16_le(d, 24),
            heads: read_u16_le(d, 26),
            hidden_sectors: read_u32_le(d, 28),
            total_sectors_32: read_u32_le(d, 32),
            sectors_per_fat_32: read_u32_le(d, 36),
            ext_flags: read_u16_le(d, 40),
            fs_version: read_u16_le(d, 42),
            root_dir_cluster: read_u32_le(d, 44),
        }
    }

    /// Byte offset of the first byte of `cluster`; clusters below 2 count as 2.
    pub fn offset_from_cluster(&self, cluster: u32) -> (r: u64)
        ensures
            r as nat == self.offset_of(cluster),
    {
        let reserved = self.reserved_sectors as u64;
        let fats = self.number_of_fats as u64;
        let spf = self.sectors_per_fat_32 as u64;
        let spc = self.sectors_per_cluster as u64;
        let bps = self.bytes_per_sector as u64;
        assert(fats * spf <= 0xff * 0xffff_ffff) by (nonlinear_arith)
            requires fats <= 0xff, spf <= 0xffff_ffff;
        let first_data_sector = reserved + fats * spf;
        let cluster_num: u32 = if cluster < 2 { 2 } else { cluster };
        let steps = (cluster_num - 2) as u64;
        assert(steps * spc <= 0xffff_ffff * 0xff) by (nonlinear_arith)
            requires steps <= 0xffff_ffff, spc <= 0xff;
        let total_sectors = first_data_sector + steps * spc;
        assert(total_sectors * bps <= 0x1_0000_0000_0000 * 0xffff) by (nonlinear_arith)
            requires total_sectors <= 0x1_0000_0000_0000, bps <= 0xffff;
        total_sectors * bps
    }
}

/// On a geometry with non-empty sectors and clusters, the offset of a data
/// cluster grows strictly with the cluster number.
pub proof fn lemma_offset_strictly_increasing(g: BootSector, a: u32, b: u32)
    requires
        g.is_valid(),
        2 <= a < b,
    ensures
        g.offset_of(a) < g.offset_of(b),
{
    let f = g.first_data_sector() as int;
    let spc = g.sectors_per_cluster as int;
    let bps = g.bytes_per_sector as int;
    let x = (a - 2) as int;
    let y = (b - 2) as int;
    assert((f + x * spc) * bps < (f + y * spc) * bps) by (nonlinear_arith)
        requires 0 <= x < y, spc >= 1, bps >= 1, f >= 0;
}

/// A FAT32 BIOS parameter block, read from a boot sector that carries the signature.
#[derive(Debug, Clone, Copy, PartialEq, Eq, Structural)]
pub struct BiosParameterBlock {
    pub bytes_per_sector: u16,
    pub sectors_per_cluster: u8,
    pub reserved_sectors: u16,
    pub num_fats: u8,
    pub root_entries: u16,
    pub total_sectors_16: u16,
    pub media: u8,
    pub fat_size_16: u16,
    pub sectors_per_track: u16,
    pub num_heads: u16,
    pub hidden_sectors: u32,
    pub total_sectors_32: u32,
    pub fat_size_32: u32,
    pub ext_flags: u16,
    pub fs_version: u16,
    pub root_cluster: u32,
    pub fs_info: u16,
    pub backup_boot_sector: u16,
}

/// The parameter block that the first bytes of `d` describe.
pub open spec fn parameter_block_of(d: Seq<u8>) -> BiosParameterBlock {
    let b = boot_sector_of(d);
    BiosParameterBlock {
        bytes_per_sector: b.bytes_per_sector,
        sectors_per_cluster: b.sectors_per_cluster,
        reserved_sectors: b.reserved_sectors,
        num_fats: b.number_of_fats,
        root_entries: b.root_entries,
        total_sectors_16: b.total_sectors_16,
        media: b.media_descriptor,
        fat_size_16: b.sectors_per_fat_16,
        sectors_per_track: b.sectors_per_track,
        num_heads: b.heads,
        hidden_sectors: b.hidden_sectors,
        total_sectors_32: b.total_sectors_32,
        fat_size_32: b.sectors_per_fat_32,
        ext_flags: b.ext_flags,
        fs_version: b.fs_version,
        root_cluster: b.root_dir_cluster,
        fs_info: le16(d, 48) as u16,
        backup_boot_sector: le16(d, 50) as u16,
    }
}

impl BiosParameterBlock {
    /// Reads the parameter block from the first sector of a volume.  Fails with
    /// `FormatError` when the sector is shorter than 512 bytes or lacks the
    /// boot signature.
    pub fn new(sector: &[u8]) -> (r: Result<BiosParameterBlock, FsError>)
        ensures
            has_boot_signature(sector@) ==> r == Ok::<BiosParameterBlock, FsError>(
                parameter_block_of(sector@),
            ),
            !has_boot_signature(sector@) ==> r == Err::<BiosParameterBlock, FsError>(
                FsError::FormatError,
            ),
    {
        if sector.len() < BOOT_SECTOR_SIZE || sector[510] != 0x55 || sector[511] != 0xAA {
            return Err(FsError::FormatError);
        }
        let b = BootSector::parse(sector);
        Ok(BiosParameterBlock {
            bytes_per_sector: b.bytes_per_sector,
            sectors_per_cluster: b.sectors_per_cluster,
            reserved_sectors: b.reserved_sectors,
            num_fats: b.number_of_fats,
            root_entries: b.root_entries,
            total_sectors_16: b.total_sectors_16,
            media: b.media_descriptor,
            fat_size_16: b.sectors_per_fat_16,
            sectors_per_track: b.sectors_per_track,
            num_heads: b.heads,
            hidden_sectors: b.hidden_sectors,
            total_sectors_32: b.total_sectors_32,
            fat_size_32: b.sectors_per_fat_32,
            ext_flags: b.ext_flags,
            fs_version: b.fs_version,
            root_cluster: b.root_dir_cluster,
            fs_info: read_u16_le(sector, 48),
            backup_boot_sector: read_u16_le(sector, 50),
        })
    }
}

} // verus!
