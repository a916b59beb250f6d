//! Directory entries: the 32-byte records that a directory is made of.
use vstd::prelude::*;

use crate::bytes::{le16, le32, read_u16_le, read_u32_le};
use crate::name::{display_name, format_name, matches_query, name_matches, shown_name};
use crate::text::{lowercase_of, utf8_lossy};

verus! {

/// Bytes in one directory record.
pub const RECORD_SIZE: usize = 32;

/// First name byte of a record that ends the directory.
pub const END_MARKER: u8 = 0x00;

/// First name byte of a deleted record.
pub const DELETED_MARKER: u8 = 0xE5;

/// Attribute value of a long-name fragment.
pub const ATTR_LONG_NAME: u8 = 0x0F;

/// Attribute bit of a volume label.
pub const ATTR_VOLUME_LABEL: u8 = 0x08;

/// Attribute bit of a directory.
pub const ATTR_DIRECTORY: u8 = 0x10;

/// Attribute of an ordinary file, as the writer sets it.
pub const ATTR_ARCHIVE: u8 = 0x20;

/// Records that one directory scan reads at most.
pub const MAX_RECORDS: usize = 128;

/// One directory record, as stored on disk.
#[derive(Debug, Clone, Copy, PartialEq, Eq)]
pub struct DirectoryEntry {
    /// Eight name bytes then three extension bytes, space padded.
    pub name: [u8; 11],
    pub attributes: u8,
    pub cluster_high: u16,
    pub cluster_low: u16,
    pub size: u32,
}

/// Whether `e` holds the fields of the record that starts at `o` in `d`.
pub open spec fn describes(e: DirectoryEntry, d: Seq<u8>, o: int) -> bool {
    &&& e.name@ == d.subrange(o, o + 11)
    &&& e.attributes == d[o + 11]
    &&& e.cluster_high as nat == le16(d, o + 20)
    &&& e.cluster_low as nat == le16(d, o + 26)
    &&& e.size as nat == le32(d, o + 28)
}

/// Whether a record with these attributes is left out of listings.
pub open spec fn is_hidden_attr(attr: u8) -> bool {
    attr == ATTR_LONG_NAME || attr & ATTR_VOLUME_LABEL != 0
}

/// Whether the record at `o` lies wholly inside `d`.
pub open spec fn record_fits(d: Seq<u8>, o: int) -> bool {
    0 <= o && o + RECORD_SIZE <= d.len()
}

/// Whether the record at `o` is a live entry that listings show.
pub open spec fn is_listed_record(d: Seq<u8>, o: int) -> bool {
    d[o] != DELETED_MARKER && !is_hidden_attr(d[o + 11])
}

/// The offsets of the records that a scan from `o`, reading at most `n`
/// records, lists: it stops at the end marker or at the end of `d`, and skips
/// deleted records, long-name fragments and volume labels.
pub open spec fn listed_offsets(d: Seq<u8>, o: int, n: nat) -> Seq<int>
    decreases n,
{
    if n == 0 || !record_fits(d, o) || d[o] == END_MARKER {
        Seq::empty()
    } else if !is_listed_record(d, o) {
        listed_offsets(d, o + RECORD_SIZE, (n - 1) as nat)
    } else {
        seq![o] + listed_offsets(d, o + RECORD_SIZE, (n - 1) as nat)
    }
}

/// The offsets that a directory starting at `o` lists.
pub open spec fn directory_offsets(d: Seq<u8>, o: int) -> Seq<int> {
    listed_offsets(d, o, MAX_RECORDS as nat)
}

/// Whether `r` holds, in order, the records of `d` at `offs`.
pub open spec fn lists(r: Seq<DirectoryEntry>, d: Seq<u8>, offs: Seq<int>) -> bool {
    &&& r.len() == offs.len()
    &&& forall|i: int| 0 <= i < r.len() ==> describes(#[trigger] r[i], d, offs[i])
}

/// The offset of the first record at `offs` whose name answers to `q`.
pub open spec fn first_named(d: Seq<u8>, offs: Seq<int>, q: Seq<char>) -> Option<int>
    decreases offs.len(),
{
    if offs.len() == 0 {
        None
    } else if name_matches(d.subrange(offs[0], offs[0] + 11), q) {
        Some(offs[0])
    } else {
        first_named(d, offs.drop_first(), q)
    }
}

pub open spec fn record_is_directory(d: Seq<u8>, o: int) -> bool {
    d[o + 11] & ATTR_DIRECTORY != 0
}

/// The first cluster that the record at `o` points to.
pub open spec fn record_cluster(d: Seq<u8>, o: int) -> nat {
    le16(d, o + 20) * 65536 + le16(d, o + 26)
}

/// Reads the entries of the directory whose first record is at `start`.
pub fn scan_records(d: &[u8], start: u64) -> (r: Vec<DirectoryEntry>)
    ensures
        lists(r@, d@, directory_offsets(d@, start as int)),
{
    let len = d.len() as u64;
    let mut r: Vec<DirectoryEntry> = Vec::new();
    let ghost mut offs: Seq<int> = Seq::empty();
    let mut cursor: u64 = start;
    let mut k: usize = 0;
    while k < MAX_RECORDS
        invariant
            k <= MAX_RECORDS,
            len == d@.len(),
            cursor == start + RECORD_SIZE * k,
            directory_offsets(d@, start as int) == offs + listed_offsets(
                d@,
                cursor as int,
                (MAX_RECORDS - k) as nat,
            ),
            lists(r@, d@, offs),
        ensures
            directory_offsets(d@, start as int) == offs,
            lists(r@, d@, offs),
        decreases MAX_RECORDS - k,
    {
        if len < 32 || cursor > len - 32 {
            assert(offs + Seq::<int>::empty() =~= offs);
            break;
        }
        let o = cursor as usize;
        let marker = d[o];
        if marker == END_MARKER {
            assert(offs + Seq::<int>::empty() =~= offs);
            break;
        }
        let attr = d[o + 11];
        if marker != DELETED_MARKER && !(attr == ATTR_LONG_NAME || attr & ATTR_VOLUME_LABEL != 0) {
            let e = DirectoryEntry::read_at(d, o);
            r.push(e);
            proof {
                let rest = listed_offsets(d@, o + RECORD_SIZE, (MAX_RECORDS - k - 1) as nat);
                assert(offs + (seq![o as int] + rest) =~= offs.push(o as int) + rest);
                offs = offs.push(o as int);
            }
        }
        cursor = cursor + 32;
        k = k + 1;
    }
    if k == MAX_RECORDS {
        assert(offs + Seq::<int>::empty() =~= offs);
    }
    r
}

/// The first entry of `entries` whose name answers to `q`.
pub(crate) fn find_named(entries: &Vec<DirectoryEntry>, q: &str, Ghost(d): Ghost<Seq<u8>>, Ghost(
    offs,
): Ghost<Seq<int>>) -> (r: Option<usize>)
    requires
        lists(entries@, d, offs),
    ensures
        first_named(d, offs, q@) is None <==> r is None,
        r matches Some(i) ==> i < entries@.len() && first_named(d, offs, q@) == Some(offs[i as int]),
{
    let mut i: usize = 0;
    assert(offs.subrange(0, offs.len() as int) =~= offs);
    while i < entries.len()
        invariant
            i <= entries@.len(),
            lists(entries@, d, offs),
            first_named(d, offs, q@) == first_named(d, offs.subrange(i as int, offs.len() as int), q@),
        decreases entries@.len() - i,
    {
        let ghost tail = offs.subrange(i as int, offs.len() as int);
        assert(describes(entries@[i as int], d, offs[i as int]));
        if matches_query(&entries[i].name, q) {
            return Some(i);
        }
        assert(tail.drop_first() =~= offs.subrange(i + 1, offs.len() as int));
        i = i + 1;
    }
    None
}

impl DirectoryEntry {
    pub open spec fn spec_is_directory(self) -> bool {
        self.attributes & ATTR_DIRECTORY != 0
    }

    pub open spec fn spec_start_cluster(self) -> nat {
        self.cluster_high as nat * 65536 + self.cluster_low as nat
    }

    /// Reads the record that starts at `o`.
    pub fn read_at(d: &[u8], o: usize) -> (r: DirectoryEntry)
        requires
            o + RECORD_SIZE <= d@.len(),
        ensures
            describes(r, d@, o as int),
    {
        let name: [u8; 11] = [
            d[o], d[o + 1], d[o + 2], d[o + 3], d[o + 4], d[o + 5], d[o + 6], d[o + 7],
            d[o + 8], d[o + 9], d[o + 10],
        ];
        assert(name@ =~= d@.subrange(o as int, o + 11));
        DirectoryEntry {
            name,
            attributes: d[o + 11],
            cluster_high: read_u16_le(d, o + 20),
            cluster_low: read_u16_le(d, o + 26),
            size: read_u32_le(d, o + 28),
        }
    }

    /// The entry's name as listings show it, in lower case.
    pub fn name(&self) -> (r: String)
        ensures
            r@ == lowercase_of(utf8_lossy(shown_name(self.name@))),
            (forall|i: int|
                0 <= i < display_name(self.name@).len() ==> #[trigger] display_name(self.name@)[i]
                    < 0x80) ==> r@.len() == display_name(self.name@).len() && forall|i: int|
                0 <= i < r@.len() ==> (#[trigger] r@[i]) as u32 == display_name(self.name@)[i] as u32,
    {
        format_name(&self.name)
    }

    /// Whether the record is a directory (attribute bit 0x10).
    pub fn is_directory(&self) -> (r: bool)
        ensures
            r == self.spec_is_directory(),
    {
        self.attributes & ATTR_DIRECTORY != 0
    }

    /// The first cluster of the entry's data: the high half, then the low half.
    pub fn start_cluster(&self) -> (r: u32)
        ensures
            r as nat == self.spec_start_cluster(),
    {
        (self.cluster_high as u32) * 65536 + (self.cluster_low as u32)
    }
}

/// Two results that both list the same records of the same bytes are equal:
/// scanning an unchanged directory twice gives the same sequence.
pub proof fn lemma_listing_is_determined(
    d: Seq<u8>,
    offs: Seq<int>,
    r1: Seq<DirectoryEntry>,
    r2: Seq<DirectoryEntry>,
)
    requires
        lists(r1, d, offs),
        lists(r2, d, offs),
    ensures
        r1 == r2,
{
    assert forall|i: int| 0 <= i < r1.len() implies r1[i] == r2[i] by {
        assert(describes(r1[i], d, offs[i]));
        assert(describes(r2[i], d, offs[i]));
        assert(r1[i].name@ =~= r2[i].name@);
        assert(r1[i].name == r2[i].name);
    }
    assert(r1 =~= r2);
}

/// A scan from `p` that meets, `m` records later, a record starting with the
/// end marker lists the same records of any two images that agree on the
/// records before it, and only records before it.
proof fn lemma_scan_stops_at_end(d1: Seq<u8>, d2: Seq<u8>, p: int, m: nat, n: nat)
    requires
        0 <= p,
        record_fits(d1, p + RECORD_SIZE * m),
        record_fits(d2, p + RECORD_SIZE * m),
        d1[p + RECORD_SIZE * m] == END_MARKER,
        d2[p + RECORD_SIZE * m] == END_MARKER,
        forall|i: int| p <= i < p + RECORD_SIZE * m ==> #[trigger] d1[i] == d2[i],
    ensures
        listed_offsets(d1, p, n) == listed_offsets(d2, p, n),
        forall|i: int|
            0 <= i < listed_offsets(d1, p, n).len() ==> #[trigger] listed_offsets(d1, p, n)[i]
                + RECORD_SIZE <= p + RECORD_SIZE * m,
    decreases n,
{
    let e = p + RECORD_SIZE * m;
    if n > 0 && m > 0 {
        assert(d1[p] == d2[p]);
        assert(d1[p + 11] == d2[p + 11]);
        assert(p + RECORD_SIZE + RECORD_SIZE * (m - 1) == e);
        lemma_scan_stops_at_end(d1, d2, p + RECORD_SIZE, (m - 1) as nat, (n - 1) as nat);
    }
}

/// A record whose first byte is the end marker ends the listing: whatever
/// follows it (in an image that agrees on the directory's records before
/// it) is not read.
pub proof fn lemma_end_marker_ends_listing(d1: Seq<u8>, d2: Seq<u8>, o: int, k: nat)
    requires
        0 <= o,
        record_fits(d1, o + RECORD_SIZE * k),
        record_fits(d2, o + RECORD_SIZE * k),
        d1[o + RECORD_SIZE * k] == END_MARKER,
        d2[o + RECORD_SIZE * k] == END_MARKER,
        forall|i: int| o <= i < o + RECORD_SIZE * k ==> #[trigger] d1[i] == d2[i],
    ensures
        directory_offsets(d1, o) == directory_offsets(d2, o),
        forall|i: int|
            0 <= i < directory_offsets(d1, o).len() ==> #[trigger] directory_offsets(d1, o)[i]
                + RECORD_SIZE <= o + RECORD_SIZE * k,
{
    lemma_scan_stops_at_end(d1, d2, o, k, MAX_RECORDS as nat);
}

/// The offset of the `j`-th record from `p`.
pub open spec fn slot(p: int, j: int) -> int {
    p + RECORD_SIZE * j
}

/// A scan of `m + n` records from `p` is the scan of the first `m` records
/// followed by the scan of `n` records from the `m`-th on, when none of the
/// first `m` records ends the scan.
pub proof fn lemma_scan_split(d: Seq<u8>, p: int, m: nat, n: nat)
    requires
        0 <= p,
        forall|j: int|
            0 <= j < m ==> record_fits(d, #[trigger] slot(p, j)) && d[slot(p, j)] != END_MARKER,
    ensures
        listed_offsets(d, p, m + n) == listed_offsets(d, p, m) + listed_offsets(d, slot(p, m as int), n),
    decreases m,
{
    if m == 0 {
        assert(listed_offsets(d, p, 0) + listed_offsets(d, p, n) =~= listed_offsets(d, p, n));
    } else {
        assert(record_fits(d, slot(p, 0)) && d[slot(p, 0)] != END_MARKER);
        assert forall|j: int| 0 <= j < m - 1 implies record_fits(d, #[trigger] slot(p + RECORD_SIZE, j))
            && d[slot(p + RECORD_SIZE, j)] != END_MARKER by {
            assert(slot(p + RECORD_SIZE, j) == slot(p, j + 1));
        }
        lemma_scan_split(d, p + RECORD_SIZE, (m - 1) as nat, n);
        assert(slot(p + RECORD_SIZE, m - 1) == slot(p, m as int));
        assert((m + n - 1) as nat == (m - 1) as nat + n);
        let rest = listed_offsets(d, slot(p, m as int), n);
        let head = listed_offsets(d, p + RECORD_SIZE, (m - 1) as nat);
        if is_listed_record(d, p) {
            assert(seq![p] + (head + rest) =~= (seq![p] + head) + rest);
        }
    }
}

/// A deleted record is left out of the listing without ending it: the
/// listing is that of the records before it followed by that of the records
/// after it.
pub proof fn lemma_deleted_record_is_skipped(d: Seq<u8>, o: int, k: nat)
    requires
        0 <= o,
        k < MAX_RECORDS,
        record_fits(d, o + RECORD_SIZE * k),
        d[o + RECORD_SIZE * k] == DELETED_MARKER,
        forall|j: int| 0 <= j < k ==> d[#[trigger] slot(o, j)] != END_MARKER,
    ensures
        directory_offsets(d, o) == listed_offsets(d, o, k) + listed_offsets(
            d,
            o + RECORD_SIZE * (k + 1),
            (MAX_RECORDS - k - 1) as nat,
        ),
{
    assert forall|j: int| 0 <= j < k implies record_fits(d, #[trigger] slot(o, j))
        && d[slot(o, j)] != END_MARKER by {
        assert(slot(o, j) + RECORD_SIZE <= o + RECORD_SIZE * k);
    }
    lemma_scan_split(d, o, k, (MAX_RECORDS - k) as nat);
    assert(k + (MAX_RECORDS - k) as nat == MAX_RECORDS as nat);
    assert(o + RECORD_SIZE * k + RECORD_SIZE == o + RECORD_SIZE * (k + 1));
}

} // verus!
