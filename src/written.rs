//! What a scan or a read finds after an entry or a file has been written.
use vstd::prelude::*;

use crate::bytes::{le16, le16_bytes, le32, le32_bytes, splice};
use crate::dirent::{
    directory_offsets, is_hidden_attr, is_listed_record, lemma_scan_split, listed_offsets,
    record_cluster, record_fits, record_is_directory, slot, ATTR_ARCHIVE, ATTR_DIRECTORY,
    DELETED_MARKER, END_MARKER, MAX_RECORDS, RECORD_SIZE,
};
use crate::error::FsError;
use crate::name::{
    base_part, display_name, drop_trailing_blanks, extension_part, is_blank, first_index, lower_byte,
    lower_bytes, padded_upper, short_name_field, skip_blanks, trim, upper_byte, DOT, SPACE,
};
use crate::boot::BootSector;
use crate::dirent::first_named;
use crate::name::{lower_code, name_matches};
use crate::volume::{
    claim, create_outcome, entry_written, fat_entry_count, free_cluster, free_cluster_from,
    free_slot_from, write_entry_outcome, Fat32Volume, MAX_SLOTS,
};

verus! {

/// A file name that an 8.3 name field holds without loss: printable ASCII
/// without spaces, one to eight bytes of name, and either no dot or one dot
/// followed by one to three bytes of extension.
pub open spec fn is_short_name(s: Seq<u8>) -> bool {
    let d = first_index(s, DOT, 0);
    &&& 1 <= d <= 8
    &&& d < s.len() ==> 2 <= s.len() - d <= 4 && first_index(s, DOT, d + 1) == s.len()
    &&& forall|i: int| 0 <= i < s.len() ==> SPACE < #[trigger] s[i] < 0x80
}

/// Whether the record at `s` of `d` shows the name `name` (in lower case) and
/// is a file of `size` bytes starting at `cluster`.
pub open spec fn shows_file(d: Seq<u8>, s: int, name: Seq<u8>, cluster: nat, size: nat) -> bool {
    &&& display_name(d.subrange(s, s + 11)) == lower_bytes(name)
    &&& !record_is_directory(d, s)
    &&& record_cluster(d, s) == cluster
    &&& le32(d, s + 28) == size
}

proof fn lemma_splice(d: Seq<u8>, o: int, b: Seq<u8>)
    requires
        0 <= o,
        o + b.len() <= d.len(),
    ensures
        splice(d, o, b).len() == d.len(),
        forall|i: int|
            0 <= i < d.len() ==> #[trigger] splice(d, o, b)[i] == if o <= i < o + b.len() {
                b[i - o]
            } else {
                d[i]
            },
{
}

/// The bytes of a freshly written entry record.
proof fn lemma_entry_written(d: Seq<u8>, s: int, field: Seq<u8>, c: nat, size: nat)
    requires
        record_fits(d, s),
        field.len() == 11,
        c < 0x1_0000_0000,
        size < 0x1_0000_0000,
    ensures
        ({
            let e = entry_written(d, s, field, c, size);
            &&& e.len() == d.len()
            &&& e.subrange(0, s) == d.subrange(0, s)
            &&& (forall|i: int| 0 <= i < d.len() && (i < s || s + RECORD_SIZE <= i) ==> #[trigger] e[i] == d[i])
            &&& e.subrange(s, s + 11) == field
            &&& e[s + 11] == ATTR_ARCHIVE
            &&& record_cluster(e, s) == c
            &&& le32(e, s + 28) == size
        }),
{
    let d1 = splice(d, s, field.push(ATTR_ARCHIVE));
    lemma_splice(d, s, field.push(ATTR_ARCHIVE));
    let d2 = splice(d1, s + 20, le16_bytes(c / 65536));
    lemma_splice(d1, s + 20, le16_bytes(c / 65536));
    let d3 = splice(d2, s + 26, le16_bytes(c % 65536));
    lemma_splice(d2, s + 26, le16_bytes(c % 65536));
    let e = splice(d3, s + 28, le32_bytes(size));
    lemma_splice(d3, s + 28, le32_bytes(size));
    assert(e.subrange(0, s) =~= d.subrange(0, s));
    assert(e.subrange(s, s + 11) =~= field);
    assert(e[s + 20] == d2[s + 20] && e[s + 21] == d2[s + 21]);
    assert(le16(e, s + 20) == c / 65536);
    assert(le16(e, s + 26) == c % 65536);
    assert(le16(e, s + 28) == size % 65536);
    assert(le16(e, s + 30) == size / 65536);
}

/// Where the entry writer's search for a free slot ends.
proof fn lemma_free_slot(d: Seq<u8>, o: int, k0: nat) -> (k: nat)
    requires
        0 <= o,
        free_slot_from(d, o, k0) is Ok,
    ensures
        k0 <= k < MAX_SLOTS,
        free_slot_from(d, o, k0) == Ok::<int, FsError>(slot(o, k as int)),
        record_fits(d, slot(o, k as int)),
        d[slot(o, k as int)] == END_MARKER || d[slot(o, k as int)] == DELETED_MARKER,
        forall|j: int|
            k0 <= j < k ==> record_fits(d, #[trigger] slot(o, j)) && d[slot(o, j)] != END_MARKER,
    decreases MAX_SLOTS - k0,
{
    if d[slot(o, k0 as int)] == END_MARKER || d[slot(o, k0 as int)] == DELETED_MARKER {
        k0
    } else {
        let k = lemma_free_slot(d, o, k0 + 1);
        assert forall|j: int| k0 <= j < k implies record_fits(d, #[trigger] slot(o, j))
            && d[slot(o, j)] != END_MARKER by {
            if j > k0 {
                assert(record_fits(d, slot(o, j)) && d[slot(o, j)] != END_MARKER);
            }
        }
        k
    }
}

/// Facts about where the first dot of a name is.
proof fn lemma_first_index(s: Seq<u8>, b: u8, i: int)
    requires
        0 <= i <= s.len(),
    ensures
        i <= first_index(s, b, i) <= s.len(),
        forall|j: int| i <= j < first_index(s, b, i) ==> s[j] != b,
        first_index(s, b, i) < s.len() ==> s[first_index(s, b, i)] == b,
    decreases s.len() - i,
{
    if i < s.len() && s[i] != b {
        lemma_first_index(s, b, i + 1);
    }
}

/// Trimming a space-padded, upper-cased part gives the upper-cased part.
proof fn lemma_trim_padded(part: Seq<u8>, w: nat)
    requires
        part.len() <= w,
        forall|i: int| 0 <= i < part.len() ==> SPACE < #[trigger] part[i] < 0x80,
    ensures
        trim(padded_upper(part, w)) == part.map_values(|b: u8| upper_byte(b)),
{
    let t = padded_upper(part, w);
    let n = part.len() as int;
    if n > 0 {
        assert(!is_blank(t[0]));
        assert(skip_blanks(t, 0) == 0);
        assert(!is_blank(t[n - 1]));
        lemma_drop_trailing(t, 0, w as int, n);
    } else {
        lemma_skip_all(t, 0);
    }
    assert(trim(t) =~= part.map_values(|b: u8| upper_byte(b)));
}

proof fn lemma_skip_all(t: Seq<u8>, i: int)
    requires
        0 <= i <= t.len(),
        forall|j: int| i <= j < t.len() ==> #[trigger] t[j] == SPACE,
    ensures
        skip_blanks(t, i) == t.len(),
    decreases t.len() - i,
{
    if i < t.len() {
        lemma_skip_all(t, i + 1);
    }
}

proof fn lemma_drop_trailing(t: Seq<u8>, lo: int, j: int, n: int)
    requires
        0 <= lo <= n <= j <= t.len(),
        forall|i: int| n <= i < j ==> #[trigger] t[i] == SPACE,
        n > lo ==> !is_blank(t[n - 1]),
    ensures
        drop_trailing_blanks(t, lo, j) == n,
    decreases j - n,
{
    if j > n {
        lemma_drop_trailing(t, lo, j - 1, n);
    }
}

/// The name field written for a valid 8.3 name is shown as that name in
/// lower case.
pub proof fn lemma_short_name_shown(name: Seq<u8>)
    requires
        is_short_name(name),
    ensures
        display_name(short_name_field(name)) == lower_bytes(name),
        short_name_field(name).len() == 11,
        short_name_field(name)[0] != END_MARKER,
        short_name_field(name)[0] != DELETED_MARKER,
{
    let d = first_index(name, DOT, 0);
    lemma_first_index(name, DOT, 0);
    let base = base_part(name);
    let ext = extension_part(name);
    let field = short_name_field(name);
    if d < name.len() {
        lemma_first_index(name, DOT, d + 1);
        assert(ext =~= name.subrange(d + 1, name.len() as int));
    } else {
        assert(ext =~= Seq::<u8>::empty());
    }
    assert forall|i: int| 0 <= i < base.len() implies SPACE < #[trigger] base[i] < 0x80 by {
        assert(base[i] == name[i]);
    }
    assert forall|i: int| 0 <= i < ext.len() implies SPACE < #[trigger] ext[i] < 0x80 by {
        assert(ext[i] == name[d + 1 + i]);
    }
    assert(field.subrange(0, 8) =~= padded_upper(base, 8));
    assert(field.subrange(8, 11) =~= padded_upper(ext, 3));
    lemma_trim_padded(base, 8);
    lemma_trim_padded(ext, 3);
    let ub = base.map_values(|b: u8| upper_byte(b));
    let ue = ext.map_values(|b: u8| upper_byte(b));
    if d < name.len() {
        assert(lower_bytes(ub + seq![DOT] + ue) =~= lower_bytes(name));
    } else {
        assert(base =~= name);
        assert(lower_bytes(ub) =~= lower_bytes(name));
    }
    assert(field[0] == upper_byte(name[0]));
}

/// Writing an entry for a valid 8.3 name and then scanning the directory
/// lists a record that shows the name (in lower case), is a file, and holds
/// the cluster and size that were written.
pub proof fn lemma_written_entry_is_listed(
    d: Seq<u8>,
    o: int,
    name: Seq<u8>,
    cluster: u32,
    size: u32,
    after: Seq<u8>,
)
    requires
        0 <= o,
        is_short_name(name),
        write_entry_outcome(d, o, name, cluster as nat, size as nat) == (Ok::<(), FsError>(()), after),
    ensures
        exists|i: int|
            0 <= i < directory_offsets(after, o).len() && shows_file(
                after,
                #[trigger] directory_offsets(after, o)[i],
                name,
                cluster as nat,
                size as nat,
            ),
{
    let k = lemma_free_slot(d, o, 0);
    let s = slot(o, k as int);
    let field = short_name_field(name);
    lemma_short_name_shown(name);
    lemma_entry_written(d, s, field, cluster as nat, size as nat);
    assert(after == entry_written(d, s, field, cluster as nat, size as nat));
    assert forall|j: int| 0 <= j < k implies record_fits(after, #[trigger] slot(o, j))
        && after[slot(o, j)] != END_MARKER by {
        assert(record_fits(d, slot(o, j)) && d[slot(o, j)] != END_MARKER);
        assert(slot(o, j) < s);
        assert(after.subrange(0, s)[slot(o, j)] == d.subrange(0, s)[slot(o, j)]);
    }
    lemma_scan_split(after, o, k, (MAX_RECORDS - k) as nat);
    assert(k + (MAX_RECORDS - k) as nat == MAX_RECORDS as nat);
    let head = listed_offsets(after, o, k);
    let rest = listed_offsets(after, s, (MAX_RECORDS - k) as nat);
    assert(after[s] == field[0]);
    assert(after.subrange(s, s + 11)[0] == after[s]);
    assert(ATTR_ARCHIVE & 0x08 == 0) by (bit_vector);
    assert(ATTR_ARCHIVE & ATTR_DIRECTORY == 0) by (bit_vector);
    assert(!is_hidden_attr(after[s + 11]));
    assert(is_listed_record(after, s));
    assert(rest[0] == s);
    let offs = directory_offsets(after, o);
    assert(offs == head + rest);
    assert(offs[head.len() as int] == s);
    assert(shows_file(after, offs[head.len() as int], name, cluster as nat, size as nat));
}

/// Where the allocator's search for a free FAT entry ends.
proof fn lemma_free_cluster(d: Seq<u8>, g: BootSector, i: nat)
    requires
        free_cluster_from(d, g, i) is Ok,
    ensures
        ({
            let c = free_cluster_from(d, g, i)->Ok_0;
            &&& i <= c < fat_entry_count(g)
            &&& g.fat_offset() + 4 * c + 4 <= d.len()
        }),
    decreases fat_entry_count(g) - i,
{
    if i < fat_entry_count(g) && g.fat_offset() + 4 * i + 4 <= d.len() && le32(d, (g.fat_offset() + 4 * i) as int) != 0 {
        lemma_free_cluster(d, g, i + 1);
    }
}

/// A scan of `m` records from `p` reads only the bytes of those records.
proof fn lemma_scan_same_bytes(d: Seq<u8>, e: Seq<u8>, p: int, m: nat)
    requires
        0 <= p,
        d.len() == e.len(),
        forall|i: int| p <= i < p + RECORD_SIZE * m && i < d.len() ==> #[trigger] d[i] == e[i],
    ensures
        listed_offsets(d, p, m) == listed_offsets(e, p, m),
        forall|x: int|
            #[trigger] listed_offsets(d, p, m).contains(x) ==> p <= x && x + RECORD_SIZE <= p
                + RECORD_SIZE * m,
    decreases m,
{
    if m > 0 && record_fits(d, p) {
        assert(d[p] == e[p]);
        assert(d[p + 11] == e[p + 11]);
        lemma_scan_same_bytes(d, e, p + RECORD_SIZE, (m - 1) as nat);
        let rest = listed_offsets(d, p + RECORD_SIZE, (m - 1) as nat);
        if is_listed_record(d, p) {
            assert forall|x: int| #[trigger] (seq![p] + rest).contains(x) implies p <= x && x
                + RECORD_SIZE <= p + RECORD_SIZE * m by {
                if x != p {
                    let j = choose|j: int| 0 <= j < (seq![p] + rest).len() && (seq![p] + rest)[j] == x;
                    assert(rest[j - 1] == x);
                    assert(rest.contains(x));
                }
            }
        }
    }
}

/// The first record named `q` depends only on the name bytes of the records looked at.
proof fn lemma_first_named_same(d: Seq<u8>, e: Seq<u8>, offs: Seq<int>, q: Seq<char>)
    requires
        forall|i: int|
            0 <= i < offs.len() ==> d.subrange(#[trigger] offs[i], offs[i] + 11) == e.subrange(
                offs[i],
                offs[i] + 11,
            ),
    ensures
        first_named(d, offs, q) == first_named(e, offs, q),
    decreases offs.len(),
{
    if offs.len() > 0 {
        assert(d.subrange(offs[0], offs[0] + 11) == e.subrange(offs[0], offs[0] + 11));
        assert forall|i: int| 0 <= i < offs.drop_first().len() implies d.subrange(
            #[trigger] offs.drop_first()[i],
            offs.drop_first()[i] + 11,
        ) == e.subrange(offs.drop_first()[i], offs.drop_first()[i] + 11) by {
            assert(offs.drop_first()[i] == offs[i + 1]);
        }
        lemma_first_named_same(d, e, offs.drop_first(), q);
    }
}

/// Looking for a name in two runs of records looks in the first run, then in the second.
proof fn lemma_first_named_append(d: Seq<u8>, a: Seq<int>, b: Seq<int>, q: Seq<char>)
    ensures
        first_named(d, a + b, q) == match first_named(d, a, q) {
            Some(x) => Some(x),
            None => first_named(d, b, q),
        },
    decreases a.len(),
{
    if a.len() == 0 {
        assert(a + b =~= b);
    } else {
        assert((a + b)[0] == a[0]);
        assert((a + b).drop_first() =~= a.drop_first() + b);
        lemma_first_named_append(d, a.drop_first(), b, q);
    }
}

/// Whether the `len` bytes of the cluster that the allocator would claim on
/// `d`, and its FAT entry, lie outside the records of the directory at `dir`
/// up to and including the free slot that the entry writer would fill.
pub open spec fn claim_is_clear_of_directory(d: Seq<u8>, g: BootSector, dir: u32, len: nat) -> bool {
    let o = g.offset_of(dir) as int;
    match free_cluster(d, g) {
        Ok(c) => match free_slot_from(d, o, 0) {
            Ok(s) => {
                let off = g.offset_of(c);
                let fat = g.fat_offset() + 4 * c;
                let end = s + RECORD_SIZE;
                &&& (off + len <= o || end <= off)
                &&& (fat + 4 <= o || end <= fat)
            },
            Err(_) => false,
        },
        Err(_) => true,
    }
}

/// The search for a free slot reads only the records up to the slot it finds.
proof fn lemma_free_slot_same(d: Seq<u8>, e: Seq<u8>, o: int, k: nat)
    requires
        0 <= o,
        d.len() == e.len(),
        free_slot_from(d, o, k) is Ok,
        forall|i: int| slot(o, k as int) <= i < free_slot_from(d, o, k)->Ok_0 + RECORD_SIZE ==> #[trigger] d[i] == e[i],
    ensures
        free_slot_from(e, o, k) == free_slot_from(d, o, k),
    decreases MAX_SLOTS - k,
{
    let found = lemma_free_slot(d, o, k);
    assert(d[slot(o, k as int)] == e[slot(o, k as int)]);
    if !(d[slot(o, k as int)] == END_MARKER || d[slot(o, k as int)] == DELETED_MARKER) {
        lemma_free_slot_same(d, e, o, k + 1);
    }
}

/// Creating a file under a valid 8.3 name that the directory does not list
/// yet and then reading that name from the same directory gives the content
/// back, when the claimed cluster and its FAT entry lie outside the
/// directory's records up to the slot that the new entry takes.
#[verifier::rlimit(100)]
pub proof fn lemma_created_file_reads_back(
    before: Fat32Volume,
    after: Fat32Volume,
    dir: u32,
    name: Seq<u8>,
    q: Seq<char>,
    content: Seq<u8>,
)
    requires
        create_outcome(before.image(), before.geometry(), dir, name, content) == (Ok::<
            (),
            FsError,
        >(()), after.image()),
        after.geometry() == before.geometry(),
        is_short_name(name),
        name.len() == q.len(),
        forall|i: int| 0 <= i < name.len() ==> name[i] as u32 == #[trigger] q[i] as u32,
        before.lookup(dir, q) is None,
        claim_is_clear_of_directory(before.image(), before.geometry(), dir, content.len()),
    ensures
        forall|r: Result<Vec<u8>, FsError>| #[trigger]
            after.file_outcome(dir, q, r) ==> (r matches Ok(v) && v@ == content),
{
    let d = before.image();
    let g = before.geometry();
    let o = g.offset_of(dir) as int;
    let len = content.len();
    let spc = g.sectors_per_cluster as int;
    let bps = g.bytes_per_sector as int;
    assert(spc * bps <= 0xff * 0xffff) by (nonlinear_arith)
        requires 0 <= spc <= 0xff, 0 <= bps <= 0xffff;
    assert(len < 0x1_0000_0000);
    lemma_free_cluster(d, g, 3);
    let c = free_cluster(d, g)->Ok_0;
    let fat = (g.fat_offset() + 4 * c) as int;
    let d1 = claim(d, g, c);
    lemma_splice(d, fat, le32_bytes(0x0FFF_FFFF));
    let off = g.offset_of(c) as int;
    let d2 = splice(d1, off, content);
    lemma_splice(d1, off, content);
    assert(write_entry_outcome(d2, o, name, c as nat, len) == (Ok::<(), FsError>(()), after.image()));
    // The free slot is found in `d2` where it is in `d`: the claim and the
    // content lie outside the records read up to it.
    let s0 = free_slot_from(d, o, 0)->Ok_0;
    lemma_free_slot(d, o, 0);
    let end = s0 + RECORD_SIZE;
    assert forall|i: int| o <= i < end && i < d.len() implies #[trigger] d2[i] == d[i] by {
        assert(d1[i] == d[i]);
    }
    assert forall|i: int| slot(o, 0) <= i < end implies #[trigger] d[i] == d2[i] by {}
    lemma_free_slot_same(d, d2, o, 0);
    let k = lemma_free_slot(d2, o, 0);
    let s = slot(o, k as int);
    assert(s == s0);
    let field = short_name_field(name);
    lemma_short_name_shown(name);
    lemma_entry_written(d2, s, field, c as nat, len);
    let e = after.image();
    assert(e == entry_written(d2, s, field, c as nat, len));
    assert forall|j: int| 0 <= j < k implies record_fits(d, #[trigger] slot(o, j)) && d[slot(o, j)]
        != END_MARKER by {
        assert(record_fits(d2, slot(o, j)) && d2[slot(o, j)] != END_MARKER);
        assert(d2[slot(o, j)] == d[slot(o, j)]);
    }
    lemma_scan_split(d, o, k, (MAX_RECORDS - k) as nat);
    assert(k + (MAX_RECORDS - k) as nat == MAX_RECORDS as nat);
    let head = listed_offsets(d, o, k);
    lemma_first_named_append(d, head, listed_offsets(d, s, (MAX_RECORDS - k) as nat), q);
    assert(first_named(d, head, q) is None);
    // Before the new slot, `e` and `d` agree on the directory's bytes.
    assert forall|i: int| o <= i < o + RECORD_SIZE * k && i < e.len() implies #[trigger] e[i] == d[i] by {
        assert(e.subrange(0, s)[i] == d2.subrange(0, s)[i]);
        assert(d2[i] == d[i]);
    }
    lemma_scan_same_bytes(e, d, o, k);
    assert forall|i: int| 0 <= i < head.len() implies e.subrange(#[trigger] head[i], head[i] + 11)
        == d.subrange(head[i], head[i] + 11) by {
        assert(listed_offsets(e, o, k).contains(head[i]));
        let x = head[i];
        assert forall|t: int| x <= t < x + 11 implies #[trigger] e[t] == d[t] by {}
        assert(e.subrange(x, x + 11) =~= d.subrange(x, x + 11));
    }
    lemma_first_named_same(e, d, head, q);
    // The new record comes right after them and answers to `q`.
    assert forall|j: int| 0 <= j < k implies record_fits(e, #[trigger] slot(o, j)) && e[slot(o, j)]
        != END_MARKER by {
        assert(record_fits(d2, slot(o, j)) && d2[slot(o, j)] != END_MARKER);
        assert(e.subrange(0, s)[slot(o, j)] == d2.subrange(0, s)[slot(o, j)]);
    }
    lemma_scan_split(e, o, k, (MAX_RECORDS - k) as nat);
    let rest = listed_offsets(e, s, (MAX_RECORDS - k) as nat);
    assert(e[s] == field[0]);
    assert(e.subrange(s, s + 11)[0] == e[s]);
    assert(ATTR_ARCHIVE & 0x08 == 0) by (bit_vector);
    assert(ATTR_ARCHIVE & ATTR_DIRECTORY == 0) by (bit_vector);
    assert(!is_hidden_attr(e[s + 11]));
    assert(is_listed_record(e, s));
    assert(rest[0] == s);
    let shown = display_name(e.subrange(s, s + 11));
    assert forall|i: int| 0 <= i < shown.len() implies shown[i] as u32 == lower_code(
        #[trigger] q[i] as u32,
    ) by {
        assert(shown[i] == lower_byte(name[i]));
        assert(name[i] as u32 == q[i] as u32);
    }
    assert(name_matches(e.subrange(s, s + 11), q));
    lemma_first_named_append(e, head, rest, q);
    assert(after.lookup(dir, q) == Some(s));
    // The record points at the copied content.
    assert(e.subrange(off, off + len) =~= content) by {
        assert forall|t: int| off <= t < off + len implies #[trigger] e[t] == d2[t] by {}
    }
    assert(g.offset_of(record_cluster(e, s) as u32) == off);
}

} // verus!
