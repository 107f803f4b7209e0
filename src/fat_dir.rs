//! Directory entries: parsing of 32-byte records, short-name checksum,
//! presentable names and FAT date/time stamps.
use crate::bytes::{le_u16, le_u32, read_u16_at, read_u32_at};
use crate::fat_struct::{FatDirectoryEntry, FatDirectoryEntryContainer, FatLongDirectoryEntry};
use crate::fat_helper::{
    copy_range, first_data_sector, file_cluster_count, lemma_same_volume, read_file_full, root_dir_sectors,
    spec_root_dir_sectors,
};
use crate::fat_struct::FatType;
use vstd::arithmetic::mul::lemma_mul_inequality;
use crate::text::{decode_utf16, latin1, latin1_string, utf16_string};
use crate::Fat;
use std::collections::HashMap;
use vstd::prelude::*;

verus! {

/// `e` holds the short entry stored at `off` in `b`.
pub open spec fn short_entry_at(e: FatDirectoryEntry, b: Seq<u8>, off: int) -> bool {
    &&& e.name@ == b.subrange(off, off + 11)
    &&& e.attribute == b[off + 11]
    &&& e.nt_reserved == b[off + 12]
    &&& e.created_time_tenth == b[off + 13]
    &&& e.created_time as int == le_u16(b, off + 14)
    &&& e.created_date as int == le_u16(b, off + 16)
    &&& e.last_accessed as int == le_u16(b, off + 18)
    &&& e.first_cluster_hi as int == le_u16(b, off + 20)
    &&& e.write_time as int == le_u16(b, off + 22)
    &&& e.write_date as int == le_u16(b, off + 24)
    &&& e.first_cluster_low as int == le_u16(b, off + 26)
    &&& e.size as int == le_u32(b, off + 28)
}

/// `n` consecutive 16-bit little-endian units stored from `off` in `b`.
pub open spec fn le_units(b: Seq<u8>, off: int, n: int) -> Seq<u16> {
    Seq::new(n as nat, |i: int| le_u16(b, off + 2 * i) as u16)
}

/// `l` holds the long-name entry stored at `off` in `b`.
pub open spec fn long_entry_at(l: FatLongDirectoryEntry, b: Seq<u8>, off: int) -> bool {
    &&& l.order == b[off]
    &&& l.name1@ == le_units(b, off + 1, 5)
    &&& l.attr == b[off + 11]
    &&& l.dir_type == b[off + 12]
    &&& l.checksum == b[off + 13]
    &&& l.name2@ == le_units(b, off + 14, 6)
    &&& l.first_cluster_low as int == le_u16(b, off + 26)
    &&& l.name3@ == le_units(b, off + 28, 2)
}

/// The first cluster of a short entry: high word above low word.
pub open spec fn entry_cluster(e: FatDirectoryEntry) -> u32 {
    (e.first_cluster_hi * 0x10000 + e.first_cluster_low) as u32
}

pub(crate) fn parse_short_at(b: &[u8], off: usize) -> (e: FatDirectoryEntry)
    requires
        off + 32 <= b@.len(),
    ensures
        short_entry_at(e, b@, off as int),
{
    let name: [u8; 11] = [
        b[off],
        b[off + 1],
        b[off + 2],
        b[off + 3],
        b[off + 4],
        b[off + 5],
        b[off + 6],
        b[off + 7],
        b[off + 8],
        b[off + 9],
        b[off + 10],
    ];
    assert(name@ =~= b@.subrange(off as int, off + 11));
    FatDirectoryEntry {
        name,
        attribute: b[off + 11],
        nt_reserved: b[off + 12],
        created_time_tenth: b[off + 13],
        created_time: read_u16_at(b, off + 14),
        created_date: read_u16_at(b, off + 16),
        last_accessed: read_u16_at(b, off + 18),
        first_cluster_hi: read_u16_at(b, off + 20),
        write_time: read_u16_at(b, off + 22),
        write_date: read_u16_at(b, off + 24),
        first_cluster_low: read_u16_at(b, off + 26),
        size: read_u32_at(b, off + 28),
    }
}

pub(crate) fn parse_long_at(b: &[u8], off: usize) -> (l: FatLongDirectoryEntry)
    requires
        off + 32 <= b@.len(),
    ensures
        long_entry_at(l, b@, off as int),
{
    let len = b.len();
    assert(off + 32 <= len);
    let (u1, u3, u5, u7, u9) = (
        read_u16_at(b, off + 1),
        read_u16_at(b, off + 3),
        read_u16_at(b, off + 5),
        read_u16_at(b, off + 7),
        read_u16_at(b, off + 9),
    );
    let name1: [u16; 5] = [u1, u3, u5, u7, u9];
    let (u14, u16_, u18, u20, u22, u24) = (
        read_u16_at(b, off + 14),
        read_u16_at(b, off + 16),
        read_u16_at(b, off + 18),
        read_u16_at(b, off + 20),
        read_u16_at(b, off + 22),
        read_u16_at(b, off + 24),
    );
    let name2: [u16; 6] = [u14, u16_, u18, u20, u22, u24];
    let (u28, u30) = (read_u16_at(b, off + 28), read_u16_at(b, off + 30));
    let name3: [u16; 2] = [u28, u30];
    assert(name1@ =~= le_units(b@, off + 1, 5));
    assert(name2@ =~= le_units(b@, off + 14, 6));
    assert(name3@ =~= le_units(b@, off + 28, 2));
    FatLongDirectoryEntry {
        order: b[off],
        name1,
        attr: b[off + 11],
        dir_type: b[off + 12],
        checksum: b[off + 13],
        name2,
        first_cluster_low: read_u16_at(b, off + 26),
        name3,
    }
}

impl FatDirectoryEntry {
    /// Reads a short entry from the first 32 bytes of `entry_bytes`.
    pub fn new(entry_bytes: &[u8]) -> (e: FatDirectoryEntry)
        requires
            entry_bytes@.len() >= 32,
        ensures
            short_entry_at(e, entry_bytes@, 0),
    {
        parse_short_at(entry_bytes, 0)
    }

    /// First cluster of the entry: `first_cluster_hi` above `first_cluster_low`.
    pub fn cluster_number(&self) -> (r: u32)
        ensures
            r == entry_cluster(*self),
    {
        (self.first_cluster_hi as u32) * 0x10000 + self.first_cluster_low as u32
    }
}

impl FatLongDirectoryEntry {
    /// Reads a long-name entry from the first 32 bytes of `entry_bytes`.
    pub fn new(entry_bytes: &[u8]) -> (l: FatLongDirectoryEntry)
        requires
            entry_bytes@.len() >= 32,
        ensures
            long_entry_at(l, entry_bytes@, 0),
    {
        parse_long_at(entry_bytes, 0)
    }
}

/// One step of the short-name checksum: rotate the sum right by one bit, then
/// add the byte, modulo 256.
pub open spec fn chksum_step(sum: u8, c: u8) -> u8 {
    (((sum % 2) * 128 + sum / 2 + c) % 256) as u8
}

/// Checksum of a short name, from 0 over each byte in order.
pub open spec fn chksum_spec(name: Seq<u8>) -> u8
    decreases name.len(),
{
    if name.len() == 0 {
        0
    } else {
        chksum_step(chksum_spec(name.drop_last()), name.last())
    }
}

/// The rotation of the checksum is a right rotation of the 8 bits by one.
pub proof fn lemma_chksum_rotation(sum: u8)
    ensures
        (sum % 2) * 128 + sum / 2 == ((sum >> 1u8) | (sum << 7u8)),
{
    assert((sum % 2) * 128 + sum / 2 == ((sum >> 1u8) | (sum << 7u8))) by (bit_vector);
}

/// Checksum of a short name, which binds long-name fragments to it.
pub fn chksum(name: &[u8]) -> (r: u8)
    ensures
        r == chksum_spec(name@),
{
    let mut sum: u8 = 0;
    let mut i: usize = 0;
    while i < name.len()
        invariant
            i <= name@.len(),
            sum == chksum_spec(name@.subrange(0, i as int)),
        decreases name@.len() - i,
    {
        let rot: u16 = (sum % 2) as u16 * 128 + (sum / 2) as u16;
        sum = ((rot + name[i] as u16) % 256) as u8;
        i = i + 1;
        assert(name@.subrange(0, i as int).drop_last() =~= name@.subrange(0, i - 1));
    }
    assert(name@.subrange(0, name@.len() as int) =~= name@);
    sum
}

/// `s` without its trailing 0x20 pad bytes.
pub open spec fn trim_pad(s: Seq<u8>) -> Seq<u8>
    decreases s.len(),
{
    if s.len() > 0 && s.last() == 0x20 {
        trim_pad(s.drop_last())
    } else {
        s
    }
}

/// The bytes of the presentable form of an 11-byte short name: the base
/// without pads, then, when the extension is not all pads, '.' and the
/// extension without pads. A first byte 0x05 stands for 0xE5.
pub open spec fn short_name_bytes(name: Seq<u8>) -> Seq<u8> {
    let n = if name[0] == 0x05 {
        name.update(0, 0xE5)
    } else {
        name
    };
    let base = trim_pad(n.subrange(0, 8));
    let ext = trim_pad(n.subrange(8, 11));
    if ext.len() == 0 {
        base
    } else {
        base + seq![0x2Eu8] + ext
    }
}

/// The 13 UTF-16 units of one long-name fragment.
pub open spec fn fragment_units(l: FatLongDirectoryEntry) -> Seq<u16> {
    l.name1@ + l.name2@ + l.name3@
}

/// Index of the last fragment of `ls` whose number (bits 0-5 of its order
/// byte) is `n`, if any.
pub open spec fn find_fragment(ls: Seq<FatLongDirectoryEntry>, n: int) -> Option<int>
    decreases ls.len(),
{
    if ls.len() == 0 {
        None
    } else if (ls.last().order & 0x3F) == n {
        Some(ls.len() - 1)
    } else {
        find_fragment(ls.drop_last(), n)
    }
}

/// The 13 units of slot `n` of a long name: those of the fragment numbered
/// `n`, or 13 zeros when no fragment has that number.
pub open spec fn slot_units(ls: Seq<FatLongDirectoryEntry>, n: int) -> Seq<u16> {
    match find_fragment(ls, n) {
        Some(i) => fragment_units(ls[i]),
        None => Seq::new(13, |k: int| 0u16),
    }
}

/// The units of slots 1 to `m`, in ascending fragment number.
pub open spec fn slots_upto(ls: Seq<FatLongDirectoryEntry>, m: int) -> Seq<u16>
    decreases m,
{
    if m <= 0 {
        Seq::empty()
    } else {
        slots_upto(ls, m - 1) + slot_units(ls, m)
    }
}

/// The units of a long name made of the fragments `ls`, whatever their order
/// in `ls`: 13 units per fragment, the fragment numbered 1 first, then 2, up to
/// `ls.len()`. A number with no fragment leaves its 13 units 0; a fragment
/// numbered outside `1..=ls.len()` is not used; of two fragments with the
/// same number the later one counts.
pub open spec fn long_units(ls: Seq<FatLongDirectoryEntry>) -> Seq<u16> {
    slots_upto(ls, ls.len() as int)
}

/// `u` up to (not including) its first 0 unit.
pub open spec fn until_nul(u: Seq<u16>) -> Seq<u16>
    decreases u.len(),
{
    if u.len() == 0 || u[0] == 0 {
        Seq::empty()
    } else {
        seq![u[0]] + until_nul(u.subrange(1, u.len() as int))
    }
}

/// The presentable name of an entry: from its long-name fragments when it has
/// any, else from its short name.
pub open spec fn presentable_name(short: FatDirectoryEntry, longs: Seq<FatLongDirectoryEntry>) -> Seq<char> {
    if longs.len() == 0 {
        latin1(short_name_bytes(short.name@))
    } else {
        decode_utf16(until_nul(long_units(longs)))
    }
}

proof fn lemma_trim_pad_prefix(s: Seq<u8>, e: int)
    requires
        0 <= e <= s.len(),
        forall|j: int| e <= j < s.len() ==> s[j] == 0x20,
    ensures
        trim_pad(s) == trim_pad(s.subrange(0, e)),
    decreases s.len() - e,
{
    if e < s.len() {
        assert(s.drop_last() =~= s.subrange(0, s.len() - 1));
        lemma_trim_pad_prefix(s.drop_last(), e);
        assert(s.drop_last().subrange(0, e) =~= s.subrange(0, e));
    } else {
        assert(s.subrange(0, e) =~= s);
    }
}

/// Length of `n[from..to]` once its trailing pads are dropped, with the proof
/// that dropping them is `trim_pad`.
fn pad_end(n: &Vec<u8>, from: usize, to: usize) -> (e: usize)
    requires
        from <= to <= n@.len(),
    ensures
        from <= e <= to,
        trim_pad(n@.subrange(from as int, to as int)) == n@.subrange(from as int, e as int),
{
    let mut e: usize = to;
    while e > from && n[e - 1] == 0x20
        invariant
            from <= e <= to <= n@.len(),
            trim_pad(n@.subrange(from as int, to as int)) == trim_pad(n@.subrange(from as int, e as int)),
        decreases e - from,
    {
        proof {
            let s = n@.subrange(from as int, e as int);
            assert(s.drop_last() =~= n@.subrange(from as int, e - 1));
        }
        e = e - 1;
    }
    proof {
        let s = n@.subrange(from as int, e as int);
        assert(s.len() == 0 || s.last() != 0x20);
    }
    e
}

fn short_name_string(name: &[u8; 11]) -> (r: String)
    ensures
        r@ == latin1(short_name_bytes(name@)),
{
    let mut n: Vec<u8> = Vec::new();
    let mut i: usize = 0;
    while i < 11
        invariant
            i <= 11,
            n@ =~= name@.subrange(0, i as int),
        decreases 11 - i,
    {
        n.push(name[i]);
        i = i + 1;
    }
    if n[0] == 0x05 {
        n.set(0, 0xE5);
    }
    let ghost fixed = n@;
    let be = pad_end(&n, 0, 8);
    let ee = pad_end(&n, 8, 11);
    let mut out: Vec<u8> = Vec::new();
    let mut k: usize = 0;
    while k < be
        invariant
            be <= 8,
            n@ == fixed,
            fixed.len() == 11,
            k <= be,
            out@ =~= fixed.subrange(0, k as int),
        decreases be - k,
    {
        out.push(n[k]);
        k = k + 1;
    }
    if ee > 8 {
        out.push(0x2E);
        let mut k: usize = 8;
        while k < ee
            invariant
                8 <= k <= ee <= 11,
                be <= 8,
                n@ == fixed,
                fixed.len() == 11,
                out@ =~= fixed.subrange(0, be as int) + seq![0x2Eu8] + fixed.subrange(8, k as int),
            decreases ee - k,
        {
            out.push(n[k]);
            k = k + 1;
        }
    }
    proof {
        let m = if name@[0] == 0x05 {
            name@.update(0, 0xE5)
        } else {
            name@
        };
        assert(m =~= fixed);
        if ee == 8 {
            assert(fixed.subrange(8, 8) =~= Seq::<u8>::empty());
        }
    }
    assert(out@ =~= short_name_bytes(name@));
    latin1_string(&out)
}

/// Unit `t` (below 13) of a fragment, as `fragment_units` states.
fn fragment_unit(l: &FatLongDirectoryEntry, t: usize) -> (r: u16)
    requires
        t < 13,
    ensures
        r == fragment_units(*l)[t as int],
{
    if t < 5 {
        l.name1[t]
    } else if t < 11 {
        l.name2[t - 5]
    } else {
        l.name3[t - 11]
    }
}

/// Index of the last fragment of `ls` numbered `n`, as `find_fragment` states.
fn fragment_numbered(ls: &Vec<FatLongDirectoryEntry>, n: usize) -> (r: Option<usize>)
    ensures
        match r {
            Some(i) => i < ls@.len() && find_fragment(ls@, n as int) == Some(i as int),
            None => find_fragment(ls@, n as int) is None,
        },
{
    let mut i: usize = ls.len();
    assert(ls@.subrange(0, ls@.len() as int) =~= ls@);
    while i > 0
        invariant
            i <= ls@.len(),
            find_fragment(ls@, n as int) == find_fragment(ls@.subrange(0, i as int), n as int),
        decreases i,
    {
        proof {
            let s = ls@.subrange(0, i as int);
            assert(s.drop_last() =~= ls@.subrange(0, i - 1));
            assert(s.last() == ls@[i - 1]);
        }
        if (ls[i - 1].order & 0x3F) as usize == n {
            return Some(i - 1);
        }
        i = i - 1;
    }
    None
}

/// The units of the long name made of `ls`, as `long_units` states.
fn collect_long_units(ls: &Vec<FatLongDirectoryEntry>) -> (u: Vec<u16>)
    ensures
        u@ == long_units(ls@),
{
    let mut u: Vec<u16> = Vec::new();
    let mut j: usize = 0;
    while j < ls.len()
        invariant
            j <= ls@.len(),
            u@ == slots_upto(ls@, j as int),
        decreases ls@.len() - j,
    {
        let n = j + 1;
        let ghost before = u@;
        let found = fragment_numbered(ls, n);
        let mut t: usize = 0;
        while t < 13
            invariant
                t <= 13,
                match found {
                    Some(i) => i < ls@.len() && find_fragment(ls@, n as int) == Some(i as int),
                    None => find_fragment(ls@, n as int) is None,
                },
                u@ =~= before + slot_units(ls@, n as int).subrange(0, t as int),
            decreases 13 - t,
        {
            let v = match found {
                Some(i) => fragment_unit(&ls[i], t),
                None => 0,
            };
            u.push(v);
            t = t + 1;
        }
        assert(slot_units(ls@, n as int).subrange(0, 13) =~= slot_units(ls@, n as int));
        j = n;
    }
    u
}

proof fn lemma_until_nul(u: Seq<u16>, k: int)
    requires
        0 <= k <= u.len(),
        forall|j: int| 0 <= j < k ==> u[j] != 0,
        k == u.len() || u[k] == 0,
    ensures
        until_nul(u) == u.subrange(0, k),
    decreases k,
{
    if k == 0 {
        assert(u.subrange(0, 0) =~= Seq::<u16>::empty());
    } else {
        let t = u.subrange(1, u.len() as int);
        lemma_until_nul(t, k - 1);
        assert(seq![u[0]] + t.subrange(0, k - 1) =~= u.subrange(0, k));
    }
}

impl FatDirectoryEntryContainer {
    /// Presentable name of an entry, as `presentable_name` states: the long
    /// name (fragments placed by their number, see `long_units`) up to its
    /// first 0 unit, decoded from UTF-16 with U+FFFD for each
    /// unpaired surrogate, or else the short name.
    pub fn parse_name(short_entry: &FatDirectoryEntry, long_entries: &Vec<FatLongDirectoryEntry>) -> (r: String)
        ensures
            r@ == presentable_name(*short_entry, long_entries@),
    {
        if long_entries.len() == 0 {
            short_name_string(&short_entry.name)
        } else {
            let units = collect_long_units(long_entries);
            let mut k: usize = 0;
            while k < units.len() && units[k] != 0
                invariant
                    k <= units@.len(),
                    forall|j: int| 0 <= j < k ==> units@[j] != 0,
                decreases units@.len() - k,
            {
                k = k + 1;
            }
            proof {
                lemma_until_nul(units@, k as int);
            }
            let mut name: Vec<u16> = Vec::new();
            let mut i: usize = 0;
            while i < k
                invariant
                    k <= units@.len(),
                    i <= k,
                    name@ =~= units@.subrange(0, i as int),
                decreases k - i,
            {
                name.push(units[i]);
                i = i + 1;
            }
            utf16_string(&name)
        }
    }
}

/// The record at `pos` is a long-name fragment: its attribute, without the
/// two top bits, is exactly read-only | hidden | system | volume-id.
pub open spec fn is_long_record(b: Seq<u8>, pos: int) -> bool {
    b[pos + 11] & 0x3F == 0x0F
}

/// The record at `pos` sets both the directory and the volume-id bits, which
/// no valid short entry does.
pub open spec fn is_malformed_record(b: Seq<u8>, pos: int) -> bool {
    b[pos + 11] & 0x18 == 0x18
}

/// The fragments at `pending` (in the order met) belong to a short name of
/// checksum `chk`: read backwards they are numbered 1, 2, ... in bits 0-5 of
/// their order byte, and each carries `chk`.
pub open spec fn longs_belong(b: Seq<u8>, pending: Seq<int>, chk: u8) -> bool {
    longs_belong_upto(b, pending, chk, pending.len() as int)
}

/// The first `n` fragments of `pending` pass the test of `longs_belong`.
pub open spec fn longs_belong_upto(b: Seq<u8>, pending: Seq<int>, chk: u8, n: int) -> bool {
    forall|i: int| 0 <= i < n ==> #[trigger] fragment_fits(b, pending, chk, i)
}

/// Fragment `i` of `pending` is numbered `pending.len() - i` and carries `chk`.
pub open spec fn fragment_fits(b: Seq<u8>, pending: Seq<int>, chk: u8, i: int) -> bool {
    (b[pending[i]] & 0x3F) == pending.len() - i && b[pending[i] + 13] == chk
}

/// The fragments kept for a short entry: all of them when they belong to it,
/// else none.
pub open spec fn accepted_longs(b: Seq<u8>, pending: Seq<int>, chk: u8) -> Seq<int> {
    if longs_belong(b, pending, chk) {
        pending
    } else {
        Seq::empty()
    }
}

/// The entries of a directory from byte `pos` on, each as the position of its
/// short record and the positions of the long-name fragments kept for it;
/// `pending` holds the fragments met since the last short entry. The scan goes
/// in steps of 32 bytes, ends at a record that starts with 0 or at the end of
/// the bytes, skips free records (0xE5) and malformed ones.
pub open spec fn dir_groups(b: Seq<u8>, pos: int, pending: Seq<int>) -> Seq<(int, Seq<int>)>
    decreases b.len() - pos,
{
    if pos < 0 || pos + 32 > b.len() || b[pos] == 0 {
        Seq::empty()
    } else if b[pos] == 0xE5 {
        dir_groups(b, pos + 32, pending)
    } else if is_long_record(b, pos) {
        dir_groups(b, pos + 32, pending.push(pos))
    } else if is_malformed_record(b, pos) {
        dir_groups(b, pos + 32, pending)
    } else {
        seq![(pos, accepted_longs(b, pending, chksum_spec(b.subrange(pos, pos + 11))))] + dir_groups(
            b,
            pos + 32,
            Seq::empty(),
        )
    }
}

/// Positions of the short entries of a directory from byte `pos` on, by a
/// plain scan of 32-byte records.
pub open spec fn short_records(b: Seq<u8>, pos: int) -> Seq<int>
    decreases b.len() - pos,
{
    if pos < 0 || pos + 32 > b.len() || b[pos] == 0 {
        Seq::empty()
    } else if b[pos] == 0xE5 || is_long_record(b, pos) || is_malformed_record(b, pos) {
        short_records(b, pos + 32)
    } else {
        seq![pos] + short_records(b, pos + 32)
    }
}

/// `c` is the container of group `g` of the directory bytes `b` on `fat`.
pub open spec fn container_from(fat: &Fat, b: Seq<u8>, g: (int, Seq<int>), c: FatDirectoryEntryContainer) -> bool {
    &&& short_entry_at(c.short_entry, b, g.0)
    &&& c.long_entries@.len() == g.1.len()
    &&& forall|j: int| 0 <= j < g.1.len() ==> long_entry_at(#[trigger] c.long_entries@[j], b, g.1[j])
    &&& c.cached_name@ == presentable_name(c.short_entry, c.long_entries@)
    &&& c.cached_cluster_count == fat.cluster_chain(entry_cluster(c.short_entry) as int).len()
}

/// `cs` are the containers decoded from the directory bytes `b`, from `start`.
pub open spec fn decoded_dir(fat: &Fat, b: Seq<u8>, start: int, cs: Seq<FatDirectoryEntryContainer>) -> bool {
    let gs = dir_groups(b, start, Seq::empty());
    &&& cs.len() == gs.len()
    &&& forall|i: int| 0 <= i < cs.len() ==> container_from(fat, b, gs[i], #[trigger] cs[i])
}

/// `m` after recording `inode` as the parent of each container of `cs`, in order.
pub open spec fn parents_after(m: Map<u32, u32>, cs: Seq<FatDirectoryEntryContainer>, inode: u32) -> Map<u32, u32>
    decreases cs.len(),
{
    if cs.len() == 0 {
        m
    } else {
        parents_after(m, cs.drop_last(), inode).insert(entry_cluster(cs.last().short_entry), inode)
    }
}

/// Decodes the directory bytes `sector` from offset `start` into its containers.
pub fn decode_directory(fat: &Fat, sector: &[u8], start: u16) -> (r: Vec<FatDirectoryEntryContainer>)
    requires
        fat.wf(),
    ensures
        decoded_dir(fat, sector@, start as int, r@),
{
    let n = sector.len();
    let mut entries: Vec<FatDirectoryEntryContainer> = Vec::new();
    let mut pending: Vec<FatLongDirectoryEntry> = Vec::new();
    let ghost mut offs: Seq<int> = Seq::empty();
    let ghost mut done: Seq<(int, Seq<int>)> = Seq::empty();
    let mut pos: usize = start as usize;
    while pos < n && n - pos >= 32 && sector[pos] != 0
        invariant
            fat.wf(),
            n == sector@.len(),
            done + dir_groups(sector@, pos as int, offs) == dir_groups(sector@, start as int, Seq::empty()),
            entries@.len() == done.len(),
            forall|i: int| 0 <= i < done.len() ==> container_from(fat, sector@, done[i], #[trigger] entries@[i]),
            pending@.len() == offs.len(),
            forall|i: int| 0 <= i < offs.len() ==> long_entry_at(#[trigger] pending@[i], sector@, offs[i]),
            forall|i: int| 0 <= i < offs.len() ==> 0 <= #[trigger] offs[i] && offs[i] + 32 <= n,
        decreases n - pos,
    {
        let attr = sector[pos + 11];
        if sector[pos] == 0xE5 {
        } else if attr & 0x3F == 0x0F {
            pending.push(parse_long_at(sector, pos));
            proof {
                offs = offs.push(pos as int);
            }
        } else if attr & 0x18 == 0x18 {
        } else {
            let short_entry = parse_short_at(sector, pos);
            let checksum = chksum(&short_entry.name);
            proof {
                assert(short_entry.name@ == sector@.subrange(pos as int, pos + 11));
            }
            let len = pending.len();
            let mut ok = true;
            let mut i: usize = 0;
            while i < len
                invariant
                    len == pending@.len(),
                    len == offs.len(),
                    i <= len,
                    forall|k: int| 0 <= k < offs.len() ==> long_entry_at(#[trigger] pending@[k], sector@, offs[k]),
                    ok == longs_belong_upto(sector@, offs, checksum, i as int),
                decreases len - i,
            {
                let l = &pending[i];
                let fits = (l.order & 0x3F) as usize == len - i && l.checksum == checksum;
                assert(fits == fragment_fits(sector@, offs, checksum, i as int));
                if !fits {
                    ok = false;
                }
                i = i + 1;
                assert(ok == longs_belong_upto(sector@, offs, checksum, i as int)) by {
                    if ok {
                        assert forall|k: int| 0 <= k < i implies #[trigger] fragment_fits(sector@, offs, checksum, k) by {
                            if k < i - 1 {
                                assert(longs_belong_upto(sector@, offs, checksum, i - 1));
                            }
                        }
                    } else if fits {
                        assert(!longs_belong_upto(sector@, offs, checksum, i - 1));
                    }
                }
            }
            let mut long_entries: Vec<FatLongDirectoryEntry> = Vec::new();
            if ok {
                long_entries = pending;
            }
            pending = Vec::new();
            let ghost kept = accepted_longs(sector@, offs, chksum_spec(sector@.subrange(pos as int, pos + 11)));
            proof {
                assert(ok == longs_belong(sector@, offs, checksum));
                offs = Seq::empty();
            }
            let cached_cluster_count = file_cluster_count(fat, short_entry.cluster_number());
            let cached_name = FatDirectoryEntryContainer::parse_name(&short_entry, &long_entries);
            entries.push(FatDirectoryEntryContainer { short_entry, long_entries, cached_name, cached_cluster_count });
            proof {
                done = done.push((pos as int, kept));
            }
        }
        proof {
            assert(done + dir_groups(sector@, pos + 32, offs) =~= dir_groups(sector@, start as int, Seq::empty()));
        }
        pos = pos + 32;
    }
    assert(done =~= dir_groups(sector@, start as int, Seq::empty()));
    entries
}

/// Each container of `cs` is recorded with `inode` as its parent.
pub proof fn lemma_parents_after(m: Map<u32, u32>, cs: Seq<FatDirectoryEntryContainer>, inode: u32)
    ensures
        forall|i: int|
            0 <= i < cs.len() ==> parents_after(m, cs, inode).contains_key(entry_cluster(#[trigger] cs[i].short_entry))
                && parents_after(m, cs, inode)[entry_cluster(cs[i].short_entry)] == inode,
    decreases cs.len(),
{
    if cs.len() > 0 {
        lemma_parents_after(m, cs.drop_last(), inode);
        assert forall|i: int| 0 <= i < cs.len() implies parents_after(m, cs, inode).contains_key(
            entry_cluster(#[trigger] cs[i].short_entry),
        ) && parents_after(m, cs, inode)[entry_cluster(cs[i].short_entry)] == inode by {
            if i < cs.len() - 1 {
                assert(cs.drop_last()[i] == cs[i]);
            }
        }
    }
}

/// Decodes the directory bytes `sector` from offset `start`, records the
/// directory as the parent of each of its children, and caches it under `inode`.
pub fn read_dir_chain(fat: &mut Fat, inode: u32, sector: &[u8], start: u16)
    requires
        old(fat).wf(),
    ensures
        final(fat).same_volume(old(fat)),
        final(fat).wf(),
        final(fat).dir_cache@.contains_key(inode),
        decoded_dir(final(fat), sector@, start as int, final(fat).dir_cache@[inode]@),
        final(fat).dir_cache@ == old(fat).dir_cache@.insert(inode, final(fat).dir_cache@[inode]),
        final(fat).inode_cache@ == parents_after(old(fat).inode_cache@, final(fat).dir_cache@[inode]@, inode),
        forall|i: int|
            0 <= i < final(fat).dir_cache@[inode]@.len() ==> final(fat).inode_cache@[entry_cluster(
                #[trigger] final(fat).dir_cache@[inode]@[i].short_entry,
            )] == inode,
{
    broadcast use vstd::std_specs::hash::group_hash_axioms;

    let entries = decode_directory(fat, sector, start);
    let ghost m0 = fat.inode_cache@;
    let mut i: usize = 0;
    while i < entries.len()
        invariant
            i <= entries@.len(),
            fat.same_volume(old(fat)),
            fat.dir_cache@ == old(fat).dir_cache@,
            m0 == old(fat).inode_cache@,
            fat.inode_cache@ == parents_after(m0, entries@.subrange(0, i as int), inode),
        decreases entries@.len() - i,
    {
        fat.inode_cache.insert(entries[i].short_entry.cluster_number(), inode);
        i = i + 1;
        assert(entries@.subrange(0, i as int).drop_last() =~= entries@.subrange(0, i - 1));
    }
    assert(entries@.subrange(0, entries@.len() as int) =~= entries@);
    let ghost es = entries@;
    fat.dir_cache.insert(inode, entries);
    proof {
        lemma_same_volume(fat, old(fat));
        lemma_parents_after(m0, es, inode);
        lemma_decoded_same_volume(old(fat), fat, sector@, start as int, es);
    }
}

proof fn lemma_decoded_same_volume(a: &Fat, b: &Fat, buf: Seq<u8>, start: int, cs: Seq<FatDirectoryEntryContainer>)
    requires
        a.same_volume(b),
        decoded_dir(a, buf, start, cs),
    ensures
        decoded_dir(b, buf, start, cs),
{
    lemma_same_volume(a, b);
    let gs = dir_groups(buf, start, Seq::empty());
    assert forall|k: int| 0 <= k < cs.len() implies container_from(b, buf, gs[k], #[trigger] cs[k]) by {
        assert(container_from(a, buf, gs[k], cs[k]));
    }
}

proof fn lemma_groups_follow_scan(b: Seq<u8>, pos: int, pending: Seq<int>)
    ensures
        dir_groups(b, pos, pending).len() == short_records(b, pos).len(),
        forall|i: int|
            0 <= i < short_records(b, pos).len() ==> (#[trigger] dir_groups(b, pos, pending)[i]).0 == short_records(
                b,
                pos,
            )[i],
    decreases b.len() - pos,
{
    if pos < 0 || pos + 32 > b.len() || b[pos] == 0 {
    } else if b[pos] == 0xE5 {
        lemma_groups_follow_scan(b, pos + 32, pending);
    } else if is_long_record(b, pos) {
        lemma_groups_follow_scan(b, pos + 32, pending.push(pos));
    } else if is_malformed_record(b, pos) {
        lemma_groups_follow_scan(b, pos + 32, pending);
    } else {
        lemma_groups_follow_scan(b, pos + 32, Seq::empty());
        let g = dir_groups(b, pos + 32, Seq::empty());
        let r = short_records(b, pos + 32);
        assert forall|i: int| 0 <= i < short_records(b, pos).len() implies (#[trigger] dir_groups(
            b,
            pos,
            pending,
        )[i]).0 == short_records(b, pos)[i] by {
            if i > 0 {
                assert(dir_groups(b, pos, pending)[i] == g[i - 1]);
                assert(short_records(b, pos)[i] == r[i - 1]);
            }
        }
    }
}

/// Decoding a directory keeps its short entries in on-disk order: the i-th
/// container holds the i-th short record that a plain scan of 32-byte records
/// finds, so its first cluster, size and attribute are read from that record,
/// and its name is the presentable name of that entry.
pub proof fn lemma_decode_matches_scan(fat: &Fat, b: Seq<u8>, start: int, cs: Seq<FatDirectoryEntryContainer>)
    requires
        decoded_dir(fat, b, start, cs),
    ensures
        cs.len() == short_records(b, start).len(),
        forall|i: int|
            0 <= i < cs.len() ==> {
                let p = #[trigger] short_records(b, start)[i];
                &&& short_entry_at(cs[i].short_entry, b, p)
                &&& entry_cluster(cs[i].short_entry) == (le_u16(b, p + 20) * 0x10000 + le_u16(b, p + 26)) as u32
                &&& cs[i].short_entry.size == le_u32(b, p + 28)
                &&& cs[i].short_entry.attribute == b[p + 11]
                &&& cs[i].cached_name@ == presentable_name(cs[i].short_entry, cs[i].long_entries@)
            },
{
    lemma_groups_follow_scan(b, start, Seq::empty());
    let gs = dir_groups(b, start, Seq::empty());
    assert forall|i: int| 0 <= i < cs.len() implies {
        let p = #[trigger] short_records(b, start)[i];
        &&& short_entry_at(cs[i].short_entry, b, p)
        &&& entry_cluster(cs[i].short_entry) == (le_u16(b, p + 20) * 0x10000 + le_u16(b, p + 26)) as u32
        &&& cs[i].short_entry.size == le_u32(b, p + 28)
        &&& cs[i].short_entry.attribute == b[p + 11]
        &&& cs[i].cached_name@ == presentable_name(cs[i].short_entry, cs[i].long_entries@)
    } by {
        assert(container_from(fat, b, gs[i], cs[i]));
        assert(gs[i].0 == short_records(b, start)[i]);
    }
}

/// Date stamp fields: (1980 + bits 9-15, bits 5-8, bits 0-4) as year, month, day.
pub open spec fn date_fields(date: u16) -> (u16, u8, u8) {
    ((date / 512 + 1980) as u16, ((date / 32) % 16) as u8, (date % 32) as u8)
}

/// Time stamp fields: (bits 11-15, bits 5-10, 2 × bits 0-4) as hour, minute, second.
pub open spec fn time_fields(time: u16) -> (u8, u8, u8) {
    ((time / 2048) as u8, ((time / 32) % 64) as u8, ((time % 32) * 2) as u8)
}

/// Splits a FAT date stamp into (year, month, day); a zero stamp gives month 0.
pub fn parse_date(date: u16) -> (r: (u16, u8, u8))
    ensures
        r == date_fields(date),
{
    let day = date % 32;
    let month = (date / 32) % 16;
    let year = date / 512 + 1980;
    (year, month as u8, day as u8)
}

/// Splits a FAT time stamp into (hour, minute, second).
pub fn parse_time(time: u16) -> (r: (u8, u8, u8))
    ensures
        r == time_fields(time),
{
    let second = (time % 32) * 2;
    let minute = (time / 32) % 64;
    let hour = time / 2048;
    (hour as u8, minute as u8, second as u8)
}

impl FatDirectoryEntryContainer {
    /// Attribute bits of the entry.
    pub fn attribute(&self) -> (r: u8)
        ensures
            r == self.short_entry.attribute,
    {
        self.short_entry.attribute
    }

    /// Size of the file in bytes.
    pub fn size(&self) -> (r: u32)
        ensures
            r == self.short_entry.size,
    {
        self.short_entry.size
    }

    /// First cluster, the entry's inode.
    pub fn cluster_number(&self) -> (r: u32)
        ensures
            r == entry_cluster(self.short_entry),
    {
        self.short_entry.cluster_number()
    }

    /// Clusters taken by the entry; 1 for the FAT12/16 root (cluster 0).
    pub fn cluster_count(&self, is_fat32: bool) -> (r: u32)
        ensures
            r == if entry_cluster(self.short_entry) == 0 && !is_fat32 {
                1
            } else {
                self.cached_cluster_count
            },
    {
        if self.cluster_number() == 0 && !is_fat32 {
            return 1;
        }
        self.cached_cluster_count
    }

    /// Presentable name of the entry.
    pub fn get_name(&self) -> (r: &String)
        ensures
            r@ == self.cached_name@,
    {
        &self.cached_name
    }

    /// Creation stamp as (year, month, day, hour, minute, second).
    pub fn get_creation_time(&self) -> (r: (u16, u8, u8, u8, u8, u16))
        ensures
            r.0 == date_fields(self.short_entry.created_date).0,
            r.1 == date_fields(self.short_entry.created_date).1,
            r.2 == date_fields(self.short_entry.created_date).2,
            r.3 == time_fields(self.short_entry.created_time).0,
            r.4 == time_fields(self.short_entry.created_time).1,
            r.5 == time_fields(self.short_entry.created_time).2,
    {
        let (year, month, day) = parse_date(self.short_entry.created_date);
        let (hour, minute, second) = parse_time(self.short_entry.created_time);
        (year, month, day, hour, minute, second as u16)
    }

    /// Last access date as (year, month, day).
    pub fn get_last_accessed_date(&self) -> (r: (u16, u8, u8))
        ensures
            r == date_fields(self.short_entry.last_accessed),
    {
        parse_date(self.short_entry.last_accessed)
    }

    /// Last write stamp as (year, month, day, hour, minute, second).
    pub fn get_write_time(&self) -> (r: (u16, u8, u8, u8, u8, u8))
        ensures
            r.0 == date_fields(self.short_entry.write_date).0,
            r.1 == date_fields(self.short_entry.write_date).1,
            r.2 == date_fields(self.short_entry.write_date).2,
            r.3 == time_fields(self.short_entry.write_time).0,
            r.4 == time_fields(self.short_entry.write_time).1,
            r.5 == time_fields(self.short_entry.write_time).2,
    {
        let (year, month, day) = parse_date(self.short_entry.write_date);
        let (hour, minute, second) = parse_time(self.short_entry.write_time);
        (year, month, day, hour, minute, second)
    }
}

/// Cluster number under which the root directory is known: 0 on FAT12/16,
/// the extension's root cluster on FAT32.
pub open spec fn root_cluster(fat: &Fat) -> u32 {
    if fat.fat_type == FatType::Fat32 {
        match fat.ebpb32 {
            Some(e) => e.root_cluster,
            None => 0,
        }
    } else {
        0
    }
}

/// Bytes of the root directory: on FAT12/16 the sectors between the last FAT
/// and the data region, on FAT32 the chain of its root cluster.
pub open spec fn root_dir_bytes(fat: &Fat) -> Seq<u8> {
    if fat.fat_type == FatType::Fat32 {
        fat.file_bytes(root_cluster(fat) as int)
    } else {
        fat.image@.subrange(
            (fat.first_data_sector() - spec_root_dir_sectors(fat.bpb)) * fat.bps(),
            fat.first_data_sector() * fat.bps(),
        )
    }
}

/// `new` is `old` with the directory of bytes `bytes` decoded and cached
/// under `inode`, and recorded as the parent of each of its children.
pub open spec fn dir_loaded(old: &Fat, new: &Fat, inode: u32, bytes: Seq<u8>) -> bool {
    &&& new.same_volume(old)
    &&& new.wf()
    &&& new.dir_cache@.contains_key(inode)
    &&& decoded_dir(new, bytes, 0, new.dir_cache@[inode]@)
    &&& new.dir_cache@ == old.dir_cache@.insert(inode, new.dir_cache@[inode])
    &&& new.inode_cache@ == parents_after(old.inode_cache@, new.dir_cache@[inode]@, inode)
}

/// Index of the first container of `cs`, from `i` on, whose first cluster is `k`.
pub open spec fn find_cluster(cs: Seq<FatDirectoryEntryContainer>, k: u32, i: int) -> Option<int>
    decreases cs.len() - i,
{
    if i < 0 || i >= cs.len() {
        None
    } else if entry_cluster(cs[i].short_entry) == k {
        Some(i)
    } else {
        find_cluster(cs, k, i + 1)
    }
}

/// The container of `inode`: the first child with that first cluster in the
/// cached directory recorded as its parent.
pub open spec fn inode_entry(fat: &Fat, inode: u32) -> Option<FatDirectoryEntryContainer> {
    if fat.inode_cache@.contains_key(inode) && fat.dir_cache@.contains_key(fat.inode_cache@[inode]) {
        let dir = fat.dir_cache@[fat.inode_cache@[inode]]@;
        match find_cluster(dir, inode, 0) {
            Some(i) => Some(dir[i]),
            None => None,
        }
    } else {
        None
    }
}

/// `inode` has been seen as a child that is a directory.
pub open spec fn known_dir(fat: &Fat, inode: u32) -> bool {
    match inode_entry(fat, inode) {
        Some(c) => c.short_entry.attribute & 0x10 != 0,
        None => false,
    }
}

/// `new` is `old` after a listing of `inode`: unchanged when the directory is
/// cached or has not been seen as a child directory, else with its chain
/// decoded and cached.
pub open spec fn listing(old: &Fat, new: &Fat, inode: u32) -> bool {
    if !old.dir_cache@.contains_key(inode) && known_dir(old, inode) {
        dir_loaded(old, new, inode, old.file_bytes(inode as int))
    } else {
        *new == *old
    }
}

/// Index of the first container of `dir` whose first cluster is `k`, as `find_cluster` states.
pub fn find_child(dir: &Vec<FatDirectoryEntryContainer>, k: u32) -> (r: Option<usize>)
    ensures
        match r {
            Some(i) => i < dir@.len() && find_cluster(dir@, k, 0) == Some(i as int),
            None => find_cluster(dir@, k, 0) is None,
        },
{
    let mut i: usize = 0;
    while i < dir.len()
        invariant
            i <= dir@.len(),
            find_cluster(dir@, k, 0) == find_cluster(dir@, k, i as int),
        decreases dir@.len() - i,
    {
        if dir[i].cluster_number() == k {
            return Some(i);
        }
        i = i + 1;
    }
    None
}

/// Reads the root directory and caches it under its cluster number.
pub fn read_root_dir(fat: &mut Fat)
    requires
        old(fat).wf(),
    ensures
        dir_loaded(old(fat), final(fat), root_cluster(old(fat)), root_dir_bytes(old(fat))),
{
    match fat.fat_type {
        FatType::Fat12 | FatType::Fat16 => {
            let fds = first_data_sector(fat);
            let rds = root_dir_sectors(fat);
            let bps = fat.bpb.bytes_per_sector as u64;
            let len = fat.image.len();
            proof {
                lemma_mul_inequality(fds as int, fat.total_sectors(), bps as int);
                lemma_mul_inequality((fds - rds) as int, fds as int, bps as int);
                assert(((fds - rds) as int) * bps >= 0) by (nonlinear_arith)
                    requires
                        fds - rds >= 0,
                        bps >= 0,
                ;
            }
            let root_dir = copy_range(&fat.image, ((fds - rds as u64) * bps) as usize, (fds * bps) as usize);
            read_dir_chain(fat, 0, root_dir.as_slice(), 0);
        },
        FatType::Fat32 => {
            let root_cluster = match &fat.ebpb32 {
                Some(e) => e.root_cluster,
                None => 0,
            };
            let root_dir = read_file_full(fat, root_cluster);
            read_dir_chain(fat, root_cluster, root_dir.as_slice(), 0);
        },
    }
}

/// The directory `inode`: the cached one, or, when `inode` has been seen as
/// a child directory, its chain decoded and cached; none otherwise.
pub fn get_dir(fat: &mut Fat, inode: u32) -> (r: Option<&Vec<FatDirectoryEntryContainer>>)
    requires
        old(fat).wf(),
    ensures
        final(fat).wf(),
        listing(old(fat), final(fat), inode),
        r == (if final(fat).dir_cache@.contains_key(inode) {
            Some(&final(fat).dir_cache@[inode])
        } else {
            None
        }),
{
    broadcast use vstd::std_specs::hash::group_hash_axioms;

    if !fat.dir_cache.contains_key(&inode) {
        let mut is_dir = false;
        match fat.inode_cache.get(&inode) {
            Some(parent) => match fat.dir_cache.get(parent) {
                Some(dir) => match find_child(dir, inode) {
                    Some(i) => {
                        is_dir = dir[i].attribute() & 0x10 != 0;
                    },
                    None => {},
                },
                None => {},
            },
            None => {},
        }
        if !is_dir {
            return None;
        }
        let dir_file = read_file_full(fat, inode);
        read_dir_chain(fat, inode, dir_file.as_slice(), 0);
    }
    fat.dir_cache.get(&inode)
}

} // verus!
