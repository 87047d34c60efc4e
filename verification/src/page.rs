//! A slotted data page holding user records, and the dictionary page that
//! names the current data page.
//!
//! Layout of a data page (all integers big-endian):
//! - byte 0: page type; bytes 1..3: slot count; bytes 3..5: free-space offset;
//! - from byte 5: the slot directory, 4 bytes per slot (record offset, record size);
//! - records grow down from the end of the page: name length (2 bytes),
//!   password length (2 bytes), name bytes, password bytes.
use vstd::prelude::*;
use vstd::string::*;
use vstd::utf8::*;
use crate::codec::{be16, put16, read_u16, write_u16, write_u8};

verus! {

broadcast use vstd::utf8::encode_utf8_decode_utf8, vstd::utf8::encode_utf8_valid_utf8;

pub const PAGE_SIZE: usize = 4096;

pub const HEADER_SIZE: usize = 5;

pub const SLOT_SIZE: usize = 4;

/// A stored user.
pub struct User {
    pub name: String,
    pub pass: String,
}

/// A fixed-size page of the database file.
pub struct Page {
    pub page_id: u64,
    pub data: [u8; 4096],
}

/// The decoded header of a data page.
pub struct PageHeader {
    pub page_type: u8,
    pub slot_count: u16,
    pub free_space_offset: u16,
}

/// The decoded dictionary page: the id of the data page that takes new inserts.
pub struct Dict {
    pub curr_page: u16,
}

/// Why a page operation did not succeed.
#[derive(PartialEq, Eq, Structural, Debug, Clone, Copy)]
pub enum DbError {
    /// The record does not fit in the page's free space.
    NoSpace,
    /// No record with the requested name was found.
    NotFound,
}

// ---------------- the layout, as spec functions over the page bytes ----------------

pub open spec fn slot_count(b: Seq<u8>) -> int {
    be16(b, 1)
}

pub open spec fn free_offset(b: Seq<u8>) -> int {
    be16(b, 3)
}

/// End of the slot directory.
pub open spec fn slot_dir_end(b: Seq<u8>) -> int {
    HEADER_SIZE + SLOT_SIZE * slot_count(b)
}

/// The header describes a slot directory and a free-space offset that fit in the page.
pub open spec fn header_sane(b: Seq<u8>) -> bool {
    &&& b.len() == PAGE_SIZE
    &&& slot_dir_end(b) <= free_offset(b) <= PAGE_SIZE
}

pub open spec fn slot_pos(n: int) -> int {
    HEADER_SIZE + SLOT_SIZE * n
}

pub open spec fn record_offset(b: Seq<u8>, n: int) -> int {
    be16(b, slot_pos(n))
}

pub open spec fn record_size(b: Seq<u8>, n: int) -> int {
    be16(b, slot_pos(n) + 2)
}

pub open spec fn name_len(b: Seq<u8>, n: int) -> int {
    be16(b, record_offset(b, n))
}

pub open spec fn pass_len(b: Seq<u8>, n: int) -> int {
    be16(b, record_offset(b, n) + 2)
}

/// The name bytes of the record in slot `n`.
pub open spec fn record_name(b: Seq<u8>, n: int) -> Seq<u8> {
    let off = record_offset(b, n);
    b.subrange(off + 4, off + 4 + name_len(b, n))
}

/// The password bytes of the record in slot `n`.
pub open spec fn record_pass(b: Seq<u8>, n: int) -> Seq<u8> {
    let off = record_offset(b, n);
    b.subrange(off + 4 + name_len(b, n), off + 4 + name_len(b, n) + pass_len(b, n))
}

/// Slot `n` and its record lie inside the page and hold UTF-8 text.
pub open spec fn slot_readable(b: Seq<u8>, n: int) -> bool {
    &&& b.len() == PAGE_SIZE
    &&& slot_pos(n) + SLOT_SIZE <= PAGE_SIZE
    &&& record_offset(b, n) + 4 + name_len(b, n) + pass_len(b, n) <= PAGE_SIZE
    &&& valid_utf8(record_name(b, n))
    &&& valid_utf8(record_pass(b, n))
}

/// Slot `n` is readable, its size field is that of its record, and the
/// record lies in the used area at the end of the page.
pub open spec fn slot_well_formed(b: Seq<u8>, n: int) -> bool {
    &&& slot_readable(b, n)
    &&& record_size(b, n) == 4 + name_len(b, n) + pass_len(b, n)
    &&& free_offset(b) <= record_offset(b, n)
}

/// A data page whose header is sane and whose every slot is well formed.
pub open spec fn page_well_formed(b: Seq<u8>) -> bool {
    &&& header_sane(b)
    &&& forall|n: int| 0 <= n < slot_count(b) ==> #[trigger] slot_well_formed(b, n)
}

/// The records of a page, in slot order, as (name bytes, password bytes).
pub open spec fn entries(b: Seq<u8>) -> Seq<(Seq<u8>, Seq<u8>)> {
    Seq::new(slot_count(b) as nat, |n: int| (record_name(b, n), record_pass(b, n)))
}

/// The first slot at or after `n` whose name is `name`.
pub open spec fn find_from(b: Seq<u8>, name: Seq<u8>, n: int) -> Option<int>
    decreases slot_count(b) - n,
{
    if n < 0 || n >= slot_count(b) {
        None
    } else if record_name(b, n) == name {
        Some(n)
    } else {
        find_from(b, name, n + 1)
    }
}

/// Every slot that a search for `name` from slot `n` visits is readable.
pub open spec fn scan_ok(b: Seq<u8>, name: Seq<u8>, n: int) -> bool
    decreases slot_count(b) - n,
{
    if n < 0 || n >= slot_count(b) {
        true
    } else {
        slot_readable(b, n) && (record_name(b, n) == name || scan_ok(b, name, n + 1))
    }
}

/// Storing a record of these lengths runs inside the page: the slot directory
/// ends before the free-space offset, and, when the record fits, that offset
/// lies inside the page, since the record is written just below it.
pub open spec fn insert_in_bounds(b: Seq<u8>, name_len: int, pass_len: int) -> bool {
    &&& b.len() == PAGE_SIZE
    &&& slot_dir_end(b) <= free_offset(b)
    &&& fits(b, name_len, pass_len) ==> free_offset(b) <= PAGE_SIZE
}

/// Size of the record of a user with these name and password lengths.
pub open spec fn tuple_size(name_len: int, pass_len: int) -> int {
    4 + name_len + pass_len
}

/// A record of these lengths and its slot fit in the page's free space.
pub open spec fn fits(b: Seq<u8>, name_len: int, pass_len: int) -> bool {
    tuple_size(name_len, pass_len) + SLOT_SIZE <= free_offset(b) - slot_dir_end(b)
}

pub open spec fn hi(v: int) -> u8 {
    (v / 256) as u8
}

pub open spec fn lo(v: int) -> u8 {
    (v % 256) as u8
}

/// Byte `i` of page `b` after storing a record (`name`, `pass`) in it: the
/// record is placed just below the free-space offset, a slot pointing to it is
/// appended to the directory, and the slot count and free-space offset are updated.
pub open spec fn inserted_byte(b: Seq<u8>, name: Seq<u8>, pass: Seq<u8>, i: int) -> u8 {
    let ts = tuple_size(name.len() as int, pass.len() as int);
    let rec = free_offset(b) - ts;
    let sde = slot_dir_end(b);
    if i == 1 {
        hi(slot_count(b) + 1)
    } else if i == 2 {
        lo(slot_count(b) + 1)
    } else if i == 3 {
        hi(rec)
    } else if i == 4 {
        lo(rec)
    } else if i == sde {
        hi(rec)
    } else if i == sde + 1 {
        lo(rec)
    } else if i == sde + 2 {
        hi(ts)
    } else if i == sde + 3 {
        lo(ts)
    } else if i == rec {
        hi(name.len() as int)
    } else if i == rec + 1 {
        lo(name.len() as int)
    } else if i == rec + 2 {
        hi(pass.len() as int)
    } else if i == rec + 3 {
        lo(pass.len() as int)
    } else if rec + 4 <= i < rec + 4 + name.len() {
        name[i - rec - 4]
    } else if rec + 4 + name.len() <= i < rec + ts {
        pass[i - rec - 4 - name.len()]
    } else {
        b[i]
    }
}

/// The page bytes after storing a record (`name`, `pass`).
pub open spec fn inserted(b: Seq<u8>, name: Seq<u8>, pass: Seq<u8>) -> Seq<u8> {
    Seq::new(b.len(), |i: int| inserted_byte(b, name, pass, i))
}

/// The bytes of a freshly initialised data page.
pub open spec fn empty_data_page_bytes() -> Seq<u8> {
    Seq::new(PAGE_SIZE as nat, |i: int| if i == 0 { 1u8 } else if i == 3 { 16u8 } else { 0u8 })
}

/// The bytes of a freshly initialised dictionary page (current page 1).
pub open spec fn initial_dict_bytes() -> Seq<u8> {
    Seq::new(PAGE_SIZE as nat, |i: int| if i == 1 { 1u8 } else { 0u8 })
}

// ---------------- operations ----------------

impl Page {
    pub fn new(pageid: u64, data: [u8; 4096]) -> (p: Page)
        ensures
            p.page_id == pageid,
            p.data == data,
    {
        Page { page_id: pageid, data: data }
    }

    /// Decodes the header fields of a data page.
    pub fn parse_header(&self) -> (h: PageHeader)
        ensures
            h.page_type == self.data@[0],
            h.slot_count as int == slot_count(self.data@),
            h.free_space_offset as int == free_offset(self.data@),
    {
        PageHeader {
            page_type: self.data[0],
            slot_count: read_u16(&self.data, 1),
            free_space_offset: read_u16(&self.data, 3),
        }
    }
}

impl Page {
    /// Stores `user` as a new record of this data page.
    ///
    /// Fails with `NoSpace`, leaving the page unchanged, when the record and
    /// its slot do not fit in the free space between the slot directory and
    /// the records.
    pub fn insert_user(&mut self, user: &User) -> (r: Result<(), DbError>)
        requires
            insert_in_bounds(
                old(self).data@,
                encode_utf8(user.name@).len() as int,
                encode_utf8(user.pass@).len() as int,
            ),
        ensures
            final(self).page_id == old(self).page_id,
            r is Ok <==> fits(
                old(self).data@,
                encode_utf8(user.name@).len() as int,
                encode_utf8(user.pass@).len() as int,
            ),
            r is Ok ==> final(self).data@ == inserted(
                old(self).data@,
                encode_utf8(user.name@),
                encode_utf8(user.pass@),
            ),
            r is Err ==> r == Err::<(), DbError>(DbError::NoSpace) && final(self).data@ == old(
                self,
            ).data@,
    {
        let header = self.parse_header();
        let name_bytes = user.name.as_str().as_bytes();
        let pass_bytes = user.pass.as_str().as_bytes();
        let nl = name_bytes.len();
        let pl = pass_bytes.len();
        let slot_directory_end = HEADER_SIZE + header.slot_count as usize * SLOT_SIZE;
        let free_space = header.free_space_offset as usize - slot_directory_end;
        if nl > free_space || pl > free_space || 4 + nl + pl + SLOT_SIZE > free_space {
            return Err(DbError::NoSpace);
        }
        let tuple_size = 4 + nl + pl;
        let new_record_offset = header.free_space_offset as usize - tuple_size;
        let ghost b0 = self.data@;
        let ghost pid = self.page_id;
        let ghost nb = name_bytes@;
        let ghost pb = pass_bytes@;

        // lengths
        write_u16(&mut self.data, new_record_offset, nl as u16);
        write_u16(&mut self.data, new_record_offset + 2, pl as u16);
        let ghost b1 = self.data@;
        // name
        let mut j: usize = 0;
        while j < nl
            invariant
                0 <= j <= nl,
                nl == nb.len(),
                name_bytes@ == nb,
                new_record_offset + 4 + nl <= PAGE_SIZE,
                self.data@.len() == PAGE_SIZE,
                self.page_id == pid,
                forall|i: int|
                    0 <= i < PAGE_SIZE ==> #[trigger] self.data@[i] == if new_record_offset + 4
                        <= i < new_record_offset + 4 + j {
                        nb[i - new_record_offset - 4]
                    } else {
                        b1[i]
                    },
            decreases nl - j,
        {
            self.data[new_record_offset + 4 + j] = name_bytes[j];
            j = j + 1;
        }
        let ghost b2 = self.data@;
        // password
        let mut k: usize = 0;
        while k < pl
            invariant
                0 <= k <= pl,
                pl == pb.len(),
                pass_bytes@ == pb,
                new_record_offset + 4 + nl + pl <= PAGE_SIZE,
                self.data@.len() == PAGE_SIZE,
                self.page_id == pid,
                forall|i: int|
                    0 <= i < PAGE_SIZE ==> #[trigger] self.data@[i] == if new_record_offset + 4
                        + nl <= i < new_record_offset + 4 + nl + k {
                        pb[i - new_record_offset - 4 - nl]
                    } else {
                        b2[i]
                    },
            decreases pl - k,
        {
            self.data[new_record_offset + 4 + nl + k] = pass_bytes[k];
            k = k + 1;
        }
        // slot
        let slot_offset = HEADER_SIZE + header.slot_count as usize * SLOT_SIZE;
        write_u16(&mut self.data, slot_offset, new_record_offset as u16);
        write_u16(&mut self.data, slot_offset + 2, tuple_size as u16);
        // header
        write_u8(&mut self.data, 0, header.page_type);
        write_u16(&mut self.data, 1, header.slot_count + 1);
        write_u16(&mut self.data, 3, new_record_offset as u16);
        assert(self.data@ =~= inserted(b0, nb, pb));
        Ok(())
    }
}

/// `String::from_utf8`: the bytes become a string exactly when they are valid
/// UTF-8, and the string's characters are then their UTF-8 decoding.
#[verifier::external_body]
fn string_from_utf8(bytes: Vec<u8>) -> (r: Option<String>)
    ensures
        r is Some <==> valid_utf8(bytes@),
        r matches Some(s) ==> s@ == decode_utf8(bytes@),
{
    String::from_utf8(bytes).ok()
}

/// The `len` bytes of `buf` from `start` equal `other`.
fn bytes_equal(buf: &[u8], start: usize, len: usize, other: &[u8]) -> (r: bool)
    requires
        start + len <= buf@.len(),
    ensures
        r == (buf@.subrange(start as int, start + len) == other@),
{
    let blen = buf.len();
    if len != other.len() {
        assert(buf@.subrange(start as int, start + len).len() != other@.len());
        return false;
    }
    let mut i: usize = 0;
    while i < len
        invariant
            0 <= i <= len,
            len == other@.len(),
            start + len <= buf@.len(),
            blen == buf@.len(),
            forall|j: int| 0 <= j < i ==> buf@[start + j] == other@[j],
        decreases len - i,
    {
        if buf[start + i] != other[i] {
            assert(buf@.subrange(start as int, start + len)[i as int] != other@[i as int]);
            return false;
        }
        i = i + 1;
    }
    assert(buf@.subrange(start as int, start + len) =~= other@);
    true
}

/// A copy of the `len` bytes of `buf` from `start`.
fn copy_range(buf: &[u8], start: usize, len: usize) -> (v: Vec<u8>)
    requires
        start + len <= buf@.len(),
    ensures
        v@ == buf@.subrange(start as int, start + len),
{
    let blen = buf.len();
    let mut v: Vec<u8> = Vec::new();
    let mut i: usize = 0;
    while i < len
        invariant
            0 <= i <= len,
            start + len <= buf@.len(),
            blen == buf@.len(),
            v@ == buf@.subrange(start as int, start + i),
        decreases len - i,
    {
        v.push(buf[start + i]);
        i = i + 1;
        assert(v@ =~= buf@.subrange(start as int, start + i));
    }
    v
}

impl Page {
    /// Looks a user up by name among the slots from slot 1 on, in slot order.
    ///
    /// Returns the first matching user, or `NotFound`. The page is not changed.
    pub fn read_user_by_name(&mut self, name: &str) -> (r: Result<User, DbError>)
        requires
            scan_ok(old(self).data@, encode_utf8(name@), 1),
        ensures
            *final(self) == *old(self),
            match find_from(old(self).data@, encode_utf8(name@), 1) {
                Some(n) => r matches Ok(u) && u.name@ == name@ && u.pass@ == decode_utf8(
                    record_pass(old(self).data@, n),
                ),
                None => r == Err::<User, DbError>(DbError::NotFound),
            },
    {
        let ghost b = self.data@;
        let ghost nb = encode_utf8(name@);
        let header = self.parse_header();
        let solts = header.slot_count;
        let name_bytes = name.as_bytes();
        let mut n: u16 = 1;
        while n < solts
            invariant
                1 <= n,
                b == self.data@,
                nb == name_bytes@,
                nb == encode_utf8(name@),
                solts as int == slot_count(b),
                scan_ok(b, nb, n as int),
                find_from(b, nb, 1) == find_from(b, nb, n as int),
            decreases solts - n,
        {
            let soltadd = HEADER_SIZE + (n as usize * SLOT_SIZE);
            let tuple_offset = read_u16(&self.data, soltadd) as usize;
            let _tuple_size = read_u16(&self.data, soltadd + 2);
            let namelen = read_u16(&self.data, tuple_offset) as usize;
            let passlen = read_u16(&self.data, tuple_offset + 2) as usize;
            if bytes_equal(&self.data, tuple_offset + 4, namelen, name_bytes) {
                let name_vec = copy_range(&self.data, tuple_offset + 4, namelen);
                let pass_vec = copy_range(&self.data, tuple_offset + 4 + namelen, passlen);
                assert(decode_utf8(encode_utf8(name@)) == name@);
                let name_str = string_from_utf8(name_vec);
                let pass_str = string_from_utf8(pass_vec);
                match name_str {
                    Some(name_str) => match pass_str {
                        Some(pass_str) => {
                            assert(find_from(b, nb, n as int) == Some(n as int));
                            return Ok(User { name: name_str, pass: pass_str });
                        },
                        None => {
                            return Err(DbError::NotFound);
                        },
                    },
                    None => {
                        return Err(DbError::NotFound);
                    },
                }
            }
            n = n + 1;
        }
        Err(DbError::NotFound)
    }
}

impl Page {
    /// Whether storing `user` in this page runs inside the page, which
    /// `insert_user` needs.
    pub fn insert_is_safe(&self, user: &User) -> (r: bool)
        ensures
            r == insert_in_bounds(
                self.data@,
                encode_utf8(user.name@).len() as int,
                encode_utf8(user.pass@).len() as int,
            ),
    {
        let h = self.parse_header();
        let sde = HEADER_SIZE + h.slot_count as usize * SLOT_SIZE;
        let free = h.free_space_offset as usize;
        if sde > free {
            return false;
        }
        let nl = user.name.as_str().as_bytes().len();
        let pl = user.pass.as_str().as_bytes().len();
        let free_space = free - sde;
        let fit = nl <= free_space && pl <= free_space && 4 + nl + pl + SLOT_SIZE <= free_space;
        !fit || free <= PAGE_SIZE
    }

    /// Whether every slot that a lookup of `name` from slot 1 visits lies inside
    /// the page and holds UTF-8 text, which the lookup needs.
    pub fn scan_is_safe(&self, name: &str) -> (r: bool)
        ensures
            r == scan_ok(self.data@, encode_utf8(name@), 1),
    {
        let ghost b = self.data@;
        let ghost nb = encode_utf8(name@);
        let count = read_u16(&self.data, 1);
        let name_bytes = name.as_bytes();
        let mut n: u16 = count;
        let mut ok = true;
        // walk backwards, so that `ok` is `scan_ok` from slot `n`
        while n > 1
            invariant
                0 <= n <= count,
                count >= 1 ==> n >= 1,
                count as int == slot_count(b),
                b == self.data@,
                nb == name_bytes@,
                b.len() == PAGE_SIZE,
                ok == scan_ok(b, nb, n as int),
            decreases n,
        {
            let m = n - 1;
            let pos = HEADER_SIZE + m as usize * SLOT_SIZE;
            let readable = if pos + SLOT_SIZE <= PAGE_SIZE {
                let off = read_u16(&self.data, pos) as usize;
                if off + 4 <= PAGE_SIZE {
                    let nl = read_u16(&self.data, off) as usize;
                    let pl = read_u16(&self.data, off + 2) as usize;
                    if off + 4 + nl + pl <= PAGE_SIZE {
                        let nv = copy_range(&self.data, off + 4, nl);
                        let pv = copy_range(&self.data, off + 4 + nl, pl);
                        let ok_name = is_utf8(&nv);
                        let ok_pass = is_utf8(&pv);
                        ok_name && ok_pass
                    } else {
                        false
                    }
                } else {
                    false
                }
            } else {
                false
            };
            assert(readable == slot_readable(b, m as int));
            let same = if readable {
                let off = read_u16(&self.data, pos) as usize;
                let nl = read_u16(&self.data, off) as usize;
                bytes_equal(&self.data, off + 4, nl, name_bytes)
            } else {
                false
            };
            ok = readable && (same || ok);
            n = m;
        }
        if count == 0 {
            true
        } else {
            ok
        }
    }
}

/// `std::str::from_utf8(..).is_ok()`: whether the bytes are valid UTF-8.
#[verifier::external_body]
fn is_utf8(bytes: &Vec<u8>) -> (r: bool)
    ensures
        r == valid_utf8(bytes@),
{
    std::str::from_utf8(bytes.as_slice()).is_ok()
}

/// Decodes the dictionary page.
pub fn parse_dict(buffer: &[u8; 4096]) -> (d: Dict)
    ensures
        d.curr_page as int == be16(buffer@, 0),
{
    Dict { curr_page: read_u16(buffer, 0) }
}

/// The dictionary page of a new database: page 0, naming data page 1.
pub fn init_dict_page() -> (p: Page)
    ensures
        p.page_id == 0,
        p.data@ == initial_dict_bytes(),
        be16(p.data@, 0) == 1,
{
    let mut data = [0u8; 4096];
    write_u16(&mut data, 0, 1);
    assert(data@ =~= initial_dict_bytes());
    Page { page_id: 0, data }
}

/// An empty data page with the given id: type 1, no slots, free space up to the end.
pub fn init_data_page(page_id: &u64) -> (p: Page)
    ensures
        p.page_id == *page_id,
        p.data@ == empty_data_page_bytes(),
        p.data@[0] == 1,
        slot_count(p.data@) == 0,
        free_offset(p.data@) == PAGE_SIZE,
        page_well_formed(p.data@),
        entries(p.data@) == Seq::<(Seq<u8>, Seq<u8>)>::empty(),
{
    let mut data = [0u8; 4096];
    write_u8(&mut data, 0, 1);
    write_u16(&mut data, 1, 0);
    write_u16(&mut data, 3, 4096);
    assert(data@ =~= empty_data_page_bytes());
    let p = Page { page_id: *page_id, data };
    assert(entries(p.data@) =~= Seq::<(Seq<u8>, Seq<u8>)>::empty());
    p
}

} // verus!

verus! {

// ---------------- laws of the page layout ----------------

proof fn lemma_hi_lo(v: int)
    requires
        0 <= v < 0x10000,
    ensures
        hi(v) as int * 256 + lo(v) as int == v,
        hi(v) as int == v / 256,
        lo(v) as int == v % 256,
{
}

/// Outside the header counters, the new slot and the new record, storing a
/// record leaves every byte as it was.
proof fn lemma_inserted_keeps(b: Seq<u8>, name: Seq<u8>, pass: Seq<u8>, i: int)
    requires
        header_sane(b),
        fits(b, name.len() as int, pass.len() as int),
        0 <= i < PAGE_SIZE,
        i == 0 || (HEADER_SIZE <= i < slot_dir_end(b)) || (free_offset(b) <= i),
    ensures
        inserted(b, name, pass)[i] == b[i],
{
}

/// Storing a record in a well-formed page keeps it well formed, keeps every
/// record it held, and appends the new record in a new last slot.
pub proof fn lemma_insert_appends(b: Seq<u8>, name: Seq<u8>, pass: Seq<u8>)
    requires
        page_well_formed(b),
        fits(b, name.len() as int, pass.len() as int),
        valid_utf8(name),
        valid_utf8(pass),
    ensures
        page_well_formed(inserted(b, name, pass)),
        inserted(b, name, pass)[0] == b[0],
        slot_count(inserted(b, name, pass)) == slot_count(b) + 1,
        free_offset(inserted(b, name, pass)) == free_offset(b) - tuple_size(
            name.len() as int,
            pass.len() as int,
        ),
        entries(inserted(b, name, pass)) == entries(b).push((name, pass)),
{
    let c = slot_count(b);
    let ts = tuple_size(name.len() as int, pass.len() as int);
    let rec = free_offset(b) - ts;
    let sde = slot_dir_end(b);
    let nb = inserted(b, name, pass);
    lemma_hi_lo(c + 1);
    lemma_hi_lo(rec);
    lemma_hi_lo(ts);
    lemma_hi_lo(name.len() as int);
    lemma_hi_lo(pass.len() as int);
    assert(slot_count(nb) == c + 1);
    assert(free_offset(nb) == rec);
    // the new slot
    assert(record_offset(nb, c) == rec);
    assert(record_size(nb, c) == ts);
    assert(name_len(nb, c) == name.len());
    assert(pass_len(nb, c) == pass.len());
    assert(record_name(nb, c) =~= name);
    assert(record_pass(nb, c) =~= pass);
    assert(slot_well_formed(nb, c));
    // the old slots
    assert forall|n: int| 0 <= n < c implies #[trigger] slot_well_formed(nb, n) && record_name(
        nb,
        n,
    ) == record_name(b, n) && record_pass(nb, n) == record_pass(b, n) by {
        assert(slot_well_formed(b, n));
        let p = slot_pos(n);
        lemma_inserted_keeps(b, name, pass, p);
        lemma_inserted_keeps(b, name, pass, p + 1);
        lemma_inserted_keeps(b, name, pass, p + 2);
        lemma_inserted_keeps(b, name, pass, p + 3);
        let off = record_offset(b, n);
        assert(record_offset(nb, n) == off);
        assert(record_size(nb, n) == record_size(b, n));
        lemma_inserted_keeps(b, name, pass, off);
        lemma_inserted_keeps(b, name, pass, off + 1);
        lemma_inserted_keeps(b, name, pass, off + 2);
        lemma_inserted_keeps(b, name, pass, off + 3);
        assert(name_len(nb, n) == name_len(b, n));
        assert(pass_len(nb, n) == pass_len(b, n));
        assert forall|i: int| off + 4 <= i < off + record_size(b, n) implies nb[i] == b[i] by {
            lemma_inserted_keeps(b, name, pass, i);
        }
        assert(record_name(nb, n) =~= record_name(b, n));
        assert(record_pass(nb, n) =~= record_pass(b, n));
    }
    assert(entries(nb) =~= entries(b).push((name, pass))) by {
        assert forall|n: int| 0 <= n < c + 1 implies #[trigger] entries(nb)[n] == entries(b).push(
            (name, pass),
        )[n] by {
            if n < c {
                assert(slot_well_formed(nb, n));
            }
        }
    }
    assert forall|n: int| 0 <= n < slot_count(nb) implies #[trigger] slot_well_formed(nb, n) by {
        if n < c {
        }
    }
}

} // verus!

verus! {

/// In a well-formed page every slot is readable, so a search from any slot
/// can run to its end.
pub proof fn lemma_well_formed_scan_ok(b: Seq<u8>, name: Seq<u8>, n: int)
    requires
        page_well_formed(b),
    ensures
        scan_ok(b, name, n),
    decreases slot_count(b) - n,
{
    if 0 <= n < slot_count(b) {
        assert(slot_well_formed(b, n));
        lemma_well_formed_scan_ok(b, name, n + 1);
    }
}

proof fn lemma_find_after_insert(b: Seq<u8>, name: Seq<u8>, pass: Seq<u8>, x: Seq<u8>, n: int)
    requires
        page_well_formed(b),
        fits(b, name.len() as int, pass.len() as int),
        valid_utf8(name),
        valid_utf8(pass),
        0 <= n <= slot_count(b),
    ensures
        find_from(inserted(b, name, pass), x, n) == match find_from(b, x, n) {
            Some(k) => Some(k),
            None => if x == name {
                Some(slot_count(b))
            } else {
                None::<int>
            },
        },
    decreases slot_count(b) - n,
{
    let nb = inserted(b, name, pass);
    lemma_insert_appends(b, name, pass);
    assert(entries(nb)[n] == entries(b).push((name, pass))[n]);
    if n < slot_count(b) {
        lemma_find_after_insert(b, name, pass, x, n + 1);
    } else {
        assert(find_from(nb, x, n + 1) == None::<int>);
    }
}

/// What a lookup gives back of a stored record: after storing (`name`, `pass`)
/// in a well-formed page that already holds a record, a search by `name` from
/// slot 1 can run to its end and finds the first earlier record of that name
/// if there is one, and otherwise the new record, whose password is `pass`.
/// A search by any other name finds what it found before.
pub proof fn law_lookup_after_insert(b: Seq<u8>, name: Seq<u8>, pass: Seq<u8>, other: Seq<u8>)
    requires
        page_well_formed(b),
        slot_count(b) >= 1,
        fits(b, name.len() as int, pass.len() as int),
        valid_utf8(name),
        valid_utf8(pass),
    ensures
        scan_ok(inserted(b, name, pass), name, 1),
        find_from(b, name, 1) is None ==> find_from(inserted(b, name, pass), name, 1) == Some(
            slot_count(b),
        ) && record_name(inserted(b, name, pass), slot_count(b)) == name && record_pass(
            inserted(b, name, pass),
            slot_count(b),
        ) == pass,
        find_from(b, name, 1) is Some ==> find_from(inserted(b, name, pass), name, 1) == find_from(
            b,
            name,
            1,
        ),
        other != name ==> find_from(inserted(b, name, pass), other, 1) == find_from(b, other, 1),
{
    lemma_insert_appends(b, name, pass);
    let nb = inserted(b, name, pass);
    lemma_well_formed_scan_ok(nb, name, 1);
    lemma_find_after_insert(b, name, pass, name, 1);
    lemma_find_after_insert(b, name, pass, other, 1);
    assert(entries(nb)[slot_count(b)] == entries(b).push((name, pass))[slot_count(b)]);
}

} // verus!

verus! {

/// A record is refused only for want of room: whatever the number of slots,
/// storing a record of `name_len` + `pass_len` bytes succeeds exactly when
/// the record (4 length bytes, the name, the password) and its 4-byte slot
/// fit between the end of the slot directory (5 header bytes and 4 bytes per
/// slot) and the free-space offset stored big-endian at bytes 3..5, the slot
/// count being stored big-endian at bytes 1..3.
pub proof fn law_insert_refused_only_when_full(b: Seq<u8>, name_len: int, pass_len: int)
    requires
        b.len() == 4096,
        0 <= name_len,
        0 <= pass_len,
        5 + 4 * (b[1] * 256 + b[2]) <= b[3] * 256 + b[4] <= 4096,
    ensures
        fits(b, name_len, pass_len) <==> 4 + name_len + pass_len + 4 <= (b[3] * 256 + b[4]) - (5
            + 4 * (b[1] * 256 + b[2])),
        insert_in_bounds(b, name_len, pass_len),
        header_sane(b),
{
}

} // verus!
