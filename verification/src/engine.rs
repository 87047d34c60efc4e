//! The decisions of the storage engine, as steps that a caller driving the
//! page file runs in a loop: it performs each step's reads and writes and
//! hands the pages it read back to the next step.
use vstd::prelude::*;
use vstd::utf8::*;
use crate::codec::{be16, put16, write_u16};
use crate::page::{
    empty_data_page_bytes, find_from, fits, free_offset, header_sane, init_data_page,
    insert_in_bounds, inserted, page_well_formed, parse_dict, record_pass, scan_ok, slot_count,
    tuple_size, Dict, Page, User, HEADER_SIZE, PAGE_SIZE, SLOT_SIZE, law_lookup_after_insert,
    lemma_well_formed_scan_ok, record_name,
};

verus! {

/// What to do after trying to store a user in the current data page.
pub enum InsertStep {
    /// The user was stored: write this page back, and the insert is done.
    Stored(Page),
    /// The current data page is full: write `new_page`, then `dict_page`,
    /// which now names it as the current page, and try again.
    Grow { new_page: Page, dict_page: Page },
}

/// One round of inserting `user`: `dict_page` is the dictionary page and
/// `page` the data page that it names as current.
pub fn insert_user_step(dict_page: Page, page: Page, user: &User) -> (s: InsertStep)
    requires
        insert_in_bounds(
            page.data@,
            encode_utf8(user.name@).len() as int,
            encode_utf8(user.pass@).len() as int,
        ),
    ensures
        ({
            let nl = encode_utf8(user.name@).len() as int;
            let pl = encode_utf8(user.pass@).len() as int;
            let curr = be16(dict_page.data@, 0);
            if fits(page.data@, nl, pl) {
                s matches InsertStep::Stored(p) && p.page_id == page.page_id && p.data@ == inserted(
                    page.data@,
                    encode_utf8(user.name@),
                    encode_utf8(user.pass@),
                )
            } else {
                s matches InsertStep::Grow { new_page, dict_page: d } && new_page.page_id == curr
                    + 1 && new_page.data@ == empty_data_page_bytes() && d.page_id
                    == dict_page.page_id && d.data@ == put16(
                    dict_page.data@,
                    0,
                    (curr + 1) % 0x10000,
                )
            }
        }),
{
    let dict = parse_dict(&dict_page.data);
    let mut page = page;
    if page.insert_user(user).is_ok() {
        return InsertStep::Stored(page);
    }
    let new_page_id = dict.curr_page as u64 + 1;
    let new_page = init_data_page(&new_page_id);
    let mut dict_page = dict_page;
    write_u16(&mut dict_page.data, 0, (new_page_id % 0x10000) as u16);
    InsertStep::Grow { new_page, dict_page }
}

/// A record that fits in an empty data page is stored in a freshly grown one:
/// so an insert grows the file at most once before it stores the user.
pub proof fn law_fresh_page_accepts(name_len: int, pass_len: int)
    requires
        0 <= name_len,
        0 <= pass_len,
        tuple_size(name_len, pass_len) + SLOT_SIZE <= PAGE_SIZE - HEADER_SIZE,
    ensures
        header_sane(empty_data_page_bytes()),
        fits(empty_data_page_bytes(), name_len, pass_len),
        page_well_formed(empty_data_page_bytes()),
{
    let b = empty_data_page_bytes();
    assert(slot_count(b) == 0);
    assert(free_offset(b) == PAGE_SIZE);
}

/// What to do next while looking a user up by name.
pub enum ScanAction {
    /// Read the data page with this id and hand it to `scan_step`.
    ReadPage(u64),
    /// The user was found.
    Found(User),
    /// No data page holds the user.
    NotFound,
}

/// The first action of a lookup: data pages are searched from page 1 up to
/// the dictionary's current page.
pub fn scan_start(dict: &Dict) -> (a: ScanAction)
    ensures
        dict.curr_page >= 1 ==> a == ScanAction::ReadPage(1),
        dict.curr_page == 0 ==> a == ScanAction::NotFound,
{
    if dict.curr_page >= 1 {
        ScanAction::ReadPage(1)
    } else {
        ScanAction::NotFound
    }
}

/// Searches data page `page_id` (the page `page`) for `name`; if it is not
/// there, moves on to the next data page up to the dictionary's current one.
pub fn scan_step(dict: &Dict, page_id: u64, page: Page, name: &str) -> (a: ScanAction)
    requires
        1 <= page_id <= dict.curr_page,
        scan_ok(page.data@, encode_utf8(name@), 1),
    ensures
        match find_from(page.data@, encode_utf8(name@), 1) {
            Some(n) => a matches ScanAction::Found(u) && u.name@ == name@ && u.pass@
                == decode_utf8(record_pass(page.data@, n)),
            None => if page_id < dict.curr_page {
                a == ScanAction::ReadPage((page_id + 1) as u64)
            } else {
                a == ScanAction::NotFound
            },
        },
{
    let mut page = page;
    match page.read_user_by_name(name) {
        Ok(user) => ScanAction::Found(user),
        Err(_) => {
            if page_id < dict.curr_page as u64 {
                ScanAction::ReadPage(page_id + 1)
            } else {
                ScanAction::NotFound
            }
        },
    }
}

/// Where a lookup of `name` over the data pages `id..=curr` of a page file
/// (`pages[i]` being page `i`) stops: the first page, in order, whose search
/// from slot 1 finds the name, with the slot it finds.
pub open spec fn file_find(pages: Seq<Seq<u8>>, name: Seq<u8>, id: int, curr: int) -> Option<
    (int, int),
>
    decreases curr + 1 - id,
{
    if id < 0 || id > curr || id >= pages.len() {
        None
    } else {
        match find_from(pages[id], name, 1) {
            Some(n) => Some((id, n)),
            None => file_find(pages, name, id + 1, curr),
        }
    }
}

/// A lookup driven by `scan_start` and `scan_step` stops where `file_find`
/// does: each step on page `id` finds the name there, or moves on to page
/// `id + 1` up to the current page, exactly as `file_find` from `id` does.
pub proof fn lemma_scan_follows_file_find(pages: Seq<Seq<u8>>, name: Seq<u8>, id: int, curr: int)
    requires
        1 <= id <= curr < pages.len(),
    ensures
        file_find(pages, name, id, curr) == match find_from(pages[id], name, 1) {
            Some(n) => Some((id, n)),
            None => if id < curr {
                file_find(pages, name, id + 1, curr)
            } else {
                None::<(int, int)>
            },
        },
{
    if id == curr {
        assert(file_find(pages, name, id + 1, curr) == None::<(int, int)>);
    }
}

proof fn lemma_file_find_after_insert(
    pages: Seq<Seq<u8>>,
    name: Seq<u8>,
    pass: Seq<u8>,
    id: int,
    curr: int,
)
    requires
        1 <= id <= curr < pages.len(),
        forall|i: int| 1 <= i <= curr ==> page_well_formed(#[trigger] pages[i]),
        file_find(pages, name, id, curr) is None,
        slot_count(pages[curr]) >= 1,
        fits(pages[curr], name.len() as int, pass.len() as int),
        valid_utf8(name),
        valid_utf8(pass),
    ensures
        file_find(pages.update(curr, inserted(pages[curr], name, pass)), name, id, curr) == Some(
            (curr, slot_count(pages[curr])),
        ),
    decreases curr - id,
{
    let after = pages.update(curr, inserted(pages[curr], name, pass));
    if id < curr {
        assert(after[id] == pages[id]);
        lemma_file_find_after_insert(pages, name, pass, id + 1, curr);
    } else {
        law_lookup_after_insert(pages[curr], name, pass, name);
    }
}

/// What a lookup over the page file gives back of an insert: when the
/// dictionary names a current data page that already holds a record and
/// takes the new one, and no data page holds the name yet, then after the
/// insert step stores the record in that page, a lookup by the name can read
/// every data page and stops at the new record, whose password is `pass`.
pub proof fn law_file_lookup_after_insert(pages: Seq<Seq<u8>>, name: Seq<u8>, pass: Seq<u8>)
    requires
        pages.len() > 0,
        pages[0].len() >= 2,
        1 <= be16(pages[0], 0) < pages.len(),
        forall|i: int| 1 <= i <= be16(pages[0], 0) ==> page_well_formed(#[trigger] pages[i]),
        file_find(pages, name, 1, be16(pages[0], 0)) is None,
        slot_count(pages[be16(pages[0], 0)]) >= 1,
        fits(pages[be16(pages[0], 0)], name.len() as int, pass.len() as int),
        valid_utf8(name),
        valid_utf8(pass),
    ensures
        ({
            let curr = be16(pages[0], 0);
            let after = pages.update(curr, inserted(pages[curr], name, pass));
            &&& be16(after[0], 0) == curr
            &&& forall|i: int| 1 <= i <= curr ==> #[trigger] scan_ok(after[i], name, 1)
            &&& file_find(after, name, 1, curr) == Some((curr, slot_count(pages[curr])))
            &&& record_name(after[curr], slot_count(pages[curr])) == name
            &&& record_pass(after[curr], slot_count(pages[curr])) == pass
        }),
{
    let curr = be16(pages[0], 0);
    let after = pages.update(curr, inserted(pages[curr], name, pass));
    assert(after[0] == pages[0]);
    lemma_file_find_after_insert(pages, name, pass, 1, curr);
    law_lookup_after_insert(pages[curr], name, pass, name);
    assert forall|i: int| 1 <= i <= curr implies #[trigger] scan_ok(after[i], name, 1) by {
        if i != curr {
            assert(after[i] == pages[i]);
            lemma_well_formed_scan_ok(pages[i], name, 1);
        }
    }
}

} // verus!
