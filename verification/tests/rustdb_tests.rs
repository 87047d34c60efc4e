use rustbits::codec::{read_u16, read_u8, write_u16, write_u8};
use rustbits::engine::{insert_user_step, scan_start, scan_step, InsertStep, ScanAction};
use rustbits::page::{init_data_page, init_dict_page, parse_dict, DbError, Page, User};

/// The page file, held in memory.
struct MemPager {
    pages: Vec<[u8; 4096]>,
}

impl MemPager {
    fn new() -> MemPager {
        MemPager { pages: Vec::new() }
    }

    fn read_page(&mut self, page_id: u64) -> Page {
        Page::new(page_id, self.pages[page_id as usize])
    }

    fn write_page(&mut self, page: &Page) {
        while self.pages.len() <= page.page_id as usize {
            self.pages.push([0u8; 4096]);
        }
        self.pages[page.page_id as usize] = page.data;
    }

    fn initialize_if_empty(&mut self) {
        if self.pages.is_empty() {
            self.write_page(&init_dict_page());
            self.write_page(&init_data_page(&1));
        }
    }
}

fn insert_user(pager: &mut MemPager, user: User) {
    loop {
        let dict_page = pager.read_page(0);
        let dict = parse_dict(&dict_page.data);
        let page = pager.read_page(dict.curr_page as u64);
        assert!(page.insert_is_safe(&user));
        match insert_user_step(dict_page, page, &user) {
            InsertStep::Stored(page) => {
                pager.write_page(&page);
                break;
            }
            InsertStep::Grow { new_page, dict_page } => {
                pager.write_page(&new_page);
                pager.write_page(&dict_page);
            }
        }
    }
}

fn read_from_pages_by_name(pager: &mut MemPager, name: &str) -> Result<User, DbError> {
    let dict = parse_dict(&pager.read_page(0).data);
    let mut action = scan_start(&dict);
    loop {
        match action {
            ScanAction::ReadPage(id) => {
                let page = pager.read_page(id);
                assert!(page.scan_is_safe(name));
                action = scan_step(&dict, id, page, name);
            }
            ScanAction::Found(user) => return Ok(user),
            ScanAction::NotFound => return Err(DbError::NotFound),
        }
    }
}

fn fill(pager: &mut MemPager) {
    pager.initialize_if_empty();
    for i in 1..1000 {
        let s1 = "Dev";
        let s2 = i.to_string();
        insert_user(
            pager,
            User {
                name: (format!("{s1} {s2}")).to_string(),
                pass: "123".to_string(),
            },
        );
    }
}

#[test]
fn full_flow_test() {
    let mut pager = MemPager::new();
    fill(&mut pager);
    // 999 records of 14 bytes and their slots need more than one page
    let dict = parse_dict(&pager.read_page(0).data);
    assert!(dict.curr_page > 1);
    assert_eq!(pager.pages.len(), dict.curr_page as usize + 1);
}

#[test]
fn check_user() {
    let mut pager = MemPager::new();
    fill(&mut pager);
    let user = read_from_pages_by_name(&mut pager, &"Dev 999").unwrap();

    assert_eq!(user.name, "Dev 999".to_string());
    assert_eq!(user.pass, "123".to_string());
}

#[test]
fn lookup_of_absent_user_is_not_found() {
    let mut pager = MemPager::new();
    fill(&mut pager);
    assert_eq!(read_from_pages_by_name(&mut pager, "Nobody").err(), Some(DbError::NotFound));
}

#[test]
fn first_record_of_a_page_is_not_searched() {
    // the lookup starts at slot 1
    let mut page = init_data_page(&1);
    page.insert_user(&User { name: "a".to_string(), pass: "1".to_string() }).unwrap();
    assert_eq!(page.read_user_by_name("a").err(), Some(DbError::NotFound));
    page.insert_user(&User { name: "b".to_string(), pass: "2".to_string() }).unwrap();
    let u = page.read_user_by_name("b").unwrap();
    assert_eq!(u.name, "b");
    assert_eq!(u.pass, "2");
}

#[test]
fn insert_writes_the_slotted_layout() {
    let mut page = init_data_page(&7);
    page.insert_user(&User { name: "ab".to_string(), pass: "xyz".to_string() }).unwrap();
    let h = page.parse_header();
    assert_eq!(h.page_type, 1);
    assert_eq!(h.slot_count, 1);
    // record of 4 + 2 + 3 bytes at the end of the page
    assert_eq!(h.free_space_offset, 4096 - 9);
    assert_eq!(&page.data[5..9], &[0x0f, 0xf7, 0x00, 0x09]);
    assert_eq!(&page.data[4087..4096], &[0, 2, 0, 3, b'a', b'b', b'x', b'y', b'z']);
    assert_eq!(page.page_id, 7);
}

#[test]
fn insert_into_full_page_is_refused_and_leaves_page_unchanged() {
    let mut page = init_data_page(&1);
    let big = "x".repeat(4000);
    page.insert_user(&User { name: big.clone(), pass: String::new() }).unwrap();
    let before = page.data;
    let r = page.insert_user(&User { name: "y".repeat(100), pass: String::new() });
    assert_eq!(r, Err(DbError::NoSpace));
    assert_eq!(page.data, before);
}

#[test]
fn record_that_exactly_fits_is_accepted() {
    // free space 4091 = tuple (4 + name + pass) + slot 4
    let mut page = init_data_page(&1);
    let r = page.insert_user(&User { name: "n".repeat(4083), pass: String::new() });
    assert_eq!(r, Ok(()));
    let mut page2 = init_data_page(&1);
    let r2 = page2.insert_user(&User { name: "n".repeat(4084), pass: String::new() });
    assert_eq!(r2, Err(DbError::NoSpace));
}

#[test]
fn step_grows_when_page_is_full() {
    let dict_page = init_dict_page();
    let mut full = init_data_page(&1);
    full.insert_user(&User { name: "x".repeat(4083), pass: String::new() }).unwrap();
    match insert_user_step(dict_page, full, &User { name: "a".to_string(), pass: "b".to_string() }) {
        InsertStep::Grow { new_page, dict_page } => {
            assert_eq!(new_page.page_id, 2);
            assert_eq!(new_page.data, init_data_page(&2).data);
            assert_eq!(dict_page.page_id, 0);
            assert_eq!(parse_dict(&dict_page.data).curr_page, 2);
        }
        InsertStep::Stored(_) => panic!("a full page cannot take the record"),
    }
}

#[test]
fn initial_pages() {
    let d = init_dict_page();
    assert_eq!(d.page_id, 0);
    assert_eq!(parse_dict(&d.data).curr_page, 1);
    let p = init_data_page(&3);
    let h = p.parse_header();
    assert_eq!((h.page_type, h.slot_count, h.free_space_offset), (1, 0, 4096));
}

#[test]
fn scan_moves_through_pages_then_stops() {
    let dict = parse_dict(&init_dict_page().data);
    assert!(matches!(scan_start(&dict), ScanAction::ReadPage(1)));
    let page = init_data_page(&1);
    assert!(matches!(scan_step(&dict, 1, page, "x"), ScanAction::NotFound));
}

#[test]
fn byte_helpers_round_trip() {
    let mut buf = [0u8; 8];
    write_u16(&mut buf, 3, 0xbeef);
    assert_eq!(buf[3], 0xbe);
    assert_eq!(buf[4], 0xef);
    assert_eq!(read_u16(&buf, 3), 0xbeef);
    write_u8(&mut buf, 0, 9);
    assert_eq!(read_u8(&buf, 0), 9);
}

#[test]
fn corrupt_pages_are_detected() {
    let mut page = init_data_page(&1);
    page.insert_user(&User { name: "a".to_string(), pass: "1".to_string() }).unwrap();
    page.insert_user(&User { name: "b".to_string(), pass: "2".to_string() }).unwrap();
    assert!(page.scan_is_safe("b"));
    let c = User { name: "c".to_string(), pass: "3".to_string() };
    assert!(page.insert_is_safe(&c));
    // slot 1's name byte is made invalid UTF-8
    let mut bad = Page::new(1, page.data);
    let rec = ((bad.data[9] as usize) << 8) | bad.data[10] as usize;
    bad.data[rec + 4] = 0xff;
    assert!(!bad.scan_is_safe("b"));
    // a free-space offset below the slot directory
    let mut bad_header = Page::new(1, page.data);
    bad_header.data[3] = 0;
    bad_header.data[4] = 2;
    assert!(!bad_header.insert_is_safe(&c));
}

#[test]
fn record_that_does_not_fit_is_refused_whatever_the_free_offset() {
    // 1248 slots and a free-space offset of 5000, beyond the page's end
    let mut data = [0u8; 4096];
    data[0] = 1;
    data[1] = (1248 >> 8) as u8;
    data[2] = (1248 & 0xff) as u8;
    data[3] = (5000 >> 8) as u8;
    data[4] = (5000 & 0xff) as u8;
    let mut page = Page::new(4, data);
    let empty = User { name: String::new(), pass: String::new() };
    assert!(page.insert_is_safe(&empty));
    assert_eq!(page.insert_user(&empty), Err(DbError::NoSpace));
    assert_eq!(page.data, data);
    // the engine grows a new page for it
    let dict_page = init_dict_page();
    assert!(matches!(insert_user_step(dict_page, page, &empty), InsertStep::Grow { .. }));
    // a record that fits such a page would be written past its end
    let mut far = [0u8; 4096];
    far[3] = (5000 >> 8) as u8;
    far[4] = (5000 & 0xff) as u8;
    assert!(!Page::new(4, far).insert_is_safe(&empty));
}
