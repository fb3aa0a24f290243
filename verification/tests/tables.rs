use kcore::acpi::{Header, Madt, MadtRecord, RootPointer, RootSdt, ACPI_HEADER_SIZE};
use kcore::debug::Level;
use kcore::gdt::Entry64;
use kcore::idt::Entry;
use kcore::irq::{IrqHandlerBind, IrqVector, MAX_SLOT};
use kcore::mem::{PageTable, Table, L1, L2, PAGE_PRESENT};
use kcore::phys::{
    alloc_contiguous, alloc_page, fit_mm_pages, free_page, get_page_at, is_usable, MemoryRegion,
    Page, PageUsage,
};
use kcore::{virtualize, KERNEL_OFFSET};

fn header(length: u32) -> Header {
    Header {
        signature: [0x41, 0x50, 0x49, 0x43],
        length,
        revision: 1,
        checksum: 0,
        oem_id: [0; 6],
        oem_table_id: [0; 8],
        oem_revision: 0,
        creator_id: 0,
        creator_rev: 0,
    }
}

#[test]
fn virtualize_adds_kernel_offset() {
    assert_eq!(virtualize(0), KERNEL_OFFSET);
    assert_eq!(virtualize(0x1000), 0xFFFF_FF00_0000_1000);
}

#[test]
fn gdt_entry_packs_fields() {
    let e = Entry64::new(0x12345678, 0xABCDE, 0xF0, 0x9A);
    assert_eq!(e.base_lo, 0x5678);
    assert_eq!(e.base_mi, 0x34);
    assert_eq!(e.base_hi, 0x12);
    assert_eq!(e.access, 0x9A);
    assert_eq!(e.flags, 0xFA);
    assert_eq!(e.limit_lo, 0xBCDE);
}

#[test]
fn idt_entry_packs_handler_address() {
    let e = Entry::new(0x0000_1234_5678_9ABC, 0x08, 0x8E);
    assert_eq!(e.base_lo, 0x9ABC);
    assert_eq!(e.base_hi, 0x5678);
    assert_eq!(e.base_ex, 0x1234);
    assert_eq!(e.selector, 0x08);
    assert_eq!(e.flags, 0x8E);
    assert_eq!(e.zero0, 0);
    assert_eq!(e.zero1, 1);
}

#[test]
fn idt_empty_entry_is_all_zero() {
    let e = Entry::empty();
    assert_eq!(e.base_lo, 0);
    assert_eq!(e.base_hi, 0);
    assert_eq!(e.base_ex, 0);
    assert_eq!(e.selector, 0);
    assert_eq!(e.flags, 0);
    assert_eq!(e.zero0, 0);
    assert_eq!(e.zero1, 0);
}

#[test]
fn rsdp_signature_check() {
    let mut rsdp = RootPointer {
        signature: *b"RSD PTR ",
        checksum: 0,
        oem_id: [0; 6],
        revision: 2,
        rsdt_address: 0x7FE0000,
    };
    assert!(rsdp.is_valid());
    rsdp.signature[0] = b'X';
    assert!(!rsdp.is_valid());
}

#[test]
fn header_data_size() {
    let h = header(56);
    assert_eq!(h.data_size(), 20);
    assert_eq!(ACPI_HEADER_SIZE, 36);
}

#[test]
fn root_sdt_iterates_addresses() {
    let sdt = RootSdt { hdr: header(44), ptrs: vec![0x1000, 0x2000] };
    let mut it = sdt.iter();
    assert_eq!(it.next(), Some(0x1000));
    assert_eq!(it.next(), Some(0x2000));
    assert_eq!(it.next(), None);
}

#[test]
fn madt_iterates_records() {
    // one I/O APIC record (kind 1, length 12), then an unknown one
    let records = vec![
        1, 12, 2, 0, 0x00, 0x10, 0x00, 0x00, 0x20, 0x00, 0x00, 0x00, // IoApic(2, 0x1000, 0x20)
        9, 8, 0, 0, 0, 0, 0, 0, // Unknown(9, 8)
    ];
    let madt = Madt {
        hdr: header(44 + records.len() as u32),
        local_apic: 0xFEE0_0000,
        flags: 1,
        records,
    };
    let mut it = madt.iter();
    assert_eq!(it.next(), Some(MadtRecord::IoApic(2, 0x1000, 0x20)));
    assert_eq!(it.next(), Some(MadtRecord::Unknown(9, 8)));
    assert_eq!(it.next(), None);
}

#[test]
fn page_table_translates_present_entries() {
    let mut entries = [0u64; 512];
    entries[5] = 0x2000 | PAGE_PRESENT;
    let table: PageTable<L1> = PageTable::from_entries(entries);
    assert_eq!(table.translate(5 << 12), Some((0x2000, 1)));
    assert_eq!(table.translate(6 << 12), None);

    let mut entries2 = [0u64; 512];
    entries2[7] = 0x40_0000 | PAGE_PRESENT;
    let dir: PageTable<L2> = PageTable::from_entries(entries2);
    assert_eq!(dir.translate(7 << 21), Some((0x40_0000, 1)));
}

#[test]
fn phys_page_bookkeeping() {
    let mut pages = vec![Page { refcount: 0, usage: PageUsage::Reserved }; 8];
    pages[3].usage = PageUsage::Available;
    pages[5].usage = PageUsage::Available;

    assert!(pages[0].is_used());
    assert!(!pages[3].is_used());

    // the first available frame is claimed
    let got = alloc_page(&mut pages, 0, 8, PageUsage::Kernel);
    assert_eq!(got, Some(3 * 4096));
    assert_eq!(get_page_at(&pages, 3 * 4096).usage, PageUsage::Kernel);

    let got2 = alloc_page(&mut pages, 0, 8, PageUsage::Kernel);
    assert_eq!(got2, Some(5 * 4096));

    // no frame left
    assert_eq!(alloc_page(&mut pages, 0, 8, PageUsage::Kernel), None);

    let mut page = get_page_at(&pages, 3 * 4096);
    page.refcount = 1;
    pages[3] = page;
    free_page(&mut pages, 3 * 4096);
    assert!(!pages[3].is_used());
}

#[test]
fn phys_contiguous_run_is_claimed_whole() {
    let mut pages = vec![Page { refcount: 0, usage: PageUsage::Available }; 16];
    pages[2].usage = PageUsage::Reserved;
    pages[5].usage = PageUsage::Reserved;

    // the first window of four available frames starts at frame 6
    let got = alloc_contiguous(&mut pages, 0, 16, PageUsage::Kernel, 4);
    assert_eq!(got, Some(6 * 4096));
    for i in 6..10 {
        assert_eq!(pages[i].usage, PageUsage::Kernel);
    }
    assert_eq!(pages[10].usage, PageUsage::Available);

    // no window of ten available frames is left
    assert_eq!(alloc_contiguous(&mut pages, 0, 16, PageUsage::Kernel, 10), None);
}

#[test]
fn fit_finds_first_long_enough_run() {
    let regions = vec![
        MemoryRegion { begin: 0x0, end: 0x5000, usable: true },
        MemoryRegion { begin: 0x6000, end: 0x8000, usable: false },
        MemoryRegion { begin: 0x9500, end: 0xD000, usable: true },
    ];
    let kernel_end: u64 = 0x2000;
    assert!(!is_usable(0x2000, kernel_end));
    assert!(is_usable(0x3000, kernel_end));

    // pages at or below the kernel image reset the run; the first run is
    // 0x3000, 0x4000, then (across the region boundary) 0xA000...
    assert_eq!(fit_mm_pages(&regions, kernel_end, 2), Some(0x3000));
    assert_eq!(fit_mm_pages(&regions, kernel_end, 4), Some(0x3000));
    assert_eq!(fit_mm_pages(&regions, kernel_end, 5), Some(0x3000));
    assert_eq!(fit_mm_pages(&regions, kernel_end, 6), None);
}

#[test]
fn irq_slots_fill_in_order() {
    let mut v = IrqVector::empty();
    assert_eq!(v.add_slot(IrqHandlerBind { data: 10 }), Some(0));
    assert_eq!(v.add_slot(IrqHandlerBind { data: 11 }), Some(1));
    assert_eq!(v.add_slot(IrqHandlerBind { data: 12 }), Some(2));
    assert_eq!(v.add_slot(IrqHandlerBind { data: 13 }), Some(3));
    assert_eq!(v.add_slot(IrqHandlerBind { data: 14 }), None);
    assert_eq!(MAX_SLOT, 4);
}

#[test]
fn debug_levels_pick_colors() {
    assert_eq!(Level::Warn.color_prefix(), "\x1b[33;1m");
    assert_eq!(Level::Error.color_prefix(), "\x1b[31;1m");
    assert_eq!(Level::Fatal.color_prefix(), "\x1b[41;1m");
    assert_eq!(Level::Debug.color_prefix(), "");
    assert_eq!(Level::Info.color_prefix(), "");
}
