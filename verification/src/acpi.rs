use vstd::prelude::*;

verus! {

/// Byte size of the standard ACPI table header.
pub const ACPI_HEADER_SIZE: u32 = 36;

/// The standard header every ACPI table starts with.
pub struct Header {
    pub signature: [u8; 4],
    pub length: u32,
    pub revision: u8,
    pub checksum: u8,
    pub oem_id: [u8; 6],
    pub oem_table_id: [u8; 8],
    pub oem_revision: u32,
    pub creator_id: u32,
    pub creator_rev: u32,
}

impl Header {
    /// Bytes of table data following the header.  A table shorter than its
    /// own header is a fatal firmware fault, so a verified caller must not
    /// ask.
    pub fn data_size(&self) -> (s: usize)
        requires
            self.length >= ACPI_HEADER_SIZE,
        ensures
            s == self.length - ACPI_HEADER_SIZE,
    {
        (self.length - ACPI_HEADER_SIZE) as usize
    }
}

/// An ACPI table type, identified by the four-byte signature its header
/// carries.
pub trait Table {
    /// The signature that marks this table type.
    fn signature() -> [u8; 4];

    /// Sanity check beyond the signature; tables accept by default.
    fn is_valid(&self) -> bool {
        true
    }
}

/// The root system description pointer (RSDP) the loader hands over.
pub struct RootPointer {
    pub signature: [u8; 8],
    pub checksum: u8,
    pub oem_id: [u8; 6],
    pub revision: u8,
    pub rsdt_address: u32,
}

/// The eight signature bytes of a valid root pointer: `"RSD PTR "`.
pub open spec fn rsdp_signature() -> Seq<u8> {
    seq![0x52u8, 0x53u8, 0x44u8, 0x20u8, 0x50u8, 0x54u8, 0x52u8, 0x20u8]
}

impl RootPointer {
    /// The pointer is valid exactly when it carries the `"RSD PTR "`
    /// signature.
    pub fn is_valid(&self) -> (r: bool)
        ensures
            r == (self.signature@ == rsdp_signature()),
    {
        let ok = self.signature[0] == 0x52u8 && self.signature[1] == 0x53u8 && self.signature[2]
            == 0x44u8 && self.signature[3] == 0x20u8 && self.signature[4] == 0x50u8 && self.signature[5]
            == 0x54u8 && self.signature[6] == 0x52u8 && self.signature[7] == 0x20u8;
        proof {
            if ok {
                assert(self.signature@ =~= rsdp_signature());
            } else {
                assert(self.signature@ != rsdp_signature()) by {
                    if self.signature@ == rsdp_signature() {
                        assert(self.signature@[0] == 0x52u8);
                        assert(self.signature@[1] == 0x53u8);
                        assert(self.signature@[2] == 0x44u8);
                        assert(self.signature@[3] == 0x20u8);
                        assert(self.signature@[4] == 0x50u8);
                        assert(self.signature@[5] == 0x54u8);
                        assert(self.signature@[6] == 0x52u8);
                        assert(self.signature@[7] == 0x20u8);
                    }
                }
            }
        }
        ok
    }
}

/// A root system description table: the standard header followed by a packed
/// run of 32-bit physical table addresses.
pub struct RootSdt {
    pub hdr: Header,
    pub ptrs: Vec<u32>,
}

/// The 32-bit root SDT.
pub type Rsdt = RootSdt;

impl Table for RootSdt {
    fn signature() -> [u8; 4] {
        [0x52u8, 0x53u8, 0x44u8, 0x54u8]
    }
}

/// Walks the table addresses a root SDT lists.
pub struct SdtIterator {
    pub ptrs: Vec<u32>,
    pub index: usize,
}

impl RootSdt {
    /// Iterate the physical addresses of the tables this root SDT lists.
    pub fn iter(&self) -> (it: SdtIterator)
        ensures
            it.ptrs@ == self.ptrs@,
            it.index == 0,
    {
        SdtIterator { ptrs: clone_addrs(&self.ptrs), index: 0 }
    }
}

impl SdtIterator {
    /// The next listed table address, or `None` past the end.
    pub fn next(&mut self) -> (r: Option<u32>)
        ensures
            final(self).ptrs@ == old(self).ptrs@,
            old(self).index < old(self).ptrs.len() ==> {
                &&& r == Some(old(self).ptrs@[old(self).index as int])
                &&& final(self).index == old(self).index + 1
            },
            old(self).index >= old(self).ptrs.len() ==> r is None && *final(self) == *old(self),
    {
        if self.index < self.ptrs.len() {
            let v = self.ptrs[self.index];
            self.index = self.index + 1;
            Some(v)
        } else {
            None
        }
    }
}

/// The fixed ACPI description table; only the fields the kernel reads.
pub struct Fadt {
    pub hdr: Header,
    pub firmware_ctrl: u32,
    pub dsdt: u32,
}

impl Table for Fadt {
    fn signature() -> [u8; 4] {
        [0x46u8, 0x41u8, 0x43u8, 0x50u8]
    }
}

/// The multiple APIC description table: the header, the local APIC address
/// and flags, and the raw bytes of its variable-length record area.
pub struct Madt {
    pub hdr: Header,
    pub local_apic: u32,
    pub flags: u32,
    pub records: Vec<u8>,
}

impl Table for Madt {
    fn signature() -> [u8; 4] {
        [0x41u8, 0x50u8, 0x49u8, 0x43u8]
    }
}

/// One record of the MADT record area.  Only I/O APIC records are parsed;
/// every other kind is carried as kind and length.
#[derive(Clone, Copy, PartialEq, Eq, Structural, Debug)]
pub enum MadtRecord {
    LocalApic(u8, u8, u32),
    IoApic(u8, u32, u32),
    Unknown(u8, u8),
}

/// Little-endian 32-bit value at `off`.
pub open spec fn le32_at(data: Seq<u8>, off: int) -> u32 {
    (data[off] + data[off + 1] * 0x100 + data[off + 2] * 0x10000 + data[off + 3]
        * 0x1000000) as u32
}

/// The record starting at `off`: an I/O APIC record when the kind byte is 1
/// and the record lies fully within the data; otherwise its kind and length,
/// unparsed.
pub open spec fn spec_record_at(data: Seq<u8>, off: int) -> MadtRecord {
    if data[off] == 1 && off + 12 <= data.len() {
        MadtRecord::IoApic(data[off + 2], le32_at(data, off + 4), le32_at(data, off + 8))
    } else {
        MadtRecord::Unknown(data[off], data[off + 1])
    }
}

/// Walks the variable-length records of a MADT.
pub struct MadtIterator {
    pub data: Vec<u8>,
    pub offset: usize,
}

impl Madt {
    /// Iterate the records of this table's record area.
    pub fn iter(&self) -> (it: MadtIterator)
        ensures
            it.data@ == self.records@,
            it.offset == 0,
    {
        MadtIterator { data: clone_bytes(&self.records), offset: 0 }
    }
}

impl MadtIterator {
    /// Parse the record at the current offset and advance by the record's
    /// length byte.  The walk ends when fewer than the two kind/length bytes
    /// remain.
    pub fn next(&mut self) -> (r: Option<MadtRecord>)
        requires
            old(self).data.len() < usize::MAX - 255,
        ensures
            final(self).data@ == old(self).data@,
            old(self).offset + 2 <= old(self).data.len() ==> {
                &&& r == Some(spec_record_at(old(self).data@, old(self).offset as int))
                &&& final(self).offset == old(self).offset + old(self).data@[old(self).offset
                    + 1]
            },
            old(self).offset + 2 > old(self).data.len() ==> r is None && *final(self) == *old(
                self,
            ),
    {
        if self.offset >= self.data.len() || self.data.len() - self.offset < 2 {
            return None;
        }

        let kind = self.data[self.offset];
        let len = self.data[self.offset + 1];

        let res = if kind == 1 && self.data.len() - self.offset >= 12 {
            MadtRecord::IoApic(
                self.data[self.offset + 2],
                read_le32(&self.data, self.offset + 4),
                read_le32(&self.data, self.offset + 8),
            )
        } else {
            MadtRecord::Unknown(kind, len)
        };

        self.offset = self.offset + len as usize;
        Some(res)
    }
}

/// Little-endian 32-bit read from four bytes.
fn read_le32(data: &Vec<u8>, off: usize) -> (r: u32)
    requires
        off + 4 <= data.len(),
    ensures
        r == le32_at(data@, off as int),
{
    let b0 = data[off] as u32;
    let b1 = data[off + 1] as u32;
    let b2 = data[off + 2] as u32;
    let b3 = data[off + 3] as u32;
    b0 + b1 * 0x100 + b2 * 0x10000 + b3 * 0x1000000
}

/// Element-wise copy of a table-address list.
fn clone_addrs(v: &Vec<u32>) -> (r: Vec<u32>)
    ensures
        r@ == v@,
{
    let mut r: Vec<u32> = Vec::new();
    let mut i: usize = 0;
    while i < v.len()
        invariant
            i <= v.len(),
            r@ == v@.subrange(0, i as int),
        decreases v.len() - i,
    {
        r.push(v[i]);
        i = i + 1;
    }
    proof {
        assert(r@ =~= v@);
    }
    r
}

/// Element-wise copy of a byte buffer.
fn clone_bytes(v: &Vec<u8>) -> (r: Vec<u8>)
    ensures
        r@ == v@,
{
    let mut r: Vec<u8> = Vec::new();
    let mut i: usize = 0;
    while i < v.len()
        invariant
            i <= v.len(),
            r@ == v@.subrange(0, i as int),
        decreases v.len() - i,
    {
        r.push(v[i]);
        i = i + 1;
    }
    proof {
        assert(r@ =~= v@);
    }
    r
}

} // verus!
