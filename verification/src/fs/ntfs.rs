//! Read-only NTFS parsing on top of decrypted blocks: the boot sector, MFT
//! records with their attributes and data runs, and file-name attributes.
//!
//! The parsers follow the byte layout exactly. Records that the layout cannot
//! be read from (a field past the end of its record, an attribute of length
//! zero, a run field wider than eight bytes, a cluster sum outside `i64`) are
//! *malformed*; the `*_well_formed` functions tell them apart before a parse.
use crate::engine::bytes::{
    copy_range, le_at, le_bytes, le_signed_value, lemma_le_bytes_value, lemma_le_signed_bytes_value,
    twos_complement_64, read_le, read_le_signed, read_u16, read_u32, read_u64,
};
use crate::engine::primitives::{
    string_from_utf16_lossy, MAX_SYSTEM_TIME_SECS, system_time_after_epoch, system_time_from_unix_secs, utf16_lossy,
};
use crate::engine::text::{decimal_text, u64_to_text};
use crate::engine::{size_mismatch_message, CrossCryptError};
use crate::fs::encrypt_fs::Statfs;
use std::collections::HashMap;
use vstd::arithmetic::power2::{lemma2_to64_rest, lemma_pow2_strictly_increases, lemma_pow2_unfold, pow2};
use vstd::prelude::*;
use vstd::slice::slice_subrange;

verus! {

broadcast use vstd::std_specs::hash::group_hash_axioms;

/// The NTFS boot sector fields this parser uses.
#[derive(Debug, Clone, Copy, PartialEq, Eq, Structural)]
pub struct NtfsBootSector {
    pub bytes_per_sector: u16,
    pub sectors_per_cluster: u8,
    pub total_sectors: u64,
    pub mft_cluster: u64,
    pub mft_mirror_cluster: u64,
    pub clusters_per_mft_record: i8,
    pub clusters_per_index_record: i8,
    pub serial_number: u64,
}

/// NTFS attribute types.
#[derive(Debug, Clone, Copy, PartialEq, Eq, Structural)]
pub enum AttributeType {
    StandardInformation,
    AttributeList,
    FileName,
    ObjectId,
    SecurityDescriptor,
    VolumeName,
    VolumeInformation,
    Data,
    IndexRoot,
    IndexAllocation,
    Bitmap,
    ReparsePoint,
    EaInformation,
    Ea,
    LoggedUtilityStream,
    End,
}

/// The attribute type a type code names, if any.
pub open spec fn attribute_type_of(code: u32) -> Option<AttributeType> {
    if code == 0x10 {
        Some(AttributeType::StandardInformation)
    } else if code == 0x20 {
        Some(AttributeType::AttributeList)
    } else if code == 0x30 {
        Some(AttributeType::FileName)
    } else if code == 0x40 {
        Some(AttributeType::ObjectId)
    } else if code == 0x50 {
        Some(AttributeType::SecurityDescriptor)
    } else if code == 0x60 {
        Some(AttributeType::VolumeName)
    } else if code == 0x70 {
        Some(AttributeType::VolumeInformation)
    } else if code == 0x80 {
        Some(AttributeType::Data)
    } else if code == 0x90 {
        Some(AttributeType::IndexRoot)
    } else if code == 0xA0 {
        Some(AttributeType::IndexAllocation)
    } else if code == 0xB0 {
        Some(AttributeType::Bitmap)
    } else if code == 0xC0 {
        Some(AttributeType::ReparsePoint)
    } else if code == 0xD0 {
        Some(AttributeType::EaInformation)
    } else if code == 0xE0 {
        Some(AttributeType::Ea)
    } else if code == 0x100 {
        Some(AttributeType::LoggedUtilityStream)
    } else if code == 0xFFFF_FFFF {
        Some(AttributeType::End)
    } else {
        None
    }
}

impl AttributeType {
    /// The type code of the attribute type.
    pub fn code(&self) -> (c: u32)
        ensures
            attribute_type_of(c) == Some(*self),
    {
        match self {
            AttributeType::StandardInformation => 0x10,
            AttributeType::AttributeList => 0x20,
            AttributeType::FileName => 0x30,
            AttributeType::ObjectId => 0x40,
            AttributeType::SecurityDescriptor => 0x50,
            AttributeType::VolumeName => 0x60,
            AttributeType::VolumeInformation => 0x70,
            AttributeType::Data => 0x80,
            AttributeType::IndexRoot => 0x90,
            AttributeType::IndexAllocation => 0xA0,
            AttributeType::Bitmap => 0xB0,
            AttributeType::ReparsePoint => 0xC0,
            AttributeType::EaInformation => 0xD0,
            AttributeType::Ea => 0xE0,
            AttributeType::LoggedUtilityStream => 0x100,
            AttributeType::End => 0xFFFF_FFFF,
        }
    }
}

/// A data run of a non-resident attribute: its absolute starting cluster and
/// its length in clusters.
#[derive(Debug, Clone, Copy, PartialEq, Eq, Structural)]
pub struct DataRun {
    pub cluster_offset: i64,
    pub cluster_count: u64,
}

/// The content of an attribute: inside the record, or in data runs.
#[derive(Debug)]
pub enum AttributeData {
    Resident { data: Vec<u8> },
    NonResident {
        start_vcn: u64,
        end_vcn: u64,
        run_offset: u16,
        compression_unit_size: u16,
        allocated_size: u64,
        data_size: u64,
        initialized_size: u64,
        data_runs: Vec<DataRun>,
    },
}

/// An attribute's content with its bytes and runs taken as sequences.
pub enum AttributeDataView {
    Resident { data: Seq<u8> },
    NonResident {
        start_vcn: u64,
        end_vcn: u64,
        run_offset: u16,
        compression_unit_size: u16,
        allocated_size: u64,
        data_size: u64,
        initialized_size: u64,
        data_runs: Seq<DataRun>,
    },
}

impl View for AttributeData {
    type V = AttributeDataView;

    open spec fn view(&self) -> AttributeDataView {
        match self {
            AttributeData::Resident { data } => AttributeDataView::Resident { data: data@ },
            AttributeData::NonResident {
                start_vcn,
                end_vcn,
                run_offset,
                compression_unit_size,
                allocated_size,
                data_size,
                initialized_size,
                data_runs,
            } => AttributeDataView::NonResident {
                start_vcn: *start_vcn,
                end_vcn: *end_vcn,
                run_offset: *run_offset,
                compression_unit_size: *compression_unit_size,
                allocated_size: *allocated_size,
                data_size: *data_size,
                initialized_size: *initialized_size,
                data_runs: data_runs@,
            },
        }
    }
}

impl Clone for AttributeData {
    fn clone(&self) -> (copy: Self)
        ensures
            copy@ == self@,
    {
        match self {
            AttributeData::Resident { data } => AttributeData::Resident { data: data.clone() },
            AttributeData::NonResident {
                start_vcn,
                end_vcn,
                run_offset,
                compression_unit_size,
                allocated_size,
                data_size,
                initialized_size,
                data_runs,
            } => {
                let runs = copy_runs(data_runs);
                AttributeData::NonResident {
                    start_vcn: *start_vcn,
                    end_vcn: *end_vcn,
                    run_offset: *run_offset,
                    compression_unit_size: *compression_unit_size,
                    allocated_size: *allocated_size,
                    data_size: *data_size,
                    initialized_size: *initialized_size,
                    data_runs: runs,
                }
            },
        }
    }
}

/// A copy of a list of data runs.
fn copy_runs(runs: &Vec<DataRun>) -> (copy: Vec<DataRun>)
    ensures
        copy@ == runs@,
{
    let mut copy: Vec<DataRun> = Vec::new();
    let mut i: usize = 0;
    while i < runs.len()
        invariant
            0 <= i <= runs@.len(),
            copy@ == runs@.subrange(0, i as int),
        decreases runs@.len() - i,
    {
        copy.push(runs[i]);
        i = i + 1;
        assert(copy@ =~= runs@.subrange(0, i as int));
    }
    assert(runs@.subrange(0, runs@.len() as int) =~= runs@);
    copy
}

/// An MFT attribute.
#[derive(Debug)]
pub struct MftAttribute {
    pub attr_type: AttributeType,
    pub length: u32,
    pub non_resident: bool,
    pub name_length: u8,
    pub name_offset: u16,
    pub flags: u16,
    pub attribute_id: u16,
    pub data: AttributeData,
}

/// An MFT attribute with its content viewed.
pub struct MftAttributeView {
    pub attr_type: AttributeType,
    pub length: u32,
    pub non_resident: bool,
    pub name_length: u8,
    pub name_offset: u16,
    pub flags: u16,
    pub attribute_id: u16,
    pub data: AttributeDataView,
}

impl View for MftAttribute {
    type V = MftAttributeView;

    open spec fn view(&self) -> MftAttributeView {
        MftAttributeView {
            attr_type: self.attr_type,
            length: self.length,
            non_resident: self.non_resident,
            name_length: self.name_length,
            name_offset: self.name_offset,
            flags: self.flags,
            attribute_id: self.attribute_id,
            data: self.data@,
        }
    }
}

impl Clone for MftAttribute {
    fn clone(&self) -> (copy: Self)
        ensures
            copy@ == self@,
    {
        MftAttribute {
            attr_type: self.attr_type,
            length: self.length,
            non_resident: self.non_resident,
            name_length: self.name_length,
            name_offset: self.name_offset,
            flags: self.flags,
            attribute_id: self.attribute_id,
            data: self.data.clone(),
        }
    }
}

/// An MFT entry (file record).
#[derive(Debug)]
pub struct MftEntry {
    pub signature: [u8; 4],
    pub flags: u16,
    pub used_size: u32,
    pub allocated_size: u32,
    pub base_record: u64,
    pub next_attribute_id: u16,
    pub attributes: Vec<MftAttribute>,
}

/// An MFT entry with its attributes viewed.
pub struct MftEntryView {
    pub signature: Seq<u8>,
    pub flags: u16,
    pub used_size: u32,
    pub allocated_size: u32,
    pub base_record: u64,
    pub next_attribute_id: u16,
    pub attributes: Seq<MftAttributeView>,
}

/// The views of a list of attributes.
pub open spec fn attribute_views(attrs: Seq<MftAttribute>) -> Seq<MftAttributeView> {
    attrs.map_values(|a: MftAttribute| a@)
}

impl View for MftEntry {
    type V = MftEntryView;

    open spec fn view(&self) -> MftEntryView {
        MftEntryView {
            signature: self.signature@,
            flags: self.flags,
            used_size: self.used_size,
            allocated_size: self.allocated_size,
            base_record: self.base_record,
            next_attribute_id: self.next_attribute_id,
            attributes: attribute_views(self.attributes@),
        }
    }
}

impl Clone for MftEntry {
    fn clone(&self) -> (copy: Self)
        ensures
            copy@ == self@,
    {
        let mut attributes: Vec<MftAttribute> = Vec::new();
        let mut i: usize = 0;
        while i < self.attributes.len()
            invariant
                0 <= i <= self.attributes@.len(),
                attributes@.len() == i,
                forall|j: int| 0 <= j < i ==> #[trigger] attributes@[j]@ == self.attributes@[j]@,
            decreases self.attributes@.len() - i,
        {
            let c = self.attributes[i].clone();
            attributes.push(c);
            i = i + 1;
        }
        assert(attribute_views(attributes@) =~= attribute_views(self.attributes@));
        MftEntry {
            signature: self.signature,
            flags: self.flags,
            used_size: self.used_size,
            allocated_size: self.allocated_size,
            base_record: self.base_record,
            next_attribute_id: self.next_attribute_id,
            attributes,
        }
    }
}

/// A file-name attribute.
#[derive(Debug)]
pub struct FileNameAttr {
    pub parent_directory: u64,
    pub creation_time: u64,
    pub modification_time: u64,
    pub mft_modification_time: u64,
    pub access_time: u64,
    pub allocated_size: u64,
    pub data_size: u64,
    pub flags: u32,
    pub reparse_value: u32,
    pub name_length: u8,
    pub namespace: u8,
    pub name: String,
}

/// A standard-information attribute.
#[derive(Debug, Clone, Copy, PartialEq, Eq, Structural)]
pub struct StandardInfo {
    pub creation_time: u64,
    pub modification_time: u64,
    pub mft_modification_time: u64,
    pub access_time: u64,
    pub flags: u32,
    pub max_versions: u32,
    pub version_number: u32,
    pub class_id: u32,
    pub owner_id: u32,
    pub security_id: u32,
    pub quota_charged: u64,
    pub usn: u64,
}

/// What parsing a structure gives: a value, a refusal (an error the caller
/// reports), or a malformed structure the layout cannot be read from.
pub enum ParseOutcome<T> {
    Parsed(T),
    Refused,
    Malformed,
}

/// Why a parse did not give a value.
#[derive(Debug)]
pub enum NtfsFault {
    Refused(CrossCryptError),
    Malformed,
}

/// An exec parse result agrees with a parse outcome.
pub open spec fn agrees<T: View>(r: Result<T, NtfsFault>, o: ParseOutcome<T::V>) -> bool {
    match o {
        ParseOutcome::Parsed(v) => r matches Ok(x) && x@ == v,
        ParseOutcome::Refused => r matches Err(NtfsFault::Refused(e)) && e is Crypto,
        ParseOutcome::Malformed => r matches Err(NtfsFault::Malformed),
    }
}

/// An outcome with `acc` put in front of the value it parsed.
pub open spec fn prepend<A>(acc: Seq<A>, o: ParseOutcome<Seq<A>>) -> ParseOutcome<Seq<A>> {
    match o {
        ParseOutcome::Parsed(rest) => ParseOutcome::Parsed(acc + rest),
        ParseOutcome::Refused => ParseOutcome::Refused,
        ParseOutcome::Malformed => ParseOutcome::Malformed,
    }
}

/// The data runs from byte `off` of a non-resident header, with the running
/// cluster position `current`. Each run starts with a header byte whose low
/// nibble is the size of the signed cluster delta and whose high nibble is the
/// size of the cluster count; a zero header byte or the end of the header ends
/// the list.
pub open spec fn runs_from(nr: Seq<u8>, off: int, current: int) -> ParseOutcome<Seq<DataRun>>
    decreases nr.len() - off,
{
    if off < 0 || off >= nr.len() || nr[off] == 0 {
        ParseOutcome::Parsed(Seq::empty())
    } else {
        let header = nr[off];
        let delta_size = (header % 16) as int;
        let count_size = (header / 16) as int;
        let p = off + 1;
        if p + count_size > nr.len() || count_size > 8 {
            ParseOutcome::Malformed
        } else {
            let q = p + count_size;
            if q + delta_size > nr.len() || delta_size > 8 {
                ParseOutcome::Malformed
            } else {
                let next = current + le_signed_value(nr.subrange(q, q + delta_size));
                if next < i64::MIN || next > i64::MAX {
                    ParseOutcome::Malformed
                } else {
                    let run = DataRun {
                        cluster_offset: next as i64,
                        cluster_count: le_at(nr, p, count_size) as u64,
                    };
                    prepend(seq![run], runs_from(nr, q + delta_size, next))
                }
            }
        }
    }
}

/// The non-resident part of an attribute whose bytes, up to its length, are
/// `attr`: the fields after the 16-byte common header, and the data runs from
/// the run-list offset (bytes 32..34), which counts from the attribute's start.
pub open spec fn non_resident_of(attr: Seq<u8>) -> ParseOutcome<AttributeDataView> {
    if attr.len() < 64 {
        ParseOutcome::Malformed
    } else {
        match runs_from(attr, le_at(attr, 32, 2) as int, 0) {
            ParseOutcome::Parsed(runs) => ParseOutcome::Parsed(
                AttributeDataView::NonResident {
                    start_vcn: le_at(attr, 16, 8) as u64,
                    end_vcn: le_at(attr, 24, 8) as u64,
                    run_offset: le_at(attr, 32, 2) as u16,
                    compression_unit_size: le_at(attr, 34, 2) as u16,
                    allocated_size: le_at(attr, 40, 8) as u64,
                    data_size: le_at(attr, 48, 8) as u64,
                    initialized_size: le_at(attr, 56, 8) as u64,
                    data_runs: runs,
                },
            ),
            ParseOutcome::Refused => ParseOutcome::Refused,
            ParseOutcome::Malformed => ParseOutcome::Malformed,
        }
    }
}

/// The content of an attribute whose bytes start at the start of `d`.
pub open spec fn attribute_data_of(d: Seq<u8>) -> ParseOutcome<AttributeDataView> {
    let length = le_at(d, 4, 4) as int;
    if d[8] != 0 {
        if length < 16 || length > d.len() {
            ParseOutcome::Malformed
        } else {
            non_resident_of(d.subrange(0, length))
        }
    } else if d.len() < 22 {
        ParseOutcome::Malformed
    } else {
        let value_length = le_at(d, 16, 4) as int;
        let value_offset = le_at(d, 20, 2) as int;
        if value_offset + value_length > d.len() {
            ParseOutcome::Malformed
        } else {
            ParseOutcome::Parsed(
                AttributeDataView::Resident {
                    data: d.subrange(value_offset, value_offset + value_length),
                },
            )
        }
    }
}

/// The attribute whose bytes start at the start of `d`: an unknown type code is
/// refused.
#[verifier::opaque]
pub open spec fn attribute_of(d: Seq<u8>) -> ParseOutcome<MftAttributeView> {
    if d.len() < 4 {
        ParseOutcome::Malformed
    } else {
        match attribute_type_of(le_at(d, 0, 4) as u32) {
            None => ParseOutcome::Refused,
            Some(t) => if d.len() < 16 {
                ParseOutcome::Malformed
            } else {
                match attribute_data_of(d) {
                    ParseOutcome::Parsed(data) => ParseOutcome::Parsed(
                        MftAttributeView {
                            attr_type: t,
                            length: le_at(d, 4, 4) as u32,
                            non_resident: d[8] != 0,
                            name_length: d[9],
                            name_offset: le_at(d, 10, 2) as u16,
                            flags: le_at(d, 12, 2) as u16,
                            attribute_id: le_at(d, 14, 2) as u16,
                            data,
                        },
                    ),
                    ParseOutcome::Refused => ParseOutcome::Refused,
                    ParseOutcome::Malformed => ParseOutcome::Malformed,
                }
            },
        }
    }
}

/// The attributes of a record from byte `off`: the list ends at the record's end
/// or at a type code of 0 or 0xFFFFFFFF, and each attribute is followed by the
/// next one `length` bytes further on.
pub open spec fn attributes_from(data: Seq<u8>, off: int) -> ParseOutcome<Seq<MftAttributeView>>
    decreases data.len() - off,
{
    if off < 0 || off + 4 > data.len() {
        ParseOutcome::Parsed(Seq::empty())
    } else {
        let code = le_at(data, off, 4);
        if code == 0xFFFF_FFFF || code == 0 {
            ParseOutcome::Parsed(Seq::empty())
        } else {
            match attribute_of(data.subrange(off, data.len() as int)) {
                ParseOutcome::Parsed(a) => {
                    let next = off + a.length;
                    if a.length == 0 || next + 4 > usize::MAX {
                        ParseOutcome::Malformed
                    } else if next + 4 > data.len() {
                        ParseOutcome::Parsed(seq![a])
                    } else {
                        prepend(seq![a], attributes_from(data, next))
                    }
                },
                ParseOutcome::Refused => ParseOutcome::Refused,
                ParseOutcome::Malformed => ParseOutcome::Malformed,
            }
        }
    }
}

/// A run list written with eight-byte counts and eight-byte deltas: each run
/// `(delta, count)` as the header byte 0x88, the count and the delta
/// (two's complement), little-endian; a zero byte ends the list.
pub open spec fn run_list_bytes(runs: Seq<(i64, u64)>) -> Seq<u8>
    decreases runs.len(),
{
    if runs.len() == 0 {
        seq![0u8]
    } else {
        seq![0x88u8] + le_bytes(runs[0].1 as nat, 8) + le_bytes(twos_complement_64(runs[0].0), 8)
            + run_list_bytes(runs.drop_first())
    }
}

/// Whether every running cluster position from `current`, adding the deltas
/// one by one, stays within `i64`.
pub open spec fn positions_fit(runs: Seq<(i64, u64)>, current: int) -> bool
    decreases runs.len(),
{
    runs.len() == 0 || {
        let next = current + runs[0].0;
        &&& i64::MIN <= next <= i64::MAX
        &&& positions_fit(runs.drop_first(), next)
    }
}

/// Parsing a run list reads each run's count as written and places each run at
/// the running sum of the deltas so far, starting from `current`: data runs
/// hold cluster offsets relative to the run before.
pub proof fn lemma_run_list_reads_back(
    nr: Seq<u8>,
    off: int,
    runs: Seq<(i64, u64)>,
    current: int,
)
    requires
        0 <= off,
        off + run_list_bytes(runs).len() <= nr.len(),
        nr.subrange(off, off + run_list_bytes(runs).len()) == run_list_bytes(runs),
        positions_fit(runs, current),
    ensures
        runs_from(nr, off, current) matches ParseOutcome::Parsed(parsed) && {
            &&& parsed.len() == runs.len()
            &&& forall|k: int|
                0 <= k < runs.len() ==> #[trigger] parsed[k].cluster_count == runs[k].1
                    && parsed[k].cluster_offset == current + runs.subrange(0, k + 1).fold_left(
                    0int,
                    |acc: int, r: (i64, u64)| acc + r.0,
                )
        },
    decreases runs.len(),
{
    let enc = run_list_bytes(runs);
    assert(nr[off] == enc[0]);
    if runs.len() > 0 {
        let rest = runs.drop_first();
        let count = runs[0].1;
        let delta = runs[0].0;
        crate::engine::bytes::lemma_pow256_facts(8);
        lemma_le_bytes_value(count as nat, 8);
        lemma_le_signed_bytes_value(delta);
        let cb = le_bytes(count as nat, 8);
        let db = le_bytes(twos_complement_64(delta), 8);
        let next = current + delta;
        let tail = run_list_bytes(rest);
        assert(enc == seq![0x88u8] + cb + db + tail);
        assert(enc[0] == 0x88u8);
        assert forall|i: int| 0 <= i < 8 implies nr[off + 1 + i] == #[trigger] cb[i] by {
            assert(nr[off + 1 + i] == enc[1 + i]);
        }
        assert forall|i: int| 0 <= i < 8 implies nr[off + 9 + i] == #[trigger] db[i] by {
            assert(nr[off + 9 + i] == enc[9 + i]);
        }
        assert(nr.subrange(off + 1, off + 9) =~= cb);
        assert(nr.subrange(off + 9, off + 17) =~= db);
        assert forall|i: int| 0 <= i < tail.len() implies nr[off + 17 + i] == #[trigger] tail[i] by {
            assert(nr[off + 17 + i] == enc[17 + i]);
        }
        assert(nr.subrange(off + 17, off + 17 + tail.len()) =~= tail);
        lemma_run_list_reads_back(nr, off + 17, rest, next);
        let parsed_rest = runs_from(nr, off + 17, next)->Parsed_0;
        let parsed = runs_from(nr, off, current)->Parsed_0;
        let f = |acc: int, r: (i64, u64)| acc + r.0;
        assert forall|k: int| 0 <= k < runs.len() implies #[trigger] parsed[k].cluster_count == runs[k].1
            && parsed[k].cluster_offset == current + runs.subrange(0, k + 1).fold_left(0int, f) by {
            lemma_fold_sum_front(runs.subrange(0, k + 1), f);
            assert(runs.subrange(0, k + 1).drop_first() =~= rest.subrange(0, k));
            if k > 0 {
                assert(parsed[k] == parsed_rest[k - 1]);
                assert(rest[k - 1] == runs[k]);
                assert(rest.subrange(0, k) =~= rest.subrange(0, (k - 1) + 1));
            } else {
                assert(rest.subrange(0, 0) =~= Seq::<(i64, u64)>::empty());
            }
        }
    }
}

/// A sum folded from the left is the first term plus the sum of the rest.
proof fn lemma_fold_sum_front(s: Seq<(i64, u64)>, f: spec_fn(int, (i64, u64)) -> int)
    requires
        s.len() > 0,
        f == (|acc: int, r: (i64, u64)| acc + r.0),
    ensures
        s.fold_left(0int, f) == s[0].0 + s.drop_first().fold_left(0int, f),
    decreases s.len(),
{
    if s.len() == 1 {
        assert(s.drop_last() =~= Seq::<(i64, u64)>::empty());
        assert(s.drop_first() =~= Seq::<(i64, u64)>::empty());
    } else {
        lemma_fold_sum_front(s.drop_last(), f);
        assert(s.drop_last().drop_first() =~= s.drop_first().drop_last());
        assert(s.drop_first().last() == s.last());
    }
}

/// The bytes of a resident attribute with an unnamed header: its type code,
/// its length (the 24-byte header and the value), the resident flag, no name,
/// its flags and id, then the value's length and offset (24) and its value.
pub open spec fn resident_attribute_bytes(code: u32, flags: u16, id: u16, value: Seq<u8>) -> Seq<u8> {
    le_bytes(code as nat, 4) + le_bytes((24 + value.len()) as nat, 4) + seq![0u8, 0u8] + le_bytes(
        0,
        2,
    ) + le_bytes(flags as nat, 2) + le_bytes(id as nat, 2) + le_bytes(value.len(), 4) + le_bytes(
        24,
        2,
    ) + seq![0u8, 0u8] + value
}

/// Parsing reads back a resident attribute as it was written, whatever bytes
/// follow it in the record: its type, length, flags and id, and exactly its
/// value as the resident data.
pub proof fn lemma_resident_attribute_reads_back(
    code: u32,
    t: AttributeType,
    flags: u16,
    id: u16,
    value: Seq<u8>,
    tail: Seq<u8>,
)
    requires
        attribute_type_of(code) == Some(t),
        24 + value.len() <= u32::MAX,
    ensures
        attribute_of(resident_attribute_bytes(code, flags, id, value) + tail) == ParseOutcome::Parsed(
            MftAttributeView {
                attr_type: t,
                length: (24 + value.len()) as u32,
                non_resident: false,
                name_length: 0,
                name_offset: 0,
                flags,
                attribute_id: id,
                data: AttributeDataView::Resident { data: value },
            },
        ),
{
    reveal(attribute_of);
    let len = (24 + value.len()) as nat;
    lemma_pow256_facts_upto();
    lemma_le_bytes_value(code as nat, 4);
    lemma_le_bytes_value(len, 4);
    lemma_le_bytes_value(0, 2);
    lemma_le_bytes_value(flags as nat, 2);
    lemma_le_bytes_value(id as nat, 2);
    lemma_le_bytes_value(value.len(), 4);
    lemma_le_bytes_value(24, 2);
    let d = resident_attribute_bytes(code, flags, id, value) + tail;
    assert(d.subrange(0, 4) =~= le_bytes(code as nat, 4));
    assert(d.subrange(4, 8) =~= le_bytes(len, 4));
    assert(d.subrange(10, 12) =~= le_bytes(0, 2));
    assert(d.subrange(12, 14) =~= le_bytes(flags as nat, 2));
    assert(d.subrange(14, 16) =~= le_bytes(id as nat, 2));
    assert(d.subrange(16, 20) =~= le_bytes(value.len(), 4));
    assert(d.subrange(20, 22) =~= le_bytes(24, 2));
    assert(d[8] == 0 && d[9] == 0);
    assert(d.subrange(24, 24 + value.len() as int) =~= value);
}

/// `256^2` and `256^4`, the ranges of two- and four-byte fields.
proof fn lemma_pow256_facts_upto()
    ensures
        crate::engine::bytes::pow256(2) == 0x1_0000,
        crate::engine::bytes::pow256(4) == 0x1_0000_0000,
{
    reveal_with_fuel(crate::engine::bytes::pow256, 5);
}

/// A record's attribute list goes on past each attribute: when an attribute of
/// nonzero length starts at `off` and the record holds, where it ends, a type
/// code that is not an end marker, the attributes from `off` are that attribute
/// followed by all the attributes from where it ends; none is dropped.
pub proof fn lemma_attribute_list_continues(data: Seq<u8>, off: int, a: MftAttributeView)
    requires
        data.len() <= usize::MAX,
        0 <= off,
        off + 4 <= data.len(),
        le_at(data, off, 4) != 0,
        le_at(data, off, 4) != 0xFFFF_FFFF,
        attribute_of(data.subrange(off, data.len() as int)) == ParseOutcome::Parsed(a),
        a.length > 0,
        off + a.length + 4 <= data.len(),
        le_at(data, off + a.length, 4) != 0,
        le_at(data, off + a.length, 4) != 0xFFFF_FFFF,
    ensures
        attributes_from(data, off) == prepend(seq![a], attributes_from(data, off + a.length)),
        attributes_from(data, off) is Parsed <==> attributes_from(data, off + a.length) is Parsed,
        attributes_from(data, off + a.length) matches ParseOutcome::Parsed(rest)
            ==> attributes_from(data, off) == ParseOutcome::Parsed(seq![a] + rest) && rest.len() >= 1,
{
    let next = off + a.length;
    assert(le_at(data, next, 4) != 0);
    if attributes_from(data, next) is Parsed {
        match attribute_of(data.subrange(next, data.len() as int)) {
            ParseOutcome::Parsed(b) => {},
            _ => {},
        }
    }
}

/// The signature of an MFT record: `b"FILE"`.
pub open spec fn file_signature() -> Seq<u8> {
    seq![0x46u8, 0x49u8, 0x4Cu8, 0x45u8]
}

/// The MFT entry a record's bytes hold: a record without the `FILE` signature is
/// refused.
pub open spec fn mft_entry_of(data: Seq<u8>) -> ParseOutcome<MftEntryView> {
    if data.len() < 4 {
        ParseOutcome::Malformed
    } else if data.subrange(0, 4) != file_signature() {
        ParseOutcome::Refused
    } else if data.len() < 42 {
        ParseOutcome::Malformed
    } else {
        match attributes_from(data, le_at(data, 20, 2) as int) {
            ParseOutcome::Parsed(attributes) => ParseOutcome::Parsed(
                MftEntryView {
                    signature: data.subrange(0, 4),
                    flags: le_at(data, 22, 2) as u16,
                    used_size: le_at(data, 24, 4) as u32,
                    allocated_size: le_at(data, 28, 4) as u32,
                    base_record: le_at(data, 32, 8) as u64,
                    next_attribute_id: le_at(data, 40, 2) as u16,
                    attributes,
                },
            ),
            ParseOutcome::Refused => ParseOutcome::Refused,
            ParseOutcome::Malformed => ParseOutcome::Malformed,
        }
    }
}

/// Whether a record's bytes can be parsed (to an entry or a refusal).
pub open spec fn mft_record_readable(data: Seq<u8>) -> bool {
    !(mft_entry_of(data) is Malformed)
}


/// Putting two accumulated lists in front of an outcome, one after the other,
/// puts their concatenation in front.
proof fn lemma_prepend_twice<A>(acc: Seq<A>, more: Seq<A>, o: ParseOutcome<Seq<A>>)
    ensures
        prepend(acc, prepend(more, o)) == prepend(acc + more, o),
{
    match o {
        ParseOutcome::Parsed(rest) => {
            assert(acc + (more + rest) =~= (acc + more) + rest);
        },
        _ => {},
    }
}

/// A refusal or a malformed structure stays so whatever is put in front.
proof fn lemma_prepend_fault<A>(acc: Seq<A>, o: ParseOutcome<Seq<A>>)
    ensures
        o is Refused ==> prepend(acc, o) is Refused,
        o is Malformed ==> prepend(acc, o) is Malformed,
{
}

/// Nothing in front of an outcome leaves it as it is.
proof fn lemma_prepend_empty<A>(o: ParseOutcome<Seq<A>>)
    ensures
        prepend(Seq::<A>::empty(), o) == o,
{
    match o {
        ParseOutcome::Parsed(rest) => {
            assert(Seq::<A>::empty() + rest =~= rest);
        },
        _ => {},
    }
}

/// The unsigned little-endian value of at most eight bytes.
fn parse_variable_int(data: &[u8]) -> (v: u64)
    requires
        data@.len() <= 8,
    ensures
        v == crate::engine::bytes::le_value(data@),
{
    let v = read_le(data, 0, data.len());
    assert(data@.subrange(0, data@.len() as int) =~= data@);
    v
}

/// The two's-complement little-endian value of at most eight bytes.
fn parse_signed_variable_int(data: &[u8]) -> (v: i64)
    requires
        data@.len() <= 8,
    ensures
        v == le_signed_value(data@),
{
    let v = read_le_signed(data, 0, data.len());
    assert(data@.subrange(0, data@.len() as int) =~= data@);
    v
}

/// Parses the data runs of a non-resident attribute from `run_offset`.
fn parse_data_runs(nr: &[u8], run_offset: usize) -> (r: Result<Vec<DataRun>, NtfsFault>)
    ensures
        agrees(r, runs_from(nr@, run_offset as int, 0)),
{
    let len = nr.len();
    let mut runs: Vec<DataRun> = Vec::new();
    let mut offset = run_offset;
    let mut current: i64 = 0;
    proof {
        lemma_prepend_empty(runs_from(nr@, run_offset as int, 0));
    }
    loop
        invariant
            len == nr@.len(),
            runs_from(nr@, run_offset as int, 0) == prepend(
                runs@,
                runs_from(nr@, offset as int, current as int),
            ),
        decreases len - offset,
    {
        if offset >= len || nr[offset] == 0 {
            assert(runs@ + Seq::<DataRun>::empty() =~= runs@);
            return Ok(runs);
        }
        let header = nr[offset];
        let delta_size = (header % 16) as usize;
        let count_size = (header / 16) as usize;
        let p = offset + 1;
        if count_size > 8 || count_size > len - p {
            return Err(NtfsFault::Malformed);
        }
        let count_bytes = slice_subrange(nr, p, p + count_size);
        let count = parse_variable_int(count_bytes);
        let q = p + count_size;
        if delta_size > 8 || delta_size > len - q {
            return Err(NtfsFault::Malformed);
        }
        let delta_bytes = slice_subrange(nr, q, q + delta_size);
        let delta = parse_signed_variable_int(delta_bytes);
        let next = match current.checked_add(delta) {
            Some(n) => n,
            None => {
                return Err(NtfsFault::Malformed);
            },
        };
        let run = DataRun { cluster_offset: next, cluster_count: count };
        proof {
            lemma_prepend_twice(runs@, seq![run], runs_from(nr@, (q + delta_size) as int, next as int));
            assert(runs@.push(run) =~= runs@ + seq![run]);
        }
        runs.push(run);
        offset = q + delta_size;
        current = next;
    }
}

/// Parses the non-resident part of an attribute from its bytes up to its length.
fn parse_non_resident_data(attr: &[u8]) -> (r: Result<AttributeData, NtfsFault>)
    ensures
        agrees(r, non_resident_of(attr@)),
{
    if attr.len() < 64 {
        return Err(NtfsFault::Malformed);
    }
    let start_vcn = read_u64(attr, 16);
    let end_vcn = read_u64(attr, 24);
    let run_offset = read_u16(attr, 32);
    let compression_unit_size = read_u16(attr, 34);
    let allocated_size = read_u64(attr, 40);
    let data_size = read_u64(attr, 48);
    let initialized_size = read_u64(attr, 56);
    match parse_data_runs(attr, run_offset as usize) {
        Ok(data_runs) => Ok(
            AttributeData::NonResident {
                start_vcn,
                end_vcn,
                run_offset,
                compression_unit_size,
                allocated_size,
                data_size,
                initialized_size,
                data_runs,
            },
        ),
        Err(e) => Err(e),
    }
}

/// The attribute type a type code names, if any.
fn attribute_type_from_code(code: u32) -> (t: Option<AttributeType>)
    ensures
        t == attribute_type_of(code),
{
    if code == 0x10 {
        Some(AttributeType::StandardInformation)
    } else if code == 0x20 {
        Some(AttributeType::AttributeList)
    } else if code == 0x30 {
        Some(AttributeType::FileName)
    } else if code == 0x40 {
        Some(AttributeType::ObjectId)
    } else if code == 0x50 {
        Some(AttributeType::SecurityDescriptor)
    } else if code == 0x60 {
        Some(AttributeType::VolumeName)
    } else if code == 0x70 {
        Some(AttributeType::VolumeInformation)
    } else if code == 0x80 {
        Some(AttributeType::Data)
    } else if code == 0x90 {
        Some(AttributeType::IndexRoot)
    } else if code == 0xA0 {
        Some(AttributeType::IndexAllocation)
    } else if code == 0xB0 {
        Some(AttributeType::Bitmap)
    } else if code == 0xC0 {
        Some(AttributeType::ReparsePoint)
    } else if code == 0xD0 {
        Some(AttributeType::EaInformation)
    } else if code == 0xE0 {
        Some(AttributeType::Ea)
    } else if code == 0x100 {
        Some(AttributeType::LoggedUtilityStream)
    } else if code == 0xFFFF_FFFF {
        Some(AttributeType::End)
    } else {
        None
    }
}

/// Parses the attribute whose bytes start at the start of `d`.
fn parse_attribute(d: &[u8]) -> (r: Result<MftAttribute, NtfsFault>)
    ensures
        agrees(r, attribute_of(d@)),
{
    reveal(attribute_of);
    if d.len() < 4 {
        return Err(NtfsFault::Malformed);
    }
    let attr_type = match attribute_type_from_code(read_u32(d, 0)) {
        Some(t) => t,
        None => {
            return Err(
                NtfsFault::Refused(
                    CrossCryptError::Crypto(String::from_str("Unknown attribute type")),
                ),
            );
        },
    };
    if d.len() < 16 {
        return Err(NtfsFault::Malformed);
    }
    let length = read_u32(d, 4);
    let non_resident = d[8] != 0;
    let name_length = d[9];
    let name_offset = read_u16(d, 10);
    let flags = read_u16(d, 12);
    let attribute_id = read_u16(d, 14);
    let data = if non_resident {
        if length < 16 || length as usize > d.len() {
            return Err(NtfsFault::Malformed);
        }
        let attr = slice_subrange(d, 0, length as usize);
        match parse_non_resident_data(attr) {
            Ok(data) => data,
            Err(e) => {
                return Err(e);
            },
        }
    } else {
        if d.len() < 22 {
            return Err(NtfsFault::Malformed);
        }
        let value_length = read_u32(d, 16) as usize;
        let value_offset = read_u16(d, 20) as usize;
        if value_offset > d.len() || value_length > d.len() - value_offset {
            return Err(NtfsFault::Malformed);
        }
        AttributeData::Resident { data: copy_range(d, value_offset, value_length) }
    };
    Ok(
        MftAttribute {
            attr_type,
            length,
            non_resident,
            name_length,
            name_offset,
            flags,
            attribute_id,
            data,
        },
    )
}

/// The first `n` bytes of a signature as `Debug` lists them: decimal numbers
/// separated by `", "`.
pub open spec fn byte_list_text(sig: Seq<u8>, n: nat) -> Seq<char>
    decreases n,
{
    if n == 0 {
        Seq::empty()
    } else if n == 1 {
        decimal_text(sig[0] as u64)
    } else {
        byte_list_text(sig, (n - 1) as nat) + ", "@ + decimal_text(sig[n - 1] as u64)
    }
}

/// The message for a record whose first bytes are `sig` instead of `FILE`:
/// `"Invalid MFT entry signature: [b0, b1, b2, b3]"`.
pub open spec fn bad_signature_text(sig: Seq<u8>) -> Seq<char> {
    "Invalid MFT entry signature: ["@ + byte_list_text(sig, 4) + "]"@
}

/// The message for a record without the `FILE` signature, naming its first bytes.
fn bad_signature_message(signature: &[u8; 4]) -> (msg: String)
    ensures
        msg@ == bad_signature_text(signature@),
{
    let mut msg = String::from_str("Invalid MFT entry signature: [");
    let ghost prefix = "Invalid MFT entry signature: ["@;
    let mut i: usize = 0;
    while i < 4
        invariant
            0 <= i <= 4,
            prefix == "Invalid MFT entry signature: ["@,
            msg@ == prefix + byte_list_text(signature@, i as nat),
        decreases 4 - i,
    {
        if i > 0 {
            msg.append(", ");
        }
        let text = u64_to_text(signature[i] as u64);
        msg.append(text.as_str());
        proof {
            reveal_with_fuel(byte_list_text, 2);
            assert(msg@ =~= prefix + byte_list_text(signature@, (i + 1) as nat));
        }
        i = i + 1;
    }
    msg.append("]");
    msg
}

/// Parses the attributes of a record from byte `start`.
fn parse_attributes(data: &[u8], start: usize) -> (r: Result<Vec<MftAttribute>, NtfsFault>)
    ensures
        match attributes_from(data@, start as int) {
            ParseOutcome::Parsed(v) => r matches Ok(a) && attribute_views(a@) == v,
            ParseOutcome::Refused => r matches Err(NtfsFault::Refused(e)) && e is Crypto,
            ParseOutcome::Malformed => r matches Err(NtfsFault::Malformed),
        },
{
    let len = data.len();
    let mut offset = start;
    let mut attributes: Vec<MftAttribute> = Vec::new();
    proof {
        assert(attribute_views(attributes@) =~= Seq::<MftAttributeView>::empty());
        lemma_prepend_empty(attributes_from(data@, start as int));
    }
    loop
        invariant_except_break
            attributes_from(data@, start as int) == prepend(
                attribute_views(attributes@),
                attributes_from(data@, offset as int),
            ),
        invariant
            len == data@.len(),
        ensures
            attributes_from(data@, start as int) == ParseOutcome::Parsed(attribute_views(attributes@)),
        decreases len - offset,
    {
        if offset > len || len - offset < 4 {
            assert(attribute_views(attributes@) + Seq::<MftAttributeView>::empty() =~= attribute_views(attributes@));
            break;
        }
        let code = read_u32(data, offset);
        if code == 0xFFFF_FFFFu32 || code == 0 {
            assert(attribute_views(attributes@) + Seq::<MftAttributeView>::empty() =~= attribute_views(attributes@));
            break;
        }
        let d = slice_subrange(data, offset, len);
        let parsed = parse_attribute(d);
        proof {
            assert(d@ == data@.subrange(offset as int, len as int));
            lemma_prepend_fault(attribute_views(attributes@), attributes_from(data@, offset as int));
        }
        let attr = match parsed {
            Ok(a) => a,
            Err(e) => {
                return Err(e);
            },
        };
        let length = attr.length as usize;
        if length == 0 || length > usize::MAX - 4 || offset > usize::MAX - 4 - length {
            return Err(NtfsFault::Malformed);
        }
        let next = offset + length;
        let ghost a = attr@;
        proof {
            lemma_prepend_twice(attribute_views(attributes@), seq![a], attributes_from(data@, next as int));
            assert(attribute_views(attributes@.push(attr)) =~= attribute_views(attributes@) + seq![a]);
        }
        attributes.push(attr);
        if next + 4 > len {
            assert(attribute_views(attributes@) + Seq::<MftAttributeView>::empty() =~= attribute_views(attributes@));
            assert(seq![a] + Seq::<MftAttributeView>::empty() =~= seq![a]);
            break;
        }
        offset = next;
    }
    Ok(attributes)
}

/// Parses an MFT record.
fn walk_mft_entry(data: &[u8]) -> (r: Result<MftEntry, NtfsFault>)
    ensures
        agrees(r, mft_entry_of(data@)),
{
    let len = data.len();
    if len < 4 {
        return Err(NtfsFault::Malformed);
    }
    let signature: [u8; 4] = [data[0], data[1], data[2], data[3]];
    if !(signature[0] == 0x46u8 && signature[1] == 0x49u8 && signature[2] == 0x4Cu8
        && signature[3] == 0x45u8) {
        assert(data@.subrange(0, 4) != file_signature()) by {
            if data@.subrange(0, 4) == file_signature() {
                assert(data@.subrange(0, 4)[0] == data@[0]);
                assert(data@.subrange(0, 4)[1] == data@[1]);
                assert(data@.subrange(0, 4)[2] == data@[2]);
                assert(data@.subrange(0, 4)[3] == data@[3]);
            }
        }
        return Err(NtfsFault::Refused(CrossCryptError::Crypto(bad_signature_message(&signature))));
    }
    assert(data@.subrange(0, 4) =~= file_signature());
    assert(signature@ =~= data@.subrange(0, 4));
    if len < 42 {
        return Err(NtfsFault::Malformed);
    }
    let flags = read_u16(data, 22);
    let used_size = read_u32(data, 24);
    let allocated_size = read_u32(data, 28);
    let base_record = read_u64(data, 32);
    let next_attribute_id = read_u16(data, 40);
    let start = read_u16(data, 20) as usize;
    let attributes = match parse_attributes(data, start) {
        Ok(a) => a,
        Err(e) => {
            return Err(e);
        },
    };
    Ok(
        MftEntry {
            signature,
            flags,
            used_size,
            allocated_size,
            base_record,
            next_attribute_id,
            attributes,
        },
    )
}

/// The signature of an NTFS boot sector at bytes 3..7: `b"NTFS"`.
pub open spec fn ntfs_signature() -> Seq<u8> {
    seq![0x4Eu8, 0x54u8, 0x46u8, 0x53u8]
}

/// The boot sector a volume's first block holds: a block without the NTFS
/// signature is refused.
pub open spec fn boot_sector_of(block: Seq<u8>) -> ParseOutcome<NtfsBootSector> {
    if block.len() < 7 {
        ParseOutcome::Malformed
    } else if block.subrange(3, 7) != ntfs_signature() {
        ParseOutcome::Refused
    } else if block.len() < 80 {
        ParseOutcome::Malformed
    } else {
        ParseOutcome::Parsed(
            NtfsBootSector {
                bytes_per_sector: le_at(block, 11, 2) as u16,
                sectors_per_cluster: block[13],
                total_sectors: le_at(block, 40, 8) as u64,
                mft_cluster: le_at(block, 48, 8) as u64,
                mft_mirror_cluster: le_at(block, 56, 8) as u64,
                clusters_per_mft_record: block[64] as i8,
                clusters_per_index_record: block[68] as i8,
                serial_number: le_at(block, 72, 8) as u64,
            },
        )
    }
}

/// Bytes per cluster.
pub open spec fn cluster_size_of(b: NtfsBootSector) -> int {
    b.bytes_per_sector * b.sectors_per_cluster
}

/// Bytes per MFT record: `2^-c` for a negative clusters-per-record value `c`,
/// else `c` clusters.
pub open spec fn mft_record_size_of(b: NtfsBootSector) -> int {
    if b.clusters_per_mft_record < 0 {
        pow2((-b.clusters_per_mft_record) as nat) as int
    } else {
        b.clusters_per_mft_record * cluster_size_of(b)
    }
}

/// Whether the boot sector can be read from a block: it is refused, or it is
/// complete and its record size `2^-c` fits in 64 bits.
pub open spec fn boot_sector_readable(block: Seq<u8>) -> bool {
    match boot_sector_of(block) {
        ParseOutcome::Parsed(b) => b.clusters_per_mft_record > -64,
        ParseOutcome::Refused => true,
        ParseOutcome::Malformed => false,
    }
}

/// The code units of a file name of `n` characters stored from byte 66.
pub open spec fn file_name_units(data: Seq<u8>, n: nat) -> Seq<u16> {
    Seq::new(n, |i: int| le_at(data, 66 + 2 * i, 2) as u16)
}

/// Whether a file-name attribute's bytes hold its fixed fields and its name.
pub open spec fn file_name_readable(data: Seq<u8>) -> bool {
    data.len() >= 66 && data.len() >= 66 + 2 * data[64]
}

/// Seconds between the NTFS epoch (1601) and the Unix epoch (1970).
pub const NTFS_EPOCH_OFFSET_SECS: u64 = 11_644_473_600;

/// Unix seconds of an NTFS time (100 ns intervals since 1601); times before
/// 1970 give 0.
pub open spec fn ntfs_unix_secs(ntfs_time: u64) -> int {
    let secs = ntfs_time / 10_000_000;
    if secs < NTFS_EPOCH_OFFSET_SECS {
        0
    } else {
        secs - NTFS_EPOCH_OFFSET_SECS
    }
}

/// A boot block with the given fields written, little-endian, at their places
/// in `b`: bytes per sector at 11, sectors per cluster at 13, total sectors at
/// 40, the MFT's and its mirror's clusters at 48 and 56, clusters per MFT and
/// per index record at 64 and 68, and the serial number at 72.
pub open spec fn boot_block_with(
    b: Seq<u8>,
    bytes_per_sector: u16,
    sectors_per_cluster: u8,
    total_sectors: u64,
    mft_cluster: u64,
    mft_mirror_cluster: u64,
    clusters_per_mft_record: u8,
    clusters_per_index_record: u8,
    serial_number: u64,
) -> Seq<u8> {
    b.subrange(0, 11) + le_bytes(bytes_per_sector as nat, 2) + seq![sectors_per_cluster]
        + b.subrange(14, 40) + le_bytes(total_sectors as nat, 8) + le_bytes(mft_cluster as nat, 8)
        + le_bytes(mft_mirror_cluster as nat, 8) + seq![clusters_per_mft_record] + b.subrange(65, 68)
        + seq![clusters_per_index_record] + b.subrange(69, 72) + le_bytes(serial_number as nat, 8)
        + b.subrange(80, b.len() as int)
}

/// The boot sector of a block marked `NTFS` at byte 3 reads back the fields
/// written into it, the record sizes as signed bytes.
pub proof fn lemma_boot_sector_reads_back(
    b: Seq<u8>,
    bytes_per_sector: u16,
    sectors_per_cluster: u8,
    total_sectors: u64,
    mft_cluster: u64,
    mft_mirror_cluster: u64,
    clusters_per_mft_record: u8,
    clusters_per_index_record: u8,
    serial_number: u64,
)
    requires
        b.len() >= 80,
        b.subrange(3, 7) == seq!['N' as u8, 'T' as u8, 'F' as u8, 'S' as u8],
    ensures
        boot_sector_of(
            boot_block_with(
                b,
                bytes_per_sector,
                sectors_per_cluster,
                total_sectors,
                mft_cluster,
                mft_mirror_cluster,
                clusters_per_mft_record,
                clusters_per_index_record,
                serial_number,
            ),
        ) == ParseOutcome::Parsed(
            NtfsBootSector {
                bytes_per_sector,
                sectors_per_cluster,
                total_sectors,
                mft_cluster,
                mft_mirror_cluster,
                clusters_per_mft_record: clusters_per_mft_record as i8,
                clusters_per_index_record: clusters_per_index_record as i8,
                serial_number,
            },
        ),
{
    lemma_pow256_facts_upto();
    crate::engine::bytes::lemma_pow256_facts(8);
    lemma_le_bytes_value(bytes_per_sector as nat, 2);
    lemma_le_bytes_value(total_sectors as nat, 8);
    lemma_le_bytes_value(mft_cluster as nat, 8);
    lemma_le_bytes_value(mft_mirror_cluster as nat, 8);
    lemma_le_bytes_value(serial_number as nat, 8);
    let d = boot_block_with(
        b,
        bytes_per_sector,
        sectors_per_cluster,
        total_sectors,
        mft_cluster,
        mft_mirror_cluster,
        clusters_per_mft_record,
        clusters_per_index_record,
        serial_number,
    );
    assert(d.len() == b.len());
    assert(d.subrange(3, 7) =~= b.subrange(3, 7));
    assert(d.subrange(11, 13) =~= le_bytes(bytes_per_sector as nat, 2));
    assert(d.subrange(40, 48) =~= le_bytes(total_sectors as nat, 8));
    assert(d.subrange(48, 56) =~= le_bytes(mft_cluster as nat, 8));
    assert(d.subrange(56, 64) =~= le_bytes(mft_mirror_cluster as nat, 8));
    assert(d.subrange(72, 80) =~= le_bytes(serial_number as nat, 8));
    assert(d[13] == sectors_per_cluster && d[64] == clusters_per_mft_record && d[68]
        == clusters_per_index_record);
}

/// An NTFS time counts 100 ns intervals from 1601, which lies 11,644,473,600
/// seconds before the Unix epoch: a time from 1970 on converts to the whole
/// Unix seconds `s` whose second it falls in, and an earlier one to 0.
pub proof fn lemma_ntfs_time_is_unix_seconds(ntfs_time: u64)
    ensures
        ntfs_time >= 116_444_736_000_000_000 ==> {
            let s = ntfs_unix_secs(ntfs_time);
            &&& s >= 0
            &&& 10_000_000 * (s + 11_644_473_600) <= ntfs_time
            &&& ntfs_time < 10_000_000 * (s + 1 + 11_644_473_600)
        },
        ntfs_time < 116_444_736_000_000_000 ==> ntfs_unix_secs(ntfs_time) == 0,
{
    vstd::arithmetic::div_mod::lemma_fundamental_div_mod(ntfs_time as int, 10_000_000);
}

/// Where an MFT record lies among the blocks of the volume.
#[derive(Debug, Clone, Copy, PartialEq, Eq, Structural)]
pub struct MftLocation {
    /// The first block holding the record.
    pub block_number: u64,
    /// How many blocks to read.
    pub blocks_needed: usize,
    /// Where the record starts in the first block.
    pub block_offset: usize,
    /// The record's size.
    pub record_size: usize,
}

/// A read-only NTFS file system over the decrypted blocks of a volume: the
/// parsed boot sector and a cache of parsed MFT entries. Reading blocks is the
/// caller's part.
pub struct NtfsFilesystem {
    sector_size: usize,
    boot_sector: Option<NtfsBootSector>,
    mft_cache: HashMap<u64, MftEntry>,
    cluster_size: u64,
    mft_record_size: u64,
}

impl NtfsFilesystem {
    /// The size of the blocks the volume is read in.
    pub closed spec fn block_size(&self) -> usize {
        self.sector_size
    }

    /// The parsed boot sector, once there is one.
    pub closed spec fn boot(&self) -> Option<NtfsBootSector> {
        self.boot_sector
    }

    /// Bytes per cluster (0 before the boot sector is parsed).
    pub closed spec fn cluster_bytes(&self) -> u64 {
        self.cluster_size
    }

    /// Bytes per MFT record (0 before the boot sector is parsed).
    pub closed spec fn record_bytes(&self) -> u64 {
        self.mft_record_size
    }

    /// The cached MFT entries, by record number.
    pub closed spec fn cached(&self) -> Map<u64, MftEntryView> {
        self.mft_cache@.map_values(|e: MftEntry| e@)
    }

    /// The file system's invariant: the cluster and record sizes are those of the
    /// parsed boot sector.
    pub closed spec fn wf(&self) -> bool {
        match self.boot_sector {
            Some(b) => self.cluster_size == cluster_size_of(b) && self.mft_record_size
                == mft_record_size_of(b),
            None => self.cluster_size == 0 && self.mft_record_size == 0,
        }
    }

    /// Whether the location of record `record` can be computed: the byte offset
    /// of the record fits in 64 bits, blocks are not empty, and the record size,
    /// its offset in the first block and one block together fit in a `usize`.
    pub closed spec fn location_in_range(&self, record: u64) -> bool {
        match self.boot_sector {
            None => true,
            Some(b) => {
                let base = b.mft_cluster * self.cluster_size;
                let within = record * self.mft_record_size;
                let offset = base + within;
                let record_size = (self.mft_record_size as usize) as int;
                &&& base <= u64::MAX
                &&& within <= u64::MAX
                &&& offset <= u64::MAX
                &&& self.sector_size > 0
                &&& record_size + (offset % (self.sector_size as int)) + self.sector_size
                    <= usize::MAX
            },
        }
    }

    /// The location of record `record`, when the boot sector is parsed.
    pub closed spec fn location_of(&self, record: u64) -> MftLocation {
        let b = self.boot_sector.unwrap();
        let offset = b.mft_cluster * self.cluster_size + record * self.mft_record_size;
        let ss = self.sector_size as int;
        let record_size = (self.mft_record_size as usize) as int;
        MftLocation {
            block_number: (offset / ss) as u64,
            blocks_needed: ((record_size + offset % ss + ss - 1) / ss) as usize,
            block_offset: (offset % ss) as usize,
            record_size: record_size as usize,
        }
    }

    /// A file system over blocks of `sector_size` bytes, with nothing parsed yet.
    pub fn new(sector_size: usize) -> (fs: Self)
        ensures
            fs.wf(),
            fs.block_size() == sector_size,
            fs.boot() is None,
            fs.cached() == Map::<u64, MftEntryView>::empty(),
    {
        let fs = NtfsFilesystem {
            sector_size,
            boot_sector: None,
            mft_cache: HashMap::new(),
            cluster_size: 0,
            mft_record_size: 0,
        };
        assert(fs.cached() =~= Map::<u64, MftEntryView>::empty());
        fs
    }

    /// Whether the boot sector can be read from a block (see
    /// `boot_sector_readable`).
    pub fn boot_sector_well_formed(block: &[u8]) -> (ok: bool)
        ensures
            ok == boot_sector_readable(block@),
    {
        if block.len() < 7 {
            return false;
        }
        if !(block[3] == 0x4Eu8 && block[4] == 0x54u8 && block[5] == 0x46u8 && block[6] == 0x53u8) {
            assert(block@.subrange(3, 7) != ntfs_signature()) by {
                if block@.subrange(3, 7) == ntfs_signature() {
                    assert(block@.subrange(3, 7)[0] == block@[3]);
                    assert(block@.subrange(3, 7)[1] == block@[4]);
                    assert(block@.subrange(3, 7)[2] == block@[5]);
                    assert(block@.subrange(3, 7)[3] == block@[6]);
                }
            }
            return true;
        }
        assert(block@.subrange(3, 7) =~= ntfs_signature());
        if block.len() < 80 {
            return false;
        }
        (block[64] as i8) > -64
    }

    /// Parses the boot sector from the volume's first block and derives the
    /// cluster and MFT record sizes; a block without the NTFS signature is
    /// refused and leaves the file system as it was.
    pub fn parse_boot_sector(&mut self, block: &[u8]) -> (r: Result<(), CrossCryptError>)
        requires
            old(self).wf(),
            boot_sector_readable(block@),
        ensures
            final(self).wf(),
            final(self).block_size() == old(self).block_size(),
            final(self).cached() == old(self).cached(),
            match boot_sector_of(block@) {
                ParseOutcome::Parsed(b) => r is Ok && final(self).boot() == Some(b)
                    && final(self).cluster_bytes() == cluster_size_of(b)
                    && final(self).record_bytes() == mft_record_size_of(b),
                _ => r matches Err(CrossCryptError::Crypto(m)) && m@ == "Not an NTFS filesystem"@
                    && final(self).boot() == old(self).boot()
                    && final(self).cluster_bytes() == old(self).cluster_bytes()
                    && final(self).record_bytes() == old(self).record_bytes(),
            },
    {
        if !(block[3] == 0x4Eu8 && block[4] == 0x54u8 && block[5] == 0x46u8 && block[6] == 0x53u8) {
            assert(block@.subrange(3, 7) != ntfs_signature()) by {
                if block@.subrange(3, 7) == ntfs_signature() {
                    assert(block@.subrange(3, 7)[0] == block@[3]);
                    assert(block@.subrange(3, 7)[1] == block@[4]);
                    assert(block@.subrange(3, 7)[2] == block@[5]);
                    assert(block@.subrange(3, 7)[3] == block@[6]);
                }
            }
            return Err(CrossCryptError::Crypto(String::from_str("Not an NTFS filesystem")));
        }
        assert(block@.subrange(3, 7) =~= ntfs_signature());
        let boot = NtfsBootSector {
            bytes_per_sector: read_u16(block, 11),
            sectors_per_cluster: block[13],
            total_sectors: read_u64(block, 40),
            mft_cluster: read_u64(block, 48),
            mft_mirror_cluster: read_u64(block, 56),
            clusters_per_mft_record: block[64] as i8,
            clusters_per_index_record: block[68] as i8,
            serial_number: read_u64(block, 72),
        };
        assert((boot.bytes_per_sector as u64) * (boot.sectors_per_cluster as u64) <= 65535 * 255)
            by (nonlinear_arith)
            requires
                boot.bytes_per_sector <= 65535,
                boot.sectors_per_cluster <= 255,
        ;
        let cluster_size = boot.bytes_per_sector as u64 * boot.sectors_per_cluster as u64;
        let record_size = if boot.clusters_per_mft_record < 0 {
            power_of_two((-boot.clusters_per_mft_record) as u32)
        } else {
            assert((boot.clusters_per_mft_record as u64) * cluster_size <= 127 * (65535 * 255))
                by (nonlinear_arith)
                requires
                    0 <= boot.clusters_per_mft_record <= 127,
                    cluster_size <= 65535 * 255,
            ;
            boot.clusters_per_mft_record as u64 * cluster_size
        };
        self.cluster_size = cluster_size;
        self.mft_record_size = record_size;
        self.boot_sector = Some(boot);
        Ok(())
    }

    /// The parsed boot sector, once there is one.
    pub fn boot_sector(&self) -> (b: Option<NtfsBootSector>)
        ensures
            b == self.boot(),
    {
        self.boot_sector
    }

    /// The cached entry of record `record`, if it was read before.
    pub fn cached_mft_entry(&self, record: u64) -> (e: Option<MftEntry>)
        ensures
            match e {
                Some(entry) => self.cached().contains_key(record) && entry@ == self.cached()[record],
                None => !self.cached().contains_key(record),
            },
    {
        match self.mft_cache.get(&record) {
            Some(entry) => Some(entry.clone()),
            None => None,
        }
    }

    /// Whether the location of record `record` can be computed (see
    /// `location_in_range`).
    pub fn mft_location_in_range(&self, record: u64) -> (ok: bool)
        ensures
            ok == self.location_in_range(record),
    {
        match self.boot_sector {
            None => true,
            Some(b) => {
                let base = match b.mft_cluster.checked_mul(self.cluster_size) {
                    Some(v) => v,
                    None => {
                        return false;
                    },
                };
                let within = match record.checked_mul(self.mft_record_size) {
                    Some(v) => v,
                    None => {
                        return false;
                    },
                };
                let offset = match base.checked_add(within) {
                    Some(v) => v,
                    None => {
                        return false;
                    },
                };
                if self.sector_size == 0 {
                    return false;
                }
                let record_size = self.mft_record_size as usize;
                let in_block = (offset % (self.sector_size as u64)) as usize;
                record_size <= usize::MAX - in_block && record_size + in_block <= usize::MAX
                    - self.sector_size
            },
        }
    }

    /// Where record `record` lies among the volume's blocks; an error before the
    /// boot sector is parsed.
    pub fn mft_entry_location(&self, record: u64) -> (r: Result<MftLocation, CrossCryptError>)
        requires
            self.wf(),
            self.location_in_range(record),
        ensures
            self.boot() is None ==> (r matches Err(CrossCryptError::Crypto(m)) && m@
                == "Boot sector not parsed"@),
            self.boot() is Some ==> r == Ok::<MftLocation, CrossCryptError>(self.location_of(record)),
    {
        let b = match self.boot_sector {
            Some(b) => b,
            None => {
                return Err(CrossCryptError::Crypto(String::from_str("Boot sector not parsed")));
            },
        };
        let offset = b.mft_cluster * self.cluster_size + record * self.mft_record_size;
        let ss = self.sector_size as u64;
        let block_number = offset / ss;
        let block_offset = (offset % ss) as usize;
        let record_size = self.mft_record_size as usize;
        assert(block_offset as int == (offset as int) % (self.sector_size as int));
        assert(offset == b.mft_cluster * self.cluster_size + record * self.mft_record_size);
        let blocks_needed = (record_size + block_offset + self.sector_size - 1) / self.sector_size;
        Ok(MftLocation { block_number, blocks_needed, block_offset, record_size })
    }

    /// Whether a record's bytes can be parsed, to an entry or a refusal.
    pub fn mft_record_well_formed(data: &[u8]) -> (ok: bool)
        ensures
            ok == mft_record_readable(data@),
    {
        match walk_mft_entry(data) {
            Err(NtfsFault::Malformed) => false,
            _ => true,
        }
    }

    /// Parses the bytes of record `record` and caches the entry; a record
    /// without the `FILE` signature or with an unknown attribute type is refused
    /// and nothing is cached.
    pub fn load_mft_entry(&mut self, record: u64, data: &[u8]) -> (r: Result<MftEntry, CrossCryptError>)
        requires
            mft_record_readable(data@),
        ensures
            final(self).wf() == old(self).wf(),
            final(self).boot() == old(self).boot(),
            final(self).block_size() == old(self).block_size(),
            match mft_entry_of(data@) {
                ParseOutcome::Parsed(v) => r matches Ok(e) && e@ == v && final(self).cached()
                    == old(self).cached().insert(record, v),
                _ => r matches Err(e) && e is Crypto && final(self).cached() == old(self).cached(),
            },
    {
        match self.parse_mft_entry(data) {
            Ok(entry) => {
                let ghost v = entry@;
                let cached = entry.clone();
                self.mft_cache.insert(record, cached);
                proof {
                    assert(self.cached() =~= old(self).cached().insert(record, v));
                }
                Ok(entry)
            },
            Err(e) => Err(e),
        }
    }

    /// Parses an MFT record.
    fn parse_mft_entry(&self, data: &[u8]) -> (r: Result<MftEntry, CrossCryptError>)
        requires
            mft_record_readable(data@),
        ensures
            match mft_entry_of(data@) {
                ParseOutcome::Parsed(v) => r matches Ok(e) && e@ == v,
                _ => r matches Err(e) && e is Crypto,
            },
    {
        match walk_mft_entry(data) {
            Ok(entry) => Ok(entry),
            Err(NtfsFault::Refused(e)) => Err(e),
            Err(NtfsFault::Malformed) => Err(CrossCryptError::Crypto(String::from_str("Malformed MFT record"))),
        }
    }

    /// Parses a file-name attribute.
    pub fn parse_file_name(data: &[u8]) -> (r: Result<FileNameAttr, CrossCryptError>)
        requires
            file_name_readable(data@),
        ensures
            r matches Ok(f) && {
                &&& f.parent_directory == le_at(data@, 0, 8)
                &&& f.creation_time == le_at(data@, 8, 8)
                &&& f.modification_time == le_at(data@, 16, 8)
                &&& f.mft_modification_time == le_at(data@, 24, 8)
                &&& f.access_time == le_at(data@, 32, 8)
                &&& f.allocated_size == le_at(data@, 40, 8)
                &&& f.data_size == le_at(data@, 48, 8)
                &&& f.flags == le_at(data@, 56, 4)
                &&& f.reparse_value == le_at(data@, 60, 4)
                &&& f.name_length == data@[64]
                &&& f.namespace == data@[65]
                &&& f.name@ == utf16_lossy(file_name_units(data@, data@[64] as nat))
            },
    {
        let name_length = data[64];
        let n = name_length as usize;
        let mut units: Vec<u16> = Vec::new();
        let mut i: usize = 0;
        while i < n
            invariant
                0 <= i <= n,
                n == data@[64],
                file_name_readable(data@),
                units@ == file_name_units(data@, i as nat),
            decreases n - i,
        {
            units.push(read_u16(data, 66 + 2 * i));
            i = i + 1;
            assert(units@ =~= file_name_units(data@, i as nat));
        }
        let name = string_from_utf16_lossy(units.as_slice());
        Ok(
            FileNameAttr {
                parent_directory: read_u64(data, 0),
                creation_time: read_u64(data, 8),
                modification_time: read_u64(data, 16),
                mft_modification_time: read_u64(data, 24),
                access_time: read_u64(data, 32),
                allocated_size: read_u64(data, 40),
                data_size: read_u64(data, 48),
                flags: read_u32(data, 56),
                reparse_value: read_u32(data, 60),
                name_length,
                namespace: data[65],
                name,
            },
        )
    }

    /// Unix seconds of an NTFS time (100 ns intervals since 1601); times before
    /// 1970 give 0.
    pub fn ntfs_time_to_unix_secs(ntfs_time: u64) -> (secs: u64)
        ensures
            secs == ntfs_unix_secs(ntfs_time),
            secs <= 1_844_674_407_370,
    {
        let secs = ntfs_time / 10_000_000;
        if secs < NTFS_EPOCH_OFFSET_SECS {
            0
        } else {
            secs - NTFS_EPOCH_OFFSET_SECS
        }
    }

    /// The system time of an NTFS time; times before 1970 give the Unix epoch.
    /// Times past what every platform's `SystemTime` holds (the Windows limit,
    /// some 28,900 years after 1970) are left out: adding them panics there.
    pub fn ntfs_time_to_systemtime(ntfs_time: u64) -> (t: std::time::SystemTime)
        requires
            ntfs_unix_secs(ntfs_time) <= MAX_SYSTEM_TIME_SECS,
        ensures
            t == system_time_after_epoch(ntfs_unix_secs(ntfs_time) as u64),
    {
        let secs = Self::ntfs_time_to_unix_secs(ntfs_time);
        system_time_from_unix_secs(secs)
    }

    /// File-system statistics: the cluster count and size from the boot sector;
    /// free space and file counts are not computed and read as 0.
    pub fn statfs(&self) -> (r: Result<Statfs, CrossCryptError>)
        requires
            self.wf(),
            self.boot() matches Some(b) ==> b.sectors_per_cluster != 0,
        ensures
            match self.boot() {
                Some(b) => r == Ok::<Statfs, CrossCryptError>(
                    Statfs {
                        blocks: (b.total_sectors / (b.sectors_per_cluster as u64)) as u64,
                        bfree: 0,
                        bavail: 0,
                        files: 0,
                        ffree: 0,
                        bsize: self.cluster_bytes() as u32,
                        namelen: 255,
                        frsize: self.cluster_bytes() as u32,
                    },
                ),
                None => r matches Err(CrossCryptError::Crypto(m)) && m@ == "Boot sector not parsed"@,
            },
    {
        let b = match self.boot_sector {
            Some(b) => b,
            None => {
                return Err(CrossCryptError::Crypto(String::from_str("Boot sector not parsed")));
            },
        };
        let total_clusters = b.total_sectors / (b.sectors_per_cluster as u64);
        Ok(
            Statfs {
                blocks: total_clusters,
                bfree: 0,
                bavail: 0,
                files: 0,
                ffree: 0,
                bsize: self.cluster_size as u32,
                namelen: 255,
                frsize: self.cluster_size as u32,
            },
        )
    }
}

/// `2^n` for `n < 64`.
fn power_of_two(n: u32) -> (v: u64)
    requires
        n < 64,
    ensures
        v == pow2(n as nat),
{
    proof {
        lemma2_to64_rest();
        vstd::arithmetic::power2::lemma2_to64();
    }
    let mut v: u64 = 1;
    let mut i: u32 = 0;
    while i < n
        invariant
            0 <= i <= n < 64,
            v == pow2(i as nat),
            pow2(63) == 0x8000_0000_0000_0000,
        decreases n - i,
    {
        proof {
            lemma_pow2_unfold((i + 1) as nat);
            if i + 1 < 63 {
                lemma_pow2_strictly_increases((i + 1) as nat, 63);
            }
        }
        v = v * 2;
        i = i + 1;
    }
    v
}

/// The location of an MFT record covers exactly its bytes: the record starts
/// `block_offset` bytes into block `block_number`, at the MFT's cluster plus
/// `record` records, the offset lies inside the block, and the blocks to read
/// are the fewest that hold the whole record from there.
pub proof fn lemma_location_covers_record(fs: NtfsFilesystem, record: u64)
    requires
        fs.boot() is Some,
        fs.location_in_range(record),
    ensures
        ({
            let loc = fs.location_of(record);
            let ss = fs.block_size() as int;
            let start = fs.boot().unwrap().mft_cluster * fs.cluster_bytes() + record * fs.record_bytes();
            &&& ss > 0
            &&& loc.block_number * ss + loc.block_offset == start
            &&& loc.block_offset < ss
            &&& loc.block_offset + loc.record_size <= loc.blocks_needed * ss
            &&& loc.blocks_needed > 0 ==> (loc.blocks_needed - 1) * ss < loc.block_offset
                + loc.record_size
        }),
{
    let b = fs.boot_sector.unwrap();
    let ss = fs.sector_size as int;
    let offset = b.mft_cluster * fs.cluster_size + record * fs.mft_record_size;
    let rs = (fs.mft_record_size as usize) as int;
    vstd::arithmetic::div_mod::lemma_fundamental_div_mod(offset, ss);
    let r = offset % ss;
    let x = rs + r + ss - 1;
    vstd::arithmetic::div_mod::lemma_fundamental_div_mod(x, ss);
    let n = x / ss;
    assert(n * ss >= rs + r && (n - 1) * ss < rs + r) by (nonlinear_arith)
        requires
            x == ss * n + x % ss,
            0 <= x % ss < ss,
            x == rs + r + ss - 1,
    ;
    assert((offset / ss) * ss + r == offset) by (nonlinear_arith)
        requires
            offset == ss * (offset / ss) + r,
    ;
}

} // verus!
