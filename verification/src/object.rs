//! The relocatable-object container's tables: the string table, the
//! symbol table and the relocation table, each with its exact byte
//! layout. Records are 16 bytes; strings are length-prefixed and padded
//! to 4-byte boundaries. The in-memory tables index strings by
//! position; the on-disk form names them by byte offset.

use vstd::prelude::*;
use crate::bytes::DeserializationError;
use crate::bytes::spec_u16_le;
use crate::bytes::spec_u32_le;
use crate::bytes::spec_le16_val;
use crate::bytes::spec_le32_val;
use crate::bytes::spec_zeros;
use crate::bytes::spec_pad_len;
use crate::bytes::spec_len_prefixed;
use crate::bytes::read_u8;
use crate::bytes::read_u16;
use crate::bytes::read_u32;
use crate::bytes::write_u16;
use crate::bytes::write_u32;
use crate::bytes::write_len_prefixed_str;

verus! {

/// The kind of patch a relocation applies.
#[derive(Clone, Copy, Debug, PartialEq, Eq, Structural)]
pub enum RelocationValue {
    UnusedEntry,
    RelCodeBType,
    RelCodeJType,
    RelUType,
    RelIType,
}

/// The on-disk kind number of a relocation value.
pub open spec fn spec_reloc_kind(v: RelocationValue) -> u16 {
    match v {
        RelocationValue::UnusedEntry => 0,
        RelocationValue::RelCodeBType => 1,
        RelocationValue::RelCodeJType => 2,
        RelocationValue::RelUType => 3,
        RelocationValue::RelIType => 4,
    }
}

/// The relocation value a kind number under 5 denotes.
pub open spec fn spec_reloc_value_of_kind(k: u16) -> RelocationValue {
    if k == 0 {
        RelocationValue::UnusedEntry
    } else if k == 1 {
        RelocationValue::RelCodeBType
    } else if k == 2 {
        RelocationValue::RelCodeJType
    } else if k == 3 {
        RelocationValue::RelUType
    } else {
        RelocationValue::RelIType
    }
}

/// One relocation: the code offset to patch, the symbol supplying the
/// target, and the patch kind.
#[derive(Clone, Copy, Debug, PartialEq, Eq, Structural)]
pub struct Relocation {
    pub offset: u32,
    pub symbol_index: u32,
    pub value: RelocationValue,
}

impl Relocation {
    /// The 16-byte record: offset, symbol index, kind, six reserved
    /// zero bytes.
    pub open spec fn spec_bytes(&self) -> Seq<u8> {
        spec_u32_le(self.offset) + spec_u32_le(self.symbol_index)
            + spec_u16_le(spec_reloc_kind(self.value)) + spec_zeros(6)
    }

    /// The symbol this relocation names.
    pub fn symbol<'a>(&self, symbol_table: &'a SymbolTable) -> (r: &'a Symbol)
        requires
            (self.symbol_index as int) < symbol_table.symbols@.len(),
        ensures
            *r == symbol_table.symbols@[self.symbol_index as int],
    {
        &symbol_table.symbols[self.symbol_index as usize]
    }

    /// Appends the relocation's 16-byte record.
    pub fn serialize(&self, out: &mut Vec<u8>)
        ensures
            final(out)@ == old(out)@ + self.spec_bytes(),
    {
        let ghost pre = out@;
        write_u32(out, self.offset);
        write_u32(out, self.symbol_index);
        let kind: u16 = match self.value {
            RelocationValue::UnusedEntry => 0,
            RelocationValue::RelCodeBType => 1,
            RelocationValue::RelCodeJType => 2,
            RelocationValue::RelUType => 3,
            RelocationValue::RelIType => 4,
        };
        write_u16(out, kind);
        out.push(0);
        out.push(0);
        out.push(0);
        out.push(0);
        out.push(0);
        out.push(0);
        proof {
            assert(out@ =~= pre + self.spec_bytes());
        }
    }

    /// Reads one relocation record at `pos`, as `spec_reloc_deser`
    /// describes.
    pub fn deserialize(buf: &Vec<u8>, pos: usize) -> (r: Result<
        (Relocation, usize),
        DeserializationError,
    >)
        ensures
            match r {
                Ok((rel, end)) => spec_reloc_deser(buf@, pos as int)
                    == Ok::<(Relocation, int), DeserializationError>((rel, end as int)),
                Err(e) => spec_reloc_deser(buf@, pos as int)
                    == Err::<(Relocation, int), DeserializationError>(e),
            },
    {
        let blen = buf.len();
        proof {
            assert(buf@.len() <= usize::MAX);
        }
        let (offset, p1) = match read_u32(buf, pos) {
            Ok(v) => v,
            Err(e) => {
                return Err(e);
            },
        };
        let (symbol_index, p2) = match read_u32(buf, p1) {
            Ok(v) => v,
            Err(e) => {
                return Err(e);
            },
        };
        let (kind, p3) = match read_u16(buf, p2) {
            Ok(v) => v,
            Err(e) => {
                return Err(e);
            },
        };
        if kind > 4 {
            return Err(DeserializationError::ReservedValue(kind as u32));
        }
        let (_, p4) = match read_u16(buf, p3) {
            Ok(v) => v,
            Err(e) => {
                return Err(e);
            },
        };
        let (_, p5) = match read_u32(buf, p4) {
            Ok(v) => v,
            Err(e) => {
                return Err(e);
            },
        };
        let value = if kind == 0 {
            RelocationValue::UnusedEntry
        } else if kind == 1 {
            RelocationValue::RelCodeBType
        } else if kind == 2 {
            RelocationValue::RelCodeJType
        } else if kind == 3 {
            RelocationValue::RelUType
        } else {
            RelocationValue::RelIType
        };
        Ok((Relocation { offset, symbol_index, value }, p5))
    }
}

/// Why a relocation cannot be applied to an instruction word.
#[derive(Clone, Copy, Debug, PartialEq, Eq, Structural)]
pub enum RelocationError {
    /// A branch or jump displacement outside the immediate's range,
    /// carrying the displacement.
    TargetTooFar(u32),
}

/// The offset of a code symbol, for the branch and jump patches.
pub open spec fn spec_code_offset(sym: Symbol) -> Option<u32> {
    match sym.value {
        SymbolValue::Code { offset, .. } => offset,
        _ => None,
    }
}

/// The offset of a code or data symbol, for the upper and lower
/// immediate patches.
pub open spec fn spec_code_or_data_offset(sym: Symbol) -> Option<u32> {
    match sym.value {
        SymbolValue::Code { offset, .. } => offset,
        SymbolValue::Data { offset, .. } => offset,
        _ => None,
    }
}

/// A 13-bit branch displacement scattered into the B-type immediate
/// fields, added onto the word (wrapping, as the fields are expected to
/// start zero).
pub open spec fn spec_btype_patch(insn: u32, imm: u32) -> u32 {
    let a = vstd::wrapping::u32_specs::wrapping_add(insn, ((imm << 19) >> 31) << 31);
    let b = vstd::wrapping::u32_specs::wrapping_add(a, ((imm << 21) >> 26) << 25);
    let c = vstd::wrapping::u32_specs::wrapping_add(b, ((imm << 27) >> 28) << 8);
    vstd::wrapping::u32_specs::wrapping_add(c, ((imm << 20) >> 31) << 7)
}

/// A 21-bit jump displacement scattered into the J-type immediate
/// fields.
pub open spec fn spec_jtype_patch(insn: u32, imm: u32) -> u32 {
    let a = vstd::wrapping::u32_specs::wrapping_add(insn, ((imm << 11) >> 31) << 31);
    let b = vstd::wrapping::u32_specs::wrapping_add(a, ((imm << 21) >> 22) << 21);
    let c = vstd::wrapping::u32_specs::wrapping_add(b, ((imm << 20) >> 31) << 20);
    vstd::wrapping::u32_specs::wrapping_add(c, ((imm << 12) >> 24) << 12)
}

/// The upper-immediate patch: the displacement's top 20 bits, rounded
/// by its bit 11 to counteract the sign extension of the paired lower
/// immediate, added onto the word's upper immediate.
pub open spec fn spec_utype_patch(insn: u32, dis32: u32) -> u32 {
    let dis20 = vstd::wrapping::u32_specs::wrapping_add(dis32 >> 12, (dis32 >> 11) & 1)
        & 0xF_FFFF;
    let imm20 = vstd::wrapping::u32_specs::wrapping_add(insn >> 12, dis20) & 0xF_FFFF;
    ((insn & 0xFFF) + (imm20 << 12)) as u32
}

/// The lower-immediate patch: the displacement's low 12 bits added onto
/// the word's I-type immediate.
pub open spec fn spec_itype_patch(insn: u32, dis32: u32) -> u32 {
    let dis12 = dis32 & 0xFFF;
    let imm12 = vstd::wrapping::u32_specs::wrapping_add(insn >> 20, dis12) & 0xFFF;
    ((insn & 0xF_FFFF) + (imm12 << 20)) as u32
}

/// What applying a relocation yields: branches and jumps whose
/// displacement exceeds the immediate's range are refused; the other
/// kinds always patch.
pub open spec fn spec_reloc_apply(rel: Relocation, insn: u32, sym: Symbol) -> Result<
    u32,
    RelocationError,
> {
    match rel.value {
        RelocationValue::UnusedEntry => Ok(insn),
        RelocationValue::RelCodeBType => {
            let imm = vstd::wrapping::u32_specs::wrapping_sub(
                spec_code_offset(sym)->Some_0,
                rel.offset,
            );
            if imm >= 0x2000 && vstd::wrapping::u32_specs::wrapping_sub(0u32, imm) >= 0x2000 {
                Err(RelocationError::TargetTooFar(imm))
            } else {
                Ok(spec_btype_patch(insn, imm))
            }
        },
        RelocationValue::RelCodeJType => {
            let imm = vstd::wrapping::u32_specs::wrapping_sub(
                spec_code_offset(sym)->Some_0,
                rel.offset,
            );
            if imm >= 0x20_0000 && vstd::wrapping::u32_specs::wrapping_sub(0u32, imm)
                >= 0x20_0000 {
                Err(RelocationError::TargetTooFar(imm))
            } else {
                Ok(spec_jtype_patch(insn, imm))
            }
        },
        RelocationValue::RelUType => Ok(
            spec_utype_patch(
                insn,
                vstd::wrapping::u32_specs::wrapping_sub(
                    spec_code_or_data_offset(sym)->Some_0,
                    rel.offset,
                ),
            ),
        ),
        RelocationValue::RelIType => Ok(
            spec_itype_patch(
                insn,
                vstd::wrapping::u32_specs::wrapping_sub(
                    spec_code_or_data_offset(sym)->Some_0,
                    rel.offset,
                ),
            ),
        ),
    }
}

impl Relocation {
    /// Patches the instruction word at this relocation's offset with the
    /// symbol's position, as `spec_reloc_apply` describes. The symbol
    /// must be local, defined, and of the kind the patch reads (a code
    /// symbol for branches and jumps; code or data for the immediate
    /// patches); an unused relocation cannot be applied. The immediate
    /// fields are expected to start zero: a nonzero initial field wraps
    /// into the neighboring fields rather than carrying.
    pub fn apply(&self, insn: u32, symbol_table: &SymbolTable) -> (r: Result<
        u32,
        RelocationError,
    >)
        requires
            (self.symbol_index as int) < symbol_table.symbols@.len(),
            !symbol_table.symbols@[self.symbol_index as int].spec_is_external(),
            match self.value {
                RelocationValue::UnusedEntry => false,
                RelocationValue::RelCodeBType => spec_code_offset(
                    symbol_table.symbols@[self.symbol_index as int],
                ) is Some,
                RelocationValue::RelCodeJType => spec_code_offset(
                    symbol_table.symbols@[self.symbol_index as int],
                ) is Some,
                RelocationValue::RelUType => spec_code_or_data_offset(
                    symbol_table.symbols@[self.symbol_index as int],
                ) is Some,
                RelocationValue::RelIType => spec_code_or_data_offset(
                    symbol_table.symbols@[self.symbol_index as int],
                ) is Some,
            },
        ensures
            r == spec_reloc_apply(*self, insn, symbol_table.symbols@[self.symbol_index as int]),
    {
        let symbol = self.symbol(symbol_table);
        match self.value {
            RelocationValue::UnusedEntry => {
                proof {
                    assert(false);
                }
                Ok(insn)
            },
            RelocationValue::RelCodeBType => {
                let symbol_offset = match symbol.value {
                    SymbolValue::Code { offset: Some(o), .. } => o,
                    _ => {
                        proof {
                            assert(false);
                        }
                        0
                    },
                };
                let imm13 = symbol_offset.wrapping_sub(self.offset);
                if imm13 >= 0x2000 && 0u32.wrapping_sub(imm13) >= 0x2000 {
                    return Err(RelocationError::TargetTooFar(imm13));
                }
                let mut v = insn;
                v = v.wrapping_add(((imm13 << 19) >> 31) << 31);
                v = v.wrapping_add(((imm13 << 21) >> 26) << 25);
                v = v.wrapping_add(((imm13 << 27) >> 28) << 8);
                v = v.wrapping_add(((imm13 << 20) >> 31) << 7);
                Ok(v)
            },
            RelocationValue::RelCodeJType => {
                let symbol_offset = match symbol.value {
                    SymbolValue::Code { offset: Some(o), .. } => o,
                    _ => {
                        proof {
                            assert(false);
                        }
                        0
                    },
                };
                let imm21 = symbol_offset.wrapping_sub(self.offset);
                if imm21 >= 0x20_0000 && 0u32.wrapping_sub(imm21) >= 0x20_0000 {
                    return Err(RelocationError::TargetTooFar(imm21));
                }
                let mut v = insn;
                v = v.wrapping_add(((imm21 << 11) >> 31) << 31);
                v = v.wrapping_add(((imm21 << 21) >> 22) << 21);
                v = v.wrapping_add(((imm21 << 20) >> 31) << 20);
                v = v.wrapping_add(((imm21 << 12) >> 24) << 12);
                Ok(v)
            },
            RelocationValue::RelUType => {
                let symbol_offset = match symbol.value {
                    SymbolValue::Code { offset: Some(o), .. } => o,
                    SymbolValue::Data { offset: Some(o), .. } => o,
                    _ => {
                        proof {
                            assert(false);
                        }
                        0
                    },
                };
                let dis32 = symbol_offset.wrapping_sub(self.offset);
                let dis20 = (dis32 >> 12).wrapping_add((dis32 >> 11) & 1) & 0xF_FFFF;
                let raw20 = (insn >> 12).wrapping_add(dis20);
                let imm20 = raw20 & 0xF_FFFF;
                proof {
                    assert((insn & 0xFFF) + ((raw20 & 0xF_FFFFu32) << 12) <= u32::MAX)
                        by (bit_vector);
                }
                Ok((insn & 0xFFF) + (imm20 << 12))
            },
            RelocationValue::RelIType => {
                let symbol_offset = match symbol.value {
                    SymbolValue::Code { offset: Some(o), .. } => o,
                    SymbolValue::Data { offset: Some(o), .. } => o,
                    _ => {
                        proof {
                            assert(false);
                        }
                        0
                    },
                };
                let dis12 = symbol_offset.wrapping_sub(self.offset) & 0xFFF;
                let raw12 = (insn >> 20).wrapping_add(dis12);
                let imm12 = raw12 & 0xFFF;
                proof {
                    assert((insn & 0xF_FFFF) + ((raw12 & 0xFFFu32) << 20) <= u32::MAX)
                        by (bit_vector);
                }
                Ok((insn & 0xF_FFFF) + (imm12 << 20))
            },
        }
    }
}

/// What reading one relocation record yields: a record cut short is a
/// premature end, a kind above 4 is reserved, and the reserved bytes
/// are skipped without inspection.
pub open spec fn spec_reloc_deser(buf: Seq<u8>, pos: int) -> Result<
    (Relocation, int),
    DeserializationError,
> {
    if pos + 10 > buf.len() {
        Err(DeserializationError::PrematureEnd)
    } else {
        let offset = spec_le32_val(buf[pos], buf[pos + 1], buf[pos + 2], buf[pos + 3]);
        let symbol_index = spec_le32_val(buf[pos + 4], buf[pos + 5], buf[pos + 6], buf[pos + 7]);
        let kind = spec_le16_val(buf[pos + 8], buf[pos + 9]);
        if kind > 4 {
            Err(DeserializationError::ReservedValue(kind as u32))
        } else if pos + 16 > buf.len() {
            Err(DeserializationError::PrematureEnd)
        } else {
            Ok((
                Relocation { offset, symbol_index, value: spec_reloc_value_of_kind(kind) },
                pos + 16,
            ))
        }
    }
}

/// The relocations of one object, in record order.
#[derive(Debug, PartialEq, Eq)]
pub struct RelocationTable {
    pub relocations: Vec<Relocation>,
}

impl Default for RelocationTable {
    fn default() -> (r: Self)
        ensures
            r.relocations@ == Seq::<Relocation>::empty(),
    {
        RelocationTable { relocations: Vec::new() }
    }
}

/// The concatenated records of the relocations from index `i` on.
pub open spec fn spec_relocs_bytes(rs: Seq<Relocation>, i: int) -> Seq<u8>
    decreases rs.len() - i,
{
    if i < 0 || i >= rs.len() {
        Seq::empty()
    } else {
        rs[i].spec_bytes() + spec_relocs_bytes(rs, i + 1)
    }
}

/// What reading `len` bytes of relocation records yields (`len` a
/// multiple of 16).
pub open spec fn spec_reloc_table_deser(buf: Seq<u8>, pos: int, len: u32) -> Result<
    (Seq<Relocation>, int),
    DeserializationError,
>
    decreases len,
{
    if len == 0 {
        Ok((Seq::empty(), pos))
    } else {
        match spec_reloc_deser(buf, pos) {
            Err(e) => Err(e),
            Ok((rel, p2)) => {
                let rest = if len >= 16 { (len - 16) as u32 } else { 0u32 };
                match spec_reloc_table_deser(buf, p2, rest) {
                    Err(e) => Err(e),
                    Ok((tail, p3)) => Ok((seq![rel] + tail, p3)),
                }
            },
        }
    }
}

impl RelocationTable {
    /// The table's bytes: each relocation's record, in order.
    pub open spec fn spec_bytes(&self) -> Seq<u8> {
        spec_relocs_bytes(self.relocations@, 0)
    }

    /// Appends every relocation's record.
    pub fn serialize(&self, out: &mut Vec<u8>)
        ensures
            final(out)@ == old(out)@ + self.spec_bytes(),
    {
        let ghost pre = out@;
        let mut i: usize = 0;
        while i < self.relocations.len()
            invariant
                i <= self.relocations@.len(),
                out@ + spec_relocs_bytes(self.relocations@, i as int)
                    == pre + spec_relocs_bytes(self.relocations@, 0),
            decreases self.relocations@.len() - i,
        {
            let ghost old_out = out@;
            self.relocations[i].serialize(out);
            proof {
                assert(spec_relocs_bytes(self.relocations@, i as int)
                    == self.relocations@[i as int].spec_bytes()
                        + spec_relocs_bytes(self.relocations@, i + 1));
                assert(out@ + spec_relocs_bytes(self.relocations@, i + 1)
                    =~= old_out + spec_relocs_bytes(self.relocations@, i as int));
            }
            i = i + 1;
        }
        proof {
            assert(out@ =~= pre + spec_relocs_bytes(self.relocations@, 0));
        }
    }

    /// Reads a relocation table of `len` bytes at `pos`: `len` must be
    /// a multiple of the 16-byte record size.
    pub fn deserialize(buf: &Vec<u8>, pos: usize, len: u32) -> (r: Result<
        (Self, usize),
        DeserializationError,
    >)
        ensures
            len & 0xF != 0 ==> r == Err::<(Self, usize), DeserializationError>(
                DeserializationError::PrematureEnd,
            ),
            len & 0xF == 0 ==> match r {
                Ok((t, end)) => spec_reloc_table_deser(buf@, pos as int, len)
                    == Ok::<(Seq<Relocation>, int), DeserializationError>(
                    (t.relocations@, end as int),
                ),
                Err(e) => spec_reloc_table_deser(buf@, pos as int, len)
                    == Err::<(Seq<Relocation>, int), DeserializationError>(e),
            },
    {
        proof {
            assert(len & 0xF == len % 16) by (bit_vector);
        }
        if len & 0xF != 0 {
            return Err(DeserializationError::PrematureEnd);
        }
        let blen = buf.len();
        proof {
            assert(buf@.len() <= usize::MAX);
        }
        let mut relocations: Vec<Relocation> = Vec::new();
        let mut cur = pos;
        let mut count: u32 = 0;
        while count < len
            invariant
                count <= len,
                len & 0xF == 0,
                len % 16 == 0,
                count % 16 == 0,
                buf@.len() <= usize::MAX,
                match spec_reloc_table_deser(buf@, cur as int, (len - count) as u32) {
                    Err(e) => spec_reloc_table_deser(buf@, pos as int, len)
                        == Err::<(Seq<Relocation>, int), DeserializationError>(e),
                    Ok((tail, end)) => spec_reloc_table_deser(buf@, pos as int, len)
                        == Ok::<(Seq<Relocation>, int), DeserializationError>(
                        (relocations@ + tail, end),
                    ),
                },
            decreases len - count,
        {
            proof {
                assert(count < len && count % 16 == 0 && len % 16 == 0 ==> len - count >= 16)
                    by (bit_vector);
            }
            let (rel, p2) = match Relocation::deserialize(buf, cur) {
                Ok(v) => v,
                Err(e) => {
                    return Err(e);
                },
            };
            proof {
                if let Ok((tail, end)) = spec_reloc_table_deser(
                    buf@,
                    p2 as int,
                    (len - count - 16) as u32,
                ) {
                    assert(relocations@ + (seq![rel] + tail)
                        =~= (relocations@ + seq![rel]) + tail);
                }
            }
            let ghost old_rels = relocations@;
            relocations.push(rel);
            proof {
                assert(relocations@ =~= old_rels + seq![rel]);
            }
            cur = p2;
            count = count + 16;
        }
        proof {
            assert(spec_reloc_table_deser(buf@, cur as int, 0)
                == Ok::<(Seq<Relocation>, int), DeserializationError>((Seq::empty(), cur as int)));
            assert(relocations@ + Seq::<Relocation>::empty() =~= relocations@);
        }
        Ok((RelocationTable { relocations }, cur))
    }
}

/// The string table: each entry holds the byte offset the string has
/// in the serialized table and the string's bytes. Equal strings may
/// repeat; lookups by value find the first occurrence.
#[derive(Debug, PartialEq, Eq)]
pub struct StringTable {
    /// The serialized size so far: the next inserted string's offset.
    pub len: u32,
    pub strings: Vec<(u32, Vec<u8>)>,
}

impl Default for StringTable {
    fn default() -> (r: Self)
        ensures
            r.len == 0,
            r.strings@ == Seq::<(u32, Vec<u8>)>::empty(),
    {
        StringTable { len: 0, strings: Vec::new() }
    }
}

/// The first table index whose string equals `s`, from `i` on.
pub open spec fn spec_str_index(entries: Seq<(u32, Seq<u8>)>, s: Seq<u8>, i: int) -> Option<int>
    decreases entries.len() - i,
{
    if i < 0 || i >= entries.len() {
        None
    } else if entries[i].1 == s {
        Some(i)
    } else {
        spec_str_index(entries, s, i + 1)
    }
}

/// The first table index whose string sits at byte offset `off`, from
/// `i` on.
pub open spec fn spec_offset_index(entries: Seq<(u32, Seq<u8>)>, off: u32, i: int) -> Option<int>
    decreases entries.len() - i,
{
    if i < 0 || i >= entries.len() {
        None
    } else if entries[i].0 == off {
        Some(i)
    } else {
        spec_offset_index(entries, off, i + 1)
    }
}

/// A found string index is in range and names the string.
pub proof fn lemma_str_index_bounds(entries: Seq<(u32, Seq<u8>)>, s: Seq<u8>, k: int)
    ensures
        match spec_str_index(entries, s, k) {
            Some(i) => k <= i < entries.len() && entries[i].1 == s,
            None => true,
        },
    decreases entries.len() - k,
{
    if 0 <= k < entries.len() && entries[k].1 != s {
        lemma_str_index_bounds(entries, s, k + 1);
    }
}

/// A found offset index is in range and sits at the offset.
pub proof fn lemma_offset_index_bounds(entries: Seq<(u32, Seq<u8>)>, off: u32, k: int)
    ensures
        match spec_offset_index(entries, off, k) {
            Some(i) => k <= i < entries.len() && entries[i].0 == off,
            None => true,
        },
    decreases entries.len() - k,
{
    if 0 <= k < entries.len() && entries[k].0 != off {
        lemma_offset_index_bounds(entries, off, k + 1);
    }
}

/// The serialized size of one string record.
pub open spec fn spec_aligned_size(n: int) -> int {
    4 + n + spec_pad_len(n)
}

/// The concatenated records of the strings from index `i` on.
pub open spec fn spec_strings_bytes(entries: Seq<(u32, Seq<u8>)>, i: int) -> Seq<u8>
    decreases entries.len() - i,
{
    if i < 0 || i >= entries.len() {
        Seq::empty()
    } else {
        spec_len_prefixed(entries[i].1) + spec_strings_bytes(entries, i + 1)
    }
}

/// Copies a byte string.
fn copy_bytes(s: &Vec<u8>) -> (r: Vec<u8>)
    ensures
        r@ == s@,
{
    let mut r: Vec<u8> = Vec::new();
    let mut i: usize = 0;
    while i < s.len()
        invariant
            i <= s@.len(),
            r@ == s@.take(i as int),
        decreases s@.len() - i,
    {
        r.push(s[i]);
        proof {
            assert(r@ =~= s@.take(i + 1));
        }
        i = i + 1;
    }
    proof {
        assert(s@.take(s@.len() as int) =~= s@);
    }
    r
}

/// Compares two byte strings.
fn bytes_eq(a: &Vec<u8>, b: &Vec<u8>) -> (r: bool)
    ensures
        r == (a@ == b@),
{
    if a.len() != b.len() {
        proof {
            assert(a@.len() != b@.len());
        }
        return false;
    }
    let mut i: usize = 0;
    while i < a.len()
        invariant
            i <= a@.len(),
            a@.len() == b@.len(),
            forall|k: int| 0 <= k < i ==> a@[k] == b@[k],
        decreases a@.len() - i,
    {
        if a[i] != b[i] {
            proof {
                assert(a@[i as int] != b@[i as int]);
            }
            return false;
        }
        i = i + 1;
    }
    proof {
        assert(a@ =~= b@);
    }
    true
}

impl StringTable {
    /// The table's entries as offsets and byte sequences.
    pub open spec fn spec_entries(&self) -> Seq<(u32, Seq<u8>)> {
        Seq::new(self.strings@.len(), |i: int| (self.strings@[i].0, self.strings@[i].1@))
    }

    /// Appends a string record: its offset is the table's size so far,
    /// which grows by the aligned record size. Returns the new index.
    /// The value-to-index lookups always find the first occurrence, so
    /// a repeated string leaves lookups unchanged.
    fn insert(&mut self, s: Vec<u8>) -> (r: u32)
        requires
            old(self).len + spec_aligned_size(s@.len() as int) <= u32::MAX,
            old(self).strings@.len() < u32::MAX,
        ensures
            final(self).strings@ == old(self).strings@ + seq![(old(self).len, s)],
            final(self).len == old(self).len + spec_aligned_size(s@.len() as int),
            r as int == old(self).strings@.len(),
    {
        let offset = self.len;
        let index = self.strings.len() as u32;
        let slen = s.len();
        let padding: usize = if slen % 4 == 0 {
            0
        } else {
            4 - slen % 4
        };
        self.len = self.len + 4 + (slen as u32) + (padding as u32);
        let ghost pre = self.strings@;
        self.strings.push((offset, s));
        proof {
            assert(self.strings@ =~= pre + seq![(offset, self.strings@[pre.len() as int].1)]);
        }
        index
    }

    /// The index of `s`, inserting it first when absent.
    pub fn get_index_or_insert(&mut self, s: &Vec<u8>) -> (r: u32)
        requires
            old(self).len + spec_aligned_size(s@.len() as int) <= u32::MAX,
            old(self).strings@.len() < u32::MAX,
        ensures
            match spec_str_index(old(self).spec_entries(), s@, 0) {
                Some(i) => *final(self) == *old(self) && r as int == i,
                None => {
                    &&& final(self).strings@.len() == old(self).strings@.len() + 1
                    &&& forall|k: int| 0 <= k < old(self).strings@.len()
                        ==> final(self).strings@[k] == old(self).strings@[k]
                    &&& final(self).strings@.last().0 == old(self).len
                    &&& final(self).strings@.last().1@ == s@
                    &&& final(self).len == old(self).len + spec_aligned_size(s@.len() as int)
                    &&& r as int == old(self).strings@.len()
                },
            },
    {
        let ghost entries = self.spec_entries();
        let mut i: usize = 0;
        while i < self.strings.len()
            invariant
                i <= self.strings@.len(),
                self.strings@.len() < u32::MAX,
                entries == self.spec_entries(),
                spec_str_index(entries, s@, 0) == spec_str_index(entries, s@, i as int),
                self == old(self),
            decreases self.strings@.len() - i,
        {
            if bytes_eq(&self.strings[i].1, s) {
                proof {
                    assert(entries[i as int].1 == s@);
                    assert(spec_str_index(entries, s@, i as int) == Some(i as int));
                }
                return i as u32;
            }
            proof {
                assert(entries[i as int].1 != s@);
            }
            i = i + 1;
        }
        let copied = copy_bytes(s);
        self.insert(copied)
    }

    /// The byte offset of `s` in the serialized table, inserting it
    /// first when absent.
    pub fn get_offset_or_insert(&mut self, s: &Vec<u8>) -> (r: u32)
        requires
            old(self).len + spec_aligned_size(s@.len() as int) <= u32::MAX,
            old(self).strings@.len() < u32::MAX,
        ensures
            match spec_str_index(old(self).spec_entries(), s@, 0) {
                Some(i) => *final(self) == *old(self) && r == old(self).spec_entries()[i].0,
                None => {
                    &&& final(self).strings@.len() == old(self).strings@.len() + 1
                    &&& forall|k: int| 0 <= k < old(self).strings@.len()
                        ==> final(self).strings@[k] == old(self).strings@[k]
                    &&& final(self).strings@.last().0 == old(self).len
                    &&& final(self).strings@.last().1@ == s@
                    &&& final(self).len == old(self).len + spec_aligned_size(s@.len() as int)
                    &&& r == old(self).len
                },
            },
    {
        proof {
            lemma_str_index_bounds(self.spec_entries(), s@, 0);
        }
        let index = self.get_index_or_insert(s);
        self.strings[index as usize].0
    }

    /// Appends every string's record, in table order.
    pub fn serialize(&self, out: &mut Vec<u8>)
        requires
            forall|k: int| 0 <= k < self.spec_entries().len()
                ==> (#[trigger] self.spec_entries()[k]).1.len() <= u32::MAX,
            old(out)@.len() + spec_strings_bytes(self.spec_entries(), 0).len() + 7 <= usize::MAX,
        ensures
            final(out)@ == old(out)@ + spec_strings_bytes(self.spec_entries(), 0),
    {
        let ghost entries = self.spec_entries();
        let ghost pre = out@;
        let mut i: usize = 0;
        while i < self.strings.len()
            invariant
                i <= self.strings@.len(),
                entries == self.spec_entries(),
                entries.len() == self.strings@.len(),
                forall|k: int| 0 <= k < entries.len()
                    ==> (#[trigger] entries[k]).1.len() <= u32::MAX,
                pre.len() + spec_strings_bytes(entries, 0).len() + 7 <= usize::MAX,
                out@ + spec_strings_bytes(entries, i as int)
                    == pre + spec_strings_bytes(entries, 0),
            decreases self.strings@.len() - i,
        {
            let ghost old_out = out@;
            proof {
                assert(spec_strings_bytes(entries, i as int)
                    == spec_len_prefixed(entries[i as int].1)
                        + spec_strings_bytes(entries, i + 1));
                lemma_strings_bytes_len(entries, i as int);
                assert((out@ + spec_strings_bytes(entries, i as int)).len()
                    == (pre + spec_strings_bytes(entries, 0)).len());
                assert(out@.len() + spec_strings_bytes(entries, i as int).len()
                    == pre.len() + spec_strings_bytes(entries, 0).len());
                assert(spec_len_prefixed(entries[i as int].1).len()
                    == 4 + entries[i as int].1.len()
                        + spec_pad_len(entries[i as int].1.len() as int));
                assert(entries[i as int].1 == self.strings@[i as int].1@);
            }
            write_len_prefixed_str(out, &self.strings[i].1);
            proof {
                assert(out@ + spec_strings_bytes(entries, i + 1)
                    =~= old_out + spec_strings_bytes(entries, i as int));
            }
            i = i + 1;
        }
        proof {
            assert(out@ =~= pre + spec_strings_bytes(entries, 0));
        }
    }
}

/// A suffix of the table's records is no longer than the whole.
proof fn lemma_strings_bytes_len(entries: Seq<(u32, Seq<u8>)>, i: int)
    requires
        0 <= i <= entries.len(),
    ensures
        spec_strings_bytes(entries, i).len() <= spec_strings_bytes(entries, 0).len(),
    decreases i,
{
    if i > 0 {
        lemma_strings_bytes_len_step(entries, i - 1);
        lemma_strings_bytes_len(entries, i - 1);
    }
}

/// One peel of `spec_strings_bytes` only shrinks it.
proof fn lemma_strings_bytes_len_step(entries: Seq<(u32, Seq<u8>)>, i: int)
    requires
        0 <= i < entries.len(),
    ensures
        spec_strings_bytes(entries, i + 1).len() <= spec_strings_bytes(entries, i).len(),
{
}

/// What reading `len` bytes of string records yields, with the table's
/// size and entries built so far: each record's offset is the size the
/// table had when it was inserted, recomputed rather than read.
pub open spec fn spec_strtab_deser(
    buf: Seq<u8>,
    pos: int,
    len: u32,
    tlen: u32,
    acc: Seq<(u32, Seq<u8>)>,
) -> Result<(u32, Seq<(u32, Seq<u8>)>, int), DeserializationError>
    decreases len,
{
    if len == 0 {
        Ok((tlen, acc, pos))
    } else if len < 4 || pos + 4 > buf.len() {
        Err(DeserializationError::PrematureEnd)
    } else {
        let slen = spec_le32_val(buf[pos], buf[pos + 1], buf[pos + 2], buf[pos + 3]) as int;
        let pad = spec_pad_len(slen);
        if len - 4 < slen + pad || pos + 4 + slen + pad > buf.len() {
            Err(DeserializationError::PrematureEnd)
        } else {
            spec_strtab_deser(
                buf,
                pos + 4 + slen + pad,
                (len - 4 - slen - pad) as u32,
                (tlen + 4 + slen + pad) as u32,
                acc + seq![(tlen, buf.subrange(pos + 4, pos + 4 + slen))],
            )
        }
    }
}

impl StringTable {
    /// Reads a string table of `len` bytes at `pos`, rebuilding each
    /// string's offset from the sizes of the records before it.
    pub fn deserialize(buf: &Vec<u8>, pos: usize, len: u32) -> (r: Result<
        (Self, usize),
        DeserializationError,
    >)
        ensures
            match r {
                Ok((t, end)) => spec_strtab_deser(buf@, pos as int, len, 0, Seq::empty())
                    == Ok::<(u32, Seq<(u32, Seq<u8>)>, int), DeserializationError>(
                    (t.len, t.spec_entries(), end as int),
                ),
                Err(e) => spec_strtab_deser(buf@, pos as int, len, 0, Seq::empty())
                    == Err::<(u32, Seq<(u32, Seq<u8>)>, int), DeserializationError>(e),
            },
    {
        let blen = buf.len();
        proof {
            assert(buf@.len() <= usize::MAX);
        }
        let mut table = StringTable { len: 0, strings: Vec::new() };
        let mut cur = pos;
        let mut remaining = len;
        proof {
            assert(table.spec_entries() =~= Seq::<(u32, Seq<u8>)>::empty());
        }
        while remaining != 0
            invariant
                blen == buf@.len(),
                table.len == len - remaining,
                4 * table.strings@.len() <= table.len,
                match spec_strtab_deser(buf@, cur as int, remaining, table.len, table.spec_entries()) {
                    Err(e) => spec_strtab_deser(buf@, pos as int, len, 0, Seq::empty())
                        == Err::<(u32, Seq<(u32, Seq<u8>)>, int), DeserializationError>(e),
                    Ok(o) => spec_strtab_deser(buf@, pos as int, len, 0, Seq::empty())
                        == Ok::<(u32, Seq<(u32, Seq<u8>)>, int), DeserializationError>(o),
                },
            decreases remaining,
        {
            if remaining < 4 {
                return Err(DeserializationError::PrematureEnd);
            }
            let (slen32, p1) = match read_u32(buf, cur) {
                Ok(v) => v,
                Err(e) => {
                    return Err(DeserializationError::PrematureEnd);
                },
            };
            let budget = remaining - 4;
            if slen32 > budget {
                return Err(DeserializationError::PrematureEnd);
            }
            let slen = slen32 as usize;
            let pad32: u32 = if slen32 % 4 == 0 {
                0
            } else {
                4 - slen32 % 4
            };
            if pad32 > budget - slen32 {
                return Err(DeserializationError::PrematureEnd);
            }
            let pad = pad32 as usize;
            if buf.len() - p1 < slen || buf.len() - p1 - slen < pad {
                return Err(DeserializationError::PrematureEnd);
            }
            let mut s: Vec<u8> = Vec::new();
            let mut i: usize = 0;
            while i < slen
                invariant
                    i <= slen,
                    blen == buf@.len(),
                    p1 + slen <= blen,
                    s@ == buf@.subrange(p1 as int, p1 + i),
                decreases slen - i,
            {
                s.push(buf[p1 + i]);
                proof {
                    assert(s@ =~= buf@.subrange(p1 as int, p1 + i + 1));
                }
                i = i + 1;
            }
            let ghost old_table = table;
            proof {
                assert(table.len + spec_aligned_size(s@.len() as int) <= u32::MAX);
                assert(table.strings@.len() < u32::MAX);
            }
            table.insert(s);
            proof {
                assert(table.spec_entries()
                    =~= old_table.spec_entries()
                        + seq![(old_table.len, buf@.subrange(p1 as int, p1 + slen))]);
            }
            cur = p1 + slen + pad;
            remaining = remaining - 4 - slen32 - pad32;
        }
        Ok((table, cur))
    }
}

/// The payload of a symbol: assembler metadata, or a code or data
/// symbol with its linkage and, when defined, its section offset.
/// `type_index` and `value_index` name strings of the string table.
#[derive(Clone, Copy, Debug, PartialEq, Eq)]
pub enum SymbolValue {
    Metadata { value_index: u32 },
    Code { external: bool, type_index: u32, offset: Option<u32> },
    Data { external: bool, type_index: u32, offset: Option<u32> },
}

/// One symbol: the string-table index of its name, and its value.
#[derive(Clone, Copy, Debug, PartialEq, Eq)]
pub struct Symbol {
    pub name_index: u32,
    pub value: SymbolValue,
}

impl Symbol {
    /// A symbol is defined when it is metadata or carries an offset.
    pub open spec fn spec_is_defined(&self) -> bool {
        match self.value {
            SymbolValue::Metadata { .. } => true,
            SymbolValue::Code { offset, .. } => offset is Some,
            SymbolValue::Data { offset, .. } => offset is Some,
        }
    }

    /// A symbol is external when its code or data value says so;
    /// metadata never is.
    pub open spec fn spec_is_external(&self) -> bool {
        match self.value {
            SymbolValue::Metadata { .. } => false,
            SymbolValue::Code { external, .. } => external,
            SymbolValue::Data { external, .. } => external,
        }
    }

    /// The name this symbol carries in the given string table.
    pub fn name<'a>(&self, string_table: &'a StringTable) -> (r: &'a Vec<u8>)
        requires
            (self.name_index as int) < string_table.strings@.len(),
        ensures
            r@ == string_table.spec_entries()[self.name_index as int].1,
    {
        &string_table.strings[self.name_index as usize].1
    }

    #[verifier::when_used_as_spec(spec_is_defined)]
    pub fn is_defined(&self) -> (r: bool)
        ensures
            r == self.spec_is_defined(),
    {
        match self.value {
            SymbolValue::Metadata { .. } => true,
            SymbolValue::Code { offset, .. } => offset.is_some(),
            SymbolValue::Data { offset, .. } => offset.is_some(),
        }
    }

    #[verifier::when_used_as_spec(spec_is_external)]
    pub fn is_external(&self) -> (r: bool)
        ensures
            r == self.spec_is_external(),
    {
        match self.value {
            SymbolValue::Metadata { .. } => false,
            SymbolValue::Code { external, .. } => external,
            SymbolValue::Data { external, .. } => external,
        }
    }
}

/// The flags byte of a code or data symbol.
pub open spec fn spec_symbol_flags(sym: Symbol) -> u8 {
    ((if sym.spec_is_defined() { 2int } else { 0int })
        + (if sym.spec_is_external() { 1int } else { 0int })) as u8
}

/// Whether a symbol's string-table indices are in range, so that its
/// record can name their offsets.
pub open spec fn spec_symbol_indices_ok(sym: Symbol, entries: Seq<(u32, Seq<u8>)>) -> bool {
    &&& (sym.name_index as int) < entries.len()
    &&& match sym.value {
        SymbolValue::Metadata { value_index } => (value_index as int) < entries.len(),
        SymbolValue::Code { type_index, .. } => (type_index as int) < entries.len(),
        SymbolValue::Data { type_index, .. } => (type_index as int) < entries.len(),
    }
}

/// The 16-byte record of a symbol: its name's offset, two reserved
/// bytes, the kind byte, then the kind's payload.
pub open spec fn spec_symbol_bytes(sym: Symbol, entries: Seq<(u32, Seq<u8>)>) -> Seq<u8> {
    spec_u32_le(entries[sym.name_index as int].0) + seq![0u8, 0u8] + match sym.value {
        SymbolValue::Metadata { value_index } => seq![0u8, 0u8]
            + spec_u32_le(entries[value_index as int].0) + spec_zeros(4),
        SymbolValue::Code { type_index, offset, .. } => seq![1u8, spec_symbol_flags(sym)]
            + spec_u32_le(entries[type_index as int].0)
            + spec_u32_le(match offset {
                Some(o) => o,
                None => 0,
            }),
        SymbolValue::Data { type_index, offset, .. } => seq![2u8, spec_symbol_flags(sym)]
            + spec_u32_le(entries[type_index as int].0)
            + spec_u32_le(match offset {
                Some(o) => o,
                None => 0,
            }),
    }
}

/// What reading one symbol record yields: the name offset is looked up
/// in the string table (an unknown offset is an error), the kind must
/// be metadata, code or data, and metadata's reserved fields must be
/// zero.
pub open spec fn spec_symbol_deser(
    buf: Seq<u8>,
    pos: int,
    entries: Seq<(u32, Seq<u8>)>,
) -> Result<(Symbol, int), DeserializationError> {
    if pos + 4 > buf.len() {
        Err(DeserializationError::PrematureEnd)
    } else {
        let name_offset = spec_le32_val(buf[pos], buf[pos + 1], buf[pos + 2], buf[pos + 3]);
        match spec_offset_index(entries, name_offset, 0) {
            None => Err(DeserializationError::UnknownStringOffset(name_offset)),
            Some(ni) => if pos + 7 > buf.len() {
                Err(DeserializationError::PrematureEnd)
            } else {
                let kind = buf[pos + 6];
                if kind > 2 {
                    Err(DeserializationError::ReservedValue(kind as u32))
                } else if pos + 8 > buf.len() {
                    Err(DeserializationError::PrematureEnd)
                } else {
                    let b7 = buf[pos + 7];
                    if kind == 0 {
                        if b7 != 0 {
                            Err(DeserializationError::ReservedField(b7 as u32))
                        } else if pos + 12 > buf.len() {
                            Err(DeserializationError::PrematureEnd)
                        } else {
                            let value_offset = spec_le32_val(
                                buf[pos + 8], buf[pos + 9], buf[pos + 10], buf[pos + 11],
                            );
                            match spec_offset_index(entries, value_offset, 0) {
                                None => Err(
                                    DeserializationError::UnknownStringOffset(value_offset),
                                ),
                                Some(vi) => if pos + 16 > buf.len() {
                                    Err(DeserializationError::PrematureEnd)
                                } else {
                                    let tail = spec_le32_val(
                                        buf[pos + 12], buf[pos + 13], buf[pos + 14], buf[pos + 15],
                                    );
                                    if tail != 0 {
                                        Err(DeserializationError::ReservedField(tail))
                                    } else {
                                        Ok((
                                            Symbol {
                                                name_index: ni as u32,
                                                value: SymbolValue::Metadata {
                                                    value_index: vi as u32,
                                                },
                                            },
                                            pos + 16,
                                        ))
                                    }
                                },
                            }
                        }
                    } else {
                        let external = b7 & 1 != 0;
                        let defined = b7 & 2 != 0;
                        if pos + 12 > buf.len() {
                            Err(DeserializationError::PrematureEnd)
                        } else {
                            let type_offset = spec_le32_val(
                                buf[pos + 8], buf[pos + 9], buf[pos + 10], buf[pos + 11],
                            );
                            match spec_offset_index(entries, type_offset, 0) {
                                None => Err(
                                    DeserializationError::UnknownStringOffset(type_offset),
                                ),
                                Some(ti) => if pos + 16 > buf.len() {
                                    Err(DeserializationError::PrematureEnd)
                                } else {
                                    let off = spec_le32_val(
                                        buf[pos + 12], buf[pos + 13], buf[pos + 14], buf[pos + 15],
                                    );
                                    let payload = if defined {
                                        Some(off)
                                    } else {
                                        None
                                    };
                                    Ok((
                                        Symbol {
                                            name_index: ni as u32,
                                            value: if kind == 1 {
                                                SymbolValue::Code {
                                                    external,
                                                    type_index: ti as u32,
                                                    offset: payload,
                                                }
                                            } else {
                                                SymbolValue::Data {
                                                    external,
                                                    type_index: ti as u32,
                                                    offset: payload,
                                                }
                                            },
                                        },
                                        pos + 16,
                                    ))
                                },
                            }
                        }
                    }
                }
            },
        }
    }
}

/// The symbols of one object, in record order. Name indices are unique:
/// inserting a known name updates its symbol in place.
#[derive(Debug, PartialEq, Eq)]
pub struct SymbolTable {
    pub symbols: Vec<Symbol>,
}

impl Default for SymbolTable {
    fn default() -> (r: Self)
        ensures
            r.symbols@ == Seq::<Symbol>::empty(),
    {
        SymbolTable { symbols: Vec::new() }
    }
}

/// The first index whose symbol has the given name, from `i` on.
pub open spec fn spec_sym_index(symbols: Seq<Symbol>, name_index: u32, i: int) -> Option<int>
    decreases symbols.len() - i,
{
    if i < 0 || i >= symbols.len() {
        None
    } else if symbols[i].name_index == name_index {
        Some(i)
    } else {
        spec_sym_index(symbols, name_index, i + 1)
    }
}

/// The symbol of the given name, if any.
pub open spec fn spec_sym_get(symbols: Seq<Symbol>, name_index: u32) -> Option<Symbol> {
    match spec_sym_index(symbols, name_index, 0) {
        Some(i) => Some(symbols[i]),
        None => None,
    }
}

/// The concatenated records of the symbols from index `i` on.
pub open spec fn spec_symbols_bytes(
    symbols: Seq<Symbol>,
    entries: Seq<(u32, Seq<u8>)>,
    i: int,
) -> Seq<u8>
    decreases symbols.len() - i,
{
    if i < 0 || i >= symbols.len() {
        Seq::empty()
    } else {
        spec_symbol_bytes(symbols[i], entries) + spec_symbols_bytes(symbols, entries, i + 1)
    }
}

/// What reading `len` bytes of symbol records yields, with the symbols
/// read so far: a name that repeats is an error.
pub open spec fn spec_symtab_deser(
    buf: Seq<u8>,
    pos: int,
    len: u32,
    entries: Seq<(u32, Seq<u8>)>,
    acc: Seq<Symbol>,
) -> Result<(Seq<Symbol>, int), DeserializationError>
    decreases len,
{
    if len == 0 {
        Ok((acc, pos))
    } else {
        match spec_symbol_deser(buf, pos, entries) {
            Err(e) => Err(e),
            Ok((sym, p2)) => if spec_sym_index(acc, sym.name_index, 0) is Some {
                Err(DeserializationError::DuplicateItem(sym.name_index))
            } else {
                let rest = if len >= 16 { (len - 16) as u32 } else { 0u32 };
                spec_symtab_deser(buf, p2, rest, entries, acc + seq![sym])
            },
        }
    }
}

impl SymbolTable {
    /// The symbol of the given name.
    pub fn get<'a>(&'a self, name_index: u32) -> (r: Option<&'a Symbol>)
        ensures
            match r {
                Some(sym) => spec_sym_get(self.symbols@, name_index) == Some(*sym),
                None => spec_sym_get(self.symbols@, name_index) is None,
            },
    {
        let mut i: usize = 0;
        while i < self.symbols.len()
            invariant
                i <= self.symbols@.len(),
                spec_sym_index(self.symbols@, name_index, 0)
                    == spec_sym_index(self.symbols@, name_index, i as int),
            decreases self.symbols@.len() - i,
        {
            if self.symbols[i].name_index == name_index {
                return Some(&self.symbols[i]);
            }
            i = i + 1;
        }
        None
    }

    /// Whether a symbol of the given name exists.
    pub fn contains_name(&self, name_index: u32) -> (r: bool)
        ensures
            r == (spec_sym_index(self.symbols@, name_index, 0) is Some),
    {
        let mut i: usize = 0;
        while i < self.symbols.len()
            invariant
                i <= self.symbols@.len(),
                spec_sym_index(self.symbols@, name_index, 0)
                    == spec_sym_index(self.symbols@, name_index, i as int),
            decreases self.symbols@.len() - i,
        {
            if self.symbols[i].name_index == name_index {
                return true;
            }
            i = i + 1;
        }
        false
    }

    /// Sets the symbol of the given name: a known name's value is
    /// updated in place, a new name is appended. Returns the symbol's
    /// index.
    pub fn insert(&mut self, name_index: u32, value: SymbolValue) -> (r: u32)
        requires
            old(self).symbols@.len() < u32::MAX,
        ensures
            match spec_sym_index(old(self).symbols@, name_index, 0) {
                Some(i) => final(self).symbols@
                    == old(self).symbols@.update(i, Symbol { name_index, value })
                    && r as int == i,
                None => final(self).symbols@
                    == old(self).symbols@ + seq![Symbol { name_index, value }]
                    && r as int == old(self).symbols@.len(),
            },
    {
        let mut i: usize = 0;
        while i < self.symbols.len()
            invariant
                i <= self.symbols@.len(),
                self.symbols@.len() < u32::MAX,
                self == old(self),
                spec_sym_index(self.symbols@, name_index, 0)
                    == spec_sym_index(self.symbols@, name_index, i as int),
            decreases self.symbols@.len() - i,
        {
            if self.symbols[i].name_index == name_index {
                self.symbols[i] = Symbol { name_index, value };
                return i as u32;
            }
            i = i + 1;
        }
        let index = self.symbols.len() as u32;
        let ghost pre = self.symbols@;
        self.symbols.push(Symbol { name_index, value });
        proof {
            assert(self.symbols@ =~= pre + seq![Symbol { name_index, value }]);
        }
        index
    }

    /// The index of the given name's symbol, inserting `value` under it
    /// first when the name is new; a known name's value is kept.
    pub fn get_index_or_insert(&mut self, name_index: u32, value: SymbolValue) -> (r: u32)
        requires
            old(self).symbols@.len() < u32::MAX,
        ensures
            match spec_sym_index(old(self).symbols@, name_index, 0) {
                Some(i) => *final(self) == *old(self) && r as int == i,
                None => final(self).symbols@
                    == old(self).symbols@ + seq![Symbol { name_index, value }]
                    && r as int == old(self).symbols@.len(),
            },
    {
        let mut i: usize = 0;
        while i < self.symbols.len()
            invariant
                i <= self.symbols@.len(),
                self.symbols@.len() < u32::MAX,
                self == old(self),
                spec_sym_index(self.symbols@, name_index, 0)
                    == spec_sym_index(self.symbols@, name_index, i as int),
            decreases self.symbols@.len() - i,
        {
            if self.symbols[i].name_index == name_index {
                return i as u32;
            }
            i = i + 1;
        }
        let index = self.symbols.len() as u32;
        let ghost pre = self.symbols@;
        self.symbols.push(Symbol { name_index, value });
        proof {
            assert(self.symbols@ =~= pre + seq![Symbol { name_index, value }]);
        }
        index
    }

    /// Appends every symbol's record, in table order.
    pub fn serialize(&self, out: &mut Vec<u8>, string_table: &StringTable)
        requires
            forall|k: int| 0 <= k < self.symbols@.len()
                ==> spec_symbol_indices_ok(#[trigger] self.symbols@[k], string_table.spec_entries()),
        ensures
            final(out)@ == old(out)@
                + spec_symbols_bytes(self.symbols@, string_table.spec_entries(), 0),
    {
        let ghost entries = string_table.spec_entries();
        let ghost pre = out@;
        let mut i: usize = 0;
        while i < self.symbols.len()
            invariant
                i <= self.symbols@.len(),
                entries == string_table.spec_entries(),
                forall|k: int| 0 <= k < self.symbols@.len()
                    ==> spec_symbol_indices_ok(#[trigger] self.symbols@[k], entries),
                out@ + spec_symbols_bytes(self.symbols@, entries, i as int)
                    == pre + spec_symbols_bytes(self.symbols@, entries, 0),
            decreases self.symbols@.len() - i,
        {
            let ghost old_out = out@;
            self.symbols[i].serialize(out, string_table);
            proof {
                assert(spec_symbols_bytes(self.symbols@, entries, i as int)
                    == spec_symbol_bytes(self.symbols@[i as int], entries)
                        + spec_symbols_bytes(self.symbols@, entries, i + 1));
                assert(out@ + spec_symbols_bytes(self.symbols@, entries, i + 1)
                    =~= old_out + spec_symbols_bytes(self.symbols@, entries, i as int));
            }
            i = i + 1;
        }
        proof {
            assert(out@ =~= pre + spec_symbols_bytes(self.symbols@, entries, 0));
        }
    }

    /// Reads a symbol table of `len` bytes at `pos`: `len` must be a
    /// multiple of the 16-byte record size, and no name may repeat.
    pub fn deserialize(
        buf: &Vec<u8>,
        pos: usize,
        len: u32,
        string_table: &StringTable,
    ) -> (r: Result<(Self, usize), DeserializationError>)
        requires
            string_table.strings@.len() <= u32::MAX,
        ensures
            len & 0xF != 0 ==> r == Err::<(Self, usize), DeserializationError>(
                DeserializationError::PrematureEnd,
            ),
            len & 0xF == 0 ==> match r {
                Ok((t, end)) => spec_symtab_deser(
                    buf@,
                    pos as int,
                    len,
                    string_table.spec_entries(),
                    Seq::empty(),
                ) == Ok::<(Seq<Symbol>, int), DeserializationError>((t.symbols@, end as int)),
                Err(e) => spec_symtab_deser(
                    buf@,
                    pos as int,
                    len,
                    string_table.spec_entries(),
                    Seq::empty(),
                ) == Err::<(Seq<Symbol>, int), DeserializationError>(e),
            },
    {
        let ghost entries = string_table.spec_entries();
        proof {
            assert(len & 0xF == len % 16) by (bit_vector);
        }
        if len & 0xF != 0 {
            return Err(DeserializationError::PrematureEnd);
        }
        let blen = buf.len();
        proof {
            assert(buf@.len() <= usize::MAX);
        }
        let mut table = SymbolTable { symbols: Vec::new() };
        let mut cur = pos;
        let mut count: u32 = 0;
        proof {
            assert(table.symbols@ =~= Seq::<Symbol>::empty());
        }
        while count < len
            invariant
                count <= len,
                len & 0xF == 0,
                len % 16 == 0,
                count % 16 == 0,
                buf@.len() <= usize::MAX,
                string_table.strings@.len() <= u32::MAX,
                entries == string_table.spec_entries(),
                16 * table.symbols@.len() <= count,
                match spec_symtab_deser(buf@, cur as int, (len - count) as u32, entries,
                    table.symbols@) {
                    Err(e) => spec_symtab_deser(buf@, pos as int, len, entries, Seq::empty())
                        == Err::<(Seq<Symbol>, int), DeserializationError>(e),
                    Ok(o) => spec_symtab_deser(buf@, pos as int, len, entries, Seq::empty())
                        == Ok::<(Seq<Symbol>, int), DeserializationError>(o),
                },
            decreases len - count,
        {
            proof {
                assert(count < len && count % 16 == 0 && len % 16 == 0 ==> len - count >= 16)
                    by (bit_vector);
            }
            let (sym, p2) = match Symbol::deserialize(buf, cur, string_table) {
                Ok(v) => v,
                Err(e) => {
                    return Err(e);
                },
            };
            if table.contains_name(sym.name_index) {
                return Err(DeserializationError::DuplicateItem(sym.name_index));
            }
            let ghost pre_syms = table.symbols@;
            table.insert(sym.name_index, sym.value);
            proof {
                assert(table.symbols@ == pre_syms + seq![Symbol {
                    name_index: sym.name_index,
                    value: sym.value,
                }]);
                assert(Symbol { name_index: sym.name_index, value: sym.value } == sym);
            }
            cur = p2;
            count = count + 16;
        }
        proof {
            assert(spec_symtab_deser(buf@, cur as int, 0, entries, table.symbols@)
                == Ok::<(Seq<Symbol>, int), DeserializationError>((table.symbols@, cur as int)));
        }
        Ok((table, cur))
    }
}

/// Finds the table index of the string at byte offset `off`.
fn index_of_offset(string_table: &StringTable, off: u32) -> (r: Option<usize>)
    ensures
        match r {
            Some(i) => spec_offset_index(string_table.spec_entries(), off, 0) == Some(i as int),
            None => spec_offset_index(string_table.spec_entries(), off, 0) is None,
        },
{
    let ghost entries = string_table.spec_entries();
    let mut i: usize = 0;
    while i < string_table.strings.len()
        invariant
            i <= string_table.strings@.len(),
            entries == string_table.spec_entries(),
            spec_offset_index(entries, off, 0) == spec_offset_index(entries, off, i as int),
        decreases string_table.strings@.len() - i,
    {
        if string_table.strings[i].0 == off {
            proof {
                assert(entries[i as int].0 == off);
            }
            return Some(i);
        }
        proof {
            assert(entries[i as int].0 != off);
        }
        i = i + 1;
    }
    None
}

impl Symbol {
    /// Appends the symbol's 16-byte record, naming its strings by their
    /// offsets in the given string table.
    pub fn serialize(&self, out: &mut Vec<u8>, string_table: &StringTable)
        requires
            spec_symbol_indices_ok(*self, string_table.spec_entries()),
        ensures
            final(out)@ == old(out)@ + spec_symbol_bytes(*self, string_table.spec_entries()),
    {
        let ghost pre = out@;
        let ghost entries = string_table.spec_entries();
        write_u32(out, string_table.strings[self.name_index as usize].0);
        out.push(0);
        out.push(0);
        match self.value {
            SymbolValue::Metadata { value_index } => {
                out.push(0);
                out.push(0);
                write_u32(out, string_table.strings[value_index as usize].0);
                out.push(0);
                out.push(0);
                out.push(0);
                out.push(0);
            },
            SymbolValue::Code { external, type_index, offset } => {
                out.push(1);
                let flags = (if self.is_defined() { 2u8 } else { 0u8 })
                    + (if external { 1u8 } else { 0u8 });
                out.push(flags);
                write_u32(out, string_table.strings[type_index as usize].0);
                write_u32(out, match offset {
                    Some(o) => o,
                    None => 0,
                });
            },
            SymbolValue::Data { external, type_index, offset } => {
                out.push(2);
                let flags = (if self.is_defined() { 2u8 } else { 0u8 })
                    + (if external { 1u8 } else { 0u8 });
                out.push(flags);
                write_u32(out, string_table.strings[type_index as usize].0);
                write_u32(out, match offset {
                    Some(o) => o,
                    None => 0,
                });
            },
        }
        proof {
            assert(out@ =~= pre + spec_symbol_bytes(*self, entries));
        }
    }

    /// Reads one symbol record at `pos`, as `spec_symbol_deser`
    /// describes.
    pub fn deserialize(buf: &Vec<u8>, pos: usize, string_table: &StringTable) -> (r: Result<
        (Symbol, usize),
        DeserializationError,
    >)
        requires
            string_table.strings@.len() <= u32::MAX,
        ensures
            match r {
                Ok((sym, end)) => spec_symbol_deser(buf@, pos as int, string_table.spec_entries())
                    == Ok::<(Symbol, int), DeserializationError>((sym, end as int)),
                Err(e) => spec_symbol_deser(buf@, pos as int, string_table.spec_entries())
                    == Err::<(Symbol, int), DeserializationError>(e),
            },
    {
        let blen = buf.len();
        proof {
            assert(buf@.len() <= usize::MAX);
        }
        let ghost entries = string_table.spec_entries();
        let (name_offset, p1) = match read_u32(buf, pos) {
            Ok(v) => v,
            Err(e) => {
                return Err(e);
            },
        };
        let ni = match index_of_offset(string_table, name_offset) {
            Some(i) => i,
            None => {
                return Err(DeserializationError::UnknownStringOffset(name_offset));
            },
        };
        proof {
            lemma_offset_index_bounds(entries, name_offset, 0);
        }
        let (_, p2) = match read_u16(buf, p1) {
            Ok(v) => v,
            Err(e) => {
                return Err(e);
            },
        };
        let (kind, p3) = match read_u8(buf, p2) {
            Ok(v) => v,
            Err(e) => {
                return Err(e);
            },
        };
        if kind > 2 {
            return Err(DeserializationError::ReservedValue(kind as u32));
        }
        let (b7, p4) = match read_u8(buf, p3) {
            Ok(v) => v,
            Err(e) => {
                return Err(e);
            },
        };
        if kind == 0 {
            if b7 != 0 {
                return Err(DeserializationError::ReservedField(b7 as u32));
            }
            let (value_offset, p5) = match read_u32(buf, p4) {
                Ok(v) => v,
                Err(e) => {
                    return Err(e);
                },
            };
            let vi = match index_of_offset(string_table, value_offset) {
                Some(i) => i,
                None => {
                    return Err(DeserializationError::UnknownStringOffset(value_offset));
                },
            };
            proof {
                lemma_offset_index_bounds(entries, value_offset, 0);
            }
            let (tail, p6) = match read_u32(buf, p5) {
                Ok(v) => v,
                Err(e) => {
                    return Err(e);
                },
            };
            if tail != 0 {
                return Err(DeserializationError::ReservedField(tail));
            }
            Ok((
                Symbol {
                    name_index: ni as u32,
                    value: SymbolValue::Metadata { value_index: vi as u32 },
                },
                p6,
            ))
        } else {
            let external = b7 & 1 != 0;
            let defined = b7 & 2 != 0;
            let (type_offset, p5) = match read_u32(buf, p4) {
                Ok(v) => v,
                Err(e) => {
                    return Err(e);
                },
            };
            let ti = match index_of_offset(string_table, type_offset) {
                Some(i) => i,
                None => {
                    return Err(DeserializationError::UnknownStringOffset(type_offset));
                },
            };
            proof {
                lemma_offset_index_bounds(entries, type_offset, 0);
            }
            let (off, p6) = match read_u32(buf, p5) {
                Ok(v) => v,
                Err(e) => {
                    return Err(e);
                },
            };
            let payload = if defined {
                Some(off)
            } else {
                None
            };
            Ok((
                Symbol {
                    name_index: ni as u32,
                    value: if kind == 1 {
                        SymbolValue::Code { external, type_index: ti as u32, offset: payload }
                    } else {
                        SymbolValue::Data { external, type_index: ti as u32, offset: payload }
                    },
                },
                p6,
            ))
        }
    }
}

} // verus!
