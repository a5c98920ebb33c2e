//! Logical page address codec: a 64-bit address packs the owning file's
//! identifier into the high 32 bits and the page's in-file index into the
//! low 32 bits.
use vstd::prelude::*;

verus! {

/// One past the largest in-file index: the weight of the file id within an
/// encoded address.
pub const INDEX_SPAN: u64 = 0x1_0000_0000;

/// The address that packs `file_id` above `index`.
pub open spec fn encoded_page_addr(file_id: u32, index: u32) -> int {
    file_id * INDEX_SPAN + index
}

/// The file identifier packed in the high 32 bits of `page_addr`.
pub open spec fn file_id_of(page_addr: u64) -> int {
    page_addr as int / INDEX_SPAN as int
}

/// The in-file index packed in the low 32 bits of `page_addr`.
pub open spec fn index_of(page_addr: u64) -> int {
    page_addr as int % INDEX_SPAN as int
}

/// Packs a file identifier and an in-file index into one logical address.
pub fn encode_page_addr(file_id: u32, index: u32) -> (page_addr: u64)
    ensures
        page_addr == encoded_page_addr(file_id, index),
{
    let page_addr: u64 = ((file_id as u64) << 32u64) | (index as u64);
    proof {
        let f = file_id as u64;
        let i = index as u64;
        assert((f << 32u64) | i == f * 0x1_0000_0000 + i) by (bit_vector)
            requires
                f <= 0xffff_ffffu64 && i <= 0xffff_ffffu64,
        ;
    }
    page_addr
}

/// Splits a logical address into its (file identifier, in-file index) pair.
pub fn split_page_addr(page_addr: u64) -> (r: (u32, u32))
    ensures
        r.0 == file_id_of(page_addr),
        r.1 == index_of(page_addr),
{
    let r = ((page_addr >> 32u64) as u32, page_addr as u32);
    proof {
        assert(page_addr >> 32u64 == page_addr / 0x1_0000_0000) by (bit_vector);
        assert((page_addr as u32) as u64 == page_addr % 0x1_0000_0000) by (bit_vector);
    }
    r
}

/// Law: any (file id, index) pair round-trips exactly through the address
/// codec; splitting an encoded address recovers both halves.
pub proof fn lemma_page_addr_roundtrip(file_id: u32, index: u32)
    ensures
        encoded_page_addr(file_id, index) <= u64::MAX,
        file_id_of(encoded_page_addr(file_id, index) as u64) == file_id,
        index_of(encoded_page_addr(file_id, index) as u64) == index,
{
    let addr = encoded_page_addr(file_id, index);
    assert(addr <= u64::MAX) by (nonlinear_arith)
        requires
            addr == file_id * INDEX_SPAN + index && file_id <= u32::MAX && index <= u32::MAX,
    ;
    vstd::arithmetic::div_mod::lemma_fundamental_div_mod_converse(
        addr,
        INDEX_SPAN as int,
        file_id as int,
        index as int,
    );
}

} // verus!
