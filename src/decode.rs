use vstd::prelude::*;
use crate::entry::{PackBlock, PackEntry, ENTRIES_PER_BLOCK};
use crate::error::Pk2Error;

verus! {

/// Size in bytes of one block.
pub const PK2_FILE_BLOCK_SIZE: usize = 2560;

/// Size in bytes of one entry slot.
pub const ENTRY_SIZE: usize = 128;

/// Unsigned little-endian value of the bytes `s`.
pub open spec fn le_value(s: Seq<u8>) -> nat
    decreases s.len(),
{
    if s.len() == 0 {
        0
    } else {
        s[0] as nat + 256 * le_value(s.drop_first())
    }
}

/// The bytes of `s` before its first zero byte (all of them if it has none).
pub open spec fn until_nul(s: Seq<u8>) -> Seq<u8>
    decreases s.len(),
{
    if s.len() == 0 {
        s
    } else if s[0] == 0 {
        Seq::empty()
    } else {
        seq![s[0]] + until_nul(s.drop_first())
    }
}

/// What `String::from_utf8_lossy` makes of the bytes `b`.
pub uninterp spec fn utf8_lossy(b: Seq<u8>) -> Seq<char>;

/// The bytes of slot `k` of the block `b`.
pub open spec fn raw_entry(b: Seq<u8>, k: int) -> Seq<u8> {
    b.subrange(128 * k, 128 * k + 128)
}

/// The name an entry's raw bytes hold.
pub open spec fn raw_name(r: Seq<u8>) -> Seq<char> {
    utf8_lossy(until_nul(r.subrange(1, 82)))
}

/// The position field of an entry's raw bytes.
pub open spec fn raw_position(r: Seq<u8>) -> nat {
    le_value(r.subrange(106, 114))
}

/// The size field of an entry's raw bytes.
pub open spec fn raw_size(r: Seq<u8>) -> nat {
    le_value(r.subrange(114, 118))
}

/// The next-block field of an entry's raw bytes.
pub open spec fn raw_next(r: Seq<u8>) -> nat {
    le_value(r.subrange(118, 126))
}

/// `e` is what the 128 bytes `r` encode: a type byte (0 unused, 1 directory,
/// 2 file), an 81-byte zero-terminated name, three timestamps, a position, a
/// size, a next-block offset and two bytes of padding.
pub open spec fn entry_decodes(e: PackEntry, r: Seq<u8>) -> bool {
    match e {
        PackEntry::Empty => r[0] == 0,
        PackEntry::Directory { name, pos_children } => r[0] == 1 && name@ == raw_name(r)
            && pos_children == raw_position(r),
        PackEntry::File { name, pos_data, size } => r[0] == 2 && name@ == raw_name(r) && pos_data
            == raw_position(r) && size == raw_size(r),
    }
}

/// Every slot of the block `b` has a known type byte.
pub open spec fn block_well_typed(b: Seq<u8>) -> bool {
    forall|k: int| 0 <= k < 20 ==> #[trigger] raw_entry(b, k)[0] <= 2
}

/// The entries `es` are what the 20 slots of the block `b` encode.
pub open spec fn block_decodes(es: Seq<PackEntry>, b: Seq<u8>) -> bool {
    &&& es.len() == 20
    &&& forall|k: int| 0 <= k < 20 ==> #[trigger] entry_decodes(es[k], raw_entry(b, k))
}

/// The offset of the block that follows the block `b` in its chain: the
/// next-block field of its last slot, where zero ends the chain.
pub open spec fn raw_next_block(b: Seq<u8>) -> Option<u64> {
    if raw_next(raw_entry(b, 19)) == 0 {
        None
    } else {
        Some(raw_next(raw_entry(b, 19)) as u64)
    }
}

/// 256 to the power `n`.
pub open spec fn pow256(n: nat) -> nat
    decreases n,
{
    if n == 0 {
        1
    } else {
        256 * pow256((n - 1) as nat)
    }
}

proof fn lemma_pow256_mono(a: nat, b: nat)
    requires
        a <= b,
    ensures
        pow256(a) <= pow256(b),
    decreases b,
{
    if a < b {
        lemma_pow256_mono(a, (b - 1) as nat);
    }
}

proof fn lemma_le_value_bound(s: Seq<u8>)
    ensures
        le_value(s) < pow256(s.len()),
    decreases s.len(),
{
    if s.len() > 0 {
        lemma_le_value_bound(s.drop_first());
        let r = le_value(s.drop_first());
        let p = pow256(s.drop_first().len());
        assert(s[0] as nat + 256 * r < 256 * p) by (nonlinear_arith)
            requires
                s[0] < 256,
                r < p,
        ;
    }
}

/// The little-endian value of the `n` bytes at `at`.
fn read_le(buf: &Vec<u8>, at: usize, n: usize) -> (r: u64)
    requires
        n <= 8,
        at + n <= buf@.len(),
    ensures
        r as nat == le_value(buf@.subrange(at as int, at + n)),
        r < pow256(n as nat),
{
    let len = buf.len();
    let mut v: u64 = 0;
    let mut i: usize = n;
    while i > 0
        invariant
            i <= n <= 8,
            at + n <= buf@.len(),
            len == buf@.len(),
            v as nat == le_value(buf@.subrange(at + i, at + n)),
        decreases i,
    {
        let ghost tail = buf@.subrange(at + i, at + n);
        let ghost s = buf@.subrange(at + i - 1, at + n);
        assert(s.drop_first() =~= tail);
        proof {
            lemma_le_value_bound(tail);
            lemma_pow256_mono(tail.len(), 7);
            reveal_with_fuel(pow256, 8);
            assert(pow256(7) == 72057594037927936);
        }
        let b = buf[at + i - 1];
        v = b as u64 + 256 * v;
        i = i - 1;
    }
    proof {
        lemma_le_value_bound(buf@.subrange(at as int, at + n));
    }
    v
}

/// Relies on `String::from_utf8_lossy`, which depends on the bytes alone.
#[verifier::external_body]
fn lossy_string(b: &Vec<u8>) -> (r: String)
    ensures
        r@ == utf8_lossy(b@),
{
    String::from_utf8_lossy(b).into_owned()
}

/// The bytes from `start` up to the first zero byte before `end`.
fn take_until_nul(buf: &Vec<u8>, start: usize, end: usize) -> (r: Vec<u8>)
    requires
        start <= end <= buf@.len(),
    ensures
        r@ == until_nul(buf@.subrange(start as int, end as int)),
{
    let mut out: Vec<u8> = Vec::new();
    let mut i = start;
    while i < end
        invariant
            start <= i <= end <= buf@.len(),
            until_nul(buf@.subrange(start as int, end as int)) == out@ + until_nul(
                buf@.subrange(i as int, end as int),
            ),
        decreases end - i,
    {
        let ghost rest = buf@.subrange(i as int, end as int);
        assert(rest.drop_first() =~= buf@.subrange(i + 1, end as int));
        if buf[i] == 0 {
            assert(out@ + until_nul(rest) =~= out@);
            return out;
        }
        assert(out@ + until_nul(rest) =~= out@.push(buf[i as int]) + until_nul(rest.drop_first()));
        out.push(buf[i]);
        i = i + 1;
    }
    assert(out@ + until_nul(buf@.subrange(i as int, end as int)) =~= out@);
    out
}

/// Decodes the slot at byte `at` of a block.
fn decode_entry(buf: &Vec<u8>, at: usize) -> (r: Result<PackEntry, Pk2Error>)
    requires
        at + 128 <= buf@.len(),
    ensures
        r is Ok <==> buf@[at as int] <= 2,
        r matches Ok(e) ==> entry_decodes(e, buf@.subrange(at as int, at + 128)),
        r matches Err(e) ==> e is Format,
{
    let ghost raw = buf@.subrange(at as int, at + 128);
    assert(raw.subrange(1, 82) =~= buf@.subrange(at + 1, at + 82));
    assert(raw.subrange(106, 114) =~= buf@.subrange(at + 106, at + 114));
    assert(raw.subrange(114, 118) =~= buf@.subrange(at + 114, at + 118));
    // the buffer's length is a usize, so the field offsets below cannot overflow
    let len = buf.len();
    assert(at + 128 <= len);
    let ty = buf[at];
    if ty == 0 {
        return Ok(PackEntry::Empty);
    }
    if ty > 2 {
        return Err(Pk2Error::Format);
    }
    let name = lossy_string(&take_until_nul(buf, at + 1, at + 82));
    let position = read_le(buf, at + 106, 8);
    if ty == 1 {
        Ok(PackEntry::Directory { name, pos_children: position })
    } else {
        let size = read_le(buf, at + 114, 4);
        proof {
            reveal_with_fuel(pow256, 5);
        }
        let size = size as u32;
        Ok(PackEntry::File { name, pos_data: position, size })
    }
}

/// Decodes one decrypted block read at file offset `offset`. The next-block
/// field of the last slot links the block to the rest of its chain; zero ends
/// the chain.
pub fn decode_block(buf: &Vec<u8>, offset: u64) -> (r: Result<PackBlock, Pk2Error>)
    requires
        buf@.len() == PK2_FILE_BLOCK_SIZE,
    ensures
        r is Ok <==> block_well_typed(buf@),
        r matches Err(e) ==> e is Format,
        r matches Ok(b) ==> b.offset == offset && block_decodes(b.entries@, buf@) && b.next_block
            == raw_next_block(buf@),
{
    let mut entries: Vec<PackEntry> = Vec::new();
    let mut k: usize = 0;
    while k < ENTRIES_PER_BLOCK
        invariant
            0 <= k <= 20,
            buf@.len() == 2560,
            entries@.len() == k,
            forall|j: int| 0 <= j < k ==> #[trigger] raw_entry(buf@, j)[0] <= 2,
            forall|j: int| 0 <= j < k ==> #[trigger] entry_decodes(entries@[j], raw_entry(buf@, j)),
        decreases 20 - k,
    {
        assert(raw_entry(buf@, k as int)[0] == buf@[k * 128]);
        match decode_entry(buf, k * ENTRY_SIZE) {
            Ok(e) => {
                entries.push(e);
            },
            Err(e) => {
                return Err(e);
            },
        }
        k = k + 1;
    }
    assert(raw_entry(buf@, 19).subrange(118, 126) =~= buf@.subrange(2550, 2558));
    let next = read_le(buf, 19 * ENTRY_SIZE + 118, 8);
    let next_block = if next == 0 {
        None
    } else {
        Some(next)
    };
    Ok(PackBlock { offset, entries, next_block })
}

} // verus!
