//! The correlation envelope carried with every data-plane message, and its
//! byte codec.
//!
//! The wire form is an ordered tag/value stream of three named fields:
//! `sequence_number` (signed 64-bit, little endian), `source_timestamp`
//! (signed 64-bit, little endian) and `source_gid` (a fixed 16-byte array,
//! length-prefixed). Every string and array is preceded by its byte length
//! in the canonical single-byte form of the variable-length integer
//! encoding (all lengths here are below 128); the decoder rejects a longer
//! length prefix, an unknown tag, a truncated value, or a stream that ends
//! with any of the three fields missing.

use vstd::prelude::*;
use vstd::string::StrSliceExecFns;

use crate::endpoint_info::RMW_GID_STORAGE_SIZE;

verus! {

/// Width in bytes of the GID carried inside an attachment.
pub const RMW_GID_STORAGE_SIZE_IRON: usize = 16;

/// The unsigned 64-bit representation of a signed 64-bit value.
pub open spec fn spec_u64_of_int(n: int) -> nat {
    if n >= 0 {
        n as nat
    } else {
        (n + 0x1_0000_0000_0000_0000) as nat
    }
}

/// The signed value represented by an unsigned 64-bit representation.
pub open spec fn spec_int_of_u64(v: nat) -> int {
    if v < 0x8000_0000_0000_0000 {
        v as int
    } else {
        v - 0x1_0000_0000_0000_0000
    }
}

/// The unsigned byte representing a signed byte.
pub open spec fn spec_u8_of_i8(b: i8) -> u8 {
    if b >= 0 {
        b as u8
    } else {
        (b + 256) as u8
    }
}

/// The signed byte represented by an unsigned byte.
pub open spec fn spec_i8_of_u8(u: u8) -> i8 {
    if u < 128 {
        u as i8
    } else {
        (u - 256) as i8
    }
}

pub proof fn lemma_u64_int_round_trip(n: int)
    requires
        i64::MIN <= n <= i64::MAX,
    ensures
        spec_u64_of_int(n) < 0x1_0000_0000_0000_0000,
        spec_int_of_u64(spec_u64_of_int(n)) == n,
{
}

pub proof fn lemma_u8_i8_round_trip(b: i8)
    ensures
        spec_i8_of_u8(spec_u8_of_i8(b)) == b,
{
}

fn i64_to_u64(n: i64) -> (u: u64)
    ensures
        u as nat == spec_u64_of_int(n as int),
{
    if n >= 0 {
        n as u64
    } else {
        let off: u64 = (n - i64::MIN) as u64;
        off + 0x8000_0000_0000_0000u64
    }
}

fn u64_to_i64(u: u64) -> (n: i64)
    ensures
        n as int == spec_int_of_u64(u as nat),
{
    if u < 0x8000_0000_0000_0000 {
        u as i64
    } else {
        let off: u64 = u - 0x8000_0000_0000_0000;
        (off as i64) + i64::MIN
    }
}

fn i8_to_u8(b: i8) -> (u: u8)
    ensures
        u == spec_u8_of_i8(b),
{
    if b >= 0 {
        b as u8
    } else {
        let off: i8 = b - i8::MIN;
        (off as u8) + 128
    }
}

fn u8_to_i8(u: u8) -> (b: i8)
    ensures
        b == spec_i8_of_u8(u),
{
    if u < 128 {
        u as i8
    } else {
        let off: u8 = u - 128;
        (off as i8) + i8::MIN
    }
}

/// 256 to the power `k`.
pub open spec fn pow256(k: nat) -> nat
    decreases k,
{
    if k == 0 {
        1
    } else {
        256 * pow256((k - 1) as nat)
    }
}

/// The `k` little-endian bytes of `n`.
pub open spec fn spec_le_bytes(n: nat, k: nat) -> Seq<u8>
    decreases k,
{
    if k == 0 {
        Seq::empty()
    } else {
        seq![(n % 256) as u8] + spec_le_bytes(n / 256, (k - 1) as nat)
    }
}

/// The value of a little-endian byte string.
pub open spec fn spec_le_val(bs: Seq<u8>) -> nat
    decreases bs.len(),
{
    if bs.len() == 0 {
        0
    } else {
        (bs[0] + 256 * spec_le_val(bs.drop_first())) as nat
    }
}

pub proof fn lemma_le_bytes_len(n: nat, k: nat)
    ensures
        spec_le_bytes(n, k).len() == k,
    decreases k,
{
    if k > 0 {
        lemma_le_bytes_len(n / 256, (k - 1) as nat);
    }
}

pub proof fn lemma_le_val_bound(bs: Seq<u8>)
    ensures
        spec_le_val(bs) < pow256(bs.len()),
    decreases bs.len(),
{
    if bs.len() > 0 {
        lemma_le_val_bound(bs.drop_first());
    }
}

/// Reading back the little-endian bytes of `n` yields `n`.
pub proof fn lemma_le_round_trip(n: nat, k: nat)
    requires
        n < pow256(k),
    ensures
        spec_le_val(spec_le_bytes(n, k)) == n,
    decreases k,
{
    if k == 0 {
    } else {
        assert(n / 256 < pow256((k - 1) as nat)) by {
            assert(pow256(k) == 256 * pow256((k - 1) as nat));
        }
        lemma_le_round_trip(n / 256, (k - 1) as nat);
        let bs = spec_le_bytes(n, k);
        assert(bs.drop_first() =~= spec_le_bytes(n / 256, (k - 1) as nat));
        assert(spec_le_val(bs) == n % 256 + 256 * (n / 256));
    }
}

proof fn lemma_pow256_values()
    ensures
        pow256(0) == 1,
        pow256(1) == 0x100,
        pow256(2) == 0x10000,
        pow256(3) == 0x1000000,
        pow256(4) == 0x100000000,
        pow256(5) == 0x10000000000,
        pow256(6) == 0x1000000000000,
        pow256(7) == 0x100000000000000,
        pow256(8) == 0x10000000000000000,
{
    assert(pow256(1) == 256 * pow256(0));
    assert(pow256(2) == 256 * pow256(1));
    assert(pow256(3) == 256 * pow256(2));
    assert(pow256(4) == 256 * pow256(3));
    assert(pow256(5) == 256 * pow256(4));
    assert(pow256(6) == 256 * pow256(5));
    assert(pow256(7) == 256 * pow256(6));
    assert(pow256(8) == 256 * pow256(7));
}

/// Appends the eight little-endian bytes of `v`.
fn push_le_u64(out: &mut Vec<u8>, v: u64)
    ensures
        final(out)@ == old(out)@ + spec_le_bytes(v as nat, 8),
{
    let mut m: u64 = v;
    let mut j: usize = 0;
    while j < 8
        invariant
            j <= 8,
            old(out)@ + spec_le_bytes(v as nat, 8) =~= out@ + spec_le_bytes(
                m as nat,
                (8 - j) as nat,
            ),
        decreases 8 - j,
    {
        let ghost old_m = m as nat;
        let b: u8 = (m % 256) as u8;
        out.push(b);
        m = m / 256;
        j = j + 1;
        proof {
            assert(spec_le_bytes(old_m, (9 - j) as nat) =~= seq![(old_m % 256) as u8]
                + spec_le_bytes(old_m / 256, (8 - j) as nat));
        }
    }
    proof {
        assert(spec_le_bytes(m as nat, 0) =~= Seq::<u8>::empty());
        assert(final(out)@ =~= old(out)@ + spec_le_bytes(v as nat, 8));
    }
}

/// Reads the eight little-endian bytes starting at `pos` as an unsigned
/// value.
fn read_le_u64(bytes: &Vec<u8>, pos: usize) -> (v: u64)
    requires
        pos + 8 <= bytes@.len(),
    ensures
        v as nat == spec_le_val(bytes@.subrange(pos as int, pos + 8)),
{
    proof {
        lemma_pow256_values();
    }
    let n = bytes.len();
    let mut m: u64 = 0;
    let mut j: usize = 8;
    while j > 0
        invariant
            j <= 8,
            n == bytes@.len(),
            pos + 8 <= n,
            m as nat == spec_le_val(bytes@.subrange(pos + j, pos + 8)),
            m < pow256((8 - j) as nat),
            pow256(8) == 0x10000000000000000,
        decreases j,
    {
        proof {
            lemma_pow256_values();
            assert(pow256((9 - j) as nat) == 256 * pow256((8 - j) as nat));
        }
        let b: u8 = bytes[pos + j - 1];
        m = m * 256 + (b as u64);
        j = j - 1;
        proof {
            let sub = bytes@.subrange(pos + j, pos + 8);
            assert(sub.drop_first() =~= bytes@.subrange(pos + j + 1, pos + 8));
            assert(sub[0] == bytes@[pos + j]);
            lemma_le_val_bound(sub);
            assert(sub.len() == 8 - j);
        }
    }
    proof {
        assert(bytes@.subrange(pos as int, pos + 8) == bytes@.subrange(pos + 0, pos + 8));
    }
    m
}

/// The bytes of an ASCII string, one byte per character.
pub open spec fn ascii_bytes(s: Seq<char>) -> Seq<u8> {
    s.map_values(|c: char| (c as u32) as u8)
}

/// Builds the byte form of an ASCII string.
fn tag_bytes(s: &str) -> (r: Vec<u8>)
    requires
        forall|i: int| 0 <= i < s@.len() ==> (#[trigger] s@[i] as u32) < 128,
    ensures
        r@ == ascii_bytes(s@),
{
    let n = s.unicode_len();
    let mut out: Vec<u8> = Vec::new();
    let mut i: usize = 0;
    while i < n
        invariant
            i <= n,
            n == s@.len(),
            forall|k: int| 0 <= k < s@.len() ==> (#[trigger] s@[k] as u32) < 128,
            out@ =~= ascii_bytes(s@.take(i as int)),
        decreases n - i,
    {
        let c = s.get_char(i);
        out.push((c as u32) as u8);
        proof {
            assert(ascii_bytes(s@.take(i + 1)) =~= ascii_bytes(s@.take(i as int)).push(
                (s@[i as int] as u32) as u8,
            ));
        }
        i = i + 1;
    }
    proof {
        assert(s@.take(n as int) =~= s@);
    }
    out
}

/// The tag naming the sequence-number field.
pub open spec fn spec_tag_sequence_number() -> Seq<u8> {
    ascii_bytes("sequence_number"@)
}

/// The tag naming the source-timestamp field.
pub open spec fn spec_tag_source_timestamp() -> Seq<u8> {
    ascii_bytes("source_timestamp"@)
}

/// The tag naming the source-GID field.
pub open spec fn spec_tag_source_gid() -> Seq<u8> {
    ascii_bytes("source_gid"@)
}

/// The byte lengths of the three tags (they are pairwise distinct).
pub proof fn lemma_tag_lens()
    ensures
        spec_tag_sequence_number().len() == 15,
        spec_tag_source_timestamp().len() == 16,
        spec_tag_source_gid().len() == 10,
{
    reveal_strlit("sequence_number");
    reveal_strlit("source_timestamp");
    reveal_strlit("source_gid");
}

fn tag_sequence_number() -> (r: Vec<u8>)
    ensures
        r@ == spec_tag_sequence_number(),
        r@.len() == 15,
{
    proof {
        reveal_strlit("sequence_number");
    }
    tag_bytes("sequence_number")
}

fn tag_source_timestamp() -> (r: Vec<u8>)
    ensures
        r@ == spec_tag_source_timestamp(),
        r@.len() == 16,
{
    proof {
        reveal_strlit("source_timestamp");
    }
    tag_bytes("source_timestamp")
}

fn tag_source_gid() -> (r: Vec<u8>)
    ensures
        r@ == spec_tag_source_gid(),
        r@.len() == 10,
{
    proof {
        reveal_strlit("source_gid");
    }
    tag_bytes("source_gid")
}

/// The metadata envelope of one message: sequence number, source timestamp
/// in nanoseconds, and the sender's GID.
#[derive(Debug, PartialEq, Eq)]
pub struct Attachment {
    pub sequence_number: i64,
    pub source_timestamp: i64,
    pub source_gid: [i8; 16],
}

/// The mathematical value of an [`Attachment`].
pub ghost struct AttachmentView {
    pub sequence_number: int,
    pub source_timestamp: int,
    pub source_gid: Seq<i8>,
}

impl View for Attachment {
    type V = AttachmentView;

    open spec fn view(&self) -> AttachmentView {
        AttachmentView {
            sequence_number: self.sequence_number as int,
            source_timestamp: self.source_timestamp as int,
            source_gid: self.source_gid@,
        }
    }
}

/// The byte form of one tagged ASCII string: its length, then its bytes.
pub open spec fn spec_encode_str(s: Seq<char>) -> Seq<u8> {
    seq![s.len() as u8] + ascii_bytes(s)
}

/// The byte form of a whole attachment.
pub open spec fn spec_encode_attachment(v: AttachmentView) -> Seq<u8> {
    spec_encode_str("sequence_number"@) + spec_le_bytes(spec_u64_of_int(v.sequence_number), 8)
        + spec_encode_str("source_timestamp"@) + spec_le_bytes(
        spec_u64_of_int(v.source_timestamp),
        8,
    ) + spec_encode_str("source_gid"@) + seq![16u8] + v.source_gid.map_values(
        |b: i8| spec_u8_of_i8(b),
    )
}

impl Attachment {
    /// Builds an attachment, converting the GID bytes to their signed form.
    pub fn new(sequence_number: i64, source_timestamp: i64, source_gid: [u8;
        RMW_GID_STORAGE_SIZE]) -> (a: Attachment)
        ensures
            a@.sequence_number == sequence_number as int,
            a@.source_timestamp == source_timestamp as int,
            a@.source_gid == source_gid@.map_values(|b: u8| spec_i8_of_u8(b)),
    {
        let mut gid = [0i8; 16];
        let mut i: usize = 0;
        while i < 16
            invariant
                i <= 16,
                forall|j: int| 0 <= j < i ==> gid@[j] == spec_i8_of_u8(source_gid@[j]),
            decreases 16 - i,
        {
            gid[i] = u8_to_i8(source_gid[i]);
            i = i + 1;
        }
        let a = Attachment { sequence_number, source_timestamp, source_gid: gid };
        proof {
            assert(a@.source_gid =~= source_gid@.map_values(|b: u8| spec_i8_of_u8(b)));
        }
        a
    }

    /// Encodes the attachment into its byte form.
    pub fn to_bytes(&self) -> (r: Vec<u8>)
        ensures
            r@ == spec_encode_attachment(self@),
    {
        let mut out: Vec<u8> = Vec::new();
        let mut tag = tag_sequence_number();
        out.push(15u8);
        out.append(&mut tag);
        push_le_u64(&mut out, i64_to_u64(self.sequence_number));
        let ghost part1 = out@;
        let mut tag2 = tag_source_timestamp();
        out.push(16u8);
        out.append(&mut tag2);
        push_le_u64(&mut out, i64_to_u64(self.source_timestamp));
        let ghost part2 = out@;
        let mut tag3 = tag_source_gid();
        out.push(10u8);
        out.append(&mut tag3);
        out.push(16u8);
        let ghost part3 = out@;
        let mut i: usize = 0;
        while i < 16
            invariant
                i <= 16,
                out@ =~= part3 + self.source_gid@.take(i as int).map_values(
                    |b: i8| spec_u8_of_i8(b),
                ),
            decreases 16 - i,
        {
            out.push(i8_to_u8(self.source_gid[i]));
            proof {
                assert(self.source_gid@.take(i + 1).map_values(|b: i8| spec_u8_of_i8(b))
                    =~= self.source_gid@.take(i as int).map_values(|b: i8| spec_u8_of_i8(b)).push(
                    spec_u8_of_i8(self.source_gid@[i as int]),
                ));
            }
            i = i + 1;
        }
        proof {
            lemma_tag_lens();
            assert(self.source_gid@.take(16) =~= self.source_gid@);
            assert(part1 =~= spec_encode_str("sequence_number"@) + spec_le_bytes(
                spec_u64_of_int(self@.sequence_number),
                8,
            ));
            assert(part2 =~= part1 + spec_encode_str("source_timestamp"@) + spec_le_bytes(
                spec_u64_of_int(self@.source_timestamp),
                8,
            ));
            assert(part3 =~= part2 + spec_encode_str("source_gid"@) + seq![16u8]);
            assert(out@ =~= spec_encode_attachment(self@));
        }
        out
    }
}

/// One step of decoding: at end of input, the three slots must all be
/// filled; otherwise a tagged field is read and its slot updated. A length
/// prefix of two or more bytes, an unknown tag, or a truncated value stops
/// decoding.
pub open spec fn spec_decode_loop(
    bytes: Seq<u8>,
    pos: int,
    sn: Option<int>,
    ts: Option<int>,
    gid: Option<Seq<i8>>,
) -> Option<AttachmentView>
    decreases bytes.len() - pos,
{
    if pos >= bytes.len() {
        match (sn, ts, gid) {
            (Some(a), Some(b), Some(c)) => Some(
                AttachmentView { sequence_number: a, source_timestamp: b, source_gid: c },
            ),
            _ => None,
        }
    } else {
        let l = bytes[pos] as int;
        if l >= 128 || pos + 1 + l > bytes.len() {
            None
        } else {
            let tag = bytes.subrange(pos + 1, pos + 1 + l);
            let vpos = pos + 1 + l;
            if tag == spec_tag_sequence_number() {
                if vpos + 8 <= bytes.len() {
                    spec_decode_loop(
                        bytes,
                        vpos + 8,
                        Some(spec_int_of_u64(spec_le_val(bytes.subrange(vpos, vpos + 8)))),
                        ts,
                        gid,
                    )
                } else {
                    None
                }
            } else if tag == spec_tag_source_timestamp() {
                if vpos + 8 <= bytes.len() {
                    spec_decode_loop(
                        bytes,
                        vpos + 8,
                        sn,
                        Some(spec_int_of_u64(spec_le_val(bytes.subrange(vpos, vpos + 8)))),
                        gid,
                    )
                } else {
                    None
                }
            } else if tag == spec_tag_source_gid() {
                if vpos + 17 <= bytes.len() && bytes[vpos] == 16 {
                    spec_decode_loop(
                        bytes,
                        vpos + 17,
                        sn,
                        ts,
                        Some(
                            bytes.subrange(vpos + 1, vpos + 17).map_values(
                                |b: u8| spec_i8_of_u8(b),
                            ),
                        ),
                    )
                } else {
                    None
                }
            } else {
                None
            }
        }
    }
}

/// What decoding a byte stream yields, if anything.
pub open spec fn spec_decode_attachment(bytes: Seq<u8>) -> Option<AttachmentView> {
    spec_decode_loop(bytes, 0, None, None, None)
}

spec fn opt_int(o: Option<i64>) -> Option<int> {
    match o {
        Some(v) => Some(v as int),
        None => None,
    }
}

spec fn opt_gid(o: Option<[i8; 16]>) -> Option<Seq<i8>> {
    match o {
        Some(a) => Some(a@),
        None => None,
    }
}

/// Compares the bytes starting at `pos` against a pattern.
fn region_matches(bytes: &Vec<u8>, pos: usize, pat: &Vec<u8>) -> (r: bool)
    requires
        pos + pat@.len() <= bytes@.len(),
    ensures
        r == (bytes@.subrange(pos as int, pos + pat@.len()) == pat@),
{
    let n = bytes.len();
    let m = pat.len();
    let mut j: usize = 0;
    while j < m
        invariant
            j <= m,
            n == bytes@.len(),
            m == pat@.len(),
            pos + m <= n,
            forall|k: int| 0 <= k < j ==> bytes@[pos + k] == pat@[k],
        decreases m - j,
    {
        if bytes[pos + j] != pat[j] {
            proof {
                assert(bytes@.subrange(pos as int, pos + pat@.len())[j as int] == bytes@[pos + j]);
            }
            return false;
        }
        j = j + 1;
    }
    proof {
        assert(bytes@.subrange(pos as int, pos + pat@.len()) =~= pat@);
    }
    true
}

/// Reads sixteen GID bytes starting at `pos`, in signed form.
fn read_gid(bytes: &Vec<u8>, pos: usize) -> (g: [i8; 16])
    requires
        pos + 16 <= bytes@.len(),
    ensures
        g@ == bytes@.subrange(pos as int, pos + 16).map_values(|b: u8| spec_i8_of_u8(b)),
{
    let n = bytes.len();
    let mut g = [0i8; 16];
    let mut i: usize = 0;
    while i < 16
        invariant
            i <= 16,
            n == bytes@.len(),
            pos + 16 <= n,
            forall|j: int| 0 <= j < i ==> g@[j] == spec_i8_of_u8(bytes@[pos + j]),
        decreases 16 - i,
    {
        g[i] = u8_to_i8(bytes[pos + i]);
        i = i + 1;
    }
    proof {
        assert(g@ =~= bytes@.subrange(pos as int, pos + 16).map_values(|b: u8| spec_i8_of_u8(b)));
    }
    g
}

impl Attachment {
    /// Decodes an attachment from its byte form; fails on a long length
    /// prefix, an unknown tag, a truncated value, or a missing field.
    pub fn from_bytes(bytes: &Vec<u8>) -> (r: Result<Attachment, ()>)
        ensures
            r matches Ok(a) ==> spec_decode_attachment(bytes@) == Some(a@),
            r is Err ==> spec_decode_attachment(bytes@) is None,
    {
        let tag_sn = tag_sequence_number();
        let tag_ts = tag_source_timestamp();
        let tag_gid = tag_source_gid();
        let n = bytes.len();
        let mut pos: usize = 0;
        let mut sn: Option<i64> = None;
        let mut ts: Option<i64> = None;
        let mut gid: Option<[i8; 16]> = None;
        while pos < n
            invariant
                pos <= n,
                n == bytes@.len(),
                tag_sn@ == spec_tag_sequence_number(),
                tag_sn@.len() == 15,
                tag_ts@ == spec_tag_source_timestamp(),
                tag_ts@.len() == 16,
                tag_gid@ == spec_tag_source_gid(),
                tag_gid@.len() == 10,
                spec_decode_attachment(bytes@) == spec_decode_loop(
                    bytes@,
                    pos as int,
                    opt_int(sn),
                    opt_int(ts),
                    opt_gid(gid),
                ),
            decreases n - pos,
        {
            let l = bytes[pos] as usize;
            if l >= 128 {
                return Err(());
            }
            if l > n - (pos + 1) {
                return Err(());
            }
            let vstart = pos + 1 + l;
            if l == 15 && region_matches(bytes, pos + 1, &tag_sn) {
                if 8 > n - vstart {
                    return Err(());
                }
                let v = read_le_u64(bytes, vstart);
                sn = Some(u64_to_i64(v));
                pos = vstart + 8;
            } else if l == 16 && region_matches(bytes, pos + 1, &tag_ts) {
                if 8 > n - vstart {
                    return Err(());
                }
                let v = read_le_u64(bytes, vstart);
                ts = Some(u64_to_i64(v));
                pos = vstart + 8;
            } else if l == 10 && region_matches(bytes, pos + 1, &tag_gid) {
                if 17 > n - vstart {
                    return Err(());
                }
                if bytes[vstart] != 16 {
                    return Err(());
                }
                gid = Some(read_gid(bytes, vstart + 1));
                pos = vstart + 17;
            } else {
                proof {
                    let tag = bytes@.subrange(pos + 1, pos + 1 + l);
                    assert(tag.len() == l);
                    assert(tag != spec_tag_sequence_number());
                    assert(tag != spec_tag_source_timestamp());
                    assert(tag != spec_tag_source_gid());
                }
                return Err(());
            }
        }
        let a = match (sn, ts, gid) {
            (Some(a), Some(b), Some(c)) => Attachment {
                sequence_number: a,
                source_timestamp: b,
                source_gid: c,
            },
            _ => {
                return Err(());
            },
        };
        Ok(a)
    }
}

/// Encoding an attachment and decoding the bytes yields the attachment
/// back.
pub proof fn lemma_attachment_round_trip(v: AttachmentView)
    requires
        i64::MIN <= v.sequence_number <= i64::MAX,
        i64::MIN <= v.source_timestamp <= i64::MAX,
        v.source_gid.len() == 16,
    ensures
        spec_decode_attachment(spec_encode_attachment(v)) == Some(v),
{
    lemma_tag_lens();
    lemma_pow256_values();
    let bytes = spec_encode_attachment(v);
    let w1 = spec_u64_of_int(v.sequence_number);
    let w2 = spec_u64_of_int(v.source_timestamp);
    let v1 = spec_le_bytes(w1, 8);
    let v2 = spec_le_bytes(w2, 8);
    let g = v.source_gid.map_values(|b: i8| spec_u8_of_i8(b));
    lemma_le_bytes_len(w1, 8);
    lemma_le_bytes_len(w2, 8);
    lemma_u64_int_round_trip(v.sequence_number);
    lemma_u64_int_round_trip(v.source_timestamp);
    lemma_le_round_trip(w1, 8);
    lemma_le_round_trip(w2, 8);
    assert(bytes.len() == 77);
    // Field one: tag at 0, value at 16.
    assert(bytes[0] == 15);
    assert(bytes.subrange(1, 16) =~= spec_tag_sequence_number());
    assert(bytes.subrange(16, 24) =~= v1);
    assert(spec_int_of_u64(spec_le_val(bytes.subrange(16, 24))) == v.sequence_number);
    // Field two: tag at 24, value at 41.
    assert(bytes[24] == 16);
    assert(bytes.subrange(25, 41) =~= spec_tag_source_timestamp());
    assert(bytes.subrange(25, 41) != spec_tag_sequence_number());
    assert(bytes.subrange(41, 49) =~= v2);
    assert(spec_int_of_u64(spec_le_val(bytes.subrange(41, 49))) == v.source_timestamp);
    // Field three: tag at 49, length byte at 60, bytes at 61.
    assert(bytes[49] == 10);
    assert(bytes.subrange(50, 60) =~= spec_tag_source_gid());
    assert(bytes.subrange(50, 60) != spec_tag_sequence_number());
    assert(bytes.subrange(50, 60) != spec_tag_source_timestamp());
    assert(bytes[60] == 16);
    assert(bytes.subrange(61, 77) =~= g);
    assert(bytes.subrange(61, 77).map_values(|b: u8| spec_i8_of_u8(b)) =~= v.source_gid) by {
        assert forall|i: int| 0 <= i < 16 implies g.map_values(|b: u8| spec_i8_of_u8(b))[i]
            == v.source_gid[i] by {
            lemma_u8_i8_round_trip(v.source_gid[i]);
        }
        assert(bytes.subrange(61, 77) =~= g);
    }
    assert(spec_decode_loop(bytes, 0, None, None, None) == spec_decode_loop(
        bytes,
        24,
        Some(v.sequence_number),
        None,
        None,
    ));
    assert(spec_decode_loop(bytes, 24, Some(v.sequence_number), None, None) == spec_decode_loop(
        bytes,
        49,
        Some(v.sequence_number),
        Some(v.source_timestamp),
        None,
    ));
    assert(spec_decode_loop(
        bytes,
        49,
        Some(v.sequence_number),
        Some(v.source_timestamp),
        None,
    ) == spec_decode_loop(
        bytes,
        77,
        Some(v.sequence_number),
        Some(v.source_timestamp),
        Some(v.source_gid),
    ));
    assert(spec_decode_attachment(bytes) == Some(v));
}

} // verus!
