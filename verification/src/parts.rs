//! Digests of the parts of a multipart upload and what is made of them.

use crate::text::{decimal_text, hex_text, joined};
use vstd::prelude::*;
use vstd::string::*;

verus! {

/// The 16-byte MD5 digest of the data.
pub uninterp spec fn md5_hash(data: Seq<u8>) -> Seq<u8>;

/// The checksum of the data by the CRC of the given width: CRC-32C for 32,
/// CRC-64/NVME for 64.
pub uninterp spec fn crc_of(width: nat, data: Seq<u8>) -> u64;

/// What combining two checksums yields, the second over `len` bytes.
pub uninterp spec fn crc_joined(width: nat, first: u64, second: u64, len: u64) -> u64;

/// The checksums that are kept of a part.
#[derive(Debug, Clone, Copy, PartialEq, Eq, Structural)]
pub enum Crc {
    /// CRC-32C, known as CRC-32/ISCSI too.
    Crc32c,
    /// CRC-64/NVME.
    Crc64Nvme,
}

impl View for Crc {
    type V = nat;

    /// The width of the checksum in bits.
    open spec fn view(&self) -> nat {
        match self {
            Crc::Crc32c => 32,
            Crc::Crc64Nvme => 64,
        }
    }
}

/// Calls `md5::Md5::digest`, trusted to be a function of the data.
#[verifier::external_body]
fn md5_digest(data: &[u8]) -> (digest: [u8; 16])
    ensures
        digest@ == md5_hash(data@),
{
    <md5::Md5 as md5::Digest>::digest(data).into()
}

/// Calls `crc_fast::checksum`, trusted to be a function of the algorithm and the
/// data.
#[verifier::external_body]
fn crc_checksum(crc: Crc, data: &[u8]) -> (checksum: u64)
    ensures
        checksum == crc_of(crc@, data@),
{
    let algorithm = match crc {
        Crc::Crc32c => crc_fast::CrcAlgorithm::Crc32Iscsi,
        Crc::Crc64Nvme => crc_fast::CrcAlgorithm::Crc64Nvme,
    };
    crc_fast::checksum(algorithm, data)
}

/// Calls `crc_fast::checksum_combine`, trusted to be a function of its arguments
/// and to turn the checksums of two byte sequences, with the length of the
/// second, into the checksum of both in a row.
#[verifier::external_body]
fn crc_combine(crc: Crc, first: u64, second: u64, len: u64) -> (checksum: u64)
    ensures
        checksum == crc_joined(crc@, first, second, len),
        forall|x: Seq<u8>, y: Seq<u8>|
            #![trigger crc_of(crc@, x), crc_of(crc@, y)]
            first == crc_of(crc@, x) && second == crc_of(crc@, y) && len == y.len() ==> checksum
                == crc_of(crc@, x + y),
{
    let algorithm = match crc {
        Crc::Crc32c => crc_fast::CrcAlgorithm::Crc32Iscsi,
        Crc::Crc64Nvme => crc_fast::CrcAlgorithm::Crc64Nvme,
    };
    crc_fast::checksum_combine(algorithm, first, second, len)
}

/// Per-part digest metadata computed during upload.
#[derive(Debug, Clone, Copy)]
pub struct PartDigests {
    pub part_number: u32,
    pub offset: u64,
    pub size: u64,
    pub md5: [u8; 16],
    pub crc32c: u64,
    pub crc64nvme: u64,
}

impl PartDigests {
    /// This describes `data` as the part with the given number at `offset`.
    pub open spec fn describes(self, part_number: int, offset: int, data: Seq<u8>) -> bool {
        &&& self.part_number == part_number
        &&& self.offset == offset
        &&& self.digests(data)
    }

    /// The size and the digests are those of `data`.
    pub open spec fn digests(self, data: Seq<u8>) -> bool {
        &&& self.size == data.len()
        &&& self.md5@ == md5_hash(data)
        &&& self.crc32c == crc_of(32, data)
        &&& self.crc64nvme == crc_of(64, data)
    }

    /// The checksum of the given kind.
    pub open spec fn checksum(self, crc: Crc) -> u64 {
        match crc {
            Crc::Crc32c => self.crc32c,
            Crc::Crc64Nvme => self.crc64nvme,
        }
    }

    /// The checksum of the given kind.
    fn crc(&self, crc: Crc) -> (checksum: u64)
        ensures
            checksum == self.checksum(crc),
    {
        match crc {
            Crc::Crc32c => self.crc32c,
            Crc::Crc64Nvme => self.crc64nvme,
        }
    }

    /// Digest a part.
    pub fn of(part_number: u32, offset: u64, data: &[u8]) -> (part: Self)
        ensures
            part.describes(part_number as int, offset as int, data@),
    {
        PartDigests {
            part_number,
            offset,
            size: data.len() as u64,
            md5: md5_digest(data),
            crc32c: crc_checksum(Crc::Crc32c, data),
            crc64nvme: crc_checksum(Crc::Crc64Nvme, data),
        }
    }
}

/// The MD5 digests of the parts in a row.
pub open spec fn part_md5s(parts: Seq<PartDigests>) -> Seq<u8>
    decreases parts.len(),
{
    if parts.len() == 0 {
        Seq::empty()
    } else {
        part_md5s(parts.drop_last()) + parts.last().md5@
    }
}

/// The composite ETag of a multipart upload: the MD5 of the parts' MD5 digests
/// and the number of parts, in quotes.
pub open spec fn composite_etag(parts: Seq<PartDigests>) -> Option<Seq<char>> {
    if parts.len() == 0 {
        None
    } else {
        Some(etag_of(md5_hash(part_md5s(parts)), parts.len()))
    }
}

/// An ETag: the digest in hexadecimal and the number of parts, in quotes.
pub open spec fn etag_of(digest: Seq<u8>, count: nat) -> Seq<char> {
    "\""@ + crate::text::hex_lower(digest) + "-"@ + crate::text::decimal(count) + "\""@
}

/// Write an ETag from the digest of the parts' digests.
pub fn etag_text(digest: &[u8; 16], count: usize) -> (etag: String)
    ensures
        etag@ == etag_of(digest@, count as nat),
{
    let mut text = joined("\"", hex_text(digest.as_slice()).as_str());
    text.append("-");
    text.append(decimal_text(count as u128).as_str());
    text.append("\"");
    text
}

/// Compute the composite ETag from the parts' MD5 digests.
pub fn compute_composite_etag(parts: &[PartDigests]) -> (etag: Option<String>)
    ensures
        match etag {
            Some(e) => composite_etag(parts@) == Some(e@),
            None => composite_etag(parts@) is None,
        },
        etag is Some <==> parts@.len() > 0,
        etag is Some ==> md5_hash(part_md5s(parts@)).len() == 16,
{
    if parts.len() == 0 {
        return None;
    }
    let mut md5s: Vec<u8> = Vec::new();
    let mut i: usize = 0;
    assert(parts@.take(0) =~= Seq::<PartDigests>::empty());
    while i < parts.len()
        invariant
            i <= parts@.len(),
            md5s@ == part_md5s(parts@.take(i as int)),
        decreases parts@.len() - i,
    {
        let md5: [u8; 16] = parts[i].md5;
        md5s.extend_from_slice(md5.as_slice());
        proof {
            assert(parts@.take(i + 1).drop_last() =~= parts@.take(i as int));
            assert(md5s@ =~= part_md5s(parts@.take(i + 1)));
        }
        i = i + 1;
    }
    assert(parts@.take(i as int) =~= parts@);
    let digest = md5_digest(md5s.as_slice());
    Some(etag_text(&digest, parts.len()))
}

/// The checksum of the parts in a row, by combining the parts' own.
pub open spec fn crc_over(crc: Crc, parts: Seq<PartDigests>) -> u64
    decreases parts.len(),
{
    if parts.len() <= 1 {
        parts[0].checksum(crc)
    } else {
        crc_joined(
            crc@,
            crc_over(crc, parts.drop_last()),
            parts.last().checksum(crc),
            parts.last().size,
        )
    }
}

/// The pieces in a row.
pub open spec fn in_a_row(pieces: Seq<Seq<u8>>) -> Seq<u8>
    decreases pieces.len(),
{
    if pieces.len() == 0 {
        Seq::empty()
    } else {
        in_a_row(pieces.drop_last()) + pieces.last()
    }
}

/// Each part has the size and the digests of its piece.
pub open spec fn digests_of(parts: Seq<PartDigests>, pieces: Seq<Seq<u8>>) -> bool {
    &&& parts.len() == pieces.len()
    &&& forall|i: int| 0 <= i < parts.len() ==> (#[trigger] parts[i]).digests(pieces[i])
}

/// The MD5 digests of the pieces in a row.
pub open spec fn piece_md5s(pieces: Seq<Seq<u8>>) -> Seq<u8>
    decreases pieces.len(),
{
    if pieces.len() == 0 {
        Seq::empty()
    } else {
        piece_md5s(pieces.drop_last()) + md5_hash(pieces.last())
    }
}

/// The parts' MD5 digests are those of their pieces.
proof fn part_md5s_of_pieces(parts: Seq<PartDigests>, pieces: Seq<Seq<u8>>)
    requires
        digests_of(parts, pieces),
    ensures
        part_md5s(parts) == piece_md5s(pieces),
    decreases parts.len(),
{
    if parts.len() > 0 {
        assert(digests_of(parts.drop_last(), pieces.drop_last())) by {
            assert forall|i: int| 0 <= i < parts.drop_last().len() implies (
            #[trigger] parts.drop_last()[i]).digests(pieces.drop_last()[i]) by {
                assert(parts[i].digests(pieces[i]));
            }
        }
        part_md5s_of_pieces(parts.drop_last(), pieces.drop_last());
        assert(parts[parts.len() - 1].digests(pieces[parts.len() - 1]));
    }
}

/// The composite ETag is made of the MD5 digests of the pieces and of their
/// number; there is none without a piece.
pub proof fn law_etag_of_pieces(parts: Seq<PartDigests>, pieces: Seq<Seq<u8>>)
    requires
        digests_of(parts, pieces),
    ensures
        pieces.len() == 0 ==> composite_etag(parts) is None,
        pieces.len() > 0 ==> composite_etag(parts) == Some(
            etag_of(md5_hash(piece_md5s(pieces)), pieces.len()),
        ),
{
    part_md5s_of_pieces(parts, pieces);
}

/// The first of the pieces in a row, then one more.
proof fn in_a_row_step(pieces: Seq<Seq<u8>>, i: int)
    requires
        0 <= i < pieces.len(),
    ensures
        in_a_row(pieces.take(i + 1)) == in_a_row(pieces.take(i)) + pieces[i],
{
    assert(pieces.take(i + 1).drop_last() =~= pieces.take(i));
}

/// The combined checksum of the parts; none without a part. Where the parts are
/// digests of pieces of content, it is the checksum of the whole content.
pub fn combined_crc(crc: Crc, parts: &[PartDigests]) -> (checksum: Option<u64>)
    ensures
        match checksum {
            None => parts@.len() == 0,
            Some(c) => {
                &&& parts@.len() > 0
                &&& c == crc_over(crc, parts@)
                &&& forall|pieces: Seq<Seq<u8>>| #[trigger]
                    digests_of(parts@, pieces) ==> c == crc_of(crc@, in_a_row(pieces))
            },
        },
{
    if parts.len() == 0 {
        return None;
    }
    let mut running: u64 = parts[0].crc(crc);
    let mut i: usize = 1;
    proof {
        assert forall|pieces: Seq<Seq<u8>>| #[trigger]
            digests_of(parts@, pieces) implies running == crc_of(
            crc@,
            in_a_row(pieces.take(1)),
        ) by {
            assert(parts@[0].digests(pieces[0]));
            assert(pieces.take(0) =~= Seq::<Seq<u8>>::empty());
            in_a_row_step(pieces, 0);
            assert(Seq::<u8>::empty() + pieces[0] =~= pieces[0]);
        }
    }
    while i < parts.len()
        invariant
            1 <= i <= parts@.len(),
            running == crc_over(crc, parts@.take(i as int)),
            forall|pieces: Seq<Seq<u8>>| #[trigger]
                digests_of(parts@, pieces) ==> running == crc_of(
                    crc@,
                    in_a_row(pieces.take(i as int)),
                ),
        decreases parts@.len() - i,
    {
        let ghost before = running;
        running = crc_combine(crc, running, parts[i].crc(crc), parts[i].size);
        proof {
            assert(parts@.take(i + 1).drop_last() =~= parts@.take(i as int));
            assert forall|pieces: Seq<Seq<u8>>| #[trigger]
                digests_of(parts@, pieces) implies running == crc_of(
                crc@,
                in_a_row(pieces.take(i + 1)),
            ) by {
                assert(parts@[i as int].digests(pieces[i as int]));
                in_a_row_step(pieces, i as int);
                assert(before == crc_of(crc@, in_a_row(pieces.take(i as int))));
            }
        }
        i = i + 1;
    }
    proof {
        assert(parts@.take(i as int) =~= parts@);
        assert forall|pieces: Seq<Seq<u8>>| #[trigger]
            digests_of(parts@, pieces) implies running == crc_of(crc@, in_a_row(pieces)) by {
            assert(pieces.take(i as int) =~= pieces);
        }
    }
    Some(running)
}

/// The ETag reads as the digest and the count: a quote, the digest in hexadecimal,
/// a hyphen, the numeral of the count, and a quote.
pub open spec fn etag_reads_as(etag: Seq<char>, digest: Seq<u8>, count: nat) -> bool {
    let hyphen = 1 + 2 * digest.len() as int;
    let end = etag.len() - 1;
    &&& hyphen + 1 < end
    &&& etag[0] == '"'
    &&& crate::text::hex_reads_as(etag.subrange(1, hyphen), digest)
    &&& etag[hyphen] == '-'
    &&& crate::text::numeral_value(etag.subrange(hyphen + 1, end)) == count
    &&& forall|i: int|
        hyphen < i < end ==> '0' as int <= #[trigger] etag[i] as int <= '9' as int
    &&& etag[end] == '"'
}

/// An ETag reads as what it was made of.
proof fn etag_reads_back(digest: Seq<u8>, count: nat)
    ensures
        etag_reads_as(etag_of(digest, count), digest, count),
{
    reveal_strlit("\"");
    reveal_strlit("-");
    let etag = etag_of(digest, count);
    let hex = crate::text::hex_lower(digest);
    let numeral = crate::text::decimal(count);
    let hyphen = 1 + 2 * digest.len() as int;
    crate::text::law_hex_reads_back(digest);
    crate::text::law_decimal_reads_back(count);
    assert(etag.subrange(1, hyphen) =~= hex);
    assert(etag.subrange(hyphen + 1, etag.len() - 1) =~= numeral);
    assert forall|i: int|
        hyphen < i < etag.len() - 1 implies '0' as int <= #[trigger] etag[i] as int
        <= '9' as int by {
        assert(etag[i] == numeral[i - hyphen - 1]);
    }
}

/// An ETag that is written reads back, for every count: between quotes stand the
/// 32 hexadecimal digits of the digest, a hyphen and the numeral of the count.
pub proof fn law_etag_reads_back(digest: &[u8; 16], count: usize, etag: String)
    requires
        call_ensures(etag_text, (digest, count), etag),
    ensures
        etag_reads_as(etag@, digest@, count as nat),
        etag@.len() >= 36,
        etag@[33] == '-',
{
    etag_reads_back(digest@, count as nat);
}

/// ETags of different numbers of parts differ, and so do those of different
/// digests.
pub proof fn law_etags_differ(
    digest: &[u8; 16],
    count: usize,
    etag: String,
    other_digest: &[u8; 16],
    other_count: usize,
    other: String,
)
    requires
        call_ensures(etag_text, (digest, count), etag),
        call_ensures(etag_text, (other_digest, other_count), other),
        etag@ == other@,
    ensures
        count == other_count,
        digest@ == other_digest@,
{
    law_etag_reads_back(digest, count, etag);
    law_etag_reads_back(other_digest, other_count, other);
    assert(digest@ =~= other_digest@);
}

/// The parts' digests stand one behind the other, sixteen bytes each.
proof fn part_md5s_at(parts: Seq<PartDigests>, md5s: Seq<u8>, n: int)
    requires
        0 <= n <= parts.len(),
        md5s.len() == 16 * parts.len(),
        forall|i: int, j: int|
            0 <= i < parts.len() && 0 <= j < 16 ==> md5s[16 * i + j]
                == #[trigger] parts[i].md5@[j],
    ensures
        part_md5s(parts.take(n)) == md5s.take(16 * n),
    decreases n,
{
    if n == 0 {
        assert(parts.take(0) =~= Seq::<PartDigests>::empty());
        assert(md5s.take(0) =~= Seq::<u8>::empty());
    } else {
        part_md5s_at(parts, md5s, n - 1);
        assert(parts.take(n).drop_last() =~= parts.take(n - 1));
        let last = parts[n - 1].md5@;
        assert forall|j: int| 0 <= j < 16 implies last[j] == md5s[16 * (n - 1) + j] by {
            assert(md5s[16 * (n - 1) + j] == parts[n - 1].md5@[j]);
        }
        assert(md5s.take(16 * n) =~= md5s.take(16 * (n - 1)) + last);
    }
}

/// The composite ETag of parts, for one part as for many, reads as the MD5 of
/// their MD5 digests in a row and as their number. There is none without a part.
pub proof fn law_composite_etag(parts: &[PartDigests], md5s: Seq<u8>, etag: Option<String>)
    requires
        call_ensures(compute_composite_etag, (parts,), etag),
        md5s.len() == 16 * parts@.len(),
        forall|i: int, j: int|
            0 <= i < parts@.len() && 0 <= j < 16 ==> md5s[16 * i + j]
                == #[trigger] parts@[i].md5@[j],
    ensures
        etag is None <==> parts@.len() == 0,
        etag matches Some(e) ==> {
            &&& md5_hash(md5s).len() == 16
            &&& etag_reads_as(e@, md5_hash(md5s), parts@.len())
        },
{
    let n = parts@.len() as int;
    part_md5s_at(parts@, md5s, n);
    assert(parts@.take(n) =~= parts@);
    assert(md5s.take(16 * n) =~= md5s);
    etag_reads_back(md5_hash(md5s), parts@.len());
}

/// A part that was digested has its number, its place, its length and the digests
/// of its own data.
pub proof fn law_part_is_digested(
    part_number: u32,
    offset: u64,
    data: &[u8],
    part: PartDigests,
)
    requires
        call_ensures(PartDigests::of, (part_number, offset, data), part),
    ensures
        part.part_number == part_number,
        part.offset == offset,
        part.size == data@.len(),
        part.md5@ == md5_hash(data@),
        part.crc32c == crc_of(32, data@),
        part.crc64nvme == crc_of(64, data@),
{
}

/// Pieces in a row begin with nothing, and one more piece stands behind them all.
pub proof fn law_pieces_in_a_row(pieces: Seq<Seq<u8>>, piece: Seq<u8>)
    ensures
        in_a_row(Seq::<Seq<u8>>::empty()) == Seq::<u8>::empty(),
        in_a_row(pieces.push(piece)) == in_a_row(pieces) + piece,
{
    assert(pieces.push(piece).drop_last() =~= pieces);
}

/// The combined checksum of one part is its own. Where the parts have the sizes and
/// the checksums of pieces of content, it is the checksum of the whole content,
/// however it was cut. There is none without a part.
pub proof fn law_combined_checksum(
    crc: Crc,
    parts: &[PartDigests],
    pieces: Seq<Seq<u8>>,
    checksum: Option<u64>,
)
    requires
        call_ensures(combined_crc, (crc, parts), checksum),
        parts@.len() == pieces.len(),
        forall|i: int|
            0 <= i < parts@.len() ==> {
                &&& (#[trigger] parts@[i]).size == pieces[i].len()
                &&& parts@[i].md5@ == md5_hash(pieces[i])
                &&& parts@[i].crc32c == crc_of(32, pieces[i])
                &&& parts@[i].crc64nvme == crc_of(64, pieces[i])
            },
    ensures
        checksum is None <==> pieces.len() == 0,
        crc is Crc32c && pieces.len() > 0 ==> checksum == Some(crc_of(32, in_a_row(pieces))),
        crc is Crc64Nvme && pieces.len() > 0 ==> checksum == Some(crc_of(64, in_a_row(pieces))),
{
    assert(digests_of(parts@, pieces));
}

/// Whatever the parts are, the combined checksum of one part is its own, and a part
/// behind others is joined to their combined checksum by its own and its size.
pub proof fn law_checksums_are_joined(
    crc: Crc,
    parts: &[PartDigests],
    checksum: Option<u64>,
    more: &[PartDigests],
    longer: Option<u64>,
    part: PartDigests,
)
    requires
        call_ensures(combined_crc, (crc, parts), checksum),
        call_ensures(combined_crc, (crc, more), longer),
        more@ == parts@.push(part),
    ensures
        parts@.len() == 0 && crc is Crc32c ==> longer == Some(part.crc32c),
        parts@.len() == 0 && crc is Crc64Nvme ==> longer == Some(part.crc64nvme),
        parts@.len() > 0 && crc is Crc32c ==> longer == Some(
            crc_joined(32, checksum->0, part.crc32c, part.size),
        ),
        parts@.len() > 0 && crc is Crc64Nvme ==> longer == Some(
            crc_joined(64, checksum->0, part.crc64nvme, part.size),
        ),
{
    assert(more@.drop_last() =~= parts@);
    assert(more@.last() == part);
}

} // verus!
