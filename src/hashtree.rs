//! Hash-tree (dm-verity) descriptors.
use crate::error::{DescriptorError, DescriptorResult};
use crate::util::{
    nul_terminated_text, parse_descriptor, parsed_spec, split_slice, until_nul, utf8_text,
    DescriptorHeader, DESCRIPTOR_PREFIX_SIZE,
};
use vstd::prelude::*;
use vstd::string::StringSliceAdditionalSpecFns;
use vstd::utf8::valid_utf8;

verus! {

/// Size of a hash-tree descriptor header on the wire.
pub const HASHTREE_HEADER_SIZE: usize = 180;

/// Offset of the hash algorithm name within the wire header.
pub const HASH_ALGORITHM_OFFSET: usize = 72;

/// Width of the hash algorithm name field.
pub const HASH_ALGORITHM_WIDTH: usize = 32;

/// Flag bits of a hash-tree descriptor, carried as they stand.
#[derive(Clone, Copy, Debug, PartialEq, Eq, Structural)]
pub struct HashtreeDescriptorFlags(pub u32);

/// The fields of a hash-tree descriptor header in host byte order, as the
/// validator for this kind returns them once it has accepted the header.
#[derive(Clone, Copy, Debug, PartialEq, Eq, Structural)]
pub struct HashtreeHeader {
    /// Bytes of the descriptor after its tag and this count.
    pub num_bytes_following: u64,
    pub dm_verity_version: u32,
    pub image_size: u64,
    pub tree_offset: u64,
    pub tree_size: u64,
    pub data_block_size: u32,
    pub hash_block_size: u32,
    pub fec_num_roots: u32,
    pub fec_offset: u64,
    pub fec_size: u64,
    pub partition_name_len: u32,
    pub salt_len: u32,
    pub root_digest_len: u32,
    pub flags: u32,
}

impl DescriptorHeader for HashtreeHeader {
    open spec fn spec_wire_size() -> nat {
        HASHTREE_HEADER_SIZE as nat
    }

    open spec fn spec_num_bytes_following(&self) -> nat {
        self.num_bytes_following as nat
    }

    fn wire_size() -> (r: usize) {
        HASHTREE_HEADER_SIZE
    }

    fn num_bytes_following(&self) -> (r: u64) {
        self.num_bytes_following
    }
}

/// A hash-tree descriptor, borrowed from the bytes it was parsed from.
#[derive(Debug, PartialEq, Eq)]
pub struct HashtreeDescriptor<'a> {
    /// DM-Verity version.
    pub dm_verity_version: u32,
    /// Hashed image size.
    pub image_size: u64,
    /// Offset to the root block of the hash tree.
    pub tree_offset: u64,
    /// Hash tree size.
    pub tree_size: u64,
    /// Data block size in bytes.
    pub data_block_size: u32,
    /// Hash block size in bytes.
    pub hash_block_size: u32,
    /// Number of forward error correction roots.
    pub fec_num_roots: u32,
    /// Offset to the forward error correction data.
    pub fec_offset: u64,
    /// Forward error correction data size.
    pub fec_size: u64,
    /// Hash algorithm name.
    pub hash_algorithm: &'a str,
    /// Flags.
    pub flags: HashtreeDescriptorFlags,
    /// Partition name.
    pub partition_name: &'a str,
    /// Salt used to hash the image.
    pub salt: &'a [u8],
    /// Image root hash digest.
    pub root_digest: &'a [u8],
}

/// The mathematical content of a `HashtreeDescriptor`: text fields as their
/// UTF-8 bytes.
pub struct HashtreeDescriptorView {
    pub dm_verity_version: u32,
    pub image_size: u64,
    pub tree_offset: u64,
    pub tree_size: u64,
    pub data_block_size: u32,
    pub hash_block_size: u32,
    pub fec_num_roots: u32,
    pub fec_offset: u64,
    pub fec_size: u64,
    pub hash_algorithm: Seq<u8>,
    pub flags: u32,
    pub partition_name: Seq<u8>,
    pub salt: Seq<u8>,
    pub root_digest: Seq<u8>,
}

impl<'a> View for HashtreeDescriptor<'a> {
    type V = HashtreeDescriptorView;

    open spec fn view(&self) -> HashtreeDescriptorView {
        HashtreeDescriptorView {
            dm_verity_version: self.dm_verity_version,
            image_size: self.image_size,
            tree_offset: self.tree_offset,
            tree_size: self.tree_size,
            data_block_size: self.data_block_size,
            hash_block_size: self.hash_block_size,
            fec_num_roots: self.fec_num_roots,
            fec_offset: self.fec_offset,
            fec_size: self.fec_size,
            hash_algorithm: self.hash_algorithm.spec_bytes(),
            flags: self.flags.0,
            partition_name: self.partition_name.spec_bytes(),
            salt: self.salt@,
            root_digest: self.root_digest@,
        }
    }
}

/// The hash algorithm field of a raw wire header.
pub open spec fn hash_algorithm_field(raw_header: Seq<u8>) -> Seq<u8> {
    raw_header.subrange(
        HASH_ALGORITHM_OFFSET as int,
        HASH_ALGORITHM_OFFSET + HASH_ALGORITHM_WIDTH,
    )
}

/// The descriptor that a header and its body describe, once the raw header's
/// hash algorithm name has been read as `algorithm`.
pub open spec fn assemble(h: HashtreeHeader, algorithm: Seq<u8>, body: Seq<u8>) -> HashtreeDescriptorView {
    let name_end = h.partition_name_len as int;
    let salt_end = name_end + h.salt_len;
    let digest_end = salt_end + h.root_digest_len;
    HashtreeDescriptorView {
        dm_verity_version: h.dm_verity_version,
        image_size: h.image_size,
        tree_offset: h.tree_offset,
        tree_size: h.tree_size,
        data_block_size: h.data_block_size,
        hash_block_size: h.hash_block_size,
        fec_num_roots: h.fec_num_roots,
        fec_offset: h.fec_offset,
        fec_size: h.fec_size,
        hash_algorithm: algorithm,
        flags: h.flags,
        partition_name: body.subrange(0, name_end),
        salt: body.subrange(name_end, salt_end),
        root_digest: body.subrange(salt_end, digest_end),
    }
}

/// What parsing `contents` as a hash-tree descriptor yields, given the
/// validator's verdict on its header bytes.
///
/// The body holds, in this order, the partition name, the salt and the root
/// digest; what follows them is padding.
pub open spec fn parse_hashtree(contents: Seq<u8>, validated: Option<HashtreeHeader>) -> Result<
    HashtreeDescriptorView,
    DescriptorError,
> {
    match parsed_spec(contents, validated) {
        Err(e) => Err(e),
        Ok((raw_header, h, body)) => {
            let name_len = h.partition_name_len as int;
            if body.len() < name_len + h.salt_len + h.root_digest_len {
                Err(DescriptorError::InvalidSize)
            } else {
                match until_nul(hash_algorithm_field(raw_header)) {
                    None => Err(DescriptorError::InvalidText),
                    Some(algorithm) => {
                        if !valid_utf8(algorithm) || !valid_utf8(body.subrange(0, name_len)) {
                            Err(DescriptorError::InvalidText)
                        } else {
                            Ok(assemble(h, algorithm, body))
                        }
                    },
                }
            }
        },
    }
}

impl<'a> HashtreeDescriptor<'a> {
    /// Extracts a hash-tree descriptor from `contents`, its header and body in
    /// raw big-endian form.
    ///
    /// `validated` is what the validator for this kind made of the first
    /// `HASHTREE_HEADER_SIZE` bytes: `None` where it rejected them.
    pub fn new(contents: &'a [u8], validated: Option<HashtreeHeader>) -> (r: DescriptorResult<
        HashtreeDescriptor<'a>,
    >)
        ensures
            match r {
                Ok(d) => parse_hashtree(contents@, validated) == Ok::<_, DescriptorError>(d@),
                Err(e) => parse_hashtree(contents@, validated) == Err::<HashtreeDescriptorView, _>(e),
            },
    {
        let descriptor = parse_descriptor(contents, validated)?;
        let header = descriptor.header;
        let (partition_name, remainder) = split_slice(
            descriptor.body,
            header.partition_name_len as usize,
        )?;
        let (salt, remainder) = split_slice(remainder, header.salt_len as usize)?;
        let (root_digest, _) = split_slice(remainder, header.root_digest_len as usize)?;

        // The name is read from the raw header: conversion to host order only
        // touches the integer fields.
        let (_, field) = descriptor.raw_header.split_at(HASH_ALGORITHM_OFFSET);
        let (field, _) = field.split_at(HASH_ALGORITHM_WIDTH);
        assert(field@ =~= hash_algorithm_field(descriptor.raw_header@));
        let hash_algorithm = nul_terminated_text(field)?;
        let partition_name = utf8_text(partition_name)?;

        let ghost body = descriptor.body@;
        assert(salt@ =~= body.subrange(
            header.partition_name_len as int,
            header.partition_name_len + header.salt_len,
        ));
        assert(root_digest@ =~= body.subrange(
            header.partition_name_len + header.salt_len,
            header.partition_name_len + header.salt_len + header.root_digest_len,
        ));
        Ok(HashtreeDescriptor {
            dm_verity_version: header.dm_verity_version,
            image_size: header.image_size,
            tree_offset: header.tree_offset,
            tree_size: header.tree_size,
            data_block_size: header.data_block_size,
            hash_block_size: header.hash_block_size,
            fec_num_roots: header.fec_num_roots,
            fec_offset: header.fec_offset,
            fec_size: header.fec_size,
            hash_algorithm,
            partition_name,
            salt,
            root_digest,
            flags: HashtreeDescriptorFlags(header.flags),
        })
    }
}

/// The descriptor that a well-formed encoding yields: the raw header `raw`,
/// whose hash algorithm field starts with the nul-terminated name `algorithm`,
/// then the partition name, the salt, the root digest and any padding. The
/// header `h` that the validator made of `raw` gives the three lengths and
/// declares at least its own size.
///
/// Parsing gives back every scalar field of `h` and every one of these byte
/// strings exactly.
pub proof fn lemma_round_trip(
    raw: Seq<u8>,
    h: HashtreeHeader,
    algorithm: Seq<u8>,
    name: Seq<u8>,
    salt: Seq<u8>,
    digest: Seq<u8>,
    padding: Seq<u8>,
)
    requires
        raw.len() == HASHTREE_HEADER_SIZE,
        algorithm.len() < HASH_ALGORITHM_WIDTH,
        raw.subrange(
            HASH_ALGORITHM_OFFSET as int,
            HASH_ALGORITHM_OFFSET + algorithm.len(),
        ) == algorithm,
        raw[HASH_ALGORITHM_OFFSET + algorithm.len()] == 0,
        forall|i: int| 0 <= i < algorithm.len() ==> algorithm[i] != 0,
        valid_utf8(algorithm),
        valid_utf8(name),
        h.partition_name_len == name.len(),
        h.salt_len == salt.len(),
        h.root_digest_len == digest.len(),
        h.num_bytes_following >= HASHTREE_HEADER_SIZE - DESCRIPTOR_PREFIX_SIZE,
    ensures
        parse_hashtree(raw + name + salt + digest + padding, Some(h)) == Ok::<_, DescriptorError>(
            (HashtreeDescriptorView {
                dm_verity_version: h.dm_verity_version,
                image_size: h.image_size,
                tree_offset: h.tree_offset,
                tree_size: h.tree_size,
                data_block_size: h.data_block_size,
                hash_block_size: h.hash_block_size,
                fec_num_roots: h.fec_num_roots,
                fec_offset: h.fec_offset,
                fec_size: h.fec_size,
                hash_algorithm: algorithm,
                flags: h.flags,
                partition_name: name,
                salt,
                root_digest: digest,
            }),
        ),
{
    let contents = raw + name + salt + digest + padding;
    let size = HASHTREE_HEADER_SIZE as int;
    let body = contents.subrange(size, contents.len() as int);
    assert(contents.subrange(0, size) =~= raw);
    assert(body =~= name + salt + digest + padding);
    let field = hash_algorithm_field(raw);
    let n = algorithm.len() as int;
    assert(field.subrange(0, n) =~= algorithm);
    assert(field[n] == 0);
    assert(forall|j: int| 0 <= j < n ==> field[j] != 0);
    let k = choose|k: int| 0 <= k < field.len() && field[k] == 0 && forall|j: int| 0 <= j < k ==> field[j] != 0;
    assert(k == n);
    assert(until_nul(field) == Some(algorithm));
    let name_end = name.len() as int;
    let salt_end = name_end + salt.len();
    assert(body.subrange(0, name_end) =~= name);
    assert(body.subrange(name_end, salt_end) =~= salt);
    assert(body.subrange(salt_end, salt_end + digest.len()) =~= digest);
}

/// The bytes that a hash-tree descriptor with header `h` needs: the fixed
/// header, the partition name, the salt and the root digest. Padding is not
/// counted: it is never required.
pub open spec fn needed_len(h: HashtreeHeader) -> int {
    HASHTREE_HEADER_SIZE + h.partition_name_len + h.salt_len + h.root_digest_len
}

/// Every prefix of a descriptor that stops short of the bytes its header `h`
/// needs is rejected: with `InvalidHeader` where the fixed header itself is
/// cut, with `InvalidSize` past it.
pub proof fn lemma_truncation(contents: Seq<u8>, h: HashtreeHeader, k: int)
    requires
        0 <= k <= contents.len(),
        k < needed_len(h),
        DESCRIPTOR_PREFIX_SIZE + h.num_bytes_following >= HASHTREE_HEADER_SIZE,
    ensures
        k < HASHTREE_HEADER_SIZE ==> parse_hashtree(contents.subrange(0, k), Some(h)) == Err::<
            HashtreeDescriptorView,
            _,
        >(DescriptorError::InvalidHeader),
        k >= HASHTREE_HEADER_SIZE ==> parse_hashtree(contents.subrange(0, k), Some(h)) == Err::<
            HashtreeDescriptorView,
            _,
        >(DescriptorError::InvalidSize),
{
}

/// Padding neither changes nor is needed for the result: a descriptor that
/// parses gives the same result once bytes are appended to it, and once it is
/// cut anywhere from the end of its root digest on.
pub proof fn lemma_padding(
    contents: Seq<u8>,
    validated: Option<HashtreeHeader>,
    extra: Seq<u8>,
    k: int,
)
    requires
        parse_hashtree(contents, validated) is Ok,
        validated matches Some(h) && needed_len(h) <= k <= contents.len(),
    ensures
        parse_hashtree(contents + extra, validated) == parse_hashtree(contents, validated),
        parse_hashtree(contents.subrange(0, k), validated) == parse_hashtree(contents, validated),
{
    let h = validated->Some_0;
    let size = HASHTREE_HEADER_SIZE as int;
    let end = needed_len(h) - size;
    let name_end = h.partition_name_len as int;
    let body = contents.subrange(size, contents.len() as int);
    let longer = contents + extra;
    let shorter = contents.subrange(0, k);
    let long_body = longer.subrange(size, longer.len() as int);
    let short_body = shorter.subrange(size, k);
    assert(longer.subrange(0, size) =~= contents.subrange(0, size));
    assert(shorter.subrange(0, size) =~= contents.subrange(0, size));
    assert(long_body.subrange(0, end) =~= body.subrange(0, end));
    assert(short_body.subrange(0, end) =~= body.subrange(0, end));
    assert(long_body.subrange(0, name_end) =~= body.subrange(0, name_end));
    assert(short_body.subrange(0, name_end) =~= body.subrange(0, name_end));
    assert(assemble(h, until_nul(hash_algorithm_field(contents.subrange(0, size)))->Some_0, long_body)
        =~= assemble(h, until_nul(hash_algorithm_field(contents.subrange(0, size)))->Some_0, body)) by {
        assert(long_body.subrange(name_end, name_end + h.salt_len) =~= body.subrange(name_end, name_end + h.salt_len));
        assert(long_body.subrange(name_end + h.salt_len, end) =~= body.subrange(name_end + h.salt_len, end));
    }
    assert(assemble(h, until_nul(hash_algorithm_field(contents.subrange(0, size)))->Some_0, short_body)
        =~= assemble(h, until_nul(hash_algorithm_field(contents.subrange(0, size)))->Some_0, body)) by {
        assert(short_body.subrange(name_end, name_end + h.salt_len) =~= body.subrange(name_end, name_end + h.salt_len));
        assert(short_body.subrange(name_end + h.salt_len, end) =~= body.subrange(name_end + h.salt_len, end));
    }
}

/// Text fields are checked: a descriptor that holds all the bytes its header
/// `h` needs is rejected with `InvalidText` where its hash algorithm field
/// holds no nul, where the name before the nul is not UTF-8, or where its
/// partition name is not UTF-8.
pub proof fn lemma_text_rejected(contents: Seq<u8>, h: HashtreeHeader)
    requires
        contents.len() >= needed_len(h),
        DESCRIPTOR_PREFIX_SIZE + h.num_bytes_following >= HASHTREE_HEADER_SIZE,
    ensures
        (forall|i: int|
            HASH_ALGORITHM_OFFSET <= i < HASH_ALGORITHM_OFFSET + HASH_ALGORITHM_WIDTH
                ==> contents[i] != 0) ==> parse_hashtree(contents, Some(h)) == Err::<
            HashtreeDescriptorView,
            _,
        >(DescriptorError::InvalidText),
        (until_nul(hash_algorithm_field(contents)) matches Some(a) && !valid_utf8(a))
            ==> parse_hashtree(contents, Some(h)) == Err::<HashtreeDescriptorView, _>(
            DescriptorError::InvalidText,
        ),
        !valid_utf8(
            contents.subrange(
                HASHTREE_HEADER_SIZE as int,
                HASHTREE_HEADER_SIZE + h.partition_name_len,
            ),
        ) ==> parse_hashtree(contents, Some(h)) == Err::<HashtreeDescriptorView, _>(
            DescriptorError::InvalidText,
        ),
{
    let size = HASHTREE_HEADER_SIZE as int;
    let raw = contents.subrange(0, size);
    let body = contents.subrange(size, contents.len() as int);
    assert(hash_algorithm_field(raw) =~= hash_algorithm_field(contents));
    assert(body.subrange(0, h.partition_name_len as int) =~= contents.subrange(
        size,
        size + h.partition_name_len,
    ));
    let field = hash_algorithm_field(contents);
    if forall|i: int|
        HASH_ALGORITHM_OFFSET <= i < HASH_ALGORITHM_OFFSET + HASH_ALGORITHM_WIDTH
            ==> contents[i] != 0 {
        assert(forall|i: int| 0 <= i < field.len() ==> field[i] == contents[HASH_ALGORITHM_OFFSET + i]);
        assert(until_nul(field) is None);
    }
}

/// Parsing depends on nothing but its input: two descriptors parsed from the
/// same bytes, with the same verdict on their header, are equal field by field.
pub proof fn lemma_deterministic(
    contents: Seq<u8>,
    validated: Option<HashtreeHeader>,
    a: HashtreeDescriptor,
    b: HashtreeDescriptor,
)
    requires
        parse_hashtree(contents, validated) == Ok::<_, DescriptorError>(a@),
        parse_hashtree(contents, validated) == Ok::<_, DescriptorError>(b@),
    ensures
        a@ == b@,
{
}

} // verus!
