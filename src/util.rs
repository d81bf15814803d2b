use crate::error::{DescriptorError, DescriptorResult};
use vstd::prelude::*;
use vstd::string::StringSliceAdditionalSpecFns;
use vstd::utf8::valid_utf8;

verus! {

/// Splits `data` into its first `size` bytes and the rest.
///
/// Fails with `InvalidSize` exactly when `data` holds fewer than `size` bytes.
pub fn split_slice<'a>(data: &'a [u8], size: usize) -> (r: DescriptorResult<(&'a [u8], &'a [u8])>)
    ensures
        r is Err <==> data@.len() < size,
        r matches Err(e) ==> e == DescriptorError::InvalidSize,
        r matches Ok((head, tail)) ==> head@ == data@.subrange(0, size as int) && tail@
            == data@.subrange(size as int, data@.len() as int),
{
    if size > data.len() {
        Err(DescriptorError::InvalidSize)
    } else {
        Ok(data.split_at(size))
    }
}

} // verus!

verus! {

/// Size of the part shared by every descriptor header: an 8-byte tag and an
/// 8-byte count of the bytes that follow it.
pub const DESCRIPTOR_PREFIX_SIZE: usize = 16;

/// A descriptor header type in host byte order, as the validator for that
/// kind hands it back.
pub trait DescriptorHeader: Sized {
    /// Size of the header on the wire, in bytes.
    spec fn spec_wire_size() -> nat;

    /// Bytes of the whole descriptor that follow the shared prefix.
    spec fn spec_num_bytes_following(&self) -> nat;

    /// Size of the header on the wire; it covers at least the shared prefix.
    fn wire_size() -> (r: usize)
        ensures
            r as nat == Self::spec_wire_size(),
            r >= DESCRIPTOR_PREFIX_SIZE,
    ;

    /// Bytes of the whole descriptor that follow the shared prefix.
    fn num_bytes_following(&self) -> (r: u64)
        ensures
            r as nat == self.spec_num_bytes_following(),
    ;
}

/// A descriptor split into its raw header, its validated header and its body.
pub struct ParsedDescriptor<'a, T> {
    /// The header bytes as they stand in the input, in wire byte order.
    pub raw_header: &'a [u8],
    /// The validated header, in host byte order.
    pub header: T,
    /// Every byte after the header; sub-fields are cut from its front and
    /// whatever is left over is padding.
    pub body: &'a [u8],
}

/// What `parse_descriptor` yields on `bytes`, given the validator's verdict on
/// the header bytes: `None` for a rejected header, else the header in host order.
///
/// The body is every byte after the fixed header. Declared padding is never
/// required: a header fails only where it declares fewer bytes than it takes
/// up itself.
pub open spec fn parsed_spec<T: DescriptorHeader>(bytes: Seq<u8>, validated: Option<T>) -> Result<
    (Seq<u8>, T, Seq<u8>),
    DescriptorError,
> {
    let size = T::spec_wire_size() as int;
    if bytes.len() < size {
        Err(DescriptorError::InvalidHeader)
    } else {
        match validated {
            None => Err(DescriptorError::InvalidHeader),
            Some(h) => {
                let total = DESCRIPTOR_PREFIX_SIZE + h.spec_num_bytes_following();
                if total < size {
                    Err(DescriptorError::InvalidHeader)
                } else {
                    Ok((bytes.subrange(0, size), h, bytes.subrange(size, bytes.len() as int)))
                }
            },
        }
    }
}

/// Separates the fixed header from `bytes` and the body that follows it.
///
/// `validated` is the verdict of the validator bound to `T` on the first
/// `T::wire_size()` bytes: `None` where it rejected them.
pub fn parse_descriptor<'a, T: DescriptorHeader>(bytes: &'a [u8], validated: Option<T>) -> (r:
    DescriptorResult<ParsedDescriptor<'a, T>>)
    ensures
        match r {
            Ok(d) => parsed_spec(bytes@, validated) == Ok::<_, DescriptorError>(
                (d.raw_header@, d.header, d.body@),
            ),
            Err(e) => parsed_spec(bytes@, validated) == Err::<(Seq<u8>, T, Seq<u8>), _>(e),
        },
{
    let size = T::wire_size();
    if bytes.len() < size {
        return Err(DescriptorError::InvalidHeader);
    }
    let header = match validated {
        None => return Err(DescriptorError::InvalidHeader),
        Some(h) => h,
    };
    let following = header.num_bytes_following();
    if following < (size - DESCRIPTOR_PREFIX_SIZE) as u64 {
        return Err(DescriptorError::InvalidHeader);
    }
    let (raw_header, body) = bytes.split_at(size);
    Ok(ParsedDescriptor { raw_header, header, body })
}

/// The bytes before the first nul of `s`, or `None` where `s` holds no nul.
pub open spec fn until_nul(s: Seq<u8>) -> Option<Seq<u8>> {
    if exists|i: int| 0 <= i < s.len() && s[i] == 0 {
        let i = choose|i: int| 0 <= i < s.len() && s[i] == 0 && forall|j: int| 0 <= j < i ==> s[j] != 0;
        Some(s.subrange(0, i))
    } else {
        None
    }
}

/// Relies on core::str::from_utf8: it succeeds exactly on valid UTF-8, and the
/// text it returns is made of the input bytes.
#[verifier::external_body]
fn decode_utf8_text<'a>(bytes: &'a [u8]) -> (r: Option<&'a str>)
    ensures
        r is Some <==> valid_utf8(bytes@),
        r matches Some(s) ==> s.spec_bytes() == bytes@,
{
    core::str::from_utf8(bytes).ok()
}

/// Reads `bytes` as UTF-8 text; fails with `InvalidText` where it is not.
pub fn utf8_text<'a>(bytes: &'a [u8]) -> (r: DescriptorResult<&'a str>)
    ensures
        r is Ok <==> valid_utf8(bytes@),
        r matches Ok(s) ==> s.spec_bytes() == bytes@,
        r matches Err(e) ==> e == DescriptorError::InvalidText,
{
    match decode_utf8_text(bytes) {
        Some(s) => Ok(s),
        None => Err(DescriptorError::InvalidText),
    }
}

/// Reads the nul-terminated UTF-8 text at the start of `bytes`.
///
/// Fails with `InvalidText` where `bytes` holds no nul, or where what comes
/// before the first one is not UTF-8.
pub fn nul_terminated_text<'a>(bytes: &'a [u8]) -> (r: DescriptorResult<&'a str>)
    ensures
        r is Ok <==> (until_nul(bytes@) matches Some(t) && valid_utf8(t)),
        r matches Ok(s) ==> until_nul(bytes@) == Some(s.spec_bytes()),
        r matches Err(e) ==> e == DescriptorError::InvalidText,
{
    let mut i: usize = 0;
    while i < bytes.len()
        invariant
            i <= bytes@.len(),
            forall|j: int| 0 <= j < i ==> bytes@[j] != 0,
        decreases bytes.len() - i,
    {
        if bytes[i] == 0 {
            let ghost s = bytes@;
            assert(until_nul(s) == Some(s.subrange(0, i as int))) by {
                let k = choose|k: int| 0 <= k < s.len() && s[k] == 0 && forall|j: int| 0 <= j < k ==> s[j] != 0;
                assert(0 <= i < s.len() && s[i as int] == 0 && forall|j: int| 0 <= j < i ==> s[j] != 0);
                assert(k == i);
            }
            let (text, _) = bytes.split_at(i);
            return utf8_text(text);
        }
        i = i + 1;
    }
    Err(DescriptorError::InvalidText)
}

} // verus!
