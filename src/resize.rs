use vstd::prelude::*;

verus! {

/// Why an uploaded picture was refused.
#[derive(Clone, Copy, Debug, PartialEq, Eq, Structural)]
pub enum AvatarError {
    /// The bytes are not a PNG file.
    UnsupportedFormat,
    /// Width over height lies outside `[0.95, 1.05]`.
    AspectRatio,
    /// The PNG could not be decoded.
    Decode,
    /// A resized picture could not be encoded.
    Encode,
}

/// The stored variants of one picture: the upload itself and four square sizes.
pub struct Avatars {
    pub raw: Vec<u8>,
    pub x528: Vec<u8>,
    pub x264: Vec<u8>,
    pub x100: Vec<u8>,
    pub x40: Vec<u8>,
}

/// Width and height of a PNG file as the `image` crate decodes it; `None` when it cannot.
pub uninterp spec fn png_decoded(png: Seq<u8>) -> Option<(u32, u32)>;

/// The PNG encoding, by the `image` crate, of the PNG file `png` decoded and resized to fill a
/// `size` by `size` square with the Lanczos3 filter; `None` when the encoding fails.
pub uninterp spec fn filled_png(png: Seq<u8>, size: u32) -> Option<Seq<u8>>;

/// The PNG encoding, by the `image` crate, of the picture in `b` (its format guessed) resized to
/// fill a `size` by `size` square with the Catmull-Rom filter; `None` when decoding or encoding
/// fails.
pub uninterp spec fn scaled_png(b: Seq<u8>, size: u32) -> Option<Seq<u8>>;

/// lodepng decodes the PNG file.
pub uninterp spec fn lodepng_decodes(png: Seq<u8>) -> bool;

/// Data of the first chunk of type `name` that lodepng remembers when decoding `png`.
pub uninterp spec fn remembered_chunk(png: Seq<u8>, name: Seq<u8>) -> Option<Seq<u8>>;

/// CRC-32 of the bytes, as lodepng computes it for a chunk's type and data.
pub uninterp spec fn crc32_of(b: Seq<u8>) -> u32;

/// The eight bytes that open every PNG file.
pub open spec fn png_signature() -> Seq<u8> {
    seq![0x89u8, 0x50u8, 0x4eu8, 0x47u8, 0x0du8, 0x0au8, 0x1au8, 0x0au8]
}

pub open spec fn has_png_signature(b: Seq<u8>) -> bool {
    b.len() >= 8 && b.subrange(0, 8) == png_signature()
}

/// Width over height lies in `[0.95, 1.05]`.
pub open spec fn near_square(w: u32, h: u32) -> bool {
    h > 0 && 95 * (h as int) <= 100 * (w as int) && 100 * (w as int) <= 105 * (h as int)
}

/// Big-endian bytes of a 32-bit number.
pub open spec fn be32(n: u32) -> Seq<u8> {
    seq![
        (n / 0x100_0000) as u8,
        ((n / 0x1_0000) % 0x100) as u8,
        ((n / 0x100) % 0x100) as u8,
        (n % 0x100) as u8,
    ]
}

/// A chunk framed as in a PNG file: big-endian length, type, data and big-endian CRC.
pub open spec fn frame_of(name: Seq<u8>, data: Seq<u8>, crc: u32) -> Seq<u8> {
    be32(data.len() as u32) + name + data + be32(crc)
}

/// A PNG chunk as it stands in a file, with the CRC of its type and data.
pub open spec fn chunk_frame(name: Seq<u8>, data: Seq<u8>) -> Seq<u8> {
    frame_of(name, data, crc32_of(name + data))
}

/// Types of the chunks that carry colour information: cHRM, gAMA, sRGB, iCCP and eXIf.
pub open spec fn color_chunk_names() -> Seq<Seq<u8>> {
    seq![
        seq![0x63u8, 0x48u8, 0x52u8, 0x4du8],
        seq![0x67u8, 0x41u8, 0x4du8, 0x41u8],
        seq![0x73u8, 0x52u8, 0x47u8, 0x42u8],
        seq![0x69u8, 0x43u8, 0x43u8, 0x50u8],
        seq![0x65u8, 0x58u8, 0x49u8, 0x66u8],
    ]
}

/// The chunks of `png` named in `names`, in that order, each framed as in a file.
pub open spec fn chunks_of(png: Seq<u8>, names: Seq<Seq<u8>>) -> Seq<u8>
    decreases names.len(),
{
    if names.len() == 0 {
        Seq::empty()
    } else {
        chunks_of(png, names.drop_last()) + match remembered_chunk(png, names.last()) {
            Some(data) => chunk_frame(names.last(), data),
            None => Seq::empty(),
        }
    }
}

/// The colour chunks of `png`, framed, to be copied into every resized variant.
pub open spec fn color_metadata(png: Seq<u8>) -> Seq<u8> {
    chunks_of(png, color_chunk_names())
}

/// Length of the PNG signature and the IHDR chunk that open every encoded picture.
pub open spec fn header_len() -> int {
    33
}

/// `encoded` with `meta` inserted right after its signature and IHDR chunk.
pub open spec fn with_metadata(encoded: Seq<u8>, meta: Seq<u8>) -> Seq<u8> {
    if meta.len() == 0 {
        encoded
    } else {
        encoded.subrange(0, header_len()) + meta + encoded.subrange(header_len(), encoded.len() as int)
    }
}

/// The resize of `png` to `size` encodes, and is long enough to take `meta` after its header.
pub open spec fn fill_fits(png: Seq<u8>, size: u32, meta: Seq<u8>) -> bool {
    filled_png(png, size) matches Some(e) && (meta.len() == 0 || e.len() >= header_len())
}

/// The stored variant of `png` at `size`: its resize, with its colour chunks after the header.
pub open spec fn variant(png: Seq<u8>, size: u32) -> Seq<u8> {
    with_metadata(filled_png(png, size)->0, color_metadata(png))
}

/// Why the upload `buf` is refused, if it is: checked in this order, its signature, its decoding,
/// its aspect ratio, the reading of its chunks and the encoding of the four sizes.
pub open spec fn upload_error(buf: Seq<u8>) -> Option<AvatarError> {
    if !has_png_signature(buf) {
        Some(AvatarError::UnsupportedFormat)
    } else {
        match png_decoded(buf) {
            None => Some(AvatarError::Decode),
            Some((w, h)) => if !near_square(w, h) {
                Some(AvatarError::AspectRatio)
            } else if !lodepng_decodes(buf) {
                Some(AvatarError::Decode)
            } else if !(fill_fits(buf, 528, color_metadata(buf)) && fill_fits(
                buf,
                264,
                color_metadata(buf),
            ) && fill_fits(buf, 100, color_metadata(buf)) && fill_fits(
                buf,
                40,
                color_metadata(buf),
            )) {
                Some(AvatarError::Encode)
            } else {
                None
            },
        }
    }
}

/// The resize of `png` to `size` decodes to a `size` by `size` picture.
pub open spec fn fill_is_square(png: Seq<u8>, size: u32) -> bool {
    png_decoded(filled_png(png, size)->0) == Some((size, size))
}

#[verifier::external_type_specification]
#[verifier::external_body]
pub struct ExImageError(image::ImageError);

#[verifier::external_type_specification]
#[verifier::external_body]
pub struct ExLodepngError(lodepng::Error);

/// Relies on image::guess_format, which reports PNG exactly for bytes that start with the PNG
/// signature (the first entry of its table of magic bytes).
#[verifier::external_body]
fn guess_is_png(buf: &[u8]) -> (r: bool)
    ensures
        r == has_png_signature(buf@),
{
    matches!(image::guess_format(buf), Ok(image::ImageFormat::Png))
}

/// Relies on image::load_from_memory_with_format with the PNG format, and on the width and
/// height of the decoded image.
#[verifier::external_body]
fn png_size(buf: &[u8]) -> (r: Result<(u32, u32), image::ImageError>)
    ensures
        r is Ok <==> png_decoded(buf@) is Some,
        r matches Ok((w, h)) ==> png_decoded(buf@) == Some((w, h)),
{
    image::load_from_memory_with_format(buf, image::ImageFormat::Png).map(|img| (img.width(), img.height()))
}

/// Relies on image::load_from_memory_with_format with the PNG format, DynamicImage::resize_to_fill
/// with the Lanczos3 filter and DynamicImage::write_to with the PNG output format. The resize is
/// cropped to exactly `size` by `size`, and the encoder writes that width and height into the
/// file. Sizes are bounded: the pixel buffer of a large square overflows `usize` and panics.
#[verifier::external_body]
fn fill_png(png: &[u8], size: u32) -> (r: Result<Vec<u8>, image::ImageError>)
    requires
        0 < size <= 2048,
    ensures
        r is Ok <==> filled_png(png@, size) is Some,
        r matches Ok(v) ==> filled_png(png@, size) == Some(v@) && png_decoded(v@) == Some(
            (size, size),
        ),
{
    let img = image::load_from_memory_with_format(png, image::ImageFormat::Png)?;
    let filled = img.resize_to_fill(size, size, image::imageops::FilterType::Lanczos3);
    let mut out = std::io::Cursor::new(Vec::new());
    filled.write_to(&mut out, image::ImageOutputFormat::Png)?;
    Ok(out.into_inner())
}

/// Relies on image::load_from_memory, which guesses the format, DynamicImage::resize_to_fill with
/// the Catmull-Rom filter and DynamicImage::write_to with the PNG output format, as for
/// `fill_png`.
#[verifier::external_body]
fn scale_png(buf: &[u8], size: u32) -> (r: Result<Vec<u8>, image::ImageError>)
    requires
        0 < size <= 2048,
    ensures
        r is Ok <==> scaled_png(buf@, size) is Some,
        r matches Ok(v) ==> scaled_png(buf@, size) == Some(v@) && png_decoded(v@) == Some(
            (size, size),
        ),
{
    let img = image::load_from_memory(buf)?;
    let filled = img.resize_to_fill(size, size, image::imageops::FilterType::CatmullRom);
    let mut out = std::io::Cursor::new(Vec::new());
    filled.write_to(&mut out, image::ImageOutputFormat::Png)?;
    Ok(out.into_inner())
}

/// Largest square that `scale` makes.
pub const MAX_SCALE_SIZE: u32 = 2048;

/// Why a picture could not be scaled.
#[derive(Clone, Copy, Debug, PartialEq, Eq, Structural)]
pub enum ConverterError {
    Downsize,
}

/// Scales any supported picture to a `size` by `size` PNG; sizes from 1 to `MAX_SCALE_SIZE`.
pub fn scale(size: u32, buf: &[u8]) -> (r: Result<Vec<u8>, ConverterError>)
    ensures
        r is Ok <==> 0 < size <= 2048 && scaled_png(buf@, size) is Some,
        r matches Ok(v) ==> scaled_png(buf@, size) == Some(v@) && png_decoded(v@) == Some(
            (size, size),
        ),
{
    if size == 0 || size > MAX_SCALE_SIZE {
        return Err(ConverterError::Downsize);
    }
    match scale_png(buf, size) {
        Ok(b) => Ok(b),
        Err(_) => Err(ConverterError::Downsize),
    }
}

/// Relies on lodepng::Decoder::decode with unknown chunks remembered, then Info::get: the data of
/// the first remembered chunk of type `name` and its ChunkRef::crc, the CRC-32 of type and data.
/// lodepng refuses chunks longer than 2^31 bytes.
#[verifier::external_body]
fn find_png_chunk(png: &[u8], name: &[u8]) -> (r: Result<Option<(Vec<u8>, u32)>, lodepng::Error>)
    ensures
        r is Ok <==> lodepng_decodes(png@),
        r matches Ok(Some((d, c))) ==> remembered_chunk(png@, name@) == Some(d@) && c == crc32_of(
            name@ + d@,
        ) && d@.len() <= 0x8000_0000,
        r matches Ok(None) ==> remembered_chunk(png@, name@) is None,
{
    let mut decoder = lodepng::Decoder::new();
    decoder.remember_unknown_chunks(true);
    decoder.decode(png)?;
    Ok(decoder.info_png().get(name).map(|c| (c.data().to_vec(), c.crc())))
}

/// Whether width over height lies in `[0.95, 1.05]`.
pub fn is_near_square(w: u32, h: u32) -> (r: bool)
    ensures
        r == near_square(w, h),
{
    let w = w as u64;
    let h = h as u64;
    h > 0 && 95 * h <= 100 * w && 100 * w <= 105 * h
}

/// Appends the big-endian bytes of `n`.
pub fn push_be32(v: &mut Vec<u8>, n: u32)
    ensures
        final(v)@ == old(v)@ + be32(n),
{
    v.push((n / 0x100_0000) as u8);
    v.push(((n / 0x1_0000) % 0x100) as u8);
    v.push(((n / 0x100) % 0x100) as u8);
    v.push((n % 0x100) as u8);
    assert(final(v)@ =~= old(v)@ + be32(n));
}

/// Appends all of `src` to `v`.
pub fn extend_from(v: &mut Vec<u8>, src: &[u8])
    ensures
        final(v)@ == old(v)@ + src@,
{
    let mut i: usize = 0;
    while i < src.len()
        invariant
            0 <= i <= src@.len(),
            v@ == old(v)@ + src@.subrange(0, i as int),
        decreases src@.len() - i,
    {
        v.push(src[i]);
        proof {
            assert(src@.subrange(0, i + 1) =~= src@.subrange(0, i as int).push(src@[i as int]));
        }
        i = i + 1;
    }
    assert(src@.subrange(0, src@.len() as int) =~= src@);
}

impl Avatars {
    /// Validates a PNG upload and derives its resized variants, keeping its colour chunks.
    pub fn new(buf: Vec<u8>) -> (r: Result<Self, AvatarError>)
        ensures
            match r {
                Ok(a) => {
                    &&& upload_error(buf@) is None
                    &&& a.raw@ == buf@
                    &&& a.x528@ == variant(buf@, 528)
                    &&& a.x264@ == variant(buf@, 264)
                    &&& a.x100@ == variant(buf@, 100)
                    &&& a.x40@ == variant(buf@, 40)
                    &&& fill_is_square(buf@, 528) && fill_is_square(buf@, 264)
                    &&& fill_is_square(buf@, 100) && fill_is_square(buf@, 40)
                },
                Err(e) => upload_error(buf@) == Some(e),
            },
    {
        if !guess_is_png(buf.as_slice()) {
            return Err(AvatarError::UnsupportedFormat);
        }
        let (w, h) = match png_size(buf.as_slice()) {
            Ok(t) => t,
            Err(_) => return Err(AvatarError::Decode),
        };
        if !is_near_square(w, h) {
            return Err(AvatarError::AspectRatio);
        }
        let meta = match Self::maybe_extract_png_color_metadata(buf.as_slice()) {
            Ok(m) => m,
            Err(e) => return Err(e),
        };
        let x528 = match downsize(528, buf.as_slice(), meta.as_slice()) {
            Ok(v) => v,
            Err(e) => return Err(e),
        };
        let x264 = match downsize(264, buf.as_slice(), meta.as_slice()) {
            Ok(v) => v,
            Err(e) => return Err(e),
        };
        let x100 = match downsize(100, buf.as_slice(), meta.as_slice()) {
            Ok(v) => v,
            Err(e) => return Err(e),
        };
        let x40 = match downsize(40, buf.as_slice(), meta.as_slice()) {
            Ok(v) => v,
            Err(e) => return Err(e),
        };
        Ok(Avatars { raw: buf, x528, x264, x100, x40 })
    }

    /// The colour chunks of a PNG file, each framed as in a file, in a fixed order.
    pub fn maybe_extract_png_color_metadata(buf: &[u8]) -> (r: Result<Vec<u8>, AvatarError>)
        ensures
            r is Ok <==> lodepng_decodes(buf@),
            r matches Ok(m) ==> m@ == color_metadata(buf@),
            r matches Err(e) ==> e == AvatarError::Decode,
    {
        let names: [[u8; 4]; 5] = [
            [0x63u8, 0x48u8, 0x52u8, 0x4du8],
            [0x67u8, 0x41u8, 0x4du8, 0x41u8],
            [0x73u8, 0x52u8, 0x47u8, 0x42u8],
            [0x69u8, 0x43u8, 0x43u8, 0x50u8],
            [0x65u8, 0x58u8, 0x49u8, 0x66u8],
        ];
        let ghost all = color_chunk_names();
        proof {
            assert(names@.len() == 5);
            assert(names@[0]@ =~= all[0]);
            assert(names@[1]@ =~= all[1]);
            assert(names@[2]@ =~= all[2]);
            assert(names@[3]@ =~= all[3]);
            assert(names@[4]@ =~= all[4]);
        }
        let mut out: Vec<u8> = Vec::new();
        let mut i: usize = 0;
        while i < 5
            invariant
                0 <= i <= 5,
                all == color_chunk_names(),
                names@.len() == 5,
                forall|k: int| 0 <= k < 5 ==> (#[trigger] names@[k])@ == all[k],
                out@ == chunks_of(buf@, all.subrange(0, i as int)),
                i > 0 ==> lodepng_decodes(buf@),
            decreases 5 - i,
        {
            let name = &names[i];
            let found = match find_png_chunk(buf, name.as_slice()) {
                Ok(f) => f,
                Err(_) => return Err(AvatarError::Decode),
            };
            let ghost before = out@;
            match found {
                Some((data, crc)) => {
                    let m = Self::metadata(name.as_slice(), data.as_slice(), crc);
                    extend_from(&mut out, m.as_slice());
                },
                None => {},
            }
            proof {
                let p = all.subrange(0, i as int + 1);
                assert(p.drop_last() =~= all.subrange(0, i as int));
                assert(p.last() == all[i as int]);
                assert(out@ =~= chunks_of(buf@, p));
            }
            i = i + 1;
        }
        assert(all.subrange(0, 5) =~= all);
        Ok(out)
    }

    /// A chunk framed as in a PNG file: length, type, data and CRC, all lengths big-endian.
    pub fn metadata(name: &[u8], data: &[u8], crc: u32) -> (r: Vec<u8>)
        requires
            data@.len() <= u32::MAX,
        ensures
            r@ == frame_of(name@, data@, crc),
    {
        let mut v: Vec<u8> = Vec::new();
        push_be32(&mut v, data.len() as u32);
        extend_from(&mut v, name);
        extend_from(&mut v, data);
        push_be32(&mut v, crc);
        assert(v@ =~= frame_of(name@, data@, crc));
        v
    }
}

/// `encoded` with `meta` inserted after its signature and IHDR chunk; unchanged when `meta` is empty.
pub fn insert_metadata(encoded: &[u8], meta: &[u8]) -> (r: Vec<u8>)
    requires
        meta@.len() == 0 || encoded@.len() >= header_len(),
    ensures
        r@ == with_metadata(encoded@, meta@),
{
    let mut v: Vec<u8> = Vec::new();
    if meta.len() == 0 {
        extend_from(&mut v, encoded);
        assert(v@ =~= encoded@);
        return v;
    }
    let mut i: usize = 0;
    while i < 33
        invariant
            0 <= i <= 33,
            encoded@.len() >= 33,
            v@ == encoded@.subrange(0, i as int),
        decreases 33 - i,
    {
        v.push(encoded[i]);
        proof {
            assert(encoded@.subrange(0, i + 1) =~= encoded@.subrange(0, i as int).push(encoded@[i as int]));
        }
        i = i + 1;
    }
    extend_from(&mut v, meta);
    let mut j: usize = 33;
    let ghost head = v@;
    while j < encoded.len()
        invariant
            33 <= j <= encoded@.len(),
            v@ == head + encoded@.subrange(33, j as int),
        decreases encoded@.len() - j,
    {
        v.push(encoded[j]);
        proof {
            assert(encoded@.subrange(33, j + 1) =~= encoded@.subrange(33, j as int).push(encoded@[j as int]));
        }
        j = j + 1;
    }
    assert(v@ =~= with_metadata(encoded@, meta@));
    v
}

/// Resizes a PNG file to a `size` by `size` square, encodes it as PNG and inserts the colour
/// chunks `metadata_to_add` after its header.
pub fn downsize(size: u32, png: &[u8], metadata_to_add: &[u8]) -> (r: Result<Vec<u8>, AvatarError>)
    requires
        0 < size <= 2048,
    ensures
        r is Ok <==> fill_fits(png@, size, metadata_to_add@),
        r matches Ok(v) ==> v@ == with_metadata(filled_png(png@, size)->0, metadata_to_add@)
            && png_decoded(filled_png(png@, size)->0) == Some((size, size)),
        r matches Err(e) ==> e == AvatarError::Encode,
{
    let buf = match fill_png(png, size) {
        Ok(b) => b,
        Err(_) => return Err(AvatarError::Encode),
    };
    if metadata_to_add.len() > 0 && buf.len() < 33 {
        return Err(AvatarError::Encode);
    }
    let v = insert_metadata(buf.as_slice(), metadata_to_add);
    Ok(v)
}

} // verus!
