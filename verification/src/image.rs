//! The parts of a terminal image that do not touch pixels: which graphics protocol to use, the
//! base64 payload of an image given as text (or as a `data:` URL), when an image must be encoded
//! again for a new area, and how a Kitty transfer is cut into chunks.
use vstd::prelude::*;
use base64::Engine;
use crate::geometry::LayoutSize;
use crate::text::{chars_of, decimal, push_decimal, push_text, string_of};

verus! {

/// The terminal graphics protocol used to draw an image.
#[derive(Debug, Clone, Copy, PartialEq, Eq, Structural)]
pub enum ImageProtocol {
    /// Detect a protocol the terminal offers.
    Auto,
    /// The Sixel protocol.
    Sixel,
    /// The Kitty protocol.
    Kitty,
}

#[verifier::external_type_specification]
#[verifier::external_body]
pub struct ExDecodeError(base64::DecodeError);

/// Why an image payload could not be read.
#[derive(Debug)]
pub enum PayloadError {
    Base64(base64::DecodeError),
}

/// The bytes a standard base64 text stands for, `None` when it is not valid standard base64
/// (padded alphabet with `+` and `/`).
pub uninterp spec fn base64_standard_decode(s: Seq<char>) -> Option<Seq<u8>>;

/// Calls `base64::Engine::decode` of `base64::engine::general_purpose::STANDARD` on `s`; the
/// bytes it decodes are named `base64_standard_decode(s@)`, and it fails exactly when that is
/// `None`. Nothing more is claimed of the decoder.
#[verifier::external_body]
fn decode_base64(s: &str) -> (r: Result<Vec<u8>, base64::DecodeError>)
    ensures
        match r {
            Ok(bytes) => base64_standard_decode(s@) == Some(bytes@),
            Err(_) => base64_standard_decode(s@).is_none(),
        },
{
    base64::engine::general_purpose::STANDARD.decode(s)
}

/// The position of the last `,` in `s`, `-1` when there is none.
pub open spec fn last_comma(s: Seq<char>) -> int
    decreases s.len(),
{
    if s.len() == 0 {
        -1
    } else if s.last() == ',' {
        s.len() - 1
    } else {
        last_comma(s.drop_last())
    }
}

pub proof fn lemma_last_comma(s: Seq<char>)
    ensures
        -1 <= last_comma(s) < s.len(),
        last_comma(s) >= 0 ==> s[last_comma(s)] == ',',
        forall|i: int| last_comma(s) < i < s.len() ==> s[i] != ',',
    decreases s.len(),
{
    if s.len() > 0 {
        let init = s.drop_last();
        lemma_last_comma(init);
        assert forall|i: int| last_comma(s) < i < s.len() implies s[i] != ',' by {
            if i < s.len() - 1 {
                assert(s[i] == init[i]);
            }
        }
    }
}

/// The base64 payload of `encoded`: what follows the last comma of a `data:` URL, or all of it.
pub open spec fn spec_payload(encoded: Seq<char>) -> Seq<char> {
    encoded.subrange(last_comma(encoded) + 1, encoded.len() as int)
}

pub fn payload(encoded: &str) -> (r: &str)
    ensures
        r@ == spec_payload(encoded@),
{
    let n = encoded.unicode_len();
    let mut i = n;
    assert(encoded@.take(n as int) =~= encoded@);
    while i > 0
        invariant
            n == encoded@.len(),
            i <= n,
            last_comma(encoded@) == last_comma(encoded@.take(i as int)),
        decreases i,
    {
        assert(encoded@.take(i as int).drop_last() =~= encoded@.take(i - 1));
        if encoded.get_char(i - 1) == ',' {
            assert(last_comma(encoded@.take(i as int)) == i - 1);
            return encoded.substring_char(i, n);
        }
        i -= 1;
    }
    assert(encoded@.take(0) =~= Seq::<char>::empty());
    encoded.substring_char(0, n)
}

/// The image bytes of a base64 text or `data:` URL.
pub fn payload_bytes(encoded: &str) -> (r: Result<Vec<u8>, PayloadError>)
    ensures
        match r {
            Ok(bytes) => base64_standard_decode(spec_payload(encoded@)) == Some(bytes@),
            Err(_) => base64_standard_decode(spec_payload(encoded@)).is_none(),
        },
{
    match decode_base64(payload(encoded)) {
        Ok(bytes) => Ok(bytes),
        Err(e) => Err(PayloadError::Base64(e)),
    }
}

#[verifier::external_type_specification]
#[verifier::external_body]
pub struct ExDynamicImage(image::DynamicImage);

#[verifier::external_type_specification]
#[verifier::external_body]
pub struct ExImageError(image::ImageError);

/// The width and height in pixels of the image that `image::load_from_memory` decodes from
/// `bytes` (its format guessed from the bytes), `None` when the bytes do not decode.
pub uninterp spec fn decoded_size(bytes: Seq<u8>) -> Option<(u32, u32)>;

/// Calls `image::load_from_memory` on `bytes` and, on success, reads the width and height of
/// the decoded image; the size is named `decoded_size(bytes@)`, and the call fails exactly when
/// that is `None`. Nothing more is claimed of the decoder.
#[verifier::external_body]
fn decode_image(bytes: &[u8]) -> (r: Result<(image::DynamicImage, u32, u32), image::ImageError>)
    ensures
        match r {
            Ok((_, w, h)) => decoded_size(bytes@) == Some((w, h)),
            Err(_) => decoded_size(bytes@) is None,
        },
{
    match image::load_from_memory(bytes) {
        Ok(decoded) => {
            let width = decoded.width();
            let height = decoded.height();
            Ok((decoded, width, height))
        },
        Err(error) => Err(error),
    }
}

/// A decoded image and its size in pixels.
#[derive(Debug)]
pub struct DecodedImage {
    pub image: image::DynamicImage,
    pub width: u32,
    pub height: u32,
}

/// Why an image could not be decoded.
#[derive(Debug)]
pub enum ImageLoadError {
    /// The text is not standard base64.
    Base64(base64::DecodeError),
    /// The bytes are no image of a known format.
    Decode(image::ImageError),
}

/// Decodes image bytes: an image whose size is the one the bytes decode to, or `Decode` when
/// they do not decode.
pub fn image_from_bytes(bytes: &[u8]) -> (r: Result<DecodedImage, ImageLoadError>)
    ensures
        match r {
            Ok(d) => decoded_size(bytes@) == Some((d.width, d.height)),
            Err(e) => decoded_size(bytes@) is None && e is Decode,
        },
{
    match decode_image(bytes) {
        Ok((image, width, height)) => Ok(DecodedImage { image, width, height }),
        Err(error) => Err(ImageLoadError::Decode(error)),
    }
}

/// Decodes a base64 image payload or `data:` URL: `Base64` when the payload is not standard
/// base64, `Decode` when its bytes are no image, else the image, sized as its bytes decode.
pub fn image_from_payload(encoded: &str) -> (r: Result<DecodedImage, ImageLoadError>)
    ensures
        match base64_standard_decode(spec_payload(encoded@)) {
            None => r matches Err(e) && e is Base64,
            Some(bytes) => match r {
                Ok(d) => decoded_size(bytes) == Some((d.width, d.height)),
                Err(e) => decoded_size(bytes) is None && e is Decode,
            },
        },
{
    match payload_bytes(encoded) {
        Ok(bytes) => image_from_bytes(bytes.as_slice()),
        Err(PayloadError::Base64(error)) => Err(ImageLoadError::Base64(error)),
    }
}

/// What laying an image out in a new area asks for: forget any encoding (an empty area), keep
/// the current one (the same size), encode for the Kitty protocol in the background, or encode
/// with the detected protocol at once.
#[derive(Debug, Clone, Copy, PartialEq, Eq, Structural)]
pub enum EncodePlan {
    Clear,
    Keep,
    RequestKitty { width: u16, height: u16 },
    Encode { width: u16, height: u16 },
}

/// The size an image is encoded for, and the size a background encode runs for.
#[derive(Debug, Clone, Copy, PartialEq, Eq, Structural)]
pub struct EncodeState {
    pub encoded_size: Option<LayoutSize>,
    pub pending_size: Option<LayoutSize>,
}

/// The plan for an area of `width` by `height` cells: only the size matters, not where the area
/// is.
pub open spec fn spec_plan_encode(protocol: ImageProtocol, state: EncodeState, width: u16, height: u16) -> EncodePlan {
    if width == 0 || height == 0 {
        EncodePlan::Clear
    } else if state.encoded_size == Some(LayoutSize { width, height }) {
        EncodePlan::Keep
    } else if protocol == ImageProtocol::Kitty {
        EncodePlan::RequestKitty { width, height }
    } else {
        EncodePlan::Encode { width, height }
    }
}

pub fn plan_encode(protocol: ImageProtocol, state: EncodeState, width: u16, height: u16) -> (r: EncodePlan)
    ensures
        r == spec_plan_encode(protocol, state, width, height),
{
    if width == 0 || height == 0 {
        EncodePlan::Clear
    } else if state.encoded_size == Some(LayoutSize { width, height }) {
        EncodePlan::Keep
    } else if protocol == ImageProtocol::Kitty {
        EncodePlan::RequestKitty { width, height }
    } else {
        EncodePlan::Encode { width, height }
    }
}

/// Whether a background Kitty encode for `size` is to start: not when the image is already
/// encoded, or being encoded, for that size.
pub fn should_request_kitty(state: EncodeState, size: LayoutSize) -> (r: bool)
    ensures
        r == (state.encoded_size != Some(size) && state.pending_size != Some(size)),
{
    !(state.encoded_size == Some(size) || state.pending_size == Some(size))
}

/// The largest Kitty transfer chunk, in base64 characters.
pub const KITTY_CHUNK: usize = 4096;

/// The chunks of a transfer of `len` characters: chunk `i` covers `[i * 4096, min((i + 1) *
/// 4096, len))` and is followed by more when `(i + 1) * 4096 < len`.
pub open spec fn spec_kitty_chunks(len: nat) -> Seq<(usize, usize, bool)> {
    Seq::new(
        ((len + KITTY_CHUNK - 1) / (KITTY_CHUNK as int)) as nat,
        |i: int| {
            let start = i * KITTY_CHUNK;
            let end = if start + KITTY_CHUNK < len { start + KITTY_CHUNK } else { len as int };
            (start as usize, end as usize, start + KITTY_CHUNK < len)
        },
    )
}

pub fn kitty_chunks(len: usize) -> (r: Vec<(usize, usize, bool)>)
    ensures
        r@ == spec_kitty_chunks(len as nat),
{
    let mut out: Vec<(usize, usize, bool)> = Vec::new();
    let mut i: usize = 0;
    let count = len / KITTY_CHUNK + if len % KITTY_CHUNK == 0 { 0 } else { 1 };
    assert(count as int == (len + KITTY_CHUNK - 1) / (KITTY_CHUNK as int)) by (nonlinear_arith)
        requires
            count as int == len as int / 4096 + if len as int % 4096 == 0 { 0int } else { 1int },
            KITTY_CHUNK == 4096,
    ;
    while i < count
        invariant
            count as int == (len + KITTY_CHUNK - 1) / (KITTY_CHUNK as int),
            i <= count,
            out@.len() == i,
            forall|j: int| 0 <= j < i ==> out@[j] == spec_kitty_chunks(len as nat)[j],
        decreases count - i,
    {
        assert(i * 4096 < len as int) by (nonlinear_arith)
            requires
                i < count,
                count as int == (len + 4096 - 1) / 4096,
        ;
        let start = i * KITTY_CHUNK;
        let more = len - start > KITTY_CHUNK;
        let end = if more { start + KITTY_CHUNK } else { len };
        out.push((start, end, more));
        i += 1;
    }
    assert(out@ =~= spec_kitty_chunks(len as nat));
    out
}

pub proof fn lemma_kitty_chunk_bounds(len: nat, i: int)
    requires
        len <= usize::MAX,
        0 <= i < spec_kitty_chunks(len).len(),
    ensures
        spec_kitty_chunks(len)[i].0 <= spec_kitty_chunks(len)[i].1 <= len,
        spec_kitty_chunks(len)[i].0 == i * KITTY_CHUNK,
{
    assert(i * 4096 < len) by (nonlinear_arith)
        requires
            0 <= i < (len + 4096 - 1) / 4096,
    ;
}

/// `1` when more chunks follow, `0` otherwise.
pub open spec fn more_flag(more: bool) -> Seq<char> {
    if more { seq!['1'] } else { seq!['0'] }
}

/// The start of the first chunk of a Kitty transfer: transmit and display a PNG image with id
/// `image_id` and placement `placement_id` over `width` by `height` cells, without moving the
/// cursor and without replies.
pub open spec fn kitty_first_header(image_id: u32, placement_id: u32, width: u16, height: u16, more: bool) -> Seq<char> {
    "\x1b_Ga=T,t=d,f=100,i="@ + decimal(image_id as nat) + ",p="@ + decimal(placement_id as nat) + ",c="@
        + decimal(width as nat) + ",r="@ + decimal(height as nat) + ",C=1,q=2,m="@ + more_flag(more) + seq![';']
}

/// The start of a later chunk of a Kitty transfer.
pub open spec fn kitty_next_header(more: bool) -> Seq<char> {
    "\x1b_Gm="@ + more_flag(more) + seq![';']
}

/// The chunks `t..` of the transfer of `encoded`, each behind its header and closed by the
/// string terminator.
pub open spec fn kitty_transfer_from(
    encoded: Seq<char>,
    chunks: Seq<(usize, usize, bool)>,
    t: int,
    image_id: u32,
    placement_id: u32,
    width: u16,
    height: u16,
) -> Seq<char>
    decreases chunks.len() - t,
{
    if t < 0 || t >= chunks.len() {
        Seq::empty()
    } else {
        let c = chunks[t];
        (if t == 0 {
            kitty_first_header(image_id, placement_id, width, height, c.2)
        } else {
            kitty_next_header(c.2)
        }) + encoded.subrange(c.0 as int, c.1 as int) + "\x1b\\"@
            + kitty_transfer_from(encoded, chunks, t + 1, image_id, placement_id, width, height)
    }
}

/// The whole Kitty transfer of the base64 text `encoded`, in chunks of at most 4096 characters.
pub open spec fn spec_kitty_transfer(encoded: Seq<char>, image_id: u32, placement_id: u32, width: u16, height: u16) -> Seq<char> {
    kitty_transfer_from(encoded, spec_kitty_chunks(encoded.len()), 0, image_id, placement_id, width, height)
}

/// The Kitty command that shows an image already sent, at the cursor.
pub open spec fn spec_kitty_placement(image_id: u32, placement_id: u32, width: u16, height: u16) -> Seq<char> {
    "\x1b_Ga=p,i="@ + decimal(image_id as nat) + ",p="@ + decimal(placement_id as nat) + ",c="@ + decimal(width as nat)
        + ",r="@ + decimal(height as nat) + ",C=1,q=2\x1b\\"@
}

/// The Kitty command that deletes a placement of an image.
pub open spec fn spec_kitty_cleanup(image_id: u32, placement_id: u32) -> Seq<char> {
    "\x1b_Ga=d,d=i,i="@ + decimal(image_id as nat) + ",p="@ + decimal(placement_id as nat) + ",q=2\x1b\\"@
}

/// The Kitty transfer of the base64 text `encoded`.
pub fn kitty_transfer(encoded: &str, image_id: u32, placement_id: u32, width: u16, height: u16) -> (r: String)
    ensures
        r@ == spec_kitty_transfer(encoded@, image_id, placement_id, width, height),
{
    let chars = chars_of(encoded);
    let chunks = kitty_chunks(chars.len());
    let ghost target = spec_kitty_transfer(encoded@, image_id, placement_id, width, height);
    let mut out = String::new();
    let mut t: usize = 0;
    while t < chunks.len()
        invariant
            chars@ == encoded@,
            chunks@ == spec_kitty_chunks(chars.len() as nat),
            t <= chunks.len(),
            out@ + kitty_transfer_from(encoded@, chunks@, t as int, image_id, placement_id, width, height) == target,
        decreases chunks.len() - t,
    {
        let (start, end, more) = chunks[t];
        proof {
            lemma_kitty_chunk_bounds(chars.len() as nat, t as int);
        }
        proof {
            reveal_strlit("\x1b_Ga=T,t=d,f=100,i=");
            reveal_strlit(",p=");
            reveal_strlit(",c=");
            reveal_strlit(",r=");
            reveal_strlit(",C=1,q=2,m=");
            reveal_strlit("\x1b_Gm=");
            reveal_strlit("\x1b\\");
            reveal_strlit(";");
            reveal_strlit("1");
            reveal_strlit("0");
        }
        let ghost before = out@;
        if t == 0 {
            push_text(&mut out, "\x1b_Ga=T,t=d,f=100,i=");
            push_decimal(&mut out, image_id as usize);
            push_text(&mut out, ",p=");
            push_decimal(&mut out, placement_id as usize);
            push_text(&mut out, ",c=");
            push_decimal(&mut out, width as usize);
            push_text(&mut out, ",r=");
            push_decimal(&mut out, height as usize);
            push_text(&mut out, ",C=1,q=2,m=");
        } else {
            push_text(&mut out, "\x1b_Gm=");
        }
        if more {
            push_text(&mut out, "1");
        } else {
            push_text(&mut out, "0");
        }
        push_text(&mut out, ";");
        let ghost header = if t == 0 {
            kitty_first_header(image_id, placement_id, width, height, more)
        } else {
            kitty_next_header(more)
        };
        assert(out@ =~= before + header);
        let piece = string_of(&chars, start, end);
        out.append(piece.as_str());
        push_text(&mut out, "\x1b\\");
        assert(out@ =~= before + header + encoded@.subrange(start as int, end as int) + "\x1b\\"@);
        assert(kitty_transfer_from(encoded@, chunks@, t as int, image_id, placement_id, width, height)
            == header + encoded@.subrange(start as int, end as int) + "\x1b\\"@
                + kitty_transfer_from(encoded@, chunks@, t + 1, image_id, placement_id, width, height));
        t += 1;
    }
    assert(out@ =~= target);
    out
}

/// An image sent with the Kitty protocol: the command text to write next, whether that text is
/// still the full transfer, the cells it covers, and its image and placement ids.
#[derive(Debug, Clone, PartialEq, Eq)]
pub struct KittyImage {
    pub data: String,
    pub transmit_once: bool,
    pub width: u16,
    pub height: u16,
    pub image_id: u32,
    pub placement_id: u32,
}

impl KittyImage {
    /// An image whose base64 PNG is `encoded`, about to be sent in full.
    pub fn new(encoded: &str, image_id: u32, placement_id: u32, width: u16, height: u16) -> (r: KittyImage)
        ensures
            r.data@ == spec_kitty_transfer(encoded@, image_id, placement_id, width, height),
            r.transmit_once,
            r.width == width,
            r.height == height,
            r.image_id == image_id,
            r.placement_id == placement_id,
    {
        KittyImage {
            data: kitty_transfer(encoded, image_id, placement_id, width, height),
            transmit_once: true,
            width,
            height,
            image_id,
            placement_id,
        }
    }

    /// Shows the image again from what the terminal already holds.
    pub fn redraw(&mut self)
        ensures
            final(self).data@ == spec_kitty_placement(old(self).image_id, old(self).placement_id, old(self).width, old(self).height),
            !final(self).transmit_once,
            final(self).width == old(self).width,
            final(self).height == old(self).height,
            final(self).image_id == old(self).image_id,
            final(self).placement_id == old(self).placement_id,
    {
        self.transmit_once = false;
        self.data = kitty_placement(self.image_id, self.placement_id, self.width, self.height);
    }

    /// The command that removes this image's placement.
    pub fn cleanup_command(&self) -> (r: String)
        ensures
            r@ == spec_kitty_cleanup(self.image_id, self.placement_id),
    {
        let mut out = String::new();
        push_text(&mut out, "\x1b_Ga=d,d=i,i=");
        push_decimal(&mut out, self.image_id as usize);
        push_text(&mut out, ",p=");
        push_decimal(&mut out, self.placement_id as usize);
        push_text(&mut out, ",q=2\x1b\\");
        proof {
            reveal_strlit("\x1b_Ga=d,d=i,i=");
            reveal_strlit(",p=");
            reveal_strlit(",q=2\x1b\\");
        }
        assert(out@ =~= spec_kitty_cleanup(self.image_id, self.placement_id));
        out
    }

    /// After the first full transfer, the next draws only place the image: the first call
    /// switches the command to a placement and says so; later calls change nothing.
    pub fn replace_transfer_with_placement(&mut self) -> (r: bool)
        ensures
            r == old(self).transmit_once,
            r ==> final(self).data@ == spec_kitty_placement(old(self).image_id, old(self).placement_id, old(self).width, old(self).height)
                && !final(self).transmit_once && final(self).width == old(self).width
                && final(self).height == old(self).height && final(self).image_id == old(self).image_id
                && final(self).placement_id == old(self).placement_id,
            !r ==> *final(self) == *old(self),
    {
        if !self.transmit_once {
            return false;
        }
        self.redraw();
        true
    }
}

/// The Kitty command that shows image `image_id` again.
pub fn kitty_placement(image_id: u32, placement_id: u32, width: u16, height: u16) -> (r: String)
    ensures
        r@ == spec_kitty_placement(image_id, placement_id, width, height),
{
    let mut out = String::new();
    push_text(&mut out, "\x1b_Ga=p,i=");
    push_decimal(&mut out, image_id as usize);
    push_text(&mut out, ",p=");
    push_decimal(&mut out, placement_id as usize);
    push_text(&mut out, ",c=");
    push_decimal(&mut out, width as usize);
    push_text(&mut out, ",r=");
    push_decimal(&mut out, height as usize);
    push_text(&mut out, ",C=1,q=2\x1b\\");
    proof {
        reveal_strlit("\x1b_Ga=p,i=");
        reveal_strlit(",p=");
        reveal_strlit(",c=");
        reveal_strlit(",r=");
        reveal_strlit(",C=1,q=2\x1b\\");
    }
    assert(out@ =~= spec_kitty_placement(image_id, placement_id, width, height));
    out
}

} // verus!
