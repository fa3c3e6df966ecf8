use image::codecs::png::PngEncoder;
use image::{ColorType, ImageError};
use vstd::prelude::*;

verus! {

/// A pixel ready for a file: red, green and blue, each 0 to 255.
pub type Rgb = (u8, u8, u8);

/// Why an image could not be encoded.
#[verifier::external_type_specification]
#[verifier::external_body]
pub struct ExImageError(ImageError);

/// What went wrong while an image was written.
#[derive(Clone, Copy, Debug, PartialEq, Eq, Structural)]
pub enum WriterError {
    /// The encoder refused the image.
    Encoding,
}

/// The file formats an image can be written in.
#[derive(Clone, Copy, Debug, PartialEq, Eq, Structural)]
pub enum OutputFormat {
    Ppm,
    Png,
}

/// Writes an image as text: a header, then one line for each pixel.
#[derive(Clone, Copy, Debug)]
pub struct PPMWriter;

/// Writes an image as a PNG file.
#[derive(Clone, Copy, Debug)]
pub struct PNGWriter;

/// The character of the digit `d`.
pub open spec fn digit(d: nat) -> u8
    recommends
        d < 10,
{
    (48 + d) as u8
}

/// The number `n` in decimal digits, without a sign and without leading
/// zeros.
pub open spec fn decimal(n: nat) -> Seq<u8>
    decreases n,
{
    if n < 10 {
        seq![digit(n)]
    } else {
        decimal(n / 10).push(digit(n % 10))
    }
}

/// The header of the text format: the magic word, the width and the height,
/// and on a line of its own the greatest value of a colour channel.
pub open spec fn header(width: nat, height: nat) -> Seq<u8> {
    seq![80u8, 51u8, 32u8] + decimal(width) + seq![32u8] + decimal(height) + seq![
        10u8,
        50u8,
        53u8,
        53u8,
        10u8,
    ]
}

/// The line of one pixel in the text format: its three channels in decimal,
/// a space between them.
pub open spec fn color_line(color: Rgb) -> Seq<u8> {
    decimal(color.0 as nat) + seq![32u8] + decimal(color.1 as nat) + seq![32u8] + decimal(
        color.2 as nat,
    ) + seq![10u8]
}

/// The lines of all the pixels, one after the other.
pub open spec fn color_lines(data: Seq<Rgb>) -> Seq<u8>
    decreases data.len(),
{
    if data.len() == 0 {
        Seq::empty()
    } else {
        color_lines(data.drop_last()) + color_line(data.last())
    }
}

/// The channels of all the pixels in a row: red, green and blue of the
/// first pixel, then of the second, and so on.
pub open spec fn samples(data: Seq<Rgb>) -> Seq<u8>
    decreases data.len(),
{
    if data.len() == 0 {
        Seq::empty()
    } else {
        samples(data.drop_last()) + seq![data.last().0, data.last().1, data.last().2]
    }
}

/// What the encoder of `image` makes of the samples `data` of an image of
/// `width` by `height` pixels with three channels of eight bits: the bytes
/// of the PNG file, or nothing where it refuses the image.
pub uninterp spec fn png_of(data: Seq<u8>, width: u32, height: u32) -> Option<Seq<u8>>;

/// What an encoding came to, as plain values: the bytes of the file, or
/// nothing where the encoder refused.
pub open spec fn outcome(encoded: Result<Vec<u8>, ImageError>) -> Option<Seq<u8>> {
    match encoded {
        Ok(bytes) => Some(bytes@),
        Err(_) => None,
    }
}

/// The lower-case form of a text, as std makes it.
pub uninterp spec fn lowercase_of(text: Seq<char>) -> Seq<char>;

/// Encodes `data` with `PngEncoder::encode` of `image`, as an image of
/// `width` by `height` pixels in the colour type `Rgb8`, into a vector of
/// its own. Whether the encoder accepts the image, and what it writes where
/// it does, depends on these three arguments alone: it is `png_of` of them.
/// On which images it accepts nothing is claimed. The encoder counts the
/// bytes of a row and one more, and those of the image, in `usize`: they
/// have to fit.
#[verifier::external_body]
fn encode_png(data: &Vec<u8>, width: u32, height: u32) -> (encoded: Result<Vec<u8>, ImageError>)
    requires
        3 * width * height < usize::MAX,
    ensures
        outcome(encoded) == png_of(data@, width, height),
{
    let mut bytes = Vec::new();
    let done = PngEncoder::new(&mut bytes).encode(data, width, height, ColorType::Rgb8);
    done.map(|_| bytes)
}

/// The lower-case form of `text`, made by `str::to_lowercase` of std.
#[verifier::external_body]
fn lowercase(text: &str) -> (lowered: String)
    ensures
        lowered@ == lowercase_of(text@),
{
    text.to_lowercase()
}

/// Appends the decimal digits of `n`.
pub fn write_decimal(out: &mut Vec<u8>, n: usize)
    ensures
        final(out)@ == old(out)@ + decimal(n as nat),
{
    let mut reversed: Vec<u8> = Vec::new();
    reversed.push(48u8 + (n % 10) as u8);
    let mut rest = n / 10;
    while rest > 0
        invariant
            reversed@.len() > 0,
            decimal(n as nat) == (if rest > 0 {
                decimal(rest as nat)
            } else {
                Seq::<u8>::empty()
            }) + reversed@.reverse(),
        decreases rest,
    {
        let ghost earlier = reversed@;
        reversed.push(48u8 + (rest % 10) as u8);
        proof {
            let d = digit((rest % 10) as nat);
            assert(reversed@.reverse() =~= seq![d] + earlier.reverse());
            let front = if rest / 10 > 0 {
                decimal((rest / 10) as nat)
            } else {
                Seq::<u8>::empty()
            };
            assert(decimal(rest as nat) =~= front + seq![d]);
            assert(decimal(n as nat) =~= front + reversed@.reverse());
        }
        rest = rest / 10;
    }
    let ghost start = out@;
    let mut left = reversed.len();
    while left > 0
        invariant
            left <= reversed@.len(),
            out@ == start + reversed@.reverse().take(reversed@.len() - left),
        decreases left,
    {
        left -= 1;
        out.push(reversed[left]);
        proof {
            let turned = reversed@.reverse();
            let count = reversed@.len() - left;
            assert(turned.take(count) =~= turned.take(count - 1).push(reversed@[left as int]));
        }
    }
    assert(reversed@.reverse().take(reversed@.len() as int) =~= reversed@.reverse());
}

impl PPMWriter {
    /// Appends the header of an image of `width` by `height` pixels.
    pub fn write_header(out: &mut Vec<u8>, width: usize, height: usize)
        ensures
            final(out)@ == old(out)@ + header(width as nat, height as nat),
    {
        let ghost start = out@;
        out.push(80u8);
        out.push(51u8);
        out.push(32u8);
        write_decimal(out, width);
        out.push(32u8);
        write_decimal(out, height);
        out.push(10u8);
        out.push(50u8);
        out.push(53u8);
        out.push(53u8);
        out.push(10u8);
        assert(out@ =~= start + header(width as nat, height as nat));
    }

    /// Appends the line of the pixel `color`.
    pub fn write_color(out: &mut Vec<u8>, color: Rgb)
        ensures
            final(out)@ == old(out)@ + color_line(color),
    {
        let ghost start = out@;
        write_decimal(out, color.0 as usize);
        out.push(32u8);
        write_decimal(out, color.1 as usize);
        out.push(32u8);
        write_decimal(out, color.2 as usize);
        out.push(10u8);
        assert(out@ =~= start + color_line(color));
    }

    /// Appends the whole image: the header and the lines of the pixels of
    /// `data`, which holds the image row by row.
    pub fn write_to(&self, out: &mut Vec<u8>, data: &Vec<Rgb>, width: usize, height: usize)
        requires
            data@.len() == width * height,
        ensures
            final(out)@ == old(out)@ + header(width as nat, height as nat) + color_lines(data@),
    {
        let ghost start = out@;
        PPMWriter::write_header(out, width, height);
        let ghost headed = out@;
        let mut next: usize = 0;
        while next < data.len()
            invariant
                next <= data@.len(),
                out@ == headed + color_lines(data@.take(next as int)),
            decreases data@.len() - next,
        {
            PPMWriter::write_color(out, data[next]);
            proof {
                let longer = data@.take(next + 1);
                assert(longer.drop_last() =~= data@.take(next as int));
                assert(out@ =~= headed + color_lines(longer));
            }
            next += 1;
        }
        assert(data@.take(next as int) =~= data@);
    }
}

impl PNGWriter {
    /// The channels of the pixels of `data`, one after the other.
    pub fn encodable(data: &Vec<Rgb>) -> (encodable_data: Vec<u8>)
        ensures
            encodable_data@ == samples(data@),
    {
        let mut encodable_data: Vec<u8> = Vec::new();
        let mut next: usize = 0;
        while next < data.len()
            invariant
                next <= data@.len(),
                encodable_data@ == samples(data@.take(next as int)),
            decreases data@.len() - next,
        {
            let (r, g, b) = data[next];
            encodable_data.push(r);
            encodable_data.push(g);
            encodable_data.push(b);
            proof {
                let longer = data@.take(next + 1);
                assert(longer.drop_last() =~= data@.take(next as int));
                assert(encodable_data@ =~= samples(longer));
            }
            next += 1;
        }
        assert(data@.take(next as int) =~= data@);
        encodable_data
    }

    /// Appends what the encoder made, or reports that it made nothing and
    /// leaves `out` as it was.
    pub fn append_encoded(out: &mut Vec<u8>, encoded: Result<Vec<u8>, ImageError>) -> (done: Result<
        (),
        WriterError,
    >)
        ensures
            match outcome(encoded) {
                Some(bytes) => done == Ok::<(), WriterError>(()) && final(out)@ == old(out)@
                    + bytes,
                None => done == Err::<(), WriterError>(WriterError::Encoding) && final(out)@
                    == old(out)@,
            },
    {
        match encoded {
            Ok(bytes) => {
                let mut bytes = bytes;
                out.append(&mut bytes);
                Ok(())
            },
            Err(_) => Err(WriterError::Encoding),
        }
    }

    /// Hands the channels of `data`, which holds the image row by row, to
    /// the encoder as an image of `width` by `height` pixels. Where the
    /// encoder makes a file of them, the file is appended to `out`; where it
    /// refuses them, `out` stays as it was and the refusal is reported.
    pub fn write_to(&self, out: &mut Vec<u8>, data: &Vec<Rgb>, width: usize, height: usize) -> (done:
        Result<(), WriterError>)
        requires
            width <= u32::MAX,
            height <= u32::MAX,
            3 * width * height < usize::MAX,
        ensures
            match png_of(samples(data@), width as u32, height as u32) {
                Some(bytes) => done == Ok::<(), WriterError>(()) && final(out)@ == old(out)@
                    + bytes,
                None => done == Err::<(), WriterError>(WriterError::Encoding) && final(out)@
                    == old(out)@,
            },
    {
        let encodable_data = PNGWriter::encodable(data);
        let encoded = encode_png(&encodable_data, width as u32, height as u32);
        PNGWriter::append_encoded(out, encoded)
    }
}

/// The format that the name `cleaned` stands for: `ppm` for the text
/// format, `png` for PNG, and none for anything else.
pub fn format_named(cleaned: &String) -> (format: Option<OutputFormat>)
    ensures
        format == if cleaned@ == "ppm"@ {
            Some(OutputFormat::Ppm)
        } else if cleaned@ == "png"@ {
            Some(OutputFormat::Png)
        } else {
            None
        },
{
    let ppm = "ppm".to_owned();
    let png = "png".to_owned();
    if *cleaned == ppm {
        Some(OutputFormat::Ppm)
    } else if *cleaned == png {
        Some(OutputFormat::Png)
    } else {
        None
    }
}

/// The format that a file with the extension `extension` is written in,
/// whatever the case of its letters.
pub fn guess_output_format(extension: &str) -> (format: Option<OutputFormat>)
    ensures
        format == if lowercase_of(extension@) == "ppm"@ {
            Some(OutputFormat::Ppm)
        } else if lowercase_of(extension@) == "png"@ {
            Some(OutputFormat::Png)
        } else {
            None
        },
{
    let cleaned_extension = lowercase(extension);
    format_named(&cleaned_extension)
}

} // verus!
