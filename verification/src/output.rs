//! Serializing a screen: the uncompressed 24-bit bitmap layout, byte for
//! byte, the RGB byte stream handed to the compressed (PNG) encoder, and
//! the validated output file path.

use vstd::prelude::*;

use crate::errors::Error;
use crate::rendering::Screen;

verus! {

/// `number` rounded up to the next multiple of `multiple`.
pub open spec fn round_up_spec(number: int, multiple: int) -> int {
    if number % multiple == 0 {
        number
    } else {
        number + multiple - number % multiple
    }
}

/// The little-endian bytes of a 32-bit value.
pub open spec fn u32_le_bytes(number: u32) -> Seq<u8> {
    seq![
        (number % 256) as u8,
        ((number / 256) % 256) as u8,
        ((number / 65536) % 256) as u8,
        ((number / 16777216) % 256) as u8,
    ]
}

/// The 14-byte bitmap file header: the `B M` magic, the file size, four
/// reserved bytes, and the fixed pixel-data offset of 54.
pub open spec fn header_bytes_spec(file_size: u32) -> Seq<u8> {
    seq![66u8, 77u8] + u32_le_bytes(file_size) + seq![
        0u8,
        0u8,
        0u8,
        0u8,
        54u8,
        0u8,
        0u8,
        0u8,
    ]
}

/// The 40-byte DIB header: its own size, the resolution, one colour plane,
/// 24 bits per pixel, no compression, the print density, and empty palette
/// fields.
pub open spec fn dib_header_bytes_spec(
    horizontal_resolution: u16,
    vertical_resolution: u16,
    print_dots_per_metre: u32,
) -> Seq<u8> {
    seq![40u8, 0u8, 0u8, 0u8] + u32_le_bytes(horizontal_resolution as u32) + u32_le_bytes(
        vertical_resolution as u32,
    ) + seq![1u8, 0u8, 24u8, 0u8, 0u8, 0u8, 0u8, 0u8, 0u8, 0u8, 0u8, 0u8] + u32_le_bytes(
        print_dots_per_metre,
    ) + u32_le_bytes(print_dots_per_metre) + seq![0u8, 0u8, 0u8, 0u8, 0u8, 0u8, 0u8, 0u8]
}

/// `count` zero bytes.
pub open spec fn zero_bytes(count: nat) -> Seq<u8> {
    Seq::new(count, |k: int| 0u8)
}

/// The first `count` pixels of bitmap row `row`, bottom-up and
/// left-to-right, each as a blue-green-red triple.
pub open spec fn bgr_row_prefix(screen: Screen, row: int, count: int) -> Seq<u8>
    decreases count,
{
    if count <= 0 {
        Seq::empty()
    } else {
        bgr_row_prefix(screen, row, count - 1) + seq![
            screen.pixel(count - 1, row).blue,
            screen.pixel(count - 1, row).green,
            screen.pixel(count - 1, row).red,
        ]
    }
}

/// One full bitmap row with its zero padding to a 4-byte boundary.
pub open spec fn padded_row_bytes(screen: Screen, row: int) -> Seq<u8> {
    bgr_row_prefix(screen, row, screen.horizontal_resolution as int) + zero_bytes(
        (screen.horizontal_resolution % 4) as nat,
    )
}

/// The first `count` padded rows of the bitmap pixel data, bottom-up.
pub open spec fn rows_prefix_bytes(screen: Screen, count: int) -> Seq<u8>
    decreases count,
{
    if count <= 0 {
        Seq::empty()
    } else {
        rows_prefix_bytes(screen, count - 1) + padded_row_bytes(screen, count - 1)
    }
}

/// The byte size of the whole bitmap file: a 54-byte header plus the padded
/// rows.
pub open spec fn bitmap_file_size(screen: Screen) -> int {
    54 + screen.vertical_resolution * round_up_spec(3 * screen.horizontal_resolution, 4)
}

/// The complete bitmap file contents for `screen`.
pub open spec fn bitmap_bytes_spec(screen: Screen) -> Seq<u8> {
    header_bytes_spec(bitmap_file_size(screen) as u32) + dib_header_bytes_spec(
        screen.horizontal_resolution,
        screen.vertical_resolution,
        4000,
    ) + rows_prefix_bytes(screen, screen.vertical_resolution as int)
}

/// Rounds the provided number to the next multiple of round_up_to.
pub fn round_up_to_value(number: u32, round_up_to: u32) -> (rounded: u32)
    requires
        round_up_to > 0,
        number + round_up_to <= u32::MAX,
    ensures
        rounded == round_up_spec(number as int, round_up_to as int),
{
    if number % round_up_to == 0 {
        number
    } else {
        number + round_up_to - (number % round_up_to)
    }
}

/// Adds the little-endian bytes of a u32 to the provided bitmap bytes.
pub fn add_bytes_of_u32(bitmap_bytes: &mut Vec<u8>, number: u32)
    ensures
        final(bitmap_bytes)@ == old(bitmap_bytes)@ + u32_le_bytes(number),
{
    bitmap_bytes.push((number % 256) as u8);
    bitmap_bytes.push(((number / 256) % 256) as u8);
    bitmap_bytes.push(((number / 65536) % 256) as u8);
    bitmap_bytes.push(((number / 16777216) % 256) as u8);
    proof {
        assert(bitmap_bytes@ =~= old(bitmap_bytes)@ + u32_le_bytes(number));
    }
}

/// Adds the bytes for the header to the provided bitmap bytes.
pub fn add_header_bytes(bitmap_bytes: &mut Vec<u8>, file_size: u32)
    ensures
        final(bitmap_bytes)@ == old(bitmap_bytes)@ + header_bytes_spec(file_size),
{
    // B M for Bitmap
    bitmap_bytes.push(66);
    bitmap_bytes.push(77);

    // File size
    add_bytes_of_u32(bitmap_bytes, file_size);

    // Reserved; header size
    bitmap_bytes.push(0);
    bitmap_bytes.push(0);
    bitmap_bytes.push(0);
    bitmap_bytes.push(0);
    bitmap_bytes.push(54);
    bitmap_bytes.push(0);
    bitmap_bytes.push(0);
    bitmap_bytes.push(0);
    proof {
        assert(bitmap_bytes@ =~= old(bitmap_bytes)@ + header_bytes_spec(file_size));
    }
}

/// Adds the bytes for the DIB header to the provided bitmap bytes.
pub fn add_dib_header_bytes(
    bitmap_bytes: &mut Vec<u8>,
    horizontal_resolution: u16,
    vertical_resolution: u16,
    print_dots_per_metre: u32,
)
    ensures
        final(bitmap_bytes)@ == old(bitmap_bytes)@ + dib_header_bytes_spec(
            horizontal_resolution,
            vertical_resolution,
            print_dots_per_metre,
        ),
{
    bitmap_bytes.push(40);
    bitmap_bytes.push(0);
    bitmap_bytes.push(0);
    bitmap_bytes.push(0);

    add_bytes_of_u32(bitmap_bytes, horizontal_resolution as u32);
    add_bytes_of_u32(bitmap_bytes, vertical_resolution as u32);

    // Colour planes
    bitmap_bytes.push(1);
    bitmap_bytes.push(0);
    // Bits per pixel
    bitmap_bytes.push(24);
    bitmap_bytes.push(0);
    // No compression
    bitmap_bytes.push(0);
    bitmap_bytes.push(0);
    bitmap_bytes.push(0);
    bitmap_bytes.push(0);
    // Raw size - ignored when no compression is used
    bitmap_bytes.push(0);
    bitmap_bytes.push(0);
    bitmap_bytes.push(0);
    bitmap_bytes.push(0);

    add_bytes_of_u32(bitmap_bytes, print_dots_per_metre);
    add_bytes_of_u32(bitmap_bytes, print_dots_per_metre);

    // 2^n colours in palette (from 0)
    bitmap_bytes.push(0);
    bitmap_bytes.push(0);
    bitmap_bytes.push(0);
    bitmap_bytes.push(0);
    // All colours are important (from 0)
    bitmap_bytes.push(0);
    bitmap_bytes.push(0);
    bitmap_bytes.push(0);
    bitmap_bytes.push(0);
    proof {
        assert(bitmap_bytes@ =~= old(bitmap_bytes)@ + dib_header_bytes_spec(
            horizontal_resolution,
            vertical_resolution,
            print_dots_per_metre,
        ));
    }
}

/// Creates a bitmap file from the screen and outputs it as a `Vec<u8>`, to
/// later be written to a file.
pub fn create_bitmap_bytes(screen: &Screen) -> (bitmap_bytes: Vec<u8>)
    requires
        screen.wf(),
        bitmap_file_size(*screen) <= u32::MAX,
    ensures
        bitmap_bytes@ == bitmap_bytes_spec(*screen),
{
    let row_size = round_up_to_value(3 * (screen.horizontal_resolution as u32), 4);
    let file_size = 54 + (screen.vertical_resolution as u32) * row_size;

    let mut bitmap_bytes: Vec<u8> = Vec::new();

    add_header_bytes(&mut bitmap_bytes, file_size);
    add_dib_header_bytes(
        &mut bitmap_bytes,
        screen.horizontal_resolution,
        screen.vertical_resolution,
        4000,
    );

    let ghost headers = bitmap_bytes@;

    let padding = screen.horizontal_resolution % 4;

    let mut i: u16 = 0;
    while i < screen.vertical_resolution
        invariant
            screen.wf(),
            i <= screen.vertical_resolution,
            padding == screen.horizontal_resolution % 4,
            bitmap_bytes@ == headers + rows_prefix_bytes(*screen, i as int),
        decreases screen.vertical_resolution - i,
    {
        let mut j: u16 = 0;
        while j < screen.horizontal_resolution
            invariant
                screen.wf(),
                i < screen.vertical_resolution,
                j <= screen.horizontal_resolution,
                bitmap_bytes@ == headers + rows_prefix_bytes(*screen, i as int)
                    + bgr_row_prefix(*screen, i as int, j as int),
            decreases screen.horizontal_resolution - j,
        {
            let colour = screen.get_pixel(j as usize, i as usize);
            bitmap_bytes.push(colour.blue);
            bitmap_bytes.push(colour.green);
            bitmap_bytes.push(colour.red);
            proof {
                assert(bitmap_bytes@ =~= headers + rows_prefix_bytes(*screen, i as int)
                    + bgr_row_prefix(*screen, i as int, j as int + 1));
            }
            j = j + 1;
        }

        let mut k: u16 = 0;
        while k < padding
            invariant
                screen.wf(),
                i < screen.vertical_resolution,
                k <= padding,
                padding == screen.horizontal_resolution % 4,
                bitmap_bytes@ == headers + rows_prefix_bytes(*screen, i as int)
                    + bgr_row_prefix(
                    *screen,
                    i as int,
                    screen.horizontal_resolution as int,
                ) + zero_bytes(k as nat),
            decreases padding - k,
        {
            bitmap_bytes.push(0);
            proof {
                assert(bitmap_bytes@ =~= headers + rows_prefix_bytes(*screen, i as int)
                    + bgr_row_prefix(
                    *screen,
                    i as int,
                    screen.horizontal_resolution as int,
                ) + zero_bytes((k + 1) as nat));
            }
            k = k + 1;
        }

        proof {
            assert(bitmap_bytes@ =~= headers + rows_prefix_bytes(*screen, i as int + 1));
        }
        i = i + 1;
    }

    bitmap_bytes
}

proof fn lemma_bgr_row_prefix_len(screen: Screen, row: int, count: int)
    requires
        count >= 0,
    ensures
        bgr_row_prefix(screen, row, count).len() == 3 * count,
    decreases count,
{
    if count > 0 {
        lemma_bgr_row_prefix_len(screen, row, count - 1);
    }
}

proof fn lemma_rows_prefix_len(screen: Screen, count: int)
    requires
        count >= 0,
    ensures
        rows_prefix_bytes(screen, count).len() == count * (3 * screen.horizontal_resolution as int
            + (screen.horizontal_resolution % 4) as int),
    decreases count,
{
    let padded_len = 3 * screen.horizontal_resolution as int + (screen.horizontal_resolution
        % 4) as int;
    if count > 0 {
        lemma_rows_prefix_len(screen, count - 1);
        lemma_bgr_row_prefix_len(screen, count - 1, screen.horizontal_resolution as int);
        assert(rows_prefix_bytes(screen, count).len() == (count - 1) * padded_len + padded_len);
        assert((count - 1) * padded_len + padded_len == count * padded_len) by (nonlinear_arith);
    } else {
        assert(count * padded_len == 0) by (nonlinear_arith)
            requires
                count == 0,
        ;
    }
}

/// The encoder writes exactly as many bytes as the file size named in the
/// bitmap header: 54 header bytes, then one padded row per vertical pixel,
/// each of `round_up_spec(3 * width, 4)` bytes.
pub proof fn lemma_bitmap_bytes_len(screen: Screen)
    ensures
        bitmap_bytes_spec(screen).len() == bitmap_file_size(screen),
{
    let h = screen.horizontal_resolution as int;
    let v = screen.vertical_resolution as int;
    assert(round_up_spec(3 * h, 4) == 3 * h + h % 4) by (nonlinear_arith)
        requires
            h >= 0,
    ;
    lemma_rows_prefix_len(screen, v);
    assert(v * (3 * h + h % 4) == v * round_up_spec(3 * h, 4)) by (nonlinear_arith)
        requires
            round_up_spec(3 * h, 4) == 3 * h + h % 4,
    ;
}

/// The first `count` pixels of PNG row `row`, left-to-right, each as a
/// red-green-blue triple.
pub open spec fn rgb_row_prefix(screen: Screen, row: int, count: int) -> Seq<u8>
    decreases count,
{
    if count <= 0 {
        Seq::empty()
    } else {
        rgb_row_prefix(screen, row, count - 1) + seq![
            screen.pixel(count - 1, row).red,
            screen.pixel(count - 1, row).green,
            screen.pixel(count - 1, row).blue,
        ]
    }
}

/// The first `count` rows of the PNG byte stream; rows run top-to-bottom,
/// so row `vertical_resolution - 1` comes first.
pub open spec fn rgb_rows_prefix(screen: Screen, count: int) -> Seq<u8>
    decreases count,
{
    if count <= 0 {
        Seq::empty()
    } else {
        rgb_rows_prefix(screen, count - 1) + rgb_row_prefix(
            screen,
            screen.vertical_resolution - count,
            screen.horizontal_resolution as int,
        )
    }
}

/// The RGB byte stream of the whole image, top-to-bottom and left-to-right.
pub open spec fn rgb_bytes_spec(screen: Screen) -> Seq<u8> {
    rgb_rows_prefix(screen, screen.vertical_resolution as int)
}

/// The RGB byte stream holds exactly three bytes per pixel.
pub proof fn lemma_rgb_bytes_len(screen: Screen)
    ensures
        rgb_bytes_spec(screen).len() == 3 * screen.horizontal_resolution as int
            * screen.vertical_resolution as int,
{
    let h = screen.horizontal_resolution as int;
    let v = screen.vertical_resolution as int;
    lemma_rgb_rows_prefix_len(screen, v);
    assert(v * (3 * h) == 3 * h * v) by (nonlinear_arith);
}

/// Creates an array of RGB values from the image.
pub fn create_rgb_byte_array(screen: &Screen) -> (bytes: Vec<u8>)
    requires
        screen.wf(),
    ensures
        bytes@ == rgb_bytes_spec(*screen),
{
    let mut bytes: Vec<u8> = Vec::new();

    let mut y: u16 = screen.vertical_resolution;
    while y > 0
        invariant
            screen.wf(),
            y <= screen.vertical_resolution,
            bytes@ == rgb_rows_prefix(*screen, screen.vertical_resolution - y),
        decreases y,
    {
        y = y - 1;
        let mut x: u16 = 0;
        while x < screen.horizontal_resolution
            invariant
                screen.wf(),
                y < screen.vertical_resolution,
                x <= screen.horizontal_resolution,
                bytes@ == rgb_rows_prefix(
                    *screen,
                    screen.vertical_resolution - y - 1,
                ) + rgb_row_prefix(*screen, y as int, x as int),
            decreases screen.horizontal_resolution - x,
        {
            let current_colour = screen.get_pixel(x as usize, y as usize);
            bytes.push(current_colour.red);
            bytes.push(current_colour.green);
            bytes.push(current_colour.blue);
            proof {
                assert(bytes@ =~= rgb_rows_prefix(
                    *screen,
                    screen.vertical_resolution - y - 1,
                ) + rgb_row_prefix(*screen, y as int, x as int + 1));
            }
            x = x + 1;
        }
        proof {
            assert(bytes@ =~= rgb_rows_prefix(*screen, screen.vertical_resolution - y));
        }
    }

    bytes
}

/// The compressed (PNG) encoding of an 8-bit RGB image: a pure function of
/// the dimensions and the pixel bytes.
pub uninterp spec fn png_encoding_of(width: u16, height: u16, rgb_data: Seq<u8>) -> Seq<u8>;

/// Relies on png::Encoder with 8-bit depth, RGB colour and fastest
/// compression: encoding into a memory buffer is deterministic, a function
/// of the dimensions and pixel bytes alone. With nonzero dimensions it
/// succeeds: the header is rejected only for a zero width or height or an
/// invalid colour/depth combination (8-bit RGB is valid), the pixel data
/// only for an indexed image without a palette or a length other than the
/// one required here, and every write goes to the in-memory buffer, which
/// cannot fail.
#[verifier::external_body]
fn encode_png_rgb(width: u16, height: u16, data: &Vec<u8>) -> (encoded: Result<Vec<u8>, String>)
    requires
        data@.len() == 3 * width * height,
    ensures
        encoded matches Ok(bytes) ==> bytes@ == png_encoding_of(width, height, data@),
        width > 0 && height > 0 ==> encoded is Ok,
{
    let mut out: Vec<u8> = Vec::new();
    let mut encoder = png::Encoder::new(&mut out, u32::from(width), u32::from(height));
    encoder.set_depth(png::BitDepth::Eight);
    encoder.set_color(png::ColorType::Rgb);
    encoder.set_compression(png::Compression::Fast);
    let mut writer = match encoder.write_header() {
        Ok(writer) => writer,
        Err(e) => return Err(e.to_string()),
    };
    let written = writer.write_image_data(data).and_then(|_| writer.finish());
    match written {
        Ok(_) => Ok(out),
        Err(e) => Err(e.to_string()),
    }
}

proof fn lemma_rgb_row_prefix_len(screen: Screen, row: int, count: int)
    requires
        count >= 0,
    ensures
        rgb_row_prefix(screen, row, count).len() == 3 * count,
    decreases count,
{
    if count > 0 {
        lemma_rgb_row_prefix_len(screen, row, count - 1);
    }
}

proof fn lemma_rgb_rows_prefix_len(screen: Screen, count: int)
    requires
        count >= 0,
    ensures
        rgb_rows_prefix(screen, count).len() == count * (3
            * screen.horizontal_resolution as int),
    decreases count,
{
    if count > 0 {
        lemma_rgb_rows_prefix_len(screen, count - 1);
        lemma_rgb_row_prefix_len(
            screen,
            screen.vertical_resolution - count,
            screen.horizontal_resolution as int,
        );
        let row_len = 3 * screen.horizontal_resolution as int;
        assert(rgb_rows_prefix(screen, count).len() == (count - 1) * row_len + row_len);
        assert((count - 1) * row_len + row_len == count * row_len) by (nonlinear_arith);
    } else {
        let row_len = 3 * screen.horizontal_resolution as int;
        assert(count * row_len == 0) by (nonlinear_arith)
            requires
                count == 0,
        ;
    }
}

/// Encodes the screen as a compressed (PNG) byte stream: 8-bit RGB, rows
/// top-to-bottom. For a screen with pixels in both directions the encoding
/// succeeds; on an encoder failure the error carries the intended file
/// path and the encoder's message.
pub fn encode_screen_png(screen: &Screen, file_path: &str) -> (encoded: Result<Vec<u8>, Error>)
    requires
        screen.wf(),
    ensures
        encoded matches Ok(bytes) ==> bytes@ == png_encoding_of(
            screen.horizontal_resolution,
            screen.vertical_resolution,
            rgb_bytes_spec(*screen),
        ),
        encoded matches Err(e) ==> e matches Error::PngError(path, _) && path@ == file_path@,
        screen.horizontal_resolution > 0 && screen.vertical_resolution > 0 ==> (encoded matches Ok(
            bytes,
        ) && bytes@ == png_encoding_of(
            screen.horizontal_resolution,
            screen.vertical_resolution,
            rgb_bytes_spec(*screen),
        )),
{
    let data = create_rgb_byte_array(screen);
    proof {
        lemma_rgb_rows_prefix_len(*screen, screen.vertical_resolution as int);
        assert(screen.vertical_resolution as int * (3 * screen.horizontal_resolution as int) == 3
            * screen.horizontal_resolution as int * screen.vertical_resolution as int)
            by (nonlinear_arith);
    }
    match encode_png_rgb(screen.horizontal_resolution, screen.vertical_resolution, &data) {
        Ok(bytes) => Ok(bytes),
        Err(message) => Err(Error::PngError(file_path.to_owned(), message)),
    }
}

/// Relies on std::path::Path::is_dir: whether the path names an existing
/// directory on disk. Nothing is assumed of the answer.
#[verifier::external_body]
fn directory_exists(path: &str) -> bool {
    std::path::Path::new(path).is_dir()
}

/// The path the rasterizer writes a file to: the folder, a separator unless
/// the folder already ends with one, then the file name and its extension.
pub open spec fn joined_path_spec(
    folder: Seq<char>,
    filename: Seq<char>,
    extension: Seq<char>,
) -> Seq<char> {
    if folder.len() > 0 && folder.last() == '/' {
        folder + filename + seq!['.'] + extension
    } else {
        folder + seq!['/'] + filename + seq!['.'] + extension
    }
}

/// Generates and validates a filepath based on the output folder, filename
/// and extension. Fails with `Error::InvalidDirectory` when the output
/// folder does not currently name a directory; what is on disk is beyond
/// this crate, so no clause says when that happens.
pub fn generate_file_path(output_folder: &str, filename: &str, extension: &str) -> (file_path:
    Result<String, Error>)
    ensures
        file_path matches Ok(path) ==> path@ == joined_path_spec(
            output_folder@,
            filename@,
            extension@,
        ),
        file_path matches Err(e) ==> e matches Error::InvalidDirectory(folder) && folder@
            == output_folder@,
{
    if directory_exists(output_folder) {
        let mut path = String::from_str(output_folder);
        let length = output_folder.unicode_len();
        let needs_separator = if length == 0 {
            true
        } else {
            output_folder.get_char(length - 1) != '/'
        };
        if needs_separator {
            path.append("/");
        }
        path.append(filename);
        path.append(".");
        path.append(extension);
        proof {
            reveal_strlit("/");
            reveal_strlit(".");
            assert(path@ =~= joined_path_spec(output_folder@, filename@, extension@));
        }
        Ok(path)
    } else {
        Err(Error::InvalidDirectory(String::from_str(output_folder)))
    }
}

} // verus!
