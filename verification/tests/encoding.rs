use mathil::animation::frame_filename;
use mathil::animation::frame_filenames;
use mathil::colours::Colour;
use mathil::errors::Error;
use mathil::maths_objects::dashed_line_divisions;
use mathil::maths_objects::polygon_edge_indices;
use mathil::numerals::decimal_string;
use mathil::numerals::signed_decimal_string;
use mathil::output::add_bytes_of_u32;
use mathil::output::add_dib_header_bytes;
use mathil::output::add_header_bytes;
use mathil::output::create_bitmap_bytes;
use mathil::output::create_rgb_byte_array;
use mathil::output::encode_screen_png;
use mathil::output::generate_file_path;
use mathil::output::round_up_to_value;
use mathil::rendering::PolygonFillRenderSettings;
use mathil::rendering::Screen;

#[test]
fn round_up_to_value_rounds_to_multiples() {
    assert_eq!(round_up_to_value(0, 4), 0);
    assert_eq!(round_up_to_value(3, 4), 4);
    assert_eq!(round_up_to_value(4, 4), 4);
    assert_eq!(round_up_to_value(5, 4), 8);
    assert_eq!(round_up_to_value(7, 3), 9);
}

#[test]
fn u32_bytes_are_little_endian() {
    let mut bytes: Vec<u8> = Vec::new();
    add_bytes_of_u32(&mut bytes, 0x0102_0304);
    assert_eq!(bytes, vec![4, 3, 2, 1]);
}

#[test]
fn header_bytes_have_the_fixed_layout() {
    let mut bytes: Vec<u8> = Vec::new();
    add_header_bytes(&mut bytes, 58);
    assert_eq!(
        bytes,
        vec![b'B', b'M', 58, 0, 0, 0, 0, 0, 0, 0, 54, 0, 0, 0]
    );
}

#[test]
fn dib_header_bytes_have_the_fixed_layout() {
    let mut bytes: Vec<u8> = Vec::new();
    add_dib_header_bytes(&mut bytes, 1, 1, 4000);
    let expected: Vec<u8> = vec![
        40, 0, 0, 0, // header size
        1, 0, 0, 0, // width
        1, 0, 0, 0, // height
        1, 0, // colour planes
        24, 0, // bits per pixel
        0, 0, 0, 0, // no compression
        0, 0, 0, 0, // raw size
        160, 15, 0, 0, // horizontal pixels per metre (4000)
        160, 15, 0, 0, // vertical pixels per metre (4000)
        0, 0, 0, 0, // palette colours
        0, 0, 0, 0, // important colours
    ];
    assert_eq!(bytes, expected);
}

// A 1x1 white screen encodes to exactly 58 bytes: the 54-byte header pair
// and one row of 3 pixel bytes padded to 4.
#[test]
fn one_pixel_bitmap_is_58_bytes() {
    let screen = Screen::new(1, 1, Colour::new(255, 255, 255));
    let bytes = create_bitmap_bytes(&screen);
    assert_eq!(bytes.len(), 58);
    assert_eq!(&bytes[0..2], &[b'B', b'M']);
    assert_eq!(&bytes[2..6], &[58, 0, 0, 0]);
    assert_eq!(&bytes[54..58], &[255, 255, 255, 0]);
}

#[test]
fn bitmap_rows_run_bottom_up_in_bgr_order() {
    let mut screen = Screen::new(2, 2, Colour::new(0, 0, 0));
    screen.set_pixel(0, 0, Colour::new(1, 2, 3));
    screen.set_pixel(1, 0, Colour::new(4, 5, 6));
    screen.set_pixel(0, 1, Colour::new(7, 8, 9));
    screen.set_pixel(1, 1, Colour::new(10, 11, 12));
    let bytes = create_bitmap_bytes(&screen);
    // 54 header bytes, then row y=0 (bottom), then row y=1, each padded by
    // 2 zero bytes (width 2).
    assert_eq!(bytes.len(), 54 + 2 * 8);
    assert_eq!(&bytes[54..62], &[3, 2, 1, 6, 5, 4, 0, 0]);
    assert_eq!(&bytes[62..70], &[9, 8, 7, 12, 11, 10, 0, 0]);
}

#[test]
fn rgb_byte_array_runs_top_down_in_rgb_order() {
    let mut screen = Screen::new(2, 2, Colour::new(0, 0, 0));
    screen.set_pixel(0, 0, Colour::new(1, 2, 3));
    screen.set_pixel(1, 0, Colour::new(4, 5, 6));
    screen.set_pixel(0, 1, Colour::new(7, 8, 9));
    screen.set_pixel(1, 1, Colour::new(10, 11, 12));
    let bytes = create_rgb_byte_array(&screen);
    assert_eq!(bytes, vec![7, 8, 9, 10, 11, 12, 1, 2, 3, 4, 5, 6]);
}

#[test]
fn png_encoding_produces_a_png_stream() {
    let screen = Screen::new(1, 1, Colour::new(255, 255, 255));
    let encoded = encode_screen_png(&screen, "out.png").expect("encoding should succeed");
    // The fixed PNG signature; the stream is compressed, not the raw RGB
    // bytes handed to the encoder.
    assert_eq!(&encoded[0..8], &[137, 80, 78, 71, 13, 10, 26, 10]);
    assert_ne!(encoded, create_rgb_byte_array(&screen));
}

#[test]
fn generate_file_path_joins_folder_name_and_extension() {
    let path = generate_file_path(".", "picture", "bmp").expect("current directory exists");
    assert_eq!(path, "./picture.bmp");
}

#[test]
fn generate_file_path_keeps_a_trailing_separator() {
    let path = generate_file_path("./", "picture", "png").expect("current directory exists");
    assert_eq!(path, "./picture.png");
}

#[test]
fn generate_file_path_rejects_a_missing_directory() {
    let result = generate_file_path("./no-such-directory-anywhere", "picture", "bmp");
    match result {
        Err(Error::InvalidDirectory(folder)) => {
            assert_eq!(folder, "./no-such-directory-anywhere");
        }
        _ => panic!("a missing directory must be rejected"),
    }
}

#[test]
fn error_messages_name_the_failure() {
    assert_eq!(
        Error::InvalidDirectory(String::from("frames")).to_string(),
        "Provided directory \"frames\" is invalid."
    );
    assert_eq!(
        Error::FileCreation(String::from("a.bmp"), Some(13)).to_string(),
        "Could not create file at \"a.bmp\". OS error 13"
    );
    assert_eq!(
        Error::FileCreation(String::from("a.bmp"), None).to_string(),
        "Could not create file at \"a.bmp\""
    );
    assert_eq!(
        Error::FileWrite(String::from("b.png"), Some(28)).to_string(),
        "Could not write to file at \"b.png\". OS error 28"
    );
    assert_eq!(
        Error::FileWrite(String::from("b.png"), None).to_string(),
        "Could not write to file at \"b.png\""
    );
    assert_eq!(
        Error::PngError(String::from("c.png"), String::from("bad stream")).to_string(),
        "PNG encoding error for \"c.png\": bad stream"
    );
}

#[test]
fn decimal_strings_render_numbers() {
    assert_eq!(decimal_string(0), "0");
    assert_eq!(decimal_string(7), "7");
    assert_eq!(decimal_string(42), "42");
    assert_eq!(decimal_string(4_294_967_295), "4294967295");
    assert_eq!(signed_decimal_string(-13), "-13");
    assert_eq!(signed_decimal_string(13), "13");
    assert_eq!(signed_decimal_string(-2_147_483_648), "-2147483648");
}

#[test]
fn frame_filenames_are_zero_padded_to_eight_digits() {
    assert_eq!(frame_filename(0), "frame_00000000");
    assert_eq!(frame_filename(42), "frame_00000042");
    assert_eq!(frame_filename(12_345_678), "frame_12345678");
    assert_eq!(frame_filename(123_456_789), "frame_123456789");
}

#[test]
fn frame_filenames_continue_across_scenes() {
    let names = frame_filenames(10, 3);
    assert_eq!(names.len(), 3);
    assert_eq!(names[0], "frame_00000010");
    assert_eq!(names[1], "frame_00000011");
    assert_eq!(names[2], "frame_00000012");
}

#[test]
fn frame_filenames_sort_in_frame_order() {
    let names = frame_filenames(0, 12);
    for window in names.windows(2) {
        assert!(window[0] < window[1]);
    }
}

// A polygon needs at least three vertices; two are rejected.
#[test]
fn two_vertex_polygon_is_rejected() {
    assert!(polygon_edge_indices(0).is_none());
    assert!(polygon_edge_indices(1).is_none());
    assert!(polygon_edge_indices(2).is_none());
}

#[test]
fn triangle_edges_form_the_closed_cycle() {
    let edges = polygon_edge_indices(3).expect("three vertices are enough");
    assert_eq!(edges, vec![(0, 2), (0, 1), (1, 2)]);
    let square = polygon_edge_indices(4).expect("four vertices are enough");
    assert_eq!(square, vec![(0, 3), (0, 1), (1, 2), (2, 3)]);
}

#[test]
fn dashes_keep_every_other_division() {
    assert_eq!(dashed_line_divisions(1), vec![(0, 1)]);
    assert_eq!(dashed_line_divisions(3), vec![(0, 1), (2, 3), (4, 5)]);
}

#[test]
fn polygon_fill_settings_keep_their_colour() {
    let settings = PolygonFillRenderSettings::new(Colour::new(9, 8, 7));
    assert_eq!(settings.colour, Colour::new(9, 8, 7));
}

#[test]
fn bitmap_length_matches_the_declared_file_size() {
    // Width 3: each row is 9 pixel bytes padded to 12; two rows.
    let screen = Screen::new(3, 2, Colour::new(0, 0, 0));
    let bytes = create_bitmap_bytes(&screen);
    assert_eq!(bytes.len(), 54 + 2 * 12);
    assert_eq!(&bytes[2..6], &[78, 0, 0, 0]);
}
